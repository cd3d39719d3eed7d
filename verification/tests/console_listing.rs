use alea_core::console::{flush, ready_to_flush, Console, Device, END_OF_MESSAGE};
use alea_core::memory::{Memory, MemoryMap};
use alea_core::isa::{CmpFlags, InstVariant, Instruction, InstructionData, Register};
use alea_core::listing::{disassemble, ListingError, ListingLine};
use bytes::BytesMut;

#[test]
fn console_waits_for_the_end_byte() {
    let buf = BytesMut::from(&b"hello"[..]);
    assert!(!ready_to_flush(&buf));
    let buf = BytesMut::from(&b"hi\x17"[..]);
    assert!(ready_to_flush(&buf));
    assert!(!ready_to_flush(&BytesMut::new()));
    assert_eq!(END_OF_MESSAGE, 0x17);
}

#[test]
fn console_flush_takes_the_message_out() {
    let mut buf = BytesMut::from(&b"hello, world!\n\x17abc"[..]);
    let msg = flush(&mut buf);
    assert_eq!(msg, b"hello, world!\n".to_vec());
    let mut rest = vec![0u8; 15];
    rest.extend_from_slice(b"abc");
    assert_eq!(&buf[..], &rest[..]);
    assert!(!ready_to_flush(&buf));
}

#[test]
fn console_flush_without_end_byte_takes_everything() {
    let mut buf = BytesMut::from(&b"ab"[..]);
    assert_eq!(flush(&mut buf), b"ab".to_vec());
    assert_eq!(&buf[..], &[0, 0]);
    let mut buf = BytesMut::from(&b"\x17x"[..]);
    assert_eq!(flush(&mut buf), Vec::<u8>::new());
    assert_eq!(&buf[..], &[0, b'x']);
}

#[test]
fn console_device_prints_after_a_step() {
    let mut c = Console(BytesMut::zeroed(8), Vec::new());
    c.write(0, b'o');
    c.write(1, b'k');
    c.post_step();
    assert!(c.1.is_empty());
    assert_eq!(c.read(1), b'k');
    c.write(2, END_OF_MESSAGE);
    c.write(3, b'z');
    c.post_step();
    assert_eq!(c.1, b"ok".to_vec());
    assert_eq!(&c.0[..], &[0, 0, 0, b'z', 0, 0, 0, 0]);
    assert_eq!(c.take_output(), b"ok".to_vec());
    assert!(c.1.is_empty());
    assert_eq!(c.size(), 8);
}

#[test]
fn devices_in_a_map() {
    let mut map: MemoryMap<Device> = MemoryMap::default();
    map.add(Device::Ram(BytesMut::zeroed(0x10)), 0).unwrap();
    map.add(Device::Console(Console(BytesMut::zeroed(0x4), Vec::new())), 0x100).unwrap();
    map.write(0x100, b'!');
    map.write(0x101, END_OF_MESSAGE);
    map.write(0x3, 7);
    for m in map.mems.iter_mut() {
        m.inner.post_step();
    }
    assert_eq!(map.read(0x3), 7);
    match &mut map.mems[1].inner {
        Device::Console(c) => assert_eq!(c.take_output(), b"!".to_vec()),
        Device::Ram(_) => panic!("not a console"),
    }
    assert_eq!(map.read(0x100), 0);
}

fn always(var: InstVariant) -> Instruction {
    Instruction { cmp: CmpFlags { gt: true, eq: true, lt: true }, sign: false, var }
}

fn image(words: &[u32]) -> BytesMut {
    let mut v = Vec::new();
    for w in words {
        v.extend_from_slice(&w.to_le_bytes());
    }
    BytesMut::from(&v[..])
}

#[test]
fn listing_of_a_program() {
    let mov = always(InstVariant::Mov(InstructionData::RegisterAndU32(Register::R0, ())));
    let halt = always(InstVariant::Halt);
    let prog = image(&[mov.into(), 0x2000, halt.into()]);
    let (lines, err) = disassemble(&prog);
    assert_eq!(
        lines,
        vec![
            ListingLine::Instruction(0, mov),
            ListingLine::Literal(4, 0x2000),
            ListingLine::Instruction(8, halt),
        ]
    );
    assert_eq!(err, None);
    let (lines, err) = disassemble(&BytesMut::new());
    assert!(lines.is_empty());
    assert_eq!(err, None);
}

#[test]
fn listing_stops_at_a_short_tail() {
    let halt = always(InstVariant::Halt);
    let mut prog = image(&[halt.into()]);
    prog.extend_from_slice(&[1, 2]);
    let (lines, err) = disassemble(&prog);
    assert_eq!(lines, vec![ListingLine::Instruction(0, halt)]);
    assert_eq!(err, Some(ListingError::Truncated(4)));

    let mov = always(InstVariant::Mov(InstructionData::RegisterAndU32(Register::R1, ())));
    let prog = image(&[mov.into()]);
    let (lines, err) = disassemble(&prog);
    assert_eq!(lines, vec![ListingLine::Instruction(0, mov)]);
    assert_eq!(err, Some(ListingError::Truncated(4)));
}

#[test]
fn listing_stops_at_an_undecodable_word() {
    let halt = always(InstVariant::Halt);
    let prog = image(&[halt.into(), 0xF800_0000, halt.into()]);
    let (lines, err) = disassemble(&prog);
    assert_eq!(lines, vec![ListingLine::Instruction(0, halt)]);
    assert_eq!(err, Some(ListingError::Undecodable(4, 0xF800_0000)));
}

#[test]
fn peripheral_calls_reach_every_device() {
    let mut cpu: alea_core::vcore::CPU<Device> = alea_core::vcore::CPU::default();
    cpu.mmap.add(Device::Ram(BytesMut::from(&b"abc"[..])), 0).unwrap();
    cpu.mmap.add(Device::Console(Console(BytesMut::zeroed(4), Vec::new())), 0x10).unwrap();
    cpu.mmap.write(0x10, b'h');
    cpu.mmap.write(0x11, b'i');
    cpu.call_peripherals_pre();
    assert_eq!(cpu.mmap.read(0x10), b'h');
    cpu.mmap.write(0x12, END_OF_MESSAGE);
    cpu.call_peripherals_post();
    assert_eq!(cpu.mmap.read(0x10), 0);
    assert_eq!(cpu.mmap.read(0x12), 0);
    assert_eq!(cpu.mmap.read(1), b'b');
    match &mut cpu.mmap.mems[1].inner {
        Device::Console(c) => assert_eq!(c.take_output(), b"hi".to_vec()),
        Device::Ram(_) => panic!("not a console"),
    }
}

#[test]
fn listing_of_an_image_that_fits() {
    let halt = always(InstVariant::Halt);
    let prog = image(&[halt.into()]);
    let (lines, err) = alea_core::listing::try_disassemble(&prog).unwrap();
    assert_eq!(lines, vec![ListingLine::Instruction(0, halt)]);
    assert_eq!(err, None);
}

#[test]
fn console_write_keeps_printed_text() {
    let mut c = Console(BytesMut::zeroed(2), b"old".to_vec());
    c.write(0, b'x');
    c.write(5, b'y');
    assert_eq!(c.1, b"old".to_vec());
    assert_eq!(&c.0[..], &[b'x', 0]);
}
