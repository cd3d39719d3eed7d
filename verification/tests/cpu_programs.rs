use alea_core::isa::{CmpFlags, InstVariant, Instruction, InstructionData, Register, State};
use alea_core::memory::Memory;
use alea_core::vcore::{halt_outcome, CPUError, CPU};
use bytes::BytesMut;

use InstructionData::{
    ImmediateOnly, OneRegister, RegisterAndU32, RegisterAndU8, ThreeRegisters, TwoRegisters,
    TwoRegistersAndU8,
};
use Register::{R0, R1, R2, R3, R4};

const ALWAYS: CmpFlags = CmpFlags { gt: true, eq: true, lt: true };
const STACK_TOP: u32 = 0x5000;
const CALL_STACK_TOP: u32 = 0x4800;

fn op(var: InstVariant) -> u32 {
    Instruction { cmp: ALWAYS, sign: false, var }.into()
}

fn neg(var: InstVariant) -> u32 {
    Instruction { cmp: ALWAYS, sign: true, var }.into()
}

fn when(cmp: CmpFlags, var: InstVariant) -> u32 {
    Instruction { cmp, sign: false, var }.into()
}

/// A machine with `words` at address 0 and 4 KiB of zeroed memory at 0x4000.
fn machine(words: &[u32]) -> CPU<BytesMut> {
    let mut image = Vec::new();
    for w in words {
        image.extend_from_slice(&w.to_le_bytes());
    }
    let mut cpu: CPU<BytesMut> = CPU::default();
    cpu.mmap.add(BytesMut::from(&image[..]), 0).unwrap();
    cpu.mmap.add(BytesMut::zeroed(0x1000), 0x4000).unwrap();
    cpu.reg.sa = STACK_TOP;
    cpu.reg.cs = CALL_STACK_TOP;
    cpu
}

/// Steps until the machine halts; fails on any other error or after `limit` steps.
fn run(cpu: &mut CPU<BytesMut>, limit: usize) {
    for _ in 0..limit {
        match cpu.step() {
            Ok(()) => {}
            Err(CPUError::Halt) => return,
            Err(e) => panic!("stopped with {:?}", e),
        }
    }
    panic!("no halt after {} steps", limit);
}

#[test]
fn default_machine() {
    let cpu: CPU<BytesMut> = CPU::default();
    assert!(cpu.mmap.mems.is_empty());
    assert_eq!(cpu.reg.st, State(7));
    assert_eq!(cpu.reg.ia, 0);
    assert!(!cpu.step_wait);
}

#[test]
fn move_and_add() {
    let mut cpu = machine(&[
        op(InstVariant::Mov(RegisterAndU8(R0, 5))),
        op(InstVariant::Add(RegisterAndU8(R0, 3))),
        op(InstVariant::Mov(RegisterAndU32(R1, ()))),
        0x1234_5678,
        op(InstVariant::Add(ThreeRegisters(R2, R0, R1))),
        op(InstVariant::Halt),
    ]);
    cpu.step().unwrap();
    assert_eq!(cpu.reg.r0, 5);
    assert_eq!(cpu.reg.ia, 4);
    cpu.step().unwrap();
    assert_eq!(cpu.reg.r0, 8);
    cpu.step().unwrap();
    assert_eq!(cpu.reg.r1, 0x1234_5678);
    assert_eq!(cpu.reg.ia, 16);
    cpu.step().unwrap();
    assert_eq!(cpu.reg.r2, 0x1234_5680);
    assert_eq!(cpu.step(), Err(CPUError::Halt));
    assert_eq!(cpu.reg.ia, 24);
}

#[test]
fn subtraction_by_the_sign_bit_wraps() {
    let mut cpu = machine(&[
        op(InstVariant::Mov(RegisterAndU8(R0, 3))),
        neg(InstVariant::Add(RegisterAndU8(R0, 10))),
        op(InstVariant::Add(TwoRegistersAndU8(R1, R0, 2))),
        op(InstVariant::Halt),
    ]);
    run(&mut cpu, 10);
    assert_eq!(cpu.reg.r0, 0xFFFF_FFF9);
    assert_eq!(cpu.reg.r1, 0xFFFF_FFFB);
}

#[test]
fn logic_and_multiplication() {
    let mut cpu = machine(&[
        op(InstVariant::Mov(RegisterAndU32(R0, ()))),
        0xF0F0_1234,
        op(InstVariant::Mov(RegisterAndU8(R1, 0xFF))),
        op(InstVariant::And(ThreeRegisters(R2, R0, R1))),
        op(InstVariant::Or(TwoRegistersAndU8(R3, R1, 0x0F))),
        op(InstVariant::Xor(TwoRegisters(R0, R1))),
        op(InstVariant::Not(OneRegister(R1))),
        op(InstVariant::Mov(RegisterAndU32(R4, ()))),
        0x0001_0001,
        op(InstVariant::Mul(RegisterAndU32(R4, ()))),
        0x0001_0000,
        op(InstVariant::Halt),
    ]);
    run(&mut cpu, 20);
    assert_eq!(cpu.reg.r2, 0x34);
    assert_eq!(cpu.reg.r3, 0xFF);
    assert_eq!(cpu.reg.r0, 0xF0F0_12CB);
    assert_eq!(cpu.reg.r1, 0xFFFF_FF00);
    assert_eq!(cpu.reg.r4, 0x0001_0000);
}

#[test]
fn shifts_and_rotation() {
    let mut cpu = machine(&[
        op(InstVariant::Mov(RegisterAndU32(R0, ()))),
        0x8000_00F1,
        op(InstVariant::Lsl(TwoRegistersAndU8(R1, R0, 4))),
        op(InstVariant::Lsr(TwoRegistersAndU8(R2, R0, 4))),
        op(InstVariant::Asr(TwoRegistersAndU8(R3, R0, 4))),
        op(InstVariant::Ror(TwoRegistersAndU8(R4, R0, 4))),
        op(InstVariant::Ror(RegisterAndU8(R0, 0))),
        op(InstVariant::Halt),
    ]);
    run(&mut cpu, 20);
    assert_eq!(cpu.reg.r1, 0x0000_0F10);
    assert_eq!(cpu.reg.r2, 0x0800_000F);
    assert_eq!(cpu.reg.r3, 0xF800_000F);
    assert_eq!(cpu.reg.r4, 0x1800_000F);
    assert_eq!(cpu.reg.r0, 0x8000_00F1);
}

#[test]
fn compare_sets_the_flags() {
    let mut cpu = machine(&[
        op(InstVariant::Mov(RegisterAndU8(R0, 7))),
        op(InstVariant::Cmp(RegisterAndU8(R0, 9))),
        op(InstVariant::Cmp(OneRegister(R0))),
        op(InstVariant::Cmp(RegisterAndU32(R0, ()))),
        7,
        op(InstVariant::Rst),
    ]);
    cpu.step().unwrap();
    cpu.reg.st = State(State::CMP_EN | State::RET_ST | State::CMP_EQ);
    cpu.step().unwrap();
    assert_eq!(cpu.reg.st.get_cmp(), CmpFlags { gt: false, eq: false, lt: true });
    assert!(cpu.reg.st.contains(State(State::CMP_EN | State::RET_ST)));
    cpu.reg.st = State(State::CMP_LT);
    cpu.step().unwrap();
    assert_eq!(cpu.reg.st, State(State::CMP_GT));
    cpu.step().unwrap();
    assert_eq!(cpu.reg.st, State(State::CMP_EQ));
    cpu.step().unwrap();
    assert_eq!(cpu.reg.st, State(7));
}

#[test]
fn conditional_execution_skips_unmet_instructions() {
    let eq = CmpFlags { gt: false, eq: true, lt: false };
    let ne = CmpFlags { gt: true, eq: false, lt: true };
    let mut cpu = machine(&[
        op(InstVariant::Mov(RegisterAndU8(R0, 1))),
        op(InstVariant::Cmp(RegisterAndU8(R0, 2))),
        neg(InstVariant::SetEn),
        when(eq, InstVariant::Mov(RegisterAndU32(R1, ()))),
        0xDEAD_BEEF,
        when(ne, InstVariant::Mov(RegisterAndU8(R2, 0x22))),
        when(eq, InstVariant::Halt),
        op(InstVariant::SetEn),
        when(eq, InstVariant::Mov(RegisterAndU8(R3, 0x33))),
        op(InstVariant::Halt),
    ]);
    for _ in 0..3 {
        cpu.step().unwrap();
    }
    assert!(cpu.reg.st.contains(State(State::CMP_EN)));
    cpu.step().unwrap();
    assert_eq!(cpu.reg.r1, 0);
    assert_eq!(cpu.reg.ia, 20);
    cpu.step().unwrap();
    assert_eq!(cpu.reg.r2, 0x22);
    cpu.step().unwrap();
    assert_eq!(cpu.reg.ia, 28);
    cpu.step().unwrap();
    assert!(!cpu.reg.st.contains(State(State::CMP_EN)));
    cpu.step().unwrap();
    assert_eq!(cpu.reg.r3, 0x33);
    assert_eq!(cpu.step(), Err(CPUError::Halt));
}

#[test]
fn store_then_load() {
    let mut cpu = machine(&[
        op(InstVariant::Mov(RegisterAndU32(R0, ()))),
        0xA1B2_C3D4,
        op(InstVariant::Sto(RegisterAndU32(R0, ()))),
        0x4010,
        op(InstVariant::Mov(RegisterAndU32(R1, ()))),
        0x4010,
        op(InstVariant::Ld(TwoRegisters(R2, R1))),
        op(InstVariant::Ld(RegisterAndU32(R3, ()))),
        0x4012,
        op(InstVariant::Sto(TwoRegisters(R1, R1))),
        op(InstVariant::Halt),
    ]);
    run(&mut cpu, 20);
    assert_eq!(cpu.reg.r2, 0xA1B2_C3D4);
    assert_eq!(cpu.reg.r3, 0x0000_A1B2);
    assert_eq!(cpu.mmap.read_u32(0x4010), 0x4010);
    assert_eq!(cpu.mmap.mems[1].inner[0x10], 0x10);
}

#[test]
fn push_then_pop_gives_the_values_back_in_reverse() {
    let mut cpu = machine(&[
        op(InstVariant::Mov(RegisterAndU8(R0, 0x11))),
        op(InstVariant::Mov(RegisterAndU8(R1, 0x22))),
        op(InstVariant::Push(TwoRegisters(R0, R1))),
        op(InstVariant::Pop(TwoRegisters(R2, R3))),
        op(InstVariant::Halt),
    ]);
    for _ in 0..3 {
        cpu.step().unwrap();
    }
    assert_eq!(cpu.reg.sa, STACK_TOP - 8);
    assert_eq!(cpu.mmap.read_u32(STACK_TOP - 4), 0x11);
    assert_eq!(cpu.mmap.read_u32(STACK_TOP - 8), 0x22);
    cpu.step().unwrap();
    assert_eq!(cpu.reg.r2, 0x22);
    assert_eq!(cpu.reg.r3, 0x11);
    assert_eq!(cpu.reg.sa, STACK_TOP);
}

#[test]
fn push_literals() {
    let mut cpu = machine(&[
        op(InstVariant::Push(ImmediateOnly(()))),
        0x0BAD_CAFE,
        op(InstVariant::Push(RegisterAndU8(R0, 0x44))),
        op(InstVariant::Pop(ThreeRegisters(R1, R2, R3))),
        op(InstVariant::Halt),
    ]);
    run(&mut cpu, 10);
    assert_eq!(cpu.reg.r1, 0x44);
    assert_eq!(cpu.reg.r2, 0);
    assert_eq!(cpu.reg.r3, 0x0BAD_CAFE);
    assert_eq!(cpu.reg.sa, STACK_TOP);
}

#[test]
fn call_then_return() {
    let mut cpu = machine(&[
        op(InstVariant::Call(ImmediateOnly(()))),
        0x10,
        op(InstVariant::Halt),
        op(InstVariant::Nop),
        op(InstVariant::Mov(RegisterAndU8(R0, 0x55))),
        op(InstVariant::Ret),
    ]);
    cpu.reg.ra = 0x7777;
    cpu.step().unwrap();
    assert_eq!(cpu.reg.ia, 0x10);
    assert_eq!(cpu.reg.ra, 8);
    assert_eq!(cpu.reg.cs, CALL_STACK_TOP - 4);
    assert_eq!(cpu.mmap.read_u32(CALL_STACK_TOP - 4), 0x7777);
    cpu.step().unwrap();
    cpu.step().unwrap();
    assert_eq!(cpu.reg.ia, 8);
    assert_eq!(cpu.reg.ra, 0x7777);
    assert_eq!(cpu.reg.cs, CALL_STACK_TOP);
    assert_eq!(cpu.step(), Err(CPUError::Halt));
    assert_eq!(cpu.reg.r0, 0x55);
}

#[test]
fn relative_and_absolute_jumps() {
    let mut cpu = machine(&[
        op(InstVariant::Jmp(RegisterAndU8(R0, 3))),
        op(InstVariant::Mov(RegisterAndU8(R1, 1))),
        op(InstVariant::Halt),
        neg(InstVariant::Jmp(RegisterAndU8(R0, 2))),
    ]);
    cpu.step().unwrap();
    assert_eq!(cpu.reg.ia, 12);
    cpu.step().unwrap();
    assert_eq!(cpu.reg.ia, 4);
    cpu.step().unwrap();
    assert_eq!(cpu.reg.r1, 1);
    assert_eq!(cpu.step(), Err(CPUError::Halt));

    let mut cpu = machine(&[
        op(InstVariant::Mov(RegisterAndU8(R2, 12))),
        op(InstVariant::JmpAbs(OneRegister(R2))),
        op(InstVariant::Halt),
        op(InstVariant::Jmp(ImmediateOnly(()))),
        0xFFFF_FFF8,
    ]);
    cpu.step().unwrap();
    cpu.step().unwrap();
    assert_eq!(cpu.reg.ia, 12);
    cpu.step().unwrap();
    assert_eq!(cpu.reg.ia, 4);
}

#[test]
fn undecodable_and_malformed_instructions() {
    let mut cpu = machine(&[31 << 27]);
    assert_eq!(cpu.step(), Err(CPUError::InvalidInstruction));
    assert_eq!(cpu.reg.ia, 4);

    let mut cpu = machine(&[op(InstVariant::Add(OneRegister(R0)))]);
    assert_eq!(cpu.step(), Err(CPUError::InvalidInstruction));

    let mut cpu = machine(&[op(InstVariant::Pop(RegisterAndU8(R0, 1)))]);
    assert_eq!(cpu.step(), Err(CPUError::InvalidInstruction));

    let mut cpu = machine(&[op(InstVariant::Lsl(RegisterAndU32(R0, ()))), 1]);
    assert_eq!(cpu.step(), Err(CPUError::InvalidInstruction));
}

#[test]
fn nop_then_halt_runs_to_halt() {
    let mut cpu = machine(&[0, 0, 1]);
    cpu.step().unwrap();
    cpu.step().unwrap();
    assert_eq!(cpu.step(), Err(CPUError::Halt));
    assert_eq!(cpu.reg.ia, 12);
}

#[test]
fn running_until_a_halt() {
    assert_eq!(halt_outcome(Ok(())), None);
    assert_eq!(halt_outcome(Err(CPUError::Halt)), Some(Ok(())));
    assert_eq!(halt_outcome(Err(CPUError::InvalidInstruction)), Some(Err(CPUError::InvalidInstruction)));
    assert_eq!(halt_outcome(Err(CPUError::Unimplemented)), Some(Err(CPUError::Unimplemented)));

    let gt = CmpFlags { gt: true, eq: false, lt: false };
    let back: u32 = Instruction { cmp: gt, sign: true, var: InstVariant::Jmp(RegisterAndU8(R0, 4)) }.into();
    let mut cpu = machine(&[
        op(InstVariant::Mov(RegisterAndU8(R0, 10))),
        op(InstVariant::Add(RegisterAndU8(R1, 2))),
        neg(InstVariant::Add(RegisterAndU8(R0, 1))),
        op(InstVariant::Cmp(OneRegister(R0))),
        neg(InstVariant::SetEn),
        back,
        op(InstVariant::SetEn),
        op(InstVariant::Halt),
    ]);
    let mut steps = 0;
    let result = loop {
        if let Some(r) = halt_outcome(cpu.step()) {
            break r;
        }
        steps += 1;
        assert!(steps < 1000);
    };
    assert_eq!(result, Ok(()));
    assert_eq!(cpu.reg.r0, 0);
    assert_eq!(cpu.reg.r1, 20);
    assert_eq!(steps, 1 + 10 * 5 + 1);
}

fn raw_machine(bytes: &[u8]) -> CPU<BytesMut> {
    let mut cpu: CPU<BytesMut> = CPU::default();
    assert_eq!(cpu.mmap.add(BytesMut::from(bytes), 0), Ok(()));
    cpu
}

#[test]
fn skipped_instruction_skips_its_literal() {
    let mut cpu = raw_machine(&[0x00, 0x00, 0x01, 0x6C, 0x78, 0x56, 0x34, 0x12]);
    cpu.reg.st = State(0b1010);
    assert_eq!(cpu.step(), Ok(()));
    assert_eq!(cpu.reg.ia, 8);
    assert_eq!(cpu.reg.r0, 0);
    assert_eq!(cpu.reg.st, State(0b1010));
}

#[test]
fn backward_jump_counts_from_the_jump() {
    let mut cpu = raw_machine(&[0, 0, 0, 0, 0, 0, 0, 0, 0x02, 0x00, 0x08, 0x30]);
    cpu.reg.ia = 8;
    assert_eq!(cpu.step(), Ok(()));
    assert_eq!(cpu.reg.ia, 0);
}

#[test]
fn arithmetic_shift_keeps_the_sign() {
    let mut cpu = raw_machine(&[0x04, 0x00, 0x00, 0xD0]);
    cpu.reg.r0 = 0x8000_0000;
    assert_eq!(cpu.step(), Ok(()));
    assert_eq!(cpu.reg.r0, 0xF800_0000);
    assert_eq!(cpu.reg.ia, 4);
}

#[test]
fn compare_is_unsigned_and_keeps_other_state_bits() {
    let mut cpu = raw_machine(&[0x05, 0x00, 0x00, 0x0F]);
    cpu.reg.r0 = 0xFFFF_FFFF;
    cpu.reg.st = State(0b11111);
    assert_eq!(cpu.step(), Ok(()));
    assert_eq!(cpu.reg.st, State(0b11001));
    assert_eq!(cpu.reg.r0, 0xFFFF_FFFF);
    assert_eq!(cpu.reg.ia, 4);
}
