use alea_core::memory::{MappedMemory, Memory, MemoryMap};
use bytes::BytesMut;

fn buf(bytes: &[u8]) -> BytesMut {
    BytesMut::from(bytes)
}

#[test]
fn bytes_read_and_write() {
    let mut b = buf(&[1, 2, 3, 4, 5]);
    assert_eq!(b.size(), 5);
    assert_eq!(b.read(0), 1);
    assert_eq!(b.read(4), 5);
    b.write(2, 0xAA);
    assert_eq!(&b[..], &[1, 2, 0xAA, 4, 5]);
}

#[test]
fn bytes_write_past_end_is_ignored() {
    let mut b = buf(&[9, 9]);
    b.write(2, 1);
    b.write(1000, 1);
    b.write(u32::MAX, 1);
    assert_eq!(&b[..], &[9, 9]);
    assert_eq!(b.size(), 2);
}

#[test]
fn words_are_little_endian() {
    let mut b = BytesMut::zeroed(8);
    b.write_u32(0, 0x1122_3344);
    assert_eq!(&b[0..4], &[0x44, 0x33, 0x22, 0x11]);
    assert_eq!(b.read_u32(0), 0x1122_3344);
    b.write_u16(4, 0xBEEF);
    assert_eq!(b.read(4), 0xEF);
    assert_eq!(b.read(5), 0xBE);
    assert_eq!(b.read_u16(4), 0xBEEF);
    assert_eq!(b.read_u32(2), 0xBEEF_1122);
}

#[test]
fn word_write_at_the_end_keeps_what_fits() {
    let mut b = BytesMut::zeroed(6);
    b.write_u32(4, 0xDDCC_BBAA);
    assert_eq!(&b[..], &[0, 0, 0, 0, 0xAA, 0xBB]);
}

#[test]
fn mapped_memory_bounds() {
    let m = MappedMemory::new(BytesMut::zeroed(0x100), 0x1000);
    assert_eq!(m.start, 0x1000);
    assert_eq!(m.end, 0x10FF);
    let top = MappedMemory::new(BytesMut::zeroed(0x10), 0xFFFF_FFF0);
    assert_eq!(top.end, u32::MAX);
}

#[test]
fn mapped_memory_reads_at_offsets() {
    let mut m = MappedMemory::new(buf(&[10, 20, 30]), 0x200);
    assert_eq!(m.size(), 3);
    assert_eq!(m.read(0x201), 20);
    m.write(0x202, 99);
    assert_eq!(m.inner[2], 99);
}

#[test]
fn map_delegates_to_regions() {
    let mut map: MemoryMap<BytesMut> = MemoryMap::default();
    assert_eq!(map.add(buf(&[1, 2, 3, 4]), 0), Ok(()));
    assert_eq!(map.add(BytesMut::zeroed(0x10), 0x100), Ok(()));
    assert_eq!(map.size(), u32::MAX);
    assert_eq!(map.read(2), 3);
    map.write_u32(0x104, 0xCAFE_F00D);
    assert_eq!(map.read_u32(0x104), 0xCAFE_F00D);
    assert_eq!(map.mems[1].inner[4], 0x0D);
    assert_eq!(map.mems[1].inner[7], 0xCA);
}

#[test]
fn map_unmapped_addresses() {
    let mut map: MemoryMap<BytesMut> = MemoryMap::default();
    map.add(buf(&[7, 7]), 0x10).unwrap();
    assert_eq!(map.read(0), 0);
    assert_eq!(map.read(0x12), 0);
    map.write(0x50, 1);
    assert_eq!(map.read(0x50), 0);
    assert_eq!(&map.mems[0].inner[..], &[7, 7]);
}

#[test]
fn map_refuses_overlapping_regions() {
    let mut map: MemoryMap<BytesMut> = MemoryMap::default();
    map.add(BytesMut::zeroed(0x10), 0).unwrap();
    assert_eq!(map.add(BytesMut::zeroed(0x10), 0x8), Err(()));
    assert_eq!(map.add(BytesMut::zeroed(0x10), 0x100), Ok(()));
    assert_eq!(map.add(BytesMut::zeroed(0x100), 0xF8), Err(()));
    assert_eq!(map.mems.len(), 2);
}

#[test]
fn map_regions_that_only_touch_do_not_collide() {
    let mut map: MemoryMap<BytesMut> = MemoryMap::default();
    map.add(BytesMut::zeroed(0x10), 0).unwrap();
    assert_eq!(map.add(BytesMut::zeroed(0x10), 0x10), Ok(()));
    // sharing only the last address is no collision either
    assert_eq!(map.add(BytesMut::zeroed(0x2), 0x1E), Ok(()));
}

#[test]
fn map_same_start_is_no_collision_and_first_region_answers() {
    let mut map: MemoryMap<BytesMut> = MemoryMap::default();
    map.add(buf(&[1, 1, 1, 1]), 0x40).unwrap();
    assert_eq!(map.add(buf(&[2, 2, 2, 2, 2, 2, 2, 2]), 0x40), Ok(()));
    assert_eq!(map.read(0x41), 1);
    assert_eq!(map.read(0x45), 2);
    map.write(0x42, 9);
    assert_eq!(map.mems[0].inner[2], 9);
    assert_eq!(map.mems[1].inner[2], 2);
}

#[test]
fn word_write_into_a_buffer_changes_only_its_bytes() {
    let mut b = buf(&[9, 9, 9, 9, 9, 9, 9, 9]);
    b.write_u32(2, 0x0403_0201);
    assert_eq!(&b[..], &[9, 9, 1, 2, 3, 4, 9, 9]);
    assert_eq!(b.read_u32(2), 0x0403_0201);
}
