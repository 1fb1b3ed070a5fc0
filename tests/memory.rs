use cpu::dram::{read64bits_dram, write64bits_dram, write_inst_dram, PhysicalMemory};
use cpu::error::EmuError;
use cpu::memory::MemorySystem;

#[test]
fn words_round_trip_through_the_cache() {
    let mut mem = MemorySystem::new(PhysicalMemory::new());
    mem.write_u64(0x3c, 0x1122_3344_5566_7788).unwrap();
    assert_eq!(mem.read_u64(0x3c), Ok(0x1122_3344_5566_7788));
    assert_eq!(mem.read_byte(0x3c), 0x88);
    assert_eq!(mem.read_byte(0x43), 0x11);
    // Still in dirty lines: memory itself has not seen the write.
    assert_eq!(read64bits_dram(mem.dram(), 0x3c), Ok(0));
}

#[test]
fn data_survives_eviction_of_many_blocks() {
    let mut mem = MemorySystem::new(PhysicalMemory::new());
    for k in 0..40u64 {
        mem.write_u64(k * 0x40 + 8, k * 3 + 1).unwrap();
    }
    for k in 0..40u64 {
        assert_eq!(mem.read_u64(k * 0x40 + 8), Ok(k * 3 + 1));
    }
    // The early blocks were evicted and written back.
    assert_eq!(read64bits_dram(mem.dram(), 8), Ok(1));
}

#[test]
fn memory_behind_the_cache_is_seen_through_it() {
    let mut dram = PhysicalMemory::new();
    write64bits_dram(&mut dram, 0x500, 42).unwrap();
    write_inst_dram(&mut dram, 0x600, "retq").unwrap();
    let mut mem = MemorySystem::new(dram);
    assert_eq!(mem.len(), 65535);
    assert_eq!(mem.read_u64(0x500), Ok(42));
    let text = mem.fetch_inst(0x600).unwrap();
    assert_eq!(&text[..4], b"retq");
    assert_eq!(text.len(), 40);
}

#[test]
fn the_last_partial_block_is_served_from_memory() {
    let mut mem = MemorySystem::new(PhysicalMemory::new());
    // 65535 bytes: the block from 65472 on is not whole and is never cached.
    assert_eq!(mem.read_u64(65464), Ok(0));
    assert_eq!(mem.write_u64(65500, 0x0102_0304_0506_0708), Ok(()));
    assert_eq!(read64bits_dram(mem.dram(), 65500), Ok(0x0102_0304_0506_0708));
    assert_eq!(mem.read_u64(65500), Ok(0x0102_0304_0506_0708));
    mem.write_u64(65468, u64::MAX).unwrap();
    assert_eq!(mem.read_u64(65468), Ok(u64::MAX));
    assert_eq!(mem.read_u64(65527), Ok(0));
    assert_eq!(mem.read_u64(65528), Err(EmuError::OutOfBounds));
    assert_eq!(mem.write_u64(65530, 1), Err(EmuError::OutOfBounds));
    assert!(mem.fetch_inst(65440).is_ok());
    assert_eq!(mem.fetch_inst(65496), Err(EmuError::OutOfBounds));
}
