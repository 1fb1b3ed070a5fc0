use cpu::dram::{read64bits_dram, write64bits_dram, PhysicalMemory};
use cpu::sram::{sram_cache, sram_cache_line, sram_cache_set, LineState};

fn empty_cache() -> sram_cache {
    let line1 = sram_cache_line::new();
    let line2 = sram_cache_line::new();
    let line3 = sram_cache_line::new();
    let line4 = sram_cache_line::new();
    let line5 = sram_cache_line::new();
    let line6 = sram_cache_line::new();
    let line7 = sram_cache_line::new();
    let line8 = sram_cache_line::new();
    let lines = [line1, line2, line3, line4, line5, line6, line7, line8];
    let set1 = sram_cache_set::new(lines);
    sram_cache::new([set1])
}

#[test]
fn sram_do_test() {
    println!("{}", 1 << 6)
}

#[test]
fn test_sram_read_write() {
    let mut pm = PhysicalMemory::new();
    let mut cache = empty_cache();
    cache.sram_cache_write(&mut pm, 0b0001000000000010, 1).unwrap();
    cache.sram_cache_write(&mut pm, 0b0010000000000011, 2).unwrap();
    cache.sram_cache_write(&mut pm, 0b0011000000000001, 3).unwrap();
    cache.sram_cache_write(&mut pm, 0b0100000000000011, 4).unwrap();
    cache.sram_cache_write(&mut pm, 0b0101000000000011, 5).unwrap();
    cache.sram_cache_write(&mut pm, 0b0110000000000011, 6).unwrap();
    cache.sram_cache_write(&mut pm, 0b0111000000000011, 7).unwrap();
    cache.sram_cache_write(&mut pm, 0b1000000000000011, 8).unwrap();
    cache.sram_cache_write(&mut pm, 0b0001000000000011, 9).unwrap();
    assert_eq!(cache.sram_cache_read(&mut pm, 0b0001000000000010).unwrap(), 1);
    assert_eq!(cache.sram_cache_read(&mut pm, 0b0010000000000011).unwrap(), 2);
    assert_eq!(cache.sram_cache_read(&mut pm, 0b0011000000000001).unwrap(), 3);
    assert_eq!(cache.sram_cache_read(&mut pm, 0b0100000000000011).unwrap(), 4);
    assert_eq!(cache.sram_cache_read(&mut pm, 0b0101000000000011).unwrap(), 5);
    assert_eq!(cache.sram_cache_read(&mut pm, 0b0110000000000011).unwrap(), 6);
    assert_eq!(cache.sram_cache_read(&mut pm, 0b0111000000000011).unwrap(), 7);
    assert_eq!(cache.sram_cache_read(&mut pm, 0b1000000000000011).unwrap(), 8);
    assert_eq!(cache.sram_cache_read(&mut pm, 0b0001000000000011).unwrap(), 9);
    assert_eq!(cache.sram_cache_read(&mut pm, 0b0001000000000010).unwrap(), 1);
}

#[test]
fn cache_read_miss_fills_clean_line() {
    let mut pm = PhysicalMemory::new();
    write64bits_dram(&mut pm, 0x200, 0x0807_0605_0403_0201).unwrap();
    let mut cache = empty_cache();
    assert_eq!(cache.sram_cache_read(&mut pm, 0x203).unwrap(), 4);
    let line = cache.sets[0].lines[0];
    assert_eq!(line.state, LineState::Clean);
    assert_eq!(line.tag, 0x200 >> 6);
    assert_eq!(line.time, 0);
    assert_eq!(line.get_block_value(7), 8);
}

#[test]
fn cache_write_to_clean_line_makes_it_dirty_without_touching_memory() {
    let mut pm = PhysicalMemory::new();
    let mut cache = empty_cache();
    assert_eq!(cache.sram_cache_read(&mut pm, 0x40).unwrap(), 0);
    assert_eq!(cache.sets[0].lines[0].state, LineState::Clean);
    cache.sram_cache_write(&mut pm, 0x41, 0xaa).unwrap();
    assert_eq!(cache.sets[0].lines[0].state, LineState::Dirty);
    assert_eq!(pm.get_byte(0x41), Some(0));
    assert_eq!(cache.sram_cache_read(&mut pm, 0x41).unwrap(), 0xaa);
}

#[test]
fn cache_full_set_evicts_lru_and_writes_back_dirty() {
    let mut pm = PhysicalMemory::new();
    let mut cache = empty_cache();
    // Eight distinct blocks fill the eight lines; block 0x1000 is touched first.
    cache.sram_cache_write(&mut pm, 0x1005, 0x5a).unwrap();
    for k in 1..8u64 {
        cache.sram_cache_read(&mut pm, 0x1000 + k * 0x40).unwrap();
    }
    let lines = cache.sets[0].lines;
    assert!(lines.iter().all(|l| l.state != LineState::Invalid));
    assert_eq!(lines[0].time, 7);
    assert_eq!(lines[7].time, 0);
    assert_eq!(pm.get_byte(0x1005), Some(0));
    // A ninth block evicts the least recently used line, which was dirty.
    cache.sram_cache_read(&mut pm, 0x3000).unwrap();
    let lines = cache.sets[0].lines;
    assert_eq!(lines[0].tag, 0x3000 >> 6);
    assert_eq!(lines[0].state, LineState::Clean);
    for k in 1..8usize {
        assert_eq!(lines[k].tag, (0x1000 + k as u64 * 0x40) >> 6);
    }
    assert_eq!(pm.get_byte(0x1005), Some(0x5a));
    assert_eq!(cache.sram_cache_read(&mut pm, 0x1005).unwrap(), 0x5a);
}

#[test]
fn cache_lru_prefers_recently_used() {
    let mut pm = PhysicalMemory::new();
    let mut cache = empty_cache();
    for k in 0..8u64 {
        cache.sram_cache_read(&mut pm, k * 0x40).unwrap();
    }
    // Touch the oldest line again: the second one becomes the victim.
    cache.sram_cache_read(&mut pm, 0).unwrap();
    cache.sram_cache_read(&mut pm, 0x2000).unwrap();
    let lines = cache.sets[0].lines;
    assert_eq!(lines[0].tag, 0);
    assert_eq!(lines[1].tag, 0x2000 >> 6);
}

#[test]
fn cache_block_past_memory_is_out_of_bounds() {
    let mut pm = PhysicalMemory::with_capacity(128);
    let mut cache = empty_cache();
    assert_eq!(cache.sram_cache_read(&mut pm, 0x80), Err(cpu::error::EmuError::OutOfBounds));
    assert_eq!(cache.sram_cache_write(&mut pm, 0x7f, 1), Ok(()));
    assert_eq!(read64bits_dram(&pm, 0x78), Ok(0));
}

#[test]
fn cache_line_setters() {
    let mut l = sram_cache_line::new();
    l.update_time(3);
    l.update_tag(9);
    l.update_state(LineState::Dirty);
    l.update_block(0x77, 63);
    assert_eq!(l.time, 3);
    assert_eq!(l.tag, 9);
    assert_eq!(l.state, LineState::Dirty);
    assert_eq!(l.get_block_value(63), 0x77);
    let mut set = sram_cache_set::new([sram_cache_line::new(); 8]);
    set.update_lines(l, 2);
    assert_eq!(set.lines[2].tag, 9);
    let mut cache = sram_cache::new([sram_cache_set::new([sram_cache_line::new(); 8])]);
    cache.update_lines(set, 0);
    assert_eq!(cache.sets[0].lines[2].get_block_value(63), 0x77);
}
