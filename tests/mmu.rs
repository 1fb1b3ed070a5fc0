use cpu::error::EmuError;
use cpu::mmu::{mmu_doing, va2pa, PageTableEntry, PageTables};

#[test]
fn mmu_test() {}

#[test]
fn va2pa_folds_into_memory() {
    assert_eq!(va2pa(0x400000), Some(0x400000 % 65535));
    assert_eq!(va2pa(65535), Some(0));
    assert_eq!(va2pa(0x7ffffffee210), Some(0x7ffffffee210 % 65535));
}

#[test]
fn page_walk_composes_frame_and_offset() {
    let mut t = PageTables::new(0x1000);
    t.set_entry(1, 0x1000, PageTableEntry { present: true, base_addr: 0x2000 });
    t.set_entry(2, 0x2000, PageTableEntry { present: true, base_addr: 0x3000 });
    t.set_entry(3, 0x3000, PageTableEntry { present: true, base_addr: 0x4000 });
    t.set_entry(4, 0x4000, PageTableEntry { present: true, base_addr: 0x55 });
    let pa = mmu_doing(0x7fff_1234_5abc, &t).unwrap();
    assert_eq!(pa.address_value, 0x55abc);
}

#[test]
fn page_walk_faults_on_missing_or_absent_level() {
    let mut t = PageTables::new(0x1000);
    assert!(matches!(mmu_doing(0x123, &t), Err(EmuError::PageFault)));
    t.set_entry(1, 0x1000, PageTableEntry { present: true, base_addr: 0x2000 });
    t.set_entry(2, 0x2000, PageTableEntry { present: true, base_addr: 0x3000 });
    t.set_entry(3, 0x3000, PageTableEntry { present: false, base_addr: 0x4000 });
    t.set_entry(4, 0x4000, PageTableEntry { present: true, base_addr: 0x55 });
    assert!(matches!(mmu_doing(0x123, &t), Err(EmuError::PageFault)));
}
