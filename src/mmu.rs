//! Address translation: the fixed folding of virtual addresses used to load
//! and run programs, and the four-level page-table walk.
use vstd::prelude::*;
use std::collections::HashMap;
use crate::address::{pa_address, page_offset, with_page_number, with_page_offset};
use crate::dram::PHYSICAL_MEMORY_SPACE;
use crate::error::EmuError;

verus! {

broadcast use vstd::std_specs::hash::group_hash_axioms;

/// Folds a virtual address into physical memory: the address modulo its size.
pub fn va2pa(pa: u64) -> (r: Option<u64>)
    ensures
        r == Some((pa % (PHYSICAL_MEMORY_SPACE as u64)) as u64),
{
    Some(pa % (PHYSICAL_MEMORY_SPACE as u64))
}

/// One page-table entry: whether the next level (or the frame) is present,
/// and its base address.
#[derive(Debug, Clone, Copy, PartialEq, Eq, Structural)]
pub struct PageTableEntry {
    pub present: bool,
    pub base_addr: u64,
}

/// Four levels of page tables, each keyed by the base address that the level
/// above resolved to; `cr3` is the key of the first level.
pub struct PageTables {
    pub cr3: u64,
    pub l1: HashMap<u64, PageTableEntry>,
    pub l2: HashMap<u64, PageTableEntry>,
    pub l3: HashMap<u64, PageTableEntry>,
    pub l4: HashMap<u64, PageTableEntry>,
}

/// The base address that a level gives for `key`, when its entry is present.
pub open spec fn level_lookup(m: Map<u64, PageTableEntry>, key: u64) -> Option<u64> {
    if m.contains_key(key) && m[key].present {
        Some(m[key].base_addr)
    } else {
        None
    }
}

/// The physical address of `va`: the page number found by walking the four
/// levels from `cr3`, with the page offset of `va`; `None` on a page fault.
pub open spec fn translate(t: PageTables, va: u64) -> Option<u64> {
    match level_lookup(t.l1@, t.cr3) {
        None => None,
        Some(b1) => match level_lookup(t.l2@, b1) {
            None => None,
            Some(b2) => match level_lookup(t.l3@, b2) {
                None => None,
                Some(b3) => match level_lookup(t.l4@, b3) {
                    None => None,
                    Some(b4) => Some(with_page_offset(with_page_number(0, b4), page_offset(va))),
                },
            },
        },
    }
}

fn lookup(m: &HashMap<u64, PageTableEntry>, key: u64) -> (r: Option<u64>)
    ensures
        r == level_lookup(m@, key),
{
    match m.get(&key) {
        Some(e) => if e.present {
            Some(e.base_addr)
        } else {
            None
        },
        None => None,
    }
}

impl PageTables {
    /// Empty tables with root `cr3`.
    pub fn new(cr3: u64) -> (r: Self)
        ensures
            r.cr3 == cr3,
            r.l1@ == Map::<u64, PageTableEntry>::empty(),
            r.l2@ == Map::<u64, PageTableEntry>::empty(),
            r.l3@ == Map::<u64, PageTableEntry>::empty(),
            r.l4@ == Map::<u64, PageTableEntry>::empty(),
    {
        PageTables {
            cr3,
            l1: HashMap::new(),
            l2: HashMap::new(),
            l3: HashMap::new(),
            l4: HashMap::new(),
        }
    }

    /// Sets the entry for `key` in level `level` (1 to 4).
    pub fn set_entry(&mut self, level: usize, key: u64, entry: PageTableEntry)
        requires
            1 <= level <= 4,
        ensures
            final(self).cr3 == old(self).cr3,
            final(self).l1@ == if level == 1 { old(self).l1@.insert(key, entry) } else { old(self).l1@ },
            final(self).l2@ == if level == 2 { old(self).l2@.insert(key, entry) } else { old(self).l2@ },
            final(self).l3@ == if level == 3 { old(self).l3@.insert(key, entry) } else { old(self).l3@ },
            final(self).l4@ == if level == 4 { old(self).l4@.insert(key, entry) } else { old(self).l4@ },
    {
        if level == 1 {
            self.l1.insert(key, entry);
        } else if level == 2 {
            self.l2.insert(key, entry);
        } else if level == 3 {
            self.l3.insert(key, entry);
        } else {
            self.l4.insert(key, entry);
        }
    }
}

/// Walks the page tables for `va_addr`: the frame found at the fourth level,
/// with the page offset of `va_addr`, or a page fault.
pub fn mmu_doing(va_addr: u64, tables: &PageTables) -> (r: Result<pa_address, EmuError>)
    ensures
        match translate(*tables, va_addr) {
            Some(pa) => r == Ok::<pa_address, EmuError>(pa_address { address_value: pa }),
            None => r == Err::<pa_address, EmuError>(EmuError::PageFault),
        },
{
    let va_address = pa_address::new(va_addr);
    let po = va_address.ppo() as u64;
    let b1 = match lookup(&tables.l1, tables.cr3) {
        Some(b) => b,
        None => return Err(EmuError::PageFault),
    };
    let b2 = match lookup(&tables.l2, b1) {
        Some(b) => b,
        None => return Err(EmuError::PageFault),
    };
    let b3 = match lookup(&tables.l3, b2) {
        Some(b) => b,
        None => return Err(EmuError::PageFault),
    };
    let b4 = match lookup(&tables.l4, b3) {
        Some(b) => b,
        None => return Err(EmuError::PageFault),
    };
    let mut pa = pa_address::new(0);
    pa.update_ppn(b4);
    pa.update_ppo(po);
    Ok(pa)
}

} // verus!
