//! Bit-slicing of a 64-bit address into page and cache coordinates.
use vstd::prelude::*;

verus! {

/// Mask of the page offset: bits 0..12.
pub const PPO_MASK: u64 = 0xfff;

/// Mask of the page number: bits 12..52.
pub const PPN_MASK: u64 = 0xffffffffff000;

/// Mask of the address space that physical addresses live in: bits 0..52.
pub const PADDR_MASK: u64 = 0xfffffffffffff;

/// Page offset: the low 12 bits.
pub open spec fn page_offset(a: u64) -> u64 {
    a & 0xfff
}

/// Page number: bits 12 to 51.
pub open spec fn page_number(a: u64) -> u64 {
    (a & 0xffffffffff000) >> 12
}

/// Byte offset inside a 64-byte cache block: the low 6 bits.
pub open spec fn block_offset(a: u64) -> u64 {
    a & 0x3f
}

/// Cache set index: bits 6 to 11.
pub open spec fn set_index(a: u64) -> u64 {
    (a & 0xfc0) >> 6
}

/// Cache block tag: the same span as the page number.
pub open spec fn block_tag(a: u64) -> u64 {
    page_number(a)
}

/// `a` with its page offset replaced by the low 12 bits of `ppo`.
pub open spec fn with_page_offset(a: u64, ppo: u64) -> u64 {
    (a & !0xfffu64) | (ppo & 0xfff)
}

/// `a` with its page number replaced by the low 40 bits of `ppn`.
pub open spec fn with_page_number(a: u64, ppn: u64) -> u64 {
    (a & !0xffffffffff000u64) | ((ppn << 12) & 0xffffffffff000)
}

/// Putting back the page offset that an address already has changes nothing.
pub proof fn lemma_page_offset_round_trip(a: u64)
    ensures
        with_page_offset(a, page_offset(a)) == a,
{
    assert((a & !0xfffu64) | ((a & 0xfff) & 0xfff) == a) by (bit_vector);
}

/// Putting back the page number that an address already has changes nothing.
pub proof fn lemma_page_number_round_trip(a: u64)
    ensures
        with_page_number(a, page_number(a)) == a,
{
    assert((a & !0xffffffffff000u64) | ((((a & 0xffffffffff000) >> 12) << 12) & 0xffffffffff000)
        == a) by (bit_vector);
}

/// A replaced page offset reads back as the low 12 bits of what was written,
/// and the page number is untouched.
pub proof fn lemma_with_page_offset_fields(a: u64, ppo: u64)
    ensures
        page_offset(with_page_offset(a, ppo)) == ppo & 0xfff,
        page_number(with_page_offset(a, ppo)) == page_number(a),
{
    assert(((a & !0xfffu64) | (ppo & 0xfff)) & 0xfff == ppo & 0xfff) by (bit_vector);
    assert((((a & !0xfffu64) | (ppo & 0xfff)) & 0xffffffffff000) >> 12 == (a & 0xffffffffff000)
        >> 12) by (bit_vector);
}

/// A replaced page number reads back as the low 40 bits of what was written,
/// and the page offset is untouched.
pub proof fn lemma_with_page_number_fields(a: u64, ppn: u64)
    ensures
        page_number(with_page_number(a, ppn)) == ppn & 0xffffffffff,
        page_offset(with_page_number(a, ppn)) == page_offset(a),
{
    assert((((a & !0xffffffffff000u64) | ((ppn << 12) & 0xffffffffff000)) & 0xffffffffff000)
        >> 12 == ppn & 0xffffffffff) by (bit_vector);
    assert(((a & !0xffffffffff000u64) | ((ppn << 12) & 0xffffffffff000)) & 0xfff == a & 0xfff)
        by (bit_vector);
}

/// A 64-bit address, read through the page and cache coordinates it encodes.
pub struct pa_address {
    pub address_value: u64,
}

impl pa_address {
    pub fn new(value: u64) -> (r: Self)
        ensures
            r.address_value == value,
    {
        pa_address { address_value: value }
    }

    /// The address restricted to the 52-bit physical address space.
    pub fn paddr_value(&self) -> (r: u64)
        ensures
            r == self.address_value & 0xfffffffffffff,
    {
        self.address_value & PADDR_MASK
    }

    pub fn update_value(&mut self, new_value: u64)
        ensures
            final(self).address_value == new_value,
    {
        self.address_value = new_value;
    }

    pub fn ppo(&self) -> (r: usize)
        ensures
            r as u64 == page_offset(self.address_value),
    {
        let v = self.address_value;
        assert(v & 0xfff <= 0xfff) by (bit_vector);
        (v & PPO_MASK) as usize
    }

    /// Replaces the page offset by the low 12 bits of `new_ppo`; every other bit is kept.
    pub fn update_ppo(&mut self, new_ppo: u64)
        ensures
            final(self).address_value == with_page_offset(old(self).address_value, new_ppo),
    {
        self.update_value((self.address_value & !PPO_MASK) | (new_ppo & PPO_MASK));
    }

    /// Replaces the page number by the low 40 bits of `new_ppn`; every other bit is kept.
    pub fn update_ppn(&mut self, new_ppn: u64)
        ensures
            final(self).address_value == with_page_number(old(self).address_value, new_ppn),
    {
        self.update_value((self.address_value & !PPN_MASK) | ((new_ppn << 12u64) & PPN_MASK));
    }

    pub fn ppn(&self) -> (r: usize)
        ensures
            r == page_number(self.address_value) as usize,
    {
        ((self.address_value & PPN_MASK) >> 12u64) as usize
    }

    pub fn co(&self) -> (r: usize)
        ensures
            r as u64 == block_offset(self.address_value),
            r < 64,
    {
        let v = self.address_value;
        let r = v & 0x3f;
        assert(v & 0x3f < 64) by (bit_vector);
        r as usize
    }

    pub fn ci(&self) -> (r: usize)
        ensures
            r as u64 == set_index(self.address_value),
            r < 64,
    {
        let v = self.address_value;
        let r = (v & 0xfc0) >> 6u64;
        assert((v & 0xfc0) >> 6u64 < 64) by (bit_vector);
        r as usize
    }

    pub fn ct(&self) -> (r: usize)
        ensures
            r == block_tag(self.address_value) as usize,
    {
        ((self.address_value & PPN_MASK) >> 12u64) as usize
    }
}

} // verus!
