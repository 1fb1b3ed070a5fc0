//! Memory as the instruction engine sees it: physical memory behind the
//! cache, read and written a byte at a time through the cache.
use vstd::prelude::*;
use crate::dram::{
    INST_LEN, MAX_MEMORY, PhysicalMemory, block_base, block_fits, block_in_memory, le_byte, le_word,
    store_word, trim_zeros,
};
use crate::error::EmuError;
use crate::sram::{
    LINE_NUM, SET_NUM, access_post, cache_wf, lemma_access_coherent, lemma_access_ok, lemma_uncached_byte,
    lemma_addr_bits, lemma_empty_cache, memory_view, phys, sram_cache, sram_cache_line,
    sram_cache_set,
};

verus! {

/// Whether the `n` bytes from `a` lie inside a memory of `len` bytes.
pub open spec fn span_fits(len: nat, a: u64, n: nat) -> bool {
    n >= 1 && a + n <= len
}

/// Physical memory with the cache in front of it.
pub struct MemorySystem {
    cache: sram_cache,
    dram: PhysicalMemory,
}

impl View for MemorySystem {
    type V = Seq<u8>;

    /// Memory as seen through the cache.
    closed spec fn view(&self) -> Seq<u8> {
        memory_view(self.cache, self.dram@)
    }
}

/// A block below one that fits also fits.
proof fn lemma_block_fits_below(len: nat, x: u64, y: u64)
    requires
        x <= y,
        block_fits(len, y),
    ensures
        block_fits(len, x),
        x < len,
{
    lemma_addr_bits(x);
    lemma_addr_bits(y);
    assert(x as int / 64 <= y as int / 64) by (nonlinear_arith)
        requires
            x <= y,
    ;
    assert((x as int / 64) * 64 <= (y as int / 64) * 64) by (nonlinear_arith)
        requires
            x as int / 64 <= y as int / 64,
    ;
    assert(x as int <= (x as int / 64) * 64 + 63) by (nonlinear_arith);
}

/// One access through the cache, keeping it consistent with memory.
fn access_byte(cache: &mut sram_cache, dram: &mut PhysicalMemory, pa: u64, data: Option<u8>) -> (r: u8)
    requires
        cache_wf(*old(cache), old(dram)@),
        block_fits(old(dram)@.len(), pa),
    ensures
        cache_wf(*final(cache), final(dram)@),
        final(dram)@.len() == old(dram)@.len(),
        pa < old(dram)@.len(),
        match data {
            None => r == memory_view(*old(cache), old(dram)@)[pa as int] && memory_view(
                *final(cache),
                final(dram)@,
            ) == memory_view(*old(cache), old(dram)@),
            Some(d) => memory_view(*final(cache), final(dram)@) == memory_view(
                *old(cache),
                old(dram)@,
            ).update(pa as int, d),
        },
{
    let ghost c1 = *cache;
    let ghost m1 = dram@;
    let r = match data {
        None => cache.sram_cache_read(dram, pa),
        Some(d) => match cache.sram_cache_write(dram, pa, d) {
            Ok(()) => Ok(d),
            Err(e) => Err(e),
        },
    };
    proof {
        lemma_access_ok(c1, *cache, m1, dram@, pa, data, r);
        lemma_access_coherent(c1, *cache, m1, dram@, pa, data, r);
        lemma_addr_bits(pa);
        lemma_block_fits_below(m1.len(), pa, pa);
    }
    match r {
        Ok(b) => b,
        Err(_) => 0,
    }
}

impl MemorySystem {
    /// The cache is consistent with the memory behind it.
    pub closed spec fn wf(&self) -> bool {
        cache_wf(self.cache, self.dram@)
    }

    /// `dram` behind an empty cache.
    pub fn new(dram: PhysicalMemory) -> (r: Self)
        ensures
            r.wf(),
            r@ == dram@,
    {
        let n = dram.len();
        let line = sram_cache_line::new();
        let set = sram_cache_set::new([line; LINE_NUM]);
        let cache = sram_cache::new([set; SET_NUM]);
        proof {
            assert(n <= MAX_MEMORY);
            lemma_empty_cache(cache, dram@);
        }
        MemorySystem { cache, dram }
    }

    pub fn len(&self) -> (r: usize)
        ensures
            r == self@.len(),
    {
        self.dram.len()
    }

    /// Physical memory itself, without what the cache holds.
    pub fn dram(&self) -> (r: &PhysicalMemory)
        ensures
            r@.len() == self@.len(),
    {
        &self.dram
    }

    pub closed spec fn spec_cache(&self) -> sram_cache {
        self.cache
    }

    /// The cache.
    pub fn cache(&self) -> (r: &sram_cache)
        ensures
            *r == self.spec_cache(),
    {
        &self.cache
    }

    /// The byte at `pa`: through the cache when its whole block lies inside
    /// memory, else from memory directly (the block is never cached).
    pub fn read_byte(&mut self, pa: u64) -> (r: u8)
        requires
            old(self).wf(),
            pa < old(self)@.len(),
        ensures
            final(self).wf(),
            r == old(self)@[pa as int],
            final(self)@ == old(self)@,
    {
        if block_in_memory(&self.dram, pa) {
            access_byte(&mut self.cache, &mut self.dram, pa, None)
        } else {
            proof {
                lemma_uncached_byte(self.cache, self.dram@, pa as int, 0);
            }
            match self.dram.get_byte(pa) {
                Some(b) => b,
                None => 0,
            }
        }
    }

    /// Writes `d` to the byte at `pa`: through the cache when its whole block
    /// lies inside memory, else to memory directly.
    pub fn write_byte(&mut self, pa: u64, d: u8)
        requires
            old(self).wf(),
            pa < old(self)@.len(),
        ensures
            final(self).wf(),
            final(self)@ == old(self)@.update(pa as int, d),
    {
        if block_in_memory(&self.dram, pa) {
            access_byte(&mut self.cache, &mut self.dram, pa, Some(d));
        } else {
            proof {
                lemma_uncached_byte(self.cache, self.dram@, pa as int, d);
            }
            self.dram.set_byte(pa, d);
        }
    }

    /// Whether `n` bytes from `pa` can be accessed.
    fn span_ok(&self, pa: u64, n: u64) -> (r: bool)
        requires
            n >= 1,
        ensures
            r == span_fits(self@.len(), pa, n as nat),
    {
        let len = self.dram.len() as u64;
        pa < len && len - pa >= n
    }

    /// The little-endian word at `pa`; memory as seen is unchanged.
    pub fn read_u64(&mut self, pa: u64) -> (r: Result<u64, EmuError>)
        requires
            old(self).wf(),
        ensures
            final(self).wf(),
            final(self)@ == old(self)@,
            span_fits(old(self)@.len(), pa, 8) ==> r == Ok::<u64, EmuError>(
                le_word(old(self)@, pa as int),
            ),
            !span_fits(old(self)@.len(), pa, 8) ==> r == Err::<u64, EmuError>(
                EmuError::OutOfBounds,
            ) && *final(self) == *old(self),
    {
        if !self.span_ok(pa, 8) {
            return Err(EmuError::OutOfBounds);
        }
        let b0 = self.read_byte(pa);
        let b1 = self.read_byte(pa + 1);
        let b2 = self.read_byte(pa + 2);
        let b3 = self.read_byte(pa + 3);
        let b4 = self.read_byte(pa + 4);
        let b5 = self.read_byte(pa + 5);
        let b6 = self.read_byte(pa + 6);
        let b7 = self.read_byte(pa + 7);
        Ok((b0 as u64) | ((b1 as u64) << 8u64) | ((b2 as u64) << 16u64) | ((b3 as u64) << 24u64) | ((
        b4 as u64) << 32u64) | ((b5 as u64) << 40u64) | ((b6 as u64) << 48u64) | ((b7 as u64)
            << 56u64))
    }

    /// Stores `value` little-endian at `pa`.
    pub fn write_u64(&mut self, pa: u64, value: u64) -> (r: Result<(), EmuError>)
        requires
            old(self).wf(),
        ensures
            final(self).wf(),
            span_fits(old(self)@.len(), pa, 8) ==> r is Ok && final(self)@ == store_word(
                old(self)@,
                pa as int,
                value,
            ),
            !span_fits(old(self)@.len(), pa, 8) ==> r == Err::<(), EmuError>(
                EmuError::OutOfBounds,
            ) && *final(self) == *old(self),
    {
        if !self.span_ok(pa, 8) {
            return Err(EmuError::OutOfBounds);
        }
        let ghost len = self@.len();
        assert(len <= MAX_MEMORY);
        let mut k: u64 = 0;
        while k < 8
            invariant
                self.wf(),
                len <= MAX_MEMORY,
                k <= 8,
                pa + 8 <= len,
                self@.len() == len,
                len == old(self)@.len(),
                forall|j: int| 0 <= j < len ==> #[trigger] self@[j] == (if pa <= j < pa + k {
                    le_byte(value, j - pa)
                } else {
                    old(self)@[j]
                }),
            decreases 8 - k,
        {
            self.write_byte(pa + k, ((value >> (8 * k)) & 0xff) as u8);
            k = k + 1;
        }
        assert(self@ =~= store_word(old(self)@, pa as int, value));
        Ok(())
    }

    /// The text of the instruction record at `pa`: its 40 bytes without
    /// trailing zero bytes. Memory as seen is unchanged.
    pub fn fetch_inst(&mut self, pa: u64) -> (r: Result<Vec<u8>, EmuError>)
        requires
            old(self).wf(),
        ensures
            final(self).wf(),
            final(self)@ == old(self)@,
            span_fits(old(self)@.len(), pa, INST_LEN as nat) ==> r is Ok && r->Ok_0@ == trim_zeros(
                old(self)@.subrange(pa as int, pa + INST_LEN),
            ),
            !span_fits(old(self)@.len(), pa, INST_LEN as nat) ==> r == Err::<Vec<u8>, EmuError>(
                EmuError::OutOfBounds,
            ),
    {
        if !self.span_ok(pa, INST_LEN as u64) {
            return Err(EmuError::OutOfBounds);
        }
        let ghost len = self@.len();
        assert(len <= MAX_MEMORY);
        let ghost v = self@;
        let mut text: Vec<u8> = Vec::new();
        let mut k: u64 = 0;
        while k < INST_LEN as u64
            invariant
                self.wf(),
                len <= MAX_MEMORY,
                k <= INST_LEN,
                pa + INST_LEN <= len,
                self@ == v,
                len == v.len(),
                v == old(self)@,
                text@ == v.subrange(pa as int, pa + k),
            decreases INST_LEN - k,
        {
            let b = self.read_byte(pa + k);
            text.push(b);
            k = k + 1;
            assert(text@ =~= v.subrange(pa as int, pa + k));
        }
        let mut end: usize = INST_LEN;
        assert(text@.subrange(0, INST_LEN as int) =~= text@);
        while end > 0 && text[end - 1] == 0
            invariant
                end <= INST_LEN,
                text@.len() == INST_LEN,
                trim_zeros(text@) == trim_zeros(text@.subrange(0, end as int)),
            decreases end,
        {
            assert(text@.subrange(0, end as int).drop_last() =~= text@.subrange(0, end - 1));
            end = end - 1;
        }
        let ghost full = text@;
        text.truncate(end);
        assert(text@ =~= full.subrange(0, end as int));
        Ok(text)
    }
}

} // verus!
