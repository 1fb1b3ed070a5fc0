//! Physical memory: a flat byte array with little-endian word access and
//! 64-byte block transfers for the cache.
use vstd::prelude::*;
use vstd::string::StringSliceAdditionalSpecFns;
use crate::error::EmuError;
use crate::mmu::va2pa;

verus! {

/// Physical addresses have 52 bits: no memory is larger than this.
pub const MAX_MEMORY: u64 = 0x10_0000_0000_0000;

/// Size in bytes of the physical memory that `PhysicalMemory::new` builds.
pub const PHYSICAL_MEMORY_SPACE: usize = 65535;

/// Bytes in one cache block.
pub const BLOCK_LEN: usize = 64;

/// Bytes of text that one instruction record holds.
pub const INST_LEN: usize = 40;

/// Distance in bytes between two consecutive instruction records.
pub const INST_SLOT: u64 = 0x40;

/// Byte `k` (0 = least significant) of `v`.
pub open spec fn le_byte(v: u64, k: int) -> u8 {
    ((v >> ((8 * k) as u64)) & 0xff) as u8
}

/// The little-endian word made of the eight bytes of `s` from `a` on.
pub open spec fn le_word(s: Seq<u8>, a: int) -> u64 {
    (s[a] as u64) | ((s[a + 1] as u64) << 8) | ((s[a + 2] as u64) << 16) | ((s[a + 3] as u64) << 24)
        | ((s[a + 4] as u64) << 32) | ((s[a + 5] as u64) << 40) | ((s[a + 6] as u64) << 48) | ((
    s[a + 7] as u64) << 56)
}

/// `s` with the eight bytes from `a` on replaced by `v` in little-endian order.
pub open spec fn store_word(s: Seq<u8>, a: int, v: u64) -> Seq<u8> {
    Seq::new(s.len(), |j: int| if a <= j < a + 8 { le_byte(v, j - a) } else { s[j] })
}

/// The base address of the 64-byte block holding `a`.
pub open spec fn block_base(a: u64) -> u64 {
    (a >> 6) << 6
}

/// Whether a word access at `a` stays inside a memory of `len` bytes.
pub open spec fn word_fits(len: nat, a: u64) -> bool {
    a + 8 <= len
}

/// Whether the whole block holding `a` lies inside a memory of `len` bytes.
pub open spec fn block_fits(len: nat, a: u64) -> bool {
    block_base(a) + 64 <= len
}

/// The 40 bytes an instruction record stores for `text`: its first 40 bytes,
/// padded with spaces.
pub open spec fn inst_record(text: Seq<u8>) -> Seq<u8> {
    Seq::new(INST_LEN as nat, |i: int| if i < text.len() { text[i] } else { 0x20u8 })
}

/// A record read back: the 40 stored bytes without trailing zero bytes.
pub open spec fn trim_zeros(s: Seq<u8>) -> Seq<u8>
    decreases s.len(),
{
    if s.len() > 0 && s.last() == 0 {
        trim_zeros(s.drop_last())
    } else {
        s
    }
}

/// Reading back a word just stored gives the stored value.
pub proof fn lemma_store_word_read(s: Seq<u8>, a: int, v: u64)
    requires
        0 <= a,
        a + 8 <= s.len(),
    ensures
        le_word(store_word(s, a, v), a) == v,
{
    let t = store_word(s, a, v);
    let b0 = t[a] as u64;
    let b1 = t[a + 1] as u64;
    let b2 = t[a + 2] as u64;
    let b3 = t[a + 3] as u64;
    let b4 = t[a + 4] as u64;
    let b5 = t[a + 5] as u64;
    let b6 = t[a + 6] as u64;
    let b7 = t[a + 7] as u64;
    assert forall|sh: u64| (((v >> sh) & 0xff) as u8 as u64) == (v >> sh) & 0xff by {
        assert((((v >> sh) & 0xff) as u8 as u64) == (v >> sh) & 0xff) by (bit_vector);
    }
    assert(b0 == (v >> 0u64) & 0xff);
    assert(b0 == v & 0xff) by (bit_vector) requires b0 == (v >> 0u64) & 0xff;
    assert(b1 == (v >> 8) & 0xff);
    assert(b2 == (v >> 16) & 0xff);
    assert(b3 == (v >> 24) & 0xff);
    assert(b4 == (v >> 32) & 0xff);
    assert(b5 == (v >> 40) & 0xff);
    assert(b6 == (v >> 48) & 0xff);
    assert(b7 == (v >> 56) & 0xff);
    assert(b0 | (b1 << 8) | (b2 << 16) | (b3 << 24) | (b4 << 32) | (b5 << 40) | (b6 << 48) | (b7
        << 56) == v) by (bit_vector)
        requires
            b0 == v & 0xff,
            b1 == (v >> 8) & 0xff,
            b2 == (v >> 16) & 0xff,
            b3 == (v >> 24) & 0xff,
            b4 == (v >> 32) & 0xff,
            b5 == (v >> 40) & 0xff,
            b6 == (v >> 48) & 0xff,
            b7 == (v >> 56) & 0xff,
    ;
}

/// The physical memory of the machine, owned by whoever runs it.
pub struct PhysicalMemory {
    bytes: Vec<u8>,
}

impl View for PhysicalMemory {
    type V = Seq<u8>;

    closed spec fn view(&self) -> Seq<u8> {
        self.bytes@
    }
}

impl PhysicalMemory {
    #[verifier::type_invariant]
    spec fn inv(self) -> bool {
        self.bytes.len() <= MAX_MEMORY
    }

    /// A zeroed memory of `PHYSICAL_MEMORY_SPACE` bytes.
    pub fn new() -> (r: Self)
        ensures
            r@ == Seq::new(PHYSICAL_MEMORY_SPACE as nat, |i: int| 0u8),
    {
        Self::with_capacity(PHYSICAL_MEMORY_SPACE)
    }

    /// A zeroed memory of `size` bytes.
    pub fn with_capacity(size: usize) -> (r: Self)
        requires
            size <= MAX_MEMORY,
        ensures
            r@ == Seq::new(size as nat, |i: int| 0u8),
    {
        let bytes = vec![0u8; size];
        assert(bytes@ =~= Seq::new(size as nat, |i: int| 0u8));
        PhysicalMemory { bytes }
    }

    pub fn len(&self) -> (r: usize)
        ensures
            r == self@.len(),
            r <= MAX_MEMORY,
    {
        proof {
            use_type_invariant(self);
        }
        self.bytes.len()
    }

    /// Writes `v` to the byte at `a`.
    pub fn set_byte(&mut self, a: u64, v: u8)
        requires
            a < old(self)@.len(),
        ensures
            final(self)@ == old(self)@.update(a as int, v),
    {
        proof {
            use_type_invariant(&*self);
        }
        self.bytes[a as usize] = v;
    }

    /// The byte at `a`, or `None` past the end.
    pub fn get_byte(&self, a: u64) -> (r: Option<u8>)
        ensures
            a < self@.len() ==> r == Some(self@[a as int]),
            a >= self@.len() ==> r is None,
    {
        if a < self.bytes.len() as u64 {
            Some(self.bytes[a as usize])
        } else {
            None
        }
    }
}

/// The little-endian word at `pa_addr`.
pub fn read64bits_dram(pm: &PhysicalMemory, pa_addr: u64) -> (r: Result<u64, EmuError>)
    ensures
        word_fits(pm@.len(), pa_addr) ==> r == Ok::<u64, EmuError>(le_word(pm@, pa_addr as int)),
        !word_fits(pm@.len(), pa_addr) ==> r == Err::<u64, EmuError>(EmuError::OutOfBounds),
{
    let n = pm.bytes.len();
    if pa_addr >= n as u64 || n as u64 - pa_addr < 8 {
        return Err(EmuError::OutOfBounds);
    }
    let i = pa_addr as usize;
    let b = &pm.bytes;
    Ok((b[i] as u64) | ((b[i + 1] as u64) << 8u64) | ((b[i + 2] as u64) << 16u64) | ((b[i
        + 3] as u64) << 24u64) | ((b[i + 4] as u64) << 32u64) | ((b[i + 5] as u64) << 40u64) | ((
    b[i + 6] as u64) << 48u64) | ((b[i + 7] as u64) << 56u64))
}

/// Stores `value` little-endian at `pa_addr`; memory is unchanged on error.
pub fn write64bits_dram(pm: &mut PhysicalMemory, pa_addr: u64, value: u64) -> (r: Result<
    (),
    EmuError,
>)
    ensures
        word_fits(old(pm)@.len(), pa_addr) ==> r is Ok && final(pm)@ == store_word(
            old(pm)@,
            pa_addr as int,
            value,
        ),
        !word_fits(old(pm)@.len(), pa_addr) ==> r == Err::<(), EmuError>(EmuError::OutOfBounds)
            && final(pm)@ == old(pm)@,
{
    proof {
        use_type_invariant(&*pm);
    }
    let n = pm.bytes.len();
    if pa_addr >= n as u64 || n as u64 - pa_addr < 8 {
        return Err(EmuError::OutOfBounds);
    }
    let i = pa_addr as usize;
    let mut k: usize = 0;
    while k < 8
        invariant
            k <= 8,
            i + 8 <= n,
            n == old(pm)@.len(),
            pm@.len() == n,
            n <= MAX_MEMORY,
            forall|j: int| 0 <= j < n ==> #[trigger] pm@[j] == (if i <= j < i + k {
                le_byte(value, j - i)
            } else {
                old(pm)@[j]
            }),
        decreases 8 - k,
    {
        pm.bytes[i + k] = ((value >> ((8 * k) as u64)) & 0xff) as u8;
        k = k + 1;
    }
    assert(pm@ =~= store_word(old(pm)@, pa_addr as int, value));
    Ok(())
}

/// Whether the 64-byte block holding `paddr` lies inside memory.
pub fn block_in_memory(pm: &PhysicalMemory, paddr: u64) -> (r: bool)
    ensures
        r == block_fits(pm@.len(), paddr),
{
    let base = (paddr >> 6u64) << 6u64;
    let n = pm.bytes.len() as u64;
    base < n && n - base >= 64
}

/// Fills `block` with the 64-byte block of memory that holds `paddr`.
pub fn bus_read_cacheline(pm: &PhysicalMemory, paddr: u64, block: &mut [u8; 64]) -> (r: Result<
    (),
    EmuError,
>)
    ensures
        block_fits(pm@.len(), paddr) ==> r is Ok && final(block)@ == pm@.subrange(
            block_base(paddr) as int,
            block_base(paddr) + 64,
        ),
        !block_fits(pm@.len(), paddr) ==> r == Err::<(), EmuError>(EmuError::OutOfBounds)
            && final(block)@ == old(block)@,
{
    let base = (paddr >> 6u64) << 6u64;
    assert(((paddr >> 6u64) << 6u64) <= paddr) by (bit_vector);
    let n = pm.bytes.len();
    if base >= n as u64 || n as u64 - base < 64 {
        return Err(EmuError::OutOfBounds);
    }
    let b = base as usize;
    let mut k: usize = 0;
    while k < 64
        invariant
            k <= 64,
            b + 64 <= n,
            n == pm@.len(),
            b == block_base(paddr),
            block@.len() == 64,
            forall|j: int| 0 <= j < k ==> #[trigger] block@[j] == pm@[b + j],
        decreases 64 - k,
    {
        block[k] = pm.bytes[b + k];
        k = k + 1;
    }
    assert(block@ =~= pm@.subrange(b as int, b + 64));
    Ok(())
}

/// Copies `block` over the 64-byte block of memory that holds `paddr`.
pub fn bus_write_cacheline(pm: &mut PhysicalMemory, paddr: u64, block: &[u8; 64]) -> (r: Result<
    (),
    EmuError,
>)
    ensures
        block_fits(old(pm)@.len(), paddr) ==> r is Ok && final(pm)@ == old(pm)@.update_subrange_with(
            block_base(paddr) as int,
            block@,
        ),
        !block_fits(old(pm)@.len(), paddr) ==> r == Err::<(), EmuError>(EmuError::OutOfBounds)
            && final(pm)@ == old(pm)@,
{
    proof {
        use_type_invariant(&*pm);
    }
    let base = (paddr >> 6u64) << 6u64;
    assert(((paddr >> 6u64) << 6u64) <= paddr) by (bit_vector);
    let n = pm.bytes.len();
    if base >= n as u64 || n as u64 - base < 64 {
        return Err(EmuError::OutOfBounds);
    }
    let b = base as usize;
    let mut k: usize = 0;
    while k < 64
        invariant
            k <= 64,
            b + 64 <= n,
            n == old(pm)@.len(),
            pm@.len() == n,
            n <= MAX_MEMORY,
            b == block_base(paddr),
            block@.len() == 64,
            forall|j: int| 0 <= j < n ==> #[trigger] pm@[j] == (if b <= j < b + k {
                block@[j - b]
            } else {
                old(pm)@[j]
            }),
        decreases 64 - k,
    {
        pm.bytes[b + k] = block[k];
        k = k + 1;
    }
    assert(pm@ =~= old(pm)@.update_subrange_with(b as int, block@));
    Ok(())
}

/// Whether an instruction record at `a` stays inside a memory of `len` bytes.
pub open spec fn record_fits(len: nat, a: u64) -> bool {
    a + INST_LEN <= len
}

/// Where record `k` of a program loaded at `pa` goes: its slot address folded
/// into memory.
pub open spec fn slot_address(pa: u64, k: int) -> u64 {
    (((pa + INST_SLOT * k) % 0x1_0000_0000_0000_0000) % (PHYSICAL_MEMORY_SPACE as int)) as u64
}

/// Memory after storing the first `k` records of `texts` one slot apart from
/// `pa`, or `None` when one of them does not fit.
pub open spec fn load_program(m: Seq<u8>, texts: Seq<Seq<u8>>, pa: u64, k: int) -> Option<Seq<u8>>
    decreases k,
{
    if k <= 0 {
        Some(m)
    } else {
        match load_program(m, texts, pa, k - 1) {
            None => None,
            Some(m1) => {
                let a = slot_address(pa, k - 1);
                if record_fits(m1.len(), a) {
                    Some(m1.update_subrange_with(a as int, inst_record(texts[k - 1])))
                } else {
                    None
                }
            },
        }
    }
}

/// Stores the record of `text` at `pa_addr`: its first 40 bytes, padded with spaces.
pub fn write_inst_dram(pm: &mut PhysicalMemory, pa_addr: u64, text: &str) -> (r: Result<
    (),
    EmuError,
>)
    ensures
        record_fits(old(pm)@.len(), pa_addr) ==> r is Ok && final(pm)@ == old(pm)@.update_subrange_with(
            pa_addr as int,
            inst_record(text.spec_bytes()),
        ),
        !record_fits(old(pm)@.len(), pa_addr) ==> r == Err::<(), EmuError>(EmuError::OutOfBounds)
            && final(pm)@ == old(pm)@,
{
    proof {
        use_type_invariant(&*pm);
    }
    let n = pm.bytes.len();
    if pa_addr >= n as u64 || n as u64 - pa_addr < INST_LEN as u64 {
        return Err(EmuError::OutOfBounds);
    }
    let b = pa_addr as usize;
    let t = text.as_bytes();
    let ghost rec = inst_record(text.spec_bytes());
    let mut k: usize = 0;
    while k < INST_LEN
        invariant
            k <= INST_LEN,
            b + INST_LEN <= n,
            n == old(pm)@.len(),
            pm@.len() == n,
            n <= MAX_MEMORY,
            t@ == text.spec_bytes(),
            rec == inst_record(text.spec_bytes()),
            forall|j: int| 0 <= j < n ==> #[trigger] pm@[j] == (if b <= j < b + k {
                rec[j - b]
            } else {
                old(pm)@[j]
            }),
        decreases INST_LEN - k,
    {
        let c = if k < t.len() {
            t[k]
        } else {
            ' ' as u8
        };
        pm.bytes[b + k] = c;
        k = k + 1;
    }
    assert(pm@ =~= old(pm)@.update_subrange_with(b as int, rec));
    Ok(())
}

/// The text of the record at `pa_addr`: its 40 bytes without trailing zero bytes.
pub fn read_inst_dram(pm: &PhysicalMemory, pa_addr: u64) -> (r: Result<Vec<u8>, EmuError>)
    ensures
        record_fits(pm@.len(), pa_addr) ==> r is Ok && r->Ok_0@ == trim_zeros(
            pm@.subrange(pa_addr as int, pa_addr + INST_LEN),
        ),
        !record_fits(pm@.len(), pa_addr) ==> r == Err::<Vec<u8>, EmuError>(EmuError::OutOfBounds),
{
    let n = pm.bytes.len();
    if pa_addr >= n as u64 || n as u64 - pa_addr < INST_LEN as u64 {
        return Err(EmuError::OutOfBounds);
    }
    let b = pa_addr as usize;
    let mut end: usize = INST_LEN;
    while end > 0 && pm.bytes[b + end - 1] == 0
        invariant
            end <= INST_LEN,
            b + INST_LEN <= n,
            n == pm@.len(),
            trim_zeros(pm@.subrange(b as int, b + INST_LEN)) == trim_zeros(
                pm@.subrange(b as int, b + end),
            ),
        decreases end,
    {
        let ghost s = pm@.subrange(b as int, b + end);
        assert(s.drop_last() =~= pm@.subrange(b as int, b + end - 1));
        end = end - 1;
    }
    let mut out: Vec<u8> = Vec::new();
    let mut k: usize = 0;
    while k < end
        invariant
            k <= end <= INST_LEN,
            b + INST_LEN <= n,
            n == pm@.len(),
            out@ == pm@.subrange(b as int, b + k),
        decreases end - k,
    {
        out.push(pm.bytes[b + k]);
        k = k + 1;
        assert(out@ =~= pm@.subrange(b as int, b + k));
    }
    Ok(out)
}

/// The bytes of each record of a program.
pub open spec fn program_texts(insts: Seq<&str>) -> Seq<Seq<u8>> {
    insts.map_values(|s: &str| s.spec_bytes())
}

/// Stores the program `insts`, record `k` at the slot `pa + 0x40 * k` folded
/// into memory; stops at the first record that does not fit, with the records
/// before it stored.
pub fn write_inst(pm: &mut PhysicalMemory, insts: &Vec<&str>, pa: u64) -> (r: Result<
    (),
    EmuError,
>)
    ensures
        match load_program(
            old(pm)@,
            program_texts(insts@),
            pa,
            insts@.len() as int,
        ) {
            Some(m) => r is Ok && final(pm)@ == m,
            None => r == Err::<(), EmuError>(EmuError::OutOfBounds) && exists|k: int|
                0 <= k < insts@.len() && #[trigger] load_program(
                    old(pm)@,
                    program_texts(insts@),
                    pa,
                    k,
                ) == Some(final(pm)@) && load_program(
                    old(pm)@,
                    program_texts(insts@),
                    pa,
                    k + 1,
                ) is None,
        },
{
    let ghost texts = program_texts(insts@);
    let mut num: usize = 0;
    let mut addr: u64 = pa;
    while num < insts.len()
        invariant
            num <= insts@.len(),
            texts == program_texts(insts@),
            addr as int == (pa + INST_SLOT * num) % 0x1_0000_0000_0000_0000,
            load_program(old(pm)@, texts, pa, num as int) == Some(pm@),
        decreases insts@.len() - num,
    {
        let slot = va2pa(addr).unwrap();
        let w = write_inst_dram(pm, slot, insts[num]);
        if w.is_err() {
            proof {
                lemma_load_program_stuck(old(pm)@, texts, pa, num as int + 1, insts@.len() as int);
                assert(load_program(old(pm)@, texts, pa, num as int) == Some(pm@));
                assert(load_program(old(pm)@, texts, pa, num as int + 1) is None);
            }
            return Err(EmuError::OutOfBounds);
        }
        assert(texts[num as int] == insts@[num as int].spec_bytes());
        num = num + 1;
        addr = addr.wrapping_add(INST_SLOT);
    }
    Ok(())
}

/// Once a record does not fit, no longer program loads either.
pub proof fn lemma_load_program_stuck(m: Seq<u8>, texts: Seq<Seq<u8>>, pa: u64, k: int, n: int)
    requires
        1 <= k <= n,
        load_program(m, texts, pa, k) is None,
    ensures
        load_program(m, texts, pa, n) is None,
    decreases n - k,
{
    if k < n {
        lemma_load_program_stuck(m, texts, pa, k + 1, n);
    }
}

} // verus!
