//! A set-associative write-back cache over physical memory, with LRU
//! replacement and dirty-line write-back.
use vstd::prelude::*;
use crate::address::{pa_address, block_offset, set_index};
use crate::dram::{
    PhysicalMemory, block_base, block_fits, block_in_memory, bus_read_cacheline,
    bus_write_cacheline,
};
use crate::error::EmuError;

verus! {

/// Lines in one set (the associativity).
pub const LINE_NUM: usize = 8;

/// Sets in the cache.
pub const SET_NUM: usize = 1;

/// Largest value a recency timer reaches; it stays there.
pub const TIME_MAX: i8 = 127;

/// What a cache line holds.
#[derive(Debug, Clone, Copy, PartialEq, Eq, Structural)]
pub enum LineState {
    /// No data.
    Invalid,
    /// The same data as memory.
    Clean,
    /// Data written since the block was brought in.
    Dirty,
}

/// One cache line: its state, recency timer, block identifier and data.
#[derive(Clone, Copy)]
pub struct sram_cache_line {
    pub state: LineState,
    /// Accesses to the set since this line was last used (higher is older).
    pub time: i8,
    /// The number of the 64-byte block held: the address shifted right by 6.
    /// This is the page number (`pa_address::ct`) together with the set index
    /// (`pa_address::ci`), not the page number alone: with fewer sets than set
    /// indexes, a page-number tag would let the 64 blocks of one page pass for
    /// each other in the same set.
    pub tag: u64,
    pub block: [u8; 64],
}

/// The number of the 64-byte block holding `a` in the 52-bit physical space.
pub open spec fn block_number(a: u64) -> u64 {
    (a & 0xfffffffffffff) >> 6
}

/// The set that holds the block of `a`.
pub open spec fn cache_set_of(a: u64) -> int {
    (set_index(a) % (SET_NUM as u64)) as int
}

pub open spec fn is_valid(l: sram_cache_line) -> bool {
    l.state != LineState::Invalid
}

/// The first line from `i` on that holds block `tag`.
pub open spec fn find_hit_from(lines: Seq<sram_cache_line>, tag: u64, i: int) -> Option<int>
    decreases lines.len() - i,
{
    if i < 0 || i >= lines.len() {
        None
    } else if is_valid(lines[i]) && lines[i].tag == tag {
        Some(i)
    } else {
        find_hit_from(lines, tag, i + 1)
    }
}

/// A line that `find_hit_from` returns holds the block looked for, and no
/// line before it from `k` on does.
pub proof fn lemma_find_hit_matches(lines: Seq<sram_cache_line>, tag: u64, k: int)
    ensures
        find_hit_from(lines, tag, k) matches Some(i) ==> k <= i < lines.len() && is_valid(lines[i])
            && lines[i].tag == tag && forall|j: int|
            k <= j < i ==> !(is_valid(#[trigger] lines[j]) && lines[j].tag == tag),
        k >= 0 && find_hit_from(lines, tag, k) is None ==> forall|j: int|
            k <= j < lines.len() ==> !(is_valid(#[trigger] lines[j]) && lines[j].tag == tag),
    decreases lines.len() - k,
{
    if 0 <= k < lines.len() && !(is_valid(lines[k]) && lines[k].tag == tag) {
        lemma_find_hit_matches(lines, tag, k + 1);
    }
}

/// The first invalid line from `i` on.
pub open spec fn find_invalid_from(lines: Seq<sram_cache_line>, i: int) -> Option<int>
    decreases lines.len() - i,
{
    if i < 0 || i >= lines.len() {
        None
    } else if !is_valid(lines[i]) {
        Some(i)
    } else {
        find_invalid_from(lines, i + 1)
    }
}

/// The first line with the highest timer, scanning from `i` with `best` the
/// candidate so far.
pub open spec fn lru_from(lines: Seq<sram_cache_line>, i: int, best: int) -> int
    decreases lines.len() - i,
{
    if i < 0 || i >= lines.len() {
        best
    } else if lines[i].time > lines[best].time {
        lru_from(lines, i + 1, i)
    } else {
        lru_from(lines, i + 1, best)
    }
}

/// The least recently used line: the first one with the highest timer.
pub open spec fn lru_victim(lines: Seq<sram_cache_line>) -> int {
    lru_from(lines, 1, 0)
}

/// The line a miss fills: the first invalid one, else the LRU victim.
pub open spec fn fill_slot(lines: Seq<sram_cache_line>) -> int {
    match find_invalid_from(lines, 0) {
        Some(j) => j,
        None => lru_victim(lines),
    }
}

/// A line one access older.
pub open spec fn aged(l: sram_cache_line) -> sram_cache_line {
    sram_cache_line { time: if l.time < TIME_MAX { (l.time + 1) as i8 } else { TIME_MAX }, ..l }
}

/// After an access to line `j` of a set, every other line has aged by one.
pub open spec fn others_aged(old_lines: Seq<sram_cache_line>, new_lines: Seq<sram_cache_line>, j: int) -> bool {
    &&& new_lines.len() == old_lines.len()
    &&& forall|i: int| 0 <= i < old_lines.len() && i != j ==> #[trigger] new_lines[i] == aged(old_lines[i])
}

/// The lines of set `s` of cache `c`.
pub open spec fn lines_of(c: sram_cache, s: int) -> Seq<sram_cache_line> {
    c.sets@[s].lines@
}

/// Only set `s` differs between `c1` and `c2`.
pub open spec fn other_sets_kept(c1: sram_cache, c2: sram_cache, s: int) -> bool {
    forall|t: int| 0 <= t < SET_NUM && t != s ==> #[trigger] c2.sets@[t] == c1.sets@[t]
}

/// Whether a miss on `a` would have to give up: the block of `a`, or the
/// dirty block it would write back, lies outside memory.
pub open spec fn miss_blocked(lines: Seq<sram_cache_line>, mem_len: nat, a: u64) -> bool {
    let v = lines[fill_slot(lines)];
    !block_fits(mem_len, a) || (v.state == LineState::Dirty && !block_fits(mem_len, v.tag << 6))
}

/// Memory after the line filled on a miss has been written back if dirty.
pub open spec fn after_write_back(lines: Seq<sram_cache_line>, mem: Seq<u8>) -> Seq<u8> {
    let v = lines[fill_slot(lines)];
    if v.state == LineState::Dirty {
        mem.update_subrange_with(block_base(v.tag << 6) as int, v.block@)
    } else {
        mem
    }
}

/// What one access to byte `a` does: a read when `data` is `None`, a write
/// of the byte otherwise. `r` is the byte read, or the byte written.
pub open spec fn access_post(
    c1: sram_cache,
    c2: sram_cache,
    m1: Seq<u8>,
    m2: Seq<u8>,
    a: u64,
    data: Option<u8>,
    r: Result<u8, EmuError>,
) -> bool {
    let s = cache_set_of(a);
    let lines = lines_of(c1, s);
    let nl = lines_of(c2, s);
    let off = block_offset(a) as int;
    let tag = block_number(a);
    &&& other_sets_kept(c1, c2, s)
    &&& match find_hit_from(lines, tag, 0) {
        Some(i) => {
            &&& m2 == m1
            &&& others_aged(lines, nl, i)
            &&& nl[i].tag == tag
            &&& nl[i].time == 0
            &&& match data {
                None => {
                    &&& r == Ok::<u8, EmuError>(lines[i].block@[off])
                    &&& nl[i].state == lines[i].state
                    &&& nl[i].block == lines[i].block
                },
                Some(d) => {
                    &&& r == Ok::<u8, EmuError>(d)
                    &&& nl[i].state == LineState::Dirty
                    &&& nl[i].block@ == lines[i].block@.update(off, d)
                },
            }
        },
        None => {
            let j = fill_slot(lines);
            let m = after_write_back(lines, m1);
            let fetched = m.subrange(block_base(a) as int, block_base(a) + 64);
            if miss_blocked(lines, m1.len(), a) {
                &&& r == Err::<u8, EmuError>(EmuError::OutOfBounds)
                &&& c2 == c1
                &&& m2 == m1
            } else {
                &&& m2 == m
                &&& others_aged(lines, nl, j)
                &&& nl[j].tag == tag
                &&& nl[j].time == 0
                &&& match data {
                    None => {
                        &&& r == Ok::<u8, EmuError>(fetched[off])
                        &&& nl[j].state == LineState::Clean
                        &&& nl[j].block@ == fetched
                    },
                    Some(d) => {
                        &&& r == Ok::<u8, EmuError>(d)
                        &&& nl[j].state == LineState::Dirty
                        &&& nl[j].block@ == fetched.update(off, d)
                    },
                }
            }
        },
    }
}

impl sram_cache_line {
    /// An invalid line with a zero timer, tag and block.
    pub fn new() -> (r: Self)
        ensures
            r.state == LineState::Invalid,
            r.time == 0,
            r.tag == 0,
            r.block@ == Seq::new(64, |i: int| 0u8),
    {
        let r = sram_cache_line { state: LineState::Invalid, time: 0, tag: 0, block: [0u8; 64] };
        assert(r.block@ =~= Seq::new(64, |i: int| 0u8));
        r
    }

    pub fn update_time(&mut self, new_time: i8)
        ensures
            *final(self) == (sram_cache_line { time: new_time, ..*old(self) }),
    {
        self.time = new_time;
    }

    pub fn update_tag(&mut self, new_tag: u64)
        ensures
            *final(self) == (sram_cache_line { tag: new_tag, ..*old(self) }),
    {
        self.tag = new_tag;
    }

    pub fn update_state(&mut self, new_state: LineState)
        ensures
            *final(self) == (sram_cache_line { state: new_state, ..*old(self) }),
    {
        self.state = new_state;
    }

    pub fn update_block(&mut self, value: u8, index: usize)
        requires
            index < 64,
        ensures
            final(self).block@ == old(self).block@.update(index as int, value),
            final(self).state == old(self).state,
            final(self).time == old(self).time,
            final(self).tag == old(self).tag,
    {
        self.block[index] = value;
    }

    pub fn get_block_value(&self, index: usize) -> (r: u8)
        requires
            index < 64,
        ensures
            r == self.block@[index as int],
    {
        self.block[index]
    }
}

/// The lines of one set.
#[derive(Clone, Copy)]
pub struct sram_cache_set {
    pub lines: [sram_cache_line; LINE_NUM],
}

impl sram_cache_set {
    pub fn update_lines(&mut self, value: sram_cache_line, index: usize)
        requires
            index < LINE_NUM,
        ensures
            final(self).lines@ == old(self).lines@.update(index as int, value),
    {
        self.lines[index] = value;
    }

    pub fn new(lines: [sram_cache_line; LINE_NUM]) -> (r: Self)
        ensures
            r.lines == lines,
    {
        sram_cache_set { lines: lines }
    }
}

/// The cache: `SET_NUM` sets of `LINE_NUM` lines.
pub struct sram_cache {
    pub sets: [sram_cache_set; SET_NUM],
}

impl sram_cache {
    pub fn update_lines(&mut self, value: sram_cache_set, index: usize)
        requires
            index < SET_NUM,
        ensures
            final(self).sets@ == old(self).sets@.update(index as int, value),
    {
        self.sets[index] = value;
    }

    pub fn new(sets: [sram_cache_set; SET_NUM]) -> (r: Self)
        ensures
            r.sets == sets,
    {
        sram_cache { sets: sets }
    }
}

/// With no line holding block `tag` from `k` on, the search finds nothing.
pub proof fn lemma_find_hit_none(lines: Seq<sram_cache_line>, tag: u64, k: int)
    requires
        0 <= k,
        forall|i: int| k <= i < lines.len() ==> !(is_valid(#[trigger] lines[i]) && lines[i].tag == tag),
    ensures
        find_hit_from(lines, tag, k) is None,
    decreases lines.len() - k,
{
    if k < lines.len() {
        lemma_find_hit_none(lines, tag, k + 1);
    }
}

/// When line `i` holds block `tag` and no line before it from `k` on does, the
/// search finds it.
pub proof fn lemma_find_hit_unique(lines: Seq<sram_cache_line>, tag: u64, k: int, i: int)
    requires
        0 <= k <= i < lines.len(),
        is_valid(lines[i]),
        lines[i].tag == tag,
        forall|j: int| k <= j < i ==> !(is_valid(#[trigger] lines[j]) && lines[j].tag == tag),
    ensures
        find_hit_from(lines, tag, k) == Some(i),
    decreases lines.len() - k,
{
    if k < i {
        lemma_find_hit_unique(lines, tag, k + 1, i);
    }
}

/// With every line from `k` on valid, there is no invalid line to fill.
pub proof fn lemma_find_invalid_none(lines: Seq<sram_cache_line>, k: int)
    requires
        0 <= k,
        forall|i: int| k <= i < lines.len() ==> is_valid(#[trigger] lines[i]),
    ensures
        find_invalid_from(lines, k) is None,
    decreases lines.len() - k,
{
    if k < lines.len() {
        lemma_find_invalid_none(lines, k + 1);
    }
}

/// The scan from `i` with candidate `best` ends on the first line holding the
/// highest timer among `best` and the lines from `i` on.
pub proof fn lemma_lru_from(lines: Seq<sram_cache_line>, i: int, best: int)
    requires
        0 <= best < i <= lines.len(),
        forall|j: int| 0 <= j < i ==> (#[trigger] lines[j]).time <= lines[best].time,
        forall|j: int| 0 <= j < best ==> (#[trigger] lines[j]).time < lines[best].time,
    ensures
        0 <= lru_from(lines, i, best) < lines.len(),
        forall|j: int| 0 <= j < lines.len() ==> (#[trigger] lines[j]).time <= lines[lru_from(
            lines,
            i,
            best,
        )].time,
        forall|j: int| 0 <= j < lru_from(lines, i, best) ==> (#[trigger] lines[j]).time < lines[lru_from(
            lines,
            i,
            best,
        )].time,
    decreases lines.len() - i,
{
    if i < lines.len() {
        if lines[i].time > lines[best].time {
            lemma_lru_from(lines, i + 1, i);
        } else {
            lemma_lru_from(lines, i + 1, best);
        }
    }
}

/// The first invalid line from `k` on, when there is one, is a line of the set.
pub proof fn lemma_find_invalid_in_range(lines: Seq<sram_cache_line>, k: int)
    ensures
        find_invalid_from(lines, k) matches Some(i) ==> 0 <= i < lines.len(),
    decreases lines.len() - k,
{
    if 0 <= k < lines.len() && is_valid(lines[k]) {
        lemma_find_invalid_in_range(lines, k + 1);
    }
}

/// The line a miss fills is a line of the set.
pub proof fn lemma_fill_slot_in_range(lines: Seq<sram_cache_line>)
    requires
        lines.len() > 0,
    ensures
        0 <= fill_slot(lines) < lines.len(),
{
    lemma_find_invalid_in_range(lines, 0);
    lemma_lru_from(lines, 1, 0);
}

/// The LRU victim of a non-empty set is its first line with the highest timer.
pub proof fn lemma_lru_victim(lines: Seq<sram_cache_line>)
    requires
        lines.len() > 0,
    ensures
        0 <= lru_victim(lines) < lines.len(),
        forall|j: int| 0 <= j < lines.len() ==> (#[trigger] lines[j]).time <= lines[lru_victim(
            lines,
        )].time,
        forall|j: int| 0 <= j < lru_victim(lines) ==> (#[trigger] lines[j]).time < lines[lru_victim(
            lines,
        )].time,
{
    lemma_lru_from(lines, 1, 0);
}

/// Eviction from a full set: when every line of the set is valid and none holds
/// the block accessed, a successful access replaces exactly the first line with
/// the highest timer, keeps the other blocks, and, when that line was dirty,
/// leaves its data in memory at the block it came from.
pub proof fn lemma_full_set_evicts_lru(
    c1: sram_cache,
    c2: sram_cache,
    m1: Seq<u8>,
    m2: Seq<u8>,
    a: u64,
    data: Option<u8>,
    r: Result<u8, EmuError>,
)
    requires
        access_post(c1, c2, m1, m2, a, data, r),
        lines_of(c1, cache_set_of(a)).len() == LINE_NUM,
        forall|i: int| 0 <= i < LINE_NUM ==> is_valid(#[trigger] lines_of(c1, cache_set_of(a))[i]),
        forall|i: int| 0 <= i < LINE_NUM ==> (#[trigger] lines_of(c1, cache_set_of(a))[i]).tag
            != block_number(a),
        r is Ok,
    ensures
        ({
            let lines = lines_of(c1, cache_set_of(a));
            let nl = lines_of(c2, cache_set_of(a));
            let v = lru_victim(lines);
            &&& 0 <= v < LINE_NUM
            &&& forall|i: int| 0 <= i < LINE_NUM ==> (#[trigger] lines[i]).time <= lines[v].time
            &&& forall|i: int| 0 <= i < v ==> (#[trigger] lines[i]).time < lines[v].time
            &&& nl[v].tag == block_number(a)
            &&& is_valid(nl[v])
            &&& forall|i: int| 0 <= i < LINE_NUM && i != v ==> (#[trigger] nl[i]).tag == lines[i].tag
                && nl[i].state == lines[i].state && nl[i].block == lines[i].block
            &&& lines[v].state == LineState::Dirty ==> m2.subrange(
                (lines[v].tag << 6) as int,
                (lines[v].tag << 6) + 64,
            ) == lines[v].block@
            &&& lines[v].state != LineState::Dirty ==> m2 == m1
        }),
{
    let s = cache_set_of(a);
    let lines = lines_of(c1, s);
    let nl = lines_of(c2, s);
    lemma_find_hit_none(lines, block_number(a), 0);
    lemma_find_invalid_none(lines, 0);
    lemma_lru_victim(lines);
    let v = lru_victim(lines);
    assert(fill_slot(lines) == v);
    let vl = lines[v];
    if vl.state == LineState::Dirty {
        let t = vl.tag;
        assert(block_base(t << 6) == t << 6) by (bit_vector);
        assert(m2.subrange((t << 6) as int, (t << 6) + 64) =~= vl.block@);
    }
}

/// A write to a block held by a clean line makes that line dirty and leaves
/// memory as it was.
pub proof fn lemma_write_hit_makes_dirty(
    c1: sram_cache,
    c2: sram_cache,
    m1: Seq<u8>,
    m2: Seq<u8>,
    a: u64,
    d: u8,
    r: Result<u8, EmuError>,
    i: int,
)
    requires
        access_post(c1, c2, m1, m2, a, Some(d), r),
        0 <= i < lines_of(c1, cache_set_of(a)).len(),
        lines_of(c1, cache_set_of(a))[i].state == LineState::Clean,
        lines_of(c1, cache_set_of(a))[i].tag == block_number(a),
        forall|j: int| 0 <= j < lines_of(c1, cache_set_of(a)).len() && j != i ==> !(is_valid(
            #[trigger] lines_of(c1, cache_set_of(a))[j],
        ) && lines_of(c1, cache_set_of(a))[j].tag == block_number(a)),
    ensures
        lines_of(c2, cache_set_of(a))[i].state == LineState::Dirty,
        lines_of(c2, cache_set_of(a))[i].block@ == lines_of(c1, cache_set_of(a))[i].block@.update(
            block_offset(a) as int,
            d,
        ),
        m2 == m1,
        r == Ok::<u8, EmuError>(d),
{
    lemma_find_hit_unique(lines_of(c1, cache_set_of(a)), block_number(a), 0, i);
}

/// Reading a byte right after a successful write of it gives the byte written.
pub proof fn lemma_read_after_write(
    c1: sram_cache,
    c2: sram_cache,
    c3: sram_cache,
    m1: Seq<u8>,
    m2: Seq<u8>,
    m3: Seq<u8>,
    a: u64,
    d: u8,
    r: Result<u8, EmuError>,
)
    requires
        access_post(c1, c2, m1, m2, a, Some(d), Ok::<u8, EmuError>(d)),
        access_post(c2, c3, m2, m3, a, None, r),
        lines_of(c1, cache_set_of(a)).len() == LINE_NUM,
    ensures
        r == Ok::<u8, EmuError>(d),
{
    let s = cache_set_of(a);
    let tag = block_number(a);
    let l1 = lines_of(c1, s);
    let l2 = lines_of(c2, s);
    let off = block_offset(a);
    assert(a & 0x3f < 64) by (bit_vector);
    lemma_find_hit_matches(l1, tag, 0);
    match find_hit_from(l1, tag, 0) {
        Some(i) => {
            assert forall|j: int| 0 <= j < i implies !(is_valid(#[trigger] l2[j]) && l2[j].tag
                == tag) by {
                assert(l2[j] == aged(l1[j]));
            }
            lemma_find_hit_unique(l2, tag, 0, i);
            assert(l2[i].block@[off as int] == d);
        },
        None => {
            let j = fill_slot(l1);
            lemma_fill_slot_in_range(l1);
            assert forall|k: int| 0 <= k < j implies !(is_valid(#[trigger] l2[k]) && l2[k].tag
                == tag) by {
                assert(l2[k] == aged(l1[k]));
            }
            lemma_find_hit_unique(l2, tag, 0, j);
            let m = after_write_back(l1, m1);
            assert(m.len() == m1.len());
            assert(l2[j].block@[off as int] == d);
        },
    }
}

/// The 52-bit physical address that `a` names.
pub open spec fn phys(a: u64) -> u64 {
    a & 0xfffffffffffff
}

/// The line of set `s` that holds block `b`, if any.
pub open spec fn holder(c: sram_cache, s: int, b: u64) -> Option<int> {
    find_hit_from(lines_of(c, s), b, 0)
}

/// Memory as a reader sees it through the cache: a byte of a block that a
/// line holds comes from that line, any other byte from memory.
pub open spec fn memory_view(c: sram_cache, m: Seq<u8>) -> Seq<u8> {
    Seq::new(
        m.len(),
        |p: int|
            {
                let x = p as u64;
                match holder(c, cache_set_of(x), block_number(x)) {
                    Some(i) => lines_of(c, cache_set_of(x))[i].block@[p % 64],
                    None => m[p],
                }
            },
    )
}

/// A valid line of set `s` holds a block of memory that maps to `s`; a clean
/// one holds the same bytes as memory.
pub open spec fn line_ok(l: sram_cache_line, s: int, m: Seq<u8>) -> bool {
    &&& l.tag * 64 + 64 <= m.len()
    &&& cache_set_of((l.tag * 64) as u64) == s
    &&& l.state == LineState::Clean ==> l.block@ == m.subrange(l.tag * 64, l.tag * 64 + 64)
}

/// The cache is consistent with memory `m`: physical addresses are 52 bits,
/// every valid line is well placed, and no two valid lines of a set hold the
/// same block.
pub open spec fn cache_wf(c: sram_cache, m: Seq<u8>) -> bool {
    &&& m.len() <= 0x10_0000_0000_0000
    &&& forall|s: int, i: int|
        0 <= s < SET_NUM && 0 <= i < LINE_NUM && is_valid(#[trigger] lines_of(c, s)[i]) ==> line_ok(
            lines_of(c, s)[i],
            s,
            m,
        )
    &&& forall|s: int, i: int, j: int|
        0 <= s < SET_NUM && 0 <= i < LINE_NUM && 0 <= j < LINE_NUM && i != j && is_valid(
            #[trigger] lines_of(c, s)[i],
        ) && is_valid(#[trigger] lines_of(c, s)[j]) ==> lines_of(c, s)[i].tag != lines_of(c, s)[j].tag
}

pub proof fn lemma_addr_bits(x: u64)
    ensures
        phys(x) < 0x10_0000_0000_0000,
        block_number(x) as int == phys(x) as int / 64,
        block_offset(x) as int == phys(x) as int % 64,
        block_number(x) < 0x40_0000_0000_0000,
        cache_set_of(x) == 0,
        x < 0x10_0000_0000_0000 ==> phys(x) == x,
        block_base(x) as int == (x as int / 64) * 64,
{
    assert(x & 0xfffffffffffff < 0x10_0000_0000_0000) by (bit_vector);
    assert((x & 0xfffffffffffff) >> 6 == (x & 0xfffffffffffff) / 64) by (bit_vector);
    assert(x & 0x3f == (x & 0xfffffffffffff) % 64) by (bit_vector);
    assert((x & 0xfffffffffffff) >> 6 < 0x40_0000_0000_0000) by (bit_vector);
    assert(x < 0x10_0000_0000_0000 ==> x & 0xfffffffffffff == x) by (bit_vector);
    assert((x >> 6) << 6 == (x / 64) * 64) by (bit_vector);
}

pub proof fn lemma_tag_bits(t: u64)
    requires
        t < 0x40_0000_0000_0000,
    ensures
        (t << 6) as int == t * 64,
        block_base(t << 6) == t << 6,
{
    assert((t << 6) == t * 64) by (bit_vector)
        requires
            t < 0x40_0000_0000_0000,
    ;
    assert(((t << 6) >> 6) << 6 == t << 6) by (bit_vector);
}

/// Lines that agree on which of them hold block `tag` find the same holder.
proof fn lemma_find_hit_same(l1: Seq<sram_cache_line>, l2: Seq<sram_cache_line>, tag: u64, k: int)
    requires
        l1.len() == l2.len(),
        0 <= k,
        forall|i: int|
            k <= i < l1.len() ==> (is_valid(#[trigger] l1[i]) && l1[i].tag == tag) == (is_valid(l2[i])
                && l2[i].tag == tag),
    ensures
        find_hit_from(l1, tag, k) == find_hit_from(l2, tag, k),
    decreases l1.len() - k,
{
    if k < l1.len() {
        lemma_find_hit_same(l1, l2, tag, k + 1);
    }
}

/// Accesses through the cache keep it consistent with memory and act on
/// memory as seen through it: a read returns the byte there and changes
/// nothing, a write changes exactly that byte.
pub proof fn lemma_access_coherent(
    c1: sram_cache,
    c2: sram_cache,
    m1: Seq<u8>,
    m2: Seq<u8>,
    a: u64,
    data: Option<u8>,
    r: Result<u8, EmuError>,
)
    requires
        cache_wf(c1, m1),
        access_post(c1, c2, m1, m2, a, data, r),
        r is Ok,
    ensures
        cache_wf(c2, m2),
        m2.len() == m1.len(),
        phys(a) < m1.len(),
        data is None ==> r == Ok::<u8, EmuError>(memory_view(c1, m1)[phys(a) as int])
            && memory_view(c2, m2) == memory_view(c1, m1),
        data matches Some(d) ==> memory_view(c2, m2) == memory_view(c1, m1).update(phys(a) as int, d),
{
    lemma_addr_bits(a);
    let s = cache_set_of(a);
    let l1 = lines_of(c1, s);
    let l2 = lines_of(c2, s);
    let tag = block_number(a);
    let off = block_offset(a) as int;
    let pa = phys(a) as int;
    assert(s == 0);
    assert(l1.len() == LINE_NUM);
    lemma_find_hit_matches(l1, tag, 0);
    assert(c2.sets@.len() == SET_NUM);
    match find_hit_from(l1, tag, 0) {
        Some(i) => {
            let li = l1[i];
            assert(line_ok(li, s, m1));
            assert(m2 == m1);
            assert forall|k: int| 0 <= k < LINE_NUM implies is_valid(#[trigger] l1[k]) == is_valid(l2[k])
                && l1[k].tag == l2[k].tag by {
                if k != i {
                    assert(l2[k] == aged(l1[k]));
                }
            }
            assert(pa == tag * 64 + off);
            lemma_addr_bits(pa as u64);
            // The consistency of the cache carries over.
            assert forall|t: int, k: int|
                0 <= t < SET_NUM && 0 <= k < LINE_NUM && is_valid(#[trigger] lines_of(c2, t)[k]) implies line_ok(
                lines_of(c2, t)[k],
                t,
                m2,
            ) by {
                assert(t == s);
                if k != i {
                    assert(l2[k] == aged(l1[k]));
                    assert(is_valid(l1[k]));
                } else {
                    assert(is_valid(l1[k]));
                }
            }
            assert forall|t: int, k: int, j: int|
                0 <= t < SET_NUM && 0 <= k < LINE_NUM && 0 <= j < LINE_NUM && k != j && is_valid(
                    #[trigger] lines_of(c2, t)[k],
                ) && is_valid(#[trigger] lines_of(c2, t)[j]) implies lines_of(c2, t)[k].tag != lines_of(
                c2,
                t,
            )[j].tag by {
                assert(t == s);
                assert(is_valid(l1[k]) && is_valid(l1[j]));
            }
            // The view.
            let v1 = memory_view(c1, m1);
            let v2 = memory_view(c2, m2);
            let expected = match data {
                None => v1,
                Some(d) => v1.update(pa, d),
            };
            assert forall|p: int| 0 <= p < m1.len() implies v2[p] == expected[p] by {
                let x = p as u64;
                lemma_addr_bits(x);
                assert(phys(x) == x);
                lemma_find_hit_same(l1, l2, block_number(x), 0);
                lemma_find_hit_matches(l1, block_number(x), 0);
                assert(cache_set_of(x) == s);
                if block_number(x) == tag {
                    assert(holder(c1, s, tag) == Some(i));
                    assert(holder(c2, s, tag) == Some(i));
                    assert(p == pa <==> p % 64 == off);
                } else {
                    assert(p != pa);
                    if let Some(k) = holder(c1, s, block_number(x)) {
                        assert(k != i);
                        assert(l2[k] == aged(l1[k]));
                    }
                }
            }
            assert(v2 =~= expected);
        },
        None => {
            let j = fill_slot(l1);
            lemma_fill_slot_in_range(l1);
            let v = l1[j];
            assert(!miss_blocked(l1, m1.len(), a));
            assert(a < 0x10_0000_0000_0000);
            assert(pa == a);
            assert(block_base(a) == tag * 64);
            assert(pa == tag * 64 + off);
            lemma_addr_bits(pa as u64);
            let dirty = v.state == LineState::Dirty;
            if is_valid(v) {
                assert(line_ok(v, s, m1));
                lemma_tag_bits(v.tag);
                assert(v.tag != tag);
            }
            if dirty {
                assert(m2 == m1.update_subrange_with(v.tag * 64, v.block@));
            } else {
                assert(m2 == m1);
            }
            assert(m2.len() == m1.len());
            // Memory changed only inside the victim's block, when it was dirty.
            assert forall|q: int| 0 <= q < m1.len() && !(dirty && v.tag * 64 <= q < v.tag * 64 + 64) implies m2[q]
                == m1[q] by {}
            let fetched = m2.subrange(tag * 64, tag * 64 + 64);
            assert forall|k: int| 0 <= k < LINE_NUM && k != j implies #[trigger] l2[k] == aged(l1[k]) by {}
            assert forall|t: int, k: int|
                0 <= t < SET_NUM && 0 <= k < LINE_NUM && is_valid(#[trigger] lines_of(c2, t)[k]) implies line_ok(
                lines_of(c2, t)[k],
                t,
                m2,
            ) by {
                assert(t == s);
                if k != j {
                    let lk = l1[k];
                    assert(is_valid(lk));
                    assert(line_ok(lk, s, m1));
                    if dirty {
                        assert(lk.tag != v.tag);
                    }
                    if lk.state == LineState::Clean {
                        assert(m2.subrange(lk.tag * 64, lk.tag * 64 + 64) =~= m1.subrange(
                            lk.tag * 64,
                            lk.tag * 64 + 64,
                        ));
                    }
                } else {
                    lemma_tag_bits(tag);
                }
            }
            assert forall|t: int, k: int, i: int|
                0 <= t < SET_NUM && 0 <= k < LINE_NUM && 0 <= i < LINE_NUM && k != i && is_valid(
                    #[trigger] lines_of(c2, t)[k],
                ) && is_valid(#[trigger] lines_of(c2, t)[i]) implies lines_of(c2, t)[k].tag != lines_of(
                c2,
                t,
            )[i].tag by {
                assert(t == s);
                if k != j && i != j {
                    assert(is_valid(l1[k]) && is_valid(l1[i]));
                } else if k == j {
                    assert(is_valid(l1[i]));
                } else {
                    assert(is_valid(l1[k]));
                }
            }
            let v1 = memory_view(c1, m1);
            let v2 = memory_view(c2, m2);
            let expected = match data {
                None => v1,
                Some(d) => v1.update(pa, d),
            };
            assert forall|p: int| 0 <= p < m1.len() implies v2[p] == expected[p] by {
                let x = p as u64;
                let b = block_number(x);
                lemma_addr_bits(x);
                assert(phys(x) == x);
                assert(cache_set_of(x) == s);
                lemma_find_hit_matches(l1, b, 0);
                lemma_find_hit_matches(l2, b, 0);
                if b == tag {
                    assert forall|k: int| 0 <= k < j implies !(is_valid(#[trigger] l2[k]) && l2[k].tag
                        == tag) by {}
                    lemma_find_hit_unique(l2, tag, 0, j);
                    assert(p == pa <==> p % 64 == off);
                    assert(p == tag * 64 + p % 64);
                    assert(m2[p] == m1[p]);
                } else if is_valid(v) && b == v.tag {
                    assert forall|k: int| 0 <= k < j implies !(is_valid(#[trigger] l1[k]) && l1[k].tag
                        == b) by {}
                    lemma_find_hit_unique(l1, b, 0, j);
                    assert forall|k: int| 0 <= k < LINE_NUM implies !(is_valid(#[trigger] l2[k])
                        && l2[k].tag == b) by {
                        if k != j {
                            assert(is_valid(l1[k]) ==> l1[k].tag != v.tag);
                        }
                    }
                    lemma_find_hit_none(l2, b, 0);
                    assert(p != pa);
                    assert(p == v.tag * 64 + p % 64);
                } else {
                    assert forall|k: int| 0 <= k < LINE_NUM implies (is_valid(#[trigger] l1[k])
                        && l1[k].tag == b) == (is_valid(l2[k]) && l2[k].tag == b) by {}
                    lemma_find_hit_same(l1, l2, b, 0);
                    assert(p != pa);
                    if let Some(k) = holder(c1, s, b) {
                        assert(k != j);
                    } else {
                        assert(m2[p] == m1[p]);
                    }
                }
            }
            assert(v2 =~= expected);
        },
    }
}

/// In a consistent cache, an access succeeds whenever the block accessed lies
/// inside memory: a dirty line it evicts always can be written back.
pub proof fn lemma_access_ok(
    c1: sram_cache,
    c2: sram_cache,
    m1: Seq<u8>,
    m2: Seq<u8>,
    a: u64,
    data: Option<u8>,
    r: Result<u8, EmuError>,
)
    requires
        cache_wf(c1, m1),
        access_post(c1, c2, m1, m2, a, data, r),
        block_fits(m1.len(), a),
    ensures
        r is Ok,
{
    lemma_addr_bits(a);
    let s = cache_set_of(a);
    let l1 = lines_of(c1, s);
    assert(l1.len() == LINE_NUM);
    if find_hit_from(l1, block_number(a), 0) is None {
        lemma_fill_slot_in_range(l1);
        let v = l1[fill_slot(l1)];
        if v.state == LineState::Dirty {
            assert(line_ok(v, s, m1));
            lemma_tag_bits(v.tag);
        }
    }
}

/// A cache with no valid line is consistent with any memory of at most 2^52
/// bytes, and shows that memory as it is.
pub proof fn lemma_empty_cache(c: sram_cache, m: Seq<u8>)
    requires
        m.len() <= 0x10_0000_0000_0000,
        forall|s: int, i: int| 0 <= s < SET_NUM && 0 <= i < LINE_NUM ==> !is_valid(#[trigger] lines_of(c, s)[i]),
        forall|s: int| 0 <= s < SET_NUM ==> #[trigger] lines_of(c, s).len() == LINE_NUM,
    ensures
        cache_wf(c, m),
        memory_view(c, m) == m,
{
    assert forall|p: int| 0 <= p < m.len() implies memory_view(c, m)[p] == m[p] by {
        let x = p as u64;
        lemma_addr_bits(x);
        lemma_find_hit_none(lines_of(c, cache_set_of(x)), block_number(x), 0);
    }
    assert(memory_view(c, m) =~= m);
}

/// A byte whose block does not lie wholly inside memory is never cached: it
/// is seen as memory holds it, and writing it to memory directly keeps the
/// cache consistent and changes that byte alone of memory as seen.
pub proof fn lemma_uncached_byte(c: sram_cache, m: Seq<u8>, p: int, d: u8)
    requires
        cache_wf(c, m),
        0 <= p < m.len(),
        !block_fits(m.len(), p as u64),
    ensures
        memory_view(c, m)[p] == m[p],
        cache_wf(c, m.update(p, d)),
        memory_view(c, m.update(p, d)) == memory_view(c, m).update(p, d),
{
    let x = p as u64;
    lemma_addr_bits(x);
    let s = cache_set_of(x);
    let l = lines_of(c, s);
    let m2 = m.update(p, d);
    assert(phys(x) == x);
    // A valid line holds a block inside memory, so never the block of `p`.
    assert forall|i: int| 0 <= i < LINE_NUM && is_valid(#[trigger] l[i]) implies l[i].tag * 64 + 64
        <= p || p < l[i].tag * 64 by {
        assert(line_ok(l[i], s, m));
        if l[i].tag * 64 <= p < l[i].tag * 64 + 64 {
            assert(p / 64 == l[i].tag);
        }
    }
    assert forall|i: int| 0 <= i < LINE_NUM implies !(is_valid(#[trigger] l[i]) && l[i].tag
        == block_number(x)) by {
        if is_valid(l[i]) && l[i].tag == block_number(x) {
            assert(line_ok(l[i], s, m));
        }
    }
    lemma_find_hit_none(l, block_number(x), 0);
    assert forall|t: int, i: int|
        0 <= t < SET_NUM && 0 <= i < LINE_NUM && is_valid(#[trigger] lines_of(c, t)[i]) implies line_ok(
        lines_of(c, t)[i],
        t,
        m2,
    ) by {
        assert(t == s);
        let li = l[i];
        assert(line_ok(li, s, m));
        if li.state == LineState::Clean {
            assert(m2.subrange(li.tag * 64, li.tag * 64 + 64) =~= m.subrange(
                li.tag * 64,
                li.tag * 64 + 64,
            ));
        }
    }
    assert forall|q: int| 0 <= q < m.len() implies memory_view(c, m2)[q] == memory_view(c, m).update(
        p,
        d,
    )[q] by {
        let y = q as u64;
        lemma_addr_bits(y);
    }
    assert(memory_view(c, m2) =~= memory_view(c, m).update(p, d));
}

/// The first line that holds block `tag`.
fn find_hit(lines: &[sram_cache_line; LINE_NUM], tag: u64) -> (r: Option<usize>)
    ensures
        match find_hit_from(lines@, tag, 0) {
            Some(i) => r == Some(i as usize) && 0 <= i < LINE_NUM,
            None => r is None,
        },
{
    let mut i: usize = 0;
    while i < LINE_NUM
        invariant
            i <= LINE_NUM,
            lines@.len() == LINE_NUM,
            find_hit_from(lines@, tag, 0) == find_hit_from(lines@, tag, i as int),
        decreases LINE_NUM - i,
    {
        if lines[i].state != LineState::Invalid && lines[i].tag == tag {
            return Some(i);
        }
        i = i + 1;
    }
    None
}

/// The line a miss fills: the first invalid one, else the first with the
/// highest timer.
fn find_fill_slot(lines: &[sram_cache_line; LINE_NUM]) -> (r: usize)
    ensures
        r == fill_slot(lines@),
        r < LINE_NUM,
{
    let mut i: usize = 0;
    while i < LINE_NUM
        invariant
            i <= LINE_NUM,
            lines@.len() == LINE_NUM,
            find_invalid_from(lines@, 0) == find_invalid_from(lines@, i as int),
        decreases LINE_NUM - i,
    {
        if lines[i].state == LineState::Invalid {
            return i;
        }
        i = i + 1;
    }
    let mut victim: usize = 0;
    let mut max_time: i8 = lines[0].time;
    let mut k: usize = 1;
    while k < LINE_NUM
        invariant
            1 <= k <= LINE_NUM,
            victim < k,
            lines@.len() == LINE_NUM,
            max_time == lines@[victim as int].time,
            lru_from(lines@, k as int, victim as int) == lru_victim(lines@),
        decreases LINE_NUM - k,
    {
        if lines[k].time > max_time {
            victim = k;
            max_time = lines[k].time;
        }
        k = k + 1;
    }
    victim
}

/// Ages every line but `j` by one access.
fn age_others(lines: &mut [sram_cache_line; LINE_NUM], j: usize)
    requires
        j < LINE_NUM,
    ensures
        others_aged(old(lines)@, final(lines)@, j as int),
        final(lines)@[j as int] == old(lines)@[j as int],
{
    let mut i: usize = 0;
    while i < LINE_NUM
        invariant
            i <= LINE_NUM,
            j < LINE_NUM,
            lines@.len() == LINE_NUM,
            forall|k: int| 0 <= k < LINE_NUM ==> #[trigger] lines@[k] == (if k < i && k != j {
                aged(old(lines)@[k])
            } else {
                old(lines)@[k]
            }),
        decreases LINE_NUM - i,
    {
        if i != j {
            let mut l = lines[i];
            if l.time < TIME_MAX {
                l.time = l.time + 1;
            }
            lines[i] = l;
        }
        i = i + 1;
    }
}

impl sram_cache {
    /// One access to the byte at `paaddr`: a read when `data` is `None`,
    /// else a write of that byte.
    fn access(&mut self, pm: &mut PhysicalMemory, paaddr: u64, data: Option<u8>) -> (r: Result<
        u8,
        EmuError,
    >)
        ensures
            access_post(*old(self), *final(self), old(pm)@, final(pm)@, paaddr, data, r),
    {
        let address = pa_address::new(paaddr);
        let tag = address.paddr_value() >> 6u64;
        let s = address.ci() % SET_NUM;
        let off = address.co();
        let mut set = self.sets[s];
        match find_hit(&set.lines, tag) {
            Some(i) => {
                proof {
                    lemma_find_hit_matches(set.lines@, tag, 0);
                }
                let mut line = set.lines[i];
                let out = match data {
                    None => line.block[off],
                    Some(d) => {
                        line.block[off] = d;
                        line.state = LineState::Dirty;
                        d
                    },
                };
                line.time = 0;
                age_others(&mut set.lines, i);
                set.lines[i] = line;
                self.sets[s] = set;
                Ok(out)
            },
            None => {
                let j = find_fill_slot(&set.lines);
                let victim = set.lines[j];
                if !block_in_memory(pm, paaddr) {
                    return Err(EmuError::OutOfBounds);
                }
                if victim.state == LineState::Dirty {
                    if !block_in_memory(pm, victim.tag << 6u64) {
                        return Err(EmuError::OutOfBounds);
                    }
                    let wb = bus_write_cacheline(pm, victim.tag << 6u64, &victim.block);
                    if wb.is_err() {
                        return Err(EmuError::OutOfBounds);
                    }
                }
                let mut line = victim;
                let rd = bus_read_cacheline(pm, paaddr, &mut line.block);
                if rd.is_err() {
                    return Err(EmuError::OutOfBounds);
                }
                let out = match data {
                    None => {
                        line.state = LineState::Clean;
                        line.block[off]
                    },
                    Some(d) => {
                        line.block[off] = d;
                        line.state = LineState::Dirty;
                        d
                    },
                };
                line.tag = tag;
                line.time = 0;
                age_others(&mut set.lines, j);
                set.lines[j] = line;
                self.sets[s] = set;
                Ok(out)
            },
        }
    }

    /// Reads the byte at `paaddr` through the cache.
    pub fn sram_cache_read(&mut self, pm: &mut PhysicalMemory, paaddr: u64) -> (r: Result<
        u8,
        EmuError,
    >)
        ensures
            access_post(*old(self), *final(self), old(pm)@, final(pm)@, paaddr, None, r),
    {
        self.access(pm, paaddr, None)
    }

    /// Writes `data` to the byte at `paaddr` through the cache; memory sees it
    /// only when the line is written back.
    pub fn sram_cache_write(&mut self, pm: &mut PhysicalMemory, paaddr: u64, data: u8) -> (r: Result<
        (),
        EmuError,
    >)
        ensures
            access_post(
                *old(self),
                *final(self),
                old(pm)@,
                final(pm)@,
                paaddr,
                Some(data),
                match r {
                    Ok(_) => Ok::<u8, EmuError>(data),
                    Err(e) => Err::<u8, EmuError>(e),
                },
            ),
    {
        match self.access(pm, paaddr, Some(data)) {
            Ok(_) => Ok(()),
            Err(e) => Err(e),
        }
    }
}

} // verus!
