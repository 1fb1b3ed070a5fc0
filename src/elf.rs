//! The tables that an object-file reader hands to the loader: section
//! headers, symbols and relocations.
use vstd::prelude::*;
use vstd::string::{StrSliceExecFns, StringSliceAdditionalSpecFns};
use vstd::utf8::encode_utf8;
use crate::number::{digits_value, hex_str2u, immediate_u64, parse_digits};

verus! {

/// A section header: name, address, first line and number of lines.
#[derive(Debug)]
pub struct sh_entry {
    pub sh_name: String,
    pub sh_addr: u64,
    pub sh_offset: u64,
    pub sh_size: u64,
}

impl sh_entry {
    pub fn new(sh_name: String, sh_addr: u64, sh_offset: u64, sh_size: u64) -> (r: Self)
        ensures
            r.sh_name@ == sh_name@,
            r.sh_addr == sh_addr,
            r.sh_offset == sh_offset,
            r.sh_size == sh_size,
    {
        sh_entry { sh_name, sh_addr, sh_offset, sh_size }
    }
}

#[derive(Debug, Clone, Copy, PartialEq, Eq, Structural)]
pub enum StBind {
    StbLocal,
    StbGlobal,
    StbWeak,
}

#[derive(Debug, Clone, Copy, PartialEq, Eq, Structural)]
pub enum StType {
    SttNotype,
    SttObject,
    SttFunc,
}

/// A symbol: name, binding, type, section, value and size.
#[derive(Debug)]
pub struct st_entry {
    pub st_name: String,
    pub st_bind: StBind,
    pub st_type: StType,
    pub st_shndx: String,
    pub st_value: u64,
    pub st_size: u64,
}

impl st_entry {
    pub fn new(
        st_name: String,
        st_bind: StBind,
        st_type: StType,
        st_shndx: String,
        st_value: u64,
        st_size: u64,
    ) -> (r: Self)
        ensures
            r.st_name@ == st_name@,
            r.st_bind == st_bind,
            r.st_type == st_type,
            r.st_shndx@ == st_shndx@,
            r.st_value == st_value,
            r.st_size == st_size,
    {
        st_entry { st_name, st_bind, st_type, st_shndx, st_value, st_size }
    }
}

#[derive(Debug, Clone, Copy, PartialEq, Eq, Structural)]
pub enum RelType {
    RX86_64_32,
    RX86_64Pc32,
    RX86_64Plt32,
}

/// A relocation: where (line and column), its kind, the symbol and the addend.
#[derive(Debug, Clone, Copy, PartialEq, Eq, Structural)]
pub struct rl_entry {
    pub r_row: u64,
    pub r_col: u64,
    pub rel_type: RelType,
    pub sym: u32,
    pub r_addend: i64,
}

impl rl_entry {
    pub fn new(r_row: u64, r_col: u64, rel_type: RelType, sym: u32, r_addend: i64) -> (r: Self)
        ensures
            r == (rl_entry { r_row, r_col, rel_type, sym, r_addend }),
    {
        rl_entry { r_row, r_col, rel_type, sym, r_addend }
    }
}

/// An object file read from text: its lines and its tables.
#[derive(Debug)]
pub struct elf {
    pub buffer: Vec<String>,
    pub line_count: u64,
    pub sht_count: u64,
    pub sht: Vec<sh_entry>,
    pub symt_count: usize,
    pub symt: Vec<st_entry>,
    pub rel_text_count: usize,
    pub reltext: Vec<rl_entry>,
    pub rel_data_count: usize,
    pub rel_data: Vec<rl_entry>,
}

impl elf {
    pub fn new(
        buffer: Vec<String>,
        line_count: u64,
        sht_count: u64,
        sht: Vec<sh_entry>,
        symt_count: usize,
        symt: Vec<st_entry>,
        rel_text_count: usize,
        reltext: Vec<rl_entry>,
        rel_data_count: usize,
        rel_data: Vec<rl_entry>,
    ) -> (r: Self)
        ensures
            r.buffer@ == buffer@,
            r.line_count == line_count,
            r.sht_count == sht_count,
            r.sht@ == sht@,
            r.symt_count == symt_count,
            r.symt@ == symt@,
            r.rel_text_count == rel_text_count,
            r.reltext@ == reltext@,
            r.rel_data_count == rel_data_count,
            r.rel_data@ == rel_data@,
    {
        elf {
            buffer,
            line_count,
            sht_count,
            sht,
            symt_count,
            symt,
            rel_text_count,
            reltext,
            rel_data_count,
            rel_data,
        }
    }
}

/// Why a line of an object file could not be read.
#[derive(Debug, Clone, Copy, PartialEq, Eq, Structural)]
pub enum ElfError {
    /// The line has fewer fields than its table needs.
    MissingField,
    /// A numeric field is not a number in range.
    BadNumber,
    /// A binding, symbol type or relocation type that is not known.
    UnknownName,
}

/// The comma-separated fields of `s`, empty ones included.
pub open spec fn comma_fields(s: Seq<char>) -> Seq<Seq<char>>
    decreases s.len(),
{
    if s.len() == 0 {
        seq![seq![]]
    } else {
        let f = comma_fields(s.drop_last());
        if s.last() == ',' {
            f.push(seq![])
        } else {
            f.update(f.len() - 1, f.last().push(s.last()))
        }
    }
}

/// A non-empty string of decimal digits that fits in 64 bits.
pub open spec fn decimal_u64(b: Seq<u8>) -> Option<u64> {
    if b.len() == 0 {
        None
    } else {
        match digits_value(b, 10) {
            Some(v) => if v <= u64::MAX {
                Some(v as u64)
            } else {
                None
            },
            None => None,
        }
    }
}

/// A decimal number with an optional leading `-` and trailing spaces, that
/// fits in a signed 64-bit integer.
pub open spec fn decimal_i64(b: Seq<u8>) -> Option<i64>
    decreases b.len(),
{
    if b.len() > 0 && b.last() == (' ' as u8) {
        decimal_i64(b.drop_last())
    } else if b.len() > 0 && b[0] == ('-' as u8) {
        match decimal_u64(b.drop_first()) {
            Some(v) => if v <= 0x8000_0000_0000_0000u64 {
                Some((-(v as int)) as i64)
            } else {
                None
            },
            None => None,
        }
    } else {
        match decimal_u64(b) {
            Some(v) => if v <= i64::MAX as u64 {
                Some(v as i64)
            } else {
                None
            },
            None => None,
        }
    }
}

pub open spec fn string_views(v: Seq<String>) -> Seq<Seq<char>> {
    v.map_values(|x: String| x@)
}

pub open spec fn str_views(v: Seq<&str>) -> Seq<Seq<char>> {
    v.map_values(|x: &str| x@)
}

/// Splits `s` at every comma.
pub fn split_commas(s: &str) -> (r: Vec<String>)
    ensures
        string_views(r@) == comma_fields(s@),
{
    let n = s.unicode_len();
    let mut out: Vec<String> = Vec::new();
    let mut start: usize = 0;
    let mut i: usize = 0;
    assert(s@.subrange(0, 0) =~= Seq::<char>::empty());
    assert(string_views(out@) =~= Seq::<Seq<char>>::empty());
    assert(comma_fields(Seq::<char>::empty()) =~= Seq::<Seq<char>>::empty().push(Seq::<char>::empty()));
    while i < n
        invariant
            start <= i <= n,
            n == s@.len(),
            comma_fields(s@.subrange(0, i as int)) == string_views(out@).push(
                s@.subrange(start as int, i as int),
            ),
        decreases n - i,
    {
        let c = s.get_char(i);
        assert(s@.subrange(0, i + 1).drop_last() =~= s@.subrange(0, i as int));
        if c == ',' {
            let field = s.substring_char(start, i).to_owned();
            proof {
                assert(string_views(out@.push(field)) =~= string_views(out@).push(field@));
            }
            out.push(field);
            start = i + 1;
            assert(s@.subrange(start as int, i + 1) =~= seq![]);
        } else {
            assert(s@.subrange(start as int, i + 1) =~= s@.subrange(start as int, i as int).push(c));
        }
        i = i + 1;
    }
    assert(s@.subrange(0, n as int) =~= s@);
    let last = s.substring_char(start, n).to_owned();
    proof {
        assert(string_views(out@.push(last)) =~= string_views(out@).push(last@));
    }
    out.push(last);
    out
}

/// Reads a non-empty string of decimal digits.
pub fn parse_decimal(s: &str) -> (r: Option<u64>)
    ensures
        r == decimal_u64(s.spec_bytes()),
{
    let b = s.as_bytes();
    if b.len() == 0 {
        return None;
    }
    let r = parse_digits(b, 0, 10);
    assert(b@.subrange(0, b@.len() as int) =~= b@);
    r
}

/// Reads a decimal number with an optional leading `-` and trailing spaces.
pub fn parse_signed_decimal(s: &str) -> (r: Option<i64>)
    ensures
        r == decimal_i64(s.spec_bytes()),
{
    let b = s.as_bytes();
    let mut end: usize = b.len();
    assert(b@.subrange(0, b@.len() as int) =~= b@);
    while end > 0 && b[end - 1] == (' ' as u8)
        invariant
            end <= b@.len(),
            decimal_i64(b@) == decimal_i64(b@.subrange(0, end as int)),
        decreases end,
    {
        assert(b@.subrange(0, end as int).drop_last() =~= b@.subrange(0, end - 1));
        end = end - 1;
    }
    assert(b@.subrange(0, b@.len() as int) =~= b@);
    let t = vstd::slice::slice_subrange(b, 0, end);
    let neg = end > 0 && t[0] == ('-' as u8);
    let start: usize = if neg {
        1
    } else {
        0
    };
    assert(t@ == b@.subrange(0, end as int));
    if end > 0 {
        assert(t@.last() != (' ' as u8));
    }
    if neg {
        assert(t@.drop_first() =~= t@.subrange(1, t@.len() as int));
    } else {
        assert(t@.subrange(0, t@.len() as int) =~= t@);
    }
    if start == end {
        return None;
    }
    let v = match parse_digits(t, start, 10) {
        Some(v) => v,
        None => return None,
    };
    if neg {
        if v <= 0x8000_0000_0000_0000u64 {
            if v == 0x8000_0000_0000_0000u64 {
                Some(i64::MIN)
            } else {
                Some(-(v as i64))
            }
        } else {
            None
        }
    } else {
        if v <= i64::MAX as u64 {
            Some(v as i64)
        } else {
            None
        }
    }
}

fn same_chars(a: &str, b: &str) -> (r: bool)
    ensures
        r == (a@ == b@),
{
    let n = a.unicode_len();
    if n != b.unicode_len() {
        return false;
    }
    let mut i: usize = 0;
    while i < n
        invariant
            i <= n,
            n == a@.len(),
            n == b@.len(),
            forall|j: int| 0 <= j < i ==> a@[j] == b@[j],
        decreases n - i,
    {
        if a.get_char(i) != b.get_char(i) {
            return false;
        }
        i = i + 1;
    }
    assert(a@ =~= b@);
    true
}

/// A section-header line `name,addr,offset,size`: the address read as
/// `hex_str2u` reads it, offset and size in decimal.
pub open spec fn sht_line(s: Seq<char>) -> Result<(Seq<char>, u64, u64, u64), ElfError> {
    let f = comma_fields(s);
    if f.len() < 4 {
        Err(ElfError::MissingField)
    } else {
        match (immediate_u64(encode_utf8(f[1])), decimal_u64(encode_utf8(f[2])), decimal_u64(encode_utf8(f[3]))) {
            (Some(a), Some(o), Some(z)) => Ok((f[0], a, o, z)),
            _ => Err(ElfError::BadNumber),
        }
    }
}

/// Reads a section-header line such as `.text,0x0,5,22`.
pub fn parse_sht(str: &str) -> (r: Result<sh_entry, ElfError>)
    ensures
        match sht_line(str@) {
            Ok((name, a, o, z)) => r is Ok && r->Ok_0.sh_name@ == name && r->Ok_0.sh_addr == a
                && r->Ok_0.sh_offset == o && r->Ok_0.sh_size == z,
            Err(e) => r == Err::<sh_entry, ElfError>(e),
        },
{
    let line = split_commas(str);
    let ghost f = comma_fields(str@);
    assert(line@.len() == f.len());
    if line.len() < 4 {
        return Err(ElfError::MissingField);
    }
    assert(line@[1]@ == f[1] && line@[2]@ == f[2] && line@[3]@ == f[3] && line@[0]@ == f[0]);
    let sh_addr = hex_str2u(line[1].as_str());
    let sh_offset = parse_decimal(line[2].as_str());
    let sh_size = parse_decimal(line[3].as_str());
    match (sh_addr, sh_offset, sh_size) {
        (Ok(a), Some(o), Some(z)) => {
            let sh_name = line[0].clone();
            Ok(sh_entry::new(sh_name, a, o, z))
        },
        _ => Err(ElfError::BadNumber),
    }
}

/// The binding that a symbol-table field names.
pub open spec fn bind_of(s: Seq<char>) -> Option<StBind> {
    if s == "STB_LOCAL"@ {
        Some(StBind::StbLocal)
    } else if s == "STB_GLOBAL"@ {
        Some(StBind::StbGlobal)
    } else if s == "STB_WEAK"@ {
        Some(StBind::StbWeak)
    } else {
        None
    }
}

/// The symbol type that a symbol-table field names.
pub open spec fn type_of(s: Seq<char>) -> Option<StType> {
    if s == "STT_FUNC"@ {
        Some(StType::SttFunc)
    } else if s == "STT_OBJECT"@ {
        Some(StType::SttObject)
    } else if s == "STT_NOTYPE"@ {
        Some(StType::SttNotype)
    } else {
        None
    }
}

/// The relocation type that a relocation field names.
pub open spec fn rel_type_of(s: Seq<char>) -> Option<RelType> {
    if s == "R_X86_64_32"@ {
        Some(RelType::RX86_64_32)
    } else if s == "R_X86_64_PC32"@ {
        Some(RelType::RX86_64Pc32)
    } else if s == "R_X86_64_PLT_32"@ {
        Some(RelType::RX86_64Plt32)
    } else {
        None
    }
}

/// A symbol line split at its commas: `name,bind,type,section,value,size`.
pub open spec fn symtab_line(f: Seq<Seq<char>>) -> Result<(StBind, StType, u64, u64), ElfError> {
    if f.len() < 6 {
        Err(ElfError::MissingField)
    } else {
        match (bind_of(f[1]), type_of(f[2])) {
            (Some(b), Some(t)) => match (decimal_u64(encode_utf8(f[4])), decimal_u64(encode_utf8(f[5]))) {
                (Some(v), Some(z)) => Ok((b, t, v, z)),
                _ => Err(ElfError::BadNumber),
            },
            _ => Err(ElfError::UnknownName),
        }
    }
}

/// Reads a symbol line given as its fields, such as
/// `["sum", "STB_GLOBAL", "STT_FUNC", ".text", "0", "22"]`.
pub fn parse_symtab(str: Vec<&str>) -> (r: Result<st_entry, ElfError>)
    ensures
        match symtab_line(str_views(str@)) {
            Ok((b, t, v, z)) => r is Ok && r->Ok_0.st_name@ == str@[0]@ && r->Ok_0.st_bind == b
                && r->Ok_0.st_type == t && r->Ok_0.st_shndx@ == str@[3]@ && r->Ok_0.st_value == v
                && r->Ok_0.st_size == z,
            Err(e) => r == Err::<st_entry, ElfError>(e),
        },
{
    let ghost f = str_views(str@);
    if str.len() < 6 {
        return Err(ElfError::MissingField);
    }
    assert(f[1] == str@[1]@ && f[2] == str@[2]@ && f[4] == str@[4]@ && f[5] == str@[5]@);
    let st_bind = if same_chars(str[1], "STB_LOCAL") {
        StBind::StbLocal
    } else if same_chars(str[1], "STB_GLOBAL") {
        StBind::StbGlobal
    } else if same_chars(str[1], "STB_WEAK") {
        StBind::StbWeak
    } else {
        return Err(ElfError::UnknownName);
    };
    let st_type = if same_chars(str[2], "STT_FUNC") {
        StType::SttFunc
    } else if same_chars(str[2], "STT_OBJECT") {
        StType::SttObject
    } else if same_chars(str[2], "STT_NOTYPE") {
        StType::SttNotype
    } else {
        return Err(ElfError::UnknownName);
    };
    let st_value = match parse_decimal(str[4]) {
        Some(v) => v,
        None => return Err(ElfError::BadNumber),
    };
    let st_size = match parse_decimal(str[5]) {
        Some(v) => v,
        None => return Err(ElfError::BadNumber),
    };
    Ok(st_entry::new(str[0].to_owned(), st_bind, st_type, str[3].to_owned(), st_value, st_size))
}

/// A relocation line split at its commas: `row,col,type,symbol,addend`.
pub open spec fn rl_line(f: Seq<Seq<char>>) -> Result<rl_entry, ElfError> {
    if f.len() < 5 {
        Err(ElfError::MissingField)
    } else {
        match rel_type_of(f[2]) {
            None => Err(ElfError::UnknownName),
            Some(t) => match (
                decimal_u64(encode_utf8(f[0])),
                decimal_u64(encode_utf8(f[1])),
                decimal_u64(encode_utf8(f[3])),
                decimal_i64(encode_utf8(f[4])),
            ) {
                (Some(row), Some(col), Some(sym), Some(add)) => if sym <= u32::MAX {
                    Ok(rl_entry { r_row: row, r_col: col, rel_type: t, sym: sym as u32, r_addend: add })
                } else {
                    Err(ElfError::BadNumber)
                },
                _ => Err(ElfError::BadNumber),
            },
        }
    }
}

/// Reads a relocation line given as its fields, such as
/// `["17", "7", "R_X86_64_PC32", "1", "-4 "]`.
pub fn parse_rl(str: Vec<&str>) -> (r: Result<rl_entry, ElfError>)
    ensures
        r == rl_line(str_views(str@)),
{
    let ghost f = str_views(str@);
    if str.len() < 5 {
        return Err(ElfError::MissingField);
    }
    assert(f[0] == str@[0]@ && f[1] == str@[1]@ && f[2] == str@[2]@ && f[3] == str@[3]@ && f[4]
        == str@[4]@);
    let rel_type = if same_chars(str[2], "R_X86_64_32") {
        RelType::RX86_64_32
    } else if same_chars(str[2], "R_X86_64_PC32") {
        RelType::RX86_64Pc32
    } else if same_chars(str[2], "R_X86_64_PLT_32") {
        RelType::RX86_64Plt32
    } else {
        return Err(ElfError::UnknownName);
    };
    let (r_row, r_col, sym, r_addend) = match (
        parse_decimal(str[0]),
        parse_decimal(str[1]),
        parse_decimal(str[3]),
        parse_signed_decimal(str[4]),
    ) {
        (Some(a), Some(b), Some(c), Some(d)) => (a, b, c, d),
        _ => return Err(ElfError::BadNumber),
    };
    if sym > u32::MAX as u64 {
        return Err(ElfError::BadNumber);
    }
    Ok(rl_entry::new(r_row, r_col, rel_type, sym as u32, r_addend))
}

/// Whether `i` is where the first `/` of `s` stands.
pub open spec fn first_slash_at(s: Seq<char>, i: int) -> bool {
    0 <= i < s.len() && s[i] == '/' && forall|j: int| 0 <= j < i ==> s[j] != '/'
}

/// What a line of an object-file listing contributes: nothing when it is
/// empty or starts with `/`, else the text before its first `/`.
pub open spec fn listing_line(s: Seq<char>) -> Option<Seq<char>> {
    if s.len() == 0 || s[0] == '/' {
        None
    } else if exists|i: int| first_slash_at(s, i) {
        Some(s.subrange(0, choose|i: int| first_slash_at(s, i)))
    } else {
        Some(s)
    }
}

/// The text a line of an object-file listing contributes, without its comment.
pub fn strip_comment(s: &str) -> (r: Option<String>)
    ensures
        match listing_line(s@) {
            Some(t) => r is Some && r->Some_0@ == t,
            None => r is None,
        },
{
    let n = s.unicode_len();
    if n == 0 || s.get_char(0) == '/' {
        return None;
    }
    let mut i: usize = 0;
    while i < n
        invariant
            i <= n,
            n == s@.len(),
            n > 0 && s@[0] != '/',
            forall|j: int| 0 <= j < i ==> s@[j] != '/',
        decreases n - i,
    {
        if s.get_char(i) == '/' {
            proof {
                assert(first_slash_at(s@, i as int));
                let k = choose|k: int| first_slash_at(s@, k);
                if k < i {
                    assert(s@[k] != '/');
                } else if k > i {
                    assert(s@[i as int] != '/');
                }
                assert(k == i);
            }
            return Some(s.substring_char(0, i).to_owned());
        }
        i = i + 1;
    }
    assert(s@.subrange(0, n as int) =~= s@);
    assert forall|k: int| !first_slash_at(s@, k) by {
        if 0 <= k < n {
            assert(s@[k] != '/');
        }
    }
    Some(s.to_owned())
}

} // verus!
