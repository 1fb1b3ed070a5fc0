//! The register file: sixteen general-purpose registers and the instruction
//! pointer, each one 64-bit cell with 32/16/8-bit views, and four flags.
use vstd::prelude::*;
use vstd::string::StringSliceAdditionalSpecFns;
use crate::error::EmuError;

verus! {

/// Cell index of each register in `Core::regs`.
pub const RAX: usize = 0;
pub const RBX: usize = 1;
pub const RCX: usize = 2;
pub const RDX: usize = 3;
pub const RSI: usize = 4;
pub const RDI: usize = 5;
pub const RBP: usize = 6;
pub const RSP: usize = 7;
pub const RIP: usize = 16;

/// Number of cells: the sixteen general-purpose registers and `rip`.
pub const REG_NUM: usize = 17;

/// Which part of a 64-bit cell a register name reads and writes.
#[derive(Debug, Clone, Copy, PartialEq, Eq, Structural)]
pub enum Width {
    /// All 64 bits (`rax`).
    Quad,
    /// Bits 0..32 (`eax`).
    Double,
    /// Bits 0..16 (`ax`).
    Word,
    /// Bits 8..16 (`ah`).
    HighByte,
    /// Bits 0..8 (`al`).
    LowByte,
}

/// A register name resolved: the cell and the part of it.
#[derive(Debug, Clone, Copy, PartialEq, Eq, Structural)]
pub struct RegRef {
    pub index: usize,
    pub width: Width,
}

/// The four condition flags.
#[derive(Debug, Clone, Copy, PartialEq, Eq, Structural)]
pub struct CORE_FLAG {
    pub cf: bool,
    pub zf: bool,
    pub sf: bool,
    pub of: bool,
}

/// The register file.
pub struct Core {
    /// `rax, rbx, rcx, rdx, rsi, rdi, rbp, rsp, r8, ..., r15, rip`.
    pub regs: [u64; REG_NUM],
    pub flags: CORE_FLAG,
}

/// The part `w` of a cell holding `v`, zero-extended.
pub open spec fn read_view(v: u64, w: Width) -> u64 {
    match w {
        Width::Quad => v,
        Width::Double => v & 0xffffffff,
        Width::Word => v & 0xffff,
        Width::HighByte => (v >> 8) & 0xff,
        Width::LowByte => v & 0xff,
    }
}

/// A cell holding `v` after writing `x` through part `w`: the low bits of `x`
/// replace that part and every other bit is kept.
pub open spec fn write_view(v: u64, w: Width, x: u64) -> u64 {
    match w {
        Width::Quad => x,
        Width::Double => (v & 0xffffffff00000000) | (x & 0xffffffff),
        Width::Word => (v & 0xffffffffffff0000) | (x & 0xffff),
        Width::HighByte => (v & 0xffffffffffff00ff) | ((x & 0xff) << 8),
        Width::LowByte => (v & 0xffffffffffffff00) | (x & 0xff),
    }
}

/// The cell of `ax, bx, cx, dx, si, di, bp, sp` spelled by two letters.
pub open spec fn legacy_index(c0: u8, c1: u8) -> Option<usize> {
    if c0 == ('a' as u8) && c1 == ('x' as u8) {
        Some(0)
    } else if c0 == ('b' as u8) && c1 == ('x' as u8) {
        Some(1)
    } else if c0 == ('c' as u8) && c1 == ('x' as u8) {
        Some(2)
    } else if c0 == ('d' as u8) && c1 == ('x' as u8) {
        Some(3)
    } else if c0 == ('s' as u8) && c1 == ('i' as u8) {
        Some(4)
    } else if c0 == ('d' as u8) && c1 == ('i' as u8) {
        Some(5)
    } else if c0 == ('b' as u8) && c1 == ('p' as u8) {
        Some(6)
    } else if c0 == ('s' as u8) && c1 == ('p' as u8) {
        Some(7)
    } else {
        None
    }
}

/// The part named by the suffix of `r8d`, `r8w`, `r8b`.
pub open spec fn numbered_suffix(c: u8) -> Option<Width> {
    if c == ('d' as u8) {
        Some(Width::Double)
    } else if c == ('w' as u8) {
        Some(Width::Word)
    } else if c == ('b' as u8) {
        Some(Width::LowByte)
    } else {
        None
    }
}

/// The part named by the suffix of `al`/`ah` and `sil`/`sih`.
pub open spec fn byte_suffix(c: u8) -> Option<Width> {
    if c == ('l' as u8) {
        Some(Width::LowByte)
    } else if c == ('h' as u8) {
        Some(Width::HighByte)
    } else {
        None
    }
}

/// The register that a name (without `%`) denotes, in ASCII bytes:
/// `rax eax ax al ah` for `a, b, c, d`; `rsi esi si sil sih` for `si, di, bp, sp`;
/// `r8 r8d r8w r8b` up to `r15`; `rip` and `eip`.
pub open spec fn reg_of_name(s: Seq<u8>) -> Option<RegRef> {
    if s.len() == 2 {
        if legacy_index(s[0], s[1]) is Some {
            Some(RegRef { index: legacy_index(s[0], s[1])->0, width: Width::Word })
        } else if ('a' as u8) <= s[0] <= ('d' as u8) && byte_suffix(s[1]) is Some {
            Some(RegRef { index: (s[0] - ('a' as u8)) as usize, width: byte_suffix(s[1])->0 })
        } else if s[0] == ('r' as u8) && ('8' as u8) <= s[1] <= ('9' as u8) {
            Some(RegRef { index: (s[1] - ('0' as u8)) as usize, width: Width::Quad })
        } else {
            None
        }
    } else if s.len() == 3 {
        if s[0] == ('r' as u8) && legacy_index(s[1], s[2]) is Some {
            Some(RegRef { index: legacy_index(s[1], s[2])->0, width: Width::Quad })
        } else if s[0] == ('e' as u8) && legacy_index(s[1], s[2]) is Some {
            Some(RegRef { index: legacy_index(s[1], s[2])->0, width: Width::Double })
        } else if legacy_index(s[0], s[1]) is Some && legacy_index(s[0], s[1])->0 >= 4
            && byte_suffix(s[2]) is Some {
            Some(RegRef { index: legacy_index(s[0], s[1])->0, width: byte_suffix(s[2])->0 })
        } else if s[0] == ('r' as u8) && ('8' as u8) <= s[1] <= ('9' as u8) && numbered_suffix(s[2]) is Some {
            Some(RegRef { index: (s[1] - ('0' as u8)) as usize, width: numbered_suffix(s[2])->0 })
        } else if s[0] == ('r' as u8) && s[1] == ('1' as u8) && ('0' as u8) <= s[2] <= ('5' as u8) {
            Some(RegRef { index: (s[2] - ('0' as u8) + 10) as usize, width: Width::Quad })
        } else if s[0] == ('r' as u8) && s[1] == ('i' as u8) && s[2] == ('p' as u8) {
            Some(RegRef { index: RIP, width: Width::Quad })
        } else if s[0] == ('e' as u8) && s[1] == ('i' as u8) && s[2] == ('p' as u8) {
            Some(RegRef { index: RIP, width: Width::Double })
        } else {
            None
        }
    } else if s.len() == 4 {
        if s[0] == ('r' as u8) && s[1] == ('1' as u8) && ('0' as u8) <= s[2] <= ('5' as u8) && numbered_suffix(s[3]) is Some {
            Some(RegRef { index: (s[2] - ('0' as u8) + 10) as usize, width: numbered_suffix(s[3])->0 })
        } else {
            None
        }
    } else {
        None
    }
}

/// The register that an operand such as `%eax` denotes.
pub open spec fn reg_of_operand(s: Seq<u8>) -> Option<RegRef> {
    if s.len() > 0 && s[0] == ('%' as u8) {
        reg_of_name(s.drop_first())
    } else {
        None
    }
}

/// The value that reading register `r` gives.
pub open spec fn read_reg(c: Core, r: RegRef) -> u64 {
    read_view(c.regs@[r.index as int], r.width)
}

/// The cells after writing `x` to register `r`.
pub open spec fn write_reg(regs: Seq<u64>, r: RegRef, x: u64) -> Seq<u64> {
    regs.update(r.index as int, write_view(regs[r.index as int], r.width, x))
}

/// The flags all false.
pub open spec fn flags_clear() -> CORE_FLAG {
    CORE_FLAG { cf: false, zf: false, sf: false, of: false }
}

fn legacy_index_exec(c0: u8, c1: u8) -> (r: Option<usize>)
    ensures
        r == legacy_index(c0, c1),
{
    if c0 == ('a' as u8) && c1 == ('x' as u8) {
        Some(0)
    } else if c0 == ('b' as u8) && c1 == ('x' as u8) {
        Some(1)
    } else if c0 == ('c' as u8) && c1 == ('x' as u8) {
        Some(2)
    } else if c0 == ('d' as u8) && c1 == ('x' as u8) {
        Some(3)
    } else if c0 == ('s' as u8) && c1 == ('i' as u8) {
        Some(4)
    } else if c0 == ('d' as u8) && c1 == ('i' as u8) {
        Some(5)
    } else if c0 == ('b' as u8) && c1 == ('p' as u8) {
        Some(6)
    } else if c0 == ('s' as u8) && c1 == ('p' as u8) {
        Some(7)
    } else {
        None
    }
}

fn numbered_suffix_exec(c: u8) -> (r: Option<Width>)
    ensures
        r == numbered_suffix(c),
{
    if c == ('d' as u8) {
        Some(Width::Double)
    } else if c == ('w' as u8) {
        Some(Width::Word)
    } else if c == ('b' as u8) {
        Some(Width::LowByte)
    } else {
        None
    }
}

fn byte_suffix_exec(c: u8) -> (r: Option<Width>)
    ensures
        r == byte_suffix(c),
{
    if c == ('l' as u8) {
        Some(Width::LowByte)
    } else if c == ('h' as u8) {
        Some(Width::HighByte)
    } else {
        None
    }
}

/// Resolves a register name (without `%`) given as ASCII bytes.
pub fn parse_reg(s: &[u8]) -> (r: Option<RegRef>)
    ensures
        r == reg_of_name(s@),
        r matches Some(rr) ==> rr.index < REG_NUM,
{
    let n = s.len();
    if n == 2 {
        if let Some(i) = legacy_index_exec(s[0], s[1]) {
            Some(RegRef { index: i, width: Width::Word })
        } else if ('a' as u8) <= s[0] && s[0] <= ('d' as u8) && byte_suffix_exec(s[1]).is_some() {
            Some(RegRef { index: (s[0] - ('a' as u8)) as usize, width: byte_suffix_exec(s[1]).unwrap() })
        } else if s[0] == ('r' as u8) && ('8' as u8) <= s[1] && s[1] <= ('9' as u8) {
            Some(RegRef { index: (s[1] - ('0' as u8)) as usize, width: Width::Quad })
        } else {
            None
        }
    } else if n == 3 {
        if s[0] == ('r' as u8) && legacy_index_exec(s[1], s[2]).is_some() {
            Some(RegRef { index: legacy_index_exec(s[1], s[2]).unwrap(), width: Width::Quad })
        } else if s[0] == ('e' as u8) && legacy_index_exec(s[1], s[2]).is_some() {
            Some(RegRef { index: legacy_index_exec(s[1], s[2]).unwrap(), width: Width::Double })
        } else if legacy_index_exec(s[0], s[1]).is_some() && legacy_index_exec(s[0], s[1]).unwrap()
            >= 4 && byte_suffix_exec(s[2]).is_some() {
            Some(
                RegRef {
                    index: legacy_index_exec(s[0], s[1]).unwrap(),
                    width: byte_suffix_exec(s[2]).unwrap(),
                },
            )
        } else if s[0] == ('r' as u8) && ('8' as u8) <= s[1] && s[1] <= ('9' as u8) && numbered_suffix_exec(
            s[2],
        ).is_some() {
            Some(
                RegRef {
                    index: (s[1] - ('0' as u8)) as usize,
                    width: numbered_suffix_exec(s[2]).unwrap(),
                },
            )
        } else if s[0] == ('r' as u8) && s[1] == ('1' as u8) && ('0' as u8) <= s[2] && s[2] <= ('5' as u8) {
            Some(RegRef { index: (s[2] - ('0' as u8) + 10) as usize, width: Width::Quad })
        } else if s[0] == ('r' as u8) && s[1] == ('i' as u8) && s[2] == ('p' as u8) {
            Some(RegRef { index: RIP, width: Width::Quad })
        } else if s[0] == ('e' as u8) && s[1] == ('i' as u8) && s[2] == ('p' as u8) {
            Some(RegRef { index: RIP, width: Width::Double })
        } else {
            None
        }
    } else if n == 4 {
        if s[0] == ('r' as u8) && s[1] == ('1' as u8) && ('0' as u8) <= s[2] && s[2] <= ('5' as u8) && numbered_suffix_exec(
            s[3],
        ).is_some() {
            Some(
                RegRef {
                    index: (s[2] - 38) as usize,
                    width: numbered_suffix_exec(s[3]).unwrap(),
                },
            )
        } else {
            None
        }
    } else {
        None
    }
}

/// Resolves a register operand such as `%eax` given as ASCII bytes.
pub fn parse_reg_operand(s: &[u8]) -> (r: Option<RegRef>)
    ensures
        r == reg_of_operand(s@),
        r matches Some(rr) ==> rr.index < REG_NUM,
{
    if s.len() > 0 && s[0] == ('%' as u8) {
        let rest = vstd::slice::slice_subrange(s, 1, s.len());
        assert(rest@ =~= s@.drop_first());
        parse_reg(rest)
    } else {
        None
    }
}

impl Core {
    /// All registers zero and all flags clear.
    pub fn new() -> (r: Core)
        ensures
            r.regs@ == Seq::new(REG_NUM as nat, |i: int| 0u64),
            r.flags == flags_clear(),
    {
        let r = Core {
            regs: [0u64; REG_NUM],
            flags: CORE_FLAG { cf: false, zf: false, sf: false, of: false },
        };
        assert(r.regs@ =~= Seq::new(REG_NUM as nat, |i: int| 0u64));
        r
    }

    /// The value of register `r`.
    pub fn get_reg(&self, r: RegRef) -> (v: u64)
        requires
            r.index < REG_NUM,
        ensures
            v == read_reg(*self, r),
    {
        let v = self.regs[r.index];
        match r.width {
            Width::Quad => v,
            Width::Double => v & 0xffffffff,
            Width::Word => v & 0xffff,
            Width::HighByte => (v >> 8u64) & 0xff,
            Width::LowByte => v & 0xff,
        }
    }

    /// Writes `x` to register `r`, keeping the bits of the cell outside that part.
    pub fn set_reg(&mut self, r: RegRef, x: u64)
        requires
            r.index < REG_NUM,
        ensures
            final(self).regs@ == write_reg(old(self).regs@, r, x),
            final(self).flags == old(self).flags,
    {
        let v = self.regs[r.index];
        let nv = match r.width {
            Width::Quad => x,
            Width::Double => (v & 0xffffffff00000000) | (x & 0xffffffff),
            Width::Word => (v & 0xffffffffffff0000) | (x & 0xffff),
            Width::HighByte => (v & 0xffffffffffff00ff) | ((x & 0xff) << 8u64),
            Width::LowByte => (v & 0xffffffffffffff00) | (x & 0xff),
        };
        self.regs[r.index] = nv;
        assert(self.regs@ =~= write_reg(old(self).regs@, r, x));
    }

    /// Writes `value` to the register named `od` (without `%`).
    pub fn update_reg(&mut self, od: &str, value: u64) -> (r: Result<(), EmuError>)
        ensures
            match reg_of_name(od.spec_bytes()) {
                Some(rr) => r is Ok && final(self).regs@ == write_reg(old(self).regs@, rr, value),
                None => r == Err::<(), EmuError>(EmuError::UnknownRegister) && final(self).regs
                    == old(self).regs,
            },
            final(self).flags == old(self).flags,
    {
        match parse_reg(od.as_bytes()) {
            Some(rr) => {
                self.set_reg(rr, value);
                Ok(())
            },
            None => Err(EmuError::UnknownRegister),
        }
    }

    /// The value of the register operand `name` (such as `%eax`), or `None`
    /// for a name that is not a register.
    pub fn get_reg_value(&self, name: &str) -> (r: Option<u64>)
        ensures
            match reg_of_operand(name.spec_bytes()) {
                Some(rr) => r == Some(read_reg(*self, rr)),
                None => r is None,
            },
    {
        match parse_reg_operand(name.as_bytes()) {
            Some(rr) => Some(self.get_reg(rr)),
            None => None,
        }
    }

    /// Clears the four flags.
    pub fn flags_reset(&mut self)
        ensures
            final(self).flags == flags_clear(),
            final(self).regs == old(self).regs,
    {
        self.flags.cf = false;
        self.flags.zf = false;
        self.flags.of = false;
        self.flags.sf = false;
    }
}

} // verus!
