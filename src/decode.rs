//! Decoding instruction text: the mnemonic, and operands resolved against
//! the register file.
use vstd::prelude::*;
use vstd::string::StringSliceAdditionalSpecFns;
use vstd::wrapping::u64_specs;
use crate::error::EmuError;
use crate::number::{number_u64, parse_number};
use crate::registers::{Core, REG_NUM, RegRef, parse_reg_operand, read_reg, reg_of_operand};

verus! {

/// The instructions the engine knows.
#[derive(Debug, Clone, Copy, PartialEq, Eq, Structural)]
pub enum INST_TYPE {
    MOV,
    PUSH,
    POP,
    LEAVEQ,
    CALL,
    RET,
    ADD,
    SUB,
    CMPQ,
    JNE,
    JMP,
}

/// A decoded operand. Register and memory operands are resolved when the
/// instruction is decoded: a register operand carries its value and the
/// register to write back; a memory operand carries its (virtual) address.
#[derive(Debug, Clone, Copy, PartialEq, Eq, Structural)]
pub enum Operand {
    Empty,
    Imm(u64),
    Reg(u64, RegRef),
    /// An address written as a plain number.
    MemImm(u64),
    /// An address computed from `disp(base,index,scale)`.
    MemReg(u64),
}

/// A decoded instruction.
#[derive(Debug, Clone, Copy, PartialEq, Eq, Structural)]
pub struct Inst {
    pub inst_type: INST_TYPE,
    pub src: Operand,
    pub dst: Operand,
}

/// Whether every register an operand names is a cell of the register file.
pub open spec fn operand_ok(op: Operand) -> bool {
    op matches Operand::Reg(_, rr) ==> rr.index < REG_NUM
}

/// The instruction that a mnemonic names.
pub open spec fn inst_type_of(s: Seq<u8>) -> Option<INST_TYPE> {
    if s == seq!['m' as u8, 'o' as u8, 'v' as u8] {
        Some(INST_TYPE::MOV)
    } else if s == seq!['p' as u8, 'u' as u8, 's' as u8, 'h' as u8] {
        Some(INST_TYPE::PUSH)
    } else if s == seq!['p' as u8, 'o' as u8, 'p' as u8] {
        Some(INST_TYPE::POP)
    } else if s == seq!['l' as u8, 'e' as u8, 'a' as u8, 'v' as u8, 'e' as u8, 'q' as u8] {
        Some(INST_TYPE::LEAVEQ)
    } else if s == seq!['c' as u8, 'a' as u8, 'l' as u8, 'l' as u8, 'q' as u8] {
        Some(INST_TYPE::CALL)
    } else if s == seq!['r' as u8, 'e' as u8, 't' as u8, 'q' as u8] {
        Some(INST_TYPE::RET)
    } else if s == seq!['a' as u8, 'd' as u8, 'd' as u8] {
        Some(INST_TYPE::ADD)
    } else if s == seq!['s' as u8, 'u' as u8, 'b' as u8] {
        Some(INST_TYPE::SUB)
    } else if s == seq!['c' as u8, 'm' as u8, 'p' as u8, 'q' as u8] {
        Some(INST_TYPE::CMPQ)
    } else if s == seq!['j' as u8, 'n' as u8, 'e' as u8] {
        Some(INST_TYPE::JNE)
    } else if s == seq!['j' as u8, 'm' as u8, 'p' as u8] {
        Some(INST_TYPE::JMP)
    } else {
        None
    }
}

fn same_bytes(a: &[u8], b: &[u8]) -> (r: bool)
    ensures
        r == (a@ == b@),
{
    if a.len() != b.len() {
        return false;
    }
    let mut i: usize = 0;
    while i < a.len()
        invariant
            i <= a@.len(),
            a@.len() == b@.len(),
            forall|j: int| 0 <= j < i ==> a@[j] == b@[j],
        decreases a@.len() - i,
    {
        if a[i] != b[i] {
            return false;
        }
        i = i + 1;
    }
    assert(a@ =~= b@);
    true
}

/// The instruction that a mnemonic, given as ASCII bytes, names.
pub fn parse_inst_bytes(s: &[u8]) -> (r: Option<INST_TYPE>)
    ensures
        r == inst_type_of(s@),
{
    let words: [(Vec<u8>, INST_TYPE); 11] = [
        (vec!['m' as u8, 'o' as u8, 'v' as u8], INST_TYPE::MOV),
        (vec!['p' as u8, 'u' as u8, 's' as u8, 'h' as u8], INST_TYPE::PUSH),
        (vec!['p' as u8, 'o' as u8, 'p' as u8], INST_TYPE::POP),
        (vec!['l' as u8, 'e' as u8, 'a' as u8, 'v' as u8, 'e' as u8, 'q' as u8], INST_TYPE::LEAVEQ),
        (vec!['c' as u8, 'a' as u8, 'l' as u8, 'l' as u8, 'q' as u8], INST_TYPE::CALL),
        (vec!['r' as u8, 'e' as u8, 't' as u8, 'q' as u8], INST_TYPE::RET),
        (vec!['a' as u8, 'd' as u8, 'd' as u8], INST_TYPE::ADD),
        (vec!['s' as u8, 'u' as u8, 'b' as u8], INST_TYPE::SUB),
        (vec!['c' as u8, 'm' as u8, 'p' as u8, 'q' as u8], INST_TYPE::CMPQ),
        (vec!['j' as u8, 'n' as u8, 'e' as u8], INST_TYPE::JNE),
        (vec!['j' as u8, 'm' as u8, 'p' as u8], INST_TYPE::JMP),
    ];
    let mut i: usize = 0;
    while i < 11
        invariant
            i <= 11,
            words@.len() == 11,
            words@[0].0@ == seq!['m' as u8, 'o' as u8, 'v' as u8] && words@[0].1 == INST_TYPE::MOV,
            words@[1].0@ == seq!['p' as u8, 'u' as u8, 's' as u8, 'h' as u8] && words@[1].1 == INST_TYPE::PUSH,
            words@[2].0@ == seq!['p' as u8, 'o' as u8, 'p' as u8] && words@[2].1 == INST_TYPE::POP,
            words@[3].0@ == seq!['l' as u8, 'e' as u8, 'a' as u8, 'v' as u8, 'e' as u8, 'q' as u8]
                && words@[3].1 == INST_TYPE::LEAVEQ,
            words@[4].0@ == seq!['c' as u8, 'a' as u8, 'l' as u8, 'l' as u8, 'q' as u8] && words@[4].1
                == INST_TYPE::CALL,
            words@[5].0@ == seq!['r' as u8, 'e' as u8, 't' as u8, 'q' as u8] && words@[5].1 == INST_TYPE::RET,
            words@[6].0@ == seq!['a' as u8, 'd' as u8, 'd' as u8] && words@[6].1 == INST_TYPE::ADD,
            words@[7].0@ == seq!['s' as u8, 'u' as u8, 'b' as u8] && words@[7].1 == INST_TYPE::SUB,
            words@[8].0@ == seq!['c' as u8, 'm' as u8, 'p' as u8, 'q' as u8] && words@[8].1 == INST_TYPE::CMPQ,
            words@[9].0@ == seq!['j' as u8, 'n' as u8, 'e' as u8] && words@[9].1 == INST_TYPE::JNE,
            words@[10].0@ == seq!['j' as u8, 'm' as u8, 'p' as u8] && words@[10].1 == INST_TYPE::JMP,
            forall|j: int| 0 <= j < i ==> s@ != (#[trigger] words@[j]).0@,
        decreases 11 - i,
    {
        if same_bytes(s, words[i].0.as_slice()) {
            return Some(words[i].1);
        }
        i = i + 1;
    }
    None
}

/// The instruction that a mnemonic names (`mov`, `push`, `pop`, `leaveq`,
/// `callq`, `retq`, `add`, `sub`, `cmpq`, `jne`, `jmp`).
pub fn parse_inst_type(str: &str) -> (r: Option<INST_TYPE>)
    ensures
        r == inst_type_of(str.spec_bytes()),
{
    parse_inst_bytes(str.as_bytes())
}

/// Whether `c` separates the fields of an instruction (outside parentheses).
pub open spec fn is_field_sep(c: u8) -> bool {
    c == (' ' as u8) || c == (',' as u8)
}

/// The parenthesis depth after `c`.
pub open spec fn depth_after(d: nat, c: u8) -> nat {
    if c == ('(' as u8) {
        d + 1
    } else if c == (')' as u8) && d > 0 {
        (d - 1) as nat
    } else {
        d
    }
}

/// Splitting instruction text: the fields completed so far, the field being
/// read and the parenthesis depth. Spaces and commas separate fields outside
/// parentheses and belong to the field inside them.
pub open spec fn scan_fields(s: Seq<u8>) -> (Seq<Seq<u8>>, Seq<u8>, nat)
    decreases s.len(),
{
    if s.len() == 0 {
        (seq![], seq![], 0)
    } else {
        let (f, cur, d) = scan_fields(s.drop_last());
        let c = s.last();
        if d == 0 && is_field_sep(c) {
            if cur.len() > 0 {
                (f.push(cur), seq![], 0)
            } else {
                (f, cur, 0)
            }
        } else {
            (f, cur.push(c), depth_after(d, c))
        }
    }
}

/// The fields of instruction text: the mnemonic, then the operands.
pub open spec fn fields_of(s: Seq<u8>) -> Seq<Seq<u8>> {
    let (f, cur, d) = scan_fields(s);
    if cur.len() > 0 {
        f.push(cur)
    } else {
        f
    }
}

pub open spec fn views_of(v: Seq<Vec<u8>>) -> Seq<Seq<u8>> {
    v.map_values(|x: Vec<u8>| x@)
}

/// Splits instruction text into its fields.
pub fn split_fields(s: &[u8]) -> (r: Vec<Vec<u8>>)
    ensures
        views_of(r@) == fields_of(s@),
{
    let mut fields: Vec<Vec<u8>> = Vec::new();
    let mut cur: Vec<u8> = Vec::new();
    let mut depth: u64 = 0;
    let mut i: usize = 0;
    while i < s.len()
        invariant
            i <= s@.len(),
            depth <= i,
            scan_fields(s@.subrange(0, i as int)) == (views_of(fields@), cur@, depth as nat),
        decreases s@.len() - i,
    {
        let c = s[i];
        assert(s@.subrange(0, i + 1).drop_last() =~= s@.subrange(0, i as int));
        if depth == 0 && (c == (' ' as u8) || c == (',' as u8)) {
            if cur.len() > 0 {
                let done = cur;
                cur = Vec::new();
                proof {
                    assert(views_of(fields@.push(done)) =~= views_of(fields@).push(done@));
                }
                fields.push(done);
            }
        } else {
            cur.push(c);
            if c == ('(' as u8) {
                depth = depth + 1;
            } else if c == (')' as u8) && depth > 0 {
                depth = depth - 1;
            }
        }
        i = i + 1;
    }
    assert(s@.subrange(0, s@.len() as int) =~= s@);
    if cur.len() > 0 {
        proof {
            assert(views_of(fields@.push(cur)) =~= views_of(fields@).push(cur@));
        }
        fields.push(cur);
    }
    fields
}

/// What a character does to the text of a memory operand being read.
#[derive(Debug, Clone, Copy, PartialEq, Eq, Structural)]
pub enum MmAction {
    /// Nothing is kept (a space, a parenthesis, a comma).
    Skip,
    /// A leading minus: the displacement is subtracted.
    Negate,
    /// Part of the displacement.
    Disp,
    /// Part of the base register.
    Base,
    /// Part of the index register.
    Index,
    /// Part of the scale.
    Scale,
}

pub open spec fn is_digit(c: u8) -> bool {
    ('0' as u8) <= c <= ('9' as u8)
}

pub open spec fn is_lower(c: u8) -> bool {
    ('a' as u8) <= c <= ('z' as u8)
}

/// The state of the memory-operand reader after the text read so far.
pub const MM_CLOSED: u8 = 8;

/// The transition table of the memory-operand reader for `disp(base,index,scale)`:
/// from `state` on character `c`, the next state and what `c` contributes;
/// `None` when `c` cannot stand there. Spaces are skipped everywhere.
///  1 start;  2 after `(`;  3 after `-`;  4 in a decimal displacement;
///  5 after the `%` of the base;  6 after a comma;  7 in the base;
///  8 after `)` (the rest is ignored);  9 in the scale;
/// 10 in a hexadecimal displacement; 11 after the `%` of the index; 12 in the index.
pub open spec fn mm_transition(state: u8, c: u8) -> Option<(u8, MmAction)> {
    if c == (' ' as u8) && state != MM_CLOSED {
        Some((state, MmAction::Skip))
    } else if state == 1 {
        if c == ('(' as u8) {
            Some((2, MmAction::Skip))
        } else if c == ('-' as u8) {
            Some((3, MmAction::Negate))
        } else if is_digit(c) {
            Some((4, MmAction::Disp))
        } else {
            None
        }
    } else if state == 2 {
        if c == ('%' as u8) {
            Some((5, MmAction::Base))
        } else if c == (',' as u8) {
            Some((6, MmAction::Skip))
        } else {
            None
        }
    } else if state == 3 {
        if is_digit(c) {
            Some((4, MmAction::Disp))
        } else {
            None
        }
    } else if state == 4 {
        if is_digit(c) {
            Some((4, MmAction::Disp))
        } else if c == ('x' as u8) {
            Some((10, MmAction::Disp))
        } else if c == ('(' as u8) {
            Some((2, MmAction::Skip))
        } else {
            None
        }
    } else if state == 5 {
        if is_lower(c) {
            Some((7, MmAction::Base))
        } else {
            None
        }
    } else if state == 6 {
        if is_digit(c) {
            Some((9, MmAction::Scale))
        } else if c == ('%' as u8) {
            Some((11, MmAction::Index))
        } else {
            None
        }
    } else if state == 7 {
        if is_lower(c) || is_digit(c) {
            Some((7, MmAction::Base))
        } else if c == (',' as u8) {
            Some((6, MmAction::Skip))
        } else if c == (')' as u8) {
            Some((MM_CLOSED, MmAction::Skip))
        } else {
            None
        }
    } else if state == 9 {
        if is_digit(c) {
            Some((9, MmAction::Scale))
        } else if c == (')' as u8) {
            Some((MM_CLOSED, MmAction::Skip))
        } else {
            None
        }
    } else if state == 10 {
        if is_digit(c) || is_lower(c) {
            Some((10, MmAction::Disp))
        } else if c == ('(' as u8) {
            Some((2, MmAction::Skip))
        } else {
            None
        }
    } else if state == 11 {
        if is_lower(c) {
            Some((12, MmAction::Index))
        } else {
            None
        }
    } else if state == 12 {
        if is_lower(c) || is_digit(c) {
            Some((12, MmAction::Index))
        } else if c == (')' as u8) {
            Some((MM_CLOSED, MmAction::Skip))
        } else if c == (',' as u8) {
            Some((6, MmAction::Skip))
        } else {
            None
        }
    } else {
        None
    }
}

/// The parts of a memory operand read so far.
pub struct MmScan {
    pub state: u8,
    pub neg: bool,
    pub disp: Seq<u8>,
    pub base: Seq<u8>,
    pub index: Seq<u8>,
    pub scale: Seq<u8>,
}

pub open spec fn mm_apply(t: MmScan, next: u8, a: MmAction, c: u8) -> MmScan {
    match a {
        MmAction::Skip => MmScan { state: next, ..t },
        MmAction::Negate => MmScan { state: next, neg: true, ..t },
        MmAction::Disp => MmScan { state: next, disp: t.disp.push(c), ..t },
        MmAction::Base => MmScan { state: next, base: t.base.push(c), ..t },
        MmAction::Index => MmScan { state: next, index: t.index.push(c), ..t },
        MmAction::Scale => MmScan { state: next, scale: t.scale.push(c), ..t },
    }
}

/// Reading the text `s` of a memory operand with the transition table;
/// `None` when a character cannot stand where it is.
pub open spec fn mm_scan(s: Seq<u8>) -> Option<MmScan>
    decreases s.len(),
{
    if s.len() == 0 {
        Some(
            MmScan {
                state: 1,
                neg: false,
                disp: seq![],
                base: seq![],
                index: seq![],
                scale: seq![],
            },
        )
    } else {
        match mm_scan(s.drop_last()) {
            None => None,
            Some(t) => if t.state == MM_CLOSED {
                Some(t)
            } else {
                match mm_transition(t.state, s.last()) {
                    None => None,
                    Some((n, a)) => Some(mm_apply(t, n, a, s.last())),
                }
            },
        }
    }
}

/// The value of a register token (`%eax`) of a memory operand; an absent
/// register counts as zero.
pub open spec fn reg_token_value(c: Core, tok: Seq<u8>) -> Option<u64> {
    if tok.len() == 0 {
        Some(0)
    } else {
        match reg_of_operand(tok) {
            Some(r) => Some(read_reg(c, r)),
            None => None,
        }
    }
}

/// The scale of a memory operand; an absent scale is one.
pub open spec fn scale_value(s: Seq<u8>) -> Option<u64> {
    if s.len() == 0 {
        Some(1)
    } else {
        number_u64(s)
    }
}

/// `base + index * scale`, then plus or minus the displacement, all modulo 2^64.
pub open spec fn effective_address(disp: u64, neg: bool, base: u64, index: u64, scale: u64) -> u64 {
    let sum = u64_specs::wrapping_add(base, u64_specs::wrapping_mul(index, scale));
    if neg {
        u64_specs::wrapping_sub(sum, disp)
    } else {
        u64_specs::wrapping_add(sum, disp)
    }
}

/// The address that the memory operand `s` denotes with the registers of `c`.
pub open spec fn mm_address(c: Core, s: Seq<u8>) -> Result<u64, EmuError> {
    match mm_scan(s) {
        None => Err(EmuError::MalformedOperand),
        Some(t) => if t.state != MM_CLOSED {
            Err(EmuError::MalformedOperand)
        } else {
            match (number_u64(t.disp), scale_value(t.scale)) {
                (Some(d), Some(k)) => match (reg_token_value(c, t.base), reg_token_value(c, t.index)) {
                    (Some(b), Some(x)) => Ok(effective_address(d, t.neg, b, x, k)),
                    _ => Err(EmuError::UnknownRegister),
                },
                _ => Err(EmuError::MalformedOperand),
            }
        },
    }
}

fn is_digit_exec(c: u8) -> (r: bool)
    ensures
        r == is_digit(c),
{
    ('0' as u8) <= c && c <= ('9' as u8)
}

fn is_lower_exec(c: u8) -> (r: bool)
    ensures
        r == is_lower(c),
{
    ('a' as u8) <= c && c <= ('z' as u8)
}

fn mm_transition_exec(state: u8, c: u8) -> (r: Option<(u8, MmAction)>)
    ensures
        r == mm_transition(state, c),
{
    if c == (' ' as u8) && state != MM_CLOSED {
        Some((state, MmAction::Skip))
    } else if state == 1 {
        if c == ('(' as u8) {
            Some((2, MmAction::Skip))
        } else if c == ('-' as u8) {
            Some((3, MmAction::Negate))
        } else if is_digit_exec(c) {
            Some((4, MmAction::Disp))
        } else {
            None
        }
    } else if state == 2 {
        if c == ('%' as u8) {
            Some((5, MmAction::Base))
        } else if c == (',' as u8) {
            Some((6, MmAction::Skip))
        } else {
            None
        }
    } else if state == 3 {
        if is_digit_exec(c) {
            Some((4, MmAction::Disp))
        } else {
            None
        }
    } else if state == 4 {
        if is_digit_exec(c) {
            Some((4, MmAction::Disp))
        } else if c == ('x' as u8) {
            Some((10, MmAction::Disp))
        } else if c == ('(' as u8) {
            Some((2, MmAction::Skip))
        } else {
            None
        }
    } else if state == 5 {
        if is_lower_exec(c) {
            Some((7, MmAction::Base))
        } else {
            None
        }
    } else if state == 6 {
        if is_digit_exec(c) {
            Some((9, MmAction::Scale))
        } else if c == ('%' as u8) {
            Some((11, MmAction::Index))
        } else {
            None
        }
    } else if state == 7 {
        if is_lower_exec(c) || is_digit_exec(c) {
            Some((7, MmAction::Base))
        } else if c == (',' as u8) {
            Some((6, MmAction::Skip))
        } else if c == (')' as u8) {
            Some((MM_CLOSED, MmAction::Skip))
        } else {
            None
        }
    } else if state == 9 {
        if is_digit_exec(c) {
            Some((9, MmAction::Scale))
        } else if c == (')' as u8) {
            Some((MM_CLOSED, MmAction::Skip))
        } else {
            None
        }
    } else if state == 10 {
        if is_digit_exec(c) || is_lower_exec(c) {
            Some((10, MmAction::Disp))
        } else if c == ('(' as u8) {
            Some((2, MmAction::Skip))
        } else {
            None
        }
    } else if state == 11 {
        if is_lower_exec(c) {
            Some((12, MmAction::Index))
        } else {
            None
        }
    } else if state == 12 {
        if is_lower_exec(c) || is_digit_exec(c) {
            Some((12, MmAction::Index))
        } else if c == (')' as u8) {
            Some((MM_CLOSED, MmAction::Skip))
        } else if c == (',' as u8) {
            Some((6, MmAction::Skip))
        } else {
            None
        }
    } else {
        None
    }
}

fn reg_token_exec(core: &Core, tok: &[u8]) -> (r: Option<u64>)
    ensures
        r == reg_token_value(*core, tok@),
{
    if tok.len() == 0 {
        Some(0)
    } else {
        match parse_reg_operand(tok) {
            Some(rr) => Some(core.get_reg(rr)),
            None => None,
        }
    }
}

/// `n2` plus or minus the magnitude `n1`, modulo 2^64.
fn icalu(n1: u64, n2: u64, is_neg: bool) -> (r: u64)
    ensures
        r == (if is_neg {
            u64_specs::wrapping_sub(n2, n1)
        } else {
            u64_specs::wrapping_add(n2, n1)
        }),
{
    if !is_neg {
        n2.wrapping_add(n1)
    } else {
        n2.wrapping_sub(n1)
    }
}

/// The address that a memory operand such as `-0x18(%rbp)` or
/// `8(%rax,%rcx,4)` denotes with the registers of `core`.
pub fn parse_mm_ist(str: &[u8], core: &Core) -> (r: Result<u64, EmuError>)
    ensures
        r == mm_address(*core, str@),
{
    let mut state: u8 = 1;
    let mut neg = false;
    let mut disp: Vec<u8> = Vec::new();
    let mut base: Vec<u8> = Vec::new();
    let mut index: Vec<u8> = Vec::new();
    let mut scale: Vec<u8> = Vec::new();
    let mut i: usize = 0;
    while i < str.len()
        invariant
            i <= str@.len(),
            mm_scan(str@.subrange(0, i as int)) == Some(
                MmScan { state, neg, disp: disp@, base: base@, index: index@, scale: scale@ },
            ),
        decreases str@.len() - i,
    {
        let c = str[i];
        assert(str@.subrange(0, i + 1).drop_last() =~= str@.subrange(0, i as int));
        if state == MM_CLOSED {
            i = i + 1;
            continue;
        }
        match mm_transition_exec(state, c) {
            None => {
                proof {
                    lemma_mm_scan_stuck(str@, i as int + 1);
                }
                return Err(EmuError::MalformedOperand);
            },
            Some((next, action)) => {
                match action {
                    MmAction::Skip => {},
                    MmAction::Negate => {
                        neg = true;
                    },
                    MmAction::Disp => {
                        disp.push(c);
                    },
                    MmAction::Base => {
                        base.push(c);
                    },
                    MmAction::Index => {
                        index.push(c);
                    },
                    MmAction::Scale => {
                        scale.push(c);
                    },
                }
                state = next;
            },
        }
        i = i + 1;
    }
    assert(str@.subrange(0, str@.len() as int) =~= str@);
    if state != MM_CLOSED {
        return Err(EmuError::MalformedOperand);
    }
    let d = match parse_number(disp.as_slice()) {
        Some(d) => d,
        None => return Err(EmuError::MalformedOperand),
    };
    let k = if scale.len() == 0 {
        1
    } else {
        match parse_number(scale.as_slice()) {
            Some(k) => k,
            None => return Err(EmuError::MalformedOperand),
        }
    };
    let b = match reg_token_exec(core, base.as_slice()) {
        Some(b) => b,
        None => return Err(EmuError::UnknownRegister),
    };
    let x = match reg_token_exec(core, index.as_slice()) {
        Some(x) => x,
        None => return Err(EmuError::UnknownRegister),
    };
    Ok(icalu(d, b.wrapping_add(x.wrapping_mul(k)), neg))
}

/// Once the reader is stuck it stays stuck.
pub proof fn lemma_mm_scan_stuck(s: Seq<u8>, k: int)
    requires
        0 <= k <= s.len(),
        mm_scan(s.subrange(0, k)) is None,
    ensures
        mm_scan(s) is None,
    decreases s.len() - k,
{
    if k < s.len() {
        assert(s.subrange(0, k + 1).drop_last() =~= s.subrange(0, k));
        lemma_mm_scan_stuck(s, k + 1);
    } else {
        assert(s.subrange(0, k) =~= s);
    }
}

/// Whether `s` holds an opening parenthesis.
pub open spec fn has_paren(s: Seq<u8>) -> bool {
    exists|i: int| 0 <= i < s.len() && s[i] == ('(' as u8)
}

/// The operand that the text `s` denotes with the registers of `c`: empty;
/// a memory operand when it holds `(`; an immediate after `$`; a register after
/// `%`; otherwise a number, taken as a memory address.
pub open spec fn operand_of(c: Core, s: Seq<u8>) -> Result<Operand, EmuError> {
    if s.len() == 0 {
        Ok(Operand::Empty)
    } else if has_paren(s) {
        match mm_address(c, s) {
            Ok(a) => Ok(Operand::MemReg(a)),
            Err(e) => Err(e),
        }
    } else if s[0] == ('$' as u8) {
        match number_u64(s.drop_first()) {
            Some(v) => Ok(Operand::Imm(v)),
            None => Err(EmuError::MalformedOperand),
        }
    } else if s[0] == ('%' as u8) {
        match reg_of_operand(s) {
            Some(r) => Ok(Operand::Reg(read_reg(c, r), r)),
            None => Err(EmuError::UnknownRegister),
        }
    } else {
        match number_u64(s) {
            Some(v) => Ok(Operand::MemImm(v)),
            None => Err(EmuError::MalformedOperand),
        }
    }
}

/// The instruction that the text `s` denotes with the registers of `c`:
/// a mnemonic and up to two operands, source first.
pub open spec fn decode(c: Core, s: Seq<u8>) -> Result<Inst, EmuError> {
    let f = fields_of(s);
    if f.len() < 1 || f.len() > 3 {
        Err(EmuError::MalformedOperand)
    } else {
        match inst_type_of(f[0]) {
            None => Err(EmuError::NotImplemented),
            Some(t) => {
                let src = if f.len() >= 2 {
                    f[1]
                } else {
                    seq![]
                };
                let dst = if f.len() == 3 {
                    f[2]
                } else {
                    seq![]
                };
                match (operand_of(c, src), operand_of(c, dst)) {
                    (Ok(a), Ok(b)) => Ok(Inst { inst_type: t, src: a, dst: b }),
                    (Err(e), _) => Err(e),
                    (_, Err(e)) => Err(e),
                }
            },
        }
    }
}

fn find_paren(s: &[u8]) -> (r: bool)
    ensures
        r == has_paren(s@),
{
    let mut i: usize = 0;
    while i < s.len()
        invariant
            i <= s@.len(),
            forall|j: int| 0 <= j < i ==> s@[j] != ('(' as u8),
        decreases s@.len() - i,
    {
        if s[i] == ('(' as u8) {
            return true;
        }
        i = i + 1;
    }
    false
}

/// Resolves the operand text `str` with the registers of `core`.
pub fn parse_od_type(str: &[u8], core: &Core) -> (r: Result<Operand, EmuError>)
    ensures
        r == operand_of(*core, str@),
        r matches Ok(op) ==> operand_ok(op),
{
    if str.len() == 0 {
        Ok(Operand::Empty)
    } else if find_paren(str) {
        match parse_mm_ist(str, core) {
            Ok(a) => Ok(Operand::MemReg(a)),
            Err(e) => Err(e),
        }
    } else if str[0] == ('$' as u8) {
        let rest = vstd::slice::slice_subrange(str, 1, str.len());
        assert(rest@ =~= str@.drop_first());
        match parse_number(rest) {
            Some(v) => Ok(Operand::Imm(v)),
            None => Err(EmuError::MalformedOperand),
        }
    } else if str[0] == ('%' as u8) {
        match parse_reg_operand(str) {
            Some(rr) => Ok(Operand::Reg(core.get_reg(rr), rr)),
            None => Err(EmuError::UnknownRegister),
        }
    } else {
        match parse_number(str) {
            Some(v) => Ok(Operand::MemImm(v)),
            None => Err(EmuError::MalformedOperand),
        }
    }
}

/// Decodes one line of instruction text with the registers of `core`.
pub fn str_to_inst(str: &[u8], core: &Core) -> (r: Result<Inst, EmuError>)
    ensures
        r == decode(*core, str@),
        r matches Ok(i) ==> operand_ok(i.src) && operand_ok(i.dst),
{
    let z = split_fields(str);
    let ghost f = fields_of(str@);
    assert(z@.len() == f.len());
    if z.len() < 1 || z.len() > 3 {
        return Err(EmuError::MalformedOperand);
    }
    assert(z@[0]@ == f[0]);
    let inst_type = match parse_inst_bytes(z[0].as_slice()) {
        Some(t) => t,
        None => return Err(EmuError::NotImplemented),
    };
    let empty: Vec<u8> = Vec::new();
    let src_str = if z.len() >= 2 {
        assert(z@[1]@ == f[1]);
        z[1].as_slice()
    } else {
        empty.as_slice()
    };
    let dst_str = if z.len() == 3 {
        assert(z@[2]@ == f[2]);
        z[2].as_slice()
    } else {
        empty.as_slice()
    };
    assert(src_str@ == (if f.len() >= 2 { f[1] } else { seq![] }));
    assert(dst_str@ == (if f.len() == 3 { f[2] } else { seq![] }));
    let src = match parse_od_type(src_str, core) {
        Ok(o) => o,
        Err(e) => return Err(e),
    };
    let dst = match parse_od_type(dst_str, core) {
        Ok(o) => o,
        Err(e) => return Err(e),
    };
    Ok(Inst { inst_type, src, dst })
}

} // verus!
