//! The instruction engine: what each instruction does to the registers, the
//! flags and memory, and the fetch-decode-execute step.
use vstd::prelude::*;
use vstd::wrapping::u64_specs;
use crate::decode::{decode, operand_ok};
use crate::dram::{INST_LEN, INST_SLOT, PHYSICAL_MEMORY_SPACE, le_word, store_word, trim_zeros};
use crate::error::EmuError;
use crate::memory::{MemorySystem, span_fits};
use crate::mmu::va2pa;
use crate::registers::{CORE_FLAG, Core, RBP, RIP, RSP, RegRef, flags_clear, read_view, write_reg};

pub use crate::decode::{
    Inst, INST_TYPE, Operand, parse_inst_type, parse_mm_ist, parse_od_type, str_to_inst,
};
pub use crate::number::{hex_str2i, hex_str2u};

verus! {

/// The machine as instructions see it: the register cells, the flags and
/// memory as seen through the cache.
pub struct MachineView {
    pub regs: Seq<u64>,
    pub flags: CORE_FLAG,
    pub mem: Seq<u8>,
}

/// Where virtual address `va` lands in physical memory (see `va2pa`).
pub open spec fn fold(va: u64) -> u64 {
    (va % (PHYSICAL_MEMORY_SPACE as u64)) as u64
}

/// The word at virtual address `va`.
pub open spec fn load(m: Seq<u8>, va: u64) -> Result<u64, EmuError> {
    if span_fits(m.len(), fold(va), 8) {
        Ok(le_word(m, fold(va) as int))
    } else {
        Err(EmuError::OutOfBounds)
    }
}

/// Memory after storing `v` at virtual address `va`.
pub open spec fn store(m: Seq<u8>, va: u64, v: u64) -> Result<Seq<u8>, EmuError> {
    if span_fits(m.len(), fold(va), 8) {
        Ok(store_word(m, fold(va) as int, v))
    } else {
        Err(EmuError::OutOfBounds)
    }
}

/// The value an operand supplies as a source.
pub open spec fn source_value(op: Operand, m: Seq<u8>) -> Result<u64, EmuError> {
    match op {
        Operand::Empty => Err(EmuError::MalformedOperand),
        Operand::Imm(v) => Ok(v),
        Operand::Reg(v, _) => Ok(v),
        Operand::MemImm(a) => load(m, a),
        Operand::MemReg(a) => load(m, a),
    }
}

/// The value of register `r` in the cells `regs`.
pub open spec fn reg_in(regs: Seq<u64>, r: RegRef) -> u64 {
    read_view(regs[r.index as int], r.width)
}

/// The cells with `rip` moved to the next instruction record.
pub open spec fn next_rip(regs: Seq<u64>) -> Seq<u64> {
    regs.update(RIP as int, u64_specs::wrapping_add(regs[RIP as int], INST_SLOT))
}

/// Whether the sign bit of `v` is set.
pub open spec fn sign(v: u64) -> bool {
    (v >> 63u64) & 1 == 1
}

/// The flags of `d + s`.
pub open spec fn add_flags(d: u64, s: u64) -> CORE_FLAG {
    let v = u64_specs::wrapping_add(d, s);
    CORE_FLAG {
        cf: v < s,
        zf: v == 0,
        sf: sign(v),
        of: (sign(s) && sign(d) && !sign(v)) || (!sign(s) && !sign(d) && sign(v)),
    }
}

/// The flags of `d - s`.
pub open spec fn sub_flags(d: u64, s: u64) -> CORE_FLAG {
    let v = u64_specs::wrapping_sub(d, s);
    CORE_FLAG {
        cf: v > d,
        zf: v == 0,
        sf: sign(v),
        of: (sign(s) && !sign(d) && sign(v)) || (!sign(s) && sign(d) && !sign(v)),
    }
}

pub open spec fn mov_spec(src: Operand, dst: Operand, st: MachineView) -> Result<MachineView, EmuError> {
    match source_value(src, st.mem) {
        Err(e) => Err(e),
        Ok(v) => match dst {
            Operand::Reg(_, r) => Ok(
                MachineView { regs: next_rip(write_reg(st.regs, r, v)), flags: flags_clear(), mem: st.mem },
            ),
            Operand::MemImm(a) | Operand::MemReg(a) => match store(st.mem, a, v) {
                Ok(m) => Ok(MachineView { regs: next_rip(st.regs), flags: flags_clear(), mem: m }),
                Err(e) => Err(e),
            },
            _ => Err(EmuError::MalformedOperand),
        },
    }
}

pub open spec fn push_spec(src: Operand, st: MachineView) -> Result<MachineView, EmuError> {
    match source_value(src, st.mem) {
        Err(e) => Err(e),
        Ok(v) => {
            let sp = u64_specs::wrapping_sub(st.regs[RSP as int], 8);
            match store(st.mem, sp, v) {
                Ok(m) => Ok(
                    MachineView {
                        regs: next_rip(st.regs.update(RSP as int, sp)),
                        flags: flags_clear(),
                        mem: m,
                    },
                ),
                Err(e) => Err(e),
            }
        },
    }
}

pub open spec fn pop_spec(dst: Operand, st: MachineView) -> Result<MachineView, EmuError> {
    match dst {
        Operand::Reg(_, r) => match load(st.mem, st.regs[RSP as int]) {
            Ok(v) => {
                let regs1 = write_reg(st.regs, r, v);
                let regs2 = regs1.update(
                    RSP as int,
                    u64_specs::wrapping_add(regs1[RSP as int], 8),
                );
                Ok(MachineView { regs: next_rip(regs2), flags: flags_clear(), mem: st.mem })
            },
            Err(e) => Err(e),
        },
        _ => Err(EmuError::MalformedOperand),
    }
}

/// `add` when `sub` is false, `sub` when it is true: the register `dst`
/// combined with the source, and the flags of that operation.
pub open spec fn arith_spec(sub: bool, src: Operand, dst: Operand, st: MachineView) -> Result<
    MachineView,
    EmuError,
> {
    match source_value(src, st.mem) {
        Err(e) => Err(e),
        Ok(s) => match dst {
            Operand::Reg(_, r) => {
                let d = reg_in(st.regs, r);
                let v = if sub {
                    u64_specs::wrapping_sub(d, s)
                } else {
                    u64_specs::wrapping_add(d, s)
                };
                Ok(
                    MachineView {
                        regs: next_rip(write_reg(st.regs, r, v)),
                        flags: if sub {
                            sub_flags(d, s)
                        } else {
                            add_flags(d, s)
                        },
                        mem: st.mem,
                    },
                )
            },
            Operand::Empty => Err(EmuError::MalformedOperand),
            _ => Err(EmuError::NotImplemented),
        },
    }
}

/// The value of an immediate or register operand.
pub open spec fn direct_value(op: Operand) -> Option<u64> {
    match op {
        Operand::Imm(v) => Some(v),
        Operand::Reg(v, _) => Some(v),
        _ => None,
    }
}

/// The address of a memory operand.
pub open spec fn memory_address(op: Operand) -> Option<u64> {
    match op {
        Operand::MemImm(a) => Some(a),
        Operand::MemReg(a) => Some(a),
        _ => None,
    }
}

pub open spec fn cmpq_spec(src: Operand, dst: Operand, st: MachineView) -> Result<MachineView, EmuError> {
    match (direct_value(src), memory_address(dst)) {
        (Some(s), Some(a)) => match load(st.mem, a) {
            Ok(d) => Ok(MachineView { regs: next_rip(st.regs), flags: sub_flags(d, s), mem: st.mem }),
            Err(e) => Err(e),
        },
        _ => Err(EmuError::NotImplemented),
    }
}

pub open spec fn call_spec(src: Operand, st: MachineView) -> Result<MachineView, EmuError> {
    match source_value(src, st.mem) {
        Err(e) => Err(e),
        Ok(t) => {
            let sp = u64_specs::wrapping_sub(st.regs[RSP as int], 8);
            let ret = u64_specs::wrapping_add(st.regs[RIP as int], INST_SLOT);
            match store(st.mem, sp, ret) {
                Ok(m) => Ok(
                    MachineView {
                        regs: st.regs.update(RSP as int, sp).update(RIP as int, t),
                        flags: flags_clear(),
                        mem: m,
                    },
                ),
                Err(e) => Err(e),
            }
        },
    }
}

pub open spec fn retq_spec(st: MachineView) -> Result<MachineView, EmuError> {
    let sp = st.regs[RSP as int];
    match load(st.mem, sp) {
        Ok(v) => Ok(
            MachineView {
                regs: st.regs.update(RIP as int, v).update(
                    RSP as int,
                    u64_specs::wrapping_add(sp, 8),
                ),
                flags: flags_clear(),
                mem: st.mem,
            },
        ),
        Err(e) => Err(e),
    }
}

pub open spec fn leaveq_spec(st: MachineView) -> Result<MachineView, EmuError> {
    let sp = st.regs[RBP as int];
    match load(st.mem, sp) {
        Ok(v) => Ok(
            MachineView {
                regs: next_rip(
                    st.regs.update(RBP as int, v).update(RSP as int, u64_specs::wrapping_add(sp, 8)),
                ),
                flags: flags_clear(),
                mem: st.mem,
            },
        ),
        Err(e) => Err(e),
    }
}

pub open spec fn jne_spec(src: Operand, st: MachineView) -> Result<MachineView, EmuError> {
    match src {
        Operand::Imm(t) => Ok(
            MachineView {
                regs: if !st.flags.zf {
                    st.regs.update(RIP as int, t)
                } else {
                    next_rip(st.regs)
                },
                flags: st.flags,
                mem: st.mem,
            },
        ),
        _ => Err(EmuError::NotImplemented),
    }
}

pub open spec fn jmp_spec(src: Operand, st: MachineView) -> Result<MachineView, EmuError> {
    match src {
        Operand::Imm(t) => Ok(
            MachineView { regs: st.regs.update(RIP as int, t), flags: flags_clear(), mem: st.mem },
        ),
        _ => Err(EmuError::NotImplemented),
    }
}

/// What executing `inst` does to the machine.
pub open spec fn exec_spec(inst: Inst, st: MachineView) -> Result<MachineView, EmuError> {
    match inst.inst_type {
        INST_TYPE::MOV => mov_spec(inst.src, inst.dst, st),
        INST_TYPE::PUSH => push_spec(inst.src, st),
        INST_TYPE::POP => pop_spec(inst.src, st),
        INST_TYPE::LEAVEQ => leaveq_spec(st),
        INST_TYPE::CALL => call_spec(inst.src, st),
        INST_TYPE::RET => retq_spec(st),
        INST_TYPE::ADD => arith_spec(false, inst.src, inst.dst, st),
        INST_TYPE::SUB => arith_spec(true, inst.src, inst.dst, st),
        INST_TYPE::CMPQ => cmpq_spec(inst.src, inst.dst, st),
        INST_TYPE::JNE => jne_spec(inst.src, st),
        INST_TYPE::JMP => jmp_spec(inst.src, st),
    }
}

pub open spec fn view_of(c: Core, m: Seq<u8>) -> MachineView {
    MachineView { regs: c.regs@, flags: c.flags, mem: m }
}

/// The machine went from `(c1, m1)` to `(c2, m2)` as `res` says; an error
/// left the registers, the flags and memory as seen through the cache as
/// they were.
pub open spec fn step_post(
    c1: Core,
    m1: MemorySystem,
    c2: Core,
    m2: MemorySystem,
    res: Result<MachineView, EmuError>,
    r: Result<(), EmuError>,
) -> bool {
    &&& m2.wf()
    &&& match res {
        Ok(st) => r is Ok && c2.regs@ == st.regs && c2.flags == st.flags && m2@ == st.mem,
        Err(e) => r == Err::<(), EmuError>(e) && c2 == c1 && m2@ == m1@,
    }
}

fn load_exec(mem: &mut MemorySystem, va: u64) -> (r: Result<u64, EmuError>)
    requires
        old(mem).wf(),
    ensures
        final(mem).wf(),
        final(mem)@ == old(mem)@,
        r == load(old(mem)@, va),
{
    let pa = va2pa(va).unwrap();
    mem.read_u64(pa)
}

fn store_exec(mem: &mut MemorySystem, va: u64, v: u64) -> (r: Result<(), EmuError>)
    requires
        old(mem).wf(),
    ensures
        final(mem).wf(),
        match store(old(mem)@, va, v) {
            Ok(m) => r is Ok && final(mem)@ == m,
            Err(e) => r == Err::<(), EmuError>(e) && final(mem)@ == old(mem)@,
        },
{
    let pa = va2pa(va).unwrap();
    mem.write_u64(pa, v)
}

fn source_exec(op: Operand, mem: &mut MemorySystem) -> (r: Result<u64, EmuError>)
    requires
        old(mem).wf(),
    ensures
        final(mem).wf(),
        final(mem)@ == old(mem)@,
        r == source_value(op, old(mem)@),
{
    match op {
        Operand::Empty => Err(EmuError::MalformedOperand),
        Operand::Imm(v) => Ok(v),
        Operand::Reg(v, _) => Ok(v),
        Operand::MemImm(a) => load_exec(mem, a),
        Operand::MemReg(a) => load_exec(mem, a),
    }
}

/// Moves `rip` to the next instruction record.
fn update_pc(core: &mut Core)
    ensures
        final(core).regs@ == next_rip(old(core).regs@),
        final(core).flags == old(core).flags,
{
    core.regs[RIP] = core.regs[RIP].wrapping_add(INST_SLOT);
    assert(core.regs@ =~= next_rip(old(core).regs@));
}

fn mov_handler(src: Operand, dst: Operand, core: &mut Core, mem: &mut MemorySystem) -> (r: Result<
    (),
    EmuError,
>)
    requires
        old(mem).wf(),
        operand_ok(dst),
    ensures
        step_post(*old(core), *old(mem), *final(core), *final(mem), mov_spec(src, dst, view_of(*old(core), old(mem)@)), r),
{
    let v = match source_exec(src, mem) {
        Ok(v) => v,
        Err(e) => return Err(e),
    };
    match dst {
        Operand::Reg(_, rr) => {
            core.set_reg(rr, v);
        },
        Operand::MemImm(a) | Operand::MemReg(a) => {
            match store_exec(mem, a, v) {
                Ok(()) => {},
                Err(e) => return Err(e),
            }
        },
        _ => return Err(EmuError::MalformedOperand),
    }
    update_pc(core);
    core.flags_reset();
    Ok(())
}

fn push_handler(src: Operand, core: &mut Core, mem: &mut MemorySystem) -> (r: Result<(), EmuError>)
    requires
        old(mem).wf(),
    ensures
        step_post(*old(core), *old(mem), *final(core), *final(mem), push_spec(src, view_of(*old(core), old(mem)@)), r),
{
    let v = match source_exec(src, mem) {
        Ok(v) => v,
        Err(e) => return Err(e),
    };
    let sp = core.regs[RSP].wrapping_sub(8);
    match store_exec(mem, sp, v) {
        Ok(()) => {},
        Err(e) => return Err(e),
    }
    core.regs[RSP] = sp;
    update_pc(core);
    core.flags_reset();
    Ok(())
}

fn pop_handler(dst: Operand, core: &mut Core, mem: &mut MemorySystem) -> (r: Result<(), EmuError>)
    requires
        old(mem).wf(),
        operand_ok(dst),
    ensures
        step_post(*old(core), *old(mem), *final(core), *final(mem), pop_spec(dst, view_of(*old(core), old(mem)@)), r),
{
    match dst {
        Operand::Reg(_, rr) => {
            let v = match load_exec(mem, core.regs[RSP]) {
                Ok(v) => v,
                Err(e) => return Err(e),
            };
            core.set_reg(rr, v);
            core.regs[RSP] = core.regs[RSP].wrapping_add(8);
            update_pc(core);
            core.flags_reset();
            Ok(())
        },
        _ => Err(EmuError::MalformedOperand),
    }
}

fn arith_handler(sub: bool, src: Operand, dst: Operand, core: &mut Core, mem: &mut MemorySystem) -> (r: Result<
    (),
    EmuError,
>)
    requires
        old(mem).wf(),
        operand_ok(dst),
    ensures
        step_post(*old(core), *old(mem), *final(core), *final(mem), arith_spec(sub, src, dst, view_of(*old(core), old(mem)@)), r),
{
    let s = match source_exec(src, mem) {
        Ok(v) => v,
        Err(e) => return Err(e),
    };
    match dst {
        Operand::Reg(_, rr) => {
            let d = core.get_reg(rr);
            let v = if sub {
                d.wrapping_sub(s)
            } else {
                d.wrapping_add(s)
            };
            let src_sign = (s >> 63u64) & 1 == 1;
            let dst_sign = (d >> 63u64) & 1 == 1;
            let val_sign = (v >> 63u64) & 1 == 1;
            core.set_reg(rr, v);
            update_pc(core);
            if sub {
                core.flags.cf = v > d;
                core.flags.of = (src_sign && !dst_sign && val_sign) || (!src_sign && dst_sign && !val_sign);
            } else {
                core.flags.cf = v < s;
                core.flags.of = (src_sign && dst_sign && !val_sign) || (!src_sign && !dst_sign && val_sign);
            }
            core.flags.zf = v == 0;
            core.flags.sf = val_sign;
            Ok(())
        },
        Operand::Empty => Err(EmuError::MalformedOperand),
        _ => Err(EmuError::NotImplemented),
    }
}

fn add_handler(src: Operand, dst: Operand, core: &mut Core, mem: &mut MemorySystem) -> (r: Result<
    (),
    EmuError,
>)
    requires
        old(mem).wf(),
        operand_ok(dst),
    ensures
        step_post(*old(core), *old(mem), *final(core), *final(mem), arith_spec(false, src, dst, view_of(*old(core), old(mem)@)), r),
{
    arith_handler(false, src, dst, core, mem)
}

fn sub_handler(src: Operand, dst: Operand, core: &mut Core, mem: &mut MemorySystem) -> (r: Result<
    (),
    EmuError,
>)
    requires
        old(mem).wf(),
        operand_ok(dst),
    ensures
        step_post(*old(core), *old(mem), *final(core), *final(mem), arith_spec(true, src, dst, view_of(*old(core), old(mem)@)), r),
{
    arith_handler(true, src, dst, core, mem)
}

fn cmpq_handler(src: Operand, dst: Operand, core: &mut Core, mem: &mut MemorySystem) -> (r: Result<
    (),
    EmuError,
>)
    requires
        old(mem).wf(),
    ensures
        step_post(*old(core), *old(mem), *final(core), *final(mem), cmpq_spec(src, dst, view_of(*old(core), old(mem)@)), r),
{
    let s = match src {
        Operand::Imm(v) => v,
        Operand::Reg(v, _) => v,
        _ => return Err(EmuError::NotImplemented),
    };
    let d = match dst {
        Operand::MemImm(a) | Operand::MemReg(a) => match load_exec(mem, a) {
            Ok(d) => d,
            Err(e) => return Err(e),
        },
        _ => return Err(EmuError::NotImplemented),
    };
    let v = d.wrapping_sub(s);
    let src_sign = (s >> 63u64) & 1 == 1;
    let dst_sign = (d >> 63u64) & 1 == 1;
    let val_sign = (v >> 63u64) & 1 == 1;
    update_pc(core);
    core.flags.cf = v > d;
    core.flags.zf = v == 0;
    core.flags.sf = val_sign;
    core.flags.of = (src_sign && !dst_sign && val_sign) || (!src_sign && dst_sign && !val_sign);
    Ok(())
}

fn call_handler(src: Operand, core: &mut Core, mem: &mut MemorySystem) -> (r: Result<(), EmuError>)
    requires
        old(mem).wf(),
    ensures
        step_post(*old(core), *old(mem), *final(core), *final(mem), call_spec(src, view_of(*old(core), old(mem)@)), r),
{
    let t = match source_exec(src, mem) {
        Ok(v) => v,
        Err(e) => return Err(e),
    };
    let sp = core.regs[RSP].wrapping_sub(8);
    let ret = core.regs[RIP].wrapping_add(INST_SLOT);
    match store_exec(mem, sp, ret) {
        Ok(()) => {},
        Err(e) => return Err(e),
    }
    core.regs[RSP] = sp;
    core.regs[RIP] = t;
    core.flags_reset();
    Ok(())
}

fn retq_handler(core: &mut Core, mem: &mut MemorySystem) -> (r: Result<(), EmuError>)
    requires
        old(mem).wf(),
    ensures
        step_post(*old(core), *old(mem), *final(core), *final(mem), retq_spec(view_of(*old(core), old(mem)@)), r),
{
    let sp = core.regs[RSP];
    let v = match load_exec(mem, sp) {
        Ok(v) => v,
        Err(e) => return Err(e),
    };
    core.regs[RIP] = v;
    core.regs[RSP] = sp.wrapping_add(8);
    core.flags_reset();
    Ok(())
}

fn leaveq_handler(core: &mut Core, mem: &mut MemorySystem) -> (r: Result<(), EmuError>)
    requires
        old(mem).wf(),
    ensures
        step_post(*old(core), *old(mem), *final(core), *final(mem), leaveq_spec(view_of(*old(core), old(mem)@)), r),
{
    let sp = core.regs[RBP];
    let v = match load_exec(mem, sp) {
        Ok(v) => v,
        Err(e) => return Err(e),
    };
    core.regs[RBP] = v;
    core.regs[RSP] = sp.wrapping_add(8);
    update_pc(core);
    core.flags_reset();
    Ok(())
}

fn jne_handler(src: Operand, core: &mut Core, mem: &mut MemorySystem) -> (r: Result<(), EmuError>)
    requires
        old(mem).wf(),
    ensures
        step_post(*old(core), *old(mem), *final(core), *final(mem), jne_spec(src, view_of(*old(core), old(mem)@)), r),
{
    let t = match src {
        Operand::Imm(v) => v,
        _ => return Err(EmuError::NotImplemented),
    };
    if !core.flags.zf {
        core.regs[RIP] = t;
    } else {
        update_pc(core);
    }
    Ok(())
}

fn jmp_handler(src: Operand, core: &mut Core, mem: &mut MemorySystem) -> (r: Result<(), EmuError>)
    requires
        old(mem).wf(),
    ensures
        step_post(*old(core), *old(mem), *final(core), *final(mem), jmp_spec(src, view_of(*old(core), old(mem)@)), r),
{
    let t = match src {
        Operand::Imm(v) => v,
        _ => return Err(EmuError::NotImplemented),
    };
    core.regs[RIP] = t;
    core.flags_reset();
    Ok(())
}

/// Executes a decoded instruction.
pub fn oper_inst(inst: Inst, core: &mut Core, mem: &mut MemorySystem) -> (r: Result<(), EmuError>)
    requires
        old(mem).wf(),
        operand_ok(inst.src),
        operand_ok(inst.dst),
    ensures
        step_post(*old(core), *old(mem), *final(core), *final(mem), exec_spec(inst, view_of(*old(core), old(mem)@)), r),
{
    match inst.inst_type {
        INST_TYPE::MOV => mov_handler(inst.src, inst.dst, core, mem),
        INST_TYPE::PUSH => push_handler(inst.src, core, mem),
        INST_TYPE::POP => pop_handler(inst.src, core, mem),
        INST_TYPE::LEAVEQ => leaveq_handler(core, mem),
        INST_TYPE::CALL => call_handler(inst.src, core, mem),
        INST_TYPE::RET => retq_handler(core, mem),
        INST_TYPE::ADD => add_handler(inst.src, inst.dst, core, mem),
        INST_TYPE::SUB => sub_handler(inst.src, inst.dst, core, mem),
        INST_TYPE::CMPQ => cmpq_handler(inst.src, inst.dst, core, mem),
        INST_TYPE::JNE => jne_handler(inst.src, core, mem),
        INST_TYPE::JMP => jmp_handler(inst.src, core, mem),
    }
}

/// The text of the instruction record that `rip` points at, or why it cannot be read.
pub open spec fn fetch(c: Core, m: Seq<u8>) -> Result<Seq<u8>, EmuError> {
    let pa = fold(c.regs@[RIP as int]);
    if span_fits(m.len(), pa, INST_LEN as nat) {
        Ok(trim_zeros(m.subrange(pa as int, pa + INST_LEN)))
    } else {
        Err(EmuError::OutOfBounds)
    }
}

/// One machine step: the instruction at `rip` fetched, decoded and executed.
pub open spec fn step_spec(c: Core, m: Seq<u8>) -> Result<MachineView, EmuError> {
    match fetch(c, m) {
        Err(e) => Err(e),
        Ok(text) => match decode(c, text) {
            Err(e) => Err(e),
            Ok(inst) => exec_spec(inst, view_of(c, m)),
        },
    }
}

/// Fetches the instruction record at `rip`, decodes it and executes it. On
/// an error the machine is left as it was.
pub fn step(core: &mut Core, mem: &mut MemorySystem) -> (r: Result<(), EmuError>)
    requires
        old(mem).wf(),
    ensures
        step_post(*old(core), *old(mem), *final(core), *final(mem), step_spec(*old(core), old(mem)@), r),
{
    let pa = va2pa(core.regs[RIP]).unwrap();
    let text = match mem.fetch_inst(pa) {
        Ok(t) => t,
        Err(e) => return Err(e),
    };
    let inst = match str_to_inst(text.as_slice(), core) {
        Ok(i) => i,
        Err(e) => return Err(e),
    };
    oper_inst(inst, core, mem)
}

/// A call pushes the address of the next record, lowers `rsp` by 8 and
/// jumps to its target, in one step.
pub proof fn lemma_call_pushes_return(src: Operand, dst: Operand, st: MachineView, st2: MachineView)
    requires
        st.regs.len() == 17,
        exec_spec(Inst { inst_type: INST_TYPE::CALL, src, dst }, st) == Ok::<MachineView, EmuError>(st2),
    ensures
        st2.regs[RSP as int] == u64_specs::wrapping_sub(st.regs[RSP as int], 8),
        load(st2.mem, st2.regs[RSP as int]) == Ok::<u64, EmuError>(
            u64_specs::wrapping_add(st.regs[RIP as int], INST_SLOT),
        ),
        source_value(src, st.mem) == Ok::<u64, EmuError>(st2.regs[RIP as int]),
{
    let sp = u64_specs::wrapping_sub(st.regs[RSP as int], 8);
    crate::dram::lemma_store_word_read(st.mem, fold(sp) as int, u64_specs::wrapping_add(st.regs[RIP as int], INST_SLOT));
}

/// A return pops the word at the top of the stack into `rip` and raises
/// `rsp` by 8, in one step.
pub proof fn lemma_ret_pops(src: Operand, dst: Operand, st: MachineView, st2: MachineView)
    requires
        st.regs.len() == 17,
        exec_spec(Inst { inst_type: INST_TYPE::RET, src, dst }, st) == Ok::<MachineView, EmuError>(st2),
    ensures
        load(st.mem, st.regs[RSP as int]) == Ok::<u64, EmuError>(st2.regs[RIP as int]),
        st2.regs[RSP as int] == u64_specs::wrapping_add(st.regs[RSP as int], 8),
        st2.mem == st.mem,
{
}

/// A return right after a call comes back to the record after the call, with
/// `rsp` as it was before the call.
pub proof fn lemma_call_then_ret(
    src: Operand,
    dst: Operand,
    src2: Operand,
    dst2: Operand,
    st: MachineView,
    st2: MachineView,
    st3: MachineView,
)
    requires
        st.regs.len() == 17,
        exec_spec(Inst { inst_type: INST_TYPE::CALL, src, dst }, st) == Ok::<MachineView, EmuError>(st2),
        exec_spec(Inst { inst_type: INST_TYPE::RET, src: src2, dst: dst2 }, st2) == Ok::<MachineView, EmuError>(st3),
    ensures
        st3.regs[RIP as int] == u64_specs::wrapping_add(st.regs[RIP as int], INST_SLOT),
        st3.regs[RSP as int] == st.regs[RSP as int],
{
    lemma_call_pushes_return(src, dst, st, st2);
}

/// Comparing a memory word with an equal value sets ZF and clears CF, SF and OF.
pub proof fn lemma_cmp_equal_flags(src: Operand, dst: Operand, st: MachineView, v: u64, a: u64)
    requires
        direct_value(src) == Some(v),
        memory_address(dst) == Some(a),
        load(st.mem, a) == Ok::<u64, EmuError>(v),
    ensures
        exec_spec(Inst { inst_type: INST_TYPE::CMPQ, src, dst }, st) is Ok,
        exec_spec(Inst { inst_type: INST_TYPE::CMPQ, src, dst }, st)->Ok_0.flags == (CORE_FLAG {
            cf: false,
            zf: true,
            sf: false,
            of: false,
        }),
{
    assert((0u64 >> 63u64) & 1 == 0) by (bit_vector);
}

} // verus!
