//! Lowering: raw instructions to emulator instructions.
//!
//! Each raw instruction becomes one `inst_info` chosen by its mnemonic, modifiers
//! and operand shapes; label markers produce nothing but give their name the
//! index of the next real instruction; `[param]` operands become parameter
//! indices; immediates and register indices are encoded as `usize`.

use crate::inst_info::{inst_info, make_inst, InstView};
use crate::inst_type::InstType;
use crate::parse_error::{ErrV, ParseError};
use crate::ptx_ir::{
    operands_view, raws_view, ImmediateValue, OperandV, PredGuard, RawInstruction, RawOperand,
    RawV, RegBank, SpecialReg,
};
use crate::ptx_output::{insts_view, params_view, ParamInfo, ParamV, ParsedKernel};
use crate::ptx_parser::{ParseOutV, ParseOutput};
use crate::text::{copy_string, copy_strings, str_eq, strings_view};
use crate::debug_text::{operand_debug, operand_text};
use vstd::prelude::*;

verus! {

broadcast use vstd::string::group_string_axioms;

// ---------------------------------------------------------------------------
// Specification.
// ---------------------------------------------------------------------------

/// The value of a parsed kernel.
pub struct KernelV {
    pub name: Seq<char>,
    pub params: Seq<ParamV>,
    pub insts: Seq<InstView>,
}

impl View for ParsedKernel {
    type V = KernelV;

    open spec fn view(&self) -> KernelV {
        KernelV {
            name: self.name@,
            params: params_view(self.params@),
            insts: insts_view(self.instructions@),
        }
    }
}

pub open spec fn is_marker(r: RawV) -> bool {
    r.mnemonic == ".label"@
}

/// Number of real (non-marker) instructions in `raws`.
pub open spec fn real_count(raws: Seq<RawV>) -> nat
    decreases raws.len(),
{
    if raws.len() == 0 {
        0
    } else {
        real_count(raws.drop_last()) + if is_marker(raws.last()) {
            0nat
        } else {
            1nat
        }
    }
}

/// Whether marker `r` defines label `name`.
pub open spec fn defines(r: RawV, name: Seq<char>) -> bool {
    is_marker(r) && r.operands.len() > 0 && r.operands[0] == OperandV::Label(name)
}

/// The program counter of label `name`: the number of real instructions before
/// its (last) marker.
pub open spec fn label_pc(raws: Seq<RawV>, name: Seq<char>) -> Option<nat>
    decreases raws.len(),
{
    if raws.len() == 0 {
        None
    } else if defines(raws.last(), name) {
        Some(real_count(raws.drop_last()))
    } else {
        label_pc(raws.drop_last(), name)
    }
}

/// The index of (the last) parameter named `name`.
pub open spec fn param_index(params: Seq<ParamV>, name: Seq<char>) -> Option<nat>
    decreases params.len(),
{
    if params.len() == 0 {
        None
    } else if params.last().name == name {
        Some((params.len() - 1) as nat)
    } else {
        param_index(params.drop_last(), name)
    }
}

/// An "unsupported operand shape" error: the opcode as written and the reason.
pub open spec fn us(line: int, opcode: Seq<char>, reason: Seq<char>) -> ErrV {
    ErrV::UnsupportedOperandShape { line, opcode, reason }
}

/// The "unsupported operand shape" error of raw instruction `r`.
pub open spec fn shape(r: RawV, reason: Seq<char>) -> ErrV {
    us(r.line, r.mnemonic + dotted(r.modifiers), reason)
}

/// The error for a wrong number of operands.
pub open spec fn count_err(r: RawV) -> ErrV {
    shape(r, "wrong number of operands"@)
}

pub open spec fn unknown(r: RawV) -> ErrV {
    ErrV::UnknownOpcode { line: r.line, mnemonic: r.mnemonic, modifiers: r.modifiers }
}

pub open spec fn inst(t: InstType, args: Seq<usize>) -> InstView {
    InstView { inst_type: t, args }
}

/// A register operand's index.
pub open spec fn reg_of(op: OperandV, line: int) -> Result<usize, ErrV> {
    match op {
        OperandV::Register { index, .. } => Ok(index as usize),
        _ => Err(us(line, "<operand>"@, "expected register, found "@ + operand_debug(op))),
    }
}

/// `[%reg]`: the address register's index.
pub open spec fn memref_of(op: OperandV, line: int) -> Result<usize, ErrV> {
    match op {
        OperandV::MemoryRef(inner) => match *inner {
            OperandV::Register { index, .. } => Ok(index as usize),
            other => Err(
                us(line, "<memref>"@, "memory reference must wrap a register, found "@ + operand_debug(other)),
            ),
        },
        _ => Err(us(line, "<memref>"@, "expected `[%reg]`, found "@ + operand_debug(op))),
    }
}

/// `[name]`: the parameter's index.
pub open spec fn param_of(op: OperandV, params: Seq<ParamV>, line: int) -> Result<usize, ErrV> {
    match op {
        OperandV::MemoryRef(inner) => match *inner {
            OperandV::Identifier(name) => match param_index(params, name) {
                Some(i) => Ok(i as usize),
                None => Err(ErrV::UndefinedParam { line, param: name }),
            },
            other => Err(
                us(line, "ld.param"@, "expected `[param_name]`, found `["@ + operand_debug(other) + "]`"@),
            ),
        },
        _ => Err(us(line, "ld.param"@, "expected `[param_name]`, found "@ + operand_debug(op))),
    }
}

/// Immediates as operand slots: integers reinterpreted, floats as their bits.
pub open spec fn imm_of(v: ImmediateValue) -> usize {
    match v {
        ImmediateValue::IntZero => 0,
        ImmediateValue::Int(x) => x as usize,
        ImmediateValue::F32Bits(b) => b as usize,
    }
}

pub open spec fn regs3(r: RawV) -> Result<Seq<usize>, ErrV> {
    match reg_of(r.operands[0], r.line) {
        Err(e) => Err(e),
        Ok(a) => match reg_of(r.operands[1], r.line) {
            Err(e) => Err(e),
            Ok(b) => match reg_of(r.operands[2], r.line) {
                Err(e) => Err(e),
                Ok(c) => Ok(seq![a, b, c]),
            },
        },
    }
}

pub open spec fn regs4(r: RawV) -> Result<Seq<usize>, ErrV> {
    match regs3(r) {
        Err(e) => Err(e),
        Ok(s) => match reg_of(r.operands[3], r.line) {
            Err(e) => Err(e),
            Ok(d) => Ok(s.push(d)),
        },
    }
}

pub open spec fn with_type(t: InstType, a: Result<Seq<usize>, ErrV>) -> Result<InstView, ErrV> {
    match a {
        Err(e) => Err(e),
        Ok(args) => Ok(inst(t, args)),
    }
}

pub open spec fn two_regs(r: RawV, t: InstType) -> Result<InstView, ErrV> {
    match reg_of(r.operands[0], r.line) {
        Err(e) => Err(e),
        Ok(d) => match reg_of(r.operands[1], r.line) {
            Err(e) => Err(e),
            Ok(s) => Ok(inst(t, seq![d, s])),
        },
    }
}

pub open spec fn mods_are(r: RawV, m: Seq<Seq<char>>) -> bool {
    r.modifiers == m
}

pub open spec fn sp_lower_ld(r: RawV, params: Seq<ParamV>) -> Result<InstView, ErrV> {
    match reg_of(r.operands[0], r.line) {
        Err(e) => Err(e),
        Ok(dest) => if mods_are(r, seq!["param"@, "u64"@]) {
            match param_of(r.operands[1], params, r.line) {
                Err(e) => Err(e),
                Ok(i) => Ok(inst(InstType::LdParamU64, seq![dest, i])),
            }
        } else if mods_are(r, seq!["param"@, "u32"@]) {
            match param_of(r.operands[1], params, r.line) {
                Err(e) => Err(e),
                Ok(i) => Ok(inst(InstType::LdParamU32, seq![dest, i])),
            }
        } else if mods_are(r, seq!["param"@, "f32"@]) {
            match param_of(r.operands[1], params, r.line) {
                Err(e) => Err(e),
                Ok(i) => Ok(inst(InstType::LdParamF32, seq![dest, i])),
            }
        } else if mods_are(r, seq!["global"@, "f32"@]) {
            match memref_of(r.operands[1], r.line) {
                Err(e) => Err(e),
                Ok(a) => Ok(inst(InstType::LdGlobalF32, seq![dest, a])),
            }
        } else if mods_are(r, seq!["global"@, "nc"@, "f32"@]) {
            match memref_of(r.operands[1], r.line) {
                Err(e) => Err(e),
                Ok(a) => Ok(inst(InstType::LdGlobalNcF32, seq![dest, a])),
            }
        } else {
            Err(unknown(r))
        },
    }
}

pub open spec fn sp_lower_st(r: RawV) -> Result<InstView, ErrV> {
    if mods_are(r, seq!["global"@, "f32"@]) {
        match memref_of(r.operands[0], r.line) {
            Err(e) => Err(e),
            Ok(a) => match reg_of(r.operands[1], r.line) {
                Err(e) => Err(e),
                Ok(v) => Ok(inst(InstType::StGlobalF32, seq![a, v])),
            },
        }
    } else {
        Err(unknown(r))
    }
}

pub open spec fn special_mov(sr: SpecialReg) -> InstType {
    match sr {
        SpecialReg::TidX => InstType::MovTidX,
        SpecialReg::TidY => InstType::MovTidY,
        SpecialReg::TidZ => InstType::MovTidZ,
        SpecialReg::CtaidX => InstType::MovCtaidX,
        SpecialReg::CtaidY => InstType::MovCtaidY,
        SpecialReg::CtaidZ => InstType::MovCtaidZ,
        SpecialReg::NtidX => InstType::MovNtidX,
        SpecialReg::NtidY => InstType::MovNtidY,
        SpecialReg::NtidZ => InstType::MovNtidZ,
        SpecialReg::NctaidX => InstType::MovNctaidX,
        SpecialReg::NctaidY => InstType::MovNctaidY,
        SpecialReg::NctaidZ => InstType::MovNctaidZ,
    }
}

pub open spec fn sp_lower_mov(r: RawV) -> Result<InstView, ErrV> {
    let src = r.operands[1];
    if src is SpecialReg {
        match reg_of(r.operands[0], r.line) {
            Err(e) => Err(e),
            Ok(d) => Ok(inst(special_mov(src->SpecialReg_0), seq![d])),
        }
    } else if mods_are(r, seq!["u32"@]) {
        match reg_of(r.operands[0], r.line) {
            Err(e) => Err(e),
            Ok(d) => match src {
                OperandV::Immediate(v) => Ok(inst(InstType::MovU32Imm, seq![d, imm_of(v)])),
                OperandV::Register { bank: RegBank::R, index } => Ok(
                    inst(InstType::MovU32, seq![d, index as usize]),
                ),
                _ => Err(shape(r, "mov.u32 source must be an r-register or immediate"@)),
            },
        }
    } else if mods_are(r, seq!["u64"@]) {
        match reg_of(r.operands[0], r.line) {
            Err(e) => Err(e),
            Ok(d) => match src {
                OperandV::Immediate(v) => Ok(inst(InstType::MovU64Imm, seq![d, imm_of(v)])),
                OperandV::Register { bank: RegBank::Rd, index } => Ok(
                    inst(InstType::MovU64, seq![d, index as usize]),
                ),
                _ => Err(shape(r, "mov.u64 source must be an rd-register or immediate"@)),
            },
        }
    } else if mods_are(r, seq!["f32"@]) {
        match reg_of(r.operands[0], r.line) {
            Err(e) => Err(e),
            Ok(d) => match src {
                OperandV::Immediate(v) => Ok(inst(InstType::MovF32Imm, seq![d, imm_of(v)])),
                OperandV::Register { bank: RegBank::F, index } => Ok(
                    inst(InstType::MovF32, seq![d, index as usize]),
                ),
                OperandV::Register { bank: RegBank::R, index } => Ok(
                    inst(InstType::MovF32FromB32, seq![d, index as usize]),
                ),
                _ => Err(shape(r, "unsupported source operand for mov.f32"@)),
            },
        }
    } else if mods_are(r, seq!["b32"@]) {
        match reg_of(r.operands[0], r.line) {
            Err(e) => Err(e),
            Ok(d) => match src {
                OperandV::Register { bank: RegBank::F, index } => Ok(
                    inst(InstType::MovB32FromF32, seq![d, index as usize]),
                ),
                _ => Err(shape(r, "unsupported source operand for mov.b32"@)),
            },
        }
    } else {
        Err(unknown(r))
    }
}

/// `op d, a, <reg or imm>` with the register form `t_reg` and the immediate form `t_imm`.
pub open spec fn reg_or_imm(r: RawV, t_reg: InstType, t_imm: InstType, reason: Seq<char>) -> Result<
    InstView,
    ErrV,
> {
    match reg_of(r.operands[0], r.line) {
        Err(e) => Err(e),
        Ok(d) => match reg_of(r.operands[1], r.line) {
            Err(e) => Err(e),
            Ok(a) => match r.operands[2] {
                OperandV::Register { index, .. } => Ok(inst(t_reg, seq![d, a, index as usize])),
                OperandV::Immediate(v) => Ok(inst(t_imm, seq![d, a, imm_of(v)])),
                _ => Err(shape(r, reason)),
            },
        },
    }
}

pub open spec fn sp_lower_add(r: RawV) -> Result<InstView, ErrV> {
    if mods_are(r, seq!["s32"@]) {
        reg_or_imm(
            r,
            InstType::AddS32,
            InstType::AddS32Imm,
            "third operand of add.s32 must be register or immediate"@,
        )
    } else if mods_are(r, seq!["s64"@]) {
        with_type(InstType::AddS64, regs3(r))
    } else if mods_are(r, seq!["f32"@]) {
        reg_or_imm(
            r,
            InstType::AddF32,
            InstType::AddF32Imm,
            "third operand of add.f32 must be register or immediate"@,
        )
    } else {
        Err(unknown(r))
    }
}

pub open spec fn sp_lower_mul(r: RawV) -> Result<InstView, ErrV> {
    if mods_are(r, seq!["f32"@]) {
        with_type(InstType::MulF32, regs3(r))
    } else if mods_are(r, seq!["wide"@, "s32"@]) {
        match reg_of(r.operands[0], r.line) {
            Err(e) => Err(e),
            Ok(d) => match reg_of(r.operands[1], r.line) {
                Err(e) => Err(e),
                Ok(a) => match r.operands[2] {
                    OperandV::Immediate(v) => Ok(inst(InstType::MulWideS32, seq![d, a, imm_of(v)])),
                    _ => Err(shape(r, "mul.wide.s32 only supported with immediate third operand"@)),
                },
            },
        }
    } else {
        Err(unknown(r))
    }
}

pub open spec fn sp_lower_setp(r: RawV) -> Result<InstView, ErrV> {
    match reg_of(r.operands[0], r.line) {
        Err(e) => Err(e),
        Ok(p) => match reg_of(r.operands[1], r.line) {
            Err(e) => Err(e),
            Ok(a) => if mods_are(r, seq!["ge"@, "s32"@]) {
                match r.operands[2] {
                    OperandV::Register { index, .. } => Ok(
                        inst(InstType::SetpGeS32, seq![p, a, index as usize]),
                    ),
                    OperandV::Immediate(v) => Ok(inst(InstType::SetpGeS32Imm, seq![p, a, imm_of(v)])),
                    _ => Err(shape(r, "third operand of setp.ge.s32 must be register or immediate"@)),
                }
            } else if mods_are(r, seq!["lt"@, "s32"@]) {
                match r.operands[2] {
                    OperandV::Register { index, .. } => Ok(
                        inst(InstType::SetpLtS32, seq![p, a, index as usize]),
                    ),
                    OperandV::Immediate(v) => Ok(inst(InstType::SetpLtS32Imm, seq![p, a, imm_of(v)])),
                    _ => Err(shape(r, "third operand of setp.lt.s32 must be register or immediate"@)),
                }
            } else {
                Err(unknown(r))
            },
        },
    }
}

pub open spec fn sp_lower_shl(r: RawV) -> Result<InstView, ErrV> {
    if mods_are(r, seq!["b32"@]) {
        match reg_of(r.operands[0], r.line) {
            Err(e) => Err(e),
            Ok(d) => match reg_of(r.operands[1], r.line) {
                Err(e) => Err(e),
                Ok(a) => match r.operands[2] {
                    OperandV::Immediate(v) => Ok(inst(InstType::ShlB32, seq![d, a, imm_of(v)])),
                    OperandV::Register { index, .. } => Ok(
                        inst(InstType::ShlB32, seq![d, a, index as usize]),
                    ),
                    _ => Err(shape(r, "shl.b32 third operand must be register or immediate"@)),
                },
            },
        }
    } else {
        Err(unknown(r))
    }
}

/// The branch target of `bra`, with its guard.
pub open spec fn sp_lower_branch(r: RawV, allr: Seq<RawV>) -> Result<InstView, ErrV> {
    if r.operands.len() != 1 {
        Err(count_err(r))
    } else {
        match r.operands[0] {
            OperandV::Label(name) => match label_pc(allr, name) {
                None => Err(ErrV::UndefinedLabel { line: r.line, label: name }),
                Some(pc) => match r.guard {
                    Some(g) => if !g.negated {
                        Ok(inst(InstType::BraIf, seq![g.reg as usize, pc as usize]))
                    } else {
                        Ok(inst(InstType::BraIfNot, seq![g.reg as usize, pc as usize]))
                    },
                    None => Ok(inst(InstType::Bra, seq![pc as usize])),
                },
            },
            _ => Err(shape(r, "bra target must be a label"@)),
        }
    }
}

/// `op` with an exact operand count `n` and a single accepted modifier list `m`.
pub open spec fn fixed_form(r: RawV, n: int, m: Seq<Seq<char>>, body: Result<InstView, ErrV>) -> Result<
    InstView,
    ErrV,
> {
    if r.operands.len() != n {
        Err(count_err(r))
    } else if mods_are(r, m) {
        body
    } else {
        Err(unknown(r))
    }
}

/// The emulator instruction for raw instruction `r` (which is not a label marker),
/// given all raw instructions (for labels) and the parameters.
pub open spec fn sp_lower_inst(r: RawV, allr: Seq<RawV>, params: Seq<ParamV>) -> Result<InstView, ErrV> {
    let mn = r.mnemonic;
    if r.guard is Some {
        if mn != "bra"@ {
            Err(shape(r, "predicate guards are only supported on `bra` instructions"@))
        } else {
            sp_lower_branch(r, allr)
        }
    } else if mn == "ld"@ {
        if r.operands.len() != 2 { Err(count_err(r)) } else { sp_lower_ld(r, params) }
    } else if mn == "st"@ {
        if r.operands.len() != 2 { Err(count_err(r)) } else { sp_lower_st(r) }
    } else if mn == "mov"@ {
        if r.operands.len() != 2 { Err(count_err(r)) } else { sp_lower_mov(r) }
    } else if mn == "mad"@ {
        fixed_form(r, 4, seq!["lo"@, "s32"@], with_type(InstType::MadLoS32, regs4(r)))
    } else if mn == "fma"@ {
        if r.operands.len() != 4 {
            Err(count_err(r))
        } else if mods_are(r, seq!["rn"@, "f32"@]) {
            with_type(InstType::FmaRnF32, regs4(r))
        } else if mods_are(r, seq!["rm"@, "f32"@]) {
            with_type(InstType::FmaRmF32, regs4(r))
        } else {
            Err(unknown(r))
        }
    } else if mn == "add"@ {
        if r.operands.len() != 3 { Err(count_err(r)) } else { sp_lower_add(r) }
    } else if mn == "sub"@ {
        fixed_form(r, 3, seq!["f32"@], with_type(InstType::SubF32, regs3(r)))
    } else if mn == "mul"@ {
        if r.operands.len() != 3 { Err(count_err(r)) } else { sp_lower_mul(r) }
    } else if mn == "neg"@ {
        fixed_form(r, 2, seq!["f32"@], two_regs(r, InstType::NegF32))
    } else if mn == "setp"@ {
        if r.operands.len() != 3 { Err(count_err(r)) } else { sp_lower_setp(r) }
    } else if mn == "or"@ {
        fixed_form(r, 3, seq!["pred"@], with_type(InstType::OrPred, regs3(r)))
    } else if mn == "shl"@ {
        if r.operands.len() != 3 { Err(count_err(r)) } else { sp_lower_shl(r) }
    } else if mn == "cvta"@ {
        fixed_form(r, 2, seq!["to"@, "global"@, "u64"@], two_regs(r, InstType::CvtaToGlobal))
    } else if mn == "cvt"@ {
        fixed_form(r, 2, seq!["sat"@, "f32"@, "f32"@], two_regs(r, InstType::CvtSatF32F32))
    } else if mn == "ex2"@ {
        fixed_form(r, 2, seq!["approx"@, "f32"@], two_regs(r, InstType::Ex2ApproxF32))
    } else if mn == "rcp"@ {
        fixed_form(r, 2, seq!["rn"@, "f32"@], two_regs(r, InstType::RcpRnF32))
    } else if mn == "bra"@ {
        sp_lower_branch(r, allr)
    } else if mn == "ret"@ {
        Ok(inst(InstType::Ret, Seq::empty()))
    } else {
        Err(unknown(r))
    }
}

/// Lowers `raws[i..]`, skipping label markers; the first error stops it.
pub open spec fn sp_lower_from(allr: Seq<RawV>, i: int, params: Seq<ParamV>) -> Result<
    Seq<InstView>,
    ErrV,
>
    decreases allr.len() - i,
{
    if i < 0 || i >= allr.len() {
        Ok(Seq::empty())
    } else if is_marker(allr[i]) {
        sp_lower_from(allr, i + 1, params)
    } else {
        match sp_lower_inst(allr[i], allr, params) {
            Err(e) => Err(e),
            Ok(x) => match sp_lower_from(allr, i + 1, params) {
                Err(e) => Err(e),
                Ok(rest) => Ok(seq![x] + rest),
            },
        }
    }
}

/// The lowered kernel.
pub open spec fn sp_lower(p: ParseOutV) -> Result<KernelV, ErrV> {
    match sp_lower_from(p.raws, 0, p.params) {
        Err(e) => Err(e),
        Ok(insts) => Ok(KernelV { name: p.name, params: p.params, insts }),
    }
}

/// The label table: for each marker that names a label, in order, the label and
/// the number of real instructions before it.
pub open spec fn label_entries(raws: Seq<RawV>) -> Seq<(Seq<char>, nat)>
    decreases raws.len(),
{
    if raws.len() == 0 {
        Seq::empty()
    } else {
        let prev = label_entries(raws.drop_last());
        let r = raws.last();
        if is_marker(r) && r.operands.len() > 0 && r.operands[0] is Label {
            prev.push((r.operands[0]->Label_0, real_count(raws.drop_last())))
        } else {
            prev
        }
    }
}

/// The value of the last entry for `name`.
pub open spec fn last_entry(t: Seq<(Seq<char>, nat)>, name: Seq<char>) -> Option<nat>
    decreases t.len(),
{
    if t.len() == 0 {
        None
    } else if t.last().0 == name {
        Some(t.last().1)
    } else {
        last_entry(t.drop_last(), name)
    }
}

/// The label table's values.
pub open spec fn labels_view(t: Seq<(String, usize)>) -> Seq<(Seq<char>, nat)> {
    Seq::new(t.len(), |i: int| (t[i].0@, t[i].1 as nat))
}

/// Looking a label up in the table gives its program counter.
proof fn lemma_label_table(raws: Seq<RawV>, name: Seq<char>)
    ensures
        last_entry(label_entries(raws), name) == label_pc(raws, name),
    decreases raws.len(),
{
    if raws.len() > 0 {
        lemma_label_table(raws.drop_last(), name);
        let prev = label_entries(raws.drop_last());
        let r = raws.last();
        if is_marker(r) && r.operands.len() > 0 && r.operands[0] is Label {
            let e = (r.operands[0]->Label_0, real_count(raws.drop_last()));
            assert(prev.push(e).drop_last() =~= prev);
            assert(prev.push(e).last() == e);
        }
    }
}

/// The number of real instructions is at most the number of raw ones.
proof fn lemma_real_count_bound(raws: Seq<RawV>)
    ensures
        real_count(raws) <= raws.len(),
    decreases raws.len(),
{
    if raws.len() > 0 {
        lemma_real_count_bound(raws.drop_last());
    }
}

/// An `Ok`/`Err` result agrees with its value.
pub open spec fn agrees_slot(r: Result<usize, ParseError>, s: Result<usize, ErrV>) -> bool {
    match s {
        Ok(v) => r == Ok::<usize, ParseError>(v),
        Err(e) => r matches Err(x) && x@ == e,
    }
}

/// A lowered instruction agrees with its value.
pub open spec fn agrees_inst(r: Result<inst_info, ParseError>, s: Result<InstView, ErrV>) -> bool {
    match s {
        Ok(v) => r matches Ok(x) && x@ == v,
        Err(e) => r matches Err(x) && x@ == e,
    }
}

/// `.m1.m2...` for a modifier list.
pub open spec fn dotted(mods: Seq<Seq<char>>) -> Seq<char>
    decreases mods.len(),
{
    if mods.len() == 0 {
        Seq::empty()
    } else {
        dotted(mods.drop_last()) + seq!['.'] + mods.last()
    }
}

/// Builds the label table of a raw instruction list.
fn build_label_map(raws: &Vec<RawInstruction>) -> (t: Vec<(String, usize)>)
    ensures
        labels_view(t@) == label_entries(raws_view(raws@)),
{
    let ghost rv = raws_view(raws@);
    let mut t: Vec<(String, usize)> = Vec::new();
    let mut pc: usize = 0;
    let mut i: usize = 0;
    while i < raws.len()
        invariant
            rv == raws_view(raws@),
            i <= raws@.len(),
            pc as nat == real_count(rv.take(i as int)),
            pc <= i,
            labels_view(t@) == label_entries(rv.take(i as int)),
        decreases raws@.len() - i,
    {
        let r = &raws[i];
        proof {
            assert(rv.take(i + 1).drop_last() =~= rv.take(i as int));
            assert(rv.take(i + 1).last() == r@);
        }
        if str_eq(r.mnemonic.as_str(), ".label") {
            if r.operands.len() > 0 {
                match &r.operands[0] {
                    RawOperand::Label(s) => {
                        let ghost old_t = t@;
                        t.push((copy_string(s), pc));
                        assert(labels_view(t@) =~= labels_view(old_t).push((s@, pc as nat)));
                    },
                    _ => {},
                }
            }
        } else {
            pc = pc + 1;
        }
        i = i + 1;
    }
    assert(rv.take(raws@.len() as int) =~= rv);
    t
}

/// The program counter recorded for `name`, if any (the last entry wins).
fn lookup_label(t: &Vec<(String, usize)>, name: &String) -> (r: Option<usize>)
    ensures
        match last_entry(labels_view(t@), name@) {
            Some(pc) => r matches Some(x) && x as nat == pc,
            None => r is None,
        },
{
    let ghost lv = labels_view(t@);
    let mut i: usize = t.len();
    assert(lv.take(i as int) =~= lv);
    while i > 0
        invariant
            lv == labels_view(t@),
            i <= t@.len(),
            last_entry(lv, name@) == last_entry(lv.take(i as int), name@),
        decreases i,
    {
        i = i - 1;
        proof {
            assert(lv.take(i + 1).drop_last() =~= lv.take(i as int));
            assert(lv.take(i + 1).last() == lv[i as int]);
        }
        if str_eq(t[i].0.as_str(), name.as_str()) {
            return Some(t[i].1);
        }
    }
    None
}

/// The index of the last parameter named `name`.
fn find_param(params: &Vec<ParamInfo>, name: &String) -> (r: Option<usize>)
    ensures
        match param_index(params_view(params@), name@) {
            Some(k) => r == Some(k as usize),
            None => r is None,
        },
{
    let ghost pv = params_view(params@);
    let mut found: Option<usize> = None;
    let mut i: usize = 0;
    while i < params.len()
        invariant
            pv == params_view(params@),
            i <= params@.len(),
            match param_index(pv.take(i as int), name@) {
                Some(k) => found == Some(k as usize),
                None => found is None,
            },
        decreases params@.len() - i,
    {
        proof {
            assert(pv.take(i + 1).drop_last() =~= pv.take(i as int));
            assert(pv.take(i + 1).last() == params@[i as int]@);
        }
        if str_eq(params[i].name.as_str(), name.as_str()) {
            found = Some(i);
        }
        i = i + 1;
    }
    assert(pv.take(params@.len() as int) =~= pv);
    found
}

/// The opcode as written, `mnemonic.m1.m2...`, for messages.
fn format_opcode(raw: &RawInstruction) -> (s: String)
    ensures
        s@ == raw@.mnemonic + dotted(raw@.modifiers),
{
    let mut s = copy_string(&raw.mnemonic);
    let ghost mv = strings_view(raw.modifiers@);
    let mut i: usize = 0;
    while i < raw.modifiers.len()
        invariant
            mv == strings_view(raw.modifiers@),
            i <= raw.modifiers@.len(),
            s@ == raw@.mnemonic + dotted(mv.take(i as int)),
        decreases raw.modifiers@.len() - i,
    {
        proof {
            assert(mv.take(i + 1).drop_last() =~= mv.take(i as int));
            assert(mv.take(i + 1).last() == raw.modifiers@[i as int]@);
        }
        let ghost before = s@;
        s.append(".");
        s.append(raw.modifiers[i].as_str());
        proof {
            reveal_strlit(".");
            assert(s@ =~= raw@.mnemonic + dotted(mv.take(i + 1)));
        }
        i = i + 1;
    }
    assert(mv.take(raw.modifiers@.len() as int) =~= mv);
    s
}

/// The "unknown opcode" error for `raw`.
fn unknown_opcode(raw: &RawInstruction) -> (e: ParseError)
    ensures
        e@ == unknown(raw@),
{
    ParseError::UnknownOpcode {
        line: raw.line,
        mnemonic: copy_string(&raw.mnemonic),
        modifiers: copy_strings(&raw.modifiers),
    }
}

/// The "unsupported operand shape" error for `raw`, with its reason.
fn bad_shape(raw: &RawInstruction, reason: &str) -> (e: ParseError)
    ensures
        e@ == shape(raw@, reason@),
{
    ParseError::UnsupportedOperandShape {
        line: raw.line,
        opcode: format_opcode(raw),
        reason: String::from_str(reason),
    }
}

/// Whether the modifiers are exactly `[a]`.
fn mods1(raw: &RawInstruction, a: &str) -> (b: bool)
    ensures
        b == mods_are(raw@, seq![a@]),
{
    let ghost mv = strings_view(raw.modifiers@);
    assert(raw@.modifiers == mv);
    if raw.modifiers.len() == 1 && str_eq(raw.modifiers[0].as_str(), a) {
        assert(mv =~= seq![a@]);
        true
    } else {
        proof {
            if mv == seq![a@] {
                assert(mv[0] == a@);
            }
        }
        false
    }
}

/// Whether the modifiers are exactly `[a, b]`.
fn mods2(raw: &RawInstruction, a: &str, b: &str) -> (r: bool)
    ensures
        r == mods_are(raw@, seq![a@, b@]),
{
    let ghost mv = strings_view(raw.modifiers@);
    assert(raw@.modifiers == mv);
    if raw.modifiers.len() == 2 && str_eq(raw.modifiers[0].as_str(), a) && str_eq(
        raw.modifiers[1].as_str(),
        b,
    ) {
        assert(mv =~= seq![a@, b@]);
        true
    } else {
        proof {
            if mv == seq![a@, b@] {
                assert(mv[0] == a@);
                assert(mv[1] == b@);
            }
        }
        false
    }
}

/// Whether the modifiers are exactly `[a, b, c]`.
fn mods3(raw: &RawInstruction, a: &str, b: &str, c: &str) -> (r: bool)
    ensures
        r == mods_are(raw@, seq![a@, b@, c@]),
{
    let ghost mv = strings_view(raw.modifiers@);
    assert(raw@.modifiers == mv);
    if raw.modifiers.len() == 3 && str_eq(raw.modifiers[0].as_str(), a) && str_eq(
        raw.modifiers[1].as_str(),
        b,
    ) && str_eq(raw.modifiers[2].as_str(), c) {
        assert(mv =~= seq![a@, b@, c@]);
        true
    } else {
        proof {
            if mv == seq![a@, b@, c@] {
                assert(mv[0] == a@);
                assert(mv[1] == b@);
                assert(mv[2] == c@);
            }
        }
        false
    }
}

fn args0() -> (v: Vec<usize>)
    ensures
        v@ == Seq::<usize>::empty(),
{
    Vec::new()
}

fn args1(a: usize) -> (v: Vec<usize>)
    ensures
        v@ == seq![a],
{
    let mut v: Vec<usize> = Vec::new();
    v.push(a);
    assert(v@ =~= seq![a]);
    v
}

fn args2(a: usize, b: usize) -> (v: Vec<usize>)
    ensures
        v@ == seq![a, b],
{
    let mut v: Vec<usize> = Vec::new();
    v.push(a);
    v.push(b);
    assert(v@ =~= seq![a, b]);
    v
}

fn args3(a: usize, b: usize, c: usize) -> (v: Vec<usize>)
    ensures
        v@ == seq![a, b, c],
{
    let mut v: Vec<usize> = Vec::new();
    v.push(a);
    v.push(b);
    v.push(c);
    assert(v@ =~= seq![a, b, c]);
    v
}

/// A register operand's index.
fn reg_index(op: &RawOperand, line: usize) -> (r: Result<usize, ParseError>)
    ensures
        agrees_slot(r, reg_of(op@, line as int)),
{
    match op {
        RawOperand::Register { index, .. } => Ok(*index as usize),
        _ => {
            let mut reason = String::from_str("expected register, found ");
            let d = operand_text(op);
            reason.append(d.as_str());
            Err(ParseError::UnsupportedOperandShape { line, opcode: String::from_str("<operand>"), reason })
        },
    }
}

/// The address register of a `[%reg]` operand.
fn memref_reg(op: &RawOperand, line: usize) -> (r: Result<usize, ParseError>)
    ensures
        agrees_slot(r, memref_of(op@, line as int)),
{
    proof {
        reveal_with_fuel(RawOperand::view_of, 2);
    }
    match op {
        RawOperand::MemoryRef(inner) => match &**inner {
            RawOperand::Register { index, .. } => Ok(*index as usize),
            other => {
                let mut reason = String::from_str("memory reference must wrap a register, found ");
                let d = operand_text(other);
                reason.append(d.as_str());
                Err(ParseError::UnsupportedOperandShape { line, opcode: String::from_str("<memref>"), reason })
            },
        },
        _ => {
            let mut reason = String::from_str("expected `[%reg]`, found ");
            let d = operand_text(op);
            reason.append(d.as_str());
            Err(ParseError::UnsupportedOperandShape { line, opcode: String::from_str("<memref>"), reason })
        },
    }
}

/// The parameter index of a `[name]` operand.
fn param_ref(op: &RawOperand, params: &Vec<ParamInfo>, line: usize) -> (r: Result<usize, ParseError>)
    ensures
        agrees_slot(r, param_of(op@, params_view(params@), line as int)),
{
    proof {
        reveal_with_fuel(RawOperand::view_of, 2);
    }
    match op {
        RawOperand::MemoryRef(inner) => match &**inner {
            RawOperand::Identifier(name) => match find_param(params, name) {
                Some(i) => Ok(i),
                None => Err(ParseError::UndefinedParam { line, param: copy_string(name) }),
            },
            other => {
                let mut reason = String::from_str("expected `[param_name]`, found `[");
                let d = operand_text(other);
                reason.append(d.as_str());
                reason.append("]`");
                Err(ParseError::UnsupportedOperandShape { line, opcode: String::from_str("ld.param"), reason })
            },
        },
        _ => {
            let mut reason = String::from_str("expected `[param_name]`, found ");
            let d = operand_text(op);
            reason.append(d.as_str());
            Err(ParseError::UnsupportedOperandShape { line, opcode: String::from_str("ld.param"), reason })
        },
    }
}

/// An immediate as an operand slot.
fn imm_to_usize(imm: ImmediateValue) -> (u: usize)
    ensures
        u == imm_of(imm),
{
    match imm {
        ImmediateValue::IntZero => 0,
        ImmediateValue::Int(v) => v as usize,
        ImmediateValue::F32Bits(bits) => bits as usize,
    }
}

/// Checks that `raw` has exactly `n` operands.
fn expect_operand_count(raw: &RawInstruction, n: usize) -> (r: Result<(), ParseError>)
    ensures
        r is Ok <==> raw@.operands.len() == n,
        r matches Err(e) ==> e@ == count_err(raw@),
{
    if raw.operands.len() != n {
        Err(bad_shape(raw, "wrong number of operands"))
    } else {
        Ok(())
    }
}

/// The first three operands as register indices.
fn collect_three_regs(raw: &RawInstruction) -> (r: Result<Vec<usize>, ParseError>)
    requires
        raw@.operands.len() >= 3,
    ensures
        match regs3(raw@) {
            Ok(s) => r matches Ok(v) && v@ == s,
            Err(e) => r matches Err(x) && x@ == e,
        },
{
    let a = match reg_index(&raw.operands[0], raw.line) {
        Ok(a) => a,
        Err(e) => return Err(e),
    };
    let b = match reg_index(&raw.operands[1], raw.line) {
        Ok(b) => b,
        Err(e) => return Err(e),
    };
    let c = match reg_index(&raw.operands[2], raw.line) {
        Ok(c) => c,
        Err(e) => return Err(e),
    };
    Ok(args3(a, b, c))
}

/// The first four operands as register indices.
fn collect_four_regs(raw: &RawInstruction) -> (r: Result<Vec<usize>, ParseError>)
    requires
        raw@.operands.len() >= 4,
    ensures
        match regs4(raw@) {
            Ok(s) => r matches Ok(v) && v@ == s,
            Err(e) => r matches Err(x) && x@ == e,
        },
{
    let mut v = match collect_three_regs(raw) {
        Ok(v) => v,
        Err(e) => return Err(e),
    };
    let d = match reg_index(&raw.operands[3], raw.line) {
        Ok(d) => d,
        Err(e) => return Err(e),
    };
    v.push(d);
    Ok(v)
}

/// An instruction of type `t` over register operands (or the error).
fn typed(t: InstType, a: Result<Vec<usize>, ParseError>) -> (r: Result<inst_info, ParseError>)
    ensures
        a matches Ok(v) ==> r matches Ok(x) && x@ == inst(t, v@),
        a matches Err(e) ==> r matches Err(x) && x@ == e@,
{
    match a {
        Ok(v) => Ok(make_inst(t, v)),
        Err(e) => Err(e),
    }
}

/// `op %d, %s` of type `t`.
fn two_regs_exec(raw: &RawInstruction, t: InstType) -> (r: Result<inst_info, ParseError>)
    requires
        raw@.operands.len() >= 2,
    ensures
        agrees_inst(r, two_regs(raw@, t)),
{
    let d = match reg_index(&raw.operands[0], raw.line) {
        Ok(d) => d,
        Err(e) => return Err(e),
    };
    let s = match reg_index(&raw.operands[1], raw.line) {
        Ok(s) => s,
        Err(e) => return Err(e),
    };
    Ok(make_inst(t, args2(d, s)))
}

/// `op %d, %a, <register or immediate>`.
fn reg_or_imm_exec(raw: &RawInstruction, t_reg: InstType, t_imm: InstType, reason: &str) -> (r:
    Result<inst_info, ParseError>)
    requires
        raw@.operands.len() >= 3,
    ensures
        agrees_inst(r, reg_or_imm(raw@, t_reg, t_imm, reason@)),
{
    let d = match reg_index(&raw.operands[0], raw.line) {
        Ok(d) => d,
        Err(e) => return Err(e),
    };
    let a = match reg_index(&raw.operands[1], raw.line) {
        Ok(a) => a,
        Err(e) => return Err(e),
    };
    match &raw.operands[2] {
        RawOperand::Register { index, .. } => Ok(make_inst(t_reg, args3(d, a, *index as usize))),
        RawOperand::Immediate(v) => Ok(make_inst(t_imm, args3(d, a, imm_to_usize(*v)))),
        _ => Err(bad_shape(raw, reason)),
    }
}

/// `ld.param.{u64,u32,f32} %r, [param]` or `ld.global[.nc].f32 %f, [%rd]`.
fn lower_ld(raw: &RawInstruction, params: &Vec<ParamInfo>) -> (r: Result<inst_info, ParseError>)
    ensures
        agrees_inst(
            r,
            if raw@.operands.len() != 2 {
                Err(count_err(raw@))
            } else {
                sp_lower_ld(raw@, params_view(params@))
            },
        ),
{
    if let Err(e) = expect_operand_count(raw, 2) {
        return Err(e);
    }
    let dest = match reg_index(&raw.operands[0], raw.line) {
        Ok(d) => d,
        Err(e) => return Err(e),
    };
    if mods2(raw, "param", "u64") {
        match param_ref(&raw.operands[1], params, raw.line) {
            Ok(i) => Ok(make_inst(InstType::LdParamU64, args2(dest, i))),
            Err(e) => Err(e),
        }
    } else if mods2(raw, "param", "u32") {
        match param_ref(&raw.operands[1], params, raw.line) {
            Ok(i) => Ok(make_inst(InstType::LdParamU32, args2(dest, i))),
            Err(e) => Err(e),
        }
    } else if mods2(raw, "param", "f32") {
        match param_ref(&raw.operands[1], params, raw.line) {
            Ok(i) => Ok(make_inst(InstType::LdParamF32, args2(dest, i))),
            Err(e) => Err(e),
        }
    } else if mods2(raw, "global", "f32") {
        match memref_reg(&raw.operands[1], raw.line) {
            Ok(a) => Ok(make_inst(InstType::LdGlobalF32, args2(dest, a))),
            Err(e) => Err(e),
        }
    } else if mods3(raw, "global", "nc", "f32") {
        match memref_reg(&raw.operands[1], raw.line) {
            Ok(a) => Ok(make_inst(InstType::LdGlobalNcF32, args2(dest, a))),
            Err(e) => Err(e),
        }
    } else {
        Err(unknown_opcode(raw))
    }
}

/// `st.global.f32 [%rd], %f`: the address first, then the value.
fn lower_st(raw: &RawInstruction) -> (r: Result<inst_info, ParseError>)
    ensures
        agrees_inst(
            r,
            if raw@.operands.len() != 2 {
                Err(count_err(raw@))
            } else {
                sp_lower_st(raw@)
            },
        ),
{
    if let Err(e) = expect_operand_count(raw, 2) {
        return Err(e);
    }
    if mods2(raw, "global", "f32") {
        let a = match memref_reg(&raw.operands[0], raw.line) {
            Ok(a) => a,
            Err(e) => return Err(e),
        };
        let v = match reg_index(&raw.operands[1], raw.line) {
            Ok(v) => v,
            Err(e) => return Err(e),
        };
        Ok(make_inst(InstType::StGlobalF32, args2(a, v)))
    } else {
        Err(unknown_opcode(raw))
    }
}

/// The read instruction of a special register.
fn special_mov_exec(sr: SpecialReg) -> (t: InstType)
    ensures
        t == special_mov(sr),
{
    match sr {
        SpecialReg::TidX => InstType::MovTidX,
        SpecialReg::TidY => InstType::MovTidY,
        SpecialReg::TidZ => InstType::MovTidZ,
        SpecialReg::CtaidX => InstType::MovCtaidX,
        SpecialReg::CtaidY => InstType::MovCtaidY,
        SpecialReg::CtaidZ => InstType::MovCtaidZ,
        SpecialReg::NtidX => InstType::MovNtidX,
        SpecialReg::NtidY => InstType::MovNtidY,
        SpecialReg::NtidZ => InstType::MovNtidZ,
        SpecialReg::NctaidX => InstType::MovNctaidX,
        SpecialReg::NctaidY => InstType::MovNctaidY,
        SpecialReg::NctaidZ => InstType::MovNctaidZ,
    }
}

/// `mov`: special-register reads, register copies, immediates and bit casts.
fn lower_mov(raw: &RawInstruction) -> (r: Result<inst_info, ParseError>)
    ensures
        agrees_inst(
            r,
            if raw@.operands.len() != 2 {
                Err(count_err(raw@))
            } else {
                sp_lower_mov(raw@)
            },
        ),
{
    if let Err(e) = expect_operand_count(raw, 2) {
        return Err(e);
    }
    let src = &raw.operands[1];
    if let RawOperand::SpecialReg(sr) = src {
        let d = match reg_index(&raw.operands[0], raw.line) {
            Ok(d) => d,
            Err(e) => return Err(e),
        };
        return Ok(make_inst(special_mov_exec(*sr), args1(d)));
    }
    if mods1(raw, "u32") {
        let d = match reg_index(&raw.operands[0], raw.line) {
            Ok(d) => d,
            Err(e) => return Err(e),
        };
        match src {
            RawOperand::Immediate(v) => Ok(make_inst(InstType::MovU32Imm, args2(d, imm_to_usize(*v)))),
            RawOperand::Register { bank: RegBank::R, index } => Ok(
                make_inst(InstType::MovU32, args2(d, *index as usize)),
            ),
            _ => Err(bad_shape(raw, "mov.u32 source must be an r-register or immediate")),
        }
    } else if mods1(raw, "u64") {
        let d = match reg_index(&raw.operands[0], raw.line) {
            Ok(d) => d,
            Err(e) => return Err(e),
        };
        match src {
            RawOperand::Immediate(v) => Ok(make_inst(InstType::MovU64Imm, args2(d, imm_to_usize(*v)))),
            RawOperand::Register { bank: RegBank::Rd, index } => Ok(
                make_inst(InstType::MovU64, args2(d, *index as usize)),
            ),
            _ => Err(bad_shape(raw, "mov.u64 source must be an rd-register or immediate")),
        }
    } else if mods1(raw, "f32") {
        let d = match reg_index(&raw.operands[0], raw.line) {
            Ok(d) => d,
            Err(e) => return Err(e),
        };
        match src {
            RawOperand::Immediate(v) => Ok(make_inst(InstType::MovF32Imm, args2(d, imm_to_usize(*v)))),
            RawOperand::Register { bank: RegBank::F, index } => Ok(
                make_inst(InstType::MovF32, args2(d, *index as usize)),
            ),
            RawOperand::Register { bank: RegBank::R, index } => Ok(
                make_inst(InstType::MovF32FromB32, args2(d, *index as usize)),
            ),
            _ => Err(bad_shape(raw, "unsupported source operand for mov.f32")),
        }
    } else if mods1(raw, "b32") {
        let d = match reg_index(&raw.operands[0], raw.line) {
            Ok(d) => d,
            Err(e) => return Err(e),
        };
        match src {
            RawOperand::Register { bank: RegBank::F, index } => Ok(
                make_inst(InstType::MovB32FromF32, args2(d, *index as usize)),
            ),
            _ => Err(bad_shape(raw, "unsupported source operand for mov.b32")),
        }
    } else {
        Err(unknown_opcode(raw))
    }
}

/// `mad.lo.s32 %d, %a, %b, %c`.
fn lower_mad(raw: &RawInstruction) -> (r: Result<inst_info, ParseError>)
    ensures
        agrees_inst(r, fixed_form(raw@, 4, seq!["lo"@, "s32"@], with_type(InstType::MadLoS32, regs4(raw@)))),
{
    if let Err(e) = expect_operand_count(raw, 4) {
        return Err(e);
    }
    if mods2(raw, "lo", "s32") {
        typed(InstType::MadLoS32, collect_four_regs(raw))
    } else {
        Err(unknown_opcode(raw))
    }
}

/// `sub.f32 %d, %a, %b`.
fn lower_sub(raw: &RawInstruction) -> (r: Result<inst_info, ParseError>)
    ensures
        agrees_inst(r, fixed_form(raw@, 3, seq!["f32"@], with_type(InstType::SubF32, regs3(raw@)))),
{
    if let Err(e) = expect_operand_count(raw, 3) {
        return Err(e);
    }
    if mods1(raw, "f32") {
        typed(InstType::SubF32, collect_three_regs(raw))
    } else {
        Err(unknown_opcode(raw))
    }
}

/// `neg.f32 %d, %a`.
fn lower_neg(raw: &RawInstruction) -> (r: Result<inst_info, ParseError>)
    ensures
        agrees_inst(r, fixed_form(raw@, 2, seq!["f32"@], two_regs(raw@, InstType::NegF32))),
{
    if let Err(e) = expect_operand_count(raw, 2) {
        return Err(e);
    }
    if mods1(raw, "f32") {
        two_regs_exec(raw, InstType::NegF32)
    } else {
        Err(unknown_opcode(raw))
    }
}

/// `or.pred %p, %q, %s`.
fn lower_or(raw: &RawInstruction) -> (r: Result<inst_info, ParseError>)
    ensures
        agrees_inst(r, fixed_form(raw@, 3, seq!["pred"@], with_type(InstType::OrPred, regs3(raw@)))),
{
    if let Err(e) = expect_operand_count(raw, 3) {
        return Err(e);
    }
    if mods1(raw, "pred") {
        typed(InstType::OrPred, collect_three_regs(raw))
    } else {
        Err(unknown_opcode(raw))
    }
}

/// `cvta.to.global.u64 %d, %s`.
fn lower_cvta(raw: &RawInstruction) -> (r: Result<inst_info, ParseError>)
    ensures
        agrees_inst(r, fixed_form(raw@, 2, seq!["to"@, "global"@, "u64"@], two_regs(raw@, InstType::CvtaToGlobal))),
{
    if let Err(e) = expect_operand_count(raw, 2) {
        return Err(e);
    }
    if mods3(raw, "to", "global", "u64") {
        two_regs_exec(raw, InstType::CvtaToGlobal)
    } else {
        Err(unknown_opcode(raw))
    }
}

/// `cvt.sat.f32.f32 %d, %s`.
fn lower_cvt(raw: &RawInstruction) -> (r: Result<inst_info, ParseError>)
    ensures
        agrees_inst(r, fixed_form(raw@, 2, seq!["sat"@, "f32"@, "f32"@], two_regs(raw@, InstType::CvtSatF32F32))),
{
    if let Err(e) = expect_operand_count(raw, 2) {
        return Err(e);
    }
    if mods3(raw, "sat", "f32", "f32") {
        two_regs_exec(raw, InstType::CvtSatF32F32)
    } else {
        Err(unknown_opcode(raw))
    }
}

/// `ex2.approx.f32 %d, %s`.
fn lower_ex2(raw: &RawInstruction) -> (r: Result<inst_info, ParseError>)
    ensures
        agrees_inst(r, fixed_form(raw@, 2, seq!["approx"@, "f32"@], two_regs(raw@, InstType::Ex2ApproxF32))),
{
    if let Err(e) = expect_operand_count(raw, 2) {
        return Err(e);
    }
    if mods2(raw, "approx", "f32") {
        two_regs_exec(raw, InstType::Ex2ApproxF32)
    } else {
        Err(unknown_opcode(raw))
    }
}

/// `rcp.rn.f32 %d, %s`.
fn lower_rcp(raw: &RawInstruction) -> (r: Result<inst_info, ParseError>)
    ensures
        agrees_inst(r, fixed_form(raw@, 2, seq!["rn"@, "f32"@], two_regs(raw@, InstType::RcpRnF32))),
{
    if let Err(e) = expect_operand_count(raw, 2) {
        return Err(e);
    }
    if mods2(raw, "rn", "f32") {
        two_regs_exec(raw, InstType::RcpRnF32)
    } else {
        Err(unknown_opcode(raw))
    }
}

/// `fma.rn.f32` or `fma.rm.f32 %d, %a, %b, %c`.
fn lower_fma(raw: &RawInstruction) -> (r: Result<inst_info, ParseError>)
    ensures
        agrees_inst(
            r,
            if raw@.operands.len() != 4 {
                Err(count_err(raw@))
            } else if mods_are(raw@, seq!["rn"@, "f32"@]) {
                with_type(InstType::FmaRnF32, regs4(raw@))
            } else if mods_are(raw@, seq!["rm"@, "f32"@]) {
                with_type(InstType::FmaRmF32, regs4(raw@))
            } else {
                Err(unknown(raw@))
            },
        ),
{
    if let Err(e) = expect_operand_count(raw, 4) {
        return Err(e);
    }
    if mods2(raw, "rn", "f32") {
        typed(InstType::FmaRnF32, collect_four_regs(raw))
    } else if mods2(raw, "rm", "f32") {
        typed(InstType::FmaRmF32, collect_four_regs(raw))
    } else {
        Err(unknown_opcode(raw))
    }
}

/// `add.s32`, `add.s64` or `add.f32`, with a register or immediate last operand
/// where the type allows it.
fn lower_add(raw: &RawInstruction) -> (r: Result<inst_info, ParseError>)
    ensures
        agrees_inst(
            r,
            if raw@.operands.len() != 3 {
                Err(count_err(raw@))
            } else {
                sp_lower_add(raw@)
            },
        ),
{
    if let Err(e) = expect_operand_count(raw, 3) {
        return Err(e);
    }
    if mods1(raw, "s32") {
        reg_or_imm_exec(
            raw,
            InstType::AddS32,
            InstType::AddS32Imm,
            "third operand of add.s32 must be register or immediate",
        )
    } else if mods1(raw, "s64") {
        typed(InstType::AddS64, collect_three_regs(raw))
    } else if mods1(raw, "f32") {
        reg_or_imm_exec(
            raw,
            InstType::AddF32,
            InstType::AddF32Imm,
            "third operand of add.f32 must be register or immediate",
        )
    } else {
        Err(unknown_opcode(raw))
    }
}

/// `mul.f32 %d, %a, %b` or `mul.wide.s32 %rd, %r, <imm>`.
fn lower_mul(raw: &RawInstruction) -> (r: Result<inst_info, ParseError>)
    ensures
        agrees_inst(
            r,
            if raw@.operands.len() != 3 {
                Err(count_err(raw@))
            } else {
                sp_lower_mul(raw@)
            },
        ),
{
    if let Err(e) = expect_operand_count(raw, 3) {
        return Err(e);
    }
    if mods1(raw, "f32") {
        typed(InstType::MulF32, collect_three_regs(raw))
    } else if mods2(raw, "wide", "s32") {
        let d = match reg_index(&raw.operands[0], raw.line) {
            Ok(d) => d,
            Err(e) => return Err(e),
        };
        let a = match reg_index(&raw.operands[1], raw.line) {
            Ok(a) => a,
            Err(e) => return Err(e),
        };
        match &raw.operands[2] {
            RawOperand::Immediate(v) => Ok(
                make_inst(InstType::MulWideS32, args3(d, a, imm_to_usize(*v))),
            ),
            _ => Err(bad_shape(raw, "mul.wide.s32 only supported with immediate third operand")),
        }
    } else {
        Err(unknown_opcode(raw))
    }
}

/// `setp.ge.s32` or `setp.lt.s32 %p, %a, <register or immediate>`.
fn lower_setp(raw: &RawInstruction) -> (r: Result<inst_info, ParseError>)
    ensures
        agrees_inst(
            r,
            if raw@.operands.len() != 3 {
                Err(count_err(raw@))
            } else {
                sp_lower_setp(raw@)
            },
        ),
{
    if let Err(e) = expect_operand_count(raw, 3) {
        return Err(e);
    }
    let p = match reg_index(&raw.operands[0], raw.line) {
        Ok(p) => p,
        Err(e) => return Err(e),
    };
    let a = match reg_index(&raw.operands[1], raw.line) {
        Ok(a) => a,
        Err(e) => return Err(e),
    };
    if mods2(raw, "ge", "s32") {
        match &raw.operands[2] {
            RawOperand::Register { index, .. } => Ok(
                make_inst(InstType::SetpGeS32, args3(p, a, *index as usize)),
            ),
            RawOperand::Immediate(v) => Ok(
                make_inst(InstType::SetpGeS32Imm, args3(p, a, imm_to_usize(*v))),
            ),
            _ => Err(bad_shape(raw, "third operand of setp.ge.s32 must be register or immediate")),
        }
    } else if mods2(raw, "lt", "s32") {
        match &raw.operands[2] {
            RawOperand::Register { index, .. } => Ok(
                make_inst(InstType::SetpLtS32, args3(p, a, *index as usize)),
            ),
            RawOperand::Immediate(v) => Ok(
                make_inst(InstType::SetpLtS32Imm, args3(p, a, imm_to_usize(*v))),
            ),
            _ => Err(bad_shape(raw, "third operand of setp.lt.s32 must be register or immediate")),
        }
    } else {
        Err(unknown_opcode(raw))
    }
}

/// `shl.b32 %d, %a, <register or immediate>`.
fn lower_shl(raw: &RawInstruction) -> (r: Result<inst_info, ParseError>)
    ensures
        agrees_inst(
            r,
            if raw@.operands.len() != 3 {
                Err(count_err(raw@))
            } else {
                sp_lower_shl(raw@)
            },
        ),
{
    if let Err(e) = expect_operand_count(raw, 3) {
        return Err(e);
    }
    if mods1(raw, "b32") {
        let d = match reg_index(&raw.operands[0], raw.line) {
            Ok(d) => d,
            Err(e) => return Err(e),
        };
        let a = match reg_index(&raw.operands[1], raw.line) {
            Ok(a) => a,
            Err(e) => return Err(e),
        };
        match &raw.operands[2] {
            RawOperand::Immediate(v) => Ok(make_inst(InstType::ShlB32, args3(d, a, imm_to_usize(*v)))),
            RawOperand::Register { index, .. } => Ok(
                make_inst(InstType::ShlB32, args3(d, a, *index as usize)),
            ),
            _ => Err(bad_shape(raw, "shl.b32 third operand must be register or immediate")),
        }
    } else {
        Err(unknown_opcode(raw))
    }
}

/// `bra $L`, `@%p bra $L` or `@!%p bra $L`, with the label resolved to its
/// program counter.
fn lower_branch(raw: &RawInstruction, labels: &Vec<(String, usize)>, Ghost(allr): Ghost<Seq<RawV>>) -> (r:
    Result<inst_info, ParseError>)
    requires
        labels_view(labels@) == label_entries(allr),
    ensures
        agrees_inst(r, sp_lower_branch(raw@, allr)),
{
    if let Err(e) = expect_operand_count(raw, 1) {
        return Err(e);
    }
    match &raw.operands[0] {
        RawOperand::Label(name) => {
            proof {
                lemma_label_table(allr, name@);
            }
            match lookup_label(labels, name) {
                None => Err(ParseError::UndefinedLabel { line: raw.line, label: copy_string(name) }),
                Some(target) => match raw.predicate_guard {
                    Some(g) => if !g.negated {
                        Ok(make_inst(InstType::BraIf, args2(g.reg as usize, target)))
                    } else {
                        Ok(make_inst(InstType::BraIfNot, args2(g.reg as usize, target)))
                    },
                    None => Ok(make_inst(InstType::Bra, args1(target))),
                },
            }
        },
        _ => Err(bad_shape(raw, "bra target must be a label")),
    }
}

/// Lowers one raw instruction (not a label marker).
fn lower_instruction(
    raw: &RawInstruction,
    labels: &Vec<(String, usize)>,
    params: &Vec<ParamInfo>,
    Ghost(allr): Ghost<Seq<RawV>>,
) -> (r: Result<inst_info, ParseError>)
    requires
        labels_view(labels@) == label_entries(allr),
    ensures
        agrees_inst(r, sp_lower_inst(raw@, allr, params_view(params@))),
{
    if let Some(_) = raw.predicate_guard {
        if !str_eq(raw.mnemonic.as_str(), "bra") {
            return Err(bad_shape(raw, "predicate guards are only supported on `bra` instructions"));
        }
        return lower_branch(raw, labels, Ghost(allr));
    }
    let mn = raw.mnemonic.as_str();
    if str_eq(mn, "ld") {
        lower_ld(raw, params)
    } else if str_eq(mn, "st") {
        lower_st(raw)
    } else if str_eq(mn, "mov") {
        lower_mov(raw)
    } else if str_eq(mn, "mad") {
        lower_mad(raw)
    } else if str_eq(mn, "fma") {
        lower_fma(raw)
    } else if str_eq(mn, "add") {
        lower_add(raw)
    } else if str_eq(mn, "sub") {
        lower_sub(raw)
    } else if str_eq(mn, "mul") {
        lower_mul(raw)
    } else if str_eq(mn, "neg") {
        lower_neg(raw)
    } else if str_eq(mn, "setp") {
        lower_setp(raw)
    } else if str_eq(mn, "or") {
        lower_or(raw)
    } else if str_eq(mn, "shl") {
        lower_shl(raw)
    } else if str_eq(mn, "cvta") {
        lower_cvta(raw)
    } else if str_eq(mn, "cvt") {
        lower_cvt(raw)
    } else if str_eq(mn, "ex2") {
        lower_ex2(raw)
    } else if str_eq(mn, "rcp") {
        lower_rcp(raw)
    } else if str_eq(mn, "bra") {
        lower_branch(raw, labels, Ghost(allr))
    } else if str_eq(mn, "ret") {
        Ok(make_inst(InstType::Ret, args0()))
    } else {
        Err(unknown_opcode(raw))
    }
}

/// Lowers a parse result to a kernel: label markers are dropped, labels become
/// the program counters of the instructions that follow them, and the first
/// instruction that cannot be lowered gives the error.
pub fn lower(parse_out: ParseOutput) -> (r: Result<ParsedKernel, ParseError>)
    ensures
        match sp_lower(parse_out@) {
            Ok(k) => r matches Ok(x) && x@ == k,
            Err(e) => r matches Err(x) && x@ == e,
        },
{
    let ghost allr = raws_view(parse_out.raw_instructions@);
    let ghost pv = params_view(parse_out.params@);
    let labels = build_label_map(&parse_out.raw_instructions);
    let mut instructions: Vec<inst_info> = Vec::new();
    let mut i: usize = 0;
    while i < parse_out.raw_instructions.len()
        invariant
            allr == raws_view(parse_out.raw_instructions@),
            pv == params_view(parse_out.params@),
            labels_view(labels@) == label_entries(allr),
            i <= allr.len(),
            sp_lower_from(allr, 0, pv) == match sp_lower_from(allr, i as int, pv) {
                Err(e) => Err(e),
                Ok(rest) => Ok(insts_view(instructions@) + rest),
            },
        decreases allr.len() - i,
    {
        let raw = &parse_out.raw_instructions[i];
        assert(allr[i as int] == raw@);
        if !str_eq(raw.mnemonic.as_str(), ".label") {
            match lower_instruction(raw, &labels, &parse_out.params, Ghost(allr)) {
                Ok(x) => {
                    let ghost before = insts_view(instructions@);
                    instructions.push(x);
                    proof {
                        assert(insts_view(instructions@) =~= before.push(x@));
                        match sp_lower_from(allr, i + 1, pv) {
                            Ok(rest) => {
                                assert(before.push(x@) + rest =~= before + (seq![x@] + rest));
                            },
                            Err(_) => {},
                        }
                    }
                },
                Err(e) => {
                    return Err(e);
                },
            }
        }
        i = i + 1;
    }
    assert(insts_view(instructions@) + Seq::<InstView>::empty() =~= insts_view(instructions@));
    Ok(ParsedKernel { name: parse_out.name, params: parse_out.params, instructions })
}

// ---------------------------------------------------------------------------
// Laws.
// ---------------------------------------------------------------------------

proof fn lemma_real_count_take(raws: Seq<RawV>, i: int)
    requires
        0 <= i < raws.len(),
    ensures
        real_count(raws.take(i + 1)) == real_count(raws.take(i)) + if is_marker(raws[i]) {
            0nat
        } else {
            1nat
        },
{
    assert(raws.take(i + 1).drop_last() =~= raws.take(i));
}

proof fn lemma_lower_from_count(allr: Seq<RawV>, i: int, params: Seq<ParamV>)
    requires
        0 <= i <= allr.len(),
    ensures
        sp_lower_from(allr, i, params) matches Ok(insts) ==> insts.len() + real_count(allr.take(i))
            == real_count(allr),
    decreases allr.len() - i,
{
    if i == allr.len() {
        assert(allr.take(i) =~= allr);
    } else {
        lemma_lower_from_count(allr, i + 1, params);
        lemma_real_count_take(allr, i);
    }
}

/// A lowered kernel has exactly one instruction per raw instruction that is not
/// a label marker.
pub proof fn lemma_lower_count(p: ParseOutV)
    ensures
        sp_lower(p) matches Ok(k) ==> k.insts.len() == real_count(p.raws),
{
    lemma_lower_from_count(p.raws, 0, p.params);
    assert(p.raws.take(0) =~= Seq::<RawV>::empty());
}

/// A label's program counter is at most the number of real instructions.
pub proof fn lemma_label_pc_bound(raws: Seq<RawV>, name: Seq<char>)
    ensures
        label_pc(raws, name) matches Some(pc) ==> pc <= real_count(raws),
    decreases raws.len(),
{
    if raws.len() > 0 {
        lemma_label_pc_bound(raws.drop_last(), name);
    }
}

/// A branch instruction's target lies in `0..=n`.
pub open spec fn target_ok(x: InstView, n: int) -> bool {
    match x.inst_type {
        InstType::Bra => x.args.len() == 1 && x.args[0] <= n,
        InstType::BraIf | InstType::BraIfNot => x.args.len() == 2 && x.args[1] <= n,
        _ => true,
    }
}

proof fn lemma_inst_target(r: RawV, allr: Seq<RawV>, params: Seq<ParamV>)
    requires
        allr.len() <= usize::MAX,
    ensures
        sp_lower_inst(r, allr, params) matches Ok(x) ==> target_ok(x, real_count(allr) as int),
{
    lemma_real_count_bound(allr);
    if r.operands.len() == 1 {
        match r.operands[0] {
            OperandV::Label(name) => {
                lemma_label_pc_bound(allr, name);
            },
            _ => {},
        }
    }
}

proof fn lemma_lower_from_targets(allr: Seq<RawV>, i: int, params: Seq<ParamV>)
    requires
        0 <= i <= allr.len(),
        allr.len() <= usize::MAX,
    ensures
        sp_lower_from(allr, i, params) matches Ok(insts) ==> forall|k: int|
            0 <= k < insts.len() ==> target_ok(#[trigger] insts[k], real_count(allr) as int),
    decreases allr.len() - i,
{
    if i < allr.len() {
        lemma_lower_from_targets(allr, i + 1, params);
        if !is_marker(allr[i]) {
            lemma_inst_target(allr[i], allr, params);
            match sp_lower_inst(allr[i], allr, params) {
                Ok(x) => match sp_lower_from(allr, i + 1, params) {
                    Ok(rest) => {
                        let all = seq![x] + rest;
                        assert forall|k: int| 0 <= k < all.len() implies target_ok(
                            #[trigger] all[k],
                            real_count(allr) as int,
                        ) by {
                            if k > 0 {
                                assert(all[k] == rest[k - 1]);
                            }
                        }
                    },
                    Err(_) => {},
                },
                Err(_) => {},
            }
        }
    }
}

/// No branch of a lowered kernel leaves the program: every target is the index
/// of one of its instructions, or the index just past the last one.
pub proof fn lemma_branch_targets(p: ParseOutV)
    requires
        p.raws.len() <= usize::MAX,
    ensures
        sp_lower(p) matches Ok(k) ==> forall|i: int|
            0 <= i < k.insts.len() ==> target_ok(#[trigger] k.insts[i], k.insts.len() as int),
{
    lemma_lower_from_targets(p.raws, 0, p.params);
    lemma_lower_count(p);
}

} // verus!
