//! Per-thread execution: register files, program counter, and the semantics of
//! each instruction.
//!
//! Floating-point arithmetic is not carried out here: an instruction that needs it
//! reports a `FloatRequest` with its operands as IEEE-754 bit patterns, and the
//! caller hands the result bits back through `complete_float`. Everything else
//! (integer arithmetic, predicates, branches, loads and stores, bit moves) is
//! carried out and specified here.

use crate::inst_info::{inst_info, InstView};
use crate::inst_type::InstType;
use crate::memory::{Memory, MemoryElement};
use vstd::prelude::*;

verus! {

/// Number of registers in each register file.
pub const NUM_REGS: usize = 256;

/// Floating-point operations left to the caller.
#[derive(Debug, Clone, Copy, PartialEq, Eq, Structural)]
pub enum FloatOp {
    /// Convert the integer `int_value` to the nearest `f32`.
    FromInt,
    /// `a + b`.
    Add,
    /// `a - b`.
    Sub,
    /// `a * b`.
    Mul,
    /// `a * b + c`, each step rounded.
    MulAdd,
    /// `1 / a`.
    Recip,
    /// `a` clamped to `[0, 1]`.
    Saturate,
    /// `2^a`, subnormal results flushed to zero.
    Exp2,
}

/// A floating-point operation a thread is waiting for: its result goes to
/// float register `dst`. Operands are bit patterns.
#[derive(Debug, Clone, Copy, PartialEq, Eq, Structural)]
pub struct FloatRequest {
    pub op: FloatOp,
    pub dst: usize,
    pub a: u32,
    pub b: u32,
    pub c: u32,
    pub int_value: usize,
}

/// Why an instruction could not execute.
#[derive(Debug, Clone, Copy, PartialEq, Eq, Structural)]
pub enum Fault {
    /// Too few operand slots, or a register index outside the register file.
    BadOperand,
    /// A parameter index past the kernel arguments.
    BadParam,
    /// A global load or store touching a byte that is not allocated (or past the
    /// end of the address space).
    BadAddress,
    /// A shift by 32 or more.
    BadShift,
    /// An instruction type the emulator has no semantics for (the reader never
    /// produces one).
    Unsupported,
}

/// What one clock of a thread did.
#[derive(Debug, Clone, Copy, PartialEq, Eq, Structural)]
pub enum StepOutcome {
    /// The instruction at the program counter was carried out.
    Executed,
    /// The program counter is past the last instruction; nothing happened.
    Finished,
    /// The instruction needs floating-point work; state is unchanged until
    /// `complete_float` is called with the result.
    Float(FloatRequest),
    /// The instruction cannot execute; state is unchanged.
    Fault(Fault),
}

/// The state of an execute unit.
pub struct UnitView {
    pub p: Seq<bool>,
    pub r: Seq<u32>,
    pub rd: Seq<u64>,
    pub f: Seq<u32>,
    /// tid.{x,y,z}, ctaid.{x,y,z}, ntid.{x,y,z}, nctaid.{x,y,z}, in that order.
    pub ids: Seq<u32>,
    pub pc: u32,
    pub total: u32,
    pub insts: Seq<InstView>,
    pub branch_is_taken: bool,
}

/// The result of one clock: new unit state, new memory, and what happened.
pub struct StepView {
    pub unit: UnitView,
    pub mem: Map<u64, MemoryElement>,
    pub outcome: StepOutcome,
}

/// A thread's execute unit.
#[allow(non_camel_case_types)]
pub struct execute_unit {
    p: [bool; 256],
    r: [u32; 256],
    rd: [u64; 256],
    f: [u32; 256],
    tid_x: u32,
    tid_y: u32,
    tid_z: u32,
    ctaid_x: u32,
    ctaid_y: u32,
    ctaid_z: u32,
    ntid_x: u32,
    ntid_y: u32,
    ntid_z: u32,
    nctaid_x: u32,
    nctaid_y: u32,
    nctaid_z: u32,
    pc: u32,
    total_number_inst: u32,
    inst_list: Vec<inst_info>,
    branch_is_taken: bool,
}

impl View for execute_unit {
    type V = UnitView;

    closed spec fn view(&self) -> UnitView {
        UnitView {
            p: self.p@,
            r: self.r@,
            rd: self.rd@,
            f: self.f@,
            ids: seq![
                self.tid_x,
                self.tid_y,
                self.tid_z,
                self.ctaid_x,
                self.ctaid_y,
                self.ctaid_z,
                self.ntid_x,
                self.ntid_y,
                self.ntid_z,
                self.nctaid_x,
                self.nctaid_y,
                self.nctaid_z,
            ],
            pc: self.pc,
            total: self.total_number_inst,
            insts: self.inst_list@.map_values(|i: inst_info| i@),
            branch_is_taken: self.branch_is_taken,
        }
    }
}

/// Shape of a well-formed unit state.
pub open spec fn unit_wf(u: UnitView) -> bool {
    &&& u.p.len() == NUM_REGS
    &&& u.r.len() == NUM_REGS
    &&& u.rd.len() == NUM_REGS
    &&& u.f.len() == NUM_REGS
    &&& u.ids.len() == 12
    &&& u.total <= u.insts.len()
}

/// The thread has run past its last instruction.
pub open spec fn unit_done(u: UnitView) -> bool {
    u.pc >= u.total
}

/// Slot `k` holds a register index inside the register files.
pub open spec fn reg_ok(i: InstView, k: int) -> bool {
    k < i.args.len() && i.args[k] < NUM_REGS
}

/// The operand slots an instruction reads are present, and those naming registers
/// name existing ones.
pub open spec fn operands_ok(i: InstView) -> bool {
    match i.inst_type {
        InstType::LdParamU64 | InstType::LdParamU32 | InstType::LdParamF32 => reg_ok(i, 0)
            && i.args.len() >= 2,
        InstType::MovTidX
        | InstType::MovTidY
        | InstType::MovTidZ
        | InstType::MovCtaidX
        | InstType::MovCtaidY
        | InstType::MovCtaidZ
        | InstType::MovNtidX
        | InstType::MovNtidY
        | InstType::MovNtidZ
        | InstType::MovNctaidX
        | InstType::MovNctaidY
        | InstType::MovNctaidZ => reg_ok(i, 0),
        InstType::MovU32
        | InstType::MovU64
        | InstType::MovF32
        | InstType::MovB32FromF32
        | InstType::MovF32FromB32
        | InstType::NegF32
        | InstType::CvtaToGlobal
        | InstType::CvtSatF32F32
        | InstType::RcpRnF32
        | InstType::Ex2ApproxF32
        | InstType::LdGlobalU32
        | InstType::LdGlobalF32
        | InstType::LdGlobalNcF32
        | InstType::StGlobalF32
        | InstType::StGlobalU32 => reg_ok(i, 0) && reg_ok(i, 1),
        InstType::MovU32Imm | InstType::MovU64Imm | InstType::MovF32Imm | InstType::MovF32Bits =>
            reg_ok(i, 0) && i.args.len() >= 2,
        InstType::AddS32
        | InstType::AddS64
        | InstType::AddF32
        | InstType::SubF32
        | InstType::MulF32
        | InstType::SetpGeS32
        | InstType::SetpLtS32
        | InstType::OrPred => reg_ok(i, 0) && reg_ok(i, 1) && reg_ok(i, 2),
        InstType::AddS32Imm
        | InstType::AddF32Imm
        | InstType::MulWideS32
        | InstType::ShlB32
        | InstType::SetpGeS32Imm
        | InstType::SetpLtS32Imm => reg_ok(i, 0) && reg_ok(i, 1) && i.args.len() >= 3,
        InstType::MadLoS32 | InstType::FmaRnF32 | InstType::FmaRmF32 => reg_ok(i, 0) && reg_ok(
            i,
            1,
        ) && reg_ok(i, 2) && reg_ok(i, 3),
        InstType::Bra => i.args.len() >= 1,
        InstType::BraIf | InstType::BraIfNot => reg_ok(i, 0) && i.args.len() >= 2,
        _ => true,
    }
}

/// The unit with its program counter moved to the next instruction.
pub open spec fn advance(u: UnitView) -> UnitView {
    UnitView { pc: (u.pc + 1) as u32, ..u }
}

pub open spec fn set_p(u: UnitView, d: int, v: bool) -> UnitView {
    advance(UnitView { p: u.p.update(d, v), ..u })
}

pub open spec fn set_r(u: UnitView, d: int, v: u32) -> UnitView {
    advance(UnitView { r: u.r.update(d, v), ..u })
}

pub open spec fn set_rd(u: UnitView, d: int, v: u64) -> UnitView {
    advance(UnitView { rd: u.rd.update(d, v), ..u })
}

pub open spec fn set_f(u: UnitView, d: int, v: u32) -> UnitView {
    advance(UnitView { f: u.f.update(d, v), ..u })
}

/// The four bytes at `addr..addr + 4`, read little-endian, if all exist.
pub open spec fn load_word(mem: Map<u64, MemoryElement>, addr: u64) -> Option<u32> {
    if addr as int + 3 <= u64::MAX && mem.contains_key(addr) && mem.contains_key(
        (addr + 1) as u64,
    ) && mem.contains_key((addr + 2) as u64) && mem.contains_key((addr + 3) as u64) {
        Some(
            (mem[addr].value + 256 * mem[(addr + 1) as u64].value + 65536 * mem[(addr
                + 2) as u64].value + 16777216 * mem[(addr + 3) as u64].value) as u32,
        )
    } else {
        None
    }
}

/// Byte `k` (0 = least significant) of a word.
pub open spec fn word_byte(v: u32, k: int) -> u8 {
    if k == 0 {
        (v % 256) as u8
    } else if k == 1 {
        ((v / 256) % 256) as u8
    } else if k == 2 {
        ((v / 65536) % 256) as u8
    } else {
        (v / 16777216) as u8
    }
}

/// Memory after storing `v` little-endian at `addr..addr + 4`; bytes land only where
/// cells exist.
pub open spec fn store_word(mem: Map<u64, MemoryElement>, addr: u64, v: u32) -> Map<
    u64,
    MemoryElement,
> {
    Map::new(
        |k: u64| mem.contains_key(k),
        |k: u64|
            if addr <= k && k < addr + 4 {
                MemoryElement { value: word_byte(v, k - addr) }
            } else {
                mem[k]
            },
    )
}

pub open spec fn done_step(u: UnitView, mem: Map<u64, MemoryElement>) -> StepView {
    StepView { unit: u, mem, outcome: StepOutcome::Executed }
}

pub open spec fn fault_step(u: UnitView, mem: Map<u64, MemoryElement>, f: Fault) -> StepView {
    StepView { unit: u, mem, outcome: StepOutcome::Fault(f) }
}

pub open spec fn float_step(
    u: UnitView,
    mem: Map<u64, MemoryElement>,
    op: FloatOp,
    dst: usize,
    a: u32,
    b: u32,
    c: u32,
    n: usize,
) -> StepView {
    StepView {
        unit: u,
        mem,
        outcome: StepOutcome::Float(FloatRequest { op, dst, a, b, c, int_value: n }),
    }
}

/// The effect of executing instruction `i` (whose operands are well formed) at the
/// current program counter.
pub open spec fn exec_inst(
    u: UnitView,
    i: InstView,
    mem: Map<u64, MemoryElement>,
    args: Seq<usize>,
) -> StepView {
    let a = i.args;
    match i.inst_type {
        InstType::LdParamU64 => if a[1] < args.len() {
            done_step(set_rd(u, a[0] as int, args[a[1] as int] as u64), mem)
        } else {
            fault_step(u, mem, Fault::BadParam)
        },
        InstType::LdParamU32 => if a[1] < args.len() {
            done_step(set_r(u, a[0] as int, args[a[1] as int] as u32), mem)
        } else {
            fault_step(u, mem, Fault::BadParam)
        },
        InstType::LdParamF32 => if a[1] < args.len() {
            float_step(u, mem, FloatOp::FromInt, a[0], 0, 0, 0, args[a[1] as int])
        } else {
            fault_step(u, mem, Fault::BadParam)
        },
        InstType::MovTidX => done_step(set_r(u, a[0] as int, u.ids[0]), mem),
        InstType::MovTidY => done_step(set_r(u, a[0] as int, u.ids[1]), mem),
        InstType::MovTidZ => done_step(set_r(u, a[0] as int, u.ids[2]), mem),
        InstType::MovCtaidX => done_step(set_r(u, a[0] as int, u.ids[3]), mem),
        InstType::MovCtaidY => done_step(set_r(u, a[0] as int, u.ids[4]), mem),
        InstType::MovCtaidZ => done_step(set_r(u, a[0] as int, u.ids[5]), mem),
        InstType::MovNtidX => done_step(set_r(u, a[0] as int, u.ids[6]), mem),
        InstType::MovNtidY => done_step(set_r(u, a[0] as int, u.ids[7]), mem),
        InstType::MovNtidZ => done_step(set_r(u, a[0] as int, u.ids[8]), mem),
        InstType::MovNctaidX => done_step(set_r(u, a[0] as int, u.ids[9]), mem),
        InstType::MovNctaidY => done_step(set_r(u, a[0] as int, u.ids[10]), mem),
        InstType::MovNctaidZ => done_step(set_r(u, a[0] as int, u.ids[11]), mem),
        InstType::MovU32 => done_step(set_r(u, a[0] as int, u.r[a[1] as int]), mem),
        InstType::MovU32Imm => done_step(set_r(u, a[0] as int, a[1] as u32), mem),
        InstType::MovU64 => done_step(set_rd(u, a[0] as int, u.rd[a[1] as int]), mem),
        InstType::MovU64Imm => done_step(set_rd(u, a[0] as int, a[1] as u64), mem),
        InstType::MovF32 => done_step(set_f(u, a[0] as int, u.f[a[1] as int]), mem),
        InstType::MovF32Imm => done_step(set_f(u, a[0] as int, a[1] as u32), mem),
        InstType::MovF32Bits => done_step(set_f(u, a[0] as int, a[1] as u32), mem),
        InstType::MovB32FromF32 => done_step(set_r(u, a[0] as int, u.f[a[1] as int]), mem),
        InstType::MovF32FromB32 => done_step(set_f(u, a[0] as int, u.r[a[1] as int]), mem),
        InstType::NegF32 => done_step(
            set_f(u, a[0] as int, u.f[a[1] as int] ^ 0x8000_0000u32),
            mem,
        ),
        InstType::AddS32 => done_step(
            set_r(
                u,
                a[0] as int,
                (u.r[a[1] as int] as i32).wrapping_add(u.r[a[2] as int] as i32) as u32,
            ),
            mem,
        ),
        InstType::AddS32Imm => done_step(
            set_r(u, a[0] as int, (u.r[a[1] as int] as i32).wrapping_add(a[2] as i32) as u32),
            mem,
        ),
        InstType::AddS64 => done_step(
            set_rd(u, a[0] as int, u.rd[a[1] as int].wrapping_add(u.rd[a[2] as int])),
            mem,
        ),
        InstType::AddF32 => float_step(
            u,
            mem,
            FloatOp::Add,
            a[0],
            u.f[a[1] as int],
            u.f[a[2] as int],
            0,
            0,
        ),
        InstType::AddF32Imm => float_step(
            u,
            mem,
            FloatOp::Add,
            a[0],
            u.f[a[1] as int],
            a[2] as u32,
            0,
            0,
        ),
        InstType::SubF32 => float_step(
            u,
            mem,
            FloatOp::Sub,
            a[0],
            u.f[a[1] as int],
            u.f[a[2] as int],
            0,
            0,
        ),
        InstType::MulF32 => float_step(
            u,
            mem,
            FloatOp::Mul,
            a[0],
            u.f[a[1] as int],
            u.f[a[2] as int],
            0,
            0,
        ),
        InstType::MulWideS32 => done_step(
            set_rd(
                u,
                a[0] as int,
                ((u.r[a[1] as int] as i32) as i64).wrapping_mul((a[2] as u64) as i64) as u64,
            ),
            mem,
        ),
        InstType::MadLoS32 => done_step(
            set_r(
                u,
                a[0] as int,
                (u.r[a[1] as int] as i32).wrapping_mul(u.r[a[2] as int] as i32).wrapping_add(
                    u.r[a[3] as int] as i32,
                ) as u32,
            ),
            mem,
        ),
        InstType::FmaRnF32 | InstType::FmaRmF32 => float_step(
            u,
            mem,
            FloatOp::MulAdd,
            a[0],
            u.f[a[1] as int],
            u.f[a[2] as int],
            u.f[a[3] as int],
            0,
        ),
        InstType::ShlB32 => if (a[2] as u32) < 32 {
            done_step(set_r(u, a[0] as int, u.r[a[1] as int] << (a[2] as u32)), mem)
        } else {
            fault_step(u, mem, Fault::BadShift)
        },
        InstType::RcpRnF32 => float_step(u, mem, FloatOp::Recip, a[0], u.f[a[1] as int], 0, 0, 0),
        InstType::Ex2ApproxF32 => float_step(
            u,
            mem,
            FloatOp::Exp2,
            a[0],
            u.f[a[1] as int],
            0,
            0,
            0,
        ),
        InstType::CvtSatF32F32 => float_step(
            u,
            mem,
            FloatOp::Saturate,
            a[0],
            u.f[a[1] as int],
            0,
            0,
            0,
        ),
        InstType::CvtaToGlobal => done_step(set_rd(u, a[0] as int, u.rd[a[1] as int]), mem),
        InstType::LdGlobalU32 => match load_word(mem, u.rd[a[1] as int]) {
            Some(v) => done_step(set_r(u, a[0] as int, v), mem),
            None => fault_step(u, mem, Fault::BadAddress),
        },
        InstType::LdGlobalF32 | InstType::LdGlobalNcF32 => match load_word(
            mem,
            u.rd[a[1] as int],
        ) {
            Some(v) => done_step(set_f(u, a[0] as int, v), mem),
            None => fault_step(u, mem, Fault::BadAddress),
        },
        InstType::StGlobalF32 => if u.rd[a[0] as int] as int + 3 <= u64::MAX {
            done_step(advance(u), store_word(mem, u.rd[a[0] as int], u.f[a[1] as int]))
        } else {
            fault_step(u, mem, Fault::BadAddress)
        },
        InstType::StGlobalU32 => if u.rd[a[0] as int] as int + 3 <= u64::MAX {
            done_step(advance(u), store_word(mem, u.rd[a[0] as int], u.r[a[1] as int]))
        } else {
            fault_step(u, mem, Fault::BadAddress)
        },
        InstType::SetpGeS32 => done_step(
            set_p(u, a[0] as int, (u.r[a[1] as int] as i32) >= (u.r[a[2] as int] as i32)),
            mem,
        ),
        InstType::SetpGeS32Imm => done_step(
            set_p(u, a[0] as int, (u.r[a[1] as int] as i32) >= (a[2] as i32)),
            mem,
        ),
        InstType::SetpLtS32 => done_step(
            set_p(u, a[0] as int, (u.r[a[1] as int] as i32) < (u.r[a[2] as int] as i32)),
            mem,
        ),
        InstType::SetpLtS32Imm => done_step(
            set_p(u, a[0] as int, (u.r[a[1] as int] as i32) < (a[2] as i32)),
            mem,
        ),
        InstType::OrPred => done_step(
            set_p(u, a[0] as int, u.p[a[1] as int] || u.p[a[2] as int]),
            mem,
        ),
        InstType::Bra => done_step(UnitView { pc: a[0] as u32, ..u }, mem),
        InstType::BraIf => done_step(
            if u.p[a[0] as int] {
                UnitView { pc: a[1] as u32, ..u }
            } else {
                advance(u)
            },
            mem,
        ),
        InstType::BraIfNot => done_step(
            if !u.p[a[0] as int] {
                UnitView { pc: a[1] as u32, ..u }
            } else {
                advance(u)
            },
            mem,
        ),
        InstType::Ret => done_step(UnitView { pc: u.total, ..u }, mem),
        InstType::NoOp => done_step(u, mem),
        _ => fault_step(u, mem, Fault::Unsupported),
    }
}

/// One clock of a thread: nothing once it is past its last instruction; a fault if
/// the current instruction's operands are malformed; otherwise its effect.
pub open spec fn step(u: UnitView, mem: Map<u64, MemoryElement>, args: Seq<usize>) -> StepView {
    if unit_done(u) {
        StepView { unit: u, mem, outcome: StepOutcome::Finished }
    } else if !operands_ok(u.insts[u.pc as int]) {
        fault_step(u, mem, Fault::BadOperand)
    } else {
        exec_inst(u, u.insts[u.pc as int], mem, args)
    }
}


/// Whether the operand slots of `inst` are well formed (see `operands_ok`).
pub fn operands_check(inst: &inst_info) -> (b: bool)
    ensures
        b == operands_ok(inst@),
{
    let a = &inst.args;
    let n = a.len();
    let r0 = n >= 1 && a[0] < NUM_REGS;
    let r1 = n >= 2 && a[1] < NUM_REGS;
    let r2 = n >= 3 && a[2] < NUM_REGS;
    let r3 = n >= 4 && a[3] < NUM_REGS;
    match inst.inst_type {
        InstType::LdParamU64 | InstType::LdParamU32 | InstType::LdParamF32 => r0 && n >= 2,
        InstType::MovTidX
        | InstType::MovTidY
        | InstType::MovTidZ
        | InstType::MovCtaidX
        | InstType::MovCtaidY
        | InstType::MovCtaidZ
        | InstType::MovNtidX
        | InstType::MovNtidY
        | InstType::MovNtidZ
        | InstType::MovNctaidX
        | InstType::MovNctaidY
        | InstType::MovNctaidZ => r0,
        InstType::MovU32
        | InstType::MovU64
        | InstType::MovF32
        | InstType::MovB32FromF32
        | InstType::MovF32FromB32
        | InstType::NegF32
        | InstType::CvtaToGlobal
        | InstType::CvtSatF32F32
        | InstType::RcpRnF32
        | InstType::Ex2ApproxF32
        | InstType::LdGlobalU32
        | InstType::LdGlobalF32
        | InstType::LdGlobalNcF32
        | InstType::StGlobalF32
        | InstType::StGlobalU32 => r0 && r1,
        InstType::MovU32Imm | InstType::MovU64Imm | InstType::MovF32Imm | InstType::MovF32Bits =>
            r0 && n >= 2,
        InstType::AddS32
        | InstType::AddS64
        | InstType::AddF32
        | InstType::SubF32
        | InstType::MulF32
        | InstType::SetpGeS32
        | InstType::SetpLtS32
        | InstType::OrPred => r0 && r1 && r2,
        InstType::AddS32Imm
        | InstType::AddF32Imm
        | InstType::MulWideS32
        | InstType::ShlB32
        | InstType::SetpGeS32Imm
        | InstType::SetpLtS32Imm => r0 && r1 && n >= 3,
        InstType::MadLoS32 | InstType::FmaRnF32 | InstType::FmaRmF32 => r0 && r1 && r2 && r3,
        InstType::Bra => n >= 1,
        InstType::BraIf | InstType::BraIfNot => r0 && n >= 2,
        _ => true,
    }
}

/// Reads four little-endian bytes at `addr`, if they all exist.
pub fn load_word_exec(mem: &Memory, addr: u64) -> (w: Option<u32>)
    ensures
        w == load_word(mem.data@, addr),
{
    if addr > u64::MAX - 3 {
        return None;
    }
    let b0 = mem.byte(addr);
    let b1 = mem.byte(addr + 1);
    let b2 = mem.byte(addr + 2);
    let b3 = mem.byte(addr + 3);
    match (b0, b1, b2, b3) {
        (Some(x0), Some(x1), Some(x2), Some(x3)) => {
            let v: u32 = x0 as u32 + 256 * (x1 as u32) + 65536 * (x2 as u32) + 16777216 * (
            x3 as u32);
            Some(v)
        },
        _ => None,
    }
}

/// Stores `v` little-endian at `addr..addr + 4`, each byte only where a cell exists.
pub fn store_word_exec(mem: &mut Memory, addr: u64, v: u32)
    requires
        addr as int + 3 <= u64::MAX,
    ensures
        final(mem).sizes@ == old(mem).sizes@,
        final(mem).data@ == store_word(old(mem).data@, addr, v),
{
    mem.set_byte(addr, (v % 256) as u8);
    mem.set_byte(addr + 1, ((v / 256) % 256) as u8);
    mem.set_byte(addr + 2, ((v / 65536) % 256) as u8);
    mem.set_byte(addr + 3, (v / 16777216) as u8);
    assert(mem.data@ =~= store_word(old(mem).data@, addr, v));
}

/// A freshly reset unit: zeroed registers and ids, no instructions.
pub open spec fn fresh_unit(u: UnitView) -> bool {
    &&& unit_wf(u)
    &&& forall|i: int| 0 <= i < NUM_REGS ==> u.p[i] == false && u.r[i] == 0 && u.rd[i] == 0
        && u.f[i] == 0
    &&& forall|i: int| 0 <= i < 12 ==> u.ids[i] == 0
    &&& u.pc == 0
    &&& u.total == 0
    &&& u.insts.len() == 0
    &&& !u.branch_is_taken
}

impl execute_unit {
    #[verifier::type_invariant]
    spec fn inv(&self) -> bool {
        unit_wf(self@)
    }

    /// Makes the shape facts of the unit available.
    pub fn lemma_wf(&self)
        ensures
            unit_wf(self@),
    {
        proof {
            use_type_invariant(self);
        }
    }

    /// A reset unit (all registers zero, no instructions).
    pub fn new() -> (u: execute_unit)
        ensures
            fresh_unit(u@),
    {
        let u = execute_unit {
            p: [false; 256],
            r: [0u32; 256],
            rd: [0u64; 256],
            f: [0u32; 256],
            tid_x: 0,
            tid_y: 0,
            tid_z: 0,
            ctaid_x: 0,
            ctaid_y: 0,
            ctaid_z: 0,
            ntid_x: 0,
            ntid_y: 0,
            ntid_z: 0,
            nctaid_x: 0,
            nctaid_y: 0,
            nctaid_z: 0,
            pc: 0,
            total_number_inst: 0,
            inst_list: Vec::new(),
            branch_is_taken: false,
        };
        assert(u@.insts =~= Seq::<InstView>::empty());
        u
    }

    /// Records the thread's position and the launch shape.
    pub fn set_execute_id(
        &mut self,
        tid_x: u32,
        tid_y: u32,
        tid_z: u32,
        ctaid_x: u32,
        ctaid_y: u32,
        ctaid_z: u32,
        ntid_x: u32,
        ntid_y: u32,
        ntid_z: u32,
        nctaid_x: u32,
        nctaid_y: u32,
        nctaid_z: u32,
    )
        ensures
            final(self)@ == (UnitView {
                ids: seq![
                    tid_x,
                    tid_y,
                    tid_z,
                    ctaid_x,
                    ctaid_y,
                    ctaid_z,
                    ntid_x,
                    ntid_y,
                    ntid_z,
                    nctaid_x,
                    nctaid_y,
                    nctaid_z,
                ],
                ..old(self)@
            }),
    {
        proof {
            use_type_invariant(&*self);
        }
        self.tid_x = tid_x;
        self.tid_y = tid_y;
        self.tid_z = tid_z;
        self.ctaid_x = ctaid_x;
        self.ctaid_y = ctaid_y;
        self.ctaid_z = ctaid_z;
        self.ntid_x = ntid_x;
        self.ntid_y = ntid_y;
        self.ntid_z = ntid_z;
        self.nctaid_x = nctaid_x;
        self.nctaid_y = nctaid_y;
        self.nctaid_z = nctaid_z;
    }

    /// Loads a program and puts the program counter at its start. The instruction
    /// count is kept as a `u32` (truncated for programs of 2^32 instructions or more).
    pub fn import_inst(&mut self, instructions: Vec<inst_info>)
        ensures
            final(self)@ == (UnitView {
                insts: instructions@.map_values(|i: inst_info| i@),
                total: instructions@.len() as u32,
                pc: 0,
                ..old(self)@
            }),
    {
        let n = instructions.len();
        self.total_number_inst = 0;
        self.inst_list = instructions;
        self.total_number_inst = #[verifier::truncate] (n as u32);
        self.pc = 0;
    }

    /// Puts the program counter back at the first instruction.
    pub fn restart(&mut self)
        ensures
            final(self)@ == (UnitView { pc: 0, branch_is_taken: false, ..old(self)@ }),
    {
        proof {
            use_type_invariant(&*self);
        }
        self.pc = 0;
        self.branch_is_taken = false;
    }

    /// The program counter.
    pub fn pc(&self) -> (pc: u32)
        ensures
            pc == self@.pc,
    {
        self.pc
    }

    /// The number of instructions of the loaded program.
    pub fn total(&self) -> (t: u32)
        ensures
            t == self@.total,
    {
        self.total_number_inst
    }

    /// Whether the program counter is past the last instruction.
    pub fn is_done(&self) -> (d: bool)
        ensures
            d == unit_done(self@),
    {
        self.pc >= self.total_number_inst
    }

    /// The instruction at the program counter, if any.
    pub fn current_inst(&self) -> (i: Option<&inst_info>)
        ensures
            unit_done(self@) ==> i is None,
            !unit_done(self@) ==> i is Some && i->0@ == self@.insts[self@.pc as int],
    {
        proof {
            use_type_invariant(self);
        }
        if self.pc < self.total_number_inst {
            Some(&self.inst_list[self.pc as usize])
        } else {
            None
        }
    }

    /// Predicate register `i`.
    pub fn reg_p(&self, i: usize) -> (v: bool)
        requires
            i < NUM_REGS,
        ensures
            v == self@.p[i as int],
    {
        proof {
            use_type_invariant(self);
        }
        self.p[i]
    }

    /// 32-bit register `i`.
    pub fn reg_r(&self, i: usize) -> (v: u32)
        requires
            i < NUM_REGS,
        ensures
            v == self@.r[i as int],
    {
        proof {
            use_type_invariant(self);
        }
        self.r[i]
    }

    /// 64-bit register `i`.
    pub fn reg_rd(&self, i: usize) -> (v: u64)
        requires
            i < NUM_REGS,
        ensures
            v == self@.rd[i as int],
    {
        proof {
            use_type_invariant(self);
        }
        self.rd[i]
    }

    /// Float register `i`, as its bit pattern.
    pub fn reg_f(&self, i: usize) -> (v: u32)
        requires
            i < NUM_REGS,
        ensures
            v == self@.f[i as int],
    {
        proof {
            use_type_invariant(self);
        }
        self.f[i]
    }

    /// Finishes a floating-point instruction: its result bits go to float register
    /// `dst` and the program counter moves on.
    pub fn complete_float(&mut self, dst: usize, bits: u32)
        requires
            dst < NUM_REGS,
            !unit_done(old(self)@),
        ensures
            final(self)@ == set_f(old(self)@, dst as int, bits),
    {
        proof {
            use_type_invariant(&*self);
        }
        self.f[dst] = bits;
        self.pc = self.pc + 1;
    }

    /// Runs one clock (see `step`).
    pub fn execute_clock(&mut self, mem: &mut Memory, args: &Vec<usize>) -> (out: StepOutcome)
        ensures
            final(self)@ == step(old(self)@, old(mem).data@, args@).unit,
            final(mem).data@ == step(old(self)@, old(mem).data@, args@).mem,
            final(mem).sizes@ == old(mem).sizes@,
            out == step(old(self)@, old(mem).data@, args@).outcome,
    {
        proof {
            use_type_invariant(&*self);
        }
        if self.pc >= self.total_number_inst {
            return StepOutcome::Finished;
        }
        let ok = operands_check(&self.inst_list[self.pc as usize]);
        if !ok {
            return StepOutcome::Fault(Fault::BadOperand);
        }
        let t = self.inst_list[self.pc as usize].inst_type;
        let a0 = self.arg(0);
        let a1 = self.arg(1);
        let a2 = self.arg(2);
        let a3 = self.arg(3);
        self.execute_single_inst(t, a0, a1, a2, a3, mem, args)
    }

    /// Operand slot `k` of the current instruction, or 0 if absent.
    fn arg(&self, k: usize) -> (v: usize)
        requires
            !unit_done(self@),
        ensures
            k < self@.insts[self@.pc as int].args.len() ==> v == self@.insts[self@.pc as int].args[k as int],
    {
        proof {
            use_type_invariant(self);
        }
        let args = &self.inst_list[self.pc as usize].args;
        if k < args.len() {
            args[k]
        } else {
            0
        }
    }

    #[verifier::rlimit(60)]
    fn execute_single_inst(
        &mut self,
        t: InstType,
        a0: usize,
        a1: usize,
        a2: usize,
        a3: usize,
        mem: &mut Memory,
        args: &Vec<usize>,
    ) -> (out: StepOutcome)
        requires
            !unit_done(old(self)@),
            t == old(self)@.insts[old(self)@.pc as int].inst_type,
            operands_ok(old(self)@.insts[old(self)@.pc as int]),
            0 < old(self)@.insts[old(self)@.pc as int].args.len() ==> a0 == old(self)@.insts[old(self)@.pc as int].args[0],
            1 < old(self)@.insts[old(self)@.pc as int].args.len() ==> a1 == old(self)@.insts[old(self)@.pc as int].args[1],
            2 < old(self)@.insts[old(self)@.pc as int].args.len() ==> a2 == old(self)@.insts[old(self)@.pc as int].args[2],
            3 < old(self)@.insts[old(self)@.pc as int].args.len() ==> a3 == old(self)@.insts[old(self)@.pc as int].args[3],
        ensures
            final(self)@ == exec_inst(old(self)@, old(self)@.insts[old(self)@.pc as int], old(mem).data@, args@).unit,
            final(mem).data@ == exec_inst(old(self)@, old(self)@.insts[old(self)@.pc as int], old(mem).data@, args@).mem,
            final(mem).sizes@ == old(mem).sizes@,
            out == exec_inst(old(self)@, old(self)@.insts[old(self)@.pc as int], old(mem).data@, args@).outcome,
    {
        proof {
            use_type_invariant(&*self);
        }
        match t {
            InstType::LdParamU64 => {
                if a1 < args.len() {
                    self.rd[a0] = args[a1] as u64;
                } else {
                    return StepOutcome::Fault(Fault::BadParam);
                }
            },
            InstType::LdParamU32 => {
                if a1 < args.len() {
                    self.r[a0] = #[verifier::truncate] (args[a1] as u32);
                } else {
                    return StepOutcome::Fault(Fault::BadParam);
                }
            },
            InstType::LdParamF32 => {
                if a1 < args.len() {
                    return StepOutcome::Float(
                        FloatRequest { op: FloatOp::FromInt, dst: a0, a: 0, b: 0, c: 0, int_value: args[a1] },
                    );
                } else {
                    return StepOutcome::Fault(Fault::BadParam);
                }
            },
            InstType::MovTidX => { let v = self.tid_x; self.r[a0] = v; },
            InstType::MovTidY => { let v = self.tid_y; self.r[a0] = v; },
            InstType::MovTidZ => { let v = self.tid_z; self.r[a0] = v; },
            InstType::MovCtaidX => { let v = self.ctaid_x; self.r[a0] = v; },
            InstType::MovCtaidY => { let v = self.ctaid_y; self.r[a0] = v; },
            InstType::MovCtaidZ => { let v = self.ctaid_z; self.r[a0] = v; },
            InstType::MovNtidX => { let v = self.ntid_x; self.r[a0] = v; },
            InstType::MovNtidY => { let v = self.ntid_y; self.r[a0] = v; },
            InstType::MovNtidZ => { let v = self.ntid_z; self.r[a0] = v; },
            InstType::MovNctaidX => { let v = self.nctaid_x; self.r[a0] = v; },
            InstType::MovNctaidY => { let v = self.nctaid_y; self.r[a0] = v; },
            InstType::MovNctaidZ => { let v = self.nctaid_z; self.r[a0] = v; },
            InstType::MovU32 => { let v = self.r[a1]; self.r[a0] = v; },
            InstType::MovU32Imm => { self.r[a0] = #[verifier::truncate] (a1 as u32); },
            InstType::MovU64 => { let v = self.rd[a1]; self.rd[a0] = v; },
            InstType::MovU64Imm => { self.rd[a0] = a1 as u64; },
            InstType::MovF32 => { let v = self.f[a1]; self.f[a0] = v; },
            InstType::MovF32Imm | InstType::MovF32Bits => {
                self.f[a0] = #[verifier::truncate] (a1 as u32);
            },
            InstType::MovB32FromF32 => { let v = self.f[a1]; self.r[a0] = v; },
            InstType::MovF32FromB32 => { let v = self.r[a1]; self.f[a0] = v; },
            InstType::NegF32 => { let v = self.f[a1] ^ 0x8000_0000u32; self.f[a0] = v; },
            InstType::AddS32 => {
                let x = #[verifier::truncate] (self.r[a1] as i32);
                let y = #[verifier::truncate] (self.r[a2] as i32);
                self.r[a0] = #[verifier::truncate] (x.wrapping_add(y) as u32);
            },
            InstType::AddS32Imm => {
                let x = #[verifier::truncate] (self.r[a1] as i32);
                let y = #[verifier::truncate] (a2 as i32);
                self.r[a0] = #[verifier::truncate] (x.wrapping_add(y) as u32);
            },
            InstType::AddS64 => {
                let v = self.rd[a1].wrapping_add(self.rd[a2]);
                self.rd[a0] = v;
            },
            InstType::AddF32 | InstType::SubF32 | InstType::MulF32 => {
                let op = match t {
                    InstType::AddF32 => FloatOp::Add,
                    InstType::SubF32 => FloatOp::Sub,
                    _ => FloatOp::Mul,
                };
                return StepOutcome::Float(
                    FloatRequest { op, dst: a0, a: self.f[a1], b: self.f[a2], c: 0, int_value: 0 },
                );
            },
            InstType::AddF32Imm => {
                return StepOutcome::Float(
                    FloatRequest {
                        op: FloatOp::Add,
                        dst: a0,
                        a: self.f[a1],
                        b: #[verifier::truncate] (a2 as u32),
                        c: 0,
                        int_value: 0,
                    },
                );
            },
            InstType::MulWideS32 => {
                let x = #[verifier::truncate] (self.r[a1] as i32) as i64;
                let y = #[verifier::truncate] ((a2 as u64) as i64);
                self.rd[a0] = #[verifier::truncate] (x.wrapping_mul(y) as u64);
            },
            InstType::MadLoS32 => {
                let x = #[verifier::truncate] (self.r[a1] as i32);
                let y = #[verifier::truncate] (self.r[a2] as i32);
                let z = #[verifier::truncate] (self.r[a3] as i32);
                self.r[a0] = #[verifier::truncate] (x.wrapping_mul(y).wrapping_add(z) as u32);
            },
            InstType::FmaRnF32 | InstType::FmaRmF32 => {
                return StepOutcome::Float(
                    FloatRequest {
                        op: FloatOp::MulAdd,
                        dst: a0,
                        a: self.f[a1],
                        b: self.f[a2],
                        c: self.f[a3],
                        int_value: 0,
                    },
                );
            },
            InstType::ShlB32 => {
                let sh = #[verifier::truncate] (a2 as u32);
                if sh < 32 {
                    let v = self.r[a1] << sh;
                    self.r[a0] = v;
                } else {
                    return StepOutcome::Fault(Fault::BadShift);
                }
            },
            InstType::RcpRnF32 | InstType::Ex2ApproxF32 | InstType::CvtSatF32F32 => {
                let op = match t {
                    InstType::RcpRnF32 => FloatOp::Recip,
                    InstType::Ex2ApproxF32 => FloatOp::Exp2,
                    _ => FloatOp::Saturate,
                };
                return StepOutcome::Float(
                    FloatRequest { op, dst: a0, a: self.f[a1], b: 0, c: 0, int_value: 0 },
                );
            },
            InstType::CvtaToGlobal => { let v = self.rd[a1]; self.rd[a0] = v; },
            InstType::LdGlobalU32 => {
                match load_word_exec(mem, self.rd[a1]) {
                    Some(v) => { self.r[a0] = v; },
                    None => { return StepOutcome::Fault(Fault::BadAddress); },
                }
            },
            InstType::LdGlobalF32 | InstType::LdGlobalNcF32 => {
                match load_word_exec(mem, self.rd[a1]) {
                    Some(v) => { self.f[a0] = v; },
                    None => { return StepOutcome::Fault(Fault::BadAddress); },
                }
            },
            InstType::StGlobalF32 => {
                let addr = self.rd[a0];
                if addr <= u64::MAX - 3 {
                    store_word_exec(mem, addr, self.f[a1]);
                } else {
                    return StepOutcome::Fault(Fault::BadAddress);
                }
            },
            InstType::StGlobalU32 => {
                let addr = self.rd[a0];
                if addr <= u64::MAX - 3 {
                    store_word_exec(mem, addr, self.r[a1]);
                } else {
                    return StepOutcome::Fault(Fault::BadAddress);
                }
            },
            InstType::SetpGeS32 => {
                let x = #[verifier::truncate] (self.r[a1] as i32);
                let y = #[verifier::truncate] (self.r[a2] as i32);
                self.p[a0] = x >= y;
            },
            InstType::SetpGeS32Imm => {
                let x = #[verifier::truncate] (self.r[a1] as i32);
                let y = #[verifier::truncate] (a2 as i32);
                self.p[a0] = x >= y;
            },
            InstType::SetpLtS32 => {
                let x = #[verifier::truncate] (self.r[a1] as i32);
                let y = #[verifier::truncate] (self.r[a2] as i32);
                self.p[a0] = x < y;
            },
            InstType::SetpLtS32Imm => {
                let x = #[verifier::truncate] (self.r[a1] as i32);
                let y = #[verifier::truncate] (a2 as i32);
                self.p[a0] = x < y;
            },
            InstType::OrPred => { let v = self.p[a1] || self.p[a2]; self.p[a0] = v; },
            InstType::Bra => {
                self.pc = #[verifier::truncate] (a0 as u32);
                return StepOutcome::Executed;
            },
            InstType::BraIf => {
                if self.p[a0] {
                    self.pc = #[verifier::truncate] (a1 as u32);
                } else {
                    self.pc = self.pc + 1;
                }
                return StepOutcome::Executed;
            },
            InstType::BraIfNot => {
                if !self.p[a0] {
                    self.pc = #[verifier::truncate] (a1 as u32);
                } else {
                    self.pc = self.pc + 1;
                }
                return StepOutcome::Executed;
            },
            InstType::Ret => {
                self.pc = self.total_number_inst;
                return StepOutcome::Executed;
            },
            InstType::NoOp => {
                return StepOutcome::Executed;
            },
            _ => {
                return StepOutcome::Fault(Fault::Unsupported);
            },
        }
        self.pc = self.pc + 1;
        StepOutcome::Executed
    }
}

/// A 32-bit register read as a two's-complement signed integer.
pub open spec fn signed32(x: u32) -> int {
    if x < 0x8000_0000 {
        x as int
    } else {
        x as int - 0x1_0000_0000
    }
}

/// An immediate operand slot read as a signed 32-bit integer (its low 32 bits).
pub open spec fn imm32(k: usize) -> int {
    signed32(k as u32)
}

proof fn lemma_i32_of_u32(x: u32)
    ensures
        (x as i32) as int == signed32(x),
{
    assert(x < 0x8000_0000u32 ==> (x as i32) as int == x as int) by (bit_vector);
    assert(x >= 0x8000_0000u32 ==> (x as i32) as int == x as int - 0x1_0000_0000int) by (bit_vector);
}

proof fn lemma_i32_of_usize(k: usize)
    ensures
        (k as i32) as int == imm32(k),
{
    let lo = k as u32;
    assert((k as i32) == (lo as i32)) by (bit_vector)
        requires
            lo == k as u32,
    ;
    lemma_i32_of_u32(lo);
}

/// The unit with instruction `i` at its program counter.
pub open spec fn with_current(u: UnitView, i: InstView) -> UnitView {
    UnitView { insts: u.insts.update(u.pc as int, i), ..u }
}

/// `setp.lt.s32 %p, %a, %b` sets `%p` exactly when `%a < %b` as signed 32-bit
/// integers (so never when both are equal); it changes no other register and
/// moves the program counter on.
pub proof fn lemma_setp_lt_s32(u: UnitView, mem: Map<u64, MemoryElement>, args: Seq<usize>, d: usize, a: usize, b: usize)
    requires
        unit_wf(u),
        !unit_done(u),
        d < NUM_REGS,
        a < NUM_REGS,
        b < NUM_REGS,
    ensures
        ({
            let st = step(with_current(u, InstView { inst_type: InstType::SetpLtS32, args: seq![d, a, b] }), mem, args);
            &&& st.outcome == StepOutcome::Executed
            &&& st.unit.p[d as int] == (signed32(u.r[a as int]) < signed32(u.r[b as int]))
            &&& (a == b ==> !st.unit.p[d as int])
            &&& forall|k: int| 0 <= k < NUM_REGS && k != d ==> st.unit.p[k] == u.p[k]
            &&& st.unit.r == u.r
            &&& st.unit.pc == u.pc + 1
            &&& st.mem == mem
        }),
{
    lemma_i32_of_u32(u.r[a as int]);
    lemma_i32_of_u32(u.r[b as int]);
}

/// For the same operands, `setp.lt.s32` and `setp.ge.s32` set opposite
/// predicates, and so do their immediate forms.
pub proof fn lemma_setp_lt_ge_opposite(
    u: UnitView,
    mem: Map<u64, MemoryElement>,
    args: Seq<usize>,
    d: usize,
    a: usize,
    b: usize,
)
    requires
        unit_wf(u),
        !unit_done(u),
        d < NUM_REGS,
        a < NUM_REGS,
        b < NUM_REGS,
    ensures
        step(with_current(u, InstView { inst_type: InstType::SetpLtS32, args: seq![d, a, b] }), mem, args).unit.p[d as int]
            == !step(with_current(u, InstView { inst_type: InstType::SetpGeS32, args: seq![d, a, b] }), mem, args).unit.p[d as int],
        step(with_current(u, InstView { inst_type: InstType::SetpLtS32Imm, args: seq![d, a, b] }), mem, args).unit.p[d as int]
            == !step(with_current(u, InstView { inst_type: InstType::SetpGeS32Imm, args: seq![d, a, b] }), mem, args).unit.p[d as int],
        step(with_current(u, InstView { inst_type: InstType::SetpGeS32Imm, args: seq![d, a, b] }), mem, args).unit.p[d as int]
            == (signed32(u.r[a as int]) >= imm32(b)),
{
    lemma_i32_of_u32(u.r[a as int]);
    lemma_i32_of_u32(u.r[b as int]);
    lemma_i32_of_usize(b);
}

} // verus!

