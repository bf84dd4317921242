//! What a thread reads through the special registers `%tid`, `%ctaid`,
//! `%ntid` and `%nctaid`, from the lowering of `mov %r, %sreg` through the ids
//! a launch gives each thread to the clock that runs the move.

use crate::basegpu::{prepare_upto, GpuV, LaunchParams};
use crate::execute_unit::{step, unit_done, unit_wf, with_current, StepOutcome, UnitView, NUM_REGS};
use crate::inst_info::InstView;
use crate::lowering::{inst, sp_lower_inst, special_mov};
use crate::ptx_parser::sreg_of;
use crate::memory::MemoryElement;
use crate::ptx_ir::{OperandV, RawV, SpecialReg};
use crate::ptx_output::ParamV;
use crate::thread::ThreadV;
use crate::warp::WarpState;
use vstd::prelude::*;

verus! {

/// What a special register means for a thread of a launch: `%tid` is the
/// thread's position in its block, `%ctaid` its block's position in the grid,
/// `%ntid` the shape of a block and `%nctaid` the shape of the grid.
pub open spec fn sreg_value(sr: SpecialReg, t: ThreadV, lp: LaunchParams) -> u32 {
    match sr {
        SpecialReg::TidX => t.threads_pos.x,
        SpecialReg::TidY => t.threads_pos.y,
        SpecialReg::TidZ => t.threads_pos.z,
        SpecialReg::CtaidX => t.grid_pos.x,
        SpecialReg::CtaidY => t.grid_pos.y,
        SpecialReg::CtaidZ => t.grid_pos.z,
        SpecialReg::NtidX => lp.block.0,
        SpecialReg::NtidY => lp.block.1,
        SpecialReg::NtidZ => lp.block.2,
        SpecialReg::NctaidX => lp.grid.0,
        SpecialReg::NctaidY => lp.grid.1,
        SpecialReg::NctaidZ => lp.grid.2,
    }
}

/// Preparing a launch keeps every thread of a scheduled active warp where it
/// is, puts it at the first instruction of the kernel, and gives it, in order,
/// its position in the block, its block's position in the grid, the block shape
/// and the grid shape as ids.
pub proof fn lemma_prepared_thread(g: GpuV, lp: LaunchParams, insts: Seq<InstView>, s: int, w: int, t: int)
    requires
        0 <= s < g.sms.len(),
        0 <= w < g.sms[s].warps.len(),
        g.scheduled.contains((s as usize, w as usize)),
        g.sms[s].warps[w].state == WarpState::Active,
        0 <= t < g.sms[s].warps[w].threads.len(),
    ensures
        ({
            let th0 = g.sms[s].warps[w].threads[t];
            let th = prepare_upto(g, lp, insts, g.scheduled.len() as int).sms[s].warps[w].threads[t];
            &&& th.threads_pos == th0.threads_pos
            &&& th.grid_pos == th0.grid_pos
            &&& th.unit.pc == 0
            &&& th.unit.insts == insts
            &&& th.unit.ids == seq![
                th0.threads_pos.x,
                th0.threads_pos.y,
                th0.threads_pos.z,
                th0.grid_pos.x,
                th0.grid_pos.y,
                th0.grid_pos.z,
                lp.block.0,
                lp.block.1,
                lp.block.2,
                lp.grid.0,
                lp.grid.1,
                lp.grid.2,
            ]
        }),
{
    assert(g.scheduled.take(g.scheduled.len() as int) =~= g.scheduled);
}

/// A clock never changes a thread's ids.
pub proof fn lemma_step_keeps_ids(u: UnitView, mem: Map<u64, MemoryElement>, args: Seq<usize>)
    ensures
        step(u, mem, args).unit.ids == u.ids,
{
}

/// The move from a special register reads what the register means: in a thread
/// holding the ids a launch gives it, running the instruction that
/// `mov %r, %sreg` lowers to writes `sreg_value(sreg)` into `%r`.
pub proof fn lemma_special_mov_reads(
    sr: SpecialReg,
    th: ThreadV,
    lp: LaunchParams,
    u: UnitView,
    mem: Map<u64, MemoryElement>,
    args: Seq<usize>,
    d: usize,
)
    requires
        unit_wf(u),
        !unit_done(u),
        d < NUM_REGS,
        u.ids == seq![
            th.threads_pos.x,
            th.threads_pos.y,
            th.threads_pos.z,
            th.grid_pos.x,
            th.grid_pos.y,
            th.grid_pos.z,
            lp.block.0,
            lp.block.1,
            lp.block.2,
            lp.grid.0,
            lp.grid.1,
            lp.grid.2,
        ],
    ensures
        ({
            let st = step(with_current(u, inst(special_mov(sr), seq![d])), mem, args);
            &&& st.outcome == StepOutcome::Executed
            &&& st.unit.r[d as int] == sreg_value(sr, th, lp)
            &&& st.unit.pc == u.pc + 1
        }),
{
}

/// After a launch is prepared, a thread of a scheduled active warp that moves
/// `%sreg` into a register reads the value `%sreg` means for that thread, at
/// any later point of its run (its ids never change).
pub proof fn lemma_launch_special_regs(
    g: GpuV,
    lp: LaunchParams,
    insts: Seq<InstView>,
    s: int,
    w: int,
    t: int,
    sr: SpecialReg,
    u: UnitView,
    mem: Map<u64, MemoryElement>,
    args: Seq<usize>,
    d: usize,
)
    requires
        0 <= s < g.sms.len(),
        0 <= w < g.sms[s].warps.len(),
        g.scheduled.contains((s as usize, w as usize)),
        g.sms[s].warps[w].state == WarpState::Active,
        0 <= t < g.sms[s].warps[w].threads.len(),
        u.ids == prepare_upto(g, lp, insts, g.scheduled.len() as int).sms[s].warps[w].threads[t].unit.ids,
        unit_wf(u),
        !unit_done(u),
        d < NUM_REGS,
    ensures
        step(with_current(u, inst(special_mov(sr), seq![d])), mem, args).unit.r[d as int] == sreg_value(
            sr,
            g.sms[s].warps[w].threads[t],
            lp,
        ),
{
    lemma_prepared_thread(g, lp, insts, s, w, t);
    lemma_special_mov_reads(sr, g.sms[s].warps[w].threads[t], lp, u, mem, args, d);
}

/// `mov %r, %sreg` (with no guard) lowers to the move from that special
/// register into `%r`, whatever its modifiers.
pub proof fn lemma_lower_special_mov(r: RawV, allr: Seq<RawV>, params: Seq<ParamV>, sr: SpecialReg)
    requires
        r.guard is None,
        r.mnemonic == "mov"@,
        r.operands.len() == 2,
        r.operands[0] is Register,
        r.operands[1] == OperandV::SpecialReg(sr),
    ensures
        sp_lower_inst(r, allr, params) == Ok::<InstView, crate::parse_error::ErrV>(
            inst(special_mov(sr), seq![r.operands[0]->index as usize]),
        ),
{
    reveal_strlit("mov");
    reveal_strlit("ld");
    reveal_strlit("st");
    assert("mov"@ != "ld"@ && "mov"@ != "st"@) by {
        assert("mov"@.len() == 3 && "ld"@.len() == 2 && "st"@.len() == 2);
    }
}

/// Each `%name.axis` names the register that reads that id along that axis:
/// `%tid.x/.y/.z` read the thread's position in its block, `%ctaid` the block's
/// position in the grid, `%ntid` the block shape and `%nctaid` the grid shape,
/// each along the axis written, for every thread of every launch.
pub proof fn lemma_sreg_names(t: ThreadV, lp: LaunchParams)
    ensures
        sreg_of("tid"@, "x"@) matches Some(sr) && sreg_value(sr, t, lp) == t.threads_pos.x,
        sreg_of("tid"@, "y"@) matches Some(sr) && sreg_value(sr, t, lp) == t.threads_pos.y,
        sreg_of("tid"@, "z"@) matches Some(sr) && sreg_value(sr, t, lp) == t.threads_pos.z,
        sreg_of("ctaid"@, "x"@) matches Some(sr) && sreg_value(sr, t, lp) == t.grid_pos.x,
        sreg_of("ctaid"@, "y"@) matches Some(sr) && sreg_value(sr, t, lp) == t.grid_pos.y,
        sreg_of("ctaid"@, "z"@) matches Some(sr) && sreg_value(sr, t, lp) == t.grid_pos.z,
        sreg_of("ntid"@, "x"@) matches Some(sr) && sreg_value(sr, t, lp) == lp.block.0,
        sreg_of("ntid"@, "y"@) matches Some(sr) && sreg_value(sr, t, lp) == lp.block.1,
        sreg_of("ntid"@, "z"@) matches Some(sr) && sreg_value(sr, t, lp) == lp.block.2,
        sreg_of("nctaid"@, "x"@) matches Some(sr) && sreg_value(sr, t, lp) == lp.grid.0,
        sreg_of("nctaid"@, "y"@) matches Some(sr) && sreg_value(sr, t, lp) == lp.grid.1,
        sreg_of("nctaid"@, "z"@) matches Some(sr) && sreg_value(sr, t, lp) == lp.grid.2,
{
    reveal_strlit("x");
    reveal_strlit("y");
    reveal_strlit("z");
    reveal_strlit("tid");
    reveal_strlit("ctaid");
    reveal_strlit("ntid");
    reveal_strlit("nctaid");
    assert("x"@[0] != "y"@[0] && "x"@[0] != "z"@[0] && "y"@[0] != "z"@[0]);
    assert("tid"@.len() == 3 && "ntid"@.len() == 4 && "ctaid"@.len() == 5 && "nctaid"@.len() == 6);
}

} // verus!
