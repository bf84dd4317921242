//! A warp: 32 threads issued together.

use crate::execute_unit::{unit_done, UnitView};
use crate::inst_type::{unit_class, ExecuteUnitClass};
use crate::nvtypes::dim3;
use crate::thread::{fresh_thread, Thread, ThreadV};
use vstd::prelude::*;

verus! {

/// Threads per warp.
pub const WARP_SIZE: usize = 32;

/// Whether a warp has work.
#[derive(Debug, Clone, Copy, PartialEq, Eq, Structural)]
pub enum WarpState {
    Active,
    Stalled,
    InActive,
}

impl Default for WarpState {
    fn default() -> (s: WarpState)
        ensures
            s == WarpState::InActive,
    {
        WarpState::InActive
    }
}

impl WarpState {
    /// The state's number (0, 1, 2 in declaration order), as written in dumps.
    pub fn code(&self) -> (c: u8)
        ensures
            c == match *self {
                WarpState::Active => 0u8,
                WarpState::Stalled => 1u8,
                WarpState::InActive => 2u8,
            },
    {
        match self {
            WarpState::Active => 0,
            WarpState::Stalled => 1,
            WarpState::InActive => 2,
        }
    }
}

/// A warp: its threads and its state.
pub struct Warp {
    pub threads: Vec<Thread>,
    pub state: WarpState,
}

/// The value of a warp.
pub struct WarpV {
    pub threads: Seq<ThreadV>,
    pub state: WarpState,
}

/// The values of a thread list.
pub open spec fn threads_view(v: Seq<Thread>) -> Seq<ThreadV> {
    Seq::new(v.len(), |i: int| v[i]@)
}

impl View for Warp {
    type V = WarpV;

    open spec fn view(&self) -> WarpV {
        WarpV { threads: threads_view(self.threads@), state: self.state }
    }
}

/// A warp as created: `WARP_SIZE` fresh threads, inactive.
pub open spec fn fresh_warp(w: WarpV) -> bool {
    &&& w.threads.len() == WARP_SIZE
    &&& forall|i: int| 0 <= i < WARP_SIZE ==> fresh_thread(#[trigger] w.threads[i])
    &&& w.state == WarpState::InActive
}

/// The first thread at or after `i` that has not finished, if any.
pub open spec fn first_pending(ts: Seq<ThreadV>, i: int) -> Option<int>
    decreases ts.len() - i,
{
    if i < 0 || i >= ts.len() {
        None
    } else if !unit_done(ts[i].unit) {
        Some(i)
    } else {
        first_pending(ts, i + 1)
    }
}

/// The unit class of the instruction a warp issues next: that of the first
/// unfinished thread's current instruction; none once every thread is done.
pub open spec fn next_class(w: WarpV) -> Option<ExecuteUnitClass> {
    match first_pending(w.threads, 0) {
        None => None,
        Some(k) => {
            let u: UnitView = w.threads[k].unit;
            Some(unit_class(u.insts[u.pc as int].inst_type))
        },
    }
}

/// Among the first `n` threads, the unfinished ones whose program counter is not `pc`.
pub open spec fn count_diverged(ts: Seq<ThreadV>, pc: u32, n: int) -> nat
    decreases n,
{
    if n <= 0 {
        0
    } else {
        count_diverged(ts, pc, n - 1) + if !unit_done(ts[n - 1].unit) && ts[n - 1].unit.pc != pc {
            1nat
        } else {
            0nat
        }
    }
}

/// How far a warp's threads have drifted apart: the number of unfinished threads
/// whose program counter differs from that of the first unfinished thread
/// (0 for a converged or finished warp).
pub open spec fn divergence(w: WarpV) -> nat {
    match first_pending(w.threads, 0) {
        None => 0,
        Some(k) => count_diverged(w.threads, w.threads[k].unit.pc, w.threads.len() as int),
    }
}

/// Every thread of the warp has finished.
pub open spec fn all_done(w: WarpV) -> bool {
    forall|i: int| 0 <= i < w.threads.len() ==> unit_done(#[trigger] w.threads[i].unit)
}

proof fn lemma_count_bound(ts: Seq<ThreadV>, pc: u32, n: int)
    ensures
        count_diverged(ts, pc, n) <= if n > 0 {
            n
        } else {
            0
        },
    decreases n,
{
    if n > 0 {
        lemma_count_bound(ts, pc, n - 1);
    }
}

proof fn lemma_first_pending(ts: Seq<ThreadV>, i: int)
    requires
        0 <= i,
    ensures
        first_pending(ts, i) matches Some(k) ==> i <= k < ts.len() && !unit_done(ts[k].unit),
        first_pending(ts, i) is None ==> forall|j: int| i <= j < ts.len() ==> unit_done(
            #[trigger] ts[j].unit,
        ),
    decreases ts.len() - i,
{
    if i < ts.len() && unit_done(ts[i].unit) {
        lemma_first_pending(ts, i + 1);
    }
}

impl Warp {
    /// `WARP_SIZE` fresh threads, inactive.
    pub fn new() -> (w: Warp)
        ensures
            fresh_warp(w@),
    {
        let mut threads: Vec<Thread> = Vec::new();
        let mut i: usize = 0;
        while i < WARP_SIZE
            invariant
                i <= WARP_SIZE,
                threads@.len() == i,
                forall|k: int| 0 <= k < i ==> fresh_thread(#[trigger] threads@[k]@),
            decreases WARP_SIZE - i,
        {
            threads.push(Thread::new());
            i = i + 1;
        }
        Warp { threads, state: WarpState::InActive }
    }

    /// Whether the warp is in use (any state but inactive).
    pub fn is_occupied(&self) -> (b: bool)
        ensures
            b == (self.state != WarpState::InActive),
    {
        self.state != WarpState::InActive
    }

    /// Sets the state.
    pub fn set_state(&mut self, state: WarpState)
        ensures
            final(self)@ == (WarpV { state, ..old(self)@ }),
    {
        self.state = state;
    }

    /// Places the threads: each of the first `min(threads, coordinates)` threads
    /// gets the block position `block_dim` and its coordinate from `thread_dim`,
    /// in order; the other threads are left as they were.
    pub fn set_coords(&mut self, block_dim: (u32, u32, u32), thread_dim: Vec<(u32, u32, u32)>)
        ensures
            final(self)@.state == old(self)@.state,
            final(self)@.threads.len() == old(self)@.threads.len(),
            forall|i: int|
                0 <= i < old(self)@.threads.len() ==> #[trigger] final(self)@.threads[i] == if i
                    < thread_dim@.len() {
                    ThreadV {
                        grid_pos: dim3 { x: block_dim.0, y: block_dim.1, z: block_dim.2 },
                        threads_pos: dim3 {
                            x: thread_dim@[i].0,
                            y: thread_dim@[i].1,
                            z: thread_dim@[i].2,
                        },
                        unit: old(self)@.threads[i].unit,
                    }
                } else {
                    old(self)@.threads[i]
                },
    {
        let block_dim3 = dim3 { x: block_dim.0, y: block_dim.1, z: block_dim.2 };
        let n = self.threads.len();
        let mut i: usize = 0;
        while i < n && i < thread_dim.len()
            invariant
                n == old(self)@.threads.len(),
                self.threads@.len() == n,
                self.state == old(self).state,
                i <= n,
                i <= thread_dim@.len(),
                forall|k: int|
                    0 <= k < n ==> #[trigger] self@.threads[k] == if k < i {
                        ThreadV {
                            grid_pos: block_dim3,
                            threads_pos: dim3 {
                                x: thread_dim@[k].0,
                                y: thread_dim@[k].1,
                                z: thread_dim@[k].2,
                            },
                            unit: old(self)@.threads[k].unit,
                        }
                    } else {
                        old(self)@.threads[k]
                    },
            decreases n - i,
        {
            let coord = thread_dim[i];
            let coord3 = dim3 { x: coord.0, y: coord.1, z: coord.2 };
            let ghost vbefore = self@.threads;
            self.threads[i].set_grid_pos(block_dim3);
            self.threads[i].set_threads_pos(coord3);
            assert(self@.threads =~= vbefore.update(
                i as int,
                ThreadV { grid_pos: block_dim3, threads_pos: coord3, unit: vbefore[i as int].unit },
            ));
            i = i + 1;
        }
    }

    /// The index of the first unfinished thread, if any.
    fn first_pending_exec(&self) -> (r: Option<usize>)
        ensures
            match first_pending(self@.threads, 0) {
                Some(k) => r matches Some(x) && x as int == k,
                None => r is None,
            },
    {
        let n = self.threads.len();
        let mut i: usize = 0;
        while i < n
            invariant
                n == self@.threads.len(),
                i <= n,
                first_pending(self@.threads, 0) == first_pending(self@.threads, i as int),
            decreases n - i,
        {
            if !self.threads[i].execute_unit.is_done() {
                return Some(i);
            }
            i = i + 1;
        }
        None
    }

    /// The unit class of the instruction this warp issues next (see `next_class`).
    pub fn next_execute_unit_class(&self) -> (c: Option<ExecuteUnitClass>)
        ensures
            c == next_class(self@),
    {
        proof {
            lemma_first_pending(self@.threads, 0);
        }
        match self.first_pending_exec() {
            None => None,
            Some(k) => {
                let u = &self.threads[k].execute_unit;
                assert(u@ == self@.threads[k as int].unit);
                match u.current_inst() {
                    Some(inst) => Some(inst.inst_type.execute_unit_class()),
                    None => None,
                }
            },
        }
    }

    /// How far the threads have drifted apart (see `divergence`).
    pub fn divergence_score(&self) -> (d: usize)
        ensures
            d == divergence(self@),
    {
        proof {
            lemma_first_pending(self@.threads, 0);
        }
        match self.first_pending_exec() {
            None => 0,
            Some(k) => {
                let pc0 = self.threads[k].execute_unit.pc();
                let n = self.threads.len();
                let mut count: usize = 0;
                let mut i: usize = 0;
                while i < n
                    invariant
                        n == self@.threads.len(),
                        i <= n,
                        count == count_diverged(self@.threads, pc0, i as int),
                    decreases n - i,
                {
                    proof {
                        lemma_count_bound(self@.threads, pc0, i as int);
                    }
                    let u = &self.threads[i].execute_unit;
                    if !u.is_done() && u.pc() != pc0 {
                        count = count + 1;
                    }
                    i = i + 1;
                }
                count
            },
        }
    }

    /// Whether every thread has finished.
    pub fn all_threads_done(&self) -> (b: bool)
        ensures
            b == all_done(self@),
    {
        proof {
            lemma_first_pending(self@.threads, 0);
        }
        self.first_pending_exec().is_none()
    }
}

} // verus!
