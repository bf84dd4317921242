//! One emulated GPU thread: where it sits in the launch and its execute unit.

use crate::execute_unit::{execute_unit, fresh_unit, UnitView};
use crate::nvtypes::dim3;
use vstd::prelude::*;

verus! {

/// A thread: its block's position in the grid, its position in the block, and
/// the unit that runs its instructions.
pub struct Thread {
    pub grid_pos: dim3,
    pub threads_pos: dim3,
    pub execute_unit: execute_unit,
}

/// The value of a thread.
pub struct ThreadV {
    pub grid_pos: dim3,
    pub threads_pos: dim3,
    pub unit: UnitView,
}

impl View for Thread {
    type V = ThreadV;

    open spec fn view(&self) -> ThreadV {
        ThreadV { grid_pos: self.grid_pos, threads_pos: self.threads_pos, unit: self.execute_unit@ }
    }
}

/// A thread as created: both positions zero, a reset unit.
pub open spec fn fresh_thread(t: ThreadV) -> bool {
    &&& t.grid_pos == (dim3 { x: 0, y: 0, z: 0 })
    &&& t.threads_pos == (dim3 { x: 0, y: 0, z: 0 })
    &&& fresh_unit(t.unit)
}

impl Thread {
    /// A thread at the origin with a reset unit.
    pub fn new() -> (t: Thread)
        ensures
            fresh_thread(t@),
    {
        Thread { grid_pos: dim3::zero(), threads_pos: dim3::zero(), execute_unit: execute_unit::new() }
    }

    /// Sets the block position.
    pub fn set_grid_pos(&mut self, grid_pos: dim3)
        ensures
            final(self)@ == (ThreadV { grid_pos, ..old(self)@ }),
    {
        self.grid_pos = grid_pos;
    }

    /// Sets the position inside the block.
    pub fn set_threads_pos(&mut self, threads_pos: dim3)
        ensures
            final(self)@ == (ThreadV { threads_pos, ..old(self)@ }),
    {
        self.threads_pos = threads_pos;
    }
}

} // verus!
