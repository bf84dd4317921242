//! One decoded instruction: its type and its numeric operand slots.

use crate::inst_type::InstType;
use vstd::prelude::*;

verus! {

/// An instruction: the operation and its operands, each encoded as a `usize`
/// (register index, immediate, parameter index or branch target, by position).
#[allow(non_camel_case_types)]
#[derive(Debug)]
pub struct inst_info {
    pub inst_type: InstType,
    pub args: Vec<usize>,
}

/// The mathematical value of an instruction.
pub struct InstView {
    pub inst_type: InstType,
    pub args: Seq<usize>,
}

impl View for inst_info {
    type V = InstView;

    open spec fn view(&self) -> InstView {
        InstView { inst_type: self.inst_type, args: self.args@ }
    }
}

/// Builds an instruction from its type and operands.
pub fn make_inst(inst_type: InstType, args: Vec<usize>) -> (i: inst_info)
    ensures
        i.inst_type == inst_type,
        i.args@ == args@,
{
    inst_info { inst_type, args }
}

/// A copy of a `usize` vector.
pub fn copy_args(v: &Vec<usize>) -> (out: Vec<usize>)
    ensures
        out@ == v@,
{
    let mut out: Vec<usize> = Vec::new();
    let mut i: usize = 0;
    while i < v.len()
        invariant
            i <= v@.len(),
            out@ == v@.take(i as int),
        decreases v@.len() - i,
    {
        out.push(v[i]);
        i = i + 1;
        assert(out@ =~= v@.take(i as int));
    }
    assert(v@.take(v@.len() as int) =~= v@);
    out
}

impl inst_info {
    /// A copy of this instruction.
    pub fn duplicate(&self) -> (out: inst_info)
        ensures
            out@ == self@,
    {
        inst_info { inst_type: self.inst_type, args: copy_args(&self.args) }
    }
}

/// A copy of an instruction list.
pub fn copy_insts(v: &Vec<inst_info>) -> (out: Vec<inst_info>)
    ensures
        out@.len() == v@.len(),
        forall|i: int| 0 <= i < v@.len() ==> #[trigger] out@[i]@ == v@[i]@,
{
    let mut out: Vec<inst_info> = Vec::new();
    let mut i: usize = 0;
    while i < v.len()
        invariant
            i <= v@.len(),
            out@.len() == i,
            forall|k: int| 0 <= k < i ==> #[trigger] out@[k]@ == v@[k]@,
        decreases v@.len() - i,
    {
        out.push(v[i].duplicate());
        i = i + 1;
    }
    out
}

} // verus!
