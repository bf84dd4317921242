//! Results of parsing: kernels and signatures.

use crate::inst_info::{inst_info, InstView};
use vstd::prelude::*;

verus! {

/// PTX scalar types.
#[derive(Debug, Clone, Copy, PartialEq, Eq, Structural)]
pub enum PtxType {
    U32,
    U64,
    S32,
    S64,
    F32,
    B32,
    B64,
    Pred,
}

impl Default for PtxType {
    fn default() -> (t: PtxType)
        ensures
            t == PtxType::U32,
    {
        PtxType::U32
    }
}

/// A kernel parameter.
#[derive(Debug, Clone)]
pub struct ParamInfo {
    pub name: String,
    pub ptx_type: PtxType,
}

/// The value of a parameter.
pub struct ParamV {
    pub name: Seq<char>,
    pub ptx_type: PtxType,
}

impl View for ParamInfo {
    type V = ParamV;

    open spec fn view(&self) -> ParamV {
        ParamV { name: self.name@, ptx_type: self.ptx_type }
    }
}

/// The values of a parameter list.
pub open spec fn params_view(v: Seq<ParamInfo>) -> Seq<ParamV> {
    Seq::new(v.len(), |i: int| v[i]@)
}

/// A parsed kernel: its name, parameters, and instructions (instruction index =
/// program counter).
#[derive(Debug)]
pub struct ParsedKernel {
    pub name: String,
    pub params: Vec<ParamInfo>,
    pub instructions: Vec<inst_info>,
}

/// The values of an instruction list.
pub open spec fn insts_view(v: Seq<inst_info>) -> Seq<InstView> {
    Seq::new(v.len(), |i: int| v[i]@)
}

/// A parameter of a C signature: the pointed-to type and the number of `*`.
#[derive(Debug, Clone)]
pub struct SignatureParam {
    pub name: String,
    pub ptx_type: PtxType,
    pub pointer_levels: u8,
}

/// The value of a signature parameter.
pub struct SigParamV {
    pub name: Seq<char>,
    pub ptx_type: PtxType,
    pub pointer_levels: u8,
}

impl View for SignatureParam {
    type V = SigParamV;

    open spec fn view(&self) -> SigParamV {
        SigParamV { name: self.name@, ptx_type: self.ptx_type, pointer_levels: self.pointer_levels }
    }
}

/// A parsed C signature.
#[derive(Debug, Clone)]
pub struct ParsedSignature {
    pub name: String,
    pub params: Vec<SignatureParam>,
}

/// The value of a parsed signature.
pub struct SigV {
    pub name: Seq<char>,
    pub params: Seq<SigParamV>,
}

impl View for ParsedSignature {
    type V = SigV;

    open spec fn view(&self) -> SigV {
        SigV { name: self.name@, params: Seq::new(self.params@.len(), |i: int| self.params@[i]@) }
    }
}

} // verus!
