//! The instruction set the emulator executes.

use vstd::prelude::*;

verus! {

/// Which kind of execute unit an instruction occupies.
#[derive(Debug, Clone, Copy, PartialEq, Eq, Structural)]
pub enum ExecuteUnitClass {
    Memory,
    Special,
    Generic,
}

/// Emulated instructions.
#[derive(Debug, Clone, Copy, PartialEq, Eq, Structural)]
pub enum InstType {
    NoOp,
    LdParamU64,
    LdParamU32,
    LdParamF32,
    MovTidX,
    MovTidY,
    MovTidZ,
    MovCtaidX,
    MovCtaidY,
    MovCtaidZ,
    MovNtidX,
    MovNtidY,
    MovNtidZ,
    MovNctaidX,
    MovNctaidY,
    MovNctaidZ,
    MovU32,
    MovU32Imm,
    MovU64,
    MovU64Imm,
    MovF32,
    MovF32Imm,
    MovF32Bits,
    MovB32FromF32,
    MovF32FromB32,
    NegF32,
    AddS32,
    AddS32Imm,
    AddS64,
    AddF32,
    AddF32Imm,
    SubF32,
    DivRnF32,
    MulF32,
    MulWideS32,
    MadLoS32,
    FmaRnF32,
    FmaRmF32,
    ShlB32,
    RcpRnF32,
    Ex2ApproxF32,
    CvtaToGlobal,
    CvtSatF32F32,
    CvtRnF32S32,
    LdGlobalU32,
    LdGlobalF32,
    LdGlobalNcF32,
    StGlobalU32,
    StGlobalF32,
    SetpGeS32,
    SetpLeF32Imm,
    SetpGeS32Imm,
    SetpLtS32,
    SetpLtS32Imm,
    OrPred,
    Bra,
    BraIf,
    BraIfNot,
    Ret,
    AndB32,
    AndB32Imm,
    SetpEqB32,
    XorPred,
    NotPred,
    ShrU32,
    ShrS32,
    MovPred,
    MadLoS32Imm,
    BraUni,
    SetpEqS32,
    SetpNeS32,
    SetpEqS32Imm,
    SetpNeS32Imm,
    SetpLeF32,
    SetpLtU32,
    SetpLtU32Imm,
    AndPred,
    SubS32,
    SubS32Imm,
}

impl Default for InstType {
    fn default() -> (t: InstType)
        ensures
            t == InstType::NoOp,
    {
        InstType::NoOp
    }
}

/// The class of execute unit an instruction type runs on.
pub open spec fn unit_class(t: InstType) -> ExecuteUnitClass {
    match t {
        InstType::LdParamU64
        | InstType::LdParamU32
        | InstType::LdParamF32
        | InstType::CvtaToGlobal
        | InstType::LdGlobalU32
        | InstType::LdGlobalF32
        | InstType::LdGlobalNcF32
        | InstType::StGlobalU32
        | InstType::StGlobalF32 => ExecuteUnitClass::Memory,
        InstType::Ex2ApproxF32 => ExecuteUnitClass::Special,
        _ => ExecuteUnitClass::Generic,
    }
}

impl InstType {
    /// Memory instructions need a memory unit, `ex2` a special-function unit,
    /// everything else runs on any unit.
    pub fn execute_unit_class(&self) -> (c: ExecuteUnitClass)
        ensures
            c == unit_class(*self),
    {
        match self {
            InstType::LdParamU64
            | InstType::LdParamU32
            | InstType::LdParamF32
            | InstType::CvtaToGlobal
            | InstType::LdGlobalU32
            | InstType::LdGlobalF32
            | InstType::LdGlobalNcF32
            | InstType::StGlobalU32
            | InstType::StGlobalF32 => ExecuteUnitClass::Memory,
            InstType::Ex2ApproxF32 => ExecuteUnitClass::Special,
            _ => ExecuteUnitClass::Generic,
        }
    }
}

} // verus!
