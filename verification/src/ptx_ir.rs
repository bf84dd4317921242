//! Intermediate form of PTX between parsing and lowering.

use crate::text::strings_view;
use vstd::prelude::*;

verus! {

/// Register files.
#[derive(Debug, Clone, Copy, PartialEq, Eq, Structural)]
pub enum RegBank {
    /// Predicates (`%p`).
    P,
    /// 32-bit integers (`%r`).
    R,
    /// 64-bit integers (`%rd`).
    Rd,
    /// 32-bit floats (`%f`).
    F,
}

impl Default for RegBank {
    fn default() -> (b: RegBank)
        ensures
            b == RegBank::P,
    {
        RegBank::P
    }
}

/// Special registers.
#[derive(Debug, Clone, Copy, PartialEq, Eq, Structural)]
pub enum SpecialReg {
    TidX,
    TidY,
    TidZ,
    CtaidX,
    CtaidY,
    CtaidZ,
    NtidX,
    NtidY,
    NtidZ,
    NctaidX,
    NctaidY,
    NctaidZ,
}

impl Default for SpecialReg {
    fn default() -> (r: SpecialReg)
        ensures
            r == SpecialReg::TidX,
    {
        SpecialReg::TidX
    }
}

/// Literal operands.
#[derive(Debug, Clone, Copy, PartialEq, Eq, Structural)]
pub enum ImmediateValue {
    IntZero,
    Int(i64),
    F32Bits(u32),
}

impl Default for ImmediateValue {
    fn default() -> (v: ImmediateValue)
        ensures
            v == ImmediateValue::IntZero,
    {
        ImmediateValue::IntZero
    }
}

/// A predicate guard `@%pN` or `@!%pN`.
#[derive(Debug, Clone, Copy, PartialEq, Eq, Structural)]
pub struct PredGuard {
    pub reg: u32,
    pub negated: bool,
}

impl Default for PredGuard {
    fn default() -> (g: PredGuard)
        ensures
            g == (PredGuard { reg: 0, negated: false }),
    {
        PredGuard { reg: 0, negated: false }
    }
}

/// An operand as written.
#[derive(Debug)]
pub enum RawOperand {
    Register { bank: RegBank, index: u32 },
    SpecialReg(SpecialReg),
    Immediate(ImmediateValue),
    /// `[inner]`.
    MemoryRef(Box<RawOperand>),
    Identifier(String),
    /// A branch target such as `$L__BB0_2`.
    Label(String),
}

/// The value of an operand.
pub enum OperandV {
    Register { bank: RegBank, index: u32 },
    SpecialReg(SpecialReg),
    Immediate(ImmediateValue),
    MemoryRef(Box<OperandV>),
    Identifier(Seq<char>),
    Label(Seq<char>),
}

impl RawOperand {
    pub open spec fn view_of(self) -> OperandV
        decreases self,
    {
        match self {
            RawOperand::Register { bank, index } => OperandV::Register { bank, index },
            RawOperand::SpecialReg(s) => OperandV::SpecialReg(s),
            RawOperand::Immediate(v) => OperandV::Immediate(v),
            RawOperand::MemoryRef(b) => OperandV::MemoryRef(Box::new((*b).view_of())),
            RawOperand::Identifier(s) => OperandV::Identifier(s@),
            RawOperand::Label(s) => OperandV::Label(s@),
        }
    }
}

impl View for RawOperand {
    type V = OperandV;

    open spec fn view(&self) -> OperandV {
        self.view_of()
    }
}

impl Default for RawOperand {
    fn default() -> (o: RawOperand)
        ensures
            o@ == OperandV::Immediate(ImmediateValue::IntZero),
    {
        RawOperand::Immediate(ImmediateValue::IntZero)
    }
}

/// One instruction (or label marker) as written.
#[derive(Debug)]
pub struct RawInstruction {
    pub predicate_guard: Option<PredGuard>,
    pub mnemonic: String,
    pub modifiers: Vec<String>,
    pub operands: Vec<RawOperand>,
    /// Source line, for messages.
    pub line: usize,
}

/// The value of a raw instruction.
pub struct RawV {
    pub guard: Option<PredGuard>,
    pub mnemonic: Seq<char>,
    pub modifiers: Seq<Seq<char>>,
    pub operands: Seq<OperandV>,
    pub line: int,
}

/// The values of a list of operands.
pub open spec fn operands_view(v: Seq<RawOperand>) -> Seq<OperandV> {
    Seq::new(v.len(), |i: int| v[i]@)
}

impl View for RawInstruction {
    type V = RawV;

    open spec fn view(&self) -> RawV {
        RawV {
            guard: self.predicate_guard,
            mnemonic: self.mnemonic@,
            modifiers: strings_view(self.modifiers@),
            operands: operands_view(self.operands@),
            line: self.line as int,
        }
    }
}

/// The values of a list of raw instructions.
pub open spec fn raws_view(v: Seq<RawInstruction>) -> Seq<RawV> {
    Seq::new(v.len(), |i: int| v[i]@)
}

} // verus!
