//! How error messages write the values they quote: signed numbers, quoted
//! names, and operands, in the notation of Rust's `Debug` (names are quoted as
//! they are; the reader only produces names without characters that would need
//! escaping).

use crate::parse_error::{bank_name, decimal, decimal_text};
use crate::ptx_ir::{ImmediateValue, OperandV, RawOperand, SpecialReg};
use vstd::prelude::*;

verus! {

broadcast use vstd::string::group_string_axioms;

/// The decimal numeral of `x`, with a leading `-` when it is negative.
pub open spec fn signed_decimal(x: int) -> Seq<char> {
    if x < 0 {
        "-"@ + decimal((-x) as nat)
    } else {
        decimal(x as nat)
    }
}

/// The decimal numeral of a signed 64-bit value.
pub fn signed_text(x: i64) -> (s: String)
    ensures
        s@ == signed_decimal(x as int),
{
    if x < 0 {
        let m: u64 = ((-(x + 1)) as u64) + 1;
        let mut s = String::from_str("-");
        let d = decimal_text(m);
        s.append(d.as_str());
        s
    } else {
        decimal_text(x as u64)
    }
}

/// `"s"`: a name in quotes.
pub open spec fn quoted(s: Seq<char>) -> Seq<char> {
    "\""@ + s + "\""@
}

/// The variant name of a special register.
pub open spec fn sreg_name(r: SpecialReg) -> Seq<char> {
    match r {
        SpecialReg::TidX => "TidX"@,
        SpecialReg::TidY => "TidY"@,
        SpecialReg::TidZ => "TidZ"@,
        SpecialReg::CtaidX => "CtaidX"@,
        SpecialReg::CtaidY => "CtaidY"@,
        SpecialReg::CtaidZ => "CtaidZ"@,
        SpecialReg::NtidX => "NtidX"@,
        SpecialReg::NtidY => "NtidY"@,
        SpecialReg::NtidZ => "NtidZ"@,
        SpecialReg::NctaidX => "NctaidX"@,
        SpecialReg::NctaidY => "NctaidY"@,
        SpecialReg::NctaidZ => "NctaidZ"@,
    }
}

/// An immediate as messages write it.
pub open spec fn imm_debug(v: ImmediateValue) -> Seq<char> {
    match v {
        ImmediateValue::IntZero => "IntZero"@,
        ImmediateValue::Int(x) => "Int("@ + signed_decimal(x as int) + ")"@,
        ImmediateValue::F32Bits(b) => "F32Bits("@ + decimal(b as nat) + ")"@,
    }
}

/// An operand as messages write it.
pub open spec fn operand_debug(o: OperandV) -> Seq<char>
    decreases o,
{
    match o {
        OperandV::Register { bank, index } => "Register { bank: "@ + bank_name(bank) + ", index: "@
            + decimal(index as nat) + " }"@,
        OperandV::SpecialReg(r) => "SpecialReg("@ + sreg_name(r) + ")"@,
        OperandV::Immediate(v) => "Immediate("@ + imm_debug(v) + ")"@,
        OperandV::MemoryRef(inner) => "MemoryRef("@ + operand_debug(*inner) + ")"@,
        OperandV::Identifier(s) => "Identifier("@ + quoted(s) + ")"@,
        OperandV::Label(s) => "Label("@ + quoted(s) + ")"@,
    }
}

fn sreg_text(r: SpecialReg) -> (s: String)
    ensures
        s@ == sreg_name(r),
{
    match r {
        SpecialReg::TidX => String::from_str("TidX"),
        SpecialReg::TidY => String::from_str("TidY"),
        SpecialReg::TidZ => String::from_str("TidZ"),
        SpecialReg::CtaidX => String::from_str("CtaidX"),
        SpecialReg::CtaidY => String::from_str("CtaidY"),
        SpecialReg::CtaidZ => String::from_str("CtaidZ"),
        SpecialReg::NtidX => String::from_str("NtidX"),
        SpecialReg::NtidY => String::from_str("NtidY"),
        SpecialReg::NtidZ => String::from_str("NtidZ"),
        SpecialReg::NctaidX => String::from_str("NctaidX"),
        SpecialReg::NctaidY => String::from_str("NctaidY"),
        SpecialReg::NctaidZ => String::from_str("NctaidZ"),
    }
}

/// `"s"`: a name in quotes.
pub fn quoted_text(s: &str) -> (q: String)
    ensures
        q@ == quoted(s@),
{
    let mut q = String::from_str("\"");
    q.append(s);
    q.append("\"");
    q
}

/// An operand as messages write it (see `operand_debug`).
pub fn operand_text(o: &RawOperand) -> (s: String)
    ensures
        s@ == operand_debug(o@),
    decreases o,
{
    proof {
        reveal_with_fuel(RawOperand::view_of, 2);
    }
    match o {
        RawOperand::Register { bank, index } => {
            let mut s = String::from_str("Register { bank: ");
            let b = crate::parse_error::bank_text(*bank);
            s.append(b.as_str());
            s.append(", index: ");
            let n = decimal_text(*index as u64);
            s.append(n.as_str());
            s.append(" }");
            s
        },
        RawOperand::SpecialReg(r) => {
            let mut s = String::from_str("SpecialReg(");
            let t = sreg_text(*r);
            s.append(t.as_str());
            s.append(")");
            s
        },
        RawOperand::Immediate(v) => {
            let mut s = String::from_str("Immediate(");
            match v {
                ImmediateValue::IntZero => s.append("IntZero"),
                ImmediateValue::Int(x) => {
                    s.append("Int(");
                    let t = signed_text(*x);
                    s.append(t.as_str());
                    s.append(")");
                },
                ImmediateValue::F32Bits(b) => {
                    s.append("F32Bits(");
                    let t = decimal_text(*b as u64);
                    s.append(t.as_str());
                    s.append(")");
                },
            }
            s.append(")");
            s
        },
        RawOperand::MemoryRef(inner) => {
            let mut s = String::from_str("MemoryRef(");
            let t = operand_text(&**inner);
            s.append(t.as_str());
            s.append(")");
            s
        },
        RawOperand::Identifier(n) => {
            let mut s = String::from_str("Identifier(");
            let t = quoted_text(n.as_str());
            s.append(t.as_str());
            s.append(")");
            s
        },
        RawOperand::Label(n) => {
            let mut s = String::from_str("Label(");
            let t = quoted_text(n.as_str());
            s.append(t.as_str());
            s.append(")");
            s
        },
    }
}

} // verus!
