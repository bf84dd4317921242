//! Errors of the PTX and C-signature front ends.

use crate::ptx_ir::RegBank;
use crate::ptx_lexer::push_char;
use crate::text::strings_view;
use vstd::prelude::*;

verus! {

/// Why a text could not be parsed or lowered.
#[derive(Debug, Clone)]
pub enum ParseError {
    /// The lexer could not classify a character sequence.
    UnknownToken { line: usize, text: String },
    /// A token other than the one the grammar needs.
    UnexpectedToken { line: usize, expected: String, found: String },
    /// The (mnemonic, modifiers) combination is not an emulated instruction.
    UnknownOpcode { line: usize, mnemonic: String, modifiers: Vec<String> },
    /// The operands do not have a supported shape.
    UnsupportedOperandShape { line: usize, opcode: String, reason: String },
    /// A branch target that no label defines.
    UndefinedLabel { line: usize, label: String },
    /// An `ld.param` of a name that is not a parameter.
    UndefinedParam { line: usize, param: String },
    /// No `.entry` block.
    MissingEntry,
    /// A register index above 255.
    RegisterOutOfRange { line: usize, bank: RegBank, index: u32 },
}

/// The value of an error: its kind, its line and its texts.
pub enum ErrV {
    UnknownToken { line: int, text: Seq<char> },
    UnexpectedToken { line: int, expected: Seq<char>, found: Seq<char> },
    UnknownOpcode { line: int, mnemonic: Seq<char>, modifiers: Seq<Seq<char>> },
    UnsupportedOperandShape { line: int, opcode: Seq<char>, reason: Seq<char> },
    UndefinedLabel { line: int, label: Seq<char> },
    UndefinedParam { line: int, param: Seq<char> },
    MissingEntry,
    RegisterOutOfRange { line: int, bank: RegBank, index: u32 },
}

impl View for ParseError {
    type V = ErrV;

    open spec fn view(&self) -> ErrV {
        match self {
            ParseError::UnknownToken { line, text } => ErrV::UnknownToken {
                line: *line as int,
                text: text@,
            },
            ParseError::UnexpectedToken { line, expected, found } => ErrV::UnexpectedToken {
                line: *line as int,
                expected: expected@,
                found: found@,
            },
            ParseError::UnknownOpcode { line, mnemonic, modifiers } => ErrV::UnknownOpcode {
                line: *line as int,
                mnemonic: mnemonic@,
                modifiers: strings_view(modifiers@),
            },
            ParseError::UnsupportedOperandShape { line, opcode, reason } => ErrV::UnsupportedOperandShape {
                line: *line as int,
                opcode: opcode@,
                reason: reason@,
            },
            ParseError::UndefinedLabel { line, label } => ErrV::UndefinedLabel {
                line: *line as int,
                label: label@,
            },
            ParseError::UndefinedParam { line, param } => ErrV::UndefinedParam {
                line: *line as int,
                param: param@,
            },
            ParseError::MissingEntry => ErrV::MissingEntry,
            ParseError::RegisterOutOfRange { line, bank, index } => ErrV::RegisterOutOfRange {
                line: *line as int,
                bank: *bank,
                index: *index,
            },
        }
    }
}

/// An "unexpected token" error: what was wanted and what was there.
pub open spec fn ut(line: int, expected: Seq<char>, found: Seq<char>) -> ErrV {
    ErrV::UnexpectedToken { line, expected, found }
}

/// An "unexpected token" error at `line`, with its two message texts.
pub fn unexpected(line: usize, expected: &str, found: &str) -> (e: ParseError)
    ensures
        e@ == (ErrV::UnexpectedToken { line: line as int, expected: expected@, found: found@ }),
{
    ParseError::UnexpectedToken {
        line,
        expected: String::from_str(expected),
        found: String::from_str(found),
    }
}

/// The decimal digit `d` (below ten).
pub open spec fn digit_char(d: nat) -> char {
    if d == 0 {
        '0'
    } else if d == 1 {
        '1'
    } else if d == 2 {
        '2'
    } else if d == 3 {
        '3'
    } else if d == 4 {
        '4'
    } else if d == 5 {
        '5'
    } else if d == 6 {
        '6'
    } else if d == 7 {
        '7'
    } else if d == 8 {
        '8'
    } else {
        '9'
    }
}

/// The decimal numeral of `n`, without leading zeros.
pub open spec fn decimal(n: nat) -> Seq<char>
    decreases n,
{
    if n < 10 {
        seq![digit_char(n)]
    } else {
        decimal(n / 10).push(digit_char(n % 10))
    }
}

fn digit_exec(d: u64) -> (c: char)
    requires
        d < 10,
    ensures
        c == digit_char(d as nat),
{
    if d == 0 {
        '0'
    } else if d == 1 {
        '1'
    } else if d == 2 {
        '2'
    } else if d == 3 {
        '3'
    } else if d == 4 {
        '4'
    } else if d == 5 {
        '5'
    } else if d == 6 {
        '6'
    } else if d == 7 {
        '7'
    } else if d == 8 {
        '8'
    } else {
        '9'
    }
}

/// The decimal numeral of `n`.
pub fn decimal_text(n: u64) -> (s: String)
    ensures
        s@ == decimal(n as nat),
    decreases n,
{
    if n < 10 {
        let mut s = String::new();
        push_char(&mut s, digit_exec(n));
        proof {
            assert(s@ =~= seq![digit_char(n as nat)]);
        }
        s
    } else {
        let mut s = decimal_text(n / 10);
        push_char(&mut s, digit_exec(n % 10));
        s
    }
}

/// The name of a register bank as messages print it.
pub open spec fn bank_name(b: RegBank) -> Seq<char> {
    match b {
        RegBank::P => "P"@,
        RegBank::R => "R"@,
        RegBank::Rd => "Rd"@,
        RegBank::F => "F"@,
    }
}

/// The modifiers of an opcode, each after a dot: `ms[0..k]`.
pub open spec fn dotted(ms: Seq<Seq<char>>, k: int) -> Seq<char>
    decreases k,
{
    if k <= 0 {
        Seq::empty()
    } else {
        dotted(ms, k - 1) + "."@ + ms[k - 1]
    }
}

/// `line N: ` for line `n`.
pub open spec fn at_line(n: usize) -> Seq<char> {
    "line "@ + decimal(n as nat) + ": "@
}

/// The one-line description of an error.
pub open spec fn error_text(e: ParseError) -> Seq<char> {
    match e {
        ParseError::UnknownToken { line, text } => at_line(line) + "unknown token `"@ + text@ + "`"@,
        ParseError::UnexpectedToken { line, expected, found } => at_line(line) + "expected "@
            + expected@ + ", found `"@ + found@ + "`"@,
        ParseError::UnknownOpcode { line, mnemonic, modifiers } => at_line(line)
            + "unknown opcode `"@ + mnemonic@ + dotted(
            strings_view(modifiers@),
            modifiers@.len() as int,
        ) + "`"@,
        ParseError::UnsupportedOperandShape { line, opcode, reason } => at_line(line) + "`"@
            + opcode@ + "` has unsupported operand shape: "@ + reason@,
        ParseError::UndefinedLabel { line, label } => at_line(line) + "undefined label `"@ + label@
            + "`"@,
        ParseError::UndefinedParam { line, param } => at_line(line) + "undefined parameter `"@
            + param@ + "`"@,
        ParseError::MissingEntry => "PTX contained no .entry block"@,
        ParseError::RegisterOutOfRange { line, bank, index } => at_line(line) + "register %"@
            + bank_name(bank) + decimal(index as nat) + " out of range (max 255)"@,
    }
}

pub(crate) fn bank_text(b: RegBank) -> (s: String)
    ensures
        s@ == bank_name(b),
{
    match b {
        RegBank::P => String::from_str("P"),
        RegBank::R => String::from_str("R"),
        RegBank::Rd => String::from_str("Rd"),
        RegBank::F => String::from_str("F"),
    }
}

fn line_prefix(line: usize) -> (s: String)
    ensures
        s@ == at_line(line),
{
    let mut s = String::from_str("line ");
    let n = decimal_text(line as u64);
    s.append(n.as_str());
    s.append(": ");
    s
}

impl ParseError {
    /// A one-line description of the error (see `error_text`).
    pub fn message(&self) -> (m: String)
        ensures
            m@ == error_text(*self),
    {
        match self {
            ParseError::MissingEntry => String::from_str("PTX contained no .entry block"),
            ParseError::UnknownToken { line, text } => {
                let mut s = line_prefix(*line);
                s.append("unknown token `");
                s.append(text.as_str());
                s.append("`");
                s
            },
            ParseError::UnexpectedToken { line, expected, found } => {
                let mut s = line_prefix(*line);
                s.append("expected ");
                s.append(expected.as_str());
                s.append(", found `");
                s.append(found.as_str());
                s.append("`");
                s
            },
            ParseError::UnknownOpcode { line, mnemonic, modifiers } => {
                let mut s = line_prefix(*line);
                s.append("unknown opcode `");
                s.append(mnemonic.as_str());
                let ghost head = s@;
                let mut i: usize = 0;
                while i < modifiers.len()
                    invariant
                        i <= modifiers@.len(),
                        s@ == head + dotted(strings_view(modifiers@), i as int),
                    decreases modifiers@.len() - i,
                {
                    s.append(".");
                    s.append(modifiers[i].as_str());
                    i = i + 1;
                    assert(s@ =~= head + dotted(strings_view(modifiers@), i as int));
                }
                s.append("`");
                s
            },
            ParseError::UnsupportedOperandShape { line, opcode, reason } => {
                let mut s = line_prefix(*line);
                s.append("`");
                s.append(opcode.as_str());
                s.append("` has unsupported operand shape: ");
                s.append(reason.as_str());
                s
            },
            ParseError::UndefinedLabel { line, label } => {
                let mut s = line_prefix(*line);
                s.append("undefined label `");
                s.append(label.as_str());
                s.append("`");
                s
            },
            ParseError::UndefinedParam { line, param } => {
                let mut s = line_prefix(*line);
                s.append("undefined parameter `");
                s.append(param.as_str());
                s.append("`");
                s
            },
            ParseError::RegisterOutOfRange { line, bank, index } => {
                let mut s = line_prefix(*line);
                s.append("register %");
                let b = bank_text(*bank);
                s.append(b.as_str());
                let n = decimal_text(*index as u64);
                s.append(n.as_str());
                s.append(" out of range (max 255)");
                s
            },
        }
    }
}

} // verus!
