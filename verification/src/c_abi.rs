//! Records exchanged with a C implementation of the PTX reader: token and
//! operand tags, register references, and fixed-size instruction records, with
//! the conversion of instruction records into emulator instructions.

use crate::inst_info::{inst_info, InstView};
use crate::inst_type::InstType;
use vstd::prelude::*;

verus! {

/// Operand slots in a C instruction record.
pub const MAX_INST_ARGS: usize = 8;

/// Token tags of the C lexer.
#[allow(non_camel_case_types)]
#[derive(Debug, Clone, Copy, PartialEq, Eq, Structural)]
pub enum TokenType {
    TOK_COMMA,
    TOK_SEMICOLON,
    TOK_COLON,
    TOK_LPAREN,
    TOK_RPAREN,
    TOK_LBRACE,
    TOK_RBRACE,
    TOK_LBRACKET,
    TOK_RBRACKET,
    TOK_PERCENT,
    TOK_DOT,
    TOK_AT,
    TOK_AT_NOT,
    TOK_LABEL,
    TOK_FLOAT_BITS,
    TOK_INT_HEX,
    TOK_INT_DEC,
    TOK_ID,
    TOK_NEWLINE,
    TOK_EOF,
}

/// Immediate tags of the C reader.
#[allow(non_camel_case_types)]
#[derive(Debug, Clone, Copy, PartialEq, Eq, Structural)]
pub enum ImmType {
    IMM_INT_ZERO,
    IMM_INT,
    IMM_F32_BITS,
}

/// Operand tags of the C reader.
#[allow(non_camel_case_types)]
#[derive(Debug, Clone, Copy, PartialEq, Eq, Structural)]
pub enum RawOperandType {
    RAW_OP_REGISTER,
    RAW_OP_SPECIAL_REG,
    RAW_OP_IMMEDIATE,
    RAW_OP_MEMORY_REF,
    RAW_OP_ID,
    RAW_OP_LABEL,
}

/// Register banks of the C reader.
#[allow(non_camel_case_types)]
#[derive(Debug, Clone, Copy, PartialEq, Eq, Structural)]
pub enum CRegBank {
    REG_BANK_P,
    REG_BANK_R,
    REG_BANK_RD,
    REG_BANK_F,
}

/// A register reference of the C reader: bank and index.
#[allow(non_camel_case_types)]
#[derive(Debug, Clone, Copy, PartialEq, Eq, Structural)]
pub struct reg {
    pub bank: CRegBank,
    pub index: u32,
}

/// A lowered instruction as the C reader hands it over: the opcode, a fixed
/// array of operand slots, and how many of them are used.
#[derive(Debug, Clone, Copy)]
pub struct InstInfo {
    pub opcode: InstType,
    pub args: [usize; 8],
    pub arg_count: usize,
}

/// The instruction a record stands for: its opcode and its used slots.
pub open spec fn record_inst(c: InstInfo) -> InstView {
    InstView { inst_type: c.opcode, args: c.args@.take(c.arg_count as int) }
}

/// A record is usable when it uses no more slots than it has.
pub open spec fn record_ok(c: InstInfo) -> bool {
    c.arg_count <= MAX_INST_ARGS
}

/// The emulator instruction of one record.
pub fn translate_one(c: &InstInfo) -> (out: inst_info)
    requires
        record_ok(*c),
    ensures
        out@ == record_inst(*c),
{
    let mut args: Vec<usize> = Vec::new();
    let mut k: usize = 0;
    while k < c.arg_count
        invariant
            c.arg_count <= MAX_INST_ARGS,
            k <= c.arg_count,
            args@ == c.args@.take(k as int),
        decreases c.arg_count - k,
    {
        args.push(c.args[k]);
        k = k + 1;
        assert(args@ =~= c.args@.take(k as int));
    }
    inst_info { inst_type: c.opcode, args }
}

/// The emulator instructions of a list of records, in order.
pub fn translate(parsed: &[InstInfo]) -> (out: Vec<inst_info>)
    requires
        forall|i: int| 0 <= i < parsed@.len() ==> record_ok(#[trigger] parsed@[i]),
    ensures
        out@.len() == parsed@.len(),
        forall|i: int| 0 <= i < parsed@.len() ==> #[trigger] out@[i]@ == record_inst(parsed@[i]),
{
    let mut out: Vec<inst_info> = Vec::new();
    let mut i: usize = 0;
    while i < parsed.len()
        invariant
            i <= parsed@.len(),
            forall|j: int| 0 <= j < parsed@.len() ==> record_ok(#[trigger] parsed@[j]),
            out@.len() == i,
            forall|j: int| 0 <= j < i ==> #[trigger] out@[j]@ == record_inst(parsed@[j]),
        decreases parsed@.len() - i,
    {
        out.push(translate_one(&parsed[i]));
        i = i + 1;
    }
    out
}

} // verus!
