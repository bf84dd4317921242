//! Recursive-descent parser from PTX tokens to raw instructions.
//!
//! Grammar: header directives (each a `.` and a name, skipped to the end of the
//! line), then `.visible .entry name( .param .type name, ... )`, `{`, `.reg`
//! declarations, instructions and labels, `}`. Newlines are skipped wherever a
//! token is expected. Nothing is checked beyond the grammar: choosing instructions,
//! resolving labels and parameters is the lowering's work.

use crate::debug_text::{quoted, quoted_text, signed_decimal, signed_text};
use crate::parse_error::{decimal, decimal_text, unexpected, ut, ErrV, ParseError};
use crate::ptx_ir::{
    operands_view, raws_view, ImmediateValue, OperandV, PredGuard, RawInstruction, RawOperand,
    RawV, RegBank, SpecialReg,
};
use crate::ptx_lexer::{
    chars_of, lex, num_value, num_value_exec, is_digit, string_of, tokens_view, Span, Token, TokenV,
};
use crate::ptx_output::{params_view, ParamInfo, ParamV, PtxType};
use crate::text::{str_eq, strings_view};
use vstd::prelude::*;

verus! {

broadcast use vstd::string::group_string_axioms;

// ---------------------------------------------------------------------------
// Specification: the grammar as functions over the token sequence.
// ---------------------------------------------------------------------------

/// Parser position: token index and current (1-based) line.
pub struct PSt {
    pub cur: int,
    pub line: int,
}

/// Punctuation the parser expects.
#[derive(Clone, Copy, PartialEq, Eq, Structural)]
pub enum Punct {
    Semicolon,
    Colon,
    LParen,
    RParen,
    LBrace,
    RBrace,
    RBracket,
    Dot,
    Percent,
}

pub open spec fn is_punct(t: TokenV, p: Punct) -> bool {
    match p {
        Punct::Semicolon => t is Semicolon,
        Punct::Colon => t is Colon,
        Punct::LParen => t is LParen,
        Punct::RParen => t is RParen,
        Punct::LBrace => t is LBrace,
        Punct::RBrace => t is RBrace,
        Punct::RBracket => t is RBracket,
        Punct::Dot => t is Dot,
        Punct::Percent => t is Percent,
    }
}

pub open spec fn tok_at(t: Seq<TokenV>, c: int) -> Option<TokenV> {
    if 0 <= c < t.len() {
        Some(t[c])
    } else {
        None
    }
}

/// Consume one token (nothing at the end); a newline moves the line on.
pub open spec fn adv(t: Seq<TokenV>, st: PSt) -> PSt {
    if 0 <= st.cur < t.len() {
        PSt { cur: st.cur + 1, line: if t[st.cur] is Newline { st.line + 1 } else { st.line } }
    } else {
        st
    }
}

/// Consume a run of newlines.
pub open spec fn skip_nl(t: Seq<TokenV>, st: PSt) -> PSt
    decreases t.len() - st.cur,
{
    if 0 <= st.cur < t.len() && t[st.cur] is Newline {
        skip_nl(t, adv(t, st))
    } else {
        st
    }
}

/// How messages write a token: its `Debug` form (`end of input` where there
/// is none).
pub open spec fn tok_desc(o: Option<TokenV>) -> Seq<char> {
    match o {
        None => "end of input"@,
        Some(TokenV::Label(s)) => "Label("@ + quoted(s) + ")"@,
        Some(TokenV::Ident(s)) => "Ident("@ + quoted(s) + ")"@,
        Some(TokenV::Comma) => "Comma"@,
        Some(TokenV::Semicolon) => "Semicolon"@,
        Some(TokenV::Colon) => "Colon"@,
        Some(TokenV::LParen) => "LParen"@,
        Some(TokenV::RParen) => "RParen"@,
        Some(TokenV::LBrace) => "LBrace"@,
        Some(TokenV::RBrace) => "RBrace"@,
        Some(TokenV::LBracket) => "LBracket"@,
        Some(TokenV::RBracket) => "RBracket"@,
        Some(TokenV::Percent) => "Percent"@,
        Some(TokenV::At) => "At"@,
        Some(TokenV::AtNot) => "AtNot"@,
        Some(TokenV::Dot) => "Dot"@,
        Some(TokenV::FloatBits(v)) => "FloatBits("@ + decimal(v as nat) + ")"@,
        Some(TokenV::IntHex(v)) => "IntHex("@ + signed_decimal(v as int) + ")"@,
        Some(TokenV::IntDec(v)) => "IntDec("@ + signed_decimal(v as int) + ")"@,
        Some(TokenV::Newline) => "Newline"@,
    }
}

/// The punctuation `p` (described by `what` in messages).
pub open spec fn sp_expect(t: Seq<TokenV>, st: PSt, p: Punct, what: Seq<char>) -> Result<PSt, ErrV> {
    let s1 = skip_nl(t, st);
    match tok_at(t, s1.cur) {
        Some(x) => if is_punct(x, p) {
            Ok(adv(t, s1))
        } else {
            Err(ut(s1.line, what, tok_desc(tok_at(t, s1.cur))))
        },
        None => Err(ut(s1.line, what, tok_desc(None))),
    }
}

pub open spec fn sp_expect_ident(t: Seq<TokenV>, st: PSt) -> Result<(Seq<char>, PSt), ErrV> {
    let s1 = skip_nl(t, st);
    match tok_at(t, s1.cur) {
        Some(TokenV::Ident(s)) => Ok((s, adv(t, s1))),
        _ => Err(ut(s1.line, "identifier"@, tok_desc(tok_at(t, s1.cur)))),
    }
}

pub open spec fn sp_eat_ident(t: Seq<TokenV>, st: PSt, name: Seq<char>) -> (bool, PSt) {
    let s1 = skip_nl(t, st);
    match tok_at(t, s1.cur) {
        Some(TokenV::Ident(s)) => if s == name {
            (true, adv(t, s1))
        } else {
            (false, s1)
        },
        _ => (false, s1),
    }
}

/// The `n`-th token at or after `c` that is not a newline.
pub open spec fn nth_nonws(t: Seq<TokenV>, c: int, n: nat) -> Option<TokenV>
    decreases t.len() - c,
{
    if c < 0 || c >= t.len() {
        None
    } else if t[c] is Newline {
        nth_nonws(t, c + 1, n)
    } else if n == 0 {
        Some(t[c])
    } else {
        nth_nonws(t, c + 1, (n - 1) as nat)
    }
}

/// Index of the first newline at or after `c` (or the end).
pub open spec fn line_end(t: Seq<TokenV>, c: int) -> int
    decreases t.len() - c,
{
    if 0 <= c < t.len() && !(t[c] is Newline) {
        line_end(t, c + 1)
    } else {
        c
    }
}

/// Skipping line breaks never moves the cursor back nor past the end.
pub proof fn lemma_skip_nl(t: Seq<TokenV>, st: PSt)
    requires
        0 <= st.cur,
    ensures
        skip_nl(t, st).cur >= st.cur,
        skip_nl(t, st).line >= st.line,
        skip_nl(t, st).line - st.line <= skip_nl(t, st).cur - st.cur,
        st.cur <= t.len() ==> skip_nl(t, st).cur <= t.len(),
        skip_nl(t, skip_nl(t, st)) == skip_nl(t, st),
        !(tok_at(t, skip_nl(t, st).cur) matches Some(TokenV::Newline)),
    decreases t.len() - st.cur,
{
    if 0 <= st.cur < t.len() && t[st.cur] is Newline {
        lemma_skip_nl(t, adv(t, st));
    }
}

/// The end of the current line lies at or after the cursor and inside the tokens.
pub proof fn lemma_line_end(t: Seq<TokenV>, c: int)
    requires
        0 <= c,
    ensures
        line_end(t, c) >= c,
        c <= t.len() ==> line_end(t, c) <= t.len(),
        forall|k: int| c <= k < line_end(t, c) ==> !(#[trigger] t[k] is Newline),
    decreases t.len() - c,
{
    if 0 <= c < t.len() && !(t[c] is Newline) {
        lemma_line_end(t, c + 1);
    }
}

/// Expecting a punctuation token moves the cursor forward, within the tokens.
pub proof fn lemma_expect(t: Seq<TokenV>, st: PSt, p: Punct)
    requires
        0 <= st.cur <= t.len(),
    ensures
        forall|w: Seq<char>|
            #[trigger] sp_expect(t, st, p, w) matches Ok(s) ==> s.cur > st.cur && s.line >= st.line
                && s.cur <= t.len(),
{
    lemma_skip_nl(t, st);
}

/// Expecting an identifier moves the cursor forward, within the tokens.
pub proof fn lemma_expect_ident(t: Seq<TokenV>, st: PSt)
    requires
        0 <= st.cur <= t.len(),
    ensures
        sp_expect_ident(t, st) matches Ok((_, s)) ==> s.cur > st.cur && s.cur <= t.len(),
{
    lemma_skip_nl(t, st);
}

/// Eating an identifier never moves the cursor back.
pub proof fn lemma_eat_ident(t: Seq<TokenV>, st: PSt, name: Seq<char>)
    requires
        0 <= st.cur,
    ensures
        sp_eat_ident(t, st, name).1.cur >= st.cur,
{
    lemma_skip_nl(t, st);
}

/// Header directives, up to `.visible` or `.entry`.
pub open spec fn sp_header(t: Seq<TokenV>, st: PSt) -> Result<PSt, ErrV>
    decreases t.len() - st.cur,
{
    if st.cur < 0 {
        Err(ErrV::MissingEntry)
    } else {
        let s1 = skip_nl(t, st);
        match tok_at(t, s1.cur) {
            None => Err(ErrV::MissingEntry),
            Some(TokenV::Dot) => match nth_nonws(t, s1.cur, 1) {
                Some(TokenV::Ident(name)) => if name == "visible"@ || name == "entry"@ {
                    Ok(s1)
                } else {
                    proof {
                        lemma_skip_nl(t, st);
                        lemma_line_end(t, s1.cur + 1);
                    }
                    sp_header(t, PSt { cur: line_end(t, s1.cur), line: s1.line })
                },
                _ => Err(ut(s1.line, "directive name after `.`"@, "something else"@)),
            },
            Some(_) => Err(ut(s1.line, "file-level directive"@, tok_desc(tok_at(t, s1.cur)))),
        }
    }
}

/// What a type position wants, for messages.
pub open spec fn ptx_type_wanted() -> Seq<char> {
    "PTX type (u32, u64, s32, s64, f32, b32, b64, pred)"@
}

/// The PTX type a type name denotes.
pub open spec fn ptx_type_of(s: Seq<char>) -> Option<PtxType> {
    if s == "u32"@ {
        Some(PtxType::U32)
    } else if s == "u64"@ {
        Some(PtxType::U64)
    } else if s == "s32"@ {
        Some(PtxType::S32)
    } else if s == "s64"@ {
        Some(PtxType::S64)
    } else if s == "f32"@ {
        Some(PtxType::F32)
    } else if s == "b32"@ {
        Some(PtxType::B32)
    } else if s == "b64"@ {
        Some(PtxType::B64)
    } else if s == "pred"@ {
        Some(PtxType::Pred)
    } else {
        None
    }
}

/// `.param .type name` entries separated by commas, up to `)`.
pub open spec fn sp_plist(t: Seq<TokenV>, st: PSt, acc: Seq<ParamV>) -> Result<
    (Seq<ParamV>, PSt),
    ErrV,
>
    decreases t.len() - st.cur,
{
    if st.cur < 0 {
        Ok((acc, st))
    } else {
        let s1 = skip_nl(t, st);
        match tok_at(t, s1.cur) {
            None => Ok((acc, s1)),
            Some(TokenV::RParen) => Ok((acc, s1)),
            Some(TokenV::Comma) => {
                proof {
                    lemma_skip_nl(t, st);
                }
                sp_plist(t, adv(t, s1), acc)
            },
            Some(TokenV::Dot) => {
                let s2 = adv(t, s1);
                let (ok, s3) = sp_eat_ident(t, s2, "param"@);
                if !ok {
                    Err(ut(s3.line, "`param`"@, "something else"@))
                } else {
                    match sp_expect(t, s3, Punct::Dot, "`.` before param type"@) {
                        Err(e) => Err(e),
                        Ok(s4) => match sp_expect_ident(t, s4) {
                            Err(e) => Err(e),
                            Ok((ty, s5)) => match ptx_type_of(ty) {
                                None => Err(ut(s5.line, ptx_type_wanted(), ty)),
                                Some(pt) => match sp_expect_ident(t, s5) {
                                    Err(e) => Err(e),
                                    Ok((nm, s6)) => {
                                        proof {
                                            lemma_skip_nl(t, st);
                                            lemma_eat_ident(t, s2, "param"@);
                                            lemma_expect(t, s3, Punct::Dot);
                                            lemma_expect_ident(t, s4);
                                            lemma_expect_ident(t, s5);
                                        }
                                        sp_plist(
                                            t,
                                            s6,
                                            acc.push(ParamV { name: nm, ptx_type: pt }),
                                        )
                                    },
                                },
                            },
                        },
                    }
                }
            },
            Some(_) => Err(ut(s1.line, "`.param` or `)`"@, tok_desc(tok_at(t, s1.cur)))),
        }
    }
}

/// `.visible .entry name(params)` (the `.visible` is optional).
pub open spec fn sp_entry(t: Seq<TokenV>, st: PSt) -> Result<
    ((Seq<char>, Seq<ParamV>), PSt),
    ErrV,
> {
    let s0 = skip_nl(t, st);
    match sp_expect(t, s0, Punct::Dot, "`.` before entry directive"@) {
        Err(e) => Err(e),
        Ok(s1) => {
            let (v, s2) = sp_eat_ident(t, s1, "visible"@);
            let r3 = if v {
                sp_expect(t, s2, Punct::Dot, "`.` before `entry`"@)
            } else {
                Ok(s2)
            };
            match r3 {
                Err(e) => Err(e),
                Ok(s3) => {
                    let (en, s4) = sp_eat_ident(t, s3, "entry"@);
                    if !en {
                        Err(ut(s4.line, "`entry`"@, "something else"@))
                    } else {
                        match sp_expect_ident(t, s4) {
                            Err(e) => Err(e),
                            Ok((name, s5)) => match sp_expect(t, s5, Punct::LParen, "`(` before parameter list"@) {
                                Err(e) => Err(e),
                                Ok(s6) => match sp_plist(t, s6, Seq::empty()) {
                                    Err(e) => Err(e),
                                    Ok((ps, s7)) => match sp_expect(t, s7, Punct::RParen, "`)` after parameter list"@) {
                                        Err(e) => Err(e),
                                        Ok(s8) => Ok(((name, ps), s8)),
                                    },
                                },
                            },
                        }
                    }
                },
            }
        },
    }
}

/// Whether `.reg` begins at (newline-skipped) position `c`.
pub open spec fn reg_decl_at(t: Seq<TokenV>, c: int) -> bool {
    &&& tok_at(t, c) == Some(TokenV::Dot)
    &&& nth_nonws(t, c, 1) == Some(TokenV::Ident("reg"@))
}

/// Register banks a declaration may name.
pub open spec fn is_bank_name(s: Seq<char>) -> bool {
    s == "p"@ || s == "r"@ || s == "rd"@ || s == "f"@
}

/// `.reg .type %bank N;` declarations (the count, if any, is read and discarded).
pub open spec fn sp_regs(t: Seq<TokenV>, st: PSt) -> Result<PSt, ErrV>
    decreases t.len() - st.cur,
{
    if st.cur < 0 {
        Ok(st)
    } else {
        let s1 = skip_nl(t, st);
        if !reg_decl_at(t, s1.cur) {
            Ok(s1)
        } else {
            let s2 = adv(t, adv(t, s1));
            match sp_expect(t, s2, Punct::Dot, "`.` before reg type"@) {
                Err(e) => Err(e),
                Ok(s3) => match sp_expect_ident(t, s3) {
                    Err(e) => Err(e),
                    Ok((_ty, s4)) => match sp_expect(t, s4, Punct::Percent, "`%` before register bank name"@) {
                        Err(e) => Err(e),
                        Ok(s5) => match sp_expect_ident(t, s5) {
                            Err(e) => Err(e),
                            Ok((bank, s6)) => {
                                let s7 = if tok_at(t, s6.cur) matches Some(TokenV::IntDec(_)) {
                                    adv(t, s6)
                                } else {
                                    s6
                                };
                                match sp_expect(t, s7, Punct::Semicolon, "`;` after reg declaration"@) {
                                    Err(e) => Err(e),
                                    Ok(s8) => if is_bank_name(bank) {
                                        proof {
                                            lemma_skip_nl(t, st);
                                            lemma_expect(t, s7, Punct::Semicolon);
                                            lemma_expect(t, s2, Punct::Dot);
                                            lemma_expect_ident(t, s3);
                                            lemma_expect(t, s4, Punct::Percent);
                                            lemma_expect_ident(t, s5);
                                        }
                                        sp_regs(t, s8)
                                    } else {
                                        Err(ut(s8.line, "register bank (p, r, rd, f)"@, bank))
                                    },
                                }
                            },
                        },
                    },
                },
            }
        }
    }
}

/// Outcome of splitting a register name like `rd12`.
pub enum RegName {
    Valid(RegBank, u32),
    OutOfRange(RegBank, u32),
    /// Not a register name: what was wanted, and the text that failed.
    Bad(Seq<char>, Seq<char>),
}

/// Index of the first decimal digit in `s` at or after `k` (or its length).
pub open spec fn first_digit(s: Seq<char>, k: int) -> int
    decreases s.len() - k,
{
    if 0 <= k < s.len() && !is_digit(s[k]) {
        first_digit(s, k + 1)
    } else {
        k
    }
}

pub open spec fn bank_of(s: Seq<char>) -> Option<RegBank> {
    if s == "p"@ {
        Some(RegBank::P)
    } else if s == "r"@ {
        Some(RegBank::R)
    } else if s == "rd"@ {
        Some(RegBank::Rd)
    } else if s == "f"@ {
        Some(RegBank::F)
    } else {
        None
    }
}

/// A register name: bank prefix (letters before the first digit), then a decimal
/// index that must make up the rest of the name, fit a `u32`, and be at most 255.
pub open spec fn reg_name(s: Seq<char>) -> RegName {
    let k = first_digit(s, 0);
    if k >= s.len() {
        RegName::Bad("register name with numeric index"@, s)
    } else {
        match bank_of(s.subrange(0, k)) {
            None => RegName::Bad("register bank prefix (p, r, rd, f)"@, s.subrange(0, k)),
            Some(b) => {
                let rest = s.subrange(k, s.len() as int);
                if !(forall|j: int| 0 <= j < rest.len() ==> is_digit(#[trigger] rest[j])) {
                    RegName::Bad("register index (non-negative integer)"@, rest)
                } else if num_value(rest, 10) > u32::MAX {
                    RegName::Bad("register index (non-negative integer)"@, rest)
                } else if num_value(rest, 10) > 255 {
                    RegName::OutOfRange(b, num_value(rest, 10) as u32)
                } else {
                    RegName::Valid(b, num_value(rest, 10) as u32)
                }
            },
        }
    }
}

/// A predicate register name (`p` bank) at `line`.
pub open spec fn pred_index(s: Seq<char>, line: int) -> Result<u32, ErrV> {
    match reg_name(s) {
        RegName::Valid(b, i) => if b == RegBank::P {
            Ok(i)
        } else {
            Err(ut(line, "predicate register (%p...)"@, s))
        },
        RegName::OutOfRange(b, i) => Err(ErrV::RegisterOutOfRange { line, bank: b, index: i }),
        RegName::Bad(x, f) => Err(ut(line, x, f)),
    }
}

/// The special register `%name.axis`.
pub open spec fn sreg_of(name: Seq<char>, axis: Seq<char>) -> Option<SpecialReg> {
    let k = if axis == "x"@ {
        0int
    } else if axis == "y"@ {
        1int
    } else if axis == "z"@ {
        2int
    } else {
        3int
    };
    if k == 3 {
        None
    } else if name == "tid"@ {
        Some(if k == 0 { SpecialReg::TidX } else if k == 1 { SpecialReg::TidY } else { SpecialReg::TidZ })
    } else if name == "ntid"@ {
        Some(if k == 0 { SpecialReg::NtidX } else if k == 1 { SpecialReg::NtidY } else { SpecialReg::NtidZ })
    } else if name == "ctaid"@ {
        Some(if k == 0 { SpecialReg::CtaidX } else if k == 1 { SpecialReg::CtaidY } else { SpecialReg::CtaidZ })
    } else if name == "nctaid"@ {
        Some(if k == 0 { SpecialReg::NctaidX } else if k == 1 { SpecialReg::NctaidY } else { SpecialReg::NctaidZ })
    } else {
        None
    }
}

pub open spec fn is_sreg_base(name: Seq<char>) -> bool {
    name == "tid"@ || name == "ntid"@ || name == "ctaid"@ || name == "nctaid"@
}

/// The name PTX gives a type in declarations (`.u32`, `.f32`, `.pred`, ...).
pub open spec fn ptx_type_name(t: PtxType) -> Seq<char> {
    match t {
        PtxType::U32 => "u32"@,
        PtxType::U64 => "u64"@,
        PtxType::S32 => "s32"@,
        PtxType::S64 => "s64"@,
        PtxType::F32 => "f32"@,
        PtxType::B32 => "b32"@,
        PtxType::B64 => "b64"@,
        PtxType::Pred => "pred"@,
    }
}

/// Each PTX type name denotes the type of that name, and only that name denotes
/// it: reading a declared type gives back exactly the type written.
pub proof fn lemma_ptx_type_names(t: PtxType, s: Seq<char>)
    ensures
        ptx_type_of(ptx_type_name(t)) == Some(t),
        ptx_type_of(s) == Some(t) ==> s == ptx_type_name(t),
{
    reveal_strlit("u32");
    reveal_strlit("u64");
    reveal_strlit("s32");
    reveal_strlit("s64");
    reveal_strlit("f32");
    reveal_strlit("b32");
    reveal_strlit("b64");
    reveal_strlit("pred");
    assert("u32"@.len() == 3);
    assert("u64"@.len() == 3);
    assert("s32"@.len() == 3);
    assert("s64"@.len() == 3);
    assert("f32"@.len() == 3);
    assert("b32"@.len() == 3);
    assert("b64"@.len() == 3);
    assert("pred"@.len() == 4);
    assert("u32"@[1] != "u64"@[1]);
    assert("u32"@[0] != "s32"@[0]);
    assert("u32"@[0] != "s64"@[0]);
    assert("u32"@[0] != "f32"@[0]);
    assert("u32"@[0] != "b32"@[0]);
    assert("u32"@[0] != "b64"@[0]);
    assert("u64"@[0] != "s32"@[0]);
    assert("u64"@[0] != "s64"@[0]);
    assert("u64"@[0] != "f32"@[0]);
    assert("u64"@[0] != "b32"@[0]);
    assert("u64"@[0] != "b64"@[0]);
    assert("s32"@[1] != "s64"@[1]);
    assert("s32"@[0] != "f32"@[0]);
    assert("s32"@[0] != "b32"@[0]);
    assert("s32"@[0] != "b64"@[0]);
    assert("s64"@[0] != "f32"@[0]);
    assert("s64"@[0] != "b32"@[0]);
    assert("s64"@[0] != "b64"@[0]);
    assert("f32"@[0] != "b32"@[0]);
    assert("f32"@[0] != "b64"@[0]);
    assert("b32"@[1] != "b64"@[1]);
}

/// One operand.
pub open spec fn sp_operand(t: Seq<TokenV>, st: PSt) -> Result<(OperandV, PSt), ErrV>
    decreases t.len() - st.cur,
{
    if st.cur < 0 {
        Err(ut(st.line, "operand"@, tok_desc(None)))
    } else {
        let s1 = skip_nl(t, st);
        match tok_at(t, s1.cur) {
            Some(TokenV::Percent) => match sp_expect_ident(t, adv(t, s1)) {
                Err(e) => Err(e),
                Ok((name, s3)) => if is_sreg_base(name) && tok_at(t, s3.cur) == Some(TokenV::Dot) {
                    match sp_expect_ident(t, adv(t, s3)) {
                        Err(e) => Err(e),
                        Ok((axis, s5)) => match sreg_of(name, axis) {
                            Some(sr) => Ok((OperandV::SpecialReg(sr), s5)),
                            None => Err(ut(s5.line, "special register axis (.x, .y, or .z)"@, axis)),
                        },
                    }
                } else {
                    match reg_name(name) {
                        RegName::Valid(b, i) => Ok((OperandV::Register { bank: b, index: i }, s3)),
                        RegName::OutOfRange(b, i) => Err(
                            ErrV::RegisterOutOfRange { line: s3.line, bank: b, index: i },
                        ),
                        RegName::Bad(x, f) => Err(ut(s3.line, x, f)),
                    }
                },
            },
            Some(TokenV::LBracket) => {
                proof {
                    lemma_skip_nl(t, st);
                }
                match sp_operand(t, adv(t, s1)) {
                    Err(e) => Err(e),
                    Ok((inner, s3)) => match sp_expect(t, s3, Punct::RBracket, "`]` to close memory reference"@) {
                        Err(e) => Err(e),
                        Ok(s4) => Ok((OperandV::MemoryRef(Box::new(inner)), s4)),
                    },
                }
            },
            Some(TokenV::Label(s)) => Ok((OperandV::Label(s), adv(t, s1))),
            Some(TokenV::IntDec(v)) => Ok(
                (OperandV::Immediate(ImmediateValue::Int(v)), adv(t, s1)),
            ),
            Some(TokenV::IntHex(v)) => Ok(
                (OperandV::Immediate(ImmediateValue::Int(v)), adv(t, s1)),
            ),
            Some(TokenV::FloatBits(v)) => Ok(
                (OperandV::Immediate(ImmediateValue::F32Bits(v)), adv(t, s1)),
            ),
            Some(TokenV::Ident(s)) => Ok((OperandV::Identifier(s), adv(t, s1))),
            _ => Err(ut(s1.line, "operand"@, tok_desc(tok_at(t, s1.cur)))),
        }
    }
}

/// An operand takes at least one token and stays within the tokens.
pub proof fn lemma_operand(t: Seq<TokenV>, st: PSt)
    requires
        0 <= st.cur <= t.len(),
    ensures
        sp_operand(t, st) matches Ok((_, s)) ==> s.cur > st.cur && s.cur <= t.len(),
    decreases t.len() - st.cur,
{
    lemma_skip_nl(t, st);
    let s1 = skip_nl(t, st);
    match tok_at(t, s1.cur) {
        Some(TokenV::Percent) => {
            lemma_expect_ident(t, adv(t, s1));
            if let Ok((name, s3)) = sp_expect_ident(t, adv(t, s1)) {
                lemma_expect_ident(t, adv(t, s3));
            }
        },
        Some(TokenV::LBracket) => {
            lemma_operand(t, adv(t, s1));
            if let Ok((inner, s3)) = sp_operand(t, adv(t, s1)) {
                lemma_expect(t, s3, Punct::RBracket);
            }
        },
        _ => {},
    }
}

/// Dotted modifiers after a mnemonic.
pub open spec fn sp_mods(t: Seq<TokenV>, st: PSt, acc: Seq<Seq<char>>) -> Result<
    (Seq<Seq<char>>, PSt),
    ErrV,
>
    decreases t.len() - st.cur,
{
    if st.cur >= 0 && tok_at(t, st.cur) == Some(TokenV::Dot) {
        match sp_expect_ident(t, adv(t, st)) {
            Err(e) => Err(e),
            Ok((m, s2)) => {
                proof {
                    lemma_expect_ident(t, adv(t, st));
                }
                sp_mods(t, s2, acc.push(m))
            },
        }
    } else {
        Ok((acc, st))
    }
}

/// Comma-separated operands up to `;`.
pub open spec fn sp_ops(t: Seq<TokenV>, st: PSt, acc: Seq<OperandV>) -> Result<
    (Seq<OperandV>, PSt),
    ErrV,
>
    decreases t.len() - st.cur,
{
    if st.cur < 0 {
        Err(ut(st.line, "`;` to end instruction"@, tok_desc(None)))
    } else {
        let s1 = skip_nl(t, st);
        match tok_at(t, s1.cur) {
            Some(TokenV::Semicolon) => Ok((acc, adv(t, s1))),
            Some(TokenV::Comma) => {
                proof {
                    lemma_skip_nl(t, st);
                }
                sp_ops(t, adv(t, s1), acc)
            },
            None => Err(ut(s1.line, "`;` to end instruction"@, tok_desc(None))),
            _ => match sp_operand(t, s1) {
                Err(e) => Err(e),
                Ok((o, s2)) => {
                    proof {
                        lemma_skip_nl(t, st);
                        lemma_operand(t, s1);
                    }
                    sp_ops(t, s2, acc.push(o))
                },
            },
        }
    }
}

/// An optional predicate guard.
pub open spec fn sp_guard(t: Seq<TokenV>, s0: PSt) -> Result<(Option<PredGuard>, PSt), ErrV> {
    let neg = tok_at(t, s0.cur) == Some(TokenV::AtNot);
    if tok_at(t, s0.cur) == Some(TokenV::At) || neg {
        match sp_expect(t, adv(t, s0), Punct::Percent, "`%` after `@`"@) {
            Err(e) => Err(e),
            Ok(s2) => match sp_expect_ident(t, s2) {
                Err(e) => Err(e),
                Ok((name, s3)) => match pred_index(name, s3.line) {
                    Err(e) => Err(e),
                    Ok(idx) => Ok((Some(PredGuard { reg: idx, negated: neg }), s3)),
                },
            },
        }
    } else {
        Ok((None, s0))
    }
}

/// One instruction: optional guard, mnemonic, modifiers, operands, `;`. Its line is
/// the line where it starts.
pub open spec fn sp_instruction(t: Seq<TokenV>, st: PSt) -> Result<(RawV, PSt), ErrV> {
    let s0 = skip_nl(t, st);
    match sp_guard(t, s0) {
        Err(e) => Err(e),
        Ok((guard, s1)) => match sp_expect_ident(t, s1) {
            Err(e) => Err(e),
            Ok((mn, s2)) => match sp_mods(t, s2, Seq::empty()) {
                Err(e) => Err(e),
                Ok((mods, s3)) => match sp_ops(t, s3, Seq::empty()) {
                    Err(e) => Err(e),
                    Ok((ops, s4)) => Ok(
                        (
                            RawV {
                                guard,
                                mnemonic: mn,
                                modifiers: mods,
                                operands: ops,
                                line: s0.line,
                            },
                            s4,
                        ),
                    ),
                },
            },
        },
    }
}

proof fn lemma_guard(t: Seq<TokenV>, s0: PSt)
    requires
        0 <= s0.cur <= t.len(),
    ensures
        sp_guard(t, s0) matches Ok((_, s)) ==> s.cur >= s0.cur && s.cur <= t.len(),
{
    if tok_at(t, s0.cur) == Some(TokenV::At) || tok_at(t, s0.cur) == Some(TokenV::AtNot) {
        lemma_expect(t, adv(t, s0), Punct::Percent);
        if let Ok(s2) = sp_expect(t, adv(t, s0), Punct::Percent, "`%` after `@`"@) {
            lemma_expect_ident(t, s2);
        }
    }
}

proof fn lemma_mods(t: Seq<TokenV>, st: PSt, acc: Seq<Seq<char>>)
    requires
        0 <= st.cur <= t.len(),
    ensures
        sp_mods(t, st, acc) matches Ok((_, s)) ==> s.cur >= st.cur && s.cur <= t.len(),
    decreases t.len() - st.cur,
{
    if tok_at(t, st.cur) == Some(TokenV::Dot) {
        lemma_expect_ident(t, adv(t, st));
        if let Ok((m, s2)) = sp_expect_ident(t, adv(t, st)) {
            lemma_mods(t, s2, acc.push(m));
        }
    }
}

proof fn lemma_ops(t: Seq<TokenV>, st: PSt, acc: Seq<OperandV>)
    requires
        0 <= st.cur <= t.len(),
    ensures
        sp_ops(t, st, acc) matches Ok((_, s)) ==> s.cur > st.cur && s.cur <= t.len(),
    decreases t.len() - st.cur,
{
    lemma_skip_nl(t, st);
    let s1 = skip_nl(t, st);
    match tok_at(t, s1.cur) {
        Some(TokenV::Semicolon) => {},
        Some(TokenV::Comma) => {
            lemma_ops(t, adv(t, s1), acc);
        },
        None => {},
        _ => {
            lemma_operand(t, s1);
            if let Ok((o, s2)) = sp_operand(t, s1) {
                lemma_ops(t, s2, acc.push(o));
            }
        },
    }
}

/// An instruction takes at least one token and stays within the tokens.
pub proof fn lemma_instruction(t: Seq<TokenV>, st: PSt)
    requires
        0 <= st.cur <= t.len(),
    ensures
        sp_instruction(t, st) matches Ok((_, s)) ==> s.cur > st.cur && s.cur <= t.len(),
{
    lemma_skip_nl(t, st);
    let s0 = skip_nl(t, st);
    lemma_guard(t, s0);
    if let Ok((g, s1)) = sp_guard(t, s0) {
        lemma_expect_ident(t, s1);
        if let Ok((mn, s2)) = sp_expect_ident(t, s1) {
            lemma_mods(t, s2, Seq::empty());
            if let Ok((mods, s3)) = sp_mods(t, s2, Seq::empty()) {
                lemma_ops(t, s3, Seq::empty());
            }
        }
    }
}

/// The marker a label line `$name:` becomes.
pub open spec fn label_marker(l: Seq<char>, line: int) -> RawV {
    RawV {
        guard: None,
        mnemonic: ".label"@,
        modifiers: Seq::empty(),
        operands: seq![OperandV::Label(l)],
        line,
    }
}

/// Instructions and labels up to `}`.
pub open spec fn sp_insts(t: Seq<TokenV>, st: PSt, acc: Seq<RawV>) -> Result<
    (Seq<RawV>, PSt),
    ErrV,
>
    decreases t.len() - st.cur,
{
    if st.cur < 0 {
        Ok((acc, st))
    } else {
        let s1 = skip_nl(t, st);
        match tok_at(t, s1.cur) {
            None => Ok((acc, s1)),
            Some(TokenV::RBrace) => Ok((acc, s1)),
            Some(TokenV::Label(l)) => match sp_expect(t, adv(t, s1), Punct::Colon, "`:` after label"@) {
                Err(e) => Err(e),
                Ok(s3) => {
                    proof {
                        lemma_skip_nl(t, st);
                        lemma_expect(t, adv(t, s1), Punct::Colon);
                    }
                    sp_insts(t, s3, acc.push(label_marker(l, s3.line)))
                },
            },
            _ => match sp_instruction(t, s1) {
                Err(e) => Err(e),
                Ok((ri, s2)) => {
                    proof {
                        lemma_skip_nl(t, st);
                        lemma_instruction(t, s1);
                    }
                    sp_insts(t, s2, acc.push(ri))
                },
            },
        }
    }
}

/// What parsing yields: kernel name, parameters, raw instructions.
pub struct ParseOutV {
    pub name: Seq<char>,
    pub params: Seq<ParamV>,
    pub raws: Seq<RawV>,
}

/// The whole file.
pub open spec fn sp_parse(t: Seq<TokenV>) -> Result<ParseOutV, ErrV> {
    match sp_header(t, PSt { cur: 0, line: 1 }) {
        Err(e) => Err(e),
        Ok(s1) => match sp_entry(t, s1) {
            Err(e) => Err(e),
            Ok(((name, params), s2)) => match sp_expect(t, s2, Punct::LBrace, "`{` to start kernel body"@) {
                Err(e) => Err(e),
                Ok(s3) => match sp_regs(t, s3) {
                    Err(e) => Err(e),
                    Ok(s4) => match sp_insts(t, s4, Seq::empty()) {
                        Err(e) => Err(e),
                        Ok((raws, s5)) => match sp_expect(t, s5, Punct::RBrace, "`}` to close kernel body"@) {
                            Err(e) => Err(e),
                            Ok(_) => Ok(ParseOutV { name, params, raws }),
                        },
                    },
                },
            },
        },
    }
}


// ---------------------------------------------------------------------------
// Implementation.
// ---------------------------------------------------------------------------

/// Result of the parse phase: the kernel name, its parameters, and the raw
/// instructions (label lines appear as `.label` markers).
#[derive(Debug)]
pub struct ParseOutput {
    pub name: String,
    pub params: Vec<ParamInfo>,
    pub raw_instructions: Vec<RawInstruction>,
}

impl View for ParseOutput {
    type V = ParseOutV;

    open spec fn view(&self) -> ParseOutV {
        ParseOutV {
            name: self.name@,
            params: params_view(self.params@),
            raws: raws_view(self.raw_instructions@),
        }
    }
}

/// The tokens of a spanned token list.
pub open spec fn toks_of(v: Seq<(Token, Span)>) -> Seq<TokenV> {
    Seq::new(v.len(), |i: int| v[i].0@)
}

struct Parser {
    tokens: Vec<(Token, Span)>,
    cursor: usize,
    line: usize,
}

/// A short description of a token, for messages.
fn token_desc(t: &Token) -> (d: String)
    ensures
        d@ == tok_desc(Some(t@)),
{
    match t {
        Token::Label(s) => {
            let mut d = String::from_str("Label(");
            let q = quoted_text(s.as_str());
            d.append(q.as_str());
            d.append(")");
            d
        },
        Token::Ident(s) => {
            let mut d = String::from_str("Ident(");
            let q = quoted_text(s.as_str());
            d.append(q.as_str());
            d.append(")");
            d
        },
        Token::Comma => String::from_str("Comma"),
        Token::Semicolon => String::from_str("Semicolon"),
        Token::Colon => String::from_str("Colon"),
        Token::LParen => String::from_str("LParen"),
        Token::RParen => String::from_str("RParen"),
        Token::LBrace => String::from_str("LBrace"),
        Token::RBrace => String::from_str("RBrace"),
        Token::LBracket => String::from_str("LBracket"),
        Token::RBracket => String::from_str("RBracket"),
        Token::Percent => String::from_str("Percent"),
        Token::At => String::from_str("At"),
        Token::AtNot => String::from_str("AtNot"),
        Token::Dot => String::from_str("Dot"),
        Token::FloatBits(v) => {
            let mut d = String::from_str("FloatBits(");
            let n = decimal_text(*v as u64);
            d.append(n.as_str());
            d.append(")");
            d
        },
        Token::IntHex(v) => {
            let mut d = String::from_str("IntHex(");
            let n = signed_text(*v);
            d.append(n.as_str());
            d.append(")");
            d
        },
        Token::IntDec(v) => {
            let mut d = String::from_str("IntDec(");
            let n = signed_text(*v);
            d.append(n.as_str());
            d.append(")");
            d
        },
        Token::Newline => String::from_str("Newline"),
    }
}

fn unexpected_at(line: usize, expected: &str, found: Option<&Token>) -> (e: ParseError)
    ensures
        e@ == ut(
            line as int,
            expected@,
            tok_desc(
                match found {
                    Some(t) => Some(t@),
                    None => None,
                },
            ),
        ),
{
    let f = match found {
        Some(t) => token_desc(t),
        None => String::from_str("end of input"),
    };
    unexpected(line, expected, f.as_str())
}

fn punct_matches(t: &Token, p: Punct) -> (b: bool)
    ensures
        b == is_punct(t@, p),
{
    match p {
        Punct::Semicolon => matches!(t, Token::Semicolon),
        Punct::Colon => matches!(t, Token::Colon),
        Punct::LParen => matches!(t, Token::LParen),
        Punct::RParen => matches!(t, Token::RParen),
        Punct::LBrace => matches!(t, Token::LBrace),
        Punct::RBrace => matches!(t, Token::RBrace),
        Punct::RBracket => matches!(t, Token::RBracket),
        Punct::Dot => matches!(t, Token::Dot),
        Punct::Percent => matches!(t, Token::Percent),
    }
}

/// The PTX type a type name denotes; an unknown name is an error at `line`.
pub fn parse_ptx_type(s: &str, line: usize) -> (r: Result<PtxType, ParseError>)
    ensures
        match ptx_type_of(s@) {
            Some(t) => r == Ok::<PtxType, ParseError>(t),
            None => r matches Err(e) && e@ == ut(line as int, ptx_type_wanted(), s@),
        },
{
    if str_eq(s, "u32") {
        Ok(PtxType::U32)
    } else if str_eq(s, "u64") {
        Ok(PtxType::U64)
    } else if str_eq(s, "s32") {
        Ok(PtxType::S32)
    } else if str_eq(s, "s64") {
        Ok(PtxType::S64)
    } else if str_eq(s, "f32") {
        Ok(PtxType::F32)
    } else if str_eq(s, "b32") {
        Ok(PtxType::B32)
    } else if str_eq(s, "b64") {
        Ok(PtxType::B64)
    } else if str_eq(s, "pred") {
        Ok(PtxType::Pred)
    } else {
        Err(unexpected(line, "PTX type (u32, u64, s32, s64, f32, b32, b64, pred)", s))
    }
}

fn first_digit_exec(cs: &Vec<char>) -> (k: usize)
    ensures
        k == first_digit(cs@, 0),
        k <= cs@.len(),
{
    let mut k: usize = 0;
    while k < cs.len() && !(48 <= (cs[k] as u32) && (cs[k] as u32) <= 57)
        invariant
            k <= cs@.len(),
            first_digit(cs@, k as int) == first_digit(cs@, 0),
        decreases cs@.len() - k,
    {
        k = k + 1;
    }
    k
}

/// Splits a register name such as `rd12` into its bank and index (see `reg_name`).
pub fn parse_register_name(s: &str, line: usize) -> (r: Result<(RegBank, u32), ParseError>)
    ensures
        match reg_name(s@) {
            RegName::Valid(b, i) => r == Ok::<(RegBank, u32), ParseError>((b, i)),
            RegName::OutOfRange(b, i) => r matches Err(e) && e@ == (ErrV::RegisterOutOfRange {
                line: line as int,
                bank: b,
                index: i,
            }),
            RegName::Bad(x, f) => r matches Err(e) && e@ == ut(line as int, x, f),
        },
{
    let cs = chars_of(s);
    let k = first_digit_exec(&cs);
    if k >= cs.len() {
        return Err(unexpected(line, "register name with numeric index", s));
    }
    let prefix = string_of(&cs, 0, k);
    let bank = if str_eq(prefix.as_str(), "p") {
        RegBank::P
    } else if str_eq(prefix.as_str(), "r") {
        RegBank::R
    } else if str_eq(prefix.as_str(), "rd") {
        RegBank::Rd
    } else if str_eq(prefix.as_str(), "f") {
        RegBank::F
    } else {
        return Err(unexpected(line, "register bank prefix (p, r, rd, f)", prefix.as_str()));
    };
    let ghost rest = cs@.subrange(k as int, cs@.len() as int);
    let mut j = k;
    #[verifier::loop_isolation(false)]
    while j < cs.len()
        invariant
            k <= j <= cs@.len(),
            forall|q: int| k <= q < j ==> is_digit(#[trigger] cs@[q]),
        decreases cs@.len() - j,
    {
        if !(48 <= (cs[j] as u32) && (cs[j] as u32) <= 57) {
            proof {
                assert(!is_digit(rest[j - k]));
            }
            let digits = string_of(&cs, k, cs.len());
            return Err(unexpected(line, "register index (non-negative integer)", digits.as_str()));
        }
        j = j + 1;
    }
    proof {
        assert forall|q: int| 0 <= q < rest.len() implies is_digit(#[trigger] rest[q]) by {
            assert(rest[q] == cs@[q + k]);
        }
    }
    match num_value_exec(&cs, k, cs.len(), 10, 0xffff_ffffu64) {
        None => {
            let digits = string_of(&cs, k, cs.len());
            Err(unexpected(line, "register index (non-negative integer)", digits.as_str()))
        },
        Some(v) => {
            let index = v as u32;
            if index > 255 {
                Err(ParseError::RegisterOutOfRange { line, bank, index })
            } else {
                Ok((bank, index))
            }
        },
    }
}

/// The index of a predicate register name such as `p1`.
pub fn parse_pred_index(s: &str, line: usize) -> (r: Result<u32, ParseError>)
    ensures
        match pred_index(s@, line as int) {
            Ok(i) => r == Ok::<u32, ParseError>(i),
            Err(e) => r matches Err(x) && x@ == e,
        },
{
    let (bank, index) = match parse_register_name(s, line) {
        Ok(p) => p,
        Err(e) => {
            return Err(e);
        },
    };
    if bank != RegBank::P {
        return Err(unexpected(line, "predicate register (%p...)", s));
    }
    Ok(index)
}

impl Parser {
    spec fn toks(&self) -> Seq<TokenV> {
        toks_of(self.tokens@)
    }

    spec fn st(&self) -> PSt {
        PSt { cur: self.cursor as int, line: self.line as int }
    }

    spec fn wf(&self) -> bool {
        &&& self.cursor <= self.tokens@.len()
        &&& self.line <= self.cursor + 1
        &&& self.tokens@.len() < usize::MAX
    }

    spec fn same(&self, other: &Parser) -> bool {
        self.tokens@ == other.tokens@
    }

    fn peek(&self) -> (r: Option<&Token>)
        requires
            self.wf(),
        ensures
            match r {
                Some(t) => tok_at(self.toks(), self.cursor as int) == Some(t@),
                None => tok_at(self.toks(), self.cursor as int) is None,
            },
    {
        if self.cursor < self.tokens.len() {
            Some(&self.tokens[self.cursor].0)
        } else {
            None
        }
    }

    fn advance(&mut self) -> (r: Option<Token>)
        requires
            old(self).wf(),
        ensures
            final(self).wf(),
            final(self).same(old(self)),
            final(self).st() == adv(old(self).toks(), old(self).st()),
            match r {
                Some(t) => tok_at(old(self).toks(), old(self).cursor as int) == Some(t@),
                None => tok_at(old(self).toks(), old(self).cursor as int) is None,
            },
    {
        if self.cursor >= self.tokens.len() {
            return None;
        }
        let tok = self.tokens[self.cursor].0.duplicate();
        self.cursor = self.cursor + 1;
        if matches!(tok, Token::Newline) {
            self.line = self.line + 1;
        }
        Some(tok)
    }

    fn skip_newlines(&mut self)
        requires
            old(self).wf(),
        ensures
            final(self).wf(),
            final(self).same(old(self)),
            final(self).st() == skip_nl(old(self).toks(), old(self).st()),
    {
        while self.cursor < self.tokens.len() && matches!(self.tokens[self.cursor].0, Token::Newline)
            invariant
                self.wf(),
                self.same(old(self)),
                skip_nl(self.toks(), self.st()) == skip_nl(old(self).toks(), old(self).st()),
            decreases self.tokens@.len() - self.cursor,
        {
            self.advance();
        }
    }

    /// The `n`-th non-newline token from the cursor.
    fn peek_nonws(&self, n: usize) -> (r: Option<&Token>)
        requires
            self.wf(),
        ensures
            match r {
                Some(t) => nth_nonws(self.toks(), self.cursor as int, n as nat) == Some(t@),
                None => nth_nonws(self.toks(), self.cursor as int, n as nat) is None,
            },
    {
        let mut c = self.cursor;
        let mut k = n;
        while c < self.tokens.len()
            invariant
                self.cursor <= c <= self.tokens@.len(),
                nth_nonws(self.toks(), c as int, k as nat) == nth_nonws(
                    self.toks(),
                    self.cursor as int,
                    n as nat,
                ),
            decreases self.tokens@.len() - c,
        {
            if matches!(self.tokens[c].0, Token::Newline) {
                c = c + 1;
            } else if k == 0 {
                return Some(&self.tokens[c].0);
            } else {
                k = k - 1;
                c = c + 1;
            }
        }
        None
    }

    fn expect(&mut self, p: Punct, what: &str) -> (r: Result<(), ParseError>)
        requires
            old(self).wf(),
        ensures
            final(self).wf(),
            final(self).same(old(self)),
            match sp_expect(old(self).toks(), old(self).st(), p, what@) {
                Ok(s) => r is Ok && final(self).st() == s,
                Err(e) => r matches Err(x) && x@ == e,
            },
    {
        self.skip_newlines();
        match self.peek() {
            Some(t) => {
                if punct_matches(t, p) {
                    self.advance();
                    Ok(())
                } else {
                    Err(unexpected_at(self.line, what, Some(t)))
                }
            },
            None => Err(unexpected_at(self.line, what, None)),
        }
    }

    fn expect_ident(&mut self) -> (r: Result<String, ParseError>)
        requires
            old(self).wf(),
        ensures
            final(self).wf(),
            final(self).same(old(self)),
            match sp_expect_ident(old(self).toks(), old(self).st()) {
                Ok((v, s)) => r matches Ok(x) && x@ == v && final(self).st() == s,
                Err(e) => r matches Err(x) && x@ == e,
            },
    {
        self.skip_newlines();
        let found = match self.peek() {
            Some(Token::Ident(s)) => Some(s.clone()),
            _ => None,
        };
        match found {
            Some(s) => {
                self.advance();
                Ok(s)
            },
            None => {
                let line = self.line;
                Err(unexpected_at(line, "identifier", self.peek()))
            },
        }
    }

    fn eat_ident(&mut self, name: &str) -> (r: bool)
        requires
            old(self).wf(),
        ensures
            final(self).wf(),
            final(self).same(old(self)),
            (r, final(self).st()) == sp_eat_ident(old(self).toks(), old(self).st(), name@),
    {
        self.skip_newlines();
        let hit = match self.peek() {
            Some(Token::Ident(s)) => str_eq(s.as_str(), name),
            _ => false,
        };
        if hit {
            self.advance();
        }
        hit
    }

    fn current(&self) -> (r: Option<Token>)
        requires
            self.wf(),
        ensures
            match r {
                Some(t) => tok_at(self.toks(), self.cursor as int) == Some(t@),
                None => tok_at(self.toks(), self.cursor as int) is None,
            },
    {
        match self.peek() {
            Some(t) => Some(t.duplicate()),
            None => None,
        }
    }

    /// One operand (see `sp_operand`).
    fn parse_operand(&mut self) -> (r: Result<RawOperand, ParseError>)
        requires
            old(self).wf(),
        ensures
            final(self).wf(),
            final(self).same(old(self)),
            match sp_operand(old(self).toks(), old(self).st()) {
                Ok((v, s)) => r matches Ok(x) && x@ == v && final(self).st() == s,
                Err(e) => r matches Err(x) && x@ == e,
            },
        decreases old(self).tokens@.len() - old(self).cursor,
    {
        proof {
            lemma_skip_nl(self.toks(), self.st());
        }
        self.skip_newlines();
        let t = self.current();
        match t {
            Some(Token::Percent) => {
                self.advance();
                let name = match self.expect_ident() {
                    Ok(n) => n,
                    Err(e) => {
                        return Err(e);
                    },
                };
                let is_base = str_eq(name.as_str(), "tid") || str_eq(name.as_str(), "ntid")
                    || str_eq(name.as_str(), "ctaid") || str_eq(name.as_str(), "nctaid");
                let next_dot = matches!(self.peek(), Some(Token::Dot));
                if is_base && next_dot {
                    self.advance();
                    let axis = match self.expect_ident() {
                        Ok(a) => a,
                        Err(e) => {
                            return Err(e);
                        },
                    };
                    match sreg_exec(name.as_str(), axis.as_str()) {
                        Some(sr) => Ok(RawOperand::SpecialReg(sr)),
                        None => Err(
                            unexpected(
                                self.line,
                                "special register axis (.x, .y, or .z)",
                                axis.as_str(),
                            ),
                        ),
                    }
                } else {
                    match parse_register_name(name.as_str(), self.line) {
                        Ok((bank, index)) => Ok(RawOperand::Register { bank, index }),
                        Err(e) => Err(e),
                    }
                }
            },
            Some(Token::LBracket) => {
                self.advance();
                let inner = match self.parse_operand() {
                    Ok(o) => o,
                    Err(e) => {
                        return Err(e);
                    },
                };
                match self.expect(Punct::RBracket, "`]` to close memory reference") {
                    Ok(()) => Ok(RawOperand::MemoryRef(Box::new(inner))),
                    Err(e) => Err(e),
                }
            },
            Some(Token::Label(s)) => {
                self.advance();
                Ok(RawOperand::Label(s))
            },
            Some(Token::IntDec(v)) => {
                self.advance();
                Ok(RawOperand::Immediate(ImmediateValue::Int(v)))
            },
            Some(Token::IntHex(v)) => {
                self.advance();
                Ok(RawOperand::Immediate(ImmediateValue::Int(v)))
            },
            Some(Token::FloatBits(v)) => {
                self.advance();
                Ok(RawOperand::Immediate(ImmediateValue::F32Bits(v)))
            },
            Some(Token::Ident(s)) => {
                self.advance();
                Ok(RawOperand::Identifier(s))
            },
            other => {
                let line = self.line;
                Err(unexpected_at(line, "operand", self.peek()))
            },
        }
    }

    /// An optional predicate guard (see `sp_guard`); the cursor is past newlines.
    fn parse_guard(&mut self) -> (r: Result<Option<PredGuard>, ParseError>)
        requires
            old(self).wf(),
        ensures
            final(self).wf(),
            final(self).same(old(self)),
            match sp_guard(old(self).toks(), old(self).st()) {
                Ok((v, s)) => r matches Ok(x) && x == v && final(self).st() == s,
                Err(e) => r matches Err(x) && x@ == e,
            },
    {
        let t = self.current();
        let negated = match t {
            Some(Token::At) => false,
            Some(Token::AtNot) => true,
            _ => {
                return Ok(None);
            },
        };
        self.advance();
        match self.expect(Punct::Percent, "`%` after `@`") {
            Ok(()) => {},
            Err(e) => {
                return Err(e);
            },
        }
        let name = match self.expect_ident() {
            Ok(n) => n,
            Err(e) => {
                return Err(e);
            },
        };
        match parse_pred_index(name.as_str(), self.line) {
            Ok(idx) => Ok(Some(PredGuard { reg: idx, negated })),
            Err(e) => Err(e),
        }
    }

    /// One instruction (see `sp_instruction`).
    fn parse_instruction(&mut self) -> (r: Result<RawInstruction, ParseError>)
        requires
            old(self).wf(),
        ensures
            final(self).wf(),
            final(self).same(old(self)),
            match sp_instruction(old(self).toks(), old(self).st()) {
                Ok((v, s)) => r matches Ok(x) && x@ == v && final(self).st() == s,
                Err(e) => r matches Err(x) && x@ == e,
            },
    {
        self.skip_newlines();
        let start_line = self.line;
        let predicate_guard = match self.parse_guard() {
            Ok(g) => g,
            Err(e) => {
                return Err(e);
            },
        };
        let mnemonic = match self.expect_ident() {
            Ok(m) => m,
            Err(e) => {
                return Err(e);
            },
        };
        let ghost s2 = self.st();
        let mut modifiers: Vec<String> = Vec::new();
        proof {
            assert(strings_view(modifiers@) =~= Seq::<Seq<char>>::empty());
        }
        #[verifier::loop_isolation(false)]
        while matches!(self.peek(), Some(Token::Dot))
            invariant
                self.wf(),
                self.same(old(self)),
                s2.cur >= 0,
                sp_mods(self.toks(), s2, Seq::empty()) == sp_mods(
                    self.toks(),
                    self.st(),
                    strings_view(modifiers@),
                ),
            decreases self.tokens@.len() - self.cursor,
        {
            proof {
                lemma_expect_ident(self.toks(), adv(self.toks(), self.st()));
            }
            self.advance();
            match self.expect_ident() {
                Ok(m) => {
                    let ghost before = modifiers@;
                    modifiers.push(m);
                    proof {
                        assert(strings_view(modifiers@) =~= strings_view(before).push(m@));
                    }
                },
                Err(e) => {
                    return Err(e);
                },
            }
        }
        let ghost s3 = self.st();
        let mut operands: Vec<RawOperand> = Vec::new();
        proof {
            assert(operands_view(operands@) =~= Seq::<OperandV>::empty());
        }
        #[verifier::loop_isolation(false)]
        loop
            invariant
                self.wf(),
                self.same(old(self)),
                s3.cur >= 0,
                sp_ops(self.toks(), s3, Seq::empty()) == sp_ops(
                    self.toks(),
                    self.st(),
                    operands_view(operands@),
                ),
            decreases self.tokens@.len() - self.cursor,
        {
            proof {
                lemma_skip_nl(self.toks(), self.st());
            }
            self.skip_newlines();
            let t = self.current();
            match t {
                Some(Token::Semicolon) => {
                    self.advance();
                    break;
                },
                Some(Token::Comma) => {
                    self.advance();
                },
                None => {
                    return Err(unexpected_at(self.line, "`;` to end instruction", None));
                },
                _ => {
                    proof {
                        lemma_operand(self.toks(), self.st());
                    }
                    match self.parse_operand() {
                        Ok(o) => {
                            let ghost before = operands@;
                            operands.push(o);
                            proof {
                                assert(operands_view(operands@) =~= operands_view(before).push(
                                    o@,
                                ));
                            }
                        },
                        Err(e) => {
                            return Err(e);
                        },
                    }
                },
            }
        }
        Ok(
            RawInstruction {
                predicate_guard,
                mnemonic,
                modifiers,
                operands,
                line: start_line,
            },
        )
    }

    /// Instructions and label markers up to `}` (see `sp_insts`).
    fn parse_instruction_list(&mut self) -> (r: Result<Vec<RawInstruction>, ParseError>)
        requires
            old(self).wf(),
        ensures
            final(self).wf(),
            final(self).same(old(self)),
            match sp_insts(old(self).toks(), old(self).st(), Seq::empty()) {
                Ok((v, s)) => r matches Ok(x) && raws_view(x@) == v && final(self).st() == s,
                Err(e) => r matches Err(x) && x@ == e,
            },
    {
        let mut insts: Vec<RawInstruction> = Vec::new();
        proof {
            assert(raws_view(insts@) =~= Seq::<RawV>::empty());
        }
        #[verifier::loop_isolation(false)]
        loop
            invariant
                self.wf(),
                self.same(old(self)),
                sp_insts(old(self).toks(), old(self).st(), Seq::empty()) == sp_insts(
                    self.toks(),
                    self.st(),
                    raws_view(insts@),
                ),
            decreases self.tokens@.len() - self.cursor,
        {
            proof {
                lemma_skip_nl(self.toks(), self.st());
            }
            self.skip_newlines();
            let t = self.current();
            match t {
                None => {
                    break;
                },
                Some(Token::RBrace) => {
                    break;
                },
                Some(Token::Label(label)) => {
                    self.advance();
                    proof {
                        lemma_expect(self.toks(), self.st(), Punct::Colon);
                    }
                    match self.expect(Punct::Colon, "`:` after label") {
                        Ok(()) => {},
                        Err(e) => {
                            return Err(e);
                        },
                    }
                    let ghost lv = label@;
                    let mut ops: Vec<RawOperand> = Vec::new();
                    ops.push(RawOperand::Label(label));
                    let marker = RawInstruction {
                        predicate_guard: None,
                        mnemonic: String::from_str(".label"),
                        modifiers: Vec::new(),
                        operands: ops,
                        line: self.line,
                    };
                    proof {
                        assert(strings_view(marker.modifiers@) =~= Seq::<Seq<char>>::empty());
                        assert(operands_view(marker.operands@) =~= seq![OperandV::Label(lv)]);
                        assert(marker@ == label_marker(lv, self.line as int));
                    }
                    let ghost before = insts@;
                    insts.push(marker);
                    proof {
                        assert(raws_view(insts@) =~= raws_view(before).push(
                            label_marker(lv, self.line as int),
                        ));
                    }
                },
                _ => {
                    proof {
                        lemma_instruction(self.toks(), self.st());
                    }
                    match self.parse_instruction() {
                        Ok(i) => {
                            let ghost before = insts@;
                            let ghost iv = i@;
                            insts.push(i);
                            proof {
                                assert(raws_view(insts@) =~= raws_view(before).push(iv));
                            }
                        },
                        Err(e) => {
                            return Err(e);
                        },
                    }
                },
            }
        }
        Ok(insts)
    }

    /// `.reg` declarations (see `sp_regs`).
    fn parse_reg_decls(&mut self) -> (r: Result<(), ParseError>)
        requires
            old(self).wf(),
        ensures
            final(self).wf(),
            final(self).same(old(self)),
            match sp_regs(old(self).toks(), old(self).st()) {
                Ok(s) => r is Ok && final(self).st() == s,
                Err(e) => r matches Err(x) && x@ == e,
            },
    {
        #[verifier::loop_isolation(false)]
        loop
            invariant
                self.wf(),
                self.same(old(self)),
                sp_regs(old(self).toks(), old(self).st()) == sp_regs(self.toks(), self.st()),
            decreases self.tokens@.len() - self.cursor,
        {
            proof {
                lemma_skip_nl(self.toks(), self.st());
            }
            self.skip_newlines();
            let is_dot = matches!(self.peek(), Some(Token::Dot));
            let is_reg = match self.peek_nonws(1) {
                Some(Token::Ident(s)) => str_eq(s.as_str(), "reg"),
                _ => false,
            };
            proof {
                reveal_strlit("reg");
                if is_dot {
                    assert(tok_at(self.toks(), self.cursor as int) == Some(TokenV::Dot));
                }
            }
            if !(is_dot && is_reg) {
                break;
            }
            let ghost s1 = self.st();
            self.advance();
            self.advance();
            let ghost s2 = self.st();
            proof {
                lemma_expect(self.toks(), s2, Punct::Dot);
            }
            match self.expect(Punct::Dot, "`.` before reg type") {
                Ok(()) => {},
                Err(e) => {
                    return Err(e);
                },
            }
            proof {
                lemma_expect_ident(self.toks(), self.st());
            }
            match self.expect_ident() {
                Ok(_) => {},
                Err(e) => {
                    return Err(e);
                },
            }
            proof {
                lemma_expect(self.toks(), self.st(), Punct::Percent);
            }
            match self.expect(Punct::Percent, "`%` before register bank name") {
                Ok(()) => {},
                Err(e) => {
                    return Err(e);
                },
            }
            proof {
                lemma_expect_ident(self.toks(), self.st());
            }
            let bank_name = match self.expect_ident() {
                Ok(b) => b,
                Err(e) => {
                    return Err(e);
                },
            };
            if matches!(self.peek(), Some(Token::IntDec(_))) {
                self.advance();
            }
            proof {
                lemma_expect(self.toks(), self.st(), Punct::Semicolon);
            }
            match self.expect(Punct::Semicolon, "`;` after reg declaration") {
                Ok(()) => {},
                Err(e) => {
                    return Err(e);
                },
            }
            let ok = str_eq(bank_name.as_str(), "p") || str_eq(bank_name.as_str(), "r") || str_eq(
                bank_name.as_str(),
                "rd",
            ) || str_eq(bank_name.as_str(), "f");
            if !ok {
                return Err(unexpected(self.line, "register bank (p, r, rd, f)", bank_name.as_str()));
            }
        }
        Ok(())
    }

    /// Skips header directives up to `.visible`/`.entry` (see `sp_header`).
    fn skip_header_directives(&mut self) -> (r: Result<(), ParseError>)
        requires
            old(self).wf(),
        ensures
            final(self).wf(),
            final(self).same(old(self)),
            match sp_header(old(self).toks(), old(self).st()) {
                Ok(s) => r is Ok && final(self).st() == s,
                Err(e) => r matches Err(x) && x@ == e,
            },
    {
        #[verifier::loop_isolation(false)]
        loop
            invariant
                self.wf(),
                self.same(old(self)),
                sp_header(old(self).toks(), old(self).st()) == sp_header(self.toks(), self.st()),
            decreases self.tokens@.len() - self.cursor,
        {
            proof {
                lemma_skip_nl(self.toks(), self.st());
            }
            self.skip_newlines();
            let t = self.current();
            match t {
                None => {
                    return Err(ParseError::MissingEntry);
                },
                Some(Token::Dot) => {
                    let name = match self.peek_nonws(1) {
                        Some(Token::Ident(s)) => s.clone(),
                        _ => {
                            return Err(
                                unexpected(self.line, "directive name after `.`", "something else"),
                            );
                        },
                    };
                    if str_eq(name.as_str(), "visible") || str_eq(name.as_str(), "entry") {
                        return Ok(());
                    }
                    let ghost c0 = self.cursor as int;
                    let ghost l0 = self.line as int;
                    proof {
                        lemma_line_end(self.toks(), c0 + 1);
                    }
                    while self.cursor < self.tokens.len() && !matches!(
                        self.tokens[self.cursor].0,
                        Token::Newline
                    )
                        invariant
                            self.wf(),
                            self.same(old(self)),
                            c0 <= self.cursor <= line_end(self.toks(), c0),
                            self.line == l0,
                            line_end(self.toks(), self.cursor as int) == line_end(self.toks(), c0),
                        decreases self.tokens@.len() - self.cursor,
                    {
                        proof {
                            lemma_line_end(self.toks(), self.cursor + 1);
                        }
                        self.advance();
                    }
                },
                Some(_) => {
                    let line = self.line;
                    return Err(unexpected_at(line, "file-level directive", self.peek()));
                },
            }
        }
    }

    /// `.param` entries up to `)` (see `sp_plist`).
    fn parse_param_list(&mut self) -> (r: Result<Vec<ParamInfo>, ParseError>)
        requires
            old(self).wf(),
        ensures
            final(self).wf(),
            final(self).same(old(self)),
            match sp_plist(old(self).toks(), old(self).st(), Seq::empty()) {
                Ok((v, s)) => r matches Ok(x) && params_view(x@) == v && final(self).st() == s,
                Err(e) => r matches Err(x) && x@ == e,
            },
    {
        let mut params: Vec<ParamInfo> = Vec::new();
        proof {
            assert(params_view(params@) =~= Seq::<ParamV>::empty());
        }
        #[verifier::loop_isolation(false)]
        loop
            invariant
                self.wf(),
                self.same(old(self)),
                sp_plist(old(self).toks(), old(self).st(), Seq::empty()) == sp_plist(
                    self.toks(),
                    self.st(),
                    params_view(params@),
                ),
            decreases self.tokens@.len() - self.cursor,
        {
            proof {
                lemma_skip_nl(self.toks(), self.st());
            }
            self.skip_newlines();
            let t = self.current();
            match t {
                None => {
                    break;
                },
                Some(Token::RParen) => {
                    break;
                },
                Some(Token::Comma) => {
                    self.advance();
                },
                Some(Token::Dot) => {
                    self.advance();
                    proof {
                        lemma_eat_ident(self.toks(), self.st(), "param"@);
                    }
                    if !self.eat_ident("param") {
                        return Err(unexpected(self.line, "`param`", "something else"));
                    }
                    proof {
                        lemma_expect(self.toks(), self.st(), Punct::Dot);
                    }
                    match self.expect(Punct::Dot, "`.` before param type") {
                        Ok(()) => {},
                        Err(e) => {
                            return Err(e);
                        },
                    }
                    proof {
                        lemma_expect_ident(self.toks(), self.st());
                    }
                    let ty_str = match self.expect_ident() {
                        Ok(s) => s,
                        Err(e) => {
                            return Err(e);
                        },
                    };
                    let ptx_type = match parse_ptx_type(ty_str.as_str(), self.line) {
                        Ok(p) => p,
                        Err(e) => {
                            return Err(e);
                        },
                    };
                    proof {
                        lemma_expect_ident(self.toks(), self.st());
                    }
                    let name = match self.expect_ident() {
                        Ok(s) => s,
                        Err(e) => {
                            return Err(e);
                        },
                    };
                    let ghost before = params@;
                    let ghost pv = ParamV { name: name@, ptx_type };
                    params.push(ParamInfo { name, ptx_type });
                    proof {
                        assert(params_view(params@) =~= params_view(before).push(pv));
                    }
                },
                Some(_) => {
                    let line = self.line;
                    return Err(unexpected_at(line, "`.param` or `)`", self.peek()));
                },
            }
        }
        Ok(params)
    }

    /// `.visible .entry name(params)` (see `sp_entry`).
    fn parse_entry_header(&mut self) -> (r: Result<(String, Vec<ParamInfo>), ParseError>)
        requires
            old(self).wf(),
        ensures
            final(self).wf(),
            final(self).same(old(self)),
            match sp_entry(old(self).toks(), old(self).st()) {
                Ok(((n, ps), s)) => r matches Ok(x) && x.0@ == n && params_view(x.1@) == ps
                    && final(self).st() == s,
                Err(e) => r matches Err(x) && x@ == e,
            },
    {
        self.skip_newlines();
        match self.expect(Punct::Dot, "`.` before entry directive") {
            Ok(()) => {},
            Err(e) => {
                return Err(e);
            },
        }
        if self.eat_ident("visible") {
            match self.expect(Punct::Dot, "`.` before `entry`") {
                Ok(()) => {},
                Err(e) => {
                    return Err(e);
                },
            }
        }
        if !self.eat_ident("entry") {
            return Err(unexpected(self.line, "`entry`", "something else"));
        }
        let name = match self.expect_ident() {
            Ok(n) => n,
            Err(e) => {
                return Err(e);
            },
        };
        match self.expect(Punct::LParen, "`(` before parameter list") {
            Ok(()) => {},
            Err(e) => {
                return Err(e);
            },
        }
        let params = match self.parse_param_list() {
            Ok(p) => p,
            Err(e) => {
                return Err(e);
            },
        };
        match self.expect(Punct::RParen, "`)` after parameter list") {
            Ok(()) => {},
            Err(e) => {
                return Err(e);
            },
        }
        Ok((name, params))
    }

    /// A whole PTX file (see `sp_parse`).
    fn parse_top_level(&mut self) -> (r: Result<ParseOutput, ParseError>)
        requires
            old(self).wf(),
            old(self).cursor == 0,
            old(self).line == 1,
        ensures
            match sp_parse(old(self).toks()) {
                Ok(v) => r matches Ok(x) && x@ == v,
                Err(e) => r matches Err(x) && x@ == e,
            },
    {
        match self.skip_header_directives() {
            Ok(()) => {},
            Err(e) => {
                return Err(e);
            },
        }
        let (name, params) = match self.parse_entry_header() {
            Ok(p) => p,
            Err(e) => {
                return Err(e);
            },
        };
        match self.expect(Punct::LBrace, "`{` to start kernel body") {
            Ok(()) => {},
            Err(e) => {
                return Err(e);
            },
        }
        match self.parse_reg_decls() {
            Ok(()) => {},
            Err(e) => {
                return Err(e);
            },
        }
        let raw_instructions = match self.parse_instruction_list() {
            Ok(v) => v,
            Err(e) => {
                return Err(e);
            },
        };
        match self.expect(Punct::RBrace, "`}` to close kernel body") {
            Ok(()) => {},
            Err(e) => {
                return Err(e);
            },
        }
        Ok(ParseOutput { name, params, raw_instructions })
    }
}

/// Parses a token list (see `sp_parse`). The list must be shorter than `usize::MAX`
/// so that line numbers cannot overflow.
pub fn parse_tokens(tokens: Vec<(Token, Span)>) -> (r: Result<ParseOutput, ParseError>)
    requires
        tokens@.len() < usize::MAX,
    ensures
        match sp_parse(toks_of(tokens@)) {
            Ok(v) => r matches Ok(x) && x@ == v,
            Err(e) => r matches Err(x) && x@ == e,
        },
{
    let mut p = Parser { tokens, cursor: 0, line: 1 };
    p.parse_top_level()
}

/// The special register `%name.axis`, if the pair names one.
fn sreg_exec(name: &str, axis: &str) -> (r: Option<SpecialReg>)
    ensures
        r == sreg_of(name@, axis@),
{
    let k: u8 = if str_eq(axis, "x") {
        0
    } else if str_eq(axis, "y") {
        1
    } else if str_eq(axis, "z") {
        2
    } else {
        3
    };
    if k == 3 {
        None
    } else if str_eq(name, "tid") {
        Some(if k == 0 { SpecialReg::TidX } else if k == 1 { SpecialReg::TidY } else { SpecialReg::TidZ })
    } else if str_eq(name, "ntid") {
        Some(if k == 0 { SpecialReg::NtidX } else if k == 1 { SpecialReg::NtidY } else { SpecialReg::NtidZ })
    } else if str_eq(name, "ctaid") {
        Some(if k == 0 { SpecialReg::CtaidX } else if k == 1 { SpecialReg::CtaidY } else { SpecialReg::CtaidZ })
    } else if str_eq(name, "nctaid") {
        Some(if k == 0 { SpecialReg::NctaidX } else if k == 1 { SpecialReg::NctaidY } else { SpecialReg::NctaidZ })
    } else {
        None
    }
}

} // verus!
