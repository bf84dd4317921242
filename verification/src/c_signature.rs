//! Reading C function signatures, and telling PTX text from C text.
//!
//! The grammar is small:
//!
//! ```text
//! signature  := type_words ident '(' params? ')'
//! params     := 'void' | param (',' param)*
//! param      := type_words '*'* ident?
//! type_words := ident modifier*      (modifier: int, long, short, char, signed,
//!                                     unsigned, const, volatile, struct)
//! ```
//!
//! Comments are skipped, `&` is a token that no rule accepts (so a reference
//! parameter is an "unexpected token" error), other unknown characters are
//! ignored, and newlines only count lines for messages.

use crate::inst_info::inst_info;
use crate::lowering::KernelV;
use crate::debug_text::{quoted, quoted_text};
use crate::parse_error::{unexpected, ut, ErrV, ParseError};
use crate::ptx_lexer::{
    class_end, is_alpha, lemma_class_run, string_of, chars_of, CharClass,
};
use crate::ptx_output::{
    params_view, ParamInfo, ParamV, ParsedKernel, ParsedSignature, PtxType, SigParamV, SigV,
    SignatureParam,
};
use crate::ptx_parser::{lemma_ptx_type_names, ptx_type_of};
use crate::text::{copy_string, str_eq};
use vstd::prelude::*;

verus! {

broadcast use vstd::string::group_string_axioms;

/// A token of C signature text.
#[derive(Debug, Clone)]
pub enum CTok {
    Ident(String),
    Star,
    Comma,
    LParen,
    RParen,
    /// `&`: a reference, which no signature the reader accepts contains.
    Amp,
    /// Kept only to count lines.
    Newline,
}

/// The value of a token.
pub enum CTokV {
    Ident(Seq<char>),
    Star,
    Comma,
    LParen,
    RParen,
    Amp,
    Newline,
}

impl View for CTok {
    type V = CTokV;

    open spec fn view(&self) -> CTokV {
        match self {
            CTok::Ident(s) => CTokV::Ident(s@),
            CTok::Star => CTokV::Star,
            CTok::Comma => CTokV::Comma,
            CTok::LParen => CTokV::LParen,
            CTok::RParen => CTokV::RParen,
            CTok::Amp => CTokV::Amp,
            CTok::Newline => CTokV::Newline,
        }
    }
}

impl CTok {
    /// A copy of this token.
    pub fn duplicate(&self) -> (t: CTok)
        ensures
            t@ == self@,
    {
        match self {
            CTok::Ident(s) => CTok::Ident(copy_string(s)),
            CTok::Star => CTok::Star,
            CTok::Comma => CTok::Comma,
            CTok::LParen => CTok::LParen,
            CTok::RParen => CTok::RParen,
            CTok::Amp => CTok::Amp,
            CTok::Newline => CTok::Newline,
        }
    }
}

/// The values of a token list.
pub open spec fn ctoks_view(v: Seq<CTok>) -> Seq<CTokV> {
    Seq::new(v.len(), |i: int| v[i]@)
}

/// Where a scanner stands: in text, in a `//` comment, or in a `/* */` comment.
#[derive(Clone, Copy, PartialEq, Eq, Structural)]
pub enum ScanMode {
    Code,
    LineComment,
    BlockComment,
}

pub open spec fn mode_rank(m: ScanMode) -> nat {
    match m {
        ScanMode::Code => 0,
        _ => 1,
    }
}

/// Unicode white space (the `White_Space` property, as `char::is_whitespace`).
pub open spec fn is_space(c: char) -> bool {
    let x = c as u32;
    (9 <= x <= 13) || x == 32 || x == 0x85 || x == 0xA0 || x == 0x1680 || (0x2000 <= x <= 0x200A)
        || x == 0x2028 || x == 0x2029 || x == 0x202F || x == 0x205F || x == 0x3000
}

/// Whether the first character of `s[i..]` that is neither white space nor
/// inside a comment is a `.` (a stray `/` ends the scan with `false`).
pub open spec fn ptx_scan(s: Seq<char>, i: int, m: ScanMode) -> bool
    decreases s.len() - i,
{
    if i < 0 || i >= s.len() {
        false
    } else {
        match m {
            ScanMode::Code => if is_space(s[i]) {
                ptx_scan(s, i + 1, ScanMode::Code)
            } else if s[i] == '/' {
                if i + 1 < s.len() && s[i + 1] == '/' {
                    ptx_scan(s, i + 2, ScanMode::LineComment)
                } else if i + 1 < s.len() && s[i + 1] == '*' {
                    ptx_scan(s, i + 2, ScanMode::BlockComment)
                } else {
                    false
                }
            } else {
                s[i] == '.'
            },
            ScanMode::LineComment => if s[i] == '\n' {
                ptx_scan(s, i + 1, ScanMode::Code)
            } else {
                ptx_scan(s, i + 1, ScanMode::LineComment)
            },
            ScanMode::BlockComment => if s[i] == '*' && i + 1 < s.len() && s[i + 1] == '/' {
                ptx_scan(s, i + 2, ScanMode::Code)
            } else {
                ptx_scan(s, i + 1, ScanMode::BlockComment)
            },
        }
    }
}

fn is_space_exec(c: char) -> (b: bool)
    ensures
        b == is_space(c),
{
    let x = c as u32;
    (9 <= x && x <= 13) || x == 32 || x == 0x85 || x == 0xA0 || x == 0x1680 || (0x2000 <= x && x
        <= 0x200A) || x == 0x2028 || x == 0x2029 || x == 0x202F || x == 0x205F || x == 0x3000
}

/// Whether `input` looks like PTX rather than C: past white space and
/// comments, its first character is `.` (every PTX file starts with a
/// directive such as `.version`).
pub fn looks_like_ptx(input: &str) -> (b: bool)
    ensures
        b == ptx_scan(input@, 0, ScanMode::Code),
{
    let cs = chars_of(input);
    let n = cs.len();
    let mut i: usize = 0;
    let mut m = ScanMode::Code;
    while i < n
        invariant
            cs@ == input@,
            n == cs@.len(),
            i <= n + 1,
            ptx_scan(cs@, i as int, m) == ptx_scan(cs@, 0, ScanMode::Code),
        decreases n - i,
    {
        let c = cs[i];
        match m {
            ScanMode::Code => {
                if is_space_exec(c) {
                    i = i + 1;
                } else if c == '/' {
                    if i + 1 < n && cs[i + 1] == '/' {
                        i = i + 2;
                        m = ScanMode::LineComment;
                    } else if i + 1 < n && cs[i + 1] == '*' {
                        i = i + 2;
                        m = ScanMode::BlockComment;
                    } else {
                        return false;
                    }
                } else {
                    return c == '.';
                }
            },
            ScanMode::LineComment => {
                if c == '\n' {
                    m = ScanMode::Code;
                }
                i = i + 1;
            },
            ScanMode::BlockComment => {
                if c == '*' && i + 1 < n && cs[i + 1] == '/' {
                    i = i + 2;
                    m = ScanMode::Code;
                } else {
                    i = i + 1;
                }
            },
        }
    }
    false
}

/// The tokens of `s[i..]`, scanning in mode `m`.
pub open spec fn c_lex(s: Seq<char>, i: int, m: ScanMode) -> Seq<CTokV>
    decreases s.len() - i, mode_rank(m),
{
    if i < 0 || i >= s.len() {
        Seq::empty()
    } else {
        match m {
            ScanMode::Code => {
                let c = s[i];
                if c == ' ' || c == '\t' || c == '\r' {
                    c_lex(s, i + 1, ScanMode::Code)
                } else if c == '\n' {
                    seq![CTokV::Newline] + c_lex(s, i + 1, ScanMode::Code)
                } else if c == '/' && i + 1 < s.len() && s[i + 1] == '/' {
                    c_lex(s, i + 2, ScanMode::LineComment)
                } else if c == '/' && i + 1 < s.len() && s[i + 1] == '*' {
                    c_lex(s, i + 2, ScanMode::BlockComment)
                } else if c == '*' {
                    seq![CTokV::Star] + c_lex(s, i + 1, ScanMode::Code)
                } else if c == ',' {
                    seq![CTokV::Comma] + c_lex(s, i + 1, ScanMode::Code)
                } else if c == '(' {
                    seq![CTokV::LParen] + c_lex(s, i + 1, ScanMode::Code)
                } else if c == ')' {
                    seq![CTokV::RParen] + c_lex(s, i + 1, ScanMode::Code)
                } else if c == '&' {
                    seq![CTokV::Amp] + c_lex(s, i + 1, ScanMode::Code)
                } else if is_alpha(c) {
                    let e = class_end(s, i + 1, CharClass::Ident);
                    proof {
                        lemma_class_run(s, i + 1, CharClass::Ident);
                    }
                    seq![CTokV::Ident(s.subrange(i, e))] + c_lex(s, e, ScanMode::Code)
                } else {
                    c_lex(s, i + 1, ScanMode::Code)
                }
            },
            ScanMode::LineComment => if s[i] == '\n' {
                c_lex(s, i, ScanMode::Code)
            } else {
                c_lex(s, i + 1, ScanMode::LineComment)
            },
            // An unterminated comment gives its last character back to the text.
            ScanMode::BlockComment => if i + 1 < s.len() {
                if s[i] == '*' && s[i + 1] == '/' {
                    c_lex(s, i + 2, ScanMode::Code)
                } else {
                    c_lex(s, i + 1, ScanMode::BlockComment)
                }
            } else {
                c_lex(s, i, ScanMode::Code)
            },
        }
    }
}

/// Splits C signature text into tokens.
pub fn tokenize_c(input: &str) -> (out: Vec<CTok>)
    ensures
        ctoks_view(out@) == c_lex(input@, 0, ScanMode::Code),
{
    let cs = chars_of(input);
    let n = cs.len();
    let mut out: Vec<CTok> = Vec::new();
    let mut i: usize = 0;
    let mut m = ScanMode::Code;
    while i < n
        invariant
            cs@ == input@,
            n == cs@.len(),
            i <= n,
            c_lex(cs@, 0, ScanMode::Code) == ctoks_view(out@) + c_lex(cs@, i as int, m),
        decreases n - i, mode_rank(m),
    {
        let ghost s = cs@;
        let ghost before = ctoks_view(out@);
        let c = cs[i];
        match m {
            ScanMode::Code => {
                let mut tok: Option<CTok> = None;
                if c == ' ' || c == '\t' || c == '\r' {
                    i = i + 1;
                } else if c == '\n' {
                    tok = Some(CTok::Newline);
                    i = i + 1;
                } else if c == '/' && i + 1 < n && cs[i + 1] == '/' {
                    i = i + 2;
                    m = ScanMode::LineComment;
                } else if c == '/' && i + 1 < n && cs[i + 1] == '*' {
                    i = i + 2;
                    m = ScanMode::BlockComment;
                } else if c == '*' {
                    tok = Some(CTok::Star);
                    i = i + 1;
                } else if c == ',' {
                    tok = Some(CTok::Comma);
                    i = i + 1;
                } else if c == '(' {
                    tok = Some(CTok::LParen);
                    i = i + 1;
                } else if c == ')' {
                    tok = Some(CTok::RParen);
                    i = i + 1;
                } else if c == '&' {
                    tok = Some(CTok::Amp);
                    i = i + 1;
                } else if ((97 <= c as u32 && c as u32 <= 122) || (65 <= c as u32 && c as u32 <= 90)
                    || c == '_') {
                    let e = crate::ptx_lexer::class_end_exec(&cs, i + 1, CharClass::Ident);
                    proof {
                        lemma_class_run(s, i + 1, CharClass::Ident);
                    }
                    tok = Some(CTok::Ident(string_of(&cs, i, e)));
                    i = e;
                } else {
                    i = i + 1;
                }
                match tok {
                    Some(t) => {
                        out.push(t);
                        assert(ctoks_view(out@) =~= before.push(t@));
                        assert(before.push(t@) + c_lex(s, i as int, m) =~= before + (seq![t@]
                            + c_lex(s, i as int, m)));
                    },
                    None => {},
                }
            },
            ScanMode::LineComment => {
                if c == '\n' {
                    m = ScanMode::Code;
                } else {
                    i = i + 1;
                }
            },
            ScanMode::BlockComment => {
                if i + 1 < n {
                    if c == '*' && cs[i + 1] == '/' {
                        i = i + 2;
                        m = ScanMode::Code;
                    } else {
                        i = i + 1;
                    }
                } else {
                    m = ScanMode::Code;
                }
            },
        }
    }
    assert(c_lex(cs@, i as int, m) =~= Seq::<CTokV>::empty());
    assert(ctoks_view(out@) + Seq::<CTokV>::empty() =~= ctoks_view(out@));
    out
}

// ---------------------------------------------------------------------------
// C type names.
// ---------------------------------------------------------------------------

/// Words that extend a type name (`unsigned int`, `const float`, ...).
pub open spec fn type_modifier(x: Seq<char>) -> bool {
    x == "int"@ || x == "long"@ || x == "short"@ || x == "char"@ || x == "signed"@ || x
        == "unsigned"@ || x == "const"@ || x == "volatile"@ || x == "struct"@
}

/// Whether `s` is a word that extends a type name.
pub fn is_type_modifier(s: &str) -> (b: bool)
    ensures
        b == type_modifier(s@),
{
    str_eq(s, "int") || str_eq(s, "long") || str_eq(s, "short") || str_eq(s, "char") || str_eq(
        s,
        "signed",
    ) || str_eq(s, "unsigned") || str_eq(s, "const") || str_eq(s, "volatile") || str_eq(s, "struct")
}

/// Whether `s` is `const` or `volatile`.
pub fn is_qualifier(s: &str) -> (b: bool)
    ensures
        b == qualifier(s@),
{
    str_eq(s, "const") || str_eq(s, "volatile")
}

/// `s[i..]` with its white-space runs turned into single spaces and dropped at
/// both ends (`pending`: a space is owed before the next word; `started`: a word
/// has been seen).
pub open spec fn norm_from(s: Seq<char>, i: int, pending: bool, started: bool) -> Seq<char>
    decreases s.len() - i,
{
    if i < 0 || i >= s.len() {
        Seq::empty()
    } else if is_space(s[i]) {
        norm_from(s, i + 1, started, started)
    } else {
        (if pending {
            seq![' ']
        } else {
            Seq::empty()
        }) + seq![s[i]] + norm_from(s, i + 1, false, true)
    }
}

/// The words of `s` joined by single spaces.
pub open spec fn normalize(s: Seq<char>) -> Seq<char> {
    norm_from(s, 0, false, false)
}

/// `s` with every occurrence of `pat` removed, scanning left to right.
pub open spec fn strip_all(s: Seq<char>, pat: Seq<char>) -> Seq<char>
    decreases s.len(),
{
    if pat.len() == 0 || s.len() < pat.len() {
        s
    } else if s.subrange(0, pat.len() as int) == pat {
        strip_all(s.subrange(pat.len() as int, s.len() as int), pat)
    } else {
        seq![s[0]] + strip_all(s.subrange(1, s.len() as int), pat)
    }
}

/// `s` without leading white space.
pub open spec fn trim_start(s: Seq<char>) -> Seq<char>
    decreases s.len(),
{
    if s.len() > 0 && is_space(s[0]) {
        trim_start(s.subrange(1, s.len() as int))
    } else {
        s
    }
}

/// `s` without trailing white space.
pub open spec fn trim_end(s: Seq<char>) -> Seq<char>
    decreases s.len(),
{
    if s.len() > 0 && is_space(s.last()) {
        trim_end(s.drop_last())
    } else {
        s
    }
}

/// The PTX type of a cleaned C type name.
pub open spec fn c_type_table(x: Seq<char>) -> Option<PtxType> {
    if x == "float"@ || x == "double"@ {
        Some(PtxType::F32)
    } else if x == "int"@ || x == "signed int"@ || x == "signed"@ || x == "int32_t"@ || x
        == "i32"@ {
        Some(PtxType::S32)
    } else if x == "unsigned int"@ || x == "unsigned"@ || x == "uint32_t"@ || x == "u32"@ {
        Some(PtxType::U32)
    } else if x == "long"@ || x == "signed long"@ || x == "long int"@ || x == "signed long int"@
        || x == "long long"@ || x == "signed long long"@ || x == "long long int"@ || x
        == "int64_t"@ || x == "ptrdiff_t"@ {
        Some(PtxType::S64)
    } else if x == "unsigned long"@ || x == "unsigned long int"@ || x == "unsigned long long"@
        || x == "unsigned long long int"@ || x == "uint64_t"@ || x == "size_t"@ {
        Some(PtxType::U64)
    } else if x == "char"@ || x == "signed char"@ || x == "short"@ || x == "short int"@ || x
        == "int8_t"@ || x == "int16_t"@ {
        Some(PtxType::S32)
    } else if x == "unsigned char"@ || x == "unsigned short"@ || x == "unsigned short int"@ || x
        == "uint8_t"@ || x == "uint16_t"@ {
        Some(PtxType::U32)
    } else if x == "bool"@ || x == "_Bool"@ {
        Some(PtxType::Pred)
    } else {
        None
    }
}

/// The PTX type of a C type name: spacing normalized, `const` and `volatile`
/// dropped, then looked up (`double` maps to `F32`; 8- and 16-bit integers are
/// widened to 32 bits; `bool` maps to `Pred`).
pub open spec fn c_type_of(s: Seq<char>) -> Option<PtxType> {
    c_type_table(
        trim_end(trim_start(strip_all(strip_all(normalize(s), "const "@), "volatile "@))),
    )
}

proof fn lemma_norm_shift(p: Seq<char>, s: Seq<char>, i: int, pending: bool, started: bool)
    requires
        0 <= i,
    ensures
        norm_from(p + s, p.len() + i, pending, started) == norm_from(s, i, pending, started),
    decreases s.len() - i,
{
    if i < s.len() {
        assert((p + s)[p.len() + i] == s[i]);
        if is_space(s[i]) {
            lemma_norm_shift(p, s, i + 1, started, started);
        } else {
            lemma_norm_shift(p, s, i + 1, false, true);
        }
    }
}

proof fn lemma_norm_lead(x: Seq<char>, i: int)
    requires
        0 <= i,
    ensures
        norm_from(x, i, true, true) == if norm_from(x, i, false, false).len() == 0 {
            Seq::<char>::empty()
        } else {
            seq![' '] + norm_from(x, i, false, false)
        },
    decreases x.len() - i,
{
    if i < x.len() {
        if is_space(x[i]) {
            lemma_norm_lead(x, i + 1);
        } else {
            let rest = norm_from(x, i + 1, false, true);
            assert(seq![' '] + seq![x[i]] + rest =~= seq![' '] + (seq![x[i]] + rest));
            assert(Seq::<char>::empty() + seq![x[i]] + rest =~= seq![x[i]] + rest);
        }
    }
}

proof fn lemma_norm_word(x: Seq<char>, i: int, j: int, started: bool)
    requires
        0 <= i < j <= x.len(),
        forall|k: int| i <= k < j ==> !is_space(#[trigger] x[k]),
    ensures
        norm_from(x, i, false, started) == x.subrange(i, j) + norm_from(x, j, false, true),
    decreases j - i,
{
    let rest = norm_from(x, i + 1, false, true);
    assert(norm_from(x, i, false, started) =~= seq![x[i]] + rest);
    if i + 1 < j {
        lemma_norm_word(x, i + 1, j, true);
        assert(seq![x[i]] + (x.subrange(i + 1, j) + norm_from(x, j, false, true)) =~= x.subrange(i, j)
            + norm_from(x, j, false, true));
    } else {
        assert(x.subrange(i, j) =~= seq![x[i]]);
    }
}

/// The words of `w + " " + s`, where `w` is one word: `w`, then the words of `s`
/// after a space (nothing more when `s` has none).
proof fn lemma_norm_prefix(w: Seq<char>, s: Seq<char>)
    requires
        w.len() > 0,
        forall|k: int| 0 <= k < w.len() ==> !is_space(#[trigger] w[k]),
    ensures
        normalize(w + seq![' '] + s) == if normalize(s).len() == 0 {
            w
        } else {
            w + seq![' '] + normalize(s)
        },
{
    let p = w + seq![' '];
    let x = p + s;
    assert(x =~= w + seq![' '] + s);
    assert forall|k: int| 0 <= k < w.len() implies !is_space(#[trigger] x[k]) by {
        assert(x[k] == w[k]);
    }
    lemma_norm_word(x, 0, w.len() as int, false);
    assert(x.subrange(0, w.len() as int) =~= w);
    assert(x[w.len() as int] == ' ');
    assert(is_space(' '));
    assert(norm_from(x, w.len() as int, false, true) == norm_from(x, p.len() as int, true, true));
    lemma_norm_shift(p, s, 0, true, true);
    lemma_norm_lead(s, 0);
    if normalize(s).len() == 0 {
        assert(w + Seq::<char>::empty() =~= w);
    } else {
        assert(w + (seq![' '] + normalize(s)) =~= w + seq![' '] + normalize(s));
    }
}

proof fn lemma_strip_keep(q: Seq<char>, n: Seq<char>, pat: Seq<char>)
    requires
        pat.len() > 0,
        forall|j: int| 0 <= j < q.len() ==> #[trigger] q[j] != pat[0],
    ensures
        strip_all(q + n, pat) == q + strip_all(n, pat),
    decreases q.len(),
{
    let x = q + n;
    if q.len() == 0 {
        assert(x =~= n);
        assert(q + strip_all(n, pat) =~= strip_all(n, pat));
    } else if x.len() < pat.len() {
    } else {
        assert(x.subrange(0, pat.len() as int)[0] == q[0]);
        assert(x.subrange(0, pat.len() as int) != pat);
        let q1 = q.subrange(1, q.len() as int);
        assert forall|j: int| 0 <= j < q1.len() implies #[trigger] q1[j] != pat[0] by {
            assert(q1[j] == q[j + 1]);
        }
        lemma_strip_keep(q1, n, pat);
        assert(x.subrange(1, x.len() as int) =~= q1 + n);
        assert(seq![x[0]] + (q1 + strip_all(n, pat)) =~= q + strip_all(n, pat));
    }
}

proof fn lemma_strip_head(n: Seq<char>, pat: Seq<char>)
    requires
        pat.len() > 0,
    ensures
        strip_all(pat + n, pat) == strip_all(n, pat),
{
    let x = pat + n;
    assert(x.subrange(0, pat.len() as int) =~= pat);
    assert(x.subrange(pat.len() as int, x.len() as int) =~= n);
}

proof fn lemma_table_misses()
    ensures
        c_type_table(Seq::empty()) is None,
        c_type_table("const"@) is None,
        c_type_table("volatile"@) is None,
{
    reveal_strlit("const");
    reveal_strlit("volatile");
    reveal_strlit("_Bool");
    reveal_strlit("bool");
    reveal_strlit("char");
    reveal_strlit("double");
    reveal_strlit("float");
    reveal_strlit("i32");
    reveal_strlit("int");
    reveal_strlit("int16_t");
    reveal_strlit("int32_t");
    reveal_strlit("int64_t");
    reveal_strlit("int8_t");
    reveal_strlit("long int");
    reveal_strlit("long long int");
    reveal_strlit("long long");
    reveal_strlit("long");
    reveal_strlit("ptrdiff_t");
    reveal_strlit("short int");
    reveal_strlit("short");
    reveal_strlit("signed char");
    reveal_strlit("signed int");
    reveal_strlit("signed long int");
    reveal_strlit("signed long long");
    reveal_strlit("signed long");
    reveal_strlit("signed");
    reveal_strlit("size_t");
    reveal_strlit("u32");
    reveal_strlit("uint16_t");
    reveal_strlit("uint32_t");
    reveal_strlit("uint64_t");
    reveal_strlit("uint8_t");
    reveal_strlit("unsigned char");
    reveal_strlit("unsigned int");
    reveal_strlit("unsigned long int");
    reveal_strlit("unsigned long long int");
    reveal_strlit("unsigned long long");
    reveal_strlit("unsigned long");
    reveal_strlit("unsigned short int");
    reveal_strlit("unsigned short");
    reveal_strlit("unsigned");
    assert("const"@.len() == 5);
    assert("volatile"@.len() == 8);
    assert("_Bool"@.len() == 5);
    assert("bool"@.len() == 4);
    assert("char"@.len() == 4);
    assert("double"@.len() == 6);
    assert("float"@.len() == 5);
    assert("i32"@.len() == 3);
    assert("int"@.len() == 3);
    assert("int16_t"@.len() == 7);
    assert("int32_t"@.len() == 7);
    assert("int64_t"@.len() == 7);
    assert("int8_t"@.len() == 6);
    assert("long int"@.len() == 8);
    assert("long long int"@.len() == 13);
    assert("long long"@.len() == 9);
    assert("long"@.len() == 4);
    assert("ptrdiff_t"@.len() == 9);
    assert("short int"@.len() == 9);
    assert("short"@.len() == 5);
    assert("signed char"@.len() == 11);
    assert("signed int"@.len() == 10);
    assert("signed long int"@.len() == 15);
    assert("signed long long"@.len() == 16);
    assert("signed long"@.len() == 11);
    assert("signed"@.len() == 6);
    assert("size_t"@.len() == 6);
    assert("u32"@.len() == 3);
    assert("uint16_t"@.len() == 8);
    assert("uint32_t"@.len() == 8);
    assert("uint64_t"@.len() == 8);
    assert("uint8_t"@.len() == 7);
    assert("unsigned char"@.len() == 13);
    assert("unsigned int"@.len() == 12);
    assert("unsigned long int"@.len() == 17);
    assert("unsigned long long int"@.len() == 22);
    assert("unsigned long long"@.len() == 18);
    assert("unsigned long"@.len() == 13);
    assert("unsigned short int"@.len() == 18);
    assert("unsigned short"@.len() == 14);
    assert("unsigned"@.len() == 8);
    assert("const"@ != "_Bool"@) by {
        assert("const"@[0] != "_Bool"@[0]);
    }
    assert("const"@ != "float"@) by {
        assert("const"@[0] != "float"@[0]);
    }
    assert("const"@ != "short"@) by {
        assert("const"@[0] != "short"@[0]);
    }
    assert("volatile"@ != "long int"@) by {
        assert("volatile"@[0] != "long int"@[0]);
    }
    assert("volatile"@ != "uint16_t"@) by {
        assert("volatile"@[0] != "uint16_t"@[0]);
    }
    assert("volatile"@ != "uint32_t"@) by {
        assert("volatile"@[0] != "uint32_t"@[0]);
    }
    assert("volatile"@ != "uint64_t"@) by {
        assert("volatile"@[0] != "uint64_t"@[0]);
    }
    assert("volatile"@ != "unsigned"@) by {
        assert("volatile"@[0] != "unsigned"@[0]);
    }
}

/// A leading `const ` or `volatile ` never changes what a C type name maps to
/// (a known type or none).
pub proof fn lemma_qualifier_prefix(s: Seq<char>)
    ensures
        c_type_of("const "@ + s) == c_type_of(s),
        c_type_of("volatile "@ + s) == c_type_of(s),
{
    reveal_strlit("const ");
    reveal_strlit("volatile ");
    reveal_strlit("const");
    reveal_strlit("volatile");
    lemma_table_misses();
    let c = "const"@;
    let v = "volatile"@;
    assert("const "@ =~= c + seq![' ']);
    assert("volatile "@ =~= v + seq![' ']);
    assert forall|k: int| 0 <= k < c.len() implies !is_space(#[trigger] c[k]) by {}
    assert forall|k: int| 0 <= k < v.len() implies !is_space(#[trigger] v[k]) by {}
    lemma_norm_prefix(c, s);
    lemma_norm_prefix(v, s);
    let n = normalize(s);
    assert(c + seq![' '] + s =~= "const "@ + s);
    assert(v + seq![' '] + s =~= "volatile "@ + s);
    assert forall|j: int| 0 <= j < v.len() implies #[trigger] v[j] != "const "@[0] by {}
    assert forall|j: int| 0 <= j < "volatile "@.len() implies #[trigger] "volatile "@[j] != "const "@[0] by {}
    if n.len() == 0 {
        assert(strip_all(n, "const "@) == n);
        assert(strip_all(n, "volatile "@) == n);
        assert(trim_start(n) == n);
        assert(trim_end(n) == n);
        // `const`: nothing to strip, nothing to trim.
        assert(strip_all(c, "const "@) == c);
        assert(strip_all(c, "volatile "@) == c);
        assert(trim_start(c) == c);
        assert(trim_end(c) == c);
        // `volatile`: it holds no `c`, so `const ` never starts inside it.
        lemma_strip_keep(v, Seq::empty(), "const "@);
        assert(v + Seq::<char>::empty() =~= v);
        assert(strip_all(v, "volatile "@) == v);
        assert(trim_start(v) == v);
        assert(trim_end(v) == v);
        assert(normalize("const "@ + s) == c);
        assert(normalize("volatile "@ + s) == v);
        assert(c_type_of(s) == c_type_table(n));
        assert(c_type_of("const "@ + s) == c_type_table(c));
        assert(c_type_of("volatile "@ + s) == c_type_table(v));
        assert(n =~= Seq::<char>::empty());
    } else {
        assert(c + seq![' '] + n =~= "const "@ + n);
        lemma_strip_head(n, "const "@);
        assert(v + seq![' '] + n =~= "volatile "@ + n);
        lemma_strip_keep("volatile "@, n, "const "@);
        lemma_strip_head(strip_all(n, "const "@), "volatile "@);
        assert(normalize("const "@ + s) == "const "@ + n);
        assert(normalize("volatile "@ + s) == "volatile "@ + n);
        assert(strip_all("volatile "@ + n, "const "@) == "volatile "@ + strip_all(n, "const "@));
        assert(c_type_of("const "@ + s) == c_type_table(
            trim_end(trim_start(strip_all(strip_all(n, "const "@), "volatile "@))),
        ));
        assert(c_type_of("volatile "@ + s) == c_type_table(
            trim_end(trim_start(strip_all(strip_all(n, "const "@), "volatile "@))),
        ));
    }
}

/// The unsigned counterpart of a signed integer type (other types unchanged).
pub open spec fn unsigned_kind(o: Option<PtxType>) -> Option<PtxType> {
    match o {
        Some(PtxType::S32) => Some(PtxType::U32),
        Some(PtxType::S64) => Some(PtxType::U64),
        other => other,
    }
}

/// C type names map by width and signedness: `int32_t` is a signed 32-bit and
/// `int64_t` a signed 64-bit integer; every other spelling of a signed integer
/// type maps as the fixed-width type of its width (with `char` and `short`
/// widened like `int8_t` and `int16_t`); each `unsigned`/`uint*_t` name maps to
/// the unsigned counterpart of its signed name, and `size_t` to that of
/// `ptrdiff_t`; `double` maps as `float`, `_Bool` as `bool`.
#[verifier::rlimit(60)]
pub proof fn lemma_c_type_families()
    ensures
        c_type_table("unsigned int"@) == unsigned_kind(c_type_table("int"@)),
        c_type_table("unsigned"@) == unsigned_kind(c_type_table("signed"@)),
        c_type_table("unsigned long"@) == unsigned_kind(c_type_table("long"@)),
        c_type_table("unsigned long int"@) == unsigned_kind(c_type_table("long int"@)),
        c_type_table("unsigned long long"@) == unsigned_kind(c_type_table("long long"@)),
        c_type_table("unsigned long long int"@) == unsigned_kind(c_type_table("long long int"@)),
        c_type_table("unsigned char"@) == unsigned_kind(c_type_table("signed char"@)),
        c_type_table("unsigned short"@) == unsigned_kind(c_type_table("short"@)),
        c_type_table("unsigned short int"@) == unsigned_kind(c_type_table("short int"@)),
        c_type_table("uint8_t"@) == unsigned_kind(c_type_table("int8_t"@)),
        c_type_table("uint16_t"@) == unsigned_kind(c_type_table("int16_t"@)),
        c_type_table("uint32_t"@) == unsigned_kind(c_type_table("int32_t"@)),
        c_type_table("uint64_t"@) == unsigned_kind(c_type_table("int64_t"@)),
        c_type_table("size_t"@) == unsigned_kind(c_type_table("ptrdiff_t"@)),
        c_type_table("int"@) == c_type_table("int32_t"@),
        c_type_table("signed int"@) == c_type_table("int32_t"@),
        c_type_table("signed"@) == c_type_table("int32_t"@),
        c_type_table("i32"@) == c_type_table("int32_t"@),
        c_type_table("u32"@) == c_type_table("uint32_t"@),
        c_type_table("long"@) == c_type_table("int64_t"@),
        c_type_table("long int"@) == c_type_table("int64_t"@),
        c_type_table("signed long"@) == c_type_table("int64_t"@),
        c_type_table("signed long int"@) == c_type_table("int64_t"@),
        c_type_table("long long"@) == c_type_table("int64_t"@),
        c_type_table("signed long long"@) == c_type_table("int64_t"@),
        c_type_table("long long int"@) == c_type_table("int64_t"@),
        c_type_table("ptrdiff_t"@) == c_type_table("int64_t"@),
        c_type_table("char"@) == c_type_table("int8_t"@),
        c_type_table("signed char"@) == c_type_table("int8_t"@),
        c_type_table("short"@) == c_type_table("int16_t"@),
        c_type_table("short int"@) == c_type_table("int16_t"@),
        c_type_table("double"@) == c_type_table("float"@),
        c_type_table("_Bool"@) == c_type_table("bool"@),
        c_type_table("int32_t"@) == Some(PtxType::S32),
        c_type_table("int64_t"@) == Some(PtxType::S64),
        c_type_table("float"@) == Some(PtxType::F32),
        c_type_table("bool"@) == Some(PtxType::Pred),
{
    reveal_strlit("float");
    reveal_strlit("double");
    reveal_strlit("int");
    reveal_strlit("signed int");
    reveal_strlit("signed");
    reveal_strlit("int32_t");
    reveal_strlit("i32");
    reveal_strlit("unsigned int");
    reveal_strlit("unsigned");
    reveal_strlit("uint32_t");
    reveal_strlit("u32");
    reveal_strlit("long");
    reveal_strlit("signed long");
    reveal_strlit("long int");
    reveal_strlit("signed long int");
    reveal_strlit("long long");
    reveal_strlit("signed long long");
    reveal_strlit("long long int");
    reveal_strlit("int64_t");
    reveal_strlit("ptrdiff_t");
    reveal_strlit("unsigned long");
    reveal_strlit("unsigned long int");
    reveal_strlit("unsigned long long");
    reveal_strlit("unsigned long long int");
    reveal_strlit("uint64_t");
    reveal_strlit("size_t");
    reveal_strlit("char");
    reveal_strlit("signed char");
    reveal_strlit("short");
    reveal_strlit("short int");
    reveal_strlit("int8_t");
    reveal_strlit("int16_t");
    reveal_strlit("unsigned char");
    reveal_strlit("unsigned short");
    reveal_strlit("unsigned short int");
    reveal_strlit("uint8_t");
    reveal_strlit("uint16_t");
    reveal_strlit("bool");
    reveal_strlit("_Bool");
    assert("float"@.len() == 5);
    assert("double"@.len() == 6);
    assert("int"@.len() == 3);
    assert("signed int"@.len() == 10);
    assert("signed"@.len() == 6);
    assert("int32_t"@.len() == 7);
    assert("i32"@.len() == 3);
    assert("unsigned int"@.len() == 12);
    assert("unsigned"@.len() == 8);
    assert("uint32_t"@.len() == 8);
    assert("u32"@.len() == 3);
    assert("long"@.len() == 4);
    assert("signed long"@.len() == 11);
    assert("long int"@.len() == 8);
    assert("signed long int"@.len() == 15);
    assert("long long"@.len() == 9);
    assert("signed long long"@.len() == 16);
    assert("long long int"@.len() == 13);
    assert("int64_t"@.len() == 7);
    assert("ptrdiff_t"@.len() == 9);
    assert("unsigned long"@.len() == 13);
    assert("unsigned long int"@.len() == 17);
    assert("unsigned long long"@.len() == 18);
    assert("unsigned long long int"@.len() == 22);
    assert("uint64_t"@.len() == 8);
    assert("size_t"@.len() == 6);
    assert("char"@.len() == 4);
    assert("signed char"@.len() == 11);
    assert("short"@.len() == 5);
    assert("short int"@.len() == 9);
    assert("int8_t"@.len() == 6);
    assert("int16_t"@.len() == 7);
    assert("unsigned char"@.len() == 13);
    assert("unsigned short"@.len() == 14);
    assert("unsigned short int"@.len() == 18);
    assert("uint8_t"@.len() == 7);
    assert("uint16_t"@.len() == 8);
    assert("bool"@.len() == 4);
    assert("_Bool"@.len() == 5);
    assert("float"@[0] != "short"@[0]);
    assert("float"@[0] != "_Bool"@[0]);
    assert("double"@[0] != "signed"@[0]);
    assert("double"@[0] != "size_t"@[0]);
    assert("double"@[0] != "int8_t"@[0]);
    assert("int"@[1] != "i32"@[1]);
    assert("int"@[0] != "u32"@[0]);
    assert("signed"@[2] != "size_t"@[2]);
    assert("signed"@[0] != "int8_t"@[0]);
    assert("int32_t"@[3] != "int64_t"@[3]);
    assert("int32_t"@[3] != "int16_t"@[3]);
    assert("int32_t"@[0] != "uint8_t"@[0]);
    assert("i32"@[0] != "u32"@[0]);
    assert("unsigned"@[1] != "uint32_t"@[1]);
    assert("unsigned"@[0] != "long int"@[0]);
    assert("unsigned"@[1] != "uint64_t"@[1]);
    assert("unsigned"@[1] != "uint16_t"@[1]);
    assert("uint32_t"@[0] != "long int"@[0]);
    assert("uint32_t"@[4] != "uint64_t"@[4]);
    assert("uint32_t"@[4] != "uint16_t"@[4]);
    assert("long"@[0] != "char"@[0]);
    assert("long"@[0] != "bool"@[0]);
    assert("signed long"@[7] != "signed char"@[7]);
    assert("long int"@[0] != "uint64_t"@[0]);
    assert("long int"@[0] != "uint16_t"@[0]);
    assert("long long"@[0] != "ptrdiff_t"@[0]);
    assert("long long"@[0] != "short int"@[0]);
    assert("long long int"@[0] != "unsigned long"@[0]);
    assert("long long int"@[0] != "unsigned char"@[0]);
    assert("int64_t"@[3] != "int16_t"@[3]);
    assert("int64_t"@[0] != "uint8_t"@[0]);
    assert("ptrdiff_t"@[0] != "short int"@[0]);
    assert("unsigned long"@[9] != "unsigned char"@[9]);
    assert("unsigned long long"@[9] != "unsigned short int"@[9]);
    assert("uint64_t"@[4] != "uint16_t"@[4]);
    assert("size_t"@[0] != "int8_t"@[0]);
    assert("char"@[0] != "bool"@[0]);
    assert("short"@[0] != "_Bool"@[0]);
    assert("int16_t"@[0] != "uint8_t"@[0]);
}

/// A kernel's scalar parameter has one type whether it is read from the PTX
/// `.param` declaration or from the C signature: `.u32` is `uint32_t`, `.s32`
/// is `int32_t`, `.u64` is `uint64_t`, `.s64` is `int64_t`, `.f32` is `float`
/// and `.pred` is `bool`.
pub proof fn lemma_ptx_and_c_type_names_agree()
    ensures
        ptx_type_of("u32"@) == c_type_table("uint32_t"@),
        ptx_type_of("s32"@) == c_type_table("int32_t"@),
        ptx_type_of("u64"@) == c_type_table("uint64_t"@),
        ptx_type_of("s64"@) == c_type_table("int64_t"@),
        ptx_type_of("f32"@) == c_type_table("float"@),
        ptx_type_of("pred"@) == c_type_table("bool"@),
{
    lemma_c_type_families();
    lemma_ptx_type_names(PtxType::U32, "u32"@);
    lemma_ptx_type_names(PtxType::S32, "s32"@);
    lemma_ptx_type_names(PtxType::U64, "u64"@);
    lemma_ptx_type_names(PtxType::S64, "s64"@);
    lemma_ptx_type_names(PtxType::F32, "f32"@);
    lemma_ptx_type_names(PtxType::Pred, "pred"@);
}

fn table_exec(x: &str) -> (r: Option<PtxType>)
    ensures
        r == c_type_table(x@),
{
    if str_eq(x, "float") || str_eq(x, "double") {
        Some(PtxType::F32)
    } else if str_eq(x, "int") || str_eq(x, "signed int") || str_eq(x, "signed") || str_eq(
        x,
        "int32_t",
    ) || str_eq(x, "i32") {
        Some(PtxType::S32)
    } else if str_eq(x, "unsigned int") || str_eq(x, "unsigned") || str_eq(x, "uint32_t")
        || str_eq(x, "u32") {
        Some(PtxType::U32)
    } else if str_eq(x, "long") || str_eq(x, "signed long") || str_eq(x, "long int") || str_eq(
        x,
        "signed long int",
    ) || str_eq(x, "long long") || str_eq(x, "signed long long") || str_eq(x, "long long int")
        || str_eq(x, "int64_t") || str_eq(x, "ptrdiff_t") {
        Some(PtxType::S64)
    } else if str_eq(x, "unsigned long") || str_eq(x, "unsigned long int") || str_eq(
        x,
        "unsigned long long",
    ) || str_eq(x, "unsigned long long int") || str_eq(x, "uint64_t") || str_eq(x, "size_t") {
        Some(PtxType::U64)
    } else if str_eq(x, "char") || str_eq(x, "signed char") || str_eq(x, "short") || str_eq(
        x,
        "short int",
    ) || str_eq(x, "int8_t") || str_eq(x, "int16_t") {
        Some(PtxType::S32)
    } else if str_eq(x, "unsigned char") || str_eq(x, "unsigned short") || str_eq(
        x,
        "unsigned short int",
    ) || str_eq(x, "uint8_t") || str_eq(x, "uint16_t") {
        Some(PtxType::U32)
    } else if str_eq(x, "bool") || str_eq(x, "_Bool") {
        Some(PtxType::Pred)
    } else {
        None
    }
}

/// The words of `cs` joined by single spaces.
fn normalize_exec(cs: &Vec<char>) -> (out: Vec<char>)
    ensures
        out@ == normalize(cs@),
{
    let mut out: Vec<char> = Vec::new();
    let mut pending = false;
    let mut started = false;
    let mut i: usize = 0;
    while i < cs.len()
        invariant
            i <= cs@.len(),
            normalize(cs@) == out@ + norm_from(cs@, i as int, pending, started),
        decreases cs@.len() - i,
    {
        let ghost before = out@;
        let ghost (p0, s0) = (pending, started);
        let c = cs[i];
        if is_space_exec(c) {
            pending = started;
        } else {
            if pending {
                out.push(' ');
            }
            out.push(c);
            pending = false;
            started = true;
            proof {
                let pre: Seq<char> = if p0 {
                    seq![' ']
                } else {
                    Seq::empty()
                };
                assert(out@ =~= before + pre + seq![c]);
                assert(before + (pre + seq![c] + norm_from(cs@, i + 1, false, true)) =~= out@
                    + norm_from(cs@, i + 1, false, true));
            }
        }
        i = i + 1;
    }
    assert(out@ + Seq::<char>::empty() =~= out@);
    out
}

/// Whether `pat` occurs in `cs` at position `i`.
fn occurs_at(cs: &Vec<char>, i: usize, pat: &Vec<char>) -> (b: bool)
    requires
        i <= cs@.len(),
    ensures
        b == (i + pat@.len() <= cs@.len() && cs@.subrange(i as int, i + pat@.len()) == pat@),
{
    let n = cs.len();
    if pat.len() > n - i {
        return false;
    }
    let mut k: usize = 0;
    while k < pat.len()
        invariant
            n == cs@.len(),
            i + pat@.len() <= cs@.len(),
            k <= pat@.len(),
            forall|j: int| 0 <= j < k ==> cs@[i + j] == pat@[j],
        decreases pat@.len() - k,
    {
        if cs[i + k] != pat[k] {
            assert(cs@.subrange(i as int, i + pat@.len())[k as int] != pat@[k as int]);
            return false;
        }
        k = k + 1;
    }
    assert(cs@.subrange(i as int, i + pat@.len()) =~= pat@);
    true
}

proof fn lemma_strip_step(s: Seq<char>, pat: Seq<char>, i: int)
    requires
        pat.len() > 0,
        0 <= i <= s.len(),
    ensures
        i + pat.len() <= s.len() && s.subrange(i, i + pat.len()) == pat ==> strip_all(
            s.subrange(i, s.len() as int),
            pat,
        ) == strip_all(s.subrange(i + pat.len(), s.len() as int), pat),
        i < s.len() && !(i + pat.len() <= s.len() && s.subrange(i, i + pat.len()) == pat)
            ==> strip_all(s.subrange(i, s.len() as int), pat) == seq![s[i]] + strip_all(
            s.subrange(i + 1, s.len() as int),
            pat,
        ),
{
    let r = s.subrange(i, s.len() as int);
    if i + pat.len() <= s.len() {
        assert(r.subrange(0, pat.len() as int) =~= s.subrange(i, i + pat.len()));
        assert(r.subrange(pat.len() as int, r.len() as int) =~= s.subrange(
            i + pat.len(),
            s.len() as int,
        ));
    }
    if i < s.len() {
        assert(r.subrange(1, r.len() as int) =~= s.subrange(i + 1, s.len() as int));
    }
}

/// `cs` with every occurrence of `pat` removed.
fn strip_exec(cs: &Vec<char>, pat: &Vec<char>) -> (out: Vec<char>)
    requires
        pat@.len() > 0,
    ensures
        out@ == strip_all(cs@, pat@),
{
    let mut out: Vec<char> = Vec::new();
    let mut i: usize = 0;
    assert(cs@.subrange(0, cs@.len() as int) =~= cs@);
    while i < cs.len()
        invariant
            pat@.len() > 0,
            i <= cs@.len(),
            strip_all(cs@, pat@) == out@ + strip_all(cs@.subrange(i as int, cs@.len() as int), pat@),
        decreases cs@.len() - i,
    {
        proof {
            lemma_strip_step(cs@, pat@, i as int);
        }
        if occurs_at(cs, i, pat) {
            i = i + pat.len();
        } else {
            let ghost before = out@;
            out.push(cs[i]);
            assert(before + (seq![cs@[i as int]] + strip_all(
                cs@.subrange(i + 1, cs@.len() as int),
                pat@,
            )) =~= out@ + strip_all(cs@.subrange(i + 1, cs@.len() as int), pat@));
            i = i + 1;
        }
    }
    assert(out@ + cs@.subrange(i as int, cs@.len() as int) =~= out@);
    out
}

/// The characters of a string literal.
fn literal_chars(s: &str) -> (cs: Vec<char>)
    ensures
        cs@ == s@,
{
    chars_of(s)
}

/// `cs` without white space at either end.
fn trim_exec(cs: &Vec<char>) -> (out: Vec<char>)
    ensures
        out@ == trim_end(trim_start(cs@)),
{
    let n = cs.len();
    let mut a: usize = 0;
    assert(cs@.subrange(0, n as int) =~= cs@);
    while a < n && is_space_exec(cs[a])
        invariant
            a <= n == cs@.len(),
            trim_start(cs@) == trim_start(cs@.subrange(a as int, n as int)),
        decreases n - a,
    {
        assert(cs@.subrange(a as int, n as int).subrange(1, n - a) =~= cs@.subrange(
            a + 1,
            n as int,
        ));
        a = a + 1;
    }
    let ghost t = trim_start(cs@);
    assert(a < n ==> !is_space(cs@.subrange(a as int, n as int)[0]));
    assert(t == cs@.subrange(a as int, n as int));
    let mut b: usize = n;
    while b > a && is_space_exec(cs[b - 1])
        invariant
            a <= b <= n == cs@.len(),
            t == cs@.subrange(a as int, n as int),
            trim_end(t) == trim_end(cs@.subrange(a as int, b as int)),
        decreases b - a,
    {
        assert(cs@.subrange(a as int, b as int).drop_last() =~= cs@.subrange(a as int, b - 1));
        b = b - 1;
    }
    let mut out: Vec<char> = Vec::new();
    let mut k: usize = a;
    while k < b
        invariant
            a <= k <= b <= n == cs@.len(),
            out@ == cs@.subrange(a as int, k as int),
        decreases b - k,
    {
        out.push(cs[k]);
        k = k + 1;
        assert(out@ =~= cs@.subrange(a as int, k as int));
    }
    out
}

/// The string made of `cs`.
fn string_from(cs: &Vec<char>) -> (s: String)
    ensures
        s@ == cs@,
{
    let s = string_of(cs, 0, cs.len());
    assert(cs@.subrange(0, cs@.len() as int) =~= cs@);
    s
}

/// The PTX type of a C type name (see `c_type_of`), if it is a known one.
pub fn parse_c_type(s: &str) -> (r: Option<PtxType>)
    ensures
        r == c_type_of(s@),
{
    proof {
        reveal_strlit("const ");
        reveal_strlit("volatile ");
    }
    let cs = chars_of(s);
    let normal = normalize_exec(&cs);
    let no_const = strip_exec(&normal, &literal_chars("const "));
    let no_volatile = strip_exec(&no_const, &literal_chars("volatile "));
    let cleaned = trim_exec(&no_volatile);
    let text = string_from(&cleaned);
    table_exec(text.as_str())
}

// ---------------------------------------------------------------------------
// Grammar (specification).
// ---------------------------------------------------------------------------

/// Parser position: the next token and the current line.
pub struct CSt {
    pub cur: int,
    pub line: int,
}

pub open spec fn ctok_at(t: Seq<CTokV>, i: int) -> Option<CTokV> {
    if 0 <= i < t.len() {
        Some(t[i])
    } else {
        None
    }
}

/// Consume one token (none at the end), counting newlines.
pub open spec fn c_adv(t: Seq<CTokV>, st: CSt) -> CSt {
    if 0 <= st.cur < t.len() {
        CSt { cur: st.cur + 1, line: if t[st.cur] is Newline { st.line + 1 } else { st.line } }
    } else {
        st
    }
}

/// Consume a run of newlines.
pub open spec fn c_skip_nl(t: Seq<CTokV>, st: CSt) -> CSt
    decreases t.len() - st.cur,
{
    if 0 <= st.cur < t.len() && t[st.cur] is Newline {
        c_skip_nl(t, c_adv(t, st))
    } else {
        st
    }
}

/// How messages write a token: its `Debug` form.
pub open spec fn ctok_debug(t: CTokV) -> Seq<char> {
    match t {
        CTokV::Ident(s) => "Ident("@ + quoted(s) + ")"@,
        CTokV::Star => "Star"@,
        CTokV::Comma => "Comma"@,
        CTokV::LParen => "LParen"@,
        CTokV::RParen => "RParen"@,
        CTokV::Amp => "Amp"@,
        CTokV::Newline => "Newline"@,
    }
}

/// How messages write a token that may be missing: `Some(..)` or `None`.
pub open spec fn cdesc(o: Option<CTokV>) -> Seq<char> {
    match o {
        Some(t) => "Some("@ + ctok_debug(t) + ")"@,
        None => "None"@,
    }
}

/// An identifier, after newlines.
pub open spec fn c_expect_ident(t: Seq<CTokV>, st: CSt) -> Result<(Seq<char>, CSt), ErrV> {
    let s1 = c_skip_nl(t, st);
    match ctok_at(t, s1.cur) {
        Some(CTokV::Ident(x)) => Ok((x, c_adv(t, s1))),
        _ => Err(ut(s1.line, "identifier"@, cdesc(ctok_at(t, s1.cur)))),
    }
}

/// The token `want`, after newlines (described by `label` in messages).
pub open spec fn c_expect(t: Seq<CTokV>, st: CSt, want: CTokV, label: Seq<char>) -> Result<CSt, ErrV> {
    let s1 = c_skip_nl(t, st);
    if ctok_at(t, s1.cur) == Some(want) {
        Ok(c_adv(t, s1))
    } else {
        Err(ut(s1.line, label, cdesc(ctok_at(t, s1.cur))))
    }
}

/// Further type words (modifiers only), appended to `acc` with single spaces.
pub open spec fn c_more_words(t: Seq<CTokV>, st: CSt, acc: Seq<char>, bare: bool) -> (Seq<char>, CSt)
    decreases t.len() - st.cur,
{
    match ctok_at(t, st.cur) {
        Some(CTokV::Ident(x)) => if type_modifier(x) || bare {
            c_more_words(t, c_adv(t, st), acc + seq![' '] + x, bare && qualifier(x))
        } else {
            (acc, st)
        },
        _ => (acc, st),
    }
}

/// `const` and `volatile`: words that qualify a type without naming one.
pub open spec fn qualifier(x: Seq<char>) -> bool {
    x == "const"@ || x == "volatile"@
}

/// A type: an identifier, then any modifier words; their text joined by spaces.
/// While every word read so far is a qualifier, the next identifier still
/// belongs to the type (in `const float *p` the type is `const float`).
pub open spec fn c_type_words(t: Seq<CTokV>, st: CSt) -> Result<(Seq<char>, CSt), ErrV> {
    let s1 = c_skip_nl(t, st);
    match ctok_at(t, s1.cur) {
        Some(CTokV::Ident(x)) => Ok(c_more_words(t, c_adv(t, s1), x, qualifier(x))),
        _ => Err(ut(s1.line, "type name"@, cdesc(ctok_at(t, s1.cur)))),
    }
}

/// A run of `*`, counted on top of `n`.
pub open spec fn c_stars(t: Seq<CTokV>, st: CSt, n: nat) -> (nat, CSt)
    decreases t.len() - st.cur,
{
    if ctok_at(t, st.cur) == Some(CTokV::Star) {
        c_stars(t, c_adv(t, st), n + 1)
    } else {
        (n, st)
    }
}

/// A parameter as read: its name (empty if unnamed), type and pointer levels.
pub struct CParamV {
    pub name: Seq<char>,
    pub ptx_type: PtxType,
    pub levels: nat,
}

/// The type recorded for a parameter, if it has one. In kernel form every
/// pointer is a 64-bit value; in signature form the pointed-to type is kept
/// (a pointer to an unknown type counts as 64-bit), and at most 255 levels fit.
pub open spec fn c_param_type(words: Seq<char>, levels: nat, sig: bool) -> Option<PtxType> {
    if !sig {
        if levels > 0 {
            Some(PtxType::U64)
        } else {
            c_type_of(words)
        }
    } else if levels > 255 {
        None
    } else {
        match c_type_of(words) {
            Some(p) => Some(p),
            None => if levels > 0 {
                Some(PtxType::U64)
            } else {
                None
            },
        }
    }
}

/// `type_words '*'* ident?`
pub open spec fn c_single_param(t: Seq<CTokV>, st: CSt, sig: bool) -> Result<(CParamV, CSt), ErrV> {
    match c_type_words(t, st) {
        Err(e) => Err(e),
        Ok((words, s1)) => {
            let (levels, s2) = c_stars(t, s1, 0);
            let (name, s3) = match ctok_at(t, s2.cur) {
                Some(CTokV::Ident(x)) => (x, c_adv(t, s2)),
                _ => (Seq::<char>::empty(), s2),
            };
            match c_param_type(words, levels, sig) {
                Some(ty) => Ok((CParamV { name, ptx_type: ty, levels }, s3)),
                None => Err(ut(s3.line, "known C type"@, words)),
            }
        },
    }
}

proof fn lemma_adv(t: Seq<CTokV>, st: CSt)
    ensures
        st.cur <= c_adv(t, st).cur,
        0 <= st.cur < t.len() ==> c_adv(t, st).cur == st.cur + 1,
        st.cur <= t.len() ==> c_adv(t, st).cur <= t.len(),
{
}

/// Skipping line breaks never moves the cursor back nor past the end.
pub proof fn lemma_skip_nl(t: Seq<CTokV>, st: CSt)
    ensures
        st.cur <= c_skip_nl(t, st).cur,
        st.cur <= t.len() ==> c_skip_nl(t, st).cur <= t.len(),
        c_skip_nl(t, st).line <= st.line + (c_skip_nl(t, st).cur - st.cur),
        st.line <= c_skip_nl(t, st).line,
    decreases t.len() - st.cur,
{
    if 0 <= st.cur < t.len() && t[st.cur] is Newline {
        lemma_skip_nl(t, c_adv(t, st));
    }
}

proof fn lemma_more_words(t: Seq<CTokV>, st: CSt, acc: Seq<char>, bare: bool)
    ensures
        st.cur <= c_more_words(t, st, acc, bare).1.cur,
        st.cur <= t.len() ==> c_more_words(t, st, acc, bare).1.cur <= t.len(),
        c_more_words(t, st, acc, bare).1.line == st.line,
    decreases t.len() - st.cur,
{
    match ctok_at(t, st.cur) {
        Some(CTokV::Ident(x)) => if type_modifier(x) || bare {
            lemma_more_words(t, c_adv(t, st), acc + seq![' '] + x, bare && qualifier(x));
        },
        _ => {},
    }
}

proof fn lemma_stars(t: Seq<CTokV>, st: CSt, n: nat)
    ensures
        st.cur <= c_stars(t, st, n).1.cur,
        st.cur <= t.len() ==> c_stars(t, st, n).1.cur <= t.len(),
        c_stars(t, st, n).1.line == st.line,
        c_stars(t, st, n).0 - n <= c_stars(t, st, n).1.cur - st.cur,
        n <= c_stars(t, st, n).0,
    decreases t.len() - st.cur,
{
    if ctok_at(t, st.cur) == Some(CTokV::Star) {
        lemma_stars(t, c_adv(t, st), n + 1);
    }
}

/// A parameter always takes at least one token.
pub proof fn lemma_single_param(t: Seq<CTokV>, st: CSt, sig: bool)
    ensures
        c_single_param(t, st, sig) matches Ok((p, s)) ==> st.cur < s.cur <= t.len(),
{
    lemma_skip_nl(t, st);
    let s1 = c_skip_nl(t, st);
    match ctok_at(t, s1.cur) {
        Some(CTokV::Ident(x)) => {
            lemma_adv(t, s1);
            let s2 = c_adv(t, s1);
            lemma_more_words(t, s2, x, qualifier(x));
            let s3 = c_more_words(t, s2, x, qualifier(x)).1;
            lemma_stars(t, s3, 0);
            lemma_adv(t, c_stars(t, s3, 0).1);
        },
        _ => {},
    }
}

/// Parameters from `st` on, after at least one: `param (',' param)*`.
pub open spec fn c_param_loop(t: Seq<CTokV>, st: CSt, acc: Seq<CParamV>, sig: bool) -> Result<
    (Seq<CParamV>, CSt),
    ErrV,
>
    decreases t.len() - st.cur,
{
    let s1 = c_skip_nl(t, st);
    match c_single_param(t, s1, sig) {
        Err(e) => Err(e),
        Ok((p, s2)) => {
            let s3 = c_skip_nl(t, s2);
            match ctok_at(t, s3.cur) {
                Some(CTokV::Comma) => {
                    proof {
                        lemma_skip_nl(t, st);
                        lemma_single_param(t, s1, sig);
                        lemma_skip_nl(t, s2);
                    }
                    c_param_loop(t, c_adv(t, s3), acc.push(p), sig)
                },
                Some(CTokV::RParen) => Ok((acc.push(p), s3)),
                None => Ok((acc.push(p), s3)),
                Some(x) => Err(ut(s3.line, "`,` or `)`"@, ctok_debug(x))),
            }
        },
    }
}

/// The parameter list (without its parentheses); `(void)` and `()` have none.
/// A `void` that turns out to start a parameter is read again from its token,
/// with the line count where the look-ahead left it.
pub open spec fn c_params(t: Seq<CTokV>, st: CSt, sig: bool) -> Result<(Seq<CParamV>, CSt), ErrV> {
    let s1 = c_skip_nl(t, st);
    if ctok_at(t, s1.cur) == Some(CTokV::RParen) {
        Ok((Seq::empty(), s1))
    } else if ctok_at(t, s1.cur) == Some(CTokV::Ident("void"@)) {
        let s2 = c_skip_nl(t, c_adv(t, s1));
        if ctok_at(t, s2.cur) == Some(CTokV::RParen) {
            Ok((Seq::empty(), s2))
        } else {
            c_param_loop(t, CSt { cur: s1.cur, line: s2.line }, Seq::empty(), sig)
        }
    } else {
        c_param_loop(t, s1, Seq::empty(), sig)
    }
}

/// A return type, then the name.
pub open spec fn c_ret_then_name(t: Seq<CTokV>, st: CSt) -> Result<(Seq<char>, CSt), ErrV> {
    match c_type_words(t, st) {
        Err(e) => Err(e),
        Ok((_, s1)) => c_expect_ident(t, s1),
    }
}

/// The function name. In signature form the return type may be left out (as
/// in demangled names): an identifier directly followed by `(` is the name.
pub open spec fn c_name(t: Seq<CTokV>, st: CSt, sig: bool) -> Result<(Seq<char>, CSt), ErrV> {
    if sig {
        let s0 = c_skip_nl(t, st);
        match ctok_at(t, s0.cur) {
            Some(CTokV::Ident(x)) => if ctok_at(t, c_skip_nl(t, c_adv(t, s0)).cur) == Some(
                CTokV::LParen,
            ) {
                Ok((x, c_adv(t, s0)))
            } else {
                c_ret_then_name(t, st)
            },
            _ => c_ret_then_name(t, st),
        }
    } else {
        c_ret_then_name(t, st)
    }
}

/// A whole signature: its name and parameters.
pub open spec fn c_signature_of(t: Seq<CTokV>, sig: bool) -> Result<(Seq<char>, Seq<CParamV>), ErrV> {
    match c_name(t, CSt { cur: 0, line: 1 }, sig) {
        Err(e) => Err(e),
        Ok((name, s1)) => match c_expect(t, s1, CTokV::LParen, "`(` before parameter list"@) {
            Err(e) => Err(e),
            Ok(s2) => match c_params(t, s2, sig) {
                Err(e) => Err(e),
                Ok((ps, s3)) => match c_expect(t, s3, CTokV::RParen, "`)` after parameter list"@) {
                    Err(e) => Err(e),
                    Ok(_) => Ok((name, ps)),
                },
            },
        },
    }
}

/// The kernel described by C signature text: its name and parameters (every
/// pointer as a 64-bit value), with no instructions.
pub open spec fn sp_c_kernel(s: Seq<char>) -> Result<KernelV, ErrV> {
    match c_signature_of(c_lex(s, 0, ScanMode::Code), false) {
        Err(e) => Err(e),
        Ok((name, ps)) => Ok(
            KernelV {
                name,
                params: ps.map_values(|p: CParamV| ParamV { name: p.name, ptx_type: p.ptx_type }),
                insts: Seq::empty(),
            },
        ),
    }
}

/// The signature described by C signature text (the return type may be left
/// out): its name and parameters, each with its pointed-to type and pointer
/// levels.
pub open spec fn sp_c_sig(s: Seq<char>) -> Result<SigV, ErrV> {
    match c_signature_of(c_lex(s, 0, ScanMode::Code), true) {
        Err(e) => Err(e),
        Ok((name, ps)) => Ok(
            SigV {
                name,
                params: ps.map_values(
                    |p: CParamV|
                        SigParamV { name: p.name, ptx_type: p.ptx_type, pointer_levels: p.levels as u8 },
                ),
            },
        ),
    }
}

/// Tokens never outnumber characters.
proof fn lemma_c_lex_len(s: Seq<char>, i: int, m: ScanMode)
    requires
        0 <= i <= s.len(),
    ensures
        c_lex(s, i, m).len() <= s.len() - i,
    decreases s.len() - i, mode_rank(m),
{
    if i < s.len() {
        match m {
            ScanMode::Code => {
                let c = s[i];
                if c == ' ' || c == '\t' || c == '\r' {
                    lemma_c_lex_len(s, i + 1, ScanMode::Code);
                } else if c == '\n' {
                    lemma_c_lex_len(s, i + 1, ScanMode::Code);
                } else if c == '/' && i + 1 < s.len() && s[i + 1] == '/' {
                    lemma_c_lex_len(s, i + 2, ScanMode::LineComment);
                } else if c == '/' && i + 1 < s.len() && s[i + 1] == '*' {
                    lemma_c_lex_len(s, i + 2, ScanMode::BlockComment);
                } else if c == '*' || c == ',' || c == '(' || c == ')' {
                    lemma_c_lex_len(s, i + 1, ScanMode::Code);
                } else if is_alpha(c) {
                    lemma_class_run(s, i + 1, CharClass::Ident);
                    lemma_c_lex_len(s, class_end(s, i + 1, CharClass::Ident), ScanMode::Code);
                } else {
                    lemma_c_lex_len(s, i + 1, ScanMode::Code);
                }
            },
            ScanMode::LineComment => if s[i] == '\n' {
                lemma_c_lex_len(s, i, ScanMode::Code);
            } else {
                lemma_c_lex_len(s, i + 1, ScanMode::LineComment);
            },
            ScanMode::BlockComment => if i + 1 < s.len() {
                if s[i] == '*' && s[i + 1] == '/' {
                    lemma_c_lex_len(s, i + 2, ScanMode::Code);
                } else {
                    lemma_c_lex_len(s, i + 1, ScanMode::BlockComment);
                }
            } else {
                lemma_c_lex_len(s, i, ScanMode::Code);
            },
        }
    }
}

// ---------------------------------------------------------------------------
// Parser.
// ---------------------------------------------------------------------------

/// A parameter as read.
pub struct CParam {
    pub name: String,
    pub ptx_type: PtxType,
    pub levels: usize,
}

impl View for CParam {
    type V = CParamV;

    open spec fn view(&self) -> CParamV {
        CParamV { name: self.name@, ptx_type: self.ptx_type, levels: self.levels as nat }
    }
}

pub open spec fn cparams_view(v: Seq<CParam>) -> Seq<CParamV> {
    Seq::new(v.len(), |i: int| v[i]@)
}

/// A token as messages write it (see `ctok_debug`).
fn ctok_text(t: &CTok) -> (d: String)
    ensures
        d@ == ctok_debug(t@),
{
    match t {
        CTok::Ident(s) => {
            let mut d = String::from_str("Ident(");
            let q = quoted_text(s.as_str());
            d.append(q.as_str());
            d.append(")");
            d
        },
        CTok::Star => String::from_str("Star"),
        CTok::Comma => String::from_str("Comma"),
        CTok::LParen => String::from_str("LParen"),
        CTok::RParen => String::from_str("RParen"),
        CTok::Amp => String::from_str("Amp"),
        CTok::Newline => String::from_str("Newline"),
    }
}

/// A token that may be missing, as messages write it (see `cdesc`).
fn describe(t: Option<&CTok>) -> (d: String)
    ensures
        d@ == cdesc(
            match t {
                Some(x) => Some(x@),
                None => None,
            },
        ),
{
    match t {
        Some(x) => {
            let mut d = String::from_str("Some(");
            let inner = ctok_text(x);
            d.append(inner.as_str());
            d.append(")");
            d
        },
        None => String::from_str("None"),
    }
}

/// The type recorded for a parameter (see `c_param_type`).
fn param_type_exec(words: &str, levels: usize, sig: bool) -> (r: Option<PtxType>)
    ensures
        r == c_param_type(words@, levels as nat, sig),
{
    if !sig {
        if levels > 0 {
            Some(PtxType::U64)
        } else {
            parse_c_type(words)
        }
    } else if levels > 255 {
        None
    } else {
        match parse_c_type(words) {
            Some(p) => Some(p),
            None => if levels > 0 {
                Some(PtxType::U64)
            } else {
                None
            },
        }
    }
}

struct CParser {
    tokens: Vec<CTok>,
    cursor: usize,
    line: usize,
}

impl CParser {
    spec fn toks(&self) -> Seq<CTokV> {
        ctoks_view(self.tokens@)
    }

    spec fn st(&self) -> CSt {
        CSt { cur: self.cursor as int, line: self.line as int }
    }

    spec fn wf(&self) -> bool {
        &&& self.cursor <= self.tokens@.len()
        &&& self.line <= self.cursor + self.tokens@.len() + 1
        &&& self.tokens@.len() <= usize::MAX / 2
    }

    /// No line has been counted twice.
    spec fn tight(&self) -> bool {
        self.line <= self.cursor + 1
    }

    fn peek(&self) -> (r: Option<&CTok>)
        requires
            self.wf(),
        ensures
            match r {
                Some(t) => ctok_at(self.toks(), self.cursor as int) == Some(t@),
                None => ctok_at(self.toks(), self.cursor as int) is None,
            },
    {
        if self.cursor < self.tokens.len() {
            Some(&self.tokens[self.cursor])
        } else {
            None
        }
    }

    fn advance(&mut self) -> (r: Option<CTok>)
        requires
            old(self).wf(),
        ensures
            final(self).wf(),
            final(self).tokens@ == old(self).tokens@,
            final(self).st() == c_adv(old(self).toks(), old(self).st()),
            old(self).tight() ==> final(self).tight(),
            match r {
                Some(t) => ctok_at(old(self).toks(), old(self).cursor as int) == Some(t@),
                None => ctok_at(old(self).toks(), old(self).cursor as int) is None,
            },
    {
        if self.cursor >= self.tokens.len() {
            return None;
        }
        let t = self.tokens[self.cursor].duplicate();
        self.cursor = self.cursor + 1;
        if let CTok::Newline = t {
            self.line = self.line + 1;
        }
        Some(t)
    }

    fn at_star(&self) -> (b: bool)
        requires
            self.wf(),
        ensures
            b == (ctok_at(self.toks(), self.cursor as int) == Some(CTokV::Star)),
            b ==> self.cursor < self.tokens@.len(),
    {
        match self.peek() {
            Some(CTok::Star) => true,
            _ => false,
        }
    }

    fn skip_newlines(&mut self)
        requires
            old(self).wf(),
        ensures
            final(self).wf(),
            final(self).tokens@ == old(self).tokens@,
            final(self).st() == c_skip_nl(old(self).toks(), old(self).st()),
            old(self).tight() ==> final(self).tight(),
    {
        loop
            invariant
                self.wf(),
                self.tokens@ == old(self).tokens@,
                c_skip_nl(self.toks(), self.st()) == c_skip_nl(old(self).toks(), old(self).st()),
                old(self).tight() ==> self.tight(),
            decreases self.tokens@.len() - self.cursor,
        {
            let nl = match self.peek() {
                Some(CTok::Newline) => true,
                _ => false,
            };
            if !nl {
                return;
            }
            self.advance();
        }
    }

    fn expect_ident(&mut self) -> (r: Result<String, ParseError>)
        requires
            old(self).wf(),
        ensures
            final(self).wf(),
            final(self).tokens@ == old(self).tokens@,
            match c_expect_ident(old(self).toks(), old(self).st()) {
                Ok((x, s)) => r matches Ok(v) && v@ == x && final(self).st() == s,
                Err(e) => r matches Err(v) && v@ == e,
            },
            old(self).tight() ==> final(self).tight(),
    {
        self.skip_newlines();
        let found = match self.peek() {
            Some(CTok::Ident(s)) => Some(copy_string(s)),
            _ => None,
        };
        match found {
            Some(s) => {
                self.advance();
                Ok(s)
            },
            None => Err(unexpected(self.line, "identifier", describe(self.peek()).as_str())),
        }
    }

    /// `want` (a punctuation token), after newlines.
    fn expect(&mut self, want: CTok, label: &str) -> (r: Result<(), ParseError>)
        requires
            old(self).wf(),
            !(want is Ident),
        ensures
            final(self).wf(),
            final(self).tokens@ == old(self).tokens@,
            match c_expect(old(self).toks(), old(self).st(), want@, label@) {
                Ok(s) => r is Ok && final(self).st() == s,
                Err(e) => r matches Err(v) && v@ == e,
            },
            old(self).tight() ==> final(self).tight(),
    {
        self.skip_newlines();
        let hit = match (self.peek(), &want) {
            (Some(CTok::Star), CTok::Star) => true,
            (Some(CTok::Comma), CTok::Comma) => true,
            (Some(CTok::LParen), CTok::LParen) => true,
            (Some(CTok::RParen), CTok::RParen) => true,
            (Some(CTok::Amp), CTok::Amp) => true,
            (Some(CTok::Newline), CTok::Newline) => true,
            _ => false,
        };
        if hit {
            self.advance();
            Ok(())
        } else {
            Err(unexpected(self.line, label, describe(self.peek()).as_str()))
        }
    }

    /// One or more identifiers forming a type (`unsigned int`, `const float`,
    /// `uint32_t`): the first, then any modifier words that follow. Their text,
    /// joined by single spaces.
    fn parse_type_words(&mut self) -> (r: Result<String, ParseError>)
        requires
            old(self).wf(),
        ensures
            final(self).wf(),
            final(self).tokens@ == old(self).tokens@,
            match c_type_words(old(self).toks(), old(self).st()) {
                Ok((x, s)) => r matches Ok(v) && v@ == x && final(self).st() == s,
                Err(e) => r matches Err(v) && v@ == e,
            },
            old(self).tight() ==> final(self).tight(),
    {
        self.skip_newlines();
        let first = match self.peek() {
            Some(CTok::Ident(s)) => Some(copy_string(s)),
            _ => None,
        };
        let mut words = match first {
            Some(w) => w,
            None => {
                return Err(unexpected(self.line, "type name", describe(self.peek()).as_str()));
            },
        };
        let mut bare = is_qualifier(words.as_str());
        self.advance();
        loop
            invariant
                self.wf(),
                self.tokens@ == old(self).tokens@,
                c_type_words(old(self).toks(), old(self).st()) == Ok::<(Seq<char>, CSt), ErrV>(
                    c_more_words(self.toks(), self.st(), words@, bare),
                ),
                old(self).tight() ==> self.tight(),
            decreases self.tokens@.len() - self.cursor,
        {
            let next = match self.peek() {
                Some(CTok::Ident(s)) => if bare || is_type_modifier(s.as_str()) {
                    Some(copy_string(s))
                } else {
                    None
                },
                _ => None,
            };
            match next {
                Some(w) => {
                    proof {
                        reveal_strlit(" ");
                    }
                    let ghost before = words@;
                    words.append(" ");
                    words.append(w.as_str());
                    assert(words@ =~= before + seq![' '] + w@);
                    bare = bare && is_qualifier(w.as_str());
                    self.advance();
                },
                None => {
                    return Ok(words);
                },
            }
        }
    }

    /// `type_words '*'* ident?`, with its type decided as `c_param_type` says.
    fn parse_single_param(&mut self, sig: bool) -> (r: Result<CParam, ParseError>)
        requires
            old(self).wf(),
        ensures
            final(self).wf(),
            final(self).tokens@ == old(self).tokens@,
            match c_single_param(old(self).toks(), old(self).st(), sig) {
                Ok((p, s)) => r matches Ok(v) && v@ == p && final(self).st() == s,
                Err(e) => r matches Err(v) && v@ == e,
            },
            old(self).tight() ==> final(self).tight(),
    {
        let words = match self.parse_type_words() {
            Ok(w) => w,
            Err(e) => {
                return Err(e);
            },
        };
        let ghost s1 = self.st();
        let mut levels: usize = 0;
        while self.at_star()
            invariant
                self.wf(),
                self.tokens@ == old(self).tokens@,
                0 <= s1.cur <= self.cursor,
                levels <= self.cursor - s1.cur,
                c_stars(self.toks(), s1, 0) == c_stars(self.toks(), self.st(), levels as nat),
                old(self).tight() ==> self.tight(),
            decreases self.tokens@.len() - self.cursor,
        {
            self.advance();
            levels = levels + 1;
        }
        let name = match self.peek() {
            Some(CTok::Ident(s)) => {
                let n = copy_string(s);
                self.advance();
                n
            },
            _ => String::new(),
        };
        match param_type_exec(words.as_str(), levels, sig) {
            Some(ty) => Ok(CParam { name, ptx_type: ty, levels }),
            None => Err(unexpected(self.line, "known C type", words.as_str())),
        }
    }

    /// The parameter list, without its parentheses (see `c_params`).
    fn parse_params(&mut self, sig: bool) -> (r: Result<Vec<CParam>, ParseError>)
        requires
            old(self).wf(),
            old(self).tight(),
        ensures
            final(self).wf(),
            final(self).tokens@ == old(self).tokens@,
            match c_params(old(self).toks(), old(self).st(), sig) {
                Ok((ps, s)) => r matches Ok(v) && cparams_view(v@) == ps && final(self).st() == s,
                Err(e) => r matches Err(v) && v@ == e,
            },
    {
        let ghost t = self.toks();
        self.skip_newlines();
        let ghost s1 = self.st();
        let close = match self.peek() {
            Some(CTok::RParen) => true,
            _ => false,
        };
        if close {
            return Ok(Vec::new());
        }
        let is_void = match self.peek() {
            Some(CTok::Ident(s)) => str_eq(s.as_str(), "void"),
            _ => false,
        };
        proof {
            reveal_strlit("void");
        }
        if is_void {
            let save = self.cursor;
            self.advance();
            self.skip_newlines();
            let close2 = match self.peek() {
                Some(CTok::RParen) => true,
                _ => false,
            };
            if close2 {
                return Ok(Vec::new());
            }
            self.cursor = save;
        } else {
            proof {
                if ctok_at(t, s1.cur) == Some(CTokV::Ident("void"@)) {
                    assert(false);
                }
            }
        }
        let mut out: Vec<CParam> = Vec::new();
        assert(cparams_view(out@) =~= Seq::<CParamV>::empty());
        loop
            invariant
                self.wf(),
                self.tokens@ == old(self).tokens@,
                t == self.toks(),
                c_params(t, old(self).st(), sig) == c_param_loop(
                    t,
                    self.st(),
                    cparams_view(out@),
                    sig,
                ),
            decreases self.tokens@.len() - self.cursor,
        {
            let ghost st0 = self.st();
            let ghost acc = cparams_view(out@);
            self.skip_newlines();
            let ghost sa = self.st();
            let p = match self.parse_single_param(sig) {
                Ok(p) => p,
                Err(e) => {
                    return Err(e);
                },
            };
            let ghost sb = self.st();
            proof {
                lemma_skip_nl(t, st0);
                lemma_single_param(t, sa, sig);
                lemma_skip_nl(t, sb);
            }
            out.push(p);
            assert(cparams_view(out@) =~= acc.push(p@));
            self.skip_newlines();
            let kind: u8 = match self.peek() {
                Some(CTok::Comma) => 0,
                Some(CTok::RParen) => 1,
                None => 1,
                Some(_) => 2,
            };
            if kind == 0 {
                self.advance();
            } else if kind == 1 {
                return Ok(out);
            } else {
                let d = match self.peek() {
                    Some(x) => ctok_text(x),
                    None => String::from_str("None"),
                };
                return Err(unexpected(self.line, "`,` or `)`", d.as_str()));
            }
        }
    }

    /// The function name, after the return type where there is one (see `c_name`).
    fn parse_name(&mut self, sig: bool) -> (r: Result<String, ParseError>)
        requires
            old(self).wf(),
        ensures
            final(self).wf(),
            final(self).tokens@ == old(self).tokens@,
            match c_name(old(self).toks(), old(self).st(), sig) {
                Ok((x, s)) => r matches Ok(v) && v@ == x && final(self).st() == s,
                Err(e) => r matches Err(v) && v@ == e,
            },
            old(self).tight() ==> final(self).tight(),
    {
        if sig {
            let save_cursor = self.cursor;
            let save_line = self.line;
            self.skip_newlines();
            let first = match self.peek() {
                Some(CTok::Ident(s)) => Some(copy_string(s)),
                _ => None,
            };
            if let Some(x) = first {
                let after_cursor = self.cursor;
                let after_line = self.line;
                self.advance();
                let mid_cursor = self.cursor;
                let mid_line = self.line;
                self.skip_newlines();
                let open = match self.peek() {
                    Some(CTok::LParen) => true,
                    _ => false,
                };
                if open {
                    self.cursor = mid_cursor;
                    self.line = mid_line;
                    return Ok(x);
                }
            }
            self.cursor = save_cursor;
            self.line = save_line;
        }
        match self.parse_type_words() {
            Ok(_) => {},
            Err(e) => {
                return Err(e);
            },
        }
        self.expect_ident()
    }

    /// `name '(' params ')'` after an optional return type: the name and the
    /// parameters.
    fn parse_signature(&mut self, sig: bool) -> (r: Result<(String, Vec<CParam>), ParseError>)
        requires
            old(self).wf(),
            old(self).cursor == 0,
            old(self).line == 1,
        ensures
            match c_signature_of(old(self).toks(), sig) {
                Ok((x, ps)) => r matches Ok(v) && v.0@ == x && cparams_view(v.1@) == ps,
                Err(e) => r matches Err(v) && v@ == e,
            },
    {
        let name = match self.parse_name(sig) {
            Ok(n) => n,
            Err(e) => {
                return Err(e);
            },
        };
        match self.expect(CTok::LParen, "`(` before parameter list") {
            Ok(()) => {},
            Err(e) => {
                return Err(e);
            },
        }
        let params = match self.parse_params(sig) {
            Ok(p) => p,
            Err(e) => {
                return Err(e);
            },
        };
        match self.expect(CTok::RParen, "`)` after parameter list") {
            Ok(()) => {},
            Err(e) => {
                return Err(e);
            },
        }
        Ok((name, params))
    }
}

/// A parser over the tokens of `input`.
fn parser_for(input: &str) -> (p: CParser)
    requires
        input@.len() <= usize::MAX / 2,
    ensures
        p.wf(),
        p.cursor == 0,
        p.line == 1,
        p.toks() == c_lex(input@, 0, ScanMode::Code),
{
    let tokens = tokenize_c(input);
    proof {
        lemma_c_lex_len(input@, 0, ScanMode::Code);
    }
    CParser { tokens, cursor: 0, line: 1 }
}

/// Reads C signature text (`void addKernel(float* A, int N)`) as a kernel with
/// a name and parameters and no instructions; every pointer parameter is a
/// 64-bit value.
pub fn parse_c_signature(input: &str) -> (r: Result<ParsedKernel, ParseError>)
    requires
        input@.len() <= usize::MAX / 2,
    ensures
        match sp_c_kernel(input@) {
            Ok(k) => r matches Ok(x) && x@ == k,
            Err(e) => r matches Err(x) && x@ == e,
        },
{
    let mut p = parser_for(input);
    match p.parse_signature(false) {
        Ok((name, cps)) => {
            let mut params: Vec<ParamInfo> = Vec::new();
            let mut i: usize = 0;
            while i < cps.len()
                invariant
                    i <= cps@.len(),
                    params@.len() == i,
                    forall|k: int|
                        0 <= k < i ==> #[trigger] params@[k]@ == (ParamV {
                            name: cps@[k]@.name,
                            ptx_type: cps@[k]@.ptx_type,
                        }),
                decreases cps@.len() - i,
            {
                params.push(ParamInfo { name: copy_string(&cps[i].name), ptx_type: cps[i].ptx_type });
                i = i + 1;
            }
            let k = ParsedKernel { name, params, instructions: Vec::new() };
            assert(k@.params =~= cparams_view(cps@).map_values(
                |p: CParamV| ParamV { name: p.name, ptx_type: p.ptx_type },
            ));
            assert(k@.insts =~= Seq::<crate::inst_info::InstView>::empty());
            Ok(k)
        },
        Err(e) => Err(e),
    }
}

/// Reads a C signature, full (`void addKernel(float* A, int N)`) or demangled
/// (`addKernel(float*, int)`): its name, and for each parameter its name (empty
/// if unnamed), the pointed-to type and the number of pointer levels.
pub fn read_signature(input: &str) -> (r: Result<ParsedSignature, ParseError>)
    requires
        input@.len() <= usize::MAX / 2,
    ensures
        match sp_c_sig(input@) {
            Ok(v) => r matches Ok(x) && x@ == v,
            Err(e) => r matches Err(x) && x@ == e,
        },
{
    let mut p = parser_for(input);
    match p.parse_signature(true) {
        Ok((name, cps)) => {
            let mut params: Vec<SignatureParam> = Vec::new();
            let mut i: usize = 0;
            while i < cps.len()
                invariant
                    i <= cps@.len(),
                    params@.len() == i,
                    forall|k: int|
                        0 <= k < i ==> #[trigger] params@[k]@ == (SigParamV {
                            name: cps@[k]@.name,
                            ptx_type: cps@[k]@.ptx_type,
                            pointer_levels: cps@[k]@.levels as u8,
                        }),
                decreases cps@.len() - i,
            {
                params.push(
                    SignatureParam {
                        name: copy_string(&cps[i].name),
                        ptx_type: cps[i].ptx_type,
                        pointer_levels: #[verifier::truncate] (cps[i].levels as u8),
                    },
                );
                i = i + 1;
            }
            let r = ParsedSignature { name, params };
            assert(r@.params =~= cparams_view(cps@).map_values(
                |p: CParamV|
                    SigParamV { name: p.name, ptx_type: p.ptx_type, pointer_levels: p.levels as u8 },
            ));
            Ok(r)
        },
        Err(e) => Err(e),
    }
}

} // verus!
