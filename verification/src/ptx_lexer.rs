//! Tokenizer for PTX source text.
//!
//! At each position the longest token is taken. Blanks (space, tab, carriage
//! return, form feed), `//` line comments and `/* ... */` block comments are
//! skipped; newlines are kept as tokens. A character that starts no token is
//! dropped; so is a number literal that does not fit its type. An unterminated
//! block comment swallows the rest of the input.

use vstd::prelude::*;
use vstd::std_specs::iter::IteratorSpec;

verus! {

broadcast use vstd::string::group_string_axioms;

/// A PTX token.
#[derive(Debug, Clone, PartialEq)]
pub enum Token {
    Comma,
    Semicolon,
    Colon,
    LParen,
    RParen,
    LBrace,
    RBrace,
    LBracket,
    RBracket,
    /// `%`, prefix of register names.
    Percent,
    /// `@`, prefix of a predicate guard.
    At,
    /// `@!`, prefix of a negated predicate guard.
    AtNot,
    /// `.`, prefix of directives and modifiers.
    Dot,
    /// `$name`; the text includes the `$`.
    Label(String),
    /// `0f` followed by exactly eight hex digits: the bits of an `f32`.
    FloatBits(u32),
    /// `0x` followed by hex digits.
    IntHex(i64),
    /// Optional `-` followed by decimal digits.
    IntDec(i64),
    /// Letter or `_`, then letters, digits or `_`.
    Ident(String),
    Newline,
}

/// A token with its text as a sequence of characters.
pub enum TokenV {
    Comma,
    Semicolon,
    Colon,
    LParen,
    RParen,
    LBrace,
    RBrace,
    LBracket,
    RBracket,
    Percent,
    At,
    AtNot,
    Dot,
    Label(Seq<char>),
    FloatBits(u32),
    IntHex(i64),
    IntDec(i64),
    Ident(Seq<char>),
    Newline,
}

impl View for Token {
    type V = TokenV;

    open spec fn view(&self) -> TokenV {
        match self {
            Token::Comma => TokenV::Comma,
            Token::Semicolon => TokenV::Semicolon,
            Token::Colon => TokenV::Colon,
            Token::LParen => TokenV::LParen,
            Token::RParen => TokenV::RParen,
            Token::LBrace => TokenV::LBrace,
            Token::RBrace => TokenV::RBrace,
            Token::LBracket => TokenV::LBracket,
            Token::RBracket => TokenV::RBracket,
            Token::Percent => TokenV::Percent,
            Token::At => TokenV::At,
            Token::AtNot => TokenV::AtNot,
            Token::Dot => TokenV::Dot,
            Token::Label(s) => TokenV::Label(s@),
            Token::FloatBits(v) => TokenV::FloatBits(*v),
            Token::IntHex(v) => TokenV::IntHex(*v),
            Token::IntDec(v) => TokenV::IntDec(*v),
            Token::Ident(s) => TokenV::Ident(s@),
            Token::Newline => TokenV::Newline,
        }
    }
}

/// Appends one character to a string (`String::push`).
#[verifier::external_body]
pub(crate) fn push_char(s: &mut String, c: char)
    ensures
        final(s)@ == old(s)@.push(c),
{
    s.push(c);
}

/// The string made of `cs[from..to]`.
pub(crate) fn string_of(cs: &Vec<char>, from: usize, to: usize) -> (s: String)
    requires
        from <= to <= cs@.len(),
    ensures
        s@ == cs@.subrange(from as int, to as int),
{
    let mut s = String::new();
    let mut k = from;
    while k < to
        invariant
            from <= k <= to <= cs@.len(),
            s@ == cs@.subrange(from as int, k as int),
        decreases to - k,
    {
        push_char(&mut s, cs[k]);
        k = k + 1;
        assert(s@ =~= cs@.subrange(from as int, k as int));
    }
    s
}

impl Token {
    /// A copy of this token.
    pub fn duplicate(&self) -> (t: Token)
        ensures
            t@ == self@,
    {
        match self {
            Token::Comma => Token::Comma,
            Token::Semicolon => Token::Semicolon,
            Token::Colon => Token::Colon,
            Token::LParen => Token::LParen,
            Token::RParen => Token::RParen,
            Token::LBrace => Token::LBrace,
            Token::RBrace => Token::RBrace,
            Token::LBracket => Token::LBracket,
            Token::RBracket => Token::RBracket,
            Token::Percent => Token::Percent,
            Token::At => Token::At,
            Token::AtNot => Token::AtNot,
            Token::Dot => Token::Dot,
            Token::Label(s) => Token::Label(s.clone()),
            Token::FloatBits(v) => Token::FloatBits(*v),
            Token::IntHex(v) => Token::IntHex(*v),
            Token::IntDec(v) => Token::IntDec(*v),
            Token::Ident(s) => Token::Ident(s.clone()),
            Token::Newline => Token::Newline,
        }
    }
}

/// Range of a token in the source, counted in bytes of its UTF-8 text.
pub type Span = std::ops::Range<usize>;

pub open spec fn code(c: char) -> u32 {
    c as u32
}

pub open spec fn is_digit(c: char) -> bool {
    48 <= code(c) <= 57
}

pub open spec fn is_hex(c: char) -> bool {
    is_digit(c) || (97 <= code(c) <= 102) || (65 <= code(c) <= 70)
}

/// Letter or underscore.
pub open spec fn is_alpha(c: char) -> bool {
    (97 <= code(c) <= 122) || (65 <= code(c) <= 90) || c == '_'
}

pub open spec fn is_ident_char(c: char) -> bool {
    is_alpha(c) || is_digit(c)
}

/// Space, tab, carriage return or form feed.
pub open spec fn is_blank(c: char) -> bool {
    c == ' ' || c == '\t' || c == '\r' || code(c) == 12
}

/// Character classes whose runs form tokens.
#[derive(Clone, Copy, PartialEq, Eq, Structural)]
pub enum CharClass {
    Digit,
    Hex,
    Ident,
    Blank,
    NotNewline,
}

pub open spec fn in_class(c: char, k: CharClass) -> bool {
    match k {
        CharClass::Digit => is_digit(c),
        CharClass::Hex => is_hex(c),
        CharClass::Ident => is_ident_char(c),
        CharClass::Blank => is_blank(c),
        CharClass::NotNewline => c != '\n',
    }
}

/// The end of the run of class `k` characters starting at `i`.
pub open spec fn class_end(s: Seq<char>, i: int, k: CharClass) -> int
    decreases s.len() - i,
{
    if 0 <= i < s.len() && in_class(s[i], k) {
        class_end(s, i + 1, k)
    } else {
        i
    }
}

/// Where a block comment whose body starts at `j` ends (just past `*/`), if it does.
pub open spec fn block_end(s: Seq<char>, j: int) -> Option<int>
    decreases s.len() - j,
{
    if j < 0 || j >= s.len() {
        None
    } else if s[j] == '*' {
        if j + 1 >= s.len() {
            None
        } else if s[j + 1] == '/' {
            Some(j + 2)
        } else {
            block_end(s, j + 2)
        }
    } else {
        block_end(s, j + 1)
    }
}

pub open spec fn digit_val(c: char) -> nat {
    if is_digit(c) {
        (code(c) - 48) as nat
    } else if 97 <= code(c) <= 102 {
        (code(c) - 87) as nat
    } else {
        (code(c) - 55) as nat
    }
}

/// The number written by the digits `s` in base `b`.
pub open spec fn num_value(s: Seq<char>, b: nat) -> nat
    decreases s.len(),
{
    if s.len() == 0 {
        0
    } else {
        num_value(s.drop_last(), b) * b + digit_val(s.last())
    }
}

/// What the tokenizer does at one position.
pub enum StepKind {
    Skip,
    Error,
    Tok(TokenV),
}

/// A decimal literal: `digits` (after an optional `-`), if it fits an `i64`.
pub open spec fn dec_step(digits: Seq<char>, neg: bool, len: int) -> (StepKind, int) {
    let v = num_value(digits, 10);
    if neg {
        if v <= 0x8000_0000_0000_0000 {
            (StepKind::Tok(TokenV::IntDec((-v) as i64)), len)
        } else {
            (StepKind::Error, len)
        }
    } else {
        if v <= i64::MAX {
            (StepKind::Tok(TokenV::IntDec(v as i64)), len)
        } else {
            (StepKind::Error, len)
        }
    }
}

pub open spec fn punct(c: char) -> Option<TokenV> {
    if c == ',' {
        Some(TokenV::Comma)
    } else if c == ';' {
        Some(TokenV::Semicolon)
    } else if c == ':' {
        Some(TokenV::Colon)
    } else if c == '(' {
        Some(TokenV::LParen)
    } else if c == ')' {
        Some(TokenV::RParen)
    } else if c == '{' {
        Some(TokenV::LBrace)
    } else if c == '}' {
        Some(TokenV::RBrace)
    } else if c == '[' {
        Some(TokenV::LBracket)
    } else if c == ']' {
        Some(TokenV::RBracket)
    } else if c == '%' {
        Some(TokenV::Percent)
    } else if c == '.' {
        Some(TokenV::Dot)
    } else if c == '\n' {
        Some(TokenV::Newline)
    } else {
        None
    }
}

/// The longest match at position `i` (which is inside `s`) and its length.
pub open spec fn lex_at(s: Seq<char>, i: int) -> (StepKind, int) {
    let n = s.len() as int;
    let c = s[i];
    if is_blank(c) {
        (StepKind::Skip, class_end(s, i, CharClass::Blank) - i)
    } else if punct(c) is Some {
        (StepKind::Tok(punct(c)->0), 1)
    } else if c == '@' {
        if i + 1 < n && s[i + 1] == '!' {
            (StepKind::Tok(TokenV::AtNot), 2)
        } else {
            (StepKind::Tok(TokenV::At), 1)
        }
    } else if c == '$' {
        if i + 1 < n && is_alpha(s[i + 1]) {
            let e = class_end(s, i + 1, CharClass::Ident);
            (StepKind::Tok(TokenV::Label(s.subrange(i, e))), e - i)
        } else {
            (StepKind::Error, 1)
        }
    } else if c == '/' {
        if i + 1 < n && s[i + 1] == '/' {
            (StepKind::Skip, class_end(s, i + 2, CharClass::NotNewline) - i)
        } else if i + 1 < n && s[i + 1] == '*' {
            match block_end(s, i + 2) {
                Some(e) => (StepKind::Skip, e - i),
                None => (StepKind::Error, n - i),
            }
        } else {
            (StepKind::Error, 1)
        }
    } else if c == '-' {
        if i + 1 < n && is_digit(s[i + 1]) {
            let e = class_end(s, i + 1, CharClass::Digit);
            dec_step(s.subrange(i + 1, e), true, e - i)
        } else {
            (StepKind::Error, 1)
        }
    } else if is_digit(c) {
        if c == '0' && i + 10 <= n && (s[i + 1] == 'f' || s[i + 1] == 'F') && class_end(
            s,
            i + 2,
            CharClass::Hex,
        ) >= i + 10 {
            (StepKind::Tok(TokenV::FloatBits(num_value(s.subrange(i + 2, i + 10), 16) as u32)), 10)
        } else if c == '0' && i + 2 < n && (s[i + 1] == 'x' || s[i + 1] == 'X') && is_hex(
            s[i + 2],
        ) {
            let e = class_end(s, i + 2, CharClass::Hex);
            let v = num_value(s.subrange(i + 2, e), 16);
            if v <= i64::MAX {
                (StepKind::Tok(TokenV::IntHex(v as i64)), e - i)
            } else {
                (StepKind::Error, e - i)
            }
        } else {
            let e = class_end(s, i, CharClass::Digit);
            dec_step(s.subrange(i, e), false, e - i)
        }
    } else if is_alpha(c) {
        let e = class_end(s, i, CharClass::Ident);
        (StepKind::Tok(TokenV::Ident(s.subrange(i, e))), e - i)
    } else {
        (StepKind::Error, 1)
    }
}

/// The tokens of `s` from position `i` on, each with its start and end position.
pub open spec fn lex_from(s: Seq<char>, i: int) -> Seq<(TokenV, int, int)>
    decreases s.len() - i,
{
    if i < 0 || i >= s.len() {
        Seq::empty()
    } else {
        let (k, len) = lex_at(s, i);
        if len <= 0 || i + len > s.len() {
            Seq::empty()
        } else {
            match k {
                StepKind::Tok(t) => seq![(t, i, i + len)] + lex_from(s, i + len),
                _ => lex_from(s, i + len),
            }
        }
    }
}

/// The tokens of a whole source text.
pub open spec fn lex(s: Seq<char>) -> Seq<(TokenV, int, int)> {
    lex_from(s, 0)
}


fn in_class_exec(c: char, k: CharClass) -> (b: bool)
    ensures
        b == in_class(c, k),
{
    let x = c as u32;
    match k {
        CharClass::Digit => 48 <= x && x <= 57,
        CharClass::Hex => (48 <= x && x <= 57) || (97 <= x && x <= 102) || (65 <= x && x <= 70),
        CharClass::Ident => (97 <= x && x <= 122) || (65 <= x && x <= 90) || c == '_' || (48 <= x
            && x <= 57),
        CharClass::Blank => c == ' ' || c == '\t' || c == '\r' || x == 12,
        CharClass::NotNewline => c != '\n',
    }
}

fn is_alpha_exec(c: char) -> (b: bool)
    ensures
        b == is_alpha(c),
{
    let x = c as u32;
    (97 <= x && x <= 122) || (65 <= x && x <= 90) || c == '_'
}

/// End of the run of class `k` starting at `i` (see `class_end`).
pub(crate) fn class_end_exec(cs: &Vec<char>, i: usize, k: CharClass) -> (e: usize)
    requires
        i <= cs@.len(),
    ensures
        e == class_end(cs@, i as int, k),
        i <= e <= cs@.len(),
{
    let mut j = i;
    while j < cs.len() && in_class_exec(cs[j], k)
        invariant
            i <= j <= cs@.len(),
            class_end(cs@, j as int, k) == class_end(cs@, i as int, k),
        decreases cs@.len() - j,
    {
        j = j + 1;
    }
    j
}

fn block_end_exec(cs: &Vec<char>, j0: usize) -> (e: Option<usize>)
    requires
        j0 <= cs@.len(),
    ensures
        match e {
            Some(x) => block_end(cs@, j0 as int) == Some(x as int) && x <= cs@.len(),
            None => block_end(cs@, j0 as int) is None,
        },
{
    let n = cs.len();
    let mut j = j0;
    while j < n
        invariant
            n == cs@.len(),
            j0 <= j <= n + 1,
            block_end(cs@, j as int) == block_end(cs@, j0 as int),
        decreases n + 1 - j,
    {
        if cs[j] == '*' {
            if j + 1 >= n {
                return None;
            } else if cs[j + 1] == '/' {
                return Some(j + 2);
            } else {
                j = j + 2;
            }
        } else {
            j = j + 1;
        }
    }
    None
}

fn digit_val_exec(c: char) -> (d: u64)
    requires
        is_hex(c),
    ensures
        d == digit_val(c),
        d < 16,
{
    let x = c as u32;
    if 48 <= x && x <= 57 {
        (x - 48) as u64
    } else if 97 <= x && x <= 102 {
        (x - 87) as u64
    } else {
        (x - 55) as u64
    }
}

proof fn lemma_num_prefix_mono(s: Seq<char>, k: int, b: nat)
    requires
        0 <= k <= s.len(),
        b >= 1,
    ensures
        num_value(s.take(k), b) <= num_value(s, b),
    decreases s.len(),
{
    if k < s.len() {
        lemma_num_prefix_mono(s.drop_last(), k, b);
        assert(s.drop_last().take(k) =~= s.take(k));
        let x = num_value(s.drop_last(), b);
        assert(x * b + digit_val(s.last()) >= x) by (nonlinear_arith)
            requires
                b >= 1,
        ;
    } else {
        assert(s.take(k) =~= s);
    }
}

/// The value of the digits `cs[from..to]` in base `base`, if it is at most `limit`.
pub(crate) fn num_value_exec(cs: &Vec<char>, from: usize, to: usize, base: u64, limit: u64) -> (v: Option<u64>)
    requires
        from <= to <= cs@.len(),
        base == 10 || base == 16,
        forall|k: int| from <= k < to ==> is_hex(#[trigger] cs@[k]),
        base == 10 ==> forall|k: int| from <= k < to ==> is_digit(#[trigger] cs@[k]),
    ensures
        match v {
            Some(x) => x == num_value(cs@.subrange(from as int, to as int), base as nat) && x <= limit,
            None => num_value(cs@.subrange(from as int, to as int), base as nat) > limit,
        },
{
    let ghost s = cs@.subrange(from as int, to as int);
    let mut acc: u64 = 0;
    let mut k = from;
    proof {
        assert(s.take(0) =~= Seq::<char>::empty());
    }
    while k < to
        invariant
            from <= k <= to <= cs@.len(),
            s == cs@.subrange(from as int, to as int),
            base == 10 || base == 16,
            forall|j: int| from <= j < to ==> is_hex(#[trigger] cs@[j]),
            acc == num_value(s.take(k - from), base as nat),
            acc <= limit,
        decreases to - k,
    {
        let d = digit_val_exec(cs[k]);
        proof {
            assert(acc as u128 * base as u128 <= 0xffff_ffff_ffff_ffffu128 * 16) by (nonlinear_arith)
                requires
                    acc <= 0xffff_ffff_ffff_ffffu64,
                    base <= 16,
            ;
        }
        let nv: u128 = acc as u128 * base as u128 + d as u128;
        proof {
            assert(s.take(k - from + 1).drop_last() =~= s.take(k - from));
            assert(s.take(k - from + 1).last() == cs@[k as int]);
        }
        if nv > limit as u128 {
            proof {
                lemma_num_prefix_mono(s, k - from + 1, base as nat);
            }
            return None;
        }
        acc = nv as u64;
        k = k + 1;
    }
    proof {
        assert(s.take(to - from) =~= s);
    }
    Some(acc)
}

/// What the tokenizer does at one position (executable form of `StepKind`).
pub enum LexStep {
    Skip,
    Error,
    Tok(Token),
}

impl View for LexStep {
    type V = StepKind;

    open spec fn view(&self) -> StepKind {
        match self {
            LexStep::Skip => StepKind::Skip,
            LexStep::Error => StepKind::Error,
            LexStep::Tok(t) => StepKind::Tok(t@),
        }
    }
}

fn punct_exec(c: char) -> (t: Option<Token>)
    ensures
        match t {
            Some(x) => punct(c) == Some(x@),
            None => punct(c) is None,
        },
{
    if c == ',' {
        Some(Token::Comma)
    } else if c == ';' {
        Some(Token::Semicolon)
    } else if c == ':' {
        Some(Token::Colon)
    } else if c == '(' {
        Some(Token::LParen)
    } else if c == ')' {
        Some(Token::RParen)
    } else if c == '{' {
        Some(Token::LBrace)
    } else if c == '}' {
        Some(Token::RBrace)
    } else if c == '[' {
        Some(Token::LBracket)
    } else if c == ']' {
        Some(Token::RBracket)
    } else if c == '%' {
        Some(Token::Percent)
    } else if c == '.' {
        Some(Token::Dot)
    } else if c == '\n' {
        Some(Token::Newline)
    } else {
        None
    }
}

fn dec_step_exec(cs: &Vec<char>, from: usize, to: usize, neg: bool, len: usize) -> (r: (LexStep, usize))
    requires
        from <= to <= cs@.len(),
        forall|k: int| from <= k < to ==> is_digit(#[trigger] cs@[k]),
    ensures
        (r.0@, r.1 as int) == dec_step(cs@.subrange(from as int, to as int), neg, len as int),
{
    if neg {
        match num_value_exec(cs, from, to, 10, 0x8000_0000_0000_0000u64) {
            Some(v) => {
                let x: i128 = -(v as i128);
                (LexStep::Tok(Token::IntDec(#[verifier::truncate] (x as i64))), len)
            },
            None => (LexStep::Error, len),
        }
    } else {
        match num_value_exec(cs, from, to, 10, 0x7fff_ffff_ffff_ffffu64) {
            Some(v) => (LexStep::Tok(Token::IntDec(v as i64)), len),
            None => (LexStep::Error, len),
        }
    }
}

/// A run of one character class ends inside the text, and every character in
/// it belongs to the class.
pub proof fn lemma_class_run(s: Seq<char>, i: int, k: CharClass)
    requires
        0 <= i <= s.len(),
    ensures
        i <= class_end(s, i, k) <= s.len(),
        forall|j: int| i <= j < class_end(s, i, k) ==> in_class(#[trigger] s[j], k),
    decreases s.len() - i,
{
    if i < s.len() && in_class(s[i], k) {
        lemma_class_run(s, i + 1, k);
    }
}

proof fn lemma_block_end_range(s: Seq<char>, j: int)
    requires
        0 <= j,
    ensures
        block_end(s, j) matches Some(e) ==> j < e <= s.len(),
    decreases s.len() - j,
{
    if j < s.len() {
        if s[j] == '*' {
            if j + 1 < s.len() && s[j + 1] != '/' {
                lemma_block_end_range(s, j + 2);
            }
        } else {
            lemma_block_end_range(s, j + 1);
        }
    }
}

/// The longest match at position `i` (see `lex_at`).
#[verifier::rlimit(40)]
pub fn lex_at_exec(cs: &Vec<char>, i: usize) -> (r: (LexStep, usize))
    requires
        i < cs@.len(),
    ensures
        (r.0@, r.1 as int) == lex_at(cs@, i as int),
        0 < r.1,
        i + r.1 <= cs@.len(),
{
    let ghost s = cs@;
    let n = cs.len();
    let c = cs[i];
    if in_class_exec(c, CharClass::Blank) {
        let e = class_end_exec(cs, i, CharClass::Blank);
        proof {
            assert(in_class(s[i as int], CharClass::Blank));
            assert(class_end(s, i as int, CharClass::Blank) == class_end(s, i + 1, CharClass::Blank));
            lemma_class_run(s, i + 1, CharClass::Blank);
        }
        return (LexStep::Skip, e - i);
    }
    match punct_exec(c) {
        Some(t) => {
            return (LexStep::Tok(t), 1);
        },
        None => {},
    }
    if c == '@' {
        if i + 1 < n && cs[i + 1] == '!' {
            return (LexStep::Tok(Token::AtNot), 2);
        } else {
            return (LexStep::Tok(Token::At), 1);
        }
    }
    if c == '$' {
        if i + 1 < n && is_alpha_exec(cs[i + 1]) {
            let e = class_end_exec(cs, i + 1, CharClass::Ident);
            return (LexStep::Tok(Token::Label(string_of(cs, i, e))), e - i);
        } else {
            return (LexStep::Error, 1);
        }
    }
    if c == '/' {
        if i + 1 < n && cs[i + 1] == '/' {
            let e = class_end_exec(cs, i + 2, CharClass::NotNewline);
            return (LexStep::Skip, e - i);
        } else if i + 1 < n && cs[i + 1] == '*' {
            proof {
                lemma_block_end_range(s, i + 2);
            }
            match block_end_exec(cs, i + 2) {
                Some(e) => {
                    return (LexStep::Skip, e - i);
                },
                None => {
                    return (LexStep::Error, n - i);
                },
            }
        } else {
            return (LexStep::Error, 1);
        }
    }
    if c == '-' {
        if i + 1 < n && in_class_exec(cs[i + 1], CharClass::Digit) {
            let e = class_end_exec(cs, i + 1, CharClass::Digit);
            proof {
                lemma_class_run(s, i + 1, CharClass::Digit);
            }
            return dec_step_exec(cs, i + 1, e, true, e - i);
        } else {
            return (LexStep::Error, 1);
        }
    }
    if in_class_exec(c, CharClass::Digit) {
        if c == '0' && n - i >= 10 && (cs[i + 1] == 'f' || cs[i + 1] == 'F') && class_end_exec(
            cs,
            i + 2,
            CharClass::Hex,
        ) >= i + 10 {
            proof {
                lemma_class_run(s, i + 2, CharClass::Hex);
            }
            let v = num_value_exec(cs, i + 2, i + 10, 16, 0xffff_ffffu64);
            proof {
                let sub = s.subrange(i + 2, i + 10);
                assert(num_value(sub, 16) < 0x1_0000_0000) by {
                    lemma_num_bound(sub, 16);
                    reveal_with_fuel(pow16, 9);
                    assert(pow16(8) == 0x1_0000_0000);
                }
            }
            match v {
                Some(x) => {
                    return (LexStep::Tok(Token::FloatBits(x as u32)), 10);
                },
                None => {
                    return (LexStep::Error, 10);
                },
            }
        } else if c == '0' && n - i > 2 && (cs[i + 1] == 'x' || cs[i + 1] == 'X') && in_class_exec(
            cs[i + 2],
            CharClass::Hex,
        ) {
            let e = class_end_exec(cs, i + 2, CharClass::Hex);
            proof {
                lemma_class_run(s, i + 2, CharClass::Hex);
            }
            match num_value_exec(cs, i + 2, e, 16, 0x7fff_ffff_ffff_ffffu64) {
                Some(v) => {
                    return (LexStep::Tok(Token::IntHex(v as i64)), e - i);
                },
                None => {
                    return (LexStep::Error, e - i);
                },
            }
        } else {
            let e = class_end_exec(cs, i, CharClass::Digit);
            proof {
                lemma_class_run(s, i as int, CharClass::Digit);
                assert(class_end(s, i as int, CharClass::Digit) == class_end(s, i + 1, CharClass::Digit));
                lemma_class_run(s, i + 1, CharClass::Digit);
            }
            return dec_step_exec(cs, i, e, false, e - i);
        }
    }
    if is_alpha_exec(c) {
        let e = class_end_exec(cs, i, CharClass::Ident);
        proof {
            assert(class_end(s, i as int, CharClass::Ident) == class_end(s, i + 1, CharClass::Ident));
            lemma_class_run(s, i + 1, CharClass::Ident);
        }
        return (LexStep::Tok(Token::Ident(string_of(cs, i, e))), e - i);
    }
    (LexStep::Error, 1)
}

/// Eight hex digits stay below 2^32.
proof fn lemma_num_bound(s: Seq<char>, b: nat)
    requires
        b == 16,
        forall|k: int| 0 <= k < s.len() ==> is_hex(#[trigger] s[k]),
    ensures
        num_value(s, b) < pow16(s.len()),
    decreases s.len(),
{
    if s.len() > 0 {
        lemma_num_bound(s.drop_last(), b);
        assert(is_hex(s[s.len() - 1]));
        let x = num_value(s.drop_last(), b);
        let p = pow16((s.len() - 1) as nat);
        assert(x * 16 + digit_val(s.last()) < p * 16) by (nonlinear_arith)
            requires
                x < p,
                digit_val(s.last()) < 16,
        ;
    }
}

/// 16 to the power `k`.
pub open spec fn pow16(k: nat) -> nat
    decreases k,
{
    if k == 0 {
        1
    } else {
        16 * pow16((k - 1) as nat)
    }
}

/// The view of a token list: each token with its span.
pub open spec fn tokens_view(v: Seq<(Token, Span)>) -> Seq<(TokenV, int, int)> {
    v.map_values(|p: (Token, Span)| (p.0@, p.1.start as int, p.1.end as int))
}

/// The characters of a string.
pub fn chars_of(input: &str) -> (cs: Vec<char>)
    ensures
        cs@ == input@,
{
    let mut it = input.chars();
    let mut cs: Vec<char> = Vec::new();
    loop
        invariant
            cs@ + it.remaining() == input@,
            it.obeys_prophetic_iter_laws(),
            it.decrease() is Some,
        ensures
            cs@ == input@,
        decreases it.decrease()->0,
    {
        let ghost before = it.remaining();
        match it.next() {
            Some(c) => {
                cs.push(c);
                assert(cs@ + it.remaining() =~= input@);
            },
            None => {
                assert(cs@ =~= input@);
                break;
            },
        }
    }
    cs
}

/// The number of bytes of `c` in UTF-8.
pub open spec fn char_width(c: char) -> int {
    let x = c as u32;
    if x < 0x80 {
        1
    } else if x < 0x800 {
        2
    } else if x < 0x10000 && !(0xD800 <= x <= 0xDFFF) {
        3
    } else {
        4
    }
}

/// The byte offset of character position `i` in the UTF-8 text of `s`.
pub open spec fn byte_pos(s: Seq<char>, i: int) -> int
    decreases i,
{
    if i <= 0 {
        0
    } else {
        byte_pos(s, i - 1) + char_width(s[i - 1])
    }
}

/// Lexed tokens with their character ranges turned into byte ranges.
pub open spec fn in_bytes(s: Seq<char>, toks: Seq<(TokenV, int, int)>) -> Seq<(TokenV, int, int)> {
    toks.map_values(|t: (TokenV, int, int)| (t.0, byte_pos(s, t.1), byte_pos(s, t.2)))
}

/// UTF-8 width summed from the front.
spec fn front_width(s: Seq<char>) -> int
    decreases s.len(),
{
    if s.len() == 0 {
        0
    } else {
        char_width(s[0]) + front_width(s.drop_first())
    }
}

proof fn lemma_front_push(a: Seq<char>, c: char)
    ensures
        front_width(a.push(c)) == front_width(a) + char_width(c),
    decreases a.len(),
{
    let b = a.push(c);
    assert(b.len() > 0);
    if a.len() == 0 {
        assert(b[0] == c);
        assert(b.drop_first() =~= Seq::<char>::empty());
        assert(front_width(Seq::<char>::empty()) == 0);
    } else {
        assert(b[0] == a[0]);
        assert(b.drop_first() =~= a.drop_first().push(c));
        lemma_front_push(a.drop_first(), c);
    }
}

proof fn lemma_byte_pos_front(s: Seq<char>, i: int)
    requires
        0 <= i <= s.len(),
    ensures
        byte_pos(s, i) == front_width(s.take(i)),
    decreases i,
{
    if i == 0 {
        assert(s.take(0) =~= Seq::<char>::empty());
    } else {
        lemma_byte_pos_front(s, i - 1);
        assert(s.take(i) =~= s.take(i - 1).push(s[i - 1]));
        lemma_front_push(s.take(i - 1), s[i - 1]);
    }
}

proof fn lemma_encode_width(s: Seq<char>)
    ensures
        vstd::utf8::encode_utf8(s).len() == front_width(s),
    decreases s.len(),
{
    if s.len() > 0 {
        lemma_encode_width(s.drop_first());
        let x = s[0] as u32;
        assert(vstd::utf8::encode_scalar(x).len() == char_width(s[0]));
    }
}

/// Byte offsets grow with character positions.
proof fn lemma_byte_pos_mono(s: Seq<char>, i: int, j: int)
    requires
        0 <= i <= j,
    ensures
        byte_pos(s, i) <= byte_pos(s, j),
    decreases j - i,
{
    if i < j {
        lemma_byte_pos_mono(s, i, j - 1);
    }
}

fn char_width_exec(c: char) -> (w: usize)
    ensures
        w == char_width(c),
{
    let x = c as u32;
    if x < 0x80 {
        1
    } else if x < 0x800 {
        2
    } else if x < 0x10000 && !(0xD800 <= x && x <= 0xDFFF) {
        3
    } else {
        4
    }
}

/// Splits PTX source into tokens, each with the range of bytes it covers in the
/// UTF-8 text (see the module documentation for the rules).
pub fn tokenize(input: &str) -> (out: Vec<(Token, Span)>)
    ensures
        tokens_view(out@) == in_bytes(input@, lex(input@)),
{
    let cs = chars_of(input);
    let n = cs.len();
    let nbytes = input.as_bytes().len();
    proof {
        lemma_encode_width(input@);
        lemma_byte_pos_front(cs@, n as int);
        assert(cs@.take(n as int) =~= cs@);
    }
    let mut out: Vec<(Token, Span)> = Vec::new();
    let mut i: usize = 0;
    let mut b: usize = 0;
    while i < n
        invariant
            n == cs@.len(),
            cs@ == input@,
            i <= n,
            b == byte_pos(cs@, i as int),
            byte_pos(cs@, n as int) == nbytes,
            tokens_view(out@) + in_bytes(cs@, lex_from(cs@, i as int)) == in_bytes(cs@, lex(cs@)),
        decreases n - i,
    {
        let (k, len) = lex_at_exec(&cs, i);
        let ghost old_out = out@;
        let mut e = b;
        let mut q = i;
        while q < i + len
            invariant
                n == cs@.len(),
                i <= q <= i + len <= n,
                e == byte_pos(cs@, q as int),
                byte_pos(cs@, n as int) == nbytes,
            decreases i + len - q,
        {
            proof {
                lemma_byte_pos_mono(cs@, q + 1, n as int);
            }
            e = e + char_width_exec(cs[q]);
            q = q + 1;
        }
        match k {
            LexStep::Tok(t) => {
                out.push((t, b..e));
                proof {
                    let tv = lex_at(cs@, i as int).0->Tok_0;
                    assert(tokens_view(out@) =~= tokens_view(old_out).push(
                        (tv, byte_pos(cs@, i as int), byte_pos(cs@, i + len)),
                    ));
                    assert(in_bytes(cs@, lex_from(cs@, i as int)) =~= seq![
                        (tv, byte_pos(cs@, i as int), byte_pos(cs@, i + len)),
                    ] + in_bytes(cs@, lex_from(cs@, i + len)));
                    assert(tokens_view(out@) + in_bytes(cs@, lex_from(cs@, i + len))
                        =~= tokens_view(old_out) + in_bytes(cs@, lex_from(cs@, i as int)));
                }
            },
            _ => {
                proof {
                    assert(in_bytes(cs@, lex_from(cs@, i as int)) =~= in_bytes(
                        cs@,
                        lex_from(cs@, i + len),
                    ));
                }
            },
        }
        i = i + len;
        b = e;
    }
    proof {
        assert(in_bytes(cs@, lex_from(cs@, n as int)) =~= Seq::<(TokenV, int, int)>::empty());
        assert(tokens_view(out@) + Seq::<(TokenV, int, int)>::empty() =~= tokens_view(out@));
    }
    out
}

/// The tokens of a token list, without spans.
pub open spec fn token_views(v: Seq<Token>) -> Seq<TokenV> {
    Seq::new(v.len(), |i: int| v[i]@)
}

/// The tokens of a lexed text, without spans.
pub open spec fn lexed_tokens(s: Seq<char>) -> Seq<TokenV> {
    Seq::new(lex(s).len(), |i: int| lex(s)[i].0)
}

/// The tokens alone, without their spans.
pub fn tokenize_tokens(input: &str) -> (out: Vec<Token>)
    ensures
        token_views(out@) == lexed_tokens(input@),
{
    let spanned = tokenize(input);
    let mut out: Vec<Token> = Vec::new();
    let mut i: usize = 0;
    while i < spanned.len()
        invariant
            i <= spanned@.len(),
            tokens_view(spanned@) == in_bytes(input@, lex(input@)),
            out@.len() == i,
            forall|k: int| 0 <= k < i ==> #[trigger] out@[k]@ == lex(input@)[k].0,
        decreases spanned@.len() - i,
    {
        proof {
            assert(tokens_view(spanned@)[i as int].0 == spanned@[i as int].0@);
            assert(in_bytes(input@, lex(input@)).len() == lex(input@).len());
            assert(in_bytes(input@, lex(input@))[i as int].0 == lex(input@)[i as int].0);
        }
        out.push(spanned[i].0.duplicate());
        i = i + 1;
    }
    assert(tokens_view(spanned@).len() == spanned@.len());
    assert(in_bytes(input@, lex(input@)).len() == lex(input@).len());
    assert(token_views(out@) =~= lexed_tokens(input@));
    out
}

} // verus!
