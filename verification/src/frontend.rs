//! The two entry points of the front end: PTX text to a kernel, and C signature
//! text to a signature.

use crate::c_signature::{read_signature, sp_c_sig};
use crate::lowering::{lower, sp_lower, KernelV};
use crate::parse_error::{ErrV, ParseError};
use crate::ptx_lexer::{in_bytes, lex, lex_at, lex_from, tokenize, tokens_view, Span, StepKind, Token, TokenV};
use crate::ptx_output::{ParsedKernel, ParsedSignature, SigV};
use crate::ptx_parser::{parse_tokens, sp_parse, toks_of};
use vstd::prelude::*;

verus! {

/// The tokens of PTX text, without their positions.
pub open spec fn ptx_tokens(s: Seq<char>) -> Seq<TokenV> {
    lex(s).map_values(|x: (TokenV, int, int)| x.0)
}

/// The kernel that PTX text describes: tokens, then the grammar, then lowering.
pub open spec fn sp_ptx(s: Seq<char>) -> Result<KernelV, ErrV> {
    match sp_parse(ptx_tokens(s)) {
        Err(e) => Err(e),
        Ok(p) => sp_lower(p),
    }
}

/// Tokens never outnumber characters.
proof fn lemma_lex_len(s: Seq<char>, i: int)
    requires
        0 <= i,
    ensures
        lex_from(s, i).len() <= if i <= s.len() {
            s.len() - i
        } else {
            0
        },
    decreases s.len() - i,
{
    if i < s.len() {
        let (k, len) = lex_at(s, i);
        if len > 0 && i + len <= s.len() {
            lemma_lex_len(s, i + len);
        }
    }
}

/// Dropping the byte ranges of tokenized text leaves its tokens.
proof fn lemma_toks(v: Seq<(Token, Span)>, s: Seq<char>)
    requires
        tokens_view(v) == in_bytes(s, lex(s)),
    ensures
        toks_of(v) == ptx_tokens(s),
        v.len() == lex(s).len(),
{
    assert(tokens_view(v).len() == v.len());
    assert(in_bytes(s, lex(s)).len() == lex(s).len());
    assert forall|k: int| 0 <= k < v.len() implies #[trigger] toks_of(v)[k] == ptx_tokens(s)[k] by {
        assert(tokens_view(v)[k].0 == v[k].0@);
        assert(in_bytes(s, lex(s))[k].0 == lex(s)[k].0);
    }
    assert(toks_of(v) =~= ptx_tokens(s));
}

/// Parses PTX text into a kernel: its name, parameters and lowered
/// instructions (see `lower`).
pub fn parse(ptx: &str) -> (r: Result<ParsedKernel, ParseError>)
    requires
        ptx@.len() < usize::MAX,
    ensures
        match sp_ptx(ptx@) {
            Ok(k) => r matches Ok(x) && x@ == k,
            Err(e) => r matches Err(x) && x@ == e,
        },
{
    let tokens = tokenize(ptx);
    proof {
        lemma_lex_len(ptx@, 0);
        lemma_toks(tokens@, ptx@);
    }
    let parse_out = match parse_tokens(tokens) {
        Ok(p) => p,
        Err(e) => {
            return Err(e);
        },
    };
    lower(parse_out)
}

/// Parses a C signature, full (`void addKernel(float* A, int N)`) or demangled
/// (`addKernel(float*, int)`): its name and, for each parameter, its name
/// (empty if unnamed), pointed-to type and number of pointer levels.
pub fn parse_c_signature(sig: &str) -> (r: Result<ParsedSignature, ParseError>)
    requires
        sig@.len() <= usize::MAX / 2,
    ensures
        match sp_c_sig(sig@) {
            Ok(v) => r matches Ok(x) && x@ == v,
            Err(e) => r matches Err(x) && x@ == e,
        },
{
    read_signature(sig)
}

} // verus!
