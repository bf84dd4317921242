use gisor::ptx_lexer::{tokenize, Token};

fn toks(input: &str) -> Vec<Token> {
    tokenize(input).into_iter().map(|(t, _)| t).collect()
}

#[test]
fn punctuation() {
    assert_eq!(
        toks(",;:(){}[]"),
        vec![
            Token::Comma,
            Token::Semicolon,
            Token::Colon,
            Token::LParen,
            Token::RParen,
            Token::LBrace,
            Token::RBrace,
            Token::LBracket,
            Token::RBracket,
        ]
    );
}

#[test]
fn prefixes() {
    assert_eq!(toks("% @ @! ."), vec![Token::Percent, Token::At, Token::AtNot, Token::Dot]);
}

#[test]
fn identifiers_and_modifiers() {
    assert_eq!(
        toks("ld.param.u64"),
        vec![
            Token::Ident("ld".into()),
            Token::Dot,
            Token::Ident("param".into()),
            Token::Dot,
            Token::Ident("u64".into()),
        ]
    );
}

#[test]
fn registers_as_percent_plus_ident() {
    assert_eq!(toks("%rd1"), vec![Token::Percent, Token::Ident("rd1".into())]);
}

#[test]
fn special_register_decomposes() {
    assert_eq!(
        toks("%tid.x"),
        vec![Token::Percent, Token::Ident("tid".into()), Token::Dot, Token::Ident("x".into())]
    );
}

#[test]
fn label_includes_dollar() {
    assert_eq!(toks("$L__BB0_2"), vec![Token::Label("$L__BB0_2".into())]);
}

#[test]
fn numeric_literals() {
    assert_eq!(toks("4"), vec![Token::IntDec(4)]);
    assert_eq!(toks("0x42"), vec![Token::IntHex(0x42)]);
    assert_eq!(toks("0f3F800000"), vec![Token::FloatBits(0x3F800000)]);
}

#[test]
fn float_takes_priority_over_hex() {
    let t = toks("0f3F800000");
    assert_eq!(t, vec![Token::FloatBits(0x3F800000)]);
}

#[test]
fn comments_skipped() {
    assert_eq!(
        toks("add // this is ignored\n.s32"),
        vec![Token::Ident("add".into()), Token::Newline, Token::Dot, Token::Ident("s32".into())]
    );
}

#[test]
fn block_comment_skipped() {
    assert_eq!(
        toks("add /* block\ncomment */ .s32"),
        vec![Token::Ident("add".into()), Token::Dot, Token::Ident("s32".into())]
    );
}

#[test]
fn newlines_emitted() {
    assert_eq!(
        toks("a\nb\nc"),
        vec![
            Token::Ident("a".into()),
            Token::Newline,
            Token::Ident("b".into()),
            Token::Newline,
            Token::Ident("c".into()),
        ]
    );
}

#[test]
fn real_ptx_snippet() {
    let input = "ld.param.u64  %rd1, [_Z9addKernelPfS_S_i_param_0];";
    let t = toks(input);
    assert_eq!(
        t,
        vec![
            Token::Ident("ld".into()),
            Token::Dot,
            Token::Ident("param".into()),
            Token::Dot,
            Token::Ident("u64".into()),
            Token::Percent,
            Token::Ident("rd1".into()),
            Token::Comma,
            Token::LBracket,
            Token::Ident("_Z9addKernelPfS_S_i_param_0".into()),
            Token::RBracket,
            Token::Semicolon,
        ]
    );
}

#[test]
fn predicate_guard() {
    assert_eq!(toks("@%p1"), vec![Token::At, Token::Percent, Token::Ident("p1".into())]);
    assert_eq!(toks("@!%p1"), vec![Token::AtNot, Token::Percent, Token::Ident("p1".into())]);
}

#[test]
fn negative_decimal_and_spans() {
    let t = tokenize("add -7");
    assert_eq!(t.len(), 2);
    assert_eq!(t[0].0, Token::Ident("add".into()));
    assert_eq!(t[0].1, 0..3);
    assert_eq!(t[1].0, Token::IntDec(-7));
    assert_eq!(t[1].1, 4..6);
}

#[test]
fn spans_count_bytes() {
    // `é` (2 bytes) and `€` (3 bytes) start no token and are dropped.
    let t = tokenize("é,x€ ;");
    assert_eq!(t.len(), 3);
    assert_eq!(t[0], (Token::Comma, 2..3));
    assert_eq!(t[1], (Token::Ident("x".into()), 3..4));
    assert_eq!(t[2], (Token::Semicolon, 8..9));
    let s = "é,x€ ;";
    assert_eq!(&s[t[1].1.clone()], "x");
}
