use gisor::parse_error::{decimal_text, ParseError};
use gisor::ptx_ir::RegBank;

#[test]
fn decimal_numerals() {
    assert_eq!(decimal_text(0), "0");
    assert_eq!(decimal_text(7), "7");
    assert_eq!(decimal_text(1234567), "1234567");
    assert_eq!(decimal_text(u64::MAX), "18446744073709551615");
}

#[test]
fn messages_name_the_line() {
    let e = ParseError::UnknownOpcode {
        line: 12,
        mnemonic: "foo".to_string(),
        modifiers: vec!["a".to_string(), "b".to_string()],
    };
    assert_eq!(e.message(), "line 12: unknown opcode `foo.a.b`");
    let e = ParseError::RegisterOutOfRange { line: 3, bank: RegBank::Rd, index: 300 };
    assert_eq!(e.message(), "line 3: register %Rd300 out of range (max 255)");
    assert_eq!(ParseError::MissingEntry.message(), "PTX contained no .entry block");
    let e = ParseError::UnexpectedToken { line: 1, expected: "`(`".to_string(), found: ";".to_string() };
    assert_eq!(e.message(), "line 1: expected `(`, found `;`");
    let e = ParseError::UndefinedLabel { line: 40, label: "$L__BB0_9".to_string() };
    assert_eq!(e.message(), "line 40: undefined label `$L__BB0_9`");
}

#[test]
fn parse_errors_read_as_messages() {
    let e = gisor::frontend::parse(".visible .entry k()\n{\n  frob.x %r1;\n  ret;\n}\n").unwrap_err();
    assert_eq!(e.message(), "line 3: unknown opcode `frob.x`");
}

#[test]
fn unexpected_tokens_name_what_was_wanted() {
    let e = gisor::frontend::parse(".visible .entry k(\n.param .u32 a\n{\n}\n").unwrap_err();
    assert_eq!(e.message(), "line 3: expected `.param` or `)`, found `LBrace`");
    let e = gisor::c_signature::parse_c_signature("void foo(int a b)").unwrap_err();
    assert_eq!(e.message(), "line 1: expected `,` or `)`, found `Ident(\"b\")`");
    let e = gisor::frontend::parse(".visible .entry k()\n{\n  add.s32 %q1, %r1, %r2;\n}\n").unwrap_err();
    assert_eq!(e.message(), "line 3: expected register bank prefix (p, r, rd, f), found `q`");
}

#[test]
fn messages_quote_operands_and_digits() {
    let e = gisor::frontend::parse(".visible .entry k()\n{\n  add.s32 %r1x, %r1, %r2;\n}\n").unwrap_err();
    assert_eq!(e.message(), "line 3: expected register index (non-negative integer), found `1x`");
    let e = gisor::frontend::parse(".visible .entry k()\n{\n  neg.f32 %f1, 5;\n}\n").unwrap_err();
    assert_eq!(e.message(), "line 3: `<operand>` has unsupported operand shape: expected register, found Immediate(Int(5))");
    let e = gisor::frontend::parse(".visible .entry k()\n{\n  ld.global.f32 %f1, [-7];\n}\n").unwrap_err();
    assert_eq!(
        e.message(),
        "line 3: `<memref>` has unsupported operand shape: memory reference must wrap a register, found Immediate(Int(-7))"
    );
    let e = gisor::frontend::parse(".visible .entry k()\n{\n  mov.u32 %r1, %r2\n").unwrap_err();
    assert_eq!(e.message(), "line 4: expected `;` to end instruction, found `end of input`");
    let e = gisor::c_signature::parse_c_signature("void (int)").unwrap_err();
    assert_eq!(e.message(), "line 1: expected identifier, found `Some(LParen)`");
}
