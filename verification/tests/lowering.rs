use gisor::frontend::parse;
use gisor::inst_type::InstType;
use gisor::lowering::lower;
use gisor::parse_error::ParseError;
use gisor::ptx_lexer::tokenize;
use gisor::ptx_output::ParsedKernel;
use gisor::ptx_parser::parse_tokens;

fn parse_and_lower(src: &str) -> ParsedKernel {
    let parse_out = parse_tokens(tokenize(src)).expect("parse should succeed");
    lower(parse_out).expect("lower should succeed")
}

const ADD_KERNEL: &str = r#"
.version 9.1
.target sm_75
.address_size 64

.visible .entry _Z9addKernelPfS_S_i(
    .param .u64 _Z9addKernelPfS_S_i_param_0,
    .param .u64 _Z9addKernelPfS_S_i_param_1,
    .param .u64 _Z9addKernelPfS_S_i_param_2,
    .param .u32 _Z9addKernelPfS_S_i_param_3
)
{
    .reg .pred     %p<2>;
    .reg .f32     %f<4>;
    .reg .b32     %r<6>;
    .reg .b64     %rd<11>;

    ld.param.u64     %rd1, [_Z9addKernelPfS_S_i_param_0];
    ld.param.u64     %rd2, [_Z9addKernelPfS_S_i_param_1];
    ld.param.u64     %rd3, [_Z9addKernelPfS_S_i_param_2];
    ld.param.u32     %r2, [_Z9addKernelPfS_S_i_param_3];
    mov.u32     %r3, %tid.x;
    mov.u32     %r4, %ntid.x;
    mov.u32     %r5, %ctaid.x;
    mad.lo.s32     %r1, %r5, %r4, %r3;
    setp.ge.s32     %p1, %r1, %r2;
    @%p1 bra     $L__BB0_2;

    cvta.to.global.u64     %rd4, %rd1;
    mul.wide.s32     %rd5, %r1, 4;
    add.s64     %rd6, %rd4, %rd5;
    cvta.to.global.u64     %rd7, %rd2;
    add.s64     %rd8, %rd7, %rd5;
    ld.global.f32     %f1, [%rd8];
    ld.global.f32     %f2, [%rd6];
    add.f32     %f3, %f2, %f1;
    cvta.to.global.u64     %rd9, %rd3;
    add.s64     %rd10, %rd9, %rd5;
    st.global.f32     [%rd10], %f3;

$L__BB0_2:
    ret;

}
"#;

fn body(lines: &str) -> String {
    format!(".visible .entry foo()\n{{\n{lines}\n}}\n")
}

#[test]
fn ret_only() {
    let k = parse_and_lower(&body("ret;"));
    assert_eq!(k.instructions.len(), 1);
    assert_eq!(k.instructions[0].inst_type, InstType::Ret);
    assert!(k.instructions[0].args.is_empty());
}

#[test]
fn mad_lo_s32() {
    let k = parse_and_lower(&body("mad.lo.s32 %r1, %r5, %r4, %r3;\nret;"));
    assert_eq!(k.instructions[0].inst_type, InstType::MadLoS32);
    assert_eq!(k.instructions[0].args, vec![1, 5, 4, 3]);
}

#[test]
fn mov_tid_x() {
    let k = parse_and_lower(&body("mov.u32 %r3, %tid.x;\nret;"));
    assert_eq!(k.instructions[0].inst_type, InstType::MovTidX);
    assert_eq!(k.instructions[0].args, vec![3]);
}

#[test]
fn mul_wide_with_immediate() {
    let k = parse_and_lower(&body("mul.wide.s32 %rd5, %r1, 4;\nret;"));
    assert_eq!(k.instructions[0].inst_type, InstType::MulWideS32);
    assert_eq!(k.instructions[0].args, vec![5, 1, 4]);
}

#[test]
fn store_address_is_args_zero() {
    let k = parse_and_lower(&body("st.global.f32 [%rd10], %f3;\nret;"));
    assert_eq!(k.instructions[0].inst_type, InstType::StGlobalF32);
    assert_eq!(k.instructions[0].args, vec![10, 3]);
}

#[test]
fn ld_param_resolves_arg_index() {
    let k = parse_and_lower(
        r#"
            .visible .entry foo(
                .param .u64 foo_param_0,
                .param .u64 foo_param_1
            )
            {
                ld.param.u64 %rd2, [foo_param_1];
                ret;
            }
        "#,
    );
    assert_eq!(k.instructions[0].inst_type, InstType::LdParamU64);
    assert_eq!(k.instructions[0].args, vec![2, 1]);
}

#[test]
fn branch_resolves_label_to_pc() {
    let k = parse_and_lower(&body("@%p1 bra $L_end;\nadd.s64 %rd1, %rd2, %rd3;\n$L_end:\nret;"));
    assert_eq!(k.instructions[0].inst_type, InstType::BraIf);
    assert_eq!(k.instructions[0].args, vec![1, 2]);
    assert_eq!(k.instructions[1].inst_type, InstType::AddS64);
    assert_eq!(k.instructions[2].inst_type, InstType::Ret);
}

#[test]
fn unconditional_branch() {
    let k = parse_and_lower(&body("bra $L_end;\n$L_end:\nret;"));
    assert_eq!(k.instructions[0].inst_type, InstType::Bra);
    assert_eq!(k.instructions[0].args, vec![1]);
}

#[test]
fn negated_branch() {
    let k = parse_and_lower(&body("@!%p2 bra $L_end;\n$L_end:\nret;"));
    assert_eq!(k.instructions[0].inst_type, InstType::BraIfNot);
    assert_eq!(k.instructions[0].args, vec![2, 1]);
}

#[test]
fn label_at_the_end_points_past_the_last_instruction() {
    let k = parse_and_lower(&body("bra $L_end;\n$L_end:"));
    assert_eq!(k.instructions.len(), 1);
    assert_eq!(k.instructions[0].args, vec![1]);
}

#[test]
fn later_label_definition_wins() {
    let k = parse_and_lower(&body("$L:\nbra $L;\nret;\n$L:\nret;"));
    assert_eq!(k.instructions[0].inst_type, InstType::Bra);
    assert_eq!(k.instructions[0].args, vec![2]);
}

#[test]
fn add_s32_with_register_vs_immediate() {
    let k = parse_and_lower(&body("add.s32 %r1, %r2, %r3;\nadd.s32 %r4, %r5, 10;\nret;"));
    assert_eq!(k.instructions[0].inst_type, InstType::AddS32);
    assert_eq!(k.instructions[0].args, vec![1, 2, 3]);
    assert_eq!(k.instructions[1].inst_type, InstType::AddS32Imm);
    assert_eq!(k.instructions[1].args, vec![4, 5, 10]);
}

#[test]
fn immediates_are_encoded() {
    let k = parse_and_lower(&body("mov.u32 %r1, -1;\nmov.f32 %f1, 0f3F800000;\nmov.u64 %rd1, 0x10;\nret;"));
    assert_eq!(k.instructions[0].inst_type, InstType::MovU32Imm);
    assert_eq!(k.instructions[0].args, vec![1, usize::MAX]);
    assert_eq!(k.instructions[1].inst_type, InstType::MovF32Imm);
    assert_eq!(k.instructions[1].args, vec![1, 0x3F800000]);
    assert_eq!(k.instructions[2].inst_type, InstType::MovU64Imm);
    assert_eq!(k.instructions[2].args, vec![1, 16]);
}

#[test]
fn mov_bit_casts_and_copies() {
    let k = parse_and_lower(&body(
        "mov.f32 %f1, %r2;\nmov.b32 %r3, %f4;\nmov.f32 %f5, %f6;\nmov.u64 %rd1, %rd2;\nmov.u32 %r7, %r8;\nret;",
    ));
    let types: Vec<InstType> = k.instructions.iter().map(|i| i.inst_type).collect();
    assert_eq!(
        types,
        vec![
            InstType::MovF32FromB32,
            InstType::MovB32FromF32,
            InstType::MovF32,
            InstType::MovU64,
            InstType::MovU32,
            InstType::Ret
        ]
    );
    assert_eq!(k.instructions[0].args, vec![1, 2]);
    assert_eq!(k.instructions[1].args, vec![3, 4]);
}

#[test]
fn float_ops_and_conversions() {
    let k = parse_and_lower(&body(
        "fma.rn.f32 %f1, %f2, %f3, %f4;\nsub.f32 %f1, %f2, %f3;\nneg.f32 %f1, %f2;\nex2.approx.f32 %f1, %f2;\nrcp.rn.f32 %f1, %f2;\ncvt.sat.f32.f32 %f1, %f2;\nshl.b32 %r1, %r2, 3;\nor.pred %p1, %p2, %p3;\nsetp.lt.s32 %p1, %r1, 5;\nret;",
    ));
    let types: Vec<InstType> = k.instructions.iter().map(|i| i.inst_type).collect();
    assert_eq!(
        types,
        vec![
            InstType::FmaRnF32,
            InstType::SubF32,
            InstType::NegF32,
            InstType::Ex2ApproxF32,
            InstType::RcpRnF32,
            InstType::CvtSatF32F32,
            InstType::ShlB32,
            InstType::OrPred,
            InstType::SetpLtS32Imm,
            InstType::Ret
        ]
    );
    assert_eq!(k.instructions[0].args, vec![1, 2, 3, 4]);
    assert_eq!(k.instructions[6].args, vec![1, 2, 3]);
    assert_eq!(k.instructions[8].args, vec![1, 1, 5]);
}

#[test]
fn predicate_guard_on_non_branch_errors() {
    let parse_out = parse_tokens(tokenize(&body("@%p1 add.s32 %r1, %r2, %r3;\nret;"))).expect("parse ok");
    let err = lower(parse_out).expect_err("should reject");
    match err {
        ParseError::UnsupportedOperandShape { .. } => {}
        other => panic!("wrong error: {other:?}"),
    }
}

#[test]
fn unknown_opcode_is_reported() {
    let err = parse(&body("foo.bar %r1;\nret;")).expect_err("should reject");
    match err {
        ParseError::UnknownOpcode { line, mnemonic, modifiers } => {
            assert_eq!(line, 3);
            assert_eq!(mnemonic, "foo");
            assert_eq!(modifiers, vec!["bar"]);
        }
        other => panic!("wrong error: {other:?}"),
    }
}

#[test]
fn undefined_label_is_reported() {
    let err = parse(&body("bra $nowhere;\nret;")).expect_err("should reject");
    match err {
        ParseError::UndefinedLabel { label, .. } => assert_eq!(label, "$nowhere"),
        other => panic!("wrong error: {other:?}"),
    }
}

#[test]
fn undefined_param_is_reported() {
    let err = parse(&body("ld.param.u64 %rd1, [nope];\nret;")).expect_err("should reject");
    match err {
        ParseError::UndefinedParam { param, .. } => assert_eq!(param, "nope"),
        other => panic!("wrong error: {other:?}"),
    }
}

#[test]
fn bad_operand_shape_is_reported() {
    let err = parse(&body("mov.u32 %r1, %f1;\nret;")).expect_err("should reject");
    assert!(matches!(err, ParseError::UnsupportedOperandShape { .. }));
    let err = parse(&body("add.s32 %r1, %r2;\nret;")).expect_err("should reject");
    assert!(matches!(err, ParseError::UnsupportedOperandShape { .. }));
    assert!(err.message().contains("add.s32"));
}

#[test]
fn missing_entry_is_reported() {
    let err = parse(".version 9.1\n.target sm_75\n").expect_err("should reject");
    assert!(matches!(err, ParseError::MissingEntry));
    assert_eq!(err.message(), "PTX contained no .entry block");
}

#[test]
fn register_out_of_range_is_reported() {
    let err = parse(&body("mov.u32 %r300, 1;\nret;")).expect_err("should reject");
    assert!(matches!(err, ParseError::RegisterOutOfRange { index: 300, .. }));
}

#[test]
fn unexpected_token_is_reported() {
    let err = parse(".visible .entry foo(\n{\nret;\n}\n").expect_err("should reject");
    assert!(matches!(err, ParseError::UnexpectedToken { .. }));
}

#[test]
fn full_add_kernel_lowers() {
    let k = parse_and_lower(ADD_KERNEL);
    assert_eq!(k.instructions.len(), 22);
    assert_eq!(k.instructions[9].inst_type, InstType::BraIf);
    assert_eq!(k.instructions[9].args[1], 21);
    assert_eq!(k.instructions[21].inst_type, InstType::Ret);
}

#[test]
fn parse_runs_every_phase() {
    let k = parse(ADD_KERNEL).expect("parse");
    assert_eq!(k.name, "_Z9addKernelPfS_S_i");
    assert_eq!(k.params.len(), 4);
    assert_eq!(k.instructions.len(), 22);
    assert_eq!(k.instructions[3].inst_type, InstType::LdParamU32);
    assert_eq!(k.instructions[3].args, vec![2, 3]);
}
