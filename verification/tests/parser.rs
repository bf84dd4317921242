use gisor::ptx_ir::{ImmediateValue, RawOperand, RegBank, SpecialReg};
use gisor::ptx_lexer::tokenize;
use gisor::ptx_output::PtxType;
use gisor::ptx_parser::{parse_tokens, ParseOutput};

fn parse(input: &str) -> ParseOutput {
    parse_tokens(tokenize(input)).expect("parse should succeed")
}

#[test]
fn empty_kernel() {
    let src = r#"
            .version 9.1
            .target sm_75
            .address_size 64
            .visible .entry foo()
            {
                ret;
            }
        "#;
    let out = parse(src);
    assert_eq!(out.name, "foo");
    assert!(out.params.is_empty());
    assert_eq!(out.raw_instructions.len(), 1);
    assert_eq!(out.raw_instructions[0].mnemonic, "ret");
}

#[test]
fn kernel_with_params() {
    let src = r#"
            .visible .entry bar(
                .param .u64 bar_param_0,
                .param .u32 bar_param_1
            )
            {
                ret;
            }
        "#;
    let out = parse(src);
    assert_eq!(out.params.len(), 2);
    assert_eq!(out.params[0].name, "bar_param_0");
    assert_eq!(out.params[0].ptx_type, PtxType::U64);
    assert_eq!(out.params[1].name, "bar_param_1");
    assert_eq!(out.params[1].ptx_type, PtxType::U32);
}

#[test]
fn instruction_with_registers() {
    let src = r#"
            .visible .entry k()
            {
                mad.lo.s32 %r1, %r5, %r4, %r3;
            }
        "#;
    let out = parse(src);
    let inst = &out.raw_instructions[0];
    assert_eq!(inst.mnemonic, "mad");
    assert_eq!(inst.modifiers, vec!["lo", "s32"]);
    assert_eq!(inst.operands.len(), 4);
    for (i, expected_idx) in [1, 5, 4, 3].iter().enumerate() {
        match &inst.operands[i] {
            RawOperand::Register { bank, index } => {
                assert_eq!(*bank, RegBank::R);
                assert_eq!(*index, *expected_idx);
            }
            other => panic!("expected register, got {other:?}"),
        }
    }
}

#[test]
fn instruction_with_immediate() {
    let src = r#"
            .visible .entry k()
            {
                mul.wide.s32 %rd3, %r10, 4;
            }
        "#;
    let out = parse(src);
    let inst = &out.raw_instructions[0];
    assert_eq!(inst.mnemonic, "mul");
    assert_eq!(inst.modifiers, vec!["wide", "s32"]);
    assert_eq!(inst.operands.len(), 3);
    assert!(matches!(&inst.operands[2], RawOperand::Immediate(ImmediateValue::Int(4))));
}

#[test]
fn instruction_with_memory_ref() {
    let src = r#"
            .visible .entry k()
            {
                ld.global.f32 %f1, [%rd8];
            }
        "#;
    let out = parse(src);
    let inst = &out.raw_instructions[0];
    assert_eq!(inst.operands.len(), 2);
    match &inst.operands[1] {
        RawOperand::MemoryRef(inner) => match &**inner {
            RawOperand::Register { bank, index } => {
                assert_eq!(*bank, RegBank::Rd);
                assert_eq!(*index, 8);
            }
            other => panic!("expected register inside memref, got {other:?}"),
        },
        other => panic!("expected memref, got {other:?}"),
    }
}

#[test]
fn instruction_with_param_ref() {
    let src = r#"
            .visible .entry k(
                .param .u64 k_param_0
            )
            {
                ld.param.u64 %rd1, [k_param_0];
            }
        "#;
    let out = parse(src);
    let inst = &out.raw_instructions[0];
    match &inst.operands[1] {
        RawOperand::MemoryRef(inner) => match &**inner {
            RawOperand::Identifier(s) => assert_eq!(s, "k_param_0"),
            other => panic!("expected identifier, got {other:?}"),
        },
        other => panic!("expected memref, got {other:?}"),
    }
}

#[test]
fn special_register_operand() {
    let src = r#"
            .visible .entry k()
            {
                mov.u32 %r3, %tid.x;
            }
        "#;
    let out = parse(src);
    let inst = &out.raw_instructions[0];
    assert!(matches!(&inst.operands[1], RawOperand::SpecialReg(SpecialReg::TidX)));
}

#[test]
fn predicate_guarded_branch() {
    let src = r#"
            .visible .entry k()
            {
                @%p1 bra target;
            $L__BB0_2:
                ret;
            }
        "#;
    let out = parse(src);
    let inst = &out.raw_instructions[0];
    assert_eq!(inst.mnemonic, "bra");
    let guard = inst.predicate_guard.expect("should have guard");
    assert_eq!(guard.reg, 1);
    assert!(!guard.negated);
}

#[test]
fn label_becomes_synthetic_instruction() {
    let src = r#"
            .visible .entry k()
            {
                ret;
            $L__BB0_2:
                ret;
            }
        "#;
    let out = parse(src);
    assert_eq!(out.raw_instructions.len(), 3);
    assert_eq!(out.raw_instructions[0].mnemonic, "ret");
    assert_eq!(out.raw_instructions[1].mnemonic, ".label");
    match &out.raw_instructions[1].operands[0] {
        RawOperand::Label(s) => assert_eq!(s, "$L__BB0_2"),
        other => panic!("expected label, got {other:?}"),
    }
    assert_eq!(out.raw_instructions[2].mnemonic, "ret");
}

#[test]
fn float_immediate() {
    let src = r#"
            .visible .entry k()
            {
                mov.f32 %f1, 0f3F800000;
            }
        "#;
    let out = parse(src);
    let inst = &out.raw_instructions[0];
    assert!(matches!(&inst.operands[1], RawOperand::Immediate(ImmediateValue::F32Bits(0x3F800000))));
}

#[test]
fn full_add_kernel() {
    let src = r#"
.version 9.1
.target sm_75
.address_size 64

.visible .entry _Z9addKernelPfS_S_i(
    .param .u64 _Z9addKernelPfS_S_i_param_0,
    .param .u64 _Z9addKernelPfS_S_i_param_1,
    .param .u64 _Z9addKernelPfS_S_i_param_2,
    .param .u32 _Z9addKernelPfS_S_i_param_3
)
{
    .reg .pred     %p<2>;
    .reg .f32     %f<4>;
    .reg .b32     %r<6>;
    .reg .b64     %rd<11>;


    ld.param.u64     %rd1, [_Z9addKernelPfS_S_i_param_0];
    ld.param.u64     %rd2, [_Z9addKernelPfS_S_i_param_1];
    ld.param.u64     %rd3, [_Z9addKernelPfS_S_i_param_2];
    ld.param.u32     %r2, [_Z9addKernelPfS_S_i_param_3];
    mov.u32     %r3, %tid.x;
    mov.u32     %r4, %ntid.x;
    mov.u32     %r5, %ctaid.x;
    mad.lo.s32     %r1, %r5, %r4, %r3;
    setp.ge.s32     %p1, %r1, %r2;
    @%p1 bra     $L__BB0_2;

    cvta.to.global.u64     %rd4, %rd1;
    mul.wide.s32     %rd5, %r1, 4;
    add.s64     %rd6, %rd4, %rd5;
    cvta.to.global.u64     %rd7, %rd2;
    add.s64     %rd8, %rd7, %rd5;
    ld.global.f32     %f1, [%rd8];
    ld.global.f32     %f2, [%rd6];
    add.f32     %f3, %f2, %f1;
    cvta.to.global.u64     %rd9, %rd3;
    add.s64     %rd10, %rd9, %rd5;
    st.global.f32     [%rd10], %f3;

$L__BB0_2:
    ret;

}
"#;
    let out = parse(src);
    assert_eq!(out.name, "_Z9addKernelPfS_S_i");
    assert_eq!(out.params.len(), 4);
    assert_eq!(out.raw_instructions.len(), 23);
}
