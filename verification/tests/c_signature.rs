use gisor::c_signature::{is_type_modifier, looks_like_ptx, parse_c_signature, parse_c_type};
use gisor::frontend;
use gisor::parse_error::ParseError;
use gisor::ptx_output::PtxType;

#[test]
fn detects_ptx_vs_c() {
    assert!(looks_like_ptx(".version 9.1\n"));
    assert!(looks_like_ptx("  .entry foo() {}"));
    assert!(looks_like_ptx("// comment\n.entry foo() {}"));
    assert!(!looks_like_ptx("void foo()"));
    assert!(!looks_like_ptx("int main() { return 0; }"));
}

#[test]
fn simple_void_kernel() {
    let k = parse_c_signature("void foo()").unwrap();
    assert_eq!(k.name, "foo");
    assert!(k.params.is_empty());
}

#[test]
fn void_param_list() {
    let k = parse_c_signature("void foo(void)").unwrap();
    assert_eq!(k.name, "foo");
    assert!(k.params.is_empty());
}

#[test]
fn pointer_and_int() {
    let k = parse_c_signature("void addKernel(float* A, float* B, float* C, int N)").unwrap();
    assert_eq!(k.name, "addKernel");
    assert_eq!(k.params.len(), 4);

    assert_eq!(k.params[0].name, "A");
    assert_eq!(k.params[0].ptx_type, PtxType::U64);
    assert_eq!(k.params[3].name, "N");
    assert_eq!(k.params[3].ptx_type, PtxType::S32);
}

#[test]
fn unsigned_int_compound_type() {
    let k = parse_c_signature("void foo(unsigned int x, int y)").unwrap();
    assert_eq!(k.params[0].name, "x");
    assert_eq!(k.params[0].ptx_type, PtxType::U32);
    assert_eq!(k.params[1].name, "y");
    assert_eq!(k.params[1].ptx_type, PtxType::S32);
}

#[test]
fn long_types() {
    let k = parse_c_signature("void foo(long a, unsigned long b, long long c)").unwrap();
    assert_eq!(k.params[0].ptx_type, PtxType::S64);
    assert_eq!(k.params[1].ptx_type, PtxType::U64);
    assert_eq!(k.params[2].ptx_type, PtxType::S64);
}

#[test]
fn stdint_types() {
    let k = parse_c_signature("void foo(int32_t a, uint32_t b, int64_t c, uint64_t d)").unwrap();
    assert_eq!(k.params[0].ptx_type, PtxType::S32);
    assert_eq!(k.params[1].ptx_type, PtxType::U32);
    assert_eq!(k.params[2].ptx_type, PtxType::S64);
    assert_eq!(k.params[3].ptx_type, PtxType::U64);
}

#[test]
fn star_spacing_variants() {
    for src in &["void foo(float* p)", "void foo(float *p)", "void foo(float * p)", "void foo(float*p)"] {
        let k = parse_c_signature(src).unwrap();
        assert_eq!(k.params.len(), 1, "failed on: {src}");
        assert_eq!(k.params[0].ptx_type, PtxType::U64);
        assert_eq!(k.params[0].name, "p");
    }
}

#[test]
fn double_pointer() {
    let k = parse_c_signature("void foo(float** p)").unwrap();
    assert_eq!(k.params[0].ptx_type, PtxType::U64);
}

#[test]
fn unnamed_parameter() {
    let k = parse_c_signature("void foo(float*, int)").unwrap();
    assert_eq!(k.params.len(), 2);
    assert_eq!(k.params[0].name, "");
    assert_eq!(k.params[0].ptx_type, PtxType::U64);
    assert_eq!(k.params[1].name, "");
    assert_eq!(k.params[1].ptx_type, PtxType::S32);
}

#[test]
fn const_qualifier_ignored() {
    let k = parse_c_signature("void foo(const int a, const float* b)").unwrap();
    assert_eq!(k.params[0].ptx_type, PtxType::S32);
    assert_eq!(k.params[1].ptx_type, PtxType::U64);
}

#[test]
fn ptx_detection_skips_block_comments_and_stray_slash() {
    assert!(looks_like_ptx("/* header */\n\t.version 9.1"));
    assert!(!looks_like_ptx("/ .version"));
    assert!(!looks_like_ptx(""));
    assert!(!looks_like_ptx("   \n  "));
    assert!(!looks_like_ptx("/* never closed .version"));
}

#[test]
fn c_type_names() {
    assert_eq!(parse_c_type("unsigned   long long"), Some(PtxType::U64));
    assert_eq!(parse_c_type("const volatile char"), Some(PtxType::S32));
    assert_eq!(parse_c_type("  bool "), Some(PtxType::Pred));
    assert_eq!(parse_c_type("double"), Some(PtxType::F32));
    assert_eq!(parse_c_type("unsigned short int"), Some(PtxType::U32));
    assert_eq!(parse_c_type("struct foo"), None);
    assert_eq!(parse_c_type("xconst int"), None);
    assert!(is_type_modifier("volatile"));
    assert!(!is_type_modifier("float"));
}

#[test]
fn unknown_scalar_type_is_an_error() {
    let err = parse_c_signature("void foo(mystery x)").expect_err("unknown type");
    assert!(matches!(err, ParseError::UnexpectedToken { line: 1, .. }));
}

#[test]
fn comments_newlines_and_lines_in_errors() {
    let k = parse_c_signature("// a kernel\nvoid /* returns nothing */ foo(\n  int a,\n  float *b\n)").unwrap();
    assert_eq!(k.name, "foo");
    assert_eq!(k.params.len(), 2);
    let err = parse_c_signature("void foo(\nint a\nint b)").expect_err("missing comma");
    assert!(matches!(err, ParseError::UnexpectedToken { line: 3, .. }));
}

#[test]
fn signature_keeps_pointee_and_levels() {
    let s = frontend::parse_c_signature("void addKernel(float* A, float* B, float* C, int N)").unwrap();
    assert_eq!(s.name, "addKernel");
    assert_eq!(s.params.len(), 4);
    assert_eq!(s.params[0].name, "A");
    assert_eq!(s.params[0].ptx_type, PtxType::F32);
    assert_eq!(s.params[0].pointer_levels, 1);
    assert_eq!(s.params[3].ptx_type, PtxType::S32);
    assert_eq!(s.params[3].pointer_levels, 0);
}

#[test]
fn demangled_signature_without_return_type() {
    let s = frontend::parse_c_signature("addKernel(float*, float*, float*, int)").unwrap();
    assert_eq!(s.name, "addKernel");
    assert_eq!(s.params.len(), 4);
    assert_eq!(s.params[1].name, "");
    assert_eq!(s.params[1].ptx_type, PtxType::F32);
    assert_eq!(s.params[1].pointer_levels, 1);
    assert_eq!(s.params[3].ptx_type, PtxType::S32);
}

#[test]
fn signature_pointer_to_unknown_type_is_64_bit() {
    let s = frontend::parse_c_signature("void k(void** out, struct_t* in)").unwrap();
    assert_eq!(s.params[0].ptx_type, PtxType::U64);
    assert_eq!(s.params[0].pointer_levels, 2);
    assert_eq!(s.params[1].ptx_type, PtxType::U64);
    assert_eq!(s.params[1].pointer_levels, 1);
    assert!(frontend::parse_c_signature("void k(mystery m)").is_err());
}

#[test]
fn qualifiers_before_the_base_type() {
    let k = parse_c_signature("void foo(volatile const unsigned int n, const float* p)").unwrap();
    assert_eq!(k.params[0].name, "n");
    assert_eq!(k.params[0].ptx_type, PtxType::U32);
    assert_eq!(k.params[1].name, "p");
    assert!(parse_c_signature("void foo(const)").is_err());
}

#[test]
fn reference_parameters_are_rejected() {
    let e = parse_c_signature("void foo(int& x)").unwrap_err();
    assert!(matches!(e, ParseError::UnexpectedToken { .. }));
    assert_eq!(e.message(), "line 1: expected `,` or `)`, found `Amp`");
    assert!(matches!(frontend::parse_c_signature("foo(float&, int)"), Err(ParseError::UnexpectedToken { .. })));
}

#[test]
fn leading_qualifiers_do_not_change_the_type() {
    for t in ["unsigned int", "float", "long long", "bool", "mystery", ""] {
        assert_eq!(parse_c_type(&format!("const {}", t)), parse_c_type(t));
        assert_eq!(parse_c_type(&format!("volatile {}", t)), parse_c_type(t));
    }
}
