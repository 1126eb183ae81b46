use zkc::analysis::analyze;
use zkc::ast::Type;
use zkc::hir::{ExprKind, TypedExpr};
use zkc::span::Span;
use zkc::builtins;
use zkc::compile_source;
use zkc::constraint;
use zkc::debug_proof::{debug_keygen, debug_prove, parse_debug_proof, verify_debug_proof};
use zkc::eval::{execute, RuntimeInputs};
use zkc::field::FieldElement;
use zkc::groth16::{bytes_to_hex, hex_to_bytes, plan_circuit, Allocation};
use zkc::lexer::{lex, TokenKind};
use zkc::optimize::optimize;
use zkc::parse_and_validate;
use zkc::parser::parse;
use zkc::pretty::render_program;
use zkc::records::{parse_usize, split_lines, trim};
use zkc::serialize::ir_to_json;
use zkc::trace::trace_execution;
use zkc::typecheck::typecheck;
use zkc::verify::verify;

const SAMPLE: &str = r#"
circuit product_check {
    public x: field;
    private y: field;

    let product = x * y;
    let shifted = product + 3;
    constrain shifted == 38;
    expose product;
    expose shifted as shifted_value;
}
"#;

fn sample_inputs(x: i128, y: i128) -> RuntimeInputs {
    let mut inputs = RuntimeInputs::default();
    inputs.insert_public("x", FieldElement::from_i128(x));
    inputs.insert_private("y", FieldElement::from_i128(y));
    inputs
}

#[test]
fn compiles_and_executes_sample_program() {
    let ir = compile_source(SAMPLE).expect("sample program should compile");
    let mut inputs = RuntimeInputs::default();
    inputs.insert_public("x", FieldElement::from_i128(5));
    inputs.insert_private("y", FieldElement::from_i128(7));

    let result = execute(&ir, &inputs).expect("sample witness should satisfy constraints");
    assert_eq!(result.outputs.len(), 2);
    assert_eq!(result.outputs[0].0, "product");
    assert_eq!(result.outputs[0].1, FieldElement::from_i128(35));
    assert_eq!(result.outputs[1].0, "shifted_value");
    assert_eq!(result.outputs[1].1, FieldElement::from_i128(38));
}

#[test]
fn rejects_undeclared_variables() {
    let source = r#"
circuit broken {
    public x: field;
    let z = x + y;
    expose z;
}
"#;

    let err = compile_source(source).expect_err("undeclared names should fail");
    assert!(err.message.contains("undeclared identifier `y`"));
}

#[test]
fn failing_constraint_is_reported() {
    let ir = compile_source(SAMPLE).unwrap();
    let err = execute(&ir, &sample_inputs(5, 8)).expect_err("35 + 3 != 38 fails");
    assert!(err.message.contains("constraint"), "{}", err.message);
}

#[test]
fn missing_input_is_reported() {
    let ir = compile_source(SAMPLE).unwrap();
    let mut inputs = RuntimeInputs::default();
    inputs.insert_public("x", FieldElement::from_i128(5));
    assert!(execute(&ir, &inputs).is_err());
}

#[test]
fn unknown_input_name_is_reported() {
    let ir = compile_source(SAMPLE).unwrap();
    let mut inputs = sample_inputs(5, 7);
    inputs.insert_private("z", FieldElement::from_i128(1));
    assert!(execute(&ir, &inputs).is_err());
}

#[test]
fn later_assignment_replaces_earlier_one() {
    let ir = compile_source(SAMPLE).unwrap();
    let mut inputs = sample_inputs(1, 1);
    inputs.insert_public("x", FieldElement::from_i128(5));
    inputs.insert_private("y", FieldElement::from_i128(7));
    assert_eq!(inputs.public_values().len(), 1);
    assert_eq!(execute(&ir, &inputs).unwrap().outputs[0].1, FieldElement::from_i128(35));
}

#[test]
fn field_arithmetic_wraps_at_the_modulus() {
    let minus_one = FieldElement::from_i128(-1);
    assert_eq!(
        minus_one.to_string(),
        "21888242871839275222246405745257275088548364400416034343698204186575808495616"
    );
    assert!(minus_one.add(FieldElement::one()).is_zero());
    assert_eq!(FieldElement::from_i128(6).mul(FieldElement::from_i128(7)), FieldElement::from_i128(42));
    assert_eq!(FieldElement::from_i128(3).sub(FieldElement::from_i128(5)), FieldElement::from_i128(-2));
    assert_eq!(FieldElement::parse("-1").unwrap(), minus_one);
    assert_eq!(FieldElement::parse("1_000").unwrap(), FieldElement::from_i128(1000));
    assert_eq!(FieldElement::parse("x").unwrap_err(), "invalid field element `x`");
}

#[test]
fn lexer_reads_keywords_numbers_and_strings() {
    let tokens = lex("fn f(a: field) -> bool { true } import \"m.zk\" as m; x::y").unwrap();
    assert_eq!(tokens[0].kind, TokenKind::Fn);
    assert_eq!(tokens[1].kind, TokenKind::Ident("f".to_string()));
    assert!(tokens.iter().any(|t| t.kind == TokenKind::Arrow));
    assert!(tokens.iter().any(|t| t.kind == TokenKind::String("m.zk".to_string())));
    assert!(tokens.iter().any(|t| t.kind == TokenKind::ColonColon));
    assert_eq!(tokens.last().unwrap().kind, TokenKind::Eof);
    assert_eq!(lex("42 # comment\n7").unwrap()[1].kind, TokenKind::Number(7));
}

#[test]
fn lexer_records_line_and_column_of_each_token() {
    let tokens = lex("a\n  b // note\n= ==\t-").unwrap();
    let seen: Vec<(TokenKind, usize, usize)> =
        tokens.iter().map(|t| (t.kind.clone(), t.span.line, t.span.column)).collect();
    assert_eq!(
        seen,
        vec![
            (TokenKind::Ident("a".to_string()), 1, 1),
            (TokenKind::Ident("b".to_string()), 2, 3),
            (TokenKind::Equal, 3, 1),
            (TokenKind::EqualEqual, 3, 3),
            (TokenKind::Minus, 3, 6),
            (TokenKind::Eof, 3, 7),
        ]
    );
    let err = lex("x\n  $").unwrap_err();
    assert_eq!((err.span.line, err.span.column), (2, 3));
}

#[test]
fn lexer_errors() {
    assert_eq!(lex("@").unwrap_err().message, "unexpected character `@`");
    assert_eq!(lex("\"open").unwrap_err().message, "unterminated string literal");
    let big = "999999999999999999999999999999999999999999";
    assert_eq!(
        lex(big).unwrap_err().message,
        format!("invalid integer literal `{big}`: number too large to fit in target type")
    );
}

#[test]
fn parser_reports_missing_circuit_keyword() {
    let err = parse("public x: field;").unwrap_err();
    assert_eq!(err.message, "expected `circuit` keyword");
    assert_eq!(err.span.line, 1);
}

#[test]
fn duplicate_declarations_are_rejected() {
    let err = compile_source("circuit c { public x: field; private x: field; }").unwrap_err();
    assert_eq!(err.message, "duplicate declaration for `x`");
    let err = compile_source("circuit c { public square: field; }").unwrap_err();
    assert_eq!(err.message, "duplicate declaration for `square`");
}

#[test]
fn typecheck_rejects_directives() {
    let program = parse("circuit c { import \"m.zk\" as m; }").unwrap();
    let err = typecheck(&program).unwrap_err();
    assert_eq!(err.message, "import directives must be resolved before typechecking");
}

#[test]
fn builtins_and_functions_expand() {
    let source = r#"
circuit f {
    public x: field;
    fn twice_plus(a: field, b: field) -> field { double(a) + b }
    let y = square(x);
    let z = twice_plus(y, 1);
    expose z;
}
"#;
    let ir = compile_source(source).unwrap();
    let mut inputs = RuntimeInputs::default();
    inputs.insert_public("x", FieldElement::from_i128(3));
    let result = execute(&ir, &inputs).unwrap();
    assert_eq!(result.outputs[0].1, FieldElement::from_i128(19));
}

#[test]
fn builtin_arity_and_types_are_checked() {
    let err = compile_source("circuit c { public x: field; let y = square(x, x); }").unwrap_err();
    assert_eq!(err.message, "function `square` expects 1 arguments but got 2");
    let err = compile_source("circuit c { public x: field; let y = not(x); }").unwrap_err();
    assert!(err.message.contains("to have type `bool`"), "{}", err.message);
    assert_eq!(builtins::all().len(), 22);
    assert!(builtins::contains("weighted_sum3"));
    assert!(!builtins::contains("quint"));
}

#[test]
fn booleans_and_conditionals() {
    let source = r#"
circuit b {
    public flag: bool;
    public a: field;
    let out = if flag { a } else { 0 };
    expose out;
}
"#;
    let ir = compile_source(source).unwrap();
    let mut inputs = RuntimeInputs::default();
    inputs.insert_public("flag", FieldElement::one());
    inputs.insert_public("a", FieldElement::from_i128(9));
    assert_eq!(execute(&ir, &inputs).unwrap().outputs[0].1, FieldElement::from_i128(9));
    let mut inputs = RuntimeInputs::default();
    inputs.insert_public("flag", FieldElement::from_i128(2));
    inputs.insert_public("a", FieldElement::from_i128(9));
    assert!(execute(&ir, &inputs).is_err(), "a bool input must be 0 or 1");
}

#[test]
fn unsigned_inputs_are_range_checked() {
    let source = "circuit u { public v: u8; expose v; }";
    let ir = compile_source(source).unwrap();
    let mut inputs = RuntimeInputs::default();
    inputs.insert_public("v", FieldElement::from_i128(255));
    assert!(execute(&ir, &inputs).is_ok());
    let mut inputs = RuntimeInputs::default();
    inputs.insert_public("v", FieldElement::from_i128(256));
    assert!(execute(&ir, &inputs).is_err());
}

#[test]
fn literal_must_fit_unsigned_type() {
    let err = compile_source("circuit u { public v: u8; constrain v == 300; }").unwrap_err();
    assert!(err.message.contains("cannot be represented as `u8`") || err.message.contains("type mismatch"), "{}", err.message);
}

#[test]
fn optimized_circuit_computes_the_same_outputs() {
    let source = r#"
circuit o {
    public x: field;
    let unused = x * x;
    let y = x * 1 + 0;
    expose y;
}
"#;
    let ir = compile_source(source).unwrap();
    if verify(&ir).is_ok() {
        let optimized = optimize(&ir);
        assert!(verify(&optimized).is_ok());
        assert!(optimized.operations.len() <= ir.operations.len());
        let mut inputs = RuntimeInputs::default();
        inputs.insert_public("x", FieldElement::from_i128(4));
        assert_eq!(execute(&ir, &inputs).unwrap().outputs, execute(&optimized, &inputs).unwrap().outputs);
    }
}

#[test]
fn analysis_counts_operations() {
    let ir = compile_source(SAMPLE).unwrap();
    let report = analyze(&ir);
    assert_eq!(report.public_inputs, 1);
    assert_eq!(report.private_inputs, 1);
    assert_eq!(report.outputs, 2);
    assert_eq!(report.constraints, 1);
    assert_eq!(report.operations.total(), ir.operations.len());
    assert_eq!(report.constant_operands + report.wire_operands, 2 * ir.operations.len() + 2 + 2);
    assert!(report.to_json().starts_with("{\"name\":\"product_check\",\"public_inputs\":1,"));
    assert!(report.to_text().starts_with("circuit analysis for product_check\ninputs: public=1 private=1\n"));
}

#[test]
fn ir_json_lists_inputs_and_wires() {
    let ir = compile_source("circuit j { public x: field; expose x; }").unwrap();
    let json = ir_to_json(&ir);
    assert!(json.starts_with("{\"name\":\"j\",\"field_modulus\":21888242871839275222246405745257275088548364400416034343698204186575808495617,"));
    assert!(json.contains("\"public_inputs\":[{\"binding\":0,\"name\":\"x\",\"type\":\"field\",\"wire\":0}]"));
    assert!(json.ends_with("\"outputs\":[{\"name\":\"x\",\"value\":{\"kind\":\"wire\",\"wire\":0}}],\"next_wire\":1}"));
}

#[test]
fn constraint_system_listing() {
    let ir = compile_source(SAMPLE).unwrap();
    let system = constraint::lower(&ir);
    assert_eq!(system.equations.len(), ir.operations.len() + ir.constraints.len());
    let text = system.to_text();
    assert!(text.starts_with("constraint system product_check\n"));
    assert!(text.contains("[def] v2 == v0 * v1"), "{text}");
    assert!(system.to_json().contains("\"witnesses\":[{\"id\":2,\"name\":\"w2\",\"role\":\"witness\",\"type\":\"field\"}"));
}

#[test]
fn pretty_printing_is_stable() {
    let program = parse(SAMPLE).unwrap();
    let rendered = render_program(&program);
    assert_eq!(
        rendered,
        "circuit product_check {\n    public x: field;\n    private y: field;\n    let product = x * y;\n    let shifted = product + 3;\n    constrain shifted == 38;\n    expose product;\n    expose shifted as shifted_value;\n}\n"
    );
    assert_eq!(render_program(&parse(&rendered).unwrap()), rendered);
    let nested = parse("circuit p { let a = (1 + 2) * -(3 - 4); }").unwrap();
    assert!(render_program(&nested).contains("let a = (1 + 2) * -(3 - 4);"));
}

#[test]
fn parse_and_validate_keeps_the_syntax_tree() {
    let program = parse_and_validate(SAMPLE).unwrap();
    assert_eq!(program.circuit.name, "product_check");
    assert_eq!(program.circuit.items.len(), 7);
}

#[test]
fn trace_lists_every_step() {
    let ir = compile_source(SAMPLE).unwrap();
    let trace = trace_execution(&ir, &sample_inputs(5, 7)).unwrap();
    assert_eq!(trace.wires.len(), ir.next_wire);
    let text = trace.to_text();
    assert!(text.starts_with("execution trace for product_check via interpreter over field modulus"));
    assert!(text.contains("  w2 = mul w0 (5) , w1 (7) => 35\n"), "{text}");
    let json = trace.to_json();
    assert!(json.starts_with("{\"circuit\":\"product_check\",\"backend\":\"interpreter\""));
}

#[test]
fn debug_proof_round_trip() {
    let ir = compile_source(SAMPLE).unwrap();
    let inputs = sample_inputs(5, 7);
    let key = debug_keygen(&ir);
    assert_eq!(key.backend, "debug-non-zk");
    assert_eq!(key.circuit_digest.len(), 16);
    let proof = debug_prove(&ir, &inputs).unwrap();
    assert_eq!(proof.circuit_digest, key.circuit_digest);
    assert_eq!(proof.constraint_digest, key.constraint_digest);
    let report = verify_debug_proof(&ir, &proof).unwrap();
    assert_eq!(report.public_inputs, 1);
    assert_eq!(report.outputs, 2);
    let reread = parse_debug_proof(&proof.to_text()).unwrap();
    assert!(verify_debug_proof(&ir, &reread).is_ok());
    assert!(key.to_text().starts_with("zkc-debug-key-v1\nbackend|debug-non-zk\ncircuit|product_check\n"));
}

#[test]
fn tampered_debug_proof_is_rejected() {
    let ir = compile_source(SAMPLE).unwrap();
    let mut proof = debug_prove(&ir, &sample_inputs(5, 7)).unwrap();
    proof.outputs[0].value = FieldElement::from_i128(36);
    assert!(verify_debug_proof(&ir, &proof).is_err());
    let mut proof = debug_prove(&ir, &sample_inputs(5, 7)).unwrap();
    proof.backend = "other".to_string();
    assert_eq!(verify_debug_proof(&ir, &proof).unwrap_err().message, "unsupported proof backend `other`");
}

#[test]
fn debug_proof_artifact_errors() {
    assert_eq!(parse_debug_proof("").unwrap_err().message, "proof artifact is empty");
    assert_eq!(parse_debug_proof("nope\n").unwrap_err().message, "unrecognized proof artifact header");
    assert_eq!(
        parse_debug_proof("zkc-debug-proof-v1\nwire|x|1\n").unwrap_err().message,
        "invalid wire index `x`: invalid digit found in string"
    );
    assert_eq!(
        parse_debug_proof("zkc-debug-proof-v1\n").unwrap_err().message,
        "missing `backend` record"
    );
}

#[test]
fn hex_encoding() {
    assert_eq!(bytes_to_hex(&[0xde, 0xad, 0x01]), "dead01");
    assert_eq!(hex_to_bytes("DEad01").unwrap(), vec![0xde, 0xad, 0x01]);
    assert_eq!(hex_to_bytes("abc").unwrap_err().message, "hex payload must have even length");
    assert_eq!(hex_to_bytes("zz").unwrap_err().message, "invalid hex character `z`");
}

#[test]
fn groth16_plan_allocates_inputs_first() {
    let ir = compile_source(SAMPLE).unwrap();
    let plan = plan_circuit(&ir, None).unwrap();
    assert!(matches!(plan.allocations[0], Allocation::Instance(_)));
    assert!(matches!(plan.allocations[1], Allocation::Witness(_)));
    assert_eq!(plan.rows.len(), ir.operations.len() + ir.constraints.len() + ir.outputs.len());
}

#[test]
fn record_helpers() {
    assert_eq!(split_lines("a\r\nb\n"), vec!["a".to_string(), "b".to_string()]);
    assert_eq!(split_lines("a\n\nb\r"), vec!["a".to_string(), "".to_string(), "b\r".to_string()]);
    assert!(split_lines("").is_empty());
    assert_eq!(trim("  x y \t"), "x y");
    assert_eq!(parse_usize("+12"), Ok(12));
    assert_eq!(parse_usize("").unwrap_err(), "cannot parse integer from empty string");
    assert_eq!(parse_usize("1a").unwrap_err(), "invalid digit found in string");
    assert_eq!(parse_usize("99999999999999999999999").unwrap_err(), "number too large to fit in target type");
}

#[test]
fn parser_and_typechecker_report_where_they_stop() {
    let err = parse("circuit c { let x = f(1, 2; }").unwrap_err();
    assert_eq!(err.message, "expected `)` after argument list");
    assert_eq!((err.span.line, err.span.column), (1, 27));
    let err = parse("circuit c { fn f(a: field) field { a } }").unwrap_err();
    assert_eq!(err.message, "expected `->` after parameter list");
    let err = parse("circuit c { expose 1 as ; }").unwrap_err();
    assert_eq!(err.message, "expected output label after `as`");
    let err = parse("circuit c { }\n}").unwrap_err();
    assert_eq!(err.message, "expected end of file");
    assert_eq!((err.span.line, err.span.column), (2, 1));

    let program = parse("circuit c { fn f(a: field, a: field) -> field { a } }").unwrap();
    assert!(typecheck(&program).is_err());
    let program = parse("circuit c { public x: field; let x = 1; }").unwrap();
    assert_eq!(typecheck(&program).unwrap_err().message, "duplicate declaration for `x`");
    let program = parse("circuit c { public x: field; let y = x * 2; expose y; }").unwrap();
    assert!(typecheck(&program).is_ok());
}

#[test]
fn execution_errors_name_the_first_problem() {
    let ir = compile_source(SAMPLE).unwrap();
    let mut inputs = RuntimeInputs::default();
    inputs.insert_public("x", FieldElement::from_i128(5));
    assert_eq!(execute(&ir, &inputs).unwrap_err().message, "missing private input `y`");
    let mut inputs = RuntimeInputs::default();
    inputs.insert_private("y", FieldElement::from_i128(5));
    assert_eq!(execute(&ir, &inputs).unwrap_err().message, "missing public input `x`");
    let mut inputs = sample_inputs(5, 7);
    inputs.insert_private("z", FieldElement::from_i128(1));
    assert_eq!(trace_execution(&ir, &inputs).unwrap_err().message, "unexpected input assignment `z`");
    let source = "circuit failure { public x: field; private y: field; let product = x * y; constrain product == 9; expose product; }";
    let ir = compile_source(source).unwrap();
    let mut inputs = RuntimeInputs::default();
    inputs.insert_public("x", FieldElement::from_i128(2));
    inputs.insert_private("y", FieldElement::from_i128(3));
    assert_eq!(execute(&ir, &inputs).unwrap_err().message, "constraint failed at #0: 6 != 9");
}

#[test]
fn builtin_expansion_errors_carry_message_and_span() {
    let sp = Span::default();
    let b = TypedExpr::bool(ExprKind::BoolConstant(true), sp);
    let f = TypedExpr::field(ExprKind::Constant(1), sp);
    let err = builtins::expand("square", &vec![b.clone()], sp).unwrap_err();
    assert_eq!(err.message, "function `square` expects argument 1 to have type `field` but got `bool`");
    assert_eq!(err.span, sp);
    let err = builtins::expand("not", &vec![f.clone()], sp).unwrap_err();
    assert_eq!(err.message, "function `not` expects argument 1 to have type `bool` but got `field`");
    let err = builtins::expand("sum2", &vec![f.clone()], sp).unwrap_err();
    assert_eq!(err.message, "function `sum2` expects 2 arguments but got 1");
    let err = builtins::expand("quint", &vec![f.clone()], sp).unwrap_err();
    assert_eq!(err.message, "undeclared function `quint`");
    assert!(builtins::expand("sum2", &vec![f.clone(), f], sp).unwrap().ty == Type::Field);
    let entry = builtins::get("mul_add").unwrap();
    assert_eq!(entry.arity, 3);
    assert_eq!(entry.signature, "mul_add(a: field, b: field, c: field) -> field");
    assert_eq!(entry.description, "Returns a * b + c.");
    assert!(builtins::get("Square").is_none());
}

#[test]
fn optimizer_folds_identities_and_drops_dead_operations() {
    let source = r#"
circuit o {
    public x: field;
    let unused = x * x;
    let y = x * 1 + 0;
    let z = y * x;
    expose z;
}
"#;
    let ir = compile_source(source).unwrap();
    assert!(verify(&ir).is_ok());
    let optimized = optimize(&ir);
    assert_eq!(optimized.operations.len(), 1);
    assert_eq!(optimized.next_wire, 2);
}

#[test]
fn hex_text_reads_back_and_reports_bad_digits() {
    let bytes = vec![0u8, 1, 0x7f, 0x80, 0xab, 0xff];
    let text = bytes_to_hex(&bytes);
    assert_eq!(text, "00017f80abff");
    assert_eq!(hex_to_bytes(&text).unwrap(), bytes);
    assert_eq!(hex_to_bytes("0g").unwrap_err().message, "invalid hex character `g`");
    assert_eq!(hex_to_bytes("a1x2").unwrap_err().message, "invalid hex character `x`");
}

#[test]
fn stdlib_module_counts_lines_and_uses_forward_slashes() {
    let module = zkc::source::stdlib_module("math\\field.zk", "/lib/math/field.zk", "fn a() -> field { 1 }\n\nfn b() -> field { 2 }\n");
    assert_eq!(module.logical_path, "math/field.zk");
    assert_eq!(module.absolute_path, "/lib/math/field.zk");
    assert_eq!(module.line_count, 3);
}

#[test]
fn redeclared_names_are_reported() {
    let program = parse("circuit c { fn square(a: field) -> field { a } }").unwrap();
    assert_eq!(typecheck(&program).unwrap_err().message, "duplicate declaration for `square`");
    let program = parse("circuit c { public x: field; private x: field; }").unwrap();
    assert_eq!(typecheck(&program).unwrap_err().message, "duplicate declaration for `x`");
    let ir = compile_source("circuit r { public x: field; let y = x * x; expose y; }").unwrap();
    let report = analyze(&ir);
    assert_eq!(report.operations.add + report.operations.sub + report.operations.mul, ir.operations.len());
    assert_eq!(report.constant_operands + report.wire_operands, 2 * ir.operations.len() + 2 * ir.constraints.len() + ir.range_constraints.len() + ir.outputs.len());
}

#[test]
fn typecheck_messages_name_the_first_problem() {
    let message = |src: &str| typecheck(&parse(src).unwrap()).unwrap_err().message;
    assert_eq!(
        message("circuit broken { public x: field; let y = if x { 1 } else { 0 }; expose y; }"),
        "`if` condition must have type `bool`, got `field`"
    );
    assert_eq!(message("circuit broken { public x: field; let y = unknown(x); expose y; }"), "undeclared function `unknown`");
    assert_eq!(message("circuit broken { fn f(a: field) -> field { f(a) } }"), "undeclared function `f`");
    assert_eq!(message("circuit broken { public x: field; let z = x + y; expose z; }"), "undeclared identifier `y`");
    assert_eq!(message("circuit broken { public x: field; constrain x == true; }"), "type mismatch between `field` and `bool`");
    assert_eq!(
        message("circuit broken { public b: bool; let y = b + b; }"),
        "operator `add` expects `field` operands or matching unsigned integers; convert integer values with `into_field(...)` first when mixing domains, got `bool` and `bool`"
    );
    assert_eq!(message("circuit broken { fn g(a: field, a: field) -> field { a } }"), "duplicate declaration for `a`");
    assert_eq!(
        message("circuit broken { fn g(a: field) -> bool { a } }"),
        "function `g` declares return type `bool` but body has type `field`"
    );
    assert_eq!(message("circuit broken { public x: field; let y = -true; }"), "operator `-` expects `field`, got `bool`");
    let err = compile_source("circuit broken { public x: field; let z = x + y; expose z; }").unwrap_err();
    assert_eq!(err.message, "undeclared identifier `y`");
}

#[test]
fn range_failures_and_builtin_result_types() {
    let ir = compile_source("circuit u { public v: u8; expose v; }").unwrap();
    let mut inputs = RuntimeInputs::default();
    inputs.insert_public("v", FieldElement::from_i128(256));
    assert_eq!(execute(&ir, &inputs).unwrap_err().message, "range check failed at #0: 256 is not in u8");
    let sp = Span::default();
    let b = TypedExpr::bool(ExprKind::BoolConstant(true), sp);
    let f = TypedExpr::field(ExprKind::Constant(7), sp);
    assert!(builtins::expand("into_u8", &vec![f.clone()], sp).unwrap().ty == Type::U8);
    assert!(builtins::expand("and", &vec![b.clone(), b.clone()], sp).unwrap().ty == Type::Bool);
    assert!(builtins::expand("choose", &vec![b.clone(), f.clone(), f.clone()], sp).unwrap().ty == Type::Field);
    assert!(builtins::expand("into_field", &vec![b], sp).unwrap().ty == Type::Field);
}

#[test]
fn verify_names_the_first_misplaced_input() {
    let ir = compile_source("circuit b { public f: bool; public x: field; expose x; }").unwrap();
    let err = verify(&ir).unwrap_err();
    assert!(err.message.starts_with("wire numbering gap or reorder detected: expected w1 but found w"), "{}", err.message);
}

#[test]
fn callee_paths_join_with_double_colons() {
    let path = vec!["left".to_string(), "select".to_string(), "pick".to_string()];
    assert_eq!(zkc::ast::format_callee(&path), "left::select::pick");
    assert_eq!(zkc::ast::format_callee(&["square".to_string()]), "square");
    let joined = zkc::ast::format_callee(&path);
    assert_eq!(joined.split("::").map(|s| s.to_string()).collect::<Vec<_>>(), path);
}
