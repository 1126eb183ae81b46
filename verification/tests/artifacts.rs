use zkc::compile_source;
use zkc::debug_proof::{debug_prove, parse_debug_proof, verify_debug_proof};
use zkc::eval::{execute, parse_assignment, RuntimeInputs};
use zkc::field::FieldElement;
use zkc::groth16::{
    bundle_from_trace, parse_groth16_proof_bundle, prepare_verification, verification_report, verify_groth16,
};
use zkc::optimize::optimize;
use zkc::source::{
    annotate_error, render_namespace_hint, DependencyKind, Resolver, StdlibCatalog, StdlibModule,
    Visit,
};
use zkc::error::CompileError;
use zkc::span::Span;
use zkc::trace::trace_execution;
use zkc::verify::verify;

const SAMPLE: &str = r#"
circuit product_check {
    public x: field;
    private y: field;

    let product = x * y;
    let shifted = product + 3;
    constrain shifted == 38;
    expose product;
    expose shifted as shifted_value;
}
"#;

fn inputs(x: i128, y: i128) -> RuntimeInputs {
    let mut inputs = RuntimeInputs::new();
    inputs.insert_public("x", FieldElement::from_i128(x));
    inputs.insert_private("y", FieldElement::from_i128(y));
    inputs
}

#[test]
fn optimization_keeps_accepting_and_rejecting_the_same_inputs() {
    let source = r#"
circuit folded {
    public x: field;
    private y: field;
    let zero = y - y;
    let same = x * 1 + zero;
    let dead = x * y * 9;
    constrain same + 0 == 6;
    expose same * y as scaled;
}
"#;
    let ir = compile_source(source).unwrap();
    assert!(verify(&ir).is_ok());
    let optimized = optimize(&ir);
    assert!(verify(&optimized).is_ok());
    assert!(optimized.operations.len() < ir.operations.len());
    for (x, y) in [(6, 2), (6, 5), (7, 2), (0, 0)] {
        let assignment = inputs(x, y);
        assignment.lemma_values_canonical();
        let before = execute(&ir, &assignment);
        let after = execute(&optimized, &assignment);
        assert_eq!(before.is_ok(), after.is_ok());
        if let (Ok(before), Ok(after)) = (before, after) {
            assert_eq!(before.outputs, after.outputs);
            assert_eq!(after.outputs[0].1, FieldElement::from_i128(6 * y));
        }
    }
}

#[test]
fn proof_text_reads_back_to_an_accepted_proof() {
    let ir = compile_source(SAMPLE).unwrap();
    let proof = debug_prove(&ir, &inputs(5, 7)).unwrap();
    let text = proof.to_text();
    assert!(text.starts_with("zkc-debug-proof-v1\nbackend|debug-non-zk\ncircuit|product_check\n"));
    let reread = parse_debug_proof(&text).unwrap();
    assert_eq!(reread, proof);
    let report = verify_debug_proof(&ir, &reread).unwrap();
    assert_eq!(report.private_inputs, 1);
    assert_eq!(report.wires, ir.next_wire);
}

#[test]
fn proof_records_later_single_record_wins_and_blank_lines_are_skipped() {
    let text = "zkc-debug-proof-v1\nbackend|a\n\n   \nbackend|b\ncircuit|c\ncircuit_digest|d\nconstraint_digest|e\ntrace_digest|f\npublic|x|-1\nwire|3|4\n";
    let proof = parse_debug_proof(text).unwrap();
    assert_eq!(proof.backend, "b");
    assert_eq!(proof.circuit, "c");
    assert_eq!(proof.trace_digest, "f");
    assert_eq!(proof.public_inputs.len(), 1);
    assert_eq!(proof.public_inputs[0].value, FieldElement::from_i128(-1));
    assert_eq!(proof.wires[0].wire, 3);
    assert!(proof.private_inputs.is_empty());
}

#[test]
fn proof_records_report_the_first_bad_line() {
    assert_eq!(
        parse_debug_proof("zkc-debug-proof-v1\nbackend|a|b\npublic|x|zz\n").unwrap_err().message,
        "malformed proof artifact line `backend|a|b`"
    );
    assert_eq!(
        parse_debug_proof("zkc-debug-proof-v1\npublic|x|zz\nbackend|a|b\n").unwrap_err().message,
        "invalid field element `zz`"
    );
    assert_eq!(
        parse_debug_proof("zkc-debug-proof-v1\nbackend|a\ncircuit|c\n").unwrap_err().message,
        "missing `circuit_digest` record"
    );
}

#[test]
fn groth16_bundle_records() {
    let ir = compile_source(SAMPLE).unwrap();
    let trace = trace_execution(&ir, &inputs(5, 7)).unwrap();
    let bundle = bundle_from_trace(&ir, trace, &[0xab, 0x01]);
    assert_eq!(bundle.proof_hex, "ab01");
    let reread = parse_groth16_proof_bundle(&bundle.to_text()).unwrap();
    assert_eq!(reread, bundle);
    let statement = prepare_verification(&ir, &reread).unwrap();
    assert_eq!(statement.proof_bytes, vec![0xab, 0x01]);
    assert_eq!(
        statement.public_values,
        vec![FieldElement::from_i128(5), FieldElement::from_i128(35), FieldElement::from_i128(38)]
    );
    let report = verification_report(&reread);
    assert_eq!(report.public_outputs, 2);

    assert_eq!(
        parse_groth16_proof_bundle("zkc-groth16-proof-v1\nbackend|x\ncircuit|y\n").unwrap_err().message,
        "missing `proof` record"
    );
    assert_eq!(
        parse_groth16_proof_bundle("zkc-groth16-proof-v1\nwire|1|2\n").unwrap_err().message,
        "malformed groth16 proof artifact line `wire|1|2`"
    );
    assert_eq!(
        parse_groth16_proof_bundle("zkc-debug-proof-v1\n").unwrap_err().message,
        "unrecognized groth16 proof artifact header"
    );
}

#[test]
fn groth16_statement_checks() {
    let ir = compile_source(SAMPLE).unwrap();
    let trace = trace_execution(&ir, &inputs(5, 7)).unwrap();
    let mut bundle = bundle_from_trace(&ir, trace, &[1]);
    bundle.circuit = "other".to_string();
    assert_eq!(
        prepare_verification(&ir, &bundle).unwrap_err().message,
        "proof targets circuit `other` but expected `product_check`"
    );
    bundle.circuit = "product_check".to_string();
    bundle.public_outputs.pop();
    assert_eq!(
        prepare_verification(&ir, &bundle).unwrap_err().message,
        "proof has 1 public outputs but circuit expects 2"
    );
    let trace = trace_execution(&ir, &inputs(5, 7)).unwrap();
    let mut bundle = bundle_from_trace(&ir, trace, &[1]);
    bundle.proof_hex = "0".to_string();
    assert_eq!(
        prepare_verification(&ir, &bundle).unwrap_err().message,
        "hex payload must have even length"
    );
}

#[test]
fn resolver_skips_repeats_and_rejects_cycles() {
    let span = Span::new(1, 1);
    let mut resolver = Resolver::new("main.zk");
    let none: Vec<String> = Vec::new();
    match resolver.enter("main.zk", DependencyKind::Include, "lib.zk", &none, "", false, span).unwrap() {
        Visit::Expand { namespace, module_mode } => {
            assert!(namespace.is_empty());
            assert!(!module_mode);
        }
        Visit::Skip => panic!("first include must expand"),
    }
    let err = resolver
        .enter("lib.zk", DependencyKind::Include, "main.zk", &none, "", false, span)
        .unwrap_err();
    assert_eq!(err.message, "circular include detected: main.zk -> lib.zk -> main.zk");
    resolver.leave();
    assert!(matches!(
        resolver.enter("main.zk", DependencyKind::Include, "lib.zk", &none, "", false, span).unwrap(),
        Visit::Skip
    ));
    match resolver.enter("main.zk", DependencyKind::Import, "lib.zk", &none, "m", false, span).unwrap() {
        Visit::Expand { namespace, module_mode } => {
            assert_eq!(namespace, vec!["m".to_string()]);
            assert!(module_mode);
        }
        Visit::Skip => panic!("an import under a new namespace must expand"),
    }
    resolver.leave();
    let graph = resolver.graph("main.zk");
    assert_eq!(graph.nodes, vec!["main.zk".to_string(), "lib.zk".to_string()]);
    assert_eq!(graph.edges.len(), 4);
    assert!(graph.to_text().contains("  main.zk -> lib.zk [import, namespace=m]\n"));
    assert_eq!(render_namespace_hint(""), "");
    let annotated = annotate_error(CompileError::new(span, "bad".to_string()), "lib.zk");
    assert_eq!(annotated.message, "bad in `lib.zk`");
}

#[test]
fn stdlib_catalog_is_sorted_with_a_line_total() {
    let module = |name: &str, lines: usize| StdlibModule {
        logical_path: name.to_string(),
        absolute_path: format!("/std/{name}"),
        line_count: lines,
    };
    let catalog = StdlibCatalog::new("/std", vec![module("b.zk", 2), module("a/x.zk", 3), module("a.zk", 1)]);
    let order: Vec<&str> = catalog.modules.iter().map(|m| m.logical_path.as_str()).collect();
    assert_eq!(order, vec!["a.zk", "a/x.zk", "b.zk"]);
    assert_eq!(catalog.total_lines, 6);
    assert!(catalog.to_text().starts_with("stdlib catalog at /std\nmodules: 3 (6 lines)\n"));
    assert!(catalog.to_json().contains("\"total_modules\":3,\"total_lines\":6"));
}

fn combination_value(
    terms: &[(FieldElement, zkc::groth16::Term)],
    values: &[FieldElement],
) -> FieldElement {
    let mut total = FieldElement::zero();
    for (coefficient, term) in terms {
        let value = match term {
            zkc::groth16::Term::One => FieldElement::one(),
            zkc::groth16::Term::Var(k) => values[*k],
        };
        total = total.add(coefficient.mul(value));
    }
    total
}

#[test]
fn trace_values_satisfy_every_planned_row() {
    let source = r#"
circuit bytes {
    public x: u8;
    private y: u8;
    private z: field;

    let sum = x + y;
    let scaled = z * 3 - 1;
    constrain scaled == 20;
    expose sum;
    expose scaled as scaled_value;
}
"#;
    let ir = compile_source(source).unwrap();
    verify(&ir).unwrap();
    let mut inputs = RuntimeInputs::new();
    inputs.insert_public("x", FieldElement::from_i128(100));
    inputs.insert_private("y", FieldElement::from_i128(27));
    inputs.insert_private("z", FieldElement::from_i128(7));
    let trace = trace_execution(&ir, &inputs).unwrap();
    let assignments = zkc::groth16::Groth16Assignments::from_trace(&trace);
    let plan = zkc::groth16::plan_circuit(&ir, Some(&assignments)).unwrap();
    let values: Vec<FieldElement> = plan
        .allocations
        .iter()
        .map(|allocation| match allocation {
            zkc::groth16::Allocation::Instance(v) => *v,
            zkc::groth16::Allocation::Witness(v) => *v,
        })
        .collect();
    assert!(!ir.range_constraints.is_empty());
    assert!(plan.rows.len() > ir.operations.len() + ir.constraints.len() + ir.outputs.len());
    for row in &plan.rows {
        let a = combination_value(&row.a, &values);
        let b = combination_value(&row.b, &values);
        let c = combination_value(&row.c, &values);
        assert!(a.mul(b).equals(&c));
    }
    let instances: Vec<FieldElement> = plan
        .allocations
        .iter()
        .filter_map(|allocation| match allocation {
            zkc::groth16::Allocation::Instance(v) => Some(*v),
            zkc::groth16::Allocation::Witness(_) => None,
        })
        .collect();
    assert_eq!(
        instances,
        vec![FieldElement::from_i128(100), FieldElement::from_i128(127), FieldElement::from_i128(20)]
    );

    // without assignments every value is zero, and the bit rows still hold
    let blank = zkc::groth16::plan_circuit(&ir, None).unwrap();
    assert_eq!(blank.rows.len(), plan.rows.len());
    assert_eq!(blank.allocations.len(), plan.allocations.len());
}

#[test]
fn lowered_circuit_follows_boolean_and_conditional_semantics() {
    let source = r#"
circuit logic {
    public a: bool;
    public b: bool;
    private x: field;

    let picked = if and(a, b) { x * 2 } else { x + 1 };
    expose picked;
    expose if or(a, b) { 1 } else { 0 } as any;
    expose if xor(a, b) { 1 } else { 0 } as differ;
    expose if not(a) { 7 } else { 9 } as flipped;
}
"#;
    let ir = compile_source(source).unwrap();
    let cases = [(false, false), (false, true), (true, false), (true, true)];
    for (a, b) in cases {
        let mut inputs = RuntimeInputs::new();
        inputs.insert_public("a", FieldElement::from_i128(a as i128));
        inputs.insert_public("b", FieldElement::from_i128(b as i128));
        inputs.insert_private("x", FieldElement::from_i128(10));
        let trace = trace_execution(&ir, &inputs).unwrap();
        let values: Vec<FieldElement> = trace.outputs.iter().map(|o| o.value).collect();
        let expected = [
            if a && b { 20 } else { 11 },
            (a || b) as i128,
            (a != b) as i128,
            if !a { 7 } else { 9 },
        ];
        let expected: Vec<FieldElement> = expected.iter().map(|v| FieldElement::from_i128(*v)).collect();
        assert_eq!(values, expected);
    }
    // a boolean input outside zero and one breaks its booleanity constraint
    let mut inputs = RuntimeInputs::new();
    inputs.insert_public("a", FieldElement::from_i128(2));
    inputs.insert_public("b", FieldElement::from_i128(0));
    inputs.insert_private("x", FieldElement::from_i128(10));
    assert!(trace_execution(&ir, &inputs).is_err());
}

#[test]
fn witness_assignments_accept_boolean_aliases() {
    assert_eq!(parse_assignment("x=5").unwrap(), ("x".to_string(), FieldElement::from_i128(5)));
    assert_eq!(parse_assignment("flag=true").unwrap(), ("flag".to_string(), FieldElement::from_i128(1)));
    assert_eq!(parse_assignment("flag=false").unwrap(), ("flag".to_string(), FieldElement::from_i128(0)));
    assert_eq!(parse_assignment("y=-1").unwrap().1, FieldElement::from_i128(-1));
    assert_eq!(parse_assignment("x").unwrap_err(), "expected NAME=VALUE assignment, got `x`");
    assert_eq!(parse_assignment("=3").unwrap_err(), "missing input name in `=3`");
    assert_eq!(parse_assignment("x=a=b").unwrap_err(), "invalid field element `a=b`");
}

#[test]
fn groth16_key_is_read_before_the_proof_text() {
    let ir = compile_source(SAMPLE).unwrap();
    let trace = trace_execution(&ir, &inputs(5, 7)).unwrap();
    let mut bundle = bundle_from_trace(&ir, trace, &[1]);
    bundle.proof_hex = "zz".to_string();
    let err = verify_groth16(&ir, &[1, 2, 3], &bundle).unwrap_err();
    assert!(err.message.starts_with("failed to deserialize verification key: "), "{}", err.message);
}
