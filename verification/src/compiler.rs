//! The front-to-back pipeline: source text to checked syntax tree, and to circuit IR.
use vstd::prelude::*;

use crate::ast::Program;
use crate::error::CompileResult;
use crate::hir;
use crate::ir::{allocated_once, inputs_lowered, ir_lowering_shape, lower, lowered_program, CircuitIr};
use crate::ir::{no_constant_pairs, wire_limit_message, wires_needed};
use crate::lexer::{ident_text, keyword, lexes_to, scan, span_at, Token};
use crate::parser::{parse, program_outcome, program_spelled};
use crate::span::Span;
use crate::trace::writes_in_range;
use crate::typecheck::{checked_state, first_refused, lemma_checked_fails, refusal_message, typecheck, typechecked, validate};

verus! {

/// A typed form of `p` needs at least as many wires as a `usize` can number.
pub open spec fn too_many_wires(p: Program) -> bool {
    exists|h: hir::Program| #[trigger] typechecked(p, h) && wires_needed(h.circuit.items@, h.circuit.items@.len()) >= usize::MAX
}

/// Why reading or compiling `source` fails with `message` at `span`: lexing stops there, the
/// tokens spell no program, or the program they spell is refused by the checker (with the
/// message of its first refused item) or (when `lowering`) needs more wires than can be numbered.
pub open spec fn source_failure(source: Seq<char>, span: Span, message: Seq<char>, lowering: bool) -> bool {
    ||| (scan(source, 0).1 matches Some(f) && message == f.1 && span == span_at(source, f.0))
    ||| exists|ts: Seq<Token>| lexes_to(source, 0, ts) && program_outcome(ts) == Err::<int, (Span, Seq<char>)>((span, message))
    ||| exists|ts: Seq<Token>, p: Program|
        #![trigger program_spelled(ts, p)]
        lexes_to(source, 0, ts) && program_spelled(ts, p) && program_outcome(ts) is Ok && ((exists|n: int|
            #[trigger] first_refused(p.circuit.items@, n) && message == refusal_message(p.circuit.items@, n)) || (lowering && message
            == wire_limit_message() && too_many_wires(p)))
}

} // verus!

verus! {

/// Parses `source` and checks that it typechecks.
pub fn parse_and_validate(source: &str) -> (r: CompileResult<Program>)
    ensures
        r matches Ok(p) ==> {
            &&& ident_text(p.circuit.name@)
            &&& keyword(p.circuit.name@) is None
            &&& forall|n: int| 0 <= n < p.circuit.items@.len()
                ==> !(#[trigger] p.circuit.items@[n] is Include) && !(p.circuit.items@[n] is Import)
            &&& exists|ts: Seq<Token>| lexes_to(source@, 0, ts) && program_spelled(ts, p)
            &&& exists|h: hir::Program| typechecked(p, h)
            &&& checked_state(p.circuit.items@, p.circuit.items@.len()) is Some
        },
        r matches Err(e) ==> source_failure(source@, e.span, e.message@, false),
{
    let program = parse(source)?;
    match validate(&program) {
        Ok(()) => {},
        Err(e) => {
            proof {
                let ts = choose|ts: Seq<Token>| lexes_to(source@, 0, ts) && program_spelled(ts, program) && program_outcome(ts) is Ok;
                assert(lexes_to(source@, 0, ts) && program_spelled(ts, program) && program_outcome(ts) is Ok);
            }
            return Err(e);
        },
    }
    Ok(program)
}

/// Compiles `source` to circuit IR: parse, typecheck, lower.
///
/// The circuit is the lowering of the typed form of the program that the source's tokens
/// spell.
pub fn compile_source(source: &str) -> (r: CompileResult<CircuitIr>)
    ensures
        r matches Ok(ir) ==> ir_lowering_shape(ir) && writes_in_range(ir),
        r matches Ok(ir) ==> exists|p: Program, h: hir::Program|
            #![trigger typechecked(p, h)]
            (exists|ts: Seq<Token>| lexes_to(source@, 0, ts) && program_spelled(ts, p)) && typechecked(p, h) && lowered_program(
                h.circuit.items@,
                ir,
            ) && inputs_lowered(h.circuit.items@, ir),
        r matches Ok(ir) ==> allocated_once(ir) && no_constant_pairs(ir.operations@),
        r matches Err(e) ==> source_failure(source@, e.span, e.message@, true),
{
    let program = parse(source)?;
    let r = compile_program(&program);
    proof {
        if r is Err {
            let ts = choose|ts: Seq<Token>| lexes_to(source@, 0, ts) && program_spelled(ts, program) && program_outcome(ts) is Ok;
            assert(lexes_to(source@, 0, ts) && program_spelled(ts, program) && program_outcome(ts) is Ok);
        }
    }
    r
}

/// Compiles a program whose directives have been resolved: typecheck, lower.
///
/// The circuit is the lowering of a typed program whose items correspond to `program`'s: its
/// outputs hold the values the program exposes and its constraints hold exactly when the
/// program's do (see `lower`).
pub fn compile_program(program: &Program) -> (r: CompileResult<CircuitIr>)
    ensures
        r matches Ok(ir) ==> {
            &&& ir_lowering_shape(ir)
            &&& writes_in_range(ir)
            &&& ir.name@ == program.circuit.name@
            &&& allocated_once(ir)
            &&& no_constant_pairs(ir.operations@)
            &&& exists|h: hir::Program|
                typechecked(*program, h) && lowered_program(h.circuit.items@, ir) && inputs_lowered(h.circuit.items@, ir)
        },
        r is Ok ==> forall|n: int| 0 <= n < program.circuit.items@.len()
            ==> !(#[trigger] program.circuit.items@[n] is Include) && !(program.circuit.items@[n] is Import),
        r is Ok ==> checked_state(program.circuit.items@, program.circuit.items@.len()) is Some,
        r matches Err(e) ==> (exists|n: int| #[trigger] first_refused(program.circuit.items@, n)
            && e.message@ == refusal_message(program.circuit.items@, n)) || (e.message@ == wire_limit_message() && too_many_wires(
            *program,
        )),
        forall|n: int| #[trigger] first_refused(program.circuit.items@, n)
            ==> (r matches Err(e) && e.message@ == refusal_message(program.circuit.items@, n)),
{
    let typed = typecheck(program)?;
    proof {
        assert forall|n: int| #[trigger] first_refused(program.circuit.items@, n) implies false by {
            lemma_checked_fails(program.circuit.items@, (n + 1) as nat, program.circuit.items@.len());
        }
    }
    let ir = match lower(&typed) {
        Ok(ir) => ir,
        Err(e) => {
            assert(typechecked(*program, typed));
            return Err(e);
        },
    };
    proof {
        lemma_lowered_writes_in_range(ir);
        assert(typechecked(*program, typed) && lowered_program(typed.circuit.items@, ir) && inputs_lowered(typed.circuit.items@, ir));
    }
    Ok(ir)
}

/// Every lowered circuit writes each input and each operation result inside its wire table,
/// so it can be executed.
pub proof fn lemma_lowered_writes_in_range(ir: CircuitIr)
    requires
        ir_lowering_shape(ir),
    ensures
        writes_in_range(ir),
{
}

/// Wherever the source text `true` is read as an expression it typechecks to a `bool` whose
/// value is one, and the source text `false` to a `bool` whose value is zero.
pub proof fn lemma_boolean_literal_values(
    s: Seq<char>,
    i: int,
    ts: Seq<Token>,
    k: int,
    e: crate::ast::Expr,
    functions: Seq<crate::typecheck::FunctionSig>,
    scope: Seq<hir::Binding>,
    env: Map<hir::BindingId, nat>,
)
    requires
        lexes_to(s, i, ts),
        0 <= k < scan(s, i).0.len(),
        crate::parser::primary_spelled(ts, k, k + 1, e),
    ensures
        s.subrange(scan(s, i).0[k].0, scan(s, i).0[k].1) == "true"@ ==> (crate::typecheck::elaborated(functions, scope, e) matches Some(
            t,
        ) && t.ty == crate::ast::Type::Bool && hir::expr_value(t, env) == 1),
        s.subrange(scan(s, i).0[k].0, scan(s, i).0[k].1) == "false"@ ==> (crate::typecheck::elaborated(functions, scope, e) matches Some(
            t,
        ) && t.ty == crate::ast::Type::Bool && hir::expr_value(t, env) == 0),
{
    crate::lexer::lemma_boolean_literals_lex(s, i, ts, k);
}

/// In every lexed token stream, a token whose source text is the name of a type is read as that
/// type, and as no other.
pub proof fn lemma_type_names_read_back(s: Seq<char>, i: int, ts: Seq<Token>, k: int, t: crate::ast::Type)
    requires
        lexes_to(s, i, ts),
        0 <= k < scan(s, i).0.len(),
        s.subrange(scan(s, i).0[k].0, scan(s, i).0[k].1) == crate::ast::spelling(t),
    ensures
        crate::parser::type_spelled(ts, k, t),
        forall|t2: crate::ast::Type| crate::parser::type_spelled(ts, k, t2) ==> t2 == t,
{
    reveal_strlit("u8");
    reveal_strlit("u16");
    reveal_strlit("u32");
    crate::lexer::lemma_type_and_visibility_words_lex(s, i, ts, k);
    assert("u8"@.len() == 2 && "u16"@.len() == 3 && "u32"@.len() == 3);
    assert("u16"@[2] != "u32"@[2]);
    assert forall|t2: crate::ast::Type| crate::parser::type_spelled(ts, k, t2) implies t2 == t by {
        assert("u8"@ != "u16"@ && "u8"@ != "u32"@ && "u16"@ != "u32"@);
    }
}

} // verus!
