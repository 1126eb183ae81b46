//! Name resolution and type checking: turns the syntax tree into the typed IR.
//!
//! Inputs and `let` statements introduce bindings, user functions are checked once and
//! instantiated at every call by substituting the arguments for their parameters, and builtin
//! calls are expanded. Unsigned integer contexts accept numeric literals that fit.
use vstd::prelude::*;

use crate::ast::{self, format_callee, type_is_uint, Expr, Item, Program, Statement, Type};
use crate::builtins;
use crate::error::{CompileError, CompileResult};
use crate::eval::eq_str;
use crate::hir::{self, refs_bound, well_typed, Binding, BindingId, ExprKind, TypedExpr};
use crate::ir::{bound_after, item_scoped, program_scoped, refs_within};
use crate::span::Span;
use crate::text::{push_decimal, push_signed_decimal, push_str, to_owned};

verus! {

/// The largest value of an unsigned type (0 for the other types).
pub open spec fn uint_max(t: Type) -> int {
    match t {
        Type::U8 => 255,
        Type::U16 => 65535,
        Type::U32 => 4294967295,
        _ => 0,
    }
}

/// A numeric literal can be given the unsigned type `target`.
pub open spec fn literal_fits(value: i128, target: Type) -> bool {
    0 <= value <= uint_max(target)
}

/// What `e` becomes when it is needed at type `target`: itself when it already has that type,
/// a retyped literal when it is a `field` literal that fits the unsigned `target`, else nothing.
pub open spec fn coerce_result(e: TypedExpr, target: Type) -> Option<TypedExpr> {
    if e.ty == target {
        Some(e)
    } else {
        match e.kind {
            ExprKind::Constant(v) => if type_is_uint(target) && e.ty == Type::Field && literal_fits(v, target) {
                Some(TypedExpr { kind: ExprKind::Constant(v), ty: target, span: e.span })
            } else {
                None
            },
            _ => None,
        }
    }
}

/// Two operands brought to one type: a side is coerced to the other side's unsigned type.
pub open spec fn comparable_result(l: TypedExpr, r: TypedExpr) -> Option<(TypedExpr, TypedExpr)> {
    if l.ty == r.ty {
        Some((l, r))
    } else if type_is_uint(r.ty) && coerce_result(l, r.ty) is Some {
        Some((coerce_result(l, r.ty)->0, r))
    } else if type_is_uint(l.ty) && coerce_result(r, l.ty) is Some {
        Some((l, coerce_result(r, l.ty)->0))
    } else {
        None
    }
}

/// Two arithmetic operands brought to one type, which must be `field` or unsigned.
pub open spec fn arithmetic_result(l: TypedExpr, r: TypedExpr) -> Option<(TypedExpr, TypedExpr)> {
    match comparable_result(l, r) {
        Some(pair) => if pair.0.ty == Type::Field || type_is_uint(pair.0.ty) {
            Some(pair)
        } else {
            None
        },
        None => None,
    }
}

pub open spec fn duplicate_message(name: Seq<char>) -> Seq<char> {
    "duplicate declaration for `"@ + name + "`"@
}

pub open spec fn undeclared_identifier_message(name: Seq<char>) -> Seq<char> {
    "undeclared identifier `"@ + name + "`"@
}

/// `name` is already used by a binding, a user function or a builtin.
pub open spec fn name_taken(symbols: Seq<Binding>, functions: Seq<FunctionSig>, name: Seq<char>) -> bool {
    ||| exists|i: int| 0 <= i < symbols.len() && #[trigger] symbols[i].name@ == name
    ||| exists|i: int| 0 <= i < functions.len() && #[trigger] functions[i].0 == name
    ||| builtins::is_builtin(name)
}

pub open spec fn ids_distinct(params: Seq<Binding>) -> bool {
    forall|i: int, j: int| 0 <= i < j < params.len() ==> #[trigger] params[i].id != #[trigger] params[j].id
}

/// A checked user function: its body is well typed, has the declared return type and refers
/// only to its parameters, whose ids are pairwise different.
pub open spec fn function_wf(f: hir::FunctionDecl) -> bool {
    &&& well_typed(f.body)
    &&& f.body.ty == f.return_type
    &&& refs_bound(f.body, f.params@)
    &&& ids_distinct(f.params@)
}

pub open spec fn statement_typed(s: hir::Statement) -> bool {
    match s {
        hir::Statement::Let(l) => well_typed(l.expr) && l.binding.ty == l.expr.ty,
        hir::Statement::Constrain(c) => well_typed(c.lhs) && well_typed(c.rhs) && c.lhs.ty == c.rhs.ty,
        hir::Statement::Expose(e) => well_typed(e.expr),
    }
}

pub open spec fn statement_refs(s: hir::Statement, scope: Seq<Binding>) -> bool {
    match s {
        hir::Statement::Let(l) => refs_bound(l.expr, scope),
        hir::Statement::Constrain(c) => refs_bound(c.lhs, scope) && refs_bound(c.rhs, scope),
        hir::Statement::Expose(e) => refs_bound(e.expr, scope),
    }
}

pub open spec fn item_typed(item: hir::Item) -> bool {
    match item {
        hir::Item::Input(_) => true,
        hir::Item::Function(f) => function_wf(f),
        hir::Item::Statement(s) => statement_typed(s),
    }
}

/// Every statement and function of a typed program is well typed.
pub open spec fn program_typed(program: hir::Program) -> bool {
    forall|n: int| 0 <= n < program.circuit.items@.len() ==> item_typed(#[trigger] program.circuit.items@[n])
}

/// A typed item is the image of a source item: same kind, same declared names, types and
/// visibility.
pub open spec fn corresponds(a: ast::Item, h: hir::Item) -> bool {
    match a {
        ast::Item::Include(_) => false,
        ast::Item::Import(_) => false,
        ast::Item::Input(i) => h matches hir::Item::Input(hi) && hi.binding.name@ == i.name@
            && hi.binding.ty == i.ty && hi.visibility == i.visibility,
        ast::Item::Function(f) => h matches hir::Item::Function(hf) && hf.name@ == f.name@
            && hf.return_type == f.return_type && hf.params@.len() == f.params@.len(),
        ast::Item::Statement(Statement::Let(l)) => h matches hir::Item::Statement(hir::Statement::Let(hl))
            && hl.binding.name@ == l.name@,
        ast::Item::Statement(Statement::Constrain(_)) => h matches hir::Item::Statement(hir::Statement::Constrain(_)),
        ast::Item::Statement(Statement::Expose(_)) => h matches hir::Item::Statement(hir::Statement::Expose(_)),
    }
}

/// `h` is a typed, scoped program whose items correspond one for one to those of `program`.
pub open spec fn typechecked(program: Program, h: hir::Program) -> bool {
    &&& program_scoped(h)
    &&& program_typed(h)
    &&& h.circuit.name@ == program.circuit.name@
    &&& h.circuit.items@.len() == program.circuit.items@.len()
    &&& forall|n: int| 0 <= n < h.circuit.items@.len() ==> corresponds(program.circuit.items@[n], #[trigger] h.circuit.items@[n])
    &&& forall|n: int|
        0 <= n < h.circuit.items@.len() ==> item_elaborated(
            program.circuit.items@[n],
            #[trigger] h.circuit.items@[n],
            scope_after(h.circuit.items@, n as nat),
            sigs(functions_after(h.circuit.items@, n as nat)),
        )
}

/// The bindings in scope after the first `n` items: those of the inputs and `let`s, in order.
pub open spec fn scope_after(items: Seq<hir::Item>, n: nat) -> Seq<Binding>
    decreases n,
{
    if n == 0 {
        Seq::empty()
    } else {
        let before = scope_after(items, (n - 1) as nat);
        match items[n - 1] {
            hir::Item::Input(d) => before.push(d.binding),
            hir::Item::Statement(hir::Statement::Let(l)) => before.push(l.binding),
            _ => before,
        }
    }
}

/// The user functions declared by the first `n` items, in order.
pub open spec fn functions_after(items: Seq<hir::Item>, n: nat) -> Seq<hir::FunctionDecl>
    decreases n,
{
    if n == 0 {
        Seq::empty()
    } else {
        let before = functions_after(items, (n - 1) as nat);
        match items[n - 1] {
            hir::Item::Function(f) => before.push(f),
            _ => before,
        }
    }
}

/// The expressions of `h` are those of `a`, elaborated with `scope` in view and the user
/// functions `functions`: a function's body over its parameters and brought to its result type,
/// a `let` or `expose` expression as it is, and the sides of a `constrain` brought to one type.
pub open spec fn item_elaborated(a: ast::Item, h: hir::Item, scope: Seq<Binding>, functions: Seq<FunctionSig>) -> bool {
    match (a, h) {
        (ast::Item::Function(f), hir::Item::Function(hf)) => elaborated(functions, hf.params@, f.body) matches Some(body) && coerce_result(
            body,
            f.return_type,
        ) == Some(hf.body),
        (ast::Item::Statement(Statement::Let(l)), hir::Item::Statement(hir::Statement::Let(hl))) => elaborated(functions, scope, l.expr) == Some(
            hl.expr,
        ),
        (ast::Item::Statement(Statement::Constrain(c)), hir::Item::Statement(hir::Statement::Constrain(hc))) => elaborated(
            functions,
            scope,
            c.lhs,
        ) matches Some(x) && elaborated(functions, scope, c.rhs) matches Some(y) && comparable_result(x, y) == Some((hc.lhs, hc.rhs)),
        (ast::Item::Statement(Statement::Expose(x)), hir::Item::Statement(hir::Statement::Expose(hx))) => elaborated(
            functions,
            scope,
            x.expr,
        ) == Some(hx.expr) && hx.label == x.label,
        _ => true,
    }
}

/// The bindings of a function's parameters, numbered from `next`.
pub open spec fn param_bindings(f: ast::FunctionDecl, next: nat) -> Seq<Binding> {
    Seq::new(
        f.params@.len(),
        |k: int| Binding { id: (next + k) as usize, name: f.params@[k].name, ty: f.params@[k].ty, span: f.params@[k].span },
    )
}

/// No two parameters share a name.
pub open spec fn params_distinct(f: ast::FunctionDecl) -> bool {
    forall|i: int, j: int| 0 <= i < j < f.params@.len() ==> (#[trigger] f.params@[i]).name@ != (#[trigger] f.params@[j]).name@
}

/// A function declaration typechecks with the user functions `functions` and binding numbers
/// from `next`: its parameters have distinct names and numbers to spare, and its body has a
/// typed form that can be brought to the declared result type.
pub open spec fn function_accepted(f: ast::FunctionDecl, functions: Seq<FunctionSig>, next: nat) -> bool {
    &&& params_distinct(f)
    &&& next + f.params@.len() <= usize::MAX
    &&& elaborated(functions, param_bindings(f, next), f.body) matches Some(body)
    &&& coerce_result(body, f.return_type) is Some
}

/// What typechecking records of an accepted function declaration.
pub open spec fn function_sig(f: ast::FunctionDecl, functions: Seq<FunctionSig>, next: nat) -> FunctionSig {
    (
        f.name@,
        param_bindings(f, next),
        f.return_type,
        coerce_result(elaborated(functions, param_bindings(f, next), f.body)->0, f.return_type)->0,
    )
}

/// A statement typechecks with `symbols` in scope: its expressions have typed forms, a `let`
/// introduces a fresh name with a number to spare, and the sides of a `constrain` can be
/// brought to one type.
pub open spec fn statement_accepted(st: Statement, functions: Seq<FunctionSig>, symbols: Seq<Binding>, next: nat) -> bool {
    match st {
        Statement::Let(l) => elaborated(functions, symbols, l.expr) is Some && !name_taken(symbols, functions, l.name@) && next
            < usize::MAX,
        Statement::Constrain(c) => elaborated(functions, symbols, c.lhs) matches Some(x) && elaborated(functions, symbols, c.rhs) matches Some(
            y,
        ) && comparable_result(x, y) matches Some(pair) && pair.0.ty == pair.1.ty,
        Statement::Expose(x) => elaborated(functions, symbols, x.expr) is Some,
    }
}

/// The state of typechecking after `item`, from the state `state` (the bindings in scope, the user
/// functions and the next binding number); `None` when the item is refused.
#[verifier::opaque]
pub open spec fn checked_step(state: (Seq<Binding>, Seq<FunctionSig>, nat), item: Item) -> Option<(Seq<Binding>, Seq<FunctionSig>, nat)> {
    let (symbols, functions, next) = state;
    match item {
        Item::Input(d) => if !name_taken(symbols, functions, d.name@) && next < usize::MAX {
            Some((symbols.push(Binding { id: next as usize, name: d.name, ty: d.ty, span: d.span }), functions, next + 1))
        } else {
            None
        },
        Item::Function(f) => if !name_taken(symbols, functions, f.name@) && function_accepted(f, functions, next) {
            Some((symbols, functions.push(function_sig(f, functions, next)), next + f.params@.len()))
        } else {
            None
        },
        Item::Statement(st) => if statement_accepted(st, functions, symbols, next) {
            match st {
                Statement::Let(l) => Some(
                    (
                        symbols.push(Binding { id: next as usize, name: l.name, ty: elaborated(functions, symbols, l.expr)->0.ty, span: l.span }),
                        functions,
                        next + 1,
                    ),
                ),
                _ => Some((symbols, functions, next)),
            }
        } else {
            None
        },
        _ => None,
    }
}

/// The state of typechecking after the first `n` items of `items`; `None` once an item is
/// refused.
pub open spec fn checked_state(items: Seq<Item>, n: nat) -> Option<(Seq<Binding>, Seq<FunctionSig>, nat)>
    decreases n,
{
    if n == 0 {
        Some((Seq::empty(), Seq::empty(), 0))
    } else {
        match checked_state(items, (n - 1) as nat) {
            None => None,
            Some(state) => checked_step(state, items[n - 1]),
        }
    }
}

/// Item `n` is the first that the checker refuses.
pub open spec fn first_refused(items: Seq<Item>, n: int) -> bool {
    &&& 0 <= n < items.len()
    &&& checked_state(items, n as nat) is Some
    &&& checked_state(items, (n + 1) as nat) is None
}

/// The first refused parameter is unique.
proof fn lemma_first_param_refused_unique(f: ast::FunctionDecl, next: nat, k: int)
    requires
        first_param_refused(f, next, k),
    ensures
        forall|k2: int| #[trigger] first_param_refused(f, next, k2) ==> k2 == k,
{
    assert forall|k2: int| #[trigger] first_param_refused(f, next, k2) implies k2 == k by {
        if k2 < k {
            assert(!param_refused(f, next, k2));
        } else if k < k2 {
            assert(!param_refused(f, next, k));
        }
    }
}

/// When the bindings made so far are those of the first `i` parameters and none carries the name
/// of parameter `i`, no earlier parameter has that name.
proof fn lemma_no_earlier_name(f: ast::FunctionDecl, next: nat, params: Seq<Binding>, i: int)
    requires
        0 <= i < f.params@.len(),
        params == param_bindings(f, next).subrange(0, i),
        forall|k: int| 0 <= k < params.len() ==> #[trigger] params[k].name@ != f.params@[i].name@,
    ensures
        !exists|j: int| 0 <= j < i && (#[trigger] f.params@[j]).name@ == f.params@[i].name@,
{
    assert forall|j: int| 0 <= j < i implies (#[trigger] f.params@[j]).name@ != f.params@[i].name@ by {
        assert(params[j] == param_bindings(f, next)[j]);
        assert(param_bindings(f, next)[j].name == f.params@[j].name);
        assert(params[j].name@ != f.params@[i].name@);
    }
}

/// Once an item is refused, so is every longer prefix.
pub(crate) proof fn lemma_checked_fails(items: Seq<Item>, n: nat, m: nat)
    requires
        n <= m,
        checked_state(items, n) is None,
    ensures
        checked_state(items, m) is None,
    decreases m,
{
    if n < m {
        lemma_checked_fails(items, n, (m - 1) as nat);
    }
}

/// Every binding of `scope` has its id in `ids`.
pub open spec fn ids_in(scope: Seq<Binding>, ids: Set<BindingId>) -> bool {
    forall|i: int| 0 <= i < scope.len() ==> ids.contains(#[trigger] scope[i].id)
}

proof fn lemma_refs_bound_within(e: TypedExpr, scope: Seq<Binding>, ids: Set<BindingId>)
    requires
        refs_bound(e, scope),
        ids_in(scope, ids),
    ensures
        refs_within(e, ids),
    decreases e,
{
    match e.kind {
        ExprKind::Constant(_) => {},
        ExprKind::BoolConstant(_) => {},
        ExprKind::Reference(b) => {
            let i = choose|i: int| 0 <= i < scope.len() && scope[i] == b;
            assert(ids.contains(scope[i].id));
        },
        ExprKind::Unary { expr, .. } => lemma_refs_bound_within(*expr, scope, ids),
        ExprKind::Binary { lhs, rhs, .. } => {
            lemma_refs_bound_within(*lhs, scope, ids);
            lemma_refs_bound_within(*rhs, scope, ids);
        },
        ExprKind::IfElse { condition, then_branch, else_branch } => {
            lemma_refs_bound_within(*condition, scope, ids);
            lemma_refs_bound_within(*then_branch, scope, ids);
            lemma_refs_bound_within(*else_branch, scope, ids);
        },
        ExprKind::BoolNot { expr } => lemma_refs_bound_within(*expr, scope, ids),
        ExprKind::BoolAnd { lhs, rhs } => {
            lemma_refs_bound_within(*lhs, scope, ids);
            lemma_refs_bound_within(*rhs, scope, ids);
        },
        ExprKind::BoolOr { lhs, rhs } => {
            lemma_refs_bound_within(*lhs, scope, ids);
            lemma_refs_bound_within(*rhs, scope, ids);
        },
        ExprKind::BoolXor { lhs, rhs } => {
            lemma_refs_bound_within(*lhs, scope, ids);
            lemma_refs_bound_within(*rhs, scope, ids);
        },
        ExprKind::Cast { expr, .. } => lemma_refs_bound_within(*expr, scope, ids),
    }
}

proof fn lemma_bound_after_prefix(items: Seq<hir::Item>, x: hir::Item, k: nat)
    requires
        k <= items.len(),
    ensures
        bound_after(items.push(x), k) == bound_after(items, k),
    decreases k,
{
    if k > 0 {
        lemma_bound_after_prefix(items, x, (k - 1) as nat);
        assert(items.push(x)[k - 1] == items[k - 1]);
    }
}

proof fn lemma_push_keeps_scoped(items: Seq<hir::Item>, x: hir::Item)
    requires
        forall|n: nat| n < items.len() ==> #[trigger] item_scoped(items, n),
    ensures
        forall|n: nat| n < items.len() ==> #[trigger] item_scoped(items.push(x), n),
{
    assert forall|n: nat| n < items.len() implies #[trigger] item_scoped(items.push(x), n) by {
        lemma_bound_after_prefix(items, x, n);
        assert(items.push(x)[n as int] == items[n as int]);
        assert(item_scoped(items, n));
    }
}

/// The first binding of `scope` named `name`.
pub open spec fn binding_named(scope: Seq<Binding>, name: Seq<char>) -> Option<Binding>
    decreases scope.len(),
{
    if scope.len() == 0 {
        None
    } else if scope[0].name@ == name {
        Some(scope[0])
    } else {
        binding_named(scope.drop_first(), name)
    }
}

/// What elaboration sees of a user function: its name, parameters, result type and body.
pub type FunctionSig = (Seq<char>, Seq<Binding>, Type, TypedExpr);

pub open spec fn sig(f: hir::FunctionDecl) -> FunctionSig {
    (f.name@, f.params@, f.return_type, f.body)
}

pub open spec fn sigs(fs: Seq<hir::FunctionDecl>) -> Seq<FunctionSig> {
    fs.map_values(|f: hir::FunctionDecl| sig(f))
}

/// The position of the first function of `functions` named `name`.
pub open spec fn function_named(functions: Seq<FunctionSig>, name: Seq<char>) -> Option<int>
    decreases functions.len(),
{
    if functions.len() == 0 {
        None
    } else if functions[0].0 == name {
        Some(0)
    } else {
        match function_named(functions.drop_first(), name) {
            Some(i) => Some(i + 1),
            None => None,
        }
    }
}

/// The position of the first substitution for binding `id`.
pub open spec fn first_sub(subs: Seq<(BindingId, TypedExpr)>, id: BindingId) -> Option<int>
    decreases subs.len(),
{
    if subs.len() == 0 {
        None
    } else if subs[0].0 == id {
        Some(0)
    } else {
        match first_sub(subs.drop_first(), id) {
            Some(i) => Some(i + 1),
            None => None,
        }
    }
}

/// `e` with each reference to a substituted binding replaced by its substitute, which keeps the
/// reference's type and span.
pub open spec fn substituted(e: TypedExpr, subs: Seq<(BindingId, TypedExpr)>) -> TypedExpr
    decreases e,
{
    let kind = match e.kind {
        ExprKind::Reference(b) => match first_sub(subs, b.id) {
            Some(k) => subs[k].1.kind,
            None => e.kind,
        },
        ExprKind::Unary { op, expr } => ExprKind::Unary { op, expr: Box::new(substituted(*expr, subs)) },
        ExprKind::Binary { op, lhs, rhs } => ExprKind::Binary {
            op,
            lhs: Box::new(substituted(*lhs, subs)),
            rhs: Box::new(substituted(*rhs, subs)),
        },
        ExprKind::IfElse { condition, then_branch, else_branch } => ExprKind::IfElse {
            condition: Box::new(substituted(*condition, subs)),
            then_branch: Box::new(substituted(*then_branch, subs)),
            else_branch: Box::new(substituted(*else_branch, subs)),
        },
        ExprKind::BoolNot { expr } => ExprKind::BoolNot { expr: Box::new(substituted(*expr, subs)) },
        ExprKind::BoolAnd { lhs, rhs } => ExprKind::BoolAnd {
            lhs: Box::new(substituted(*lhs, subs)),
            rhs: Box::new(substituted(*rhs, subs)),
        },
        ExprKind::BoolOr { lhs, rhs } => ExprKind::BoolOr { lhs: Box::new(substituted(*lhs, subs)), rhs: Box::new(substituted(*rhs, subs)) },
        ExprKind::BoolXor { lhs, rhs } => ExprKind::BoolXor {
            lhs: Box::new(substituted(*lhs, subs)),
            rhs: Box::new(substituted(*rhs, subs)),
        },
        ExprKind::Cast { expr, target } => ExprKind::Cast { expr: Box::new(substituted(*expr, subs)), target },
        _ => e.kind,
    };
    TypedExpr { kind, ty: e.ty, span: e.span }
}

/// A call of `f` with `args`: its body with each parameter replaced by its argument, typed as
/// the function's result and placed at the call.
pub open spec fn instantiated(f: FunctionSig, args: Seq<TypedExpr>, span: Span) -> TypedExpr {
    let subs = Seq::new(args.len(), |k: int| (f.1[k].id, args[k]));
    TypedExpr { kind: substituted(f.3, subs).kind, ty: f.2, span }
}

/// The typed form of `e`, with the bindings of `scope` in view and the user functions
/// `functions`, or `None` where it does not typecheck: literals at `field` or `bool`, a name at
/// the first binding of that name, a builtin call expanded, a user call instantiated with its
/// arguments coerced to the parameter types, `-` on a `field`, arithmetic on operands brought to
/// one `field` or unsigned type, and `if` on a `bool` condition with its branches brought to one
/// type.
pub open spec fn elaborated(functions: Seq<FunctionSig>, scope: Seq<Binding>, e: Expr) -> Option<TypedExpr>
    decreases e, 1int, 0int,
{
    match e {
        Expr::Number { value, span } => Some(TypedExpr { kind: ExprKind::Constant(value), ty: Type::Field, span }),
        Expr::Bool { value, span } => Some(TypedExpr { kind: ExprKind::BoolConstant(value), ty: Type::Bool, span }),
        Expr::Ident { name, span } => match binding_named(scope, name@) {
            Some(b) => Some(TypedExpr { kind: ExprKind::Reference(b), ty: b.ty, span }),
            None => None,
        },
        Expr::Call { callee, args, span } => match elaborated_args(functions, scope, e, args@.len()) {
            None => None,
            Some(typed) => if callee@.len() == 1 && builtins::is_builtin(callee@[0]@) {
                if typed.len() == builtins::builtin_arities()[builtins::builtin_index(callee@[0]@)->0].1 && builtins::args_typed(
                    typed,
                    builtins::expected_types(callee@[0]@, typed),
                ) {
                    Some(builtins::expansion(callee@[0]@, typed, span))
                } else {
                    None
                }
            } else {
                match function_named(functions, ast::join_path(ast::string_views(callee@))) {
                    None => None,
                    Some(i) => if typed.len() == functions[i].1.len() && forall|k: int|
                        0 <= k < typed.len() ==> #[trigger] coerce_result(typed[k], functions[i].1[k].ty) is Some {
                        Some(
                            instantiated(
                                functions[i],
                                Seq::new(typed.len(), |k: int| coerce_result(typed[k], functions[i].1[k].ty)->0),
                                span,
                            ),
                        )
                    } else {
                        None
                    },
                }
            },
        },
        Expr::Unary { op, expr, span } => match elaborated(functions, scope, *expr) {
            Some(inner) => if inner.ty == Type::Field {
                Some(TypedExpr { kind: ExprKind::Unary { op, expr: Box::new(inner) }, ty: Type::Field, span })
            } else {
                None
            },
            None => None,
        },
        Expr::Binary { op, lhs, rhs, span } => match (elaborated(functions, scope, *lhs), elaborated(functions, scope, *rhs)) {
            (Some(l), Some(r)) => match arithmetic_result(l, r) {
                Some(pair) => Some(TypedExpr { kind: ExprKind::Binary { op, lhs: Box::new(pair.0), rhs: Box::new(pair.1) }, ty: pair.0.ty, span }),
                None => None,
            },
            _ => None,
        },
        Expr::IfElse { condition, then_branch, else_branch, span } => match (
            elaborated(functions, scope, *condition),
            elaborated(functions, scope, *then_branch),
            elaborated(functions, scope, *else_branch),
        ) {
            (Some(c), Some(t), Some(f)) => if c.ty == Type::Bool {
                match comparable_result(t, f) {
                    Some(pair) => if pair.0.ty == pair.1.ty {
                        Some(
                            TypedExpr {
                                kind: ExprKind::IfElse { condition: Box::new(c), then_branch: Box::new(pair.0), else_branch: Box::new(pair.1) },
                                ty: pair.0.ty,
                                span,
                            },
                        )
                    } else {
                        None
                    },
                    None => None,
                }
            } else {
                None
            },
            _ => None,
        },
    }
}

/// The typed forms of the first `n` arguments of the call `e`, or `None` where one does not
/// typecheck.
pub open spec fn elaborated_args(functions: Seq<FunctionSig>, scope: Seq<Binding>, e: Expr, n: nat) -> Option<Seq<TypedExpr>>
    decreases e, 0int, n as int,
{
    if n == 0 {
        Some(Seq::empty())
    } else if e is Call && n <= e->Call_args@.len() {
        proof {
            assert(decreases_to!(e => e->Call_args));
            vstd::std_specs::vec::axiom_vec_index_decreases(e->Call_args, n - 1);
        }
        match elaborated_args(functions, scope, e, (n - 1) as nat) {
            Some(prefix) => match elaborated(functions, scope, e->Call_args@[n - 1]) {
                Some(t) => Some(prefix.push(t)),
                None => None,
            },
            None => None,
        }
    } else {
        None
    }
}

// ----- what a refused program is told ---------------------------------------------------------

/// A message that names two types after `prefix`: ``prefix`l` and `r` ``.
pub open spec fn mismatch_text(prefix: Seq<char>, l: Type, r: Type) -> Seq<char> {
    prefix + ast::spelling(l) + "` and `"@ + ast::spelling(r) + "`"@
}

/// The prefix of the message for arithmetic on operands of a type that has none.
pub open spec fn arithmetic_prefix(op: ast::BinaryOp) -> Seq<char> {
    "operator `"@ + ast::binary_mnemonic(op)
        + "` expects `field` operands or matching unsigned integers; convert integer values with `into_field(...)` first when mixing domains, got `"@
}

/// Why the arithmetic operands `l` and `r` are refused: they cannot be brought to one type, or
/// the type they share is neither `field` nor unsigned.
pub open spec fn arithmetic_message(op: ast::BinaryOp, l: TypedExpr, r: TypedExpr) -> Seq<char> {
    match comparable_result(l, r) {
        None => mismatch_text("type mismatch between `"@, l.ty, r.ty),
        Some(pair) => mismatch_text(arithmetic_prefix(op), pair.0.ty, pair.1.ty),
    }
}

/// Why the typed arguments `typed` of a call of the builtin `name` are refused: a wrong count,
/// or the first argument of the wrong type.
pub open spec fn builtin_call_message(name: Seq<char>, typed: Seq<TypedExpr>) -> Seq<char> {
    let arity = builtins::builtin_arities()[builtins::builtin_index(name)->0].1;
    if typed.len() != arity {
        builtins::arity_message(name, arity, typed.len())
    } else {
        choose|m: Seq<char>| builtins::first_mismatch_reported(name, typed, builtins::expected_types(name, typed), m)
    }
}

/// Argument `k` is the first that cannot be brought to its parameter's type.
pub open spec fn first_uncoercible(typed: Seq<TypedExpr>, params: Seq<Binding>, k: int) -> bool {
    &&& 0 <= k < typed.len()
    &&& coerce_result(typed[k], params[k].ty) is None
    &&& forall|j: int| 0 <= j < k ==> coerce_result(#[trigger] typed[j], params[j].ty) is Some
}

/// Why a call of the user function `name` with the typed arguments `typed` is refused: no such
/// function (declared before this point), a wrong count, or the first argument that cannot be
/// brought to its parameter's type.
pub open spec fn user_call_message(functions: Seq<FunctionSig>, name: Seq<char>, typed: Seq<TypedExpr>) -> Seq<char> {
    match function_named(functions, name) {
        None => "undeclared function `"@ + name + "`"@,
        Some(i) => if typed.len() != functions[i].1.len() {
            builtins::arity_message(name, functions[i].1.len(), typed.len())
        } else {
            let k = choose|k: int| first_uncoercible(typed, functions[i].1, k);
            "function `"@ + name + "` expects argument `"@ + functions[i].1[k].name@ + "` to have type `"@ + ast::spelling(
                functions[i].1[k].ty,
            ) + "` but got `"@ + ast::spelling(typed[k].ty) + "`"@
        },
    }
}

/// The message for an expression that does not typecheck, found in the order the checker reads
/// it: operands and arguments left to right, an `if` condition before its branches.
#[verifier::opaque]
pub open spec fn elab_message(functions: Seq<FunctionSig>, scope: Seq<Binding>, e: Expr) -> Seq<char>
    decreases e, 1int, 0int,
{
    match e {
        Expr::Number { .. } => Seq::empty(),
        Expr::Bool { .. } => Seq::empty(),
        Expr::Ident { name, .. } => undeclared_identifier_message(name@),
        Expr::Call { callee, args, .. } => match elaborated_args(functions, scope, e, args@.len()) {
            None => args_message(functions, scope, e, args@.len()),
            Some(typed) => if callee@.len() == 1 && builtins::is_builtin(callee@[0]@) {
                builtin_call_message(callee@[0]@, typed)
            } else {
                user_call_message(functions, ast::join_path(ast::string_views(callee@)), typed)
            },
        },
        Expr::Unary { expr, .. } => match elaborated(functions, scope, *expr) {
            None => elab_message(functions, scope, *expr),
            Some(inner) => "operator `-` expects `field`, got `"@ + ast::spelling(inner.ty) + "`"@,
        },
        Expr::Binary { op, lhs, rhs, .. } => match elaborated(functions, scope, *lhs) {
            None => elab_message(functions, scope, *lhs),
            Some(l) => match elaborated(functions, scope, *rhs) {
                None => elab_message(functions, scope, *rhs),
                Some(r) => arithmetic_message(op, l, r),
            },
        },
        Expr::IfElse { condition, then_branch, else_branch, .. } => match elaborated(functions, scope, *condition) {
            None => elab_message(functions, scope, *condition),
            Some(c) => if c.ty != Type::Bool {
                "`if` condition must have type `bool`, got `"@ + ast::spelling(c.ty) + "`"@
            } else {
                match elaborated(functions, scope, *then_branch) {
                    None => elab_message(functions, scope, *then_branch),
                    Some(t) => match elaborated(functions, scope, *else_branch) {
                        None => elab_message(functions, scope, *else_branch),
                        Some(f) => match comparable_result(t, f) {
                            None => mismatch_text("`if` branches must have the same type, got `"@, t.ty, f.ty),
                            Some(pair) => mismatch_text("`if` branches must have the same type, got `"@, pair.0.ty, pair.1.ty),
                        },
                    },
                }
            },
        },
    }
}

/// The message for the first of the first `n` arguments of the call `e` that does not typecheck.
#[verifier::opaque]
pub open spec fn args_message(functions: Seq<FunctionSig>, scope: Seq<Binding>, e: Expr, n: nat) -> Seq<char>
    decreases e, 0int, n as int,
{
    if n == 0 {
        Seq::empty()
    } else if e is Call && n <= e->Call_args@.len() {
        proof {
            assert(decreases_to!(e => e->Call_args));
            vstd::std_specs::vec::axiom_vec_index_decreases(e->Call_args, n - 1);
        }
        match elaborated_args(functions, scope, e, (n - 1) as nat) {
            None => args_message(functions, scope, e, (n - 1) as nat),
            Some(_) => elab_message(functions, scope, e->Call_args@[n - 1]),
        }
    } else {
        Seq::empty()
    }
}

/// Why a statement is refused.
pub open spec fn statement_message(st: Statement, functions: Seq<FunctionSig>, symbols: Seq<Binding>) -> Seq<char> {
    match st {
        Statement::Let(l) => match elaborated(functions, symbols, l.expr) {
            None => elab_message(functions, symbols, l.expr),
            Some(_) => if name_taken(symbols, functions, l.name@) {
                duplicate_message(l.name@)
            } else {
                "too many bindings to number"@
            },
        },
        Statement::Constrain(c) => match elaborated(functions, symbols, c.lhs) {
            None => elab_message(functions, symbols, c.lhs),
            Some(x) => match elaborated(functions, symbols, c.rhs) {
                None => elab_message(functions, symbols, c.rhs),
                Some(y) => match comparable_result(x, y) {
                    None => mismatch_text("type mismatch between `"@, x.ty, y.ty),
                    Some(pair) => mismatch_text("constraint operands must have the same type, got `"@, pair.0.ty, pair.1.ty),
                },
            },
        },
        Statement::Expose(x) => elab_message(functions, symbols, x.expr),
    }
}

/// Parameter `k` repeats the name of an earlier one, or no binding number is left for it.
pub open spec fn param_refused(f: ast::FunctionDecl, next: nat, k: int) -> bool {
    ||| exists|j: int| 0 <= j < k && (#[trigger] f.params@[j]).name@ == f.params@[k].name@
    ||| next + k >= usize::MAX
}

/// Parameter `k` is the first that is refused.
pub open spec fn first_param_refused(f: ast::FunctionDecl, next: nat, k: int) -> bool {
    &&& 0 <= k < f.params@.len()
    &&& param_refused(f, next, k)
    &&& forall|j: int| 0 <= j < k ==> !#[trigger] param_refused(f, next, j)
}

/// Why a function declaration whose name is free is refused: its first refused parameter, else
/// its body, else a body that cannot be brought to the declared result type.
pub open spec fn function_message(f: ast::FunctionDecl, functions: Seq<FunctionSig>, next: nat) -> Seq<char> {
    if exists|k: int| #[trigger] first_param_refused(f, next, k) {
        let k = choose|k: int| #[trigger] first_param_refused(f, next, k);
        if next + k >= usize::MAX && !(exists|j: int| 0 <= j < k && (#[trigger] f.params@[j]).name@ == f.params@[k].name@) {
            "too many bindings to number"@
        } else {
            duplicate_message(f.params@[k].name@)
        }
    } else {
        match elaborated(functions, param_bindings(f, next), f.body) {
            None => elab_message(functions, param_bindings(f, next), f.body),
            Some(body) => "function `"@ + f.name@ + "` declares return type `"@ + ast::spelling(f.return_type)
                + "` but body has type `"@ + ast::spelling(body.ty) + "`"@,
        }
    }
}

/// Why `item` is refused in the state `state` (bindings in scope, user functions, next binding
/// number).
pub open spec fn item_message(state: (Seq<Binding>, Seq<FunctionSig>, nat), item: Item) -> Seq<char> {
    let (symbols, functions, next) = state;
    match item {
        Item::Include(_) => ast::inclusion_keyword_chars() + " directives must be resolved before typechecking"@,
        Item::Import(_) => "import directives must be resolved before typechecking"@,
        Item::Input(d) => if name_taken(symbols, functions, d.name@) {
            duplicate_message(d.name@)
        } else {
            "too many bindings to number"@
        },
        Item::Function(f) => if name_taken(symbols, functions, f.name@) {
            duplicate_message(f.name@)
        } else {
            function_message(f, functions, next)
        },
        Item::Statement(st) => statement_message(st, functions, symbols),
    }
}

/// The message for the refused item `n` of `items`.
#[verifier::opaque]
pub open spec fn refusal_message(items: Seq<Item>, n: int) -> Seq<char> {
    item_message(checked_state(items, n as nat)->0, items[n])
}

/// Once an argument fails, the message of every longer argument list is that of the failure.
proof fn lemma_args_message_stable(functions: Seq<FunctionSig>, scope: Seq<Binding>, e: Expr, n: nat, m: nat)
    requires
        n <= m,
        e is Call,
        m <= e->Call_args@.len(),
        elaborated_args(functions, scope, e, n) is None,
    ensures
        args_message(functions, scope, e, m) == args_message(functions, scope, e, n),
    decreases m,
{
    reveal(args_message);
    if n < m {
        lemma_args_fail(functions, scope, e, n, (m - 1) as nat);
        lemma_args_message_stable(functions, scope, e, n, (m - 1) as nat);
    }
}

/// The first mismatched argument, and so its message, is unique.
proof fn lemma_mismatch_unique(name: Seq<char>, args: Seq<TypedExpr>, expected: Seq<Type>, m1: Seq<char>, m2: Seq<char>)
    requires
        builtins::first_mismatch_reported(name, args, expected, m1),
        builtins::first_mismatch_reported(name, args, expected, m2),
    ensures
        m1 == m2,
{
    let i1 = choose|i: int|
        0 <= i < args.len() && i < expected.len() && (#[trigger] args[i]).ty != expected[i]
            && (forall|j: int| 0 <= j < i ==> (#[trigger] args[j]).ty == expected[j])
            && m1 == builtins::argument_type_message(name, (i + 1) as nat, expected[i], args[i].ty);
    let i2 = choose|i: int|
        0 <= i < args.len() && i < expected.len() && (#[trigger] args[i]).ty != expected[i]
            && (forall|j: int| 0 <= j < i ==> (#[trigger] args[j]).ty == expected[j])
            && m2 == builtins::argument_type_message(name, (i + 1) as nat, expected[i], args[i].ty);
    if i1 < i2 {
        assert(args[i1].ty == expected[i1]);
    } else if i2 < i1 {
        assert(args[i2].ty == expected[i2]);
    }
}

proof fn lemma_first_uncoercible_unique(typed: Seq<TypedExpr>, params: Seq<Binding>, k1: int, k2: int)
    requires
        first_uncoercible(typed, params, k1),
        first_uncoercible(typed, params, k2),
    ensures
        k1 == k2,
{
    if k1 < k2 {
        assert(coerce_result(typed[k1], params[k1].ty) is Some);
    } else if k2 < k1 {
        assert(coerce_result(typed[k2], params[k2].ty) is Some);
    }
}

proof fn lemma_function_named_bounds(fs: Seq<FunctionSig>, name: Seq<char>)
    ensures
        function_named(fs, name) matches Some(i) ==> 0 <= i < fs.len() && fs[i].0 == name,
    decreases fs.len(),
{
    if fs.len() > 0 {
        lemma_function_named_bounds(fs.drop_first(), name);
        if let Some(i) = function_named(fs.drop_first(), name) {
            assert(fs.drop_first()[i] == fs[i + 1]);
        }
    }
}

/// The scope and the functions after `n` items depend on those items only.
proof fn lemma_after_push(items: Seq<hir::Item>, x: hir::Item, n: nat)
    requires
        n <= items.len(),
    ensures
        scope_after(items.push(x), n) == scope_after(items, n),
        functions_after(items.push(x), n) == functions_after(items, n),
    decreases n,
{
    if n > 0 {
        lemma_after_push(items, x, (n - 1) as nat);
        assert(items.push(x)[n - 1] == items[n - 1]);
    }
}

/// Once an argument fails, the longer lists fail too.
proof fn lemma_args_fail(functions: Seq<FunctionSig>, scope: Seq<Binding>, e: Expr, n: nat, m: nat)
    requires
        n <= m,
        elaborated_args(functions, scope, e, n) is None,
    ensures
        elaborated_args(functions, scope, e, m) is None,
    decreases m,
{
    if n < m {
        lemma_args_fail(functions, scope, e, n, (m - 1) as nat);
    }
}

fn duplicate_error(name: &str, span: Span) -> (e: CompileError)
    ensures
        e.message@ == duplicate_message(name@),
{
    let mut message = to_owned("duplicate declaration for `");
    push_str(&mut message, name);
    push_str(&mut message, "`");
    CompileError::new(span, message)
}

/// Fails when `name` is already declared as a binding, a user function or a builtin.
fn ensure_fresh(symbols: &Vec<Binding>, functions: &Vec<hir::FunctionDecl>, name: &str, span: Span) -> (r: CompileResult<()>)
    ensures
        r is Ok <==> !name_taken(symbols@, sigs(functions@), name@),
        r matches Err(e) ==> e.message@ == duplicate_message(name@),
{
    let mut i: usize = 0;
    while i < symbols.len()
        invariant
            i <= symbols@.len(),
            forall|k: int| 0 <= k < i ==> #[trigger] symbols@[k].name@ != name@,
        decreases symbols.len() - i,
    {
        if eq_str(symbols[i].name.as_str(), name) {
            return Err(duplicate_error(name, span));
        }
        i = i + 1;
    }
    let mut j: usize = 0;
    while j < functions.len()
        invariant
            j <= functions@.len(),
            forall|k: int| 0 <= k < j ==> #[trigger] functions@[k].name@ != name@,
        decreases functions.len() - j,
    {
        assert(sigs(functions@)[j as int].0 == functions@[j as int].name@);
        if eq_str(functions[j].name.as_str(), name) {
            return Err(duplicate_error(name, span));
        }
        j = j + 1;
    }
    if builtins::contains(name) {
        return Err(duplicate_error(name, span));
    }
    Ok(())
}

/// The position of the binding named `name`.
fn find_binding(scope: &Vec<Binding>, name: &str) -> (r: Option<usize>)
    ensures
        r matches Some(i) ==> i < scope@.len() && scope@[i as int].name@ == name@,
        r is None ==> forall|i: int| 0 <= i < scope@.len() ==> #[trigger] scope@[i].name@ != name@,
        r matches Some(i) ==> binding_named(scope@, name@) == Some(scope@[i as int]),
        r is None ==> binding_named(scope@, name@) is None,
{
    let mut i: usize = 0;
    assert(scope@.subrange(0, scope@.len() as int) =~= scope@);
    while i < scope.len()
        invariant
            i <= scope@.len(),
            forall|k: int| 0 <= k < i ==> #[trigger] scope@[k].name@ != name@,
            binding_named(scope@, name@) == binding_named(scope@.subrange(i as int, scope@.len() as int), name@),
        decreases scope.len() - i,
    {
        let ghost rest = scope@.subrange(i as int, scope@.len() as int);
        assert(rest.drop_first() =~= scope@.subrange(i + 1, scope@.len() as int));
        if eq_str(scope[i].name.as_str(), name) {
            return Some(i);
        }
        i = i + 1;
    }
    None
}

/// Fails unless `value` fits the unsigned type `target`.
fn ensure_uint_literal_fits(value: i128, target: Type, span: Span) -> (r: CompileResult<()>)
    ensures
        r is Ok <==> literal_fits(value, target),
{
    let bits = match target.uint_bits() {
        Some(b) => b,
        None => 0,
    };
    let max: i128 = if bits == 8 {
        255
    } else if bits == 16 {
        65535
    } else if bits == 32 {
        4294967295
    } else {
        0
    };
    if value < 0 || value > max {
        let mut message = to_owned("integer literal `");
        push_signed_decimal(&mut message, value);
        push_str(&mut message, "` cannot be represented as `");
        push_str(&mut message, target.name());
        push_str(&mut message, "`");
        return Err(CompileError::new(span, message));
    }
    Ok(())
}

/// `expr` at type `target`, or an error when it cannot be coerced.
fn coerce_expr_to_type(expr: TypedExpr, target: Type, span: Span) -> (r: CompileResult<TypedExpr>)
    ensures
        r is Ok <==> coerce_result(expr, target) is Some,
        r matches Ok(c) ==> coerce_result(expr, target) == Some(c),
{
    if expr.ty == target {
        return Ok(expr);
    }
    if target.is_uint() && expr.ty == Type::Field {
        if let ExprKind::Constant(value) = expr.kind {
            ensure_uint_literal_fits(value, target, span)?;
            return Ok(TypedExpr::new(ExprKind::Constant(value), target, expr.span));
        }
    }
    let mut message = to_owned("cannot coerce `");
    push_str(&mut message, expr.ty.name());
    push_str(&mut message, "` to `");
    push_str(&mut message, target.name());
    push_str(&mut message, "`");
    Err(CompileError::new(span, message))
}

proof fn lemma_coerce_sound(e: TypedExpr, target: Type, scope: Seq<Binding>)
    requires
        coerce_result(e, target) is Some,
        well_typed(e),
        refs_bound(e, scope),
    ensures
        well_typed(coerce_result(e, target)->0),
        refs_bound(coerce_result(e, target)->0, scope),
        coerce_result(e, target)->0.ty == target,
{
}

fn type_mismatch(lhs: Type, rhs: Type, prefix: &str, span: Span) -> (e: CompileError)
    ensures
        e.span == span,
        e.message@ == mismatch_text(prefix@, lhs, rhs),
{
    let mut message = to_owned(prefix);
    push_str(&mut message, lhs.name());
    push_str(&mut message, "` and `");
    push_str(&mut message, rhs.name());
    push_str(&mut message, "`");
    assert(message@ =~= mismatch_text(prefix@, lhs, rhs));
    CompileError::new(span, message)
}

/// Brings two operands to one type.
fn coerce_comparable_pair(lhs: TypedExpr, rhs: TypedExpr, span: Span) -> (r: CompileResult<(TypedExpr, TypedExpr)>)
    ensures
        r is Ok <==> comparable_result(lhs, rhs) is Some,
        r matches Ok(pair) ==> comparable_result(lhs, rhs) == Some(pair),
        r matches Err(e) ==> e.message@ == mismatch_text("type mismatch between `"@, lhs.ty, rhs.ty),
{
    if lhs.ty == rhs.ty {
        return Ok((lhs, rhs));
    }
    if rhs.ty.is_uint() {
        if let Ok(coerced) = coerce_expr_to_type(lhs.clone(), rhs.ty, span) {
            return Ok((coerced, rhs));
        }
    }
    if lhs.ty.is_uint() {
        if let Ok(coerced) = coerce_expr_to_type(rhs.clone(), lhs.ty, span) {
            return Ok((lhs, coerced));
        }
    }
    Err(type_mismatch(lhs.ty, rhs.ty, "type mismatch between `", span))
}

proof fn lemma_comparable_sound(l: TypedExpr, r: TypedExpr, scope: Seq<Binding>)
    requires
        comparable_result(l, r) is Some,
        well_typed(l),
        well_typed(r),
        refs_bound(l, scope),
        refs_bound(r, scope),
    ensures
        well_typed((comparable_result(l, r)->0).0),
        well_typed((comparable_result(l, r)->0).1),
        refs_bound((comparable_result(l, r)->0).0, scope),
        refs_bound((comparable_result(l, r)->0).1, scope),
        (comparable_result(l, r)->0).0.ty == (comparable_result(l, r)->0).1.ty,
{
    if l.ty != r.ty {
        if type_is_uint(r.ty) && coerce_result(l, r.ty) is Some {
            lemma_coerce_sound(l, r.ty, scope);
        } else {
            lemma_coerce_sound(r, l.ty, scope);
        }
    }
}

/// Brings two arithmetic operands to one `field` or unsigned type.
fn coerce_arithmetic_pair(lhs: TypedExpr, rhs: TypedExpr, op: ast::BinaryOp, span: Span) -> (r: CompileResult<(TypedExpr, TypedExpr)>)
    ensures
        r is Ok <==> arithmetic_result(lhs, rhs) is Some,
        r matches Ok(pair) ==> arithmetic_result(lhs, rhs) == Some(pair),
        r matches Err(e) ==> e.message@ == arithmetic_message(op, lhs, rhs),
{
    let (lhs, rhs) = coerce_comparable_pair(lhs, rhs, span)?;
    if lhs.ty == Type::Field || lhs.ty.is_uint() {
        Ok((lhs, rhs))
    } else {
        let mut prefix = to_owned("operator `");
        push_str(&mut prefix, op.mnemonic());
        push_str(
            &mut prefix,
            "` expects `field` operands or matching unsigned integers; convert integer values with `into_field(...)` first when mixing domains, got `",
        );
        assert(prefix@ =~= arithmetic_prefix(op));
        Err(type_mismatch(lhs.ty, rhs.ty, prefix.as_str(), span))
    }
}

/// The substitutions of a call: the i-th parameter's id paired with the i-th argument, which
/// has the parameter's type, is well typed and refers only to `scope`.
pub open spec fn subs_match(subs: Seq<(BindingId, TypedExpr)>, params: Seq<Binding>, scope: Seq<Binding>) -> bool {
    &&& subs.len() == params.len()
    &&& forall|k: int| 0 <= k < subs.len() ==> {
        &&& (#[trigger] subs[k]).0 == params[k].id
        &&& subs[k].1.ty == params[k].ty
        &&& well_typed(subs[k].1)
        &&& refs_bound(subs[k].1, scope)
    }
}

fn find_substitution(subs: &Vec<(BindingId, TypedExpr)>, id: BindingId) -> (r: Option<usize>)
    ensures
        r matches Some(k) ==> k < subs@.len() && subs@[k as int].0 == id,
        r is None ==> forall|k: int| 0 <= k < subs@.len() ==> #[trigger] subs@[k].0 != id,
        r matches Some(k) ==> first_sub(subs@, id) == Some(k as int),
        r is None ==> first_sub(subs@, id) is None,
{
    let mut k: usize = 0;
    assert(subs@.subrange(0, subs@.len() as int) =~= subs@);
    while k < subs.len()
        invariant
            k <= subs@.len(),
            forall|j: int| 0 <= j < k ==> #[trigger] subs@[j].0 != id,
            first_sub(subs@, id) == (match first_sub(subs@.subrange(k as int, subs@.len() as int), id) {
                Some(i) => Some(i + k),
                None => None::<int>,
            }),
        decreases subs.len() - k,
    {
        let ghost rest = subs@.subrange(k as int, subs@.len() as int);
        assert(rest.drop_first() =~= subs@.subrange(k + 1, subs@.len() as int));
        if subs[k].0 == id {
            return Some(k);
        }
        k = k + 1;
    }
    None
}

/// `expr` with every parameter reference replaced by the matching argument.
fn substitute_expr(
    expr: &TypedExpr,
    subs: &Vec<(BindingId, TypedExpr)>,
    Ghost(params): Ghost<Seq<Binding>>,
    Ghost(scope): Ghost<Seq<Binding>>,
) -> (r: TypedExpr)
    requires
        refs_bound(*expr, params),
        well_typed(*expr),
        ids_distinct(params),
        subs_match(subs@, params, scope),
    ensures
        r.ty == expr.ty,
        r.span == expr.span,
        well_typed(r),
        refs_bound(r, scope),
        r == substituted(*expr, subs@),
    decreases expr,
{
    let kind = match &expr.kind {
        ExprKind::Constant(value) => ExprKind::Constant(*value),
        ExprKind::BoolConstant(value) => ExprKind::BoolConstant(*value),
        ExprKind::Reference(binding) => {
            let ghost i = choose|i: int| 0 <= i < params.len() && params[i] == *binding;
            match find_substitution(subs, binding.id) {
                Some(k) => {
                    proof {
                        assert(subs@[i].0 == binding.id);
                        if k as int != i {
                            if (k as int) < i {
                                assert(params[k as int].id != params[i].id);
                            } else {
                                assert(params[i].id != params[k as int].id);
                            }
                        }
                    }
                    subs[k].1.clone().kind
                },
                None => {
                    proof {
                        assert(subs@[i].0 == binding.id);
                    }
                    ExprKind::Reference(binding.clone())
                },
            }
        },
        ExprKind::Unary { op, expr: inner } => ExprKind::Unary {
            op: *op,
            expr: Box::new(substitute_expr(inner, subs, Ghost(params), Ghost(scope))),
        },
        ExprKind::Binary { op, lhs, rhs } => ExprKind::Binary {
            op: *op,
            lhs: Box::new(substitute_expr(lhs, subs, Ghost(params), Ghost(scope))),
            rhs: Box::new(substitute_expr(rhs, subs, Ghost(params), Ghost(scope))),
        },
        ExprKind::IfElse { condition, then_branch, else_branch } => ExprKind::IfElse {
            condition: Box::new(substitute_expr(condition, subs, Ghost(params), Ghost(scope))),
            then_branch: Box::new(substitute_expr(then_branch, subs, Ghost(params), Ghost(scope))),
            else_branch: Box::new(substitute_expr(else_branch, subs, Ghost(params), Ghost(scope))),
        },
        ExprKind::BoolNot { expr: inner } => ExprKind::BoolNot {
            expr: Box::new(substitute_expr(inner, subs, Ghost(params), Ghost(scope))),
        },
        ExprKind::BoolAnd { lhs, rhs } => ExprKind::BoolAnd {
            lhs: Box::new(substitute_expr(lhs, subs, Ghost(params), Ghost(scope))),
            rhs: Box::new(substitute_expr(rhs, subs, Ghost(params), Ghost(scope))),
        },
        ExprKind::BoolOr { lhs, rhs } => ExprKind::BoolOr {
            lhs: Box::new(substitute_expr(lhs, subs, Ghost(params), Ghost(scope))),
            rhs: Box::new(substitute_expr(rhs, subs, Ghost(params), Ghost(scope))),
        },
        ExprKind::BoolXor { lhs, rhs } => ExprKind::BoolXor {
            lhs: Box::new(substitute_expr(lhs, subs, Ghost(params), Ghost(scope))),
            rhs: Box::new(substitute_expr(rhs, subs, Ghost(params), Ghost(scope))),
        },
        ExprKind::Cast { expr: inner, target } => ExprKind::Cast {
            expr: Box::new(substitute_expr(inner, subs, Ghost(params), Ghost(scope))),
            target: *target,
        },
    };
    TypedExpr { kind, ty: expr.ty, span: expr.span }
}

/// The body of `function` with the arguments substituted, typed as the call.
fn instantiate_function(
    function: &hir::FunctionDecl,
    args: &Vec<TypedExpr>,
    span: Span,
    Ghost(scope): Ghost<Seq<Binding>>,
) -> (r: TypedExpr)
    requires
        function_wf(*function),
        args@.len() == function.params@.len(),
        forall|k: int| 0 <= k < args@.len() ==> {
            &&& (#[trigger] args@[k]).ty == function.params@[k].ty
            &&& well_typed(args@[k])
            &&& refs_bound(args@[k], scope)
        },
    ensures
        well_typed(r),
        refs_bound(r, scope),
        r.ty == function.return_type,
        r.span == span,
        r == instantiated(sig(*function), args@, span),
{
    let mut subs: Vec<(BindingId, TypedExpr)> = Vec::new();
    let mut i: usize = 0;
    while i < args.len()
        invariant
            i <= args@.len(),
            args@.len() == function.params@.len(),
            subs@.len() == i,
            forall|k: int| 0 <= k < args@.len() ==> {
                &&& (#[trigger] args@[k]).ty == function.params@[k].ty
                &&& well_typed(args@[k])
                &&& refs_bound(args@[k], scope)
            },
            forall|k: int| 0 <= k < i ==> (#[trigger] subs@[k]).0 == function.params@[k].id && subs@[k].1 == args@[k],
        decreases args.len() - i,
    {
        subs.push((function.params[i].id, args[i].clone()));
        i = i + 1;
    }
    assert(subs_match(subs@, function.params@, scope));
    assert(subs@ =~= Seq::new(args@.len(), |k: int| (function.params@[k].id, args@[k])));
    let body = substitute_expr(&function.body, &subs, Ghost(function.params@), Ghost(scope));
    TypedExpr { kind: body.kind, ty: function.return_type, span }
}

fn copy_function(f: &hir::FunctionDecl) -> (r: hir::FunctionDecl)
    ensures
        r.name@ == f.name@,
        r.params@ == f.params@,
        r.return_type == f.return_type,
        r.body == f.body,
        r.span == f.span,
{
    let mut params: Vec<Binding> = Vec::new();
    let mut i: usize = 0;
    while i < f.params.len()
        invariant
            i <= f.params@.len(),
            params@ == f.params@.subrange(0, i as int),
        decreases f.params.len() - i,
    {
        params.push(f.params[i].clone());
        assert(params@ =~= f.params@.subrange(0, i + 1));
        i = i + 1;
    }
    assert(params@ =~= f.params@);
    hir::FunctionDecl {
        name: f.name.clone(),
        params,
        return_type: f.return_type,
        body: f.body.clone(),
        span: f.span,
    }
}

struct Builder {
    symbols: Vec<Binding>,
    functions: Vec<hir::FunctionDecl>,
    next_binding_id: BindingId,
}

impl Builder {
    spec fn wf(&self) -> bool {
        forall|i: int| 0 <= i < self.functions@.len() ==> function_wf(#[trigger] self.functions@[i])
    }

    fn new() -> (b: Builder)
        ensures
            b.wf(),
            b.symbols@.len() == 0,
            b.functions@.len() == 0,
            b.next_binding_id == 0,
    {
        Builder { symbols: Vec::new(), functions: Vec::new(), next_binding_id: 0 }
    }

    fn allocate_binding_id(&mut self, span: Span) -> (r: CompileResult<BindingId>)
        ensures
            final(self).symbols@ == old(self).symbols@,
            final(self).functions@ == old(self).functions@,
            r matches Ok(id) ==> id == old(self).next_binding_id && final(self).next_binding_id == id + 1,
            r is Ok <==> old(self).next_binding_id < usize::MAX,
            r is Err ==> final(self).next_binding_id == old(self).next_binding_id,
            r matches Err(e) ==> e.span == span && e.message@ == "too many bindings to number"@,
    {
        let id = self.next_binding_id;
        if id == usize::MAX {
            return Err(CompileError::new(span, to_owned("too many bindings to number")));
        }
        self.next_binding_id = id + 1;
        Ok(id)
    }

    /// Binds `name` at the top level.
    fn bind(&mut self, name: &String, ty: Type, span: Span) -> (r: CompileResult<Binding>)
        ensures
            final(self).functions@ == old(self).functions@,
            r matches Ok(b) ==> final(self).symbols@ == old(self).symbols@.push(b) && b.name@ == name@
                && b.ty == ty,
            r is Ok <==> old(self).next_binding_id < usize::MAX,
            r matches Ok(b) ==> b == (Binding { id: old(self).next_binding_id, name: *name, ty, span }) && final(self).next_binding_id
                == old(self).next_binding_id + 1,
            r matches Err(e) ==> e.span == span && e.message@ == "too many bindings to number"@,
    {
        let id = self.allocate_binding_id(span)?;
        let binding = Binding { id, name: name.clone(), ty, span };
        self.symbols.push(binding.clone());
        Ok(binding)
    }

    fn lower_input(&mut self, input: &ast::InputDecl) -> (r: CompileResult<hir::InputDecl>)
        requires
            old(self).wf(),
        ensures
            final(self).wf(),
            final(self).functions@ == old(self).functions@,
            r matches Ok(d) ==> final(self).symbols@ == old(self).symbols@.push(d.binding)
                && d.binding.name@ == input.name@ && d.binding.ty == input.ty && d.visibility == input.visibility,
            r is Ok <==> !name_taken(old(self).symbols@, sigs(old(self).functions@), input.name@) && old(self).next_binding_id < usize::MAX,
            r matches Ok(d) ==> d.binding == (Binding { id: old(self).next_binding_id, name: input.name, ty: input.ty, span: input.span })
                && d.span == input.span && final(self).next_binding_id == old(self).next_binding_id + 1,
            r matches Err(e) ==> e.message@ == item_message(
                (old(self).symbols@, sigs(old(self).functions@), old(self).next_binding_id as nat),
                Item::Input(*input),
            ),
    {
        ensure_fresh(&self.symbols, &self.functions, input.name.as_str(), input.span)?;
        let binding = self.bind(&input.name, input.ty, input.span)?;
        Ok(hir::InputDecl { binding, visibility: input.visibility, span: input.span })
    }

    fn lower_function(&mut self, function: &ast::FunctionDecl) -> (r: CompileResult<hir::FunctionDecl>)
        requires
            old(self).wf(),
        ensures
            final(self).wf(),
            final(self).symbols@ == old(self).symbols@,
            r matches Ok(f) ==> function_wf(f) && f.name@ == function.name@ && f.return_type == function.return_type
                && f.params@.len() == function.params@.len(),
            r matches Ok(f) ==> item_elaborated(ast::Item::Function(*function), hir::Item::Function(f), old(self).symbols@, sigs(old(self).functions@)),
            r matches Ok(f) ==> sigs(final(self).functions@) == sigs(old(self).functions@).push(sig(f)),
            r is Ok <==> !name_taken(old(self).symbols@, sigs(old(self).functions@), function.name@) && function_accepted(
                *function,
                sigs(old(self).functions@),
                old(self).next_binding_id as nat,
            ),
            r matches Ok(f) ==> sig(f) == function_sig(*function, sigs(old(self).functions@), old(self).next_binding_id as nat)
                && final(self).next_binding_id == old(self).next_binding_id + function.params@.len(),
            r matches Err(e) ==> e.message@ == item_message(
                (old(self).symbols@, sigs(old(self).functions@), old(self).next_binding_id as nat),
                Item::Function(*function),
            ),
    {
        ensure_fresh(&self.symbols, &self.functions, function.name.as_str(), function.span)?;
        let typed_function = self.build_function(function)?;
        let stored = copy_function(&typed_function);
        self.functions.push(stored);
        proof {
            assert(sigs(self.functions@) =~= sigs(old(self).functions@).push(sig(typed_function)));
            assert forall|i: int| 0 <= i < self.functions@.len() implies function_wf(#[trigger] self.functions@[i]) by {
                if i < old(self).functions@.len() {
                    assert(self.functions@[i] == old(self).functions@[i]);
                }
            }
        }
        Ok(typed_function)
    }

    fn build_function(&mut self, function: &ast::FunctionDecl) -> (r: CompileResult<hir::FunctionDecl>)
        requires
            old(self).wf(),
        ensures
            final(self).wf(),
            final(self).symbols@ == old(self).symbols@,
            final(self).functions@ == old(self).functions@,
            r matches Ok(f) ==> function_wf(f) && f.name@ == function.name@ && f.return_type == function.return_type
                && f.params@.len() == function.params@.len(),
            r matches Ok(f) ==> item_elaborated(ast::Item::Function(*function), hir::Item::Function(f), old(self).symbols@, sigs(old(self).functions@)),
            r is Ok <==> function_accepted(*function, sigs(old(self).functions@), old(self).next_binding_id as nat),
            r matches Ok(f) ==> sig(f) == function_sig(*function, sigs(old(self).functions@), old(self).next_binding_id as nat)
                && final(self).next_binding_id == old(self).next_binding_id + function.params@.len(),
            r matches Err(e) ==> e.message@ == function_message(*function, sigs(old(self).functions@), old(self).next_binding_id as nat),
    {
        let ghost start = self.next_binding_id as int;
        let mut params: Vec<Binding> = Vec::new();
        let mut i: usize = 0;
        while i < function.params.len()
            invariant
                i <= function.params@.len(),
                params@.len() == i,
                self.wf(),
                self.symbols@ == old(self).symbols@,
                self.functions@ == old(self).functions@,
                self.next_binding_id == start + i,
                forall|k: int| 0 <= k < i ==> (#[trigger] params@[k]).id == start + k,
                start == old(self).next_binding_id,
                params@ == param_bindings(*function, start as nat).subrange(0, i as int),
                forall|a: int, b: int| 0 <= a < b < i ==> (#[trigger] function.params@[a]).name@ != (#[trigger] function.params@[b]).name@,
                forall|j: int| 0 <= j < i ==> !#[trigger] param_refused(*function, start as nat, j),
            decreases function.params.len() - i,
        {
            let param = &function.params[i];
            let ghost prev = params@;
            let found = find_binding(&params, param.name.as_str());
            if found.is_some() {
                proof {
                    let k = choose|k: int| 0 <= k < params@.len() && params@[k].name@ == param.name@;
                    assert(params@[k] == param_bindings(*function, start as nat)[k]);
                    assert(function.params@[k].name@ == function.params@[i as int].name@);
                    assert(first_param_refused(*function, start as nat, i as int));
                    lemma_first_param_refused_unique(*function, start as nat, i as int);
                }
                return Err(duplicate_error(param.name.as_str(), param.span));
            }
            let id = match self.allocate_binding_id(param.span) {
                Ok(id) => id,
                Err(e) => {
                    assert(!function_accepted(*function, sigs(old(self).functions@), old(self).next_binding_id as nat));
                    proof {
                        lemma_no_earlier_name(*function, start as nat, params@, i as int);
                        assert(first_param_refused(*function, start as nat, i as int));
                        lemma_first_param_refused_unique(*function, start as nat, i as int);
                    }
                    return Err(e);
                },
            };
            proof {
                lemma_no_earlier_name(*function, start as nat, params@, i as int);
                assert(!param_refused(*function, start as nat, i as int));
            }
            params.push(Binding { id, name: param.name.clone(), ty: param.ty, span: param.span });
            proof {
                assert(params@ =~= param_bindings(*function, start as nat).subrange(0, i + 1));
                assert forall|a: int, b: int| 0 <= a < b < i + 1 implies (#[trigger] function.params@[a]).name@
                    != (#[trigger] function.params@[b]).name@ by {
                    if b == i {
                        assert(prev[a] == param_bindings(*function, start as nat)[a]);
                        assert(prev[a].name@ != param.name@);
                        assert(function.params@[b] == *param);
                    }
                }
            }
            i = i + 1;
        }
        assert(params@ =~= param_bindings(*function, start as nat));
        assert(ids_distinct(params@));
        assert(!exists|k: int| #[trigger] first_param_refused(*function, start as nat, k));
        let raw_body = self.lower_expr_in_scope(&function.body, &params)?;
        let body_ty = raw_body.ty;
        proof {
            if coerce_result(raw_body, function.return_type) is Some {
                lemma_coerce_sound(raw_body, function.return_type, params@);
            }
        }
        let body = match coerce_expr_to_type(raw_body, function.return_type, function.span) {
            Ok(body) => body,
            Err(_) => {
                let mut message = to_owned("function `");
                push_str(&mut message, function.name.as_str());
                push_str(&mut message, "` declares return type `");
                push_str(&mut message, function.return_type.name());
                push_str(&mut message, "` but body has type `");
                push_str(&mut message, body_ty.name());
                push_str(&mut message, "`");
                assert(message@ =~= "function `"@ + function.name@ + "` declares return type `"@ + ast::spelling(function.return_type)
                    + "` but body has type `"@ + ast::spelling(body_ty) + "`"@);
                return Err(CompileError::new(function.span, message));
            },
        };
        Ok(hir::FunctionDecl {
            name: function.name.clone(),
            params,
            return_type: function.return_type,
            body,
            span: function.span,
        })
    }

    fn lower_statement(&mut self, statement: &Statement) -> (r: CompileResult<hir::Statement>)
        requires
            old(self).wf(),
        ensures
            final(self).wf(),
            final(self).functions@ == old(self).functions@,
            r matches Ok(s) ==> statement_typed(s) && statement_refs(s, old(self).symbols@)
                && corresponds(ast::Item::Statement(*statement), hir::Item::Statement(s)),
            r matches Ok(hir::Statement::Let(l)) ==> final(self).symbols@ == old(self).symbols@.push(l.binding),
            r matches Ok(s) ==> (s is Let || final(self).symbols@ == old(self).symbols@),
            r matches Ok(s) ==> item_elaborated(ast::Item::Statement(*statement), hir::Item::Statement(s), old(self).symbols@, sigs(old(self).functions@)),
            r is Ok <==> statement_accepted(*statement, sigs(old(self).functions@), old(self).symbols@, old(self).next_binding_id as nat),
            r matches Ok(hir::Statement::Let(l)) ==> *statement is Let && l.binding == (Binding {
                id: old(self).next_binding_id,
                name: statement->Let_0.name,
                ty: elaborated(sigs(old(self).functions@), old(self).symbols@, statement->Let_0.expr)->0.ty,
                span: statement->Let_0.span,
            }) && final(self).next_binding_id == old(self).next_binding_id + 1,
            r matches Ok(s) ==> !(s is Let) ==> final(self).next_binding_id == old(self).next_binding_id,
            r matches Err(e) ==> e.message@ == statement_message(*statement, sigs(old(self).functions@), old(self).symbols@),
    {
        match statement {
            Statement::Let(stmt) => {
                let expr = self.lower_expr_in_scope(&stmt.expr, &self.symbols)?;
                ensure_fresh(&self.symbols, &self.functions, stmt.name.as_str(), stmt.span)?;
                let binding = self.bind(&stmt.name, expr.ty, stmt.span)?;
                Ok(hir::Statement::Let(hir::LetStmt { binding, expr, span: stmt.span }))
            },
            Statement::Constrain(stmt) => {
                let lhs = self.lower_expr_in_scope(&stmt.lhs, &self.symbols)?;
                let rhs = self.lower_expr_in_scope(&stmt.rhs, &self.symbols)?;
                proof {
                    if comparable_result(lhs, rhs) is Some {
                        lemma_comparable_sound(lhs, rhs, self.symbols@);
                    }
                }
                let (lhs, rhs) = coerce_comparable_pair(lhs, rhs, stmt.span)?;
                if lhs.ty != rhs.ty {
                    return Err(type_mismatch(
                        lhs.ty,
                        rhs.ty,
                        "constraint operands must have the same type, got `",
                        stmt.span,
                    ));
                }
                Ok(hir::Statement::Constrain(hir::ConstrainStmt { lhs, rhs, span: stmt.span }))
            },
            Statement::Expose(stmt) => {
                let expr = self.lower_expr_in_scope(&stmt.expr, &self.symbols)?;
                let label = match &stmt.label {
                    Some(l) => Some(l.clone()),
                    None => None,
                };
                Ok(hir::Statement::Expose(hir::ExposeStmt { expr, label, span: stmt.span }))
            },
        }
    }

    /// Typechecks one item of the program, with the state so far.
    fn lower_item(&mut self, item: &Item) -> (r: CompileResult<hir::Item>)
        requires
            old(self).wf(),
        ensures
            final(self).wf(),
            r is Ok <==> checked_step(
                (old(self).symbols@, sigs(old(self).functions@), old(self).next_binding_id as nat),
                *item,
            ) is Some,
            r is Ok ==> checked_step((old(self).symbols@, sigs(old(self).functions@), old(self).next_binding_id as nat), *item) == Some(
                (final(self).symbols@, sigs(final(self).functions@), final(self).next_binding_id as nat),
            ),
            r matches Ok(h) ==> {
                &&& item_typed(h)
                &&& corresponds(*item, h)
                &&& item_elaborated(*item, h, old(self).symbols@, sigs(old(self).functions@))
                &&& match h {
                    hir::Item::Input(d) => final(self).symbols@ == old(self).symbols@.push(d.binding),
                    hir::Item::Statement(hir::Statement::Let(l)) => final(self).symbols@ == old(self).symbols@.push(l.binding),
                    _ => final(self).symbols@ == old(self).symbols@,
                }
                &&& match h {
                    hir::Item::Function(f) => sigs(final(self).functions@) == sigs(old(self).functions@).push(sig(f)),
                    _ => final(self).functions@ == old(self).functions@,
                }
                &&& h matches hir::Item::Statement(st) ==> statement_refs(st, old(self).symbols@)
            },
            r matches Err(e) ==> e.message@ == item_message(
                (old(self).symbols@, sigs(old(self).functions@), old(self).next_binding_id as nat),
                *item,
            ),
    {
        reveal(checked_step);
        match item {
            Item::Include(directive) => {
                let mut message = ast::inclusion_keyword();
                push_str(&mut message, " directives must be resolved before typechecking");
                assert(message@ =~= ast::inclusion_keyword_chars() + " directives must be resolved before typechecking"@);
                Err(CompileError::new(directive.span, message))
            },
            Item::Import(import) => Err(
                CompileError::new(import.span, to_owned("import directives must be resolved before typechecking")),
            ),
            Item::Input(input) => {
                let d = self.lower_input(input)?;
                Ok(hir::Item::Input(d))
            },
            Item::Function(function) => {
                let f = self.lower_function(function)?;
                Ok(hir::Item::Function(f))
            },
            Item::Statement(stmt) => {
                let st = self.lower_statement(stmt)?;
                Ok(hir::Item::Statement(st))
            },
        }
    }

    /// The position of the user function named `name`.
    fn find_function(&self, name: &str) -> (r: Option<usize>)
        ensures
            r matches Some(i) ==> i < self.functions@.len(),
            r matches Some(i) ==> function_named(sigs(self.functions@), name@) == Some(i as int),
            r is None ==> function_named(sigs(self.functions@), name@) is None,
    {
        let mut i: usize = 0;
        let ghost fs = sigs(self.functions@);
        assert(fs.subrange(0, fs.len() as int) =~= fs);
        while i < self.functions.len()
            invariant
                i <= self.functions@.len(),
                fs == sigs(self.functions@),
                function_named(fs, name@) == (match function_named(fs.subrange(i as int, fs.len() as int), name@) {
                    Some(k) => Some(k + i),
                    None => None::<int>,
                }),
            decreases self.functions.len() - i,
        {
            let ghost rest = fs.subrange(i as int, fs.len() as int);
            assert(rest.drop_first() =~= fs.subrange(i + 1, fs.len() as int));
            if eq_str(self.functions[i].name.as_str(), name) {
                return Some(i);
            }
            i = i + 1;
        }
        None
    }

    /// Types the call `expr`: a builtin is expanded, a user function instantiated.
    #[verifier::spinoff_prover]
    fn lower_call(&self, expr: &Expr, scope: &Vec<Binding>) -> (r: CompileResult<TypedExpr>)
        requires
            self.wf(),
            expr is Call,
        ensures
            r matches Ok(e) ==> well_typed(e) && refs_bound(e, scope@),
            r is Ok <==> elaborated(sigs(self.functions@), scope@, *expr) is Some,
            r matches Ok(e) ==> elaborated(sigs(self.functions@), scope@, *expr) == Some(e),
            r matches Err(err) ==> err.message@ == elab_message(sigs(self.functions@), scope@, *expr),
        decreases expr, 0int,
    {
        let ghost fs = sigs(self.functions@);
        let (callee, args, span) = match expr {
            Expr::Call { callee, args, span } => (callee, args, span),
            _ => {
                assert(false);
                return Err(CompileError::new(Span::unknown(), to_owned("")));
            },
        };
        assert(*expr == (Expr::Call { callee: *callee, args: *args, span: *span }));
        let callee_name = format_callee(callee.as_slice());
        let mut typed_args: Vec<TypedExpr> = Vec::new();
        let mut i: usize = 0;
        while i < args.len()
            invariant
                self.wf(),
                i <= args@.len(),
                typed_args@.len() == i,
                *expr is Call,
                (*expr)->args == *args,
                forall|k: int| 0 <= k < i ==> well_typed(#[trigger] typed_args@[k]) && refs_bound(typed_args@[k], scope@),
                fs == sigs(self.functions@),
                elaborated_args(fs, scope@, *expr, i as nat) == Some(typed_args@),
            decreases args.len() - i,
        {
            proof {
                assert(decreases_to!(*expr => (*expr)->args));
                vstd::std_specs::vec::axiom_vec_index_decreases(*args, i as int);
            }
            let ghost before = typed_args@;
            let lowered = self.lower_expr_in_scope(&args[i], scope);
            let arg = match lowered {
                Ok(arg) => arg,
                Err(err) => {
                    proof {
                        assert(elaborated_args(fs, scope@, *expr, (i + 1) as nat) is None);
                        lemma_args_fail(fs, scope@, *expr, (i + 1) as nat, args@.len());
                        lemma_args_message_stable(fs, scope@, *expr, (i + 1) as nat, args@.len());
                        reveal(args_message);
                        reveal(elab_message);
                        assert(args_message(fs, scope@, *expr, (i + 1) as nat) == elab_message(fs, scope@, args@[i as int]));
                    }
                    return Err(err);
                },
            };
            typed_args.push(arg);
            proof {
                assert(elaborated_args(fs, scope@, *expr, (i + 1) as nat) == Some(before.push(arg)));
            }
            i = i + 1;
        }
        if callee.len() == 1 && builtins::contains(callee[0].as_str()) {
            let r = builtins::expand(callee[0].as_str(), &typed_args, *span);
            proof {
                if r is Ok {
                    builtins::lemma_expansion_sound(callee@[0]@, typed_args@, *span, scope@);
                }
                if r is Err {
                    reveal(elab_message);
                    let err = r->Err_0;
                    let name = callee@[0]@;
                    if typed_args@.len() == builtins::builtin_arities()[builtins::builtin_index(name)->0].1 {
                        let m = choose|m: Seq<char>| builtins::first_mismatch_reported(name, typed_args@, builtins::expected_types(name, typed_args@), m);
                        lemma_mismatch_unique(name, typed_args@, builtins::expected_types(name, typed_args@), err.message@, m);
                    }
                }
            }
            return r;
        }
        let index = match self.find_function(callee_name.as_str()) {
            Some(index) => index,
            None => {
                let mut message = to_owned("undeclared function `");
                push_str(&mut message, callee_name.as_str());
                push_str(&mut message, "`");
                assert(message@ =~= "undeclared function `"@ + callee_name@ + "`"@);
                proof {
                    reveal(elab_message);
                }
                return Err(CompileError::new(*span, message));
            },
        };
        let function = &self.functions[index];
        assert(function_wf(*function));
        assert(callee_name@ == ast::join_path(ast::string_views(callee@)));
        if typed_args.len() != function.params.len() {
            let mut message = to_owned("function `");
            push_str(&mut message, callee_name.as_str());
            push_str(&mut message, "` expects ");
            push_decimal(&mut message, function.params.len() as u128);
            push_str(&mut message, " arguments but got ");
            push_decimal(&mut message, typed_args.len() as u128);
            assert(message@ =~= builtins::arity_message(callee_name@, function.params@.len(), typed_args@.len()));
            proof {
                reveal(elab_message);
            }
            return Err(CompileError::new(*span, message));
        }
        let mut coerced: Vec<TypedExpr> = Vec::new();
        let mut j: usize = 0;
        while j < typed_args.len()
            invariant
                j <= typed_args@.len(),
                typed_args@.len() == function.params@.len(),
                coerced@.len() == j,
                *expr is Call,
                fs == sigs(self.functions@),
                sig(*function) == fs[index as int],
                elaborated_args(fs, scope@, *expr, args@.len()) == Some(typed_args@),
                function_named(fs, ast::join_path(ast::string_views(callee@))) == Some(index as int),
                !(callee@.len() == 1 && builtins::is_builtin(callee@[0]@)),
                *expr == (Expr::Call { callee: *callee, args: *args, span: *span }),
                callee_name@ == ast::join_path(ast::string_views(callee@)),
                forall|k: int| 0 <= k < typed_args@.len() ==> well_typed(#[trigger] typed_args@[k]) && refs_bound(typed_args@[k], scope@),
                forall|k: int| 0 <= k < j ==> {
                    &&& (#[trigger] coerced@[k]).ty == function.params@[k].ty
                    &&& well_typed(coerced@[k])
                    &&& refs_bound(coerced@[k], scope@)
                    &&& coerce_result(typed_args@[k], function.params@[k].ty) == Some(coerced@[k])
                },
            decreases typed_args.len() - j,
        {
            let param = &function.params[j];
            let arg_ty = typed_args[j].ty;
            proof {
                if coerce_result(typed_args@[j as int], param.ty) is Some {
                    lemma_coerce_sound(typed_args@[j as int], param.ty, scope@);
                }
            }
            match coerce_expr_to_type(typed_args[j].clone(), param.ty, *span) {
                Ok(c) => coerced.push(c),
                Err(_) => {
                    assert(coerce_result(typed_args@[j as int], fs[index as int].1[j as int].ty) is None);
                    let mut message = to_owned("function `");
                    push_str(&mut message, callee_name.as_str());
                    push_str(&mut message, "` expects argument `");
                    push_str(&mut message, param.name.as_str());
                    push_str(&mut message, "` to have type `");
                    push_str(&mut message, param.ty.name());
                    push_str(&mut message, "` but got `");
                    push_str(&mut message, arg_ty.name());
                    push_str(&mut message, "`");
                    proof {
                        let ps = fs[index as int].1;
                        assert(ps == function.params@);
                        assert forall|k: int| 0 <= k < j implies coerce_result(#[trigger] typed_args@[k], ps[k].ty) is Some by {
                            assert(coerce_result(typed_args@[k], function.params@[k].ty) == Some(coerced@[k]));
                        }
                        assert(first_uncoercible(typed_args@, ps, j as int));
                        let k = choose|k: int| first_uncoercible(typed_args@, ps, k);
                        lemma_first_uncoercible_unique(typed_args@, ps, j as int, k);
                        assert(message@ =~= "function `"@ + callee_name@ + "` expects argument `"@ + ps[k].name@ + "` to have type `"@
                            + ast::spelling(ps[k].ty) + "` but got `"@ + ast::spelling(typed_args@[k].ty) + "`"@);
                        assert(message@ == user_call_message(fs, callee_name@, typed_args@));
                        reveal(elab_message);
                        assert(elab_message(fs, scope@, *expr) == user_call_message(fs, callee_name@, typed_args@));
                    }
                    return Err(CompileError::new(*span, message));
                },
            }
            j = j + 1;
        }
        proof {
            assert(coerced@ =~= Seq::new(
                typed_args@.len(),
                |k: int| coerce_result(typed_args@[k], function.params@[k].ty)->0,
            ));
            assert forall|k: int| 0 <= k < typed_args@.len() implies #[trigger] coerce_result(typed_args@[k], fs[index as int].1[k].ty) is Some by {
                assert(coerce_result(typed_args@[k], function.params@[k].ty) == Some(coerced@[k]));
            }
        }
        Ok(instantiate_function(function, &coerced, *span, Ghost(scope@)))
    }

    /// Types `expr`, resolving identifiers in `scope`.
    #[verifier::spinoff_prover]
    #[verifier::rlimit(60)]
    fn lower_expr_in_scope(&self, expr: &Expr, scope: &Vec<Binding>) -> (r: CompileResult<TypedExpr>)
        requires
            self.wf(),
        ensures
            r matches Ok(e) ==> well_typed(e) && refs_bound(e, scope@),
            r is Ok <==> elaborated(sigs(self.functions@), scope@, *expr) is Some,
            r matches Ok(e) ==> elaborated(sigs(self.functions@), scope@, *expr) == Some(e),
            (*expr matches Expr::Ident { name, .. } && forall|i: int| 0 <= i < scope@.len() ==> #[trigger] scope@[i].name@ != name@)
                ==> (r matches Err(err) && err.message@ == undeclared_identifier_message(expr->Ident_name@)),
            r matches Err(err) ==> err.message@ == elab_message(sigs(self.functions@), scope@, *expr),
        decreases expr, 1int,
    {
        let ghost fs = sigs(self.functions@);
        match expr {
            Expr::Number { value, span } => Ok(TypedExpr::field(ExprKind::Constant(*value), *span)),
            Expr::Bool { value, span } => Ok(TypedExpr::bool(ExprKind::BoolConstant(*value), *span)),
            Expr::Ident { name, span } => {
                match find_binding(scope, name.as_str()) {
                    Some(i) => {
                        let binding = scope[i].clone();
                        let ty = binding.ty;
                        Ok(TypedExpr { kind: ExprKind::Reference(binding), ty, span: *span })
                    },
                    None => {
                        let mut message = to_owned("undeclared identifier `");
                        push_str(&mut message, name.as_str());
                        push_str(&mut message, "`");
                        assert(message@ =~= undeclared_identifier_message(name@));
                        proof {
                            reveal(elab_message);
                        }
                        Err(CompileError::new(*span, message))
                    },
                }
            },
            Expr::Call { .. } => self.lower_call(expr, scope),
            Expr::Unary { op, expr: operand, span } => {
                let inner = match self.lower_expr_in_scope(operand, scope) {
                    Ok(inner) => inner,
                    Err(err) => {
                        proof {
                            reveal(elab_message);
                        }
                        return Err(err);
                    },
                };
                if inner.ty != Type::Field {
                    let mut message = to_owned("operator `-` expects `field`, got `");
                    push_str(&mut message, inner.ty.name());
                    push_str(&mut message, "`");
                    assert(message@ =~= "operator `-` expects `field`, got `"@ + ast::spelling(inner.ty) + "`"@);
                    proof {
                        reveal(elab_message);
                    }
                    return Err(CompileError::new(*span, message));
                }
                Ok(TypedExpr::field(ExprKind::Unary { op: *op, expr: Box::new(inner) }, *span))
            },
            Expr::Binary { op, lhs, rhs, span } => {
                let lhs = match self.lower_expr_in_scope(lhs, scope) {
                    Ok(l) => l,
                    Err(err) => {
                        proof {
                            reveal(elab_message);
                        }
                        return Err(err);
                    },
                };
                let rhs = match self.lower_expr_in_scope(rhs, scope) {
                    Ok(r) => r,
                    Err(err) => {
                        proof {
                            reveal(elab_message);
                        }
                        return Err(err);
                    },
                };
                proof {
                    if comparable_result(lhs, rhs) is Some {
                        lemma_comparable_sound(lhs, rhs, scope@);
                    }
                }
                let (lhs, rhs) = match coerce_arithmetic_pair(lhs, rhs, *op, *span) {
                    Ok(pair) => pair,
                    Err(err) => {
                        proof {
                            reveal(elab_message);
                        }
                        return Err(err);
                    },
                };
                let ty = lhs.ty;
                Ok(TypedExpr::new(ExprKind::Binary { op: *op, lhs: Box::new(lhs), rhs: Box::new(rhs) }, ty, *span))
            },
            Expr::IfElse { condition, then_branch, else_branch, span } => {
                let condition = match self.lower_expr_in_scope(condition, scope) {
                    Ok(c) => c,
                    Err(err) => {
                        proof {
                            reveal(elab_message);
                        }
                        return Err(err);
                    },
                };
                if condition.ty != Type::Bool {
                    let mut message = to_owned("`if` condition must have type `bool`, got `");
                    push_str(&mut message, condition.ty.name());
                    push_str(&mut message, "`");
                    assert(message@ =~= "`if` condition must have type `bool`, got `"@ + ast::spelling(condition.ty) + "`"@);
                    proof {
                        reveal(elab_message);
                    }
                    return Err(CompileError::new(*span, message));
                }
                let then_branch = match self.lower_expr_in_scope(then_branch, scope) {
                    Ok(t) => t,
                    Err(err) => {
                        proof {
                            reveal(elab_message);
                        }
                        return Err(err);
                    },
                };
                let else_branch = match self.lower_expr_in_scope(else_branch, scope) {
                    Ok(f) => f,
                    Err(err) => {
                        proof {
                            reveal(elab_message);
                        }
                        return Err(err);
                    },
                };
                let then_ty = then_branch.ty;
                let else_ty = else_branch.ty;
                proof {
                    if comparable_result(then_branch, else_branch) is Some {
                        lemma_comparable_sound(then_branch, else_branch, scope@);
                    }
                }
                let (then_branch, else_branch) = match coerce_comparable_pair(then_branch, else_branch, *span) {
                    Ok(pair) => pair,
                    Err(_) => {
                        proof {
                            reveal(elab_message);
                        }
                        return Err(type_mismatch(then_ty, else_ty, "`if` branches must have the same type, got `", *span));
                    },
                };
                if then_branch.ty != else_branch.ty {
                    proof {
                        reveal(elab_message);
                    }
                    return Err(type_mismatch(
                        then_branch.ty,
                        else_branch.ty,
                        "`if` branches must have the same type, got `",
                        *span,
                    ));
                }
                let ty = then_branch.ty;
                Ok(TypedExpr {
                    kind: ExprKind::IfElse {
                        condition: Box::new(condition),
                        then_branch: Box::new(then_branch),
                        else_branch: Box::new(else_branch),
                    },
                    ty,
                    span: *span,
                })
            },
        }
    }
}

/// Resolves names and checks types, producing the typed program.
///
/// Include and import directives must have been resolved before; they are rejected here.
/// Every declaration must use a fresh name, every identifier must be declared before use, and
/// the operands of arithmetic, constraints, `if` and calls must have agreeing types.
#[verifier::spinoff_prover]
#[verifier::rlimit(100)]
pub fn typecheck(program: &Program) -> (r: CompileResult<hir::Program>)
    ensures
        r matches Ok(h) ==> typechecked(*program, h),
        r is Ok <==> checked_state(program.circuit.items@, program.circuit.items@.len()) is Some,
        r is Ok ==> forall|n: int| 0 <= n < program.circuit.items@.len()
            ==> !(#[trigger] program.circuit.items@[n] is Include) && !(program.circuit.items@[n] is Import),
        forall|n: int| #[trigger] first_refused(program.circuit.items@, n)
            ==> (r matches Err(e) && e.message@ == refusal_message(program.circuit.items@, n)),
        r matches Err(e) ==> exists|n: int| #[trigger] first_refused(program.circuit.items@, n)
            && e.message@ == refusal_message(program.circuit.items@, n),
{
    let mut builder = Builder::new();
    let mut items: Vec<hir::Item> = Vec::new();
    let source = &program.circuit.items;
    let mut i: usize = 0;
    while i < source.len()
        invariant
            i <= source@.len(),
            source@ == program.circuit.items@,
            items@.len() == i,
            builder.wf(),
            ids_in(builder.symbols@, bound_after(items@, i as nat)),
            forall|n: nat| n < i ==> #[trigger] item_scoped(items@, n),
            forall|n: int| 0 <= n < i ==> item_typed(#[trigger] items@[n]),
            forall|n: int| 0 <= n < i ==> corresponds(source@[n], #[trigger] items@[n]),
            builder.symbols@ == scope_after(items@, i as nat),
            sigs(builder.functions@) == sigs(functions_after(items@, i as nat)),
            checked_state(source@, i as nat) == Some((builder.symbols@, sigs(builder.functions@), builder.next_binding_id as nat)),
            forall|n: int|
                0 <= n < i ==> item_elaborated(
                    source@[n],
                    #[trigger] items@[n],
                    scope_after(items@, n as nat),
                    sigs(functions_after(items@, n as nat)),
                ),
        decreases source.len() - i,
    {
        let ghost before_items = items@;
        let ghost before_symbols = builder.symbols@;
        let ghost before_functions = builder.functions@;
        let ghost before_next = builder.next_binding_id as nat;
        let item = match builder.lower_item(&source[i]) {
            Ok(item) => item,
            Err(e) => {
                proof {
                    lemma_checked_fails(source@, (i + 1) as nat, source@.len());
                    assert(first_refused(source@, i as int));
                    reveal(refusal_message);
                    assert(e.message@ == refusal_message(source@, i as int));
                    assert forall|n: int| #[trigger] first_refused(source@, n) implies n == i by {
                        if n < i {
                            lemma_checked_fails(source@, (n + 1) as nat, i as nat);
                        } else if i < n {
                            lemma_checked_fails(source@, (i + 1) as nat, n as nat);
                        }
                    }
                }
                return Err(e);
            },
        };
        let ghost pushed = item;
        items.push(item);
        proof {
            lemma_push_keeps_scoped(before_items, pushed);
            lemma_bound_after_prefix(before_items, pushed, i as nat);
            let bound = bound_after(before_items, i as nat);
            if let hir::Item::Statement(s) = pushed {
                match s {
                    hir::Statement::Let(l) => lemma_refs_bound_within(l.expr, before_symbols, bound),
                    hir::Statement::Constrain(c) => {
                        lemma_refs_bound_within(c.lhs, before_symbols, bound);
                        lemma_refs_bound_within(c.rhs, before_symbols, bound);
                    },
                    hir::Statement::Expose(e) => lemma_refs_bound_within(e.expr, before_symbols, bound),
                }
            }
            assert(item_scoped(items@, i as nat));
            assert(items@[i as int] == pushed);
            let after = bound_after(items@, (i + 1) as nat);
            assert forall|k: int| 0 <= k < builder.symbols@.len() implies after.contains(#[trigger] builder.symbols@[k].id) by {
                if k < before_symbols.len() {
                    assert(before_symbols[k] == builder.symbols@[k]);
                    assert(bound.contains(before_symbols[k].id));
                }
            }
            // the elaboration of every item so far, over the items before it
            lemma_after_push(before_items, pushed, i as nat);
            let fa = functions_after(before_items, i as nat);
            assert forall|n: int| 0 <= n < i + 1 implies item_elaborated(
                source@[n],
                #[trigger] items@[n],
                scope_after(items@, n as nat),
                sigs(functions_after(items@, n as nat)),
            ) by {
                if n < i {
                    lemma_after_push(before_items, pushed, n as nat);
                    assert(items@[n] == before_items[n]);
                }
            }
            assert(scope_after(items@, (i + 1) as nat) == builder.symbols@) by {
                assert(items@[i as int] == pushed);
            }
            assert(sigs(builder.functions@) == sigs(functions_after(items@, (i + 1) as nat))) by {
                assert(items@[i as int] == pushed);
                if let hir::Item::Function(f) = pushed {
                    assert(functions_after(items@, (i + 1) as nat) == fa.push(f));
                    assert(sigs(fa.push(f)) =~= sigs(fa).push(sig(f)));
                }
            }
        }
        i = i + 1;
    }
    proof {
        assert forall|n: int| 0 <= n < program.circuit.items@.len() implies !(#[trigger] program.circuit.items@[n] is Include)
            && !(program.circuit.items@[n] is Import) by {
            assert(corresponds(source@[n], items@[n]));
        }
        assert forall|n: int| #[trigger] first_refused(source@, n) implies false by {
            lemma_checked_fails(source@, (n + 1) as nat, source@.len());
        }
    }
    Ok(hir::Program { circuit: hir::Circuit { name: program.circuit.name.clone(), items } })
}

/// Checks that `program` typechecks, keeping nothing of the result.
pub fn validate(program: &Program) -> (r: CompileResult<()>)
    ensures
        r is Ok ==> forall|n: int| 0 <= n < program.circuit.items@.len()
            ==> !(#[trigger] program.circuit.items@[n] is Include) && !(program.circuit.items@[n] is Import),
        r is Ok ==> exists|h: hir::Program| typechecked(*program, h),
        r is Ok <==> checked_state(program.circuit.items@, program.circuit.items@.len()) is Some,
        r matches Err(e) ==> exists|n: int| #[trigger] first_refused(program.circuit.items@, n)
            && e.message@ == refusal_message(program.circuit.items@, n),
{
    let typed = typecheck(program)?;
    proof {
        assert(typechecked(*program, typed));
    }
    Ok(())
}

} // verus!
