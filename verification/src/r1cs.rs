//! What it means for values to satisfy a rank-one constraint plan, and why the values of a
//! successful run satisfy the plan of a well-formed circuit.
use vstd::prelude::*;
use vstd::arithmetic::div_mod::*;
use vstd::arithmetic::power2::*;

use crate::field::{field_add, field_mul, field_neg, modulus, reduce};
use crate::groth16::{
    assignments_from, output_base, output_value, plan_allocs, plan_feasible, plan_rows, private_value, public_value, wire_value,
    first_pair_value, last_pair_value, range_allocs, range_assigned, range_bits_needed, range_rows_all, bit_allocs, Groth16Assignments,
    assign_vars, equality_row, negated, op_vars, operand_terms, operation_row, range_rows, value_bit, wire_vars, Term,
};
use crate::ir::{op_lhs, op_rhs, wire_below, CircuitIr, Constraint, NamedInput, OpKind, Operand};
use crate::trace::{
    apply_op, assign_wires, execution_succeeds, final_wires, is_trace_of, operand_value, range_bits, range_holds, WitnessTrace,
};
use crate::eval::{lookup, RuntimeInputs};
use crate::optimize::{lemma_run_dense, ops_hold};
use crate::ast::type_bits;
use crate::ir::RangeConstraint;
use crate::field::{FieldElement};
use crate::verify::ir_well_formed;

verus! {

/// The value of a variable: one for the constant, else the value allocated to it.
pub open spec fn term_value(t: Term, vals: Seq<(bool, nat)>) -> nat {
    match t {
        Term::One => 1,
        Term::Var(k) => if (k as int) < vals.len() {
            vals[k as int].1
        } else {
            0
        },
    }
}

/// The value of a linear combination: the field sum of each coefficient times its variable.
pub open spec fn lc_value(lc: Seq<(nat, Term)>, vals: Seq<(bool, nat)>) -> nat
    decreases lc.len(),
{
    if lc.len() == 0 {
        0
    } else {
        field_add(lc_value(lc.drop_last(), vals), field_mul(lc.last().0, term_value(lc.last().1, vals)))
    }
}

/// A row `a * b = c` holds in the field.
pub open spec fn row_holds(row: (Seq<(nat, Term)>, Seq<(nat, Term)>, Seq<(nat, Term)>), vals: Seq<(bool, nat)>) -> bool {
    field_mul(lc_value(row.0, vals), lc_value(row.1, vals)) == lc_value(row.2, vals)
}

/// Every row holds.
pub open spec fn rows_hold(rows: Seq<(Seq<(nat, Term)>, Seq<(nat, Term)>, Seq<(nat, Term)>)>, vals: Seq<(bool, nat)>) -> bool {
    forall|k: int| 0 <= k < rows.len() ==> row_holds(#[trigger] rows[k], vals)
}

proof fn lemma_reduce_below(v: int)
    ensures
        reduce(v) < modulus(),
{
    lemma_mod_bound(v, modulus() as int);
}

proof fn lemma_reduce_small(v: int)
    requires
        0 <= v < modulus(),
    ensures
        reduce(v) == v,
{
    lemma_small_mod(v as nat, modulus());
}

/// Reducing an argument first changes no field sum, difference, product or negation.
proof fn lemma_reduce_ops(x: int, y: int)
    ensures
        reduce(reduce(x) + y) == reduce(x + y),
        reduce(x + reduce(y)) == reduce(x + y),
        reduce(x - reduce(y)) == reduce(x - y),
        reduce(reduce(x) * y) == reduce(x * y),
        reduce(x * reduce(y)) == reduce(x * y),
        reduce(-reduce(x)) == reduce(-x),
        reduce(reduce(x) as int) == reduce(x),
{
    let p = modulus() as int;
    lemma_add_mod_noop_right(y, x, p);
    lemma_add_mod_noop_right(x, y, p);
    lemma_sub_mod_noop_right(x, y, p);
    lemma_mul_mod_noop_left(x, y, p);
    lemma_mul_mod_noop_right(x, y, p);
    lemma_sub_mod_noop_right(0, x, p);
    lemma_mod_twice(x, p);
    assert(y + x == x + y);
    assert(0 - x == -x);
    assert(0 - (x % p) == -(x % p));
}

proof fn lemma_lc_below(lc: Seq<(nat, Term)>, vals: Seq<(bool, nat)>)
    ensures
        lc_value(lc, vals) < modulus(),
{
    if lc.len() > 0 {
        lemma_reduce_below((lc_value(lc.drop_last(), vals) + field_mul(lc.last().0, term_value(lc.last().1, vals))) as int);
    }
}

/// The value of two combinations joined is the field sum of their values.
proof fn lemma_lc_concat(a: Seq<(nat, Term)>, b: Seq<(nat, Term)>, vals: Seq<(bool, nat)>)
    ensures
        lc_value(a + b, vals) == field_add(lc_value(a, vals), lc_value(b, vals)),
    decreases b.len(),
{
    lemma_lc_below(a, vals);
    if b.len() == 0 {
        assert(a + b =~= a);
        lemma_reduce_small(lc_value(a, vals) as int);
    } else {
        let bl = b.drop_last();
        assert((a + b).drop_last() =~= a + bl);
        assert((a + b).last() == b.last());
        lemma_lc_concat(a, bl, vals);
        let x = lc_value(a, vals) as int;
        let y = lc_value(bl, vals) as int;
        let m = field_mul(b.last().0, term_value(b.last().1, vals)) as int;
        lemma_lc_below(bl, vals);
        lemma_reduce_below(x * 1);
        lemma_reduce_small(x);
        lemma_reduce_small(y);
        lemma_reduce_below(m);
        lemma_reduce_small(m);
        // (x + y) + m and x + (y + m) agree after reduction
        lemma_reduce_ops(x + y, m);
        lemma_reduce_ops(x, y + m);
    }
}

proof fn lemma_neg_step(a: nat, c: nat, v: nat)
    ensures
        field_add(field_neg(a), field_mul(field_neg(c), v)) == field_neg(field_add(a, field_mul(c, v))),
{
    let ai = a as int;
    let ci = c as int;
    let vi = v as int;
    let cv = ci * vi;
    vstd::arithmetic::mul::lemma_mul_unary_negation(ci, vi);
    assert((-ci) * vi == -cv);
    lemma_reduce_ops(-ci, vi);
    assert(field_mul(field_neg(c), v) == reduce(-cv));
    lemma_reduce_ops(-ai, -cv);
    lemma_reduce_ops(-ai, 0);
    assert(field_neg(a) == reduce(-ai));
    lemma_reduce_ops(-ai, reduce(-cv) as int);
    assert(field_add(field_neg(a), field_mul(field_neg(c), v)) == reduce(-ai + -cv));
    assert(field_mul(c, v) == reduce(cv));
    lemma_reduce_ops(ai + reduce(cv), 0);
    lemma_reduce_ops(ai, cv);
    lemma_reduce_ops(-ai, cv);
    assert(-(ai + reduce(cv)) == -ai - reduce(cv));
    assert(-ai + -cv == -ai - cv);
}

/// Negating every coefficient negates the value.
proof fn lemma_lc_negated(r: Seq<(nat, Term)>, vals: Seq<(bool, nat)>)
    ensures
        lc_value(negated(r), vals) == field_neg(lc_value(r, vals)),
    decreases r.len(),
{
    let n = negated(r);
    if r.len() == 0 {
        lemma_small_mod(0, modulus());
        assert(reduce(-0int) == 0);
    } else {
        let rl = r.drop_last();
        assert(n.drop_last() =~= negated(rl));
        lemma_lc_negated(rl, vals);
        assert(n.last() == (field_neg(r.last().0), r.last().1));
        lemma_neg_step(lc_value(rl, vals), r.last().0, term_value(r.last().1, vals));
    }
}

/// Allocating densely numbered inputs gives each of their wires the variable of the same number.
proof fn lemma_assign_vars(inputs: Seq<NamedInput>, base: nat, vars: Seq<Option<usize>>)
    requires
        forall|i: int| 0 <= i < inputs.len() ==> #[trigger] inputs[i].wire == base + i,
        base + inputs.len() <= vars.len(),
    ensures
        assign_vars(inputs, base, vars).len() == vars.len(),
        forall|x: int| base <= x < base + inputs.len() ==> #[trigger] assign_vars(inputs, base, vars)[x] == Some(x as usize),
        forall|x: int| 0 <= x < vars.len() && !(base <= x < base + inputs.len()) ==> #[trigger] assign_vars(inputs, base, vars)[x] == vars[x],
    decreases inputs.len(),
{
    if inputs.len() > 0 {
        let init = inputs.drop_last();
        assert forall|i: int| 0 <= i < init.len() implies #[trigger] init[i].wire == base + i by {
            assert(init[i] == inputs[i]);
        }
        lemma_assign_vars(init, base, vars);
        assert(inputs[inputs.len() - 1].wire == base + inputs.len() - 1);
    }
}

/// In a well-formed circuit, once the inputs and the first `k` operations are allocated, each
/// wire defined so far has the variable of its own number, and no later wire has one.
proof fn lemma_op_vars(ir: CircuitIr, k: nat)
    requires
        ir_well_formed(ir),
        k <= ir.operations@.len(),
    ensures
        op_vars(ir, k).len() == ir.next_wire,
        forall|x: int| 0 <= x < ir.public_inputs@.len() + ir.private_inputs@.len() + k ==> #[trigger] op_vars(ir, k)[x] == Some(x as usize),
        forall|x: int| ir.public_inputs@.len() + ir.private_inputs@.len() + k <= x < ir.next_wire ==> #[trigger] op_vars(ir, k)[x] is None,
    decreases k,
{
    let np = ir.public_inputs@.len();
    let ni = np + ir.private_inputs@.len();
    if k == 0 {
        let none = Seq::new(ir.next_wire as nat, |i: int| None::<usize>);
        assert forall|i: int| 0 <= i < ir.public_inputs@.len() implies #[trigger] ir.public_inputs@[i].wire == 0 + i by {}
        lemma_assign_vars(ir.public_inputs@, 0, none);
        let v1 = assign_vars(ir.public_inputs@, 0, none);
        lemma_assign_vars(ir.private_inputs@, np, v1);
    } else {
        lemma_op_vars(ir, (k - 1) as nat);
        assert(ir.operations@[k - 1].out == ni + k - 1);
    }
}

/// Values that agree with the wire table `w` below `bound`, through variables numbered as the
/// wires.
pub open spec fn agrees_below(vars: Seq<Option<usize>>, vals: Seq<(bool, nat)>, w: Seq<nat>, bound: nat) -> bool {
    &&& bound <= vars.len()
    &&& bound <= vals.len()
    &&& bound <= w.len()
    &&& forall|x: int| 0 <= x < bound ==> #[trigger] vars[x] == Some(x as usize) && vals[x].1 == w[x]
}

/// An operand's combination has the value the operand reads, reduced.
proof fn lemma_operand_lc(o: Operand, vars: Seq<Option<usize>>, vals: Seq<(bool, nat)>, w: Seq<nat>, bound: nat)
    requires
        agrees_below(vars, vals, w, bound),
        wire_below(o, bound),
    ensures
        operand_terms(o, vars) is Some,
        operand_value(o, w) is Some,
        lc_value(operand_terms(o, vars)->0, vals) == reduce(operand_value(o, w)->0 as int),
{
    let t = operand_terms(o, vars)->0;
    match o {
        Operand::Wire(x) => {
            assert(vars[x as int] == Some(x));
            assert(t == seq![(1nat, Term::Var(x))]);
            lemma_lc_single(1, Term::Var(x), vals);
            assert(term_value(Term::Var(x), vals) == w[x as int]);
            assert(1 * w[x as int] == w[x as int]);
            assert(lc_value(t, vals) == reduce(w[x as int] as int));
            assert(operand_value(o, w) == Some(w[x as int]));
            assert(operand_value(o, w)->0 == w[x as int]);
            assert(lc_value(operand_terms(o, vars)->0, vals) == reduce(operand_value(o, w)->0 as int));
            assert(term_value(Term::Var(x), vals) == w[x as int]);
        },
        Operand::Const(c) => {
            if c@ == 0 {
                lemma_small_mod(0, modulus());
                assert(lc_value(Seq::<(nat, Term)>::empty(), vals) == 0);
                assert(t =~= Seq::<(nat, Term)>::empty());
                assert(reduce(0) == 0);
                assert(lc_value(operand_terms(o, vars)->0, vals) == reduce(operand_value(o, w)->0 as int));
            } else {
                lemma_lc_single(c@, Term::One, vals);
                assert(t == seq![(c@, Term::One)]);
                assert(c@ * 1 == c@);
                assert(lc_value(operand_terms(o, vars)->0, vals) == reduce(operand_value(o, w)->0 as int));
            }
        },
    }
}

proof fn lemma_lc_single(c: nat, t: Term, vals: Seq<(bool, nat)>)
    ensures
        lc_value(seq![(c, t)], vals) == reduce((c * term_value(t, vals)) as int),
{
    assert(seq![(c, t)].drop_last() =~= Seq::<(nat, Term)>::empty());
    assert(lc_value(Seq::<(nat, Term)>::empty(), vals) == 0);
    assert(seq![(c, t)].last() == (c, t));
    assert(0 + reduce((c * term_value(t, vals)) as int) == reduce((c * term_value(t, vals)) as int));
    lemma_reduce_ops(0, (c * term_value(t, vals)) as int);
    lemma_reduce_ops((c * term_value(t, vals)) as int, 0);
}

proof fn lemma_lc_one(vals: Seq<(bool, nat)>)
    ensures
        lc_value(seq![(1nat, Term::One)], vals) == 1,
{
    lemma_lc_single(1, Term::One, vals);
    lemma_small_mod(1, modulus());
}

/// The row defining an operation's result holds when the result's variable holds its value.
proof fn lemma_operation_row(kind: OpKind, out: usize, vars: Seq<Option<usize>>, vals: Seq<(bool, nat)>, w: Seq<nat>, bound: nat)
    requires
        agrees_below(vars, vals, w, bound),
        wire_below(op_lhs(kind), bound),
        wire_below(op_rhs(kind), bound),
        (out as int) < vals.len(),
        vals[out as int].1 == apply_op(kind, operand_value(op_lhs(kind), w)->0, operand_value(op_rhs(kind), w)->0),
    ensures
        operation_row(kind, out, vars) is Some,
        row_holds(operation_row(kind, out, vars)->0, vals),
{
    lemma_operand_lc(op_lhs(kind), vars, vals, w, bound);
    lemma_operand_lc(op_rhs(kind), vars, vals, w, bound);
    let l = operand_terms(op_lhs(kind), vars)->0;
    let r = operand_terms(op_rhs(kind), vars)->0;
    let a = operand_value(op_lhs(kind), w)->0 as int;
    let b = operand_value(op_rhs(kind), w)->0 as int;
    let row = operation_row(kind, out, vars)->0;
    lemma_lc_one(vals);
    lemma_lc_single(1, Term::Var(out), vals);
    let v = vals[out as int].1;
    lemma_reduce_below(a + b);
    lemma_reduce_below(a - b);
    lemma_reduce_below(a * b);
    lemma_reduce_small(v as int);
    assert(lc_value(row.2, vals) == v);
    let x = lc_value(row.0, vals);
    lemma_reduce_ops(x as int, 0);
    assert(field_mul(x, 1) == reduce(x as int));
    match kind {
        OpKind::Add(_, _) => {
            assert(lc_value(row.1, vals) == 1);
            lemma_lc_concat(l, r, vals);
            lemma_reduce_ops(a, reduce(b) as int);
            lemma_reduce_ops(a, b);
            assert(x == reduce(a + b));
            lemma_reduce_small(x as int);
        },
        OpKind::Sub(_, _) => {
            assert(lc_value(row.1, vals) == 1);
            lemma_lc_negated(r, vals);
            lemma_lc_concat(l, negated(r), vals);
            lemma_reduce_ops(b, 0);
            lemma_reduce_ops(a, reduce(-b) as int);
            lemma_reduce_ops(a, -b);
            assert(x == reduce(a + -b));
            assert(a + -b == a - b);
            lemma_reduce_small(x as int);
        },
        OpKind::Mul(_, _) => {
            lemma_reduce_ops(a, reduce(b) as int);
            lemma_reduce_ops(a, b);
            assert(field_mul(lc_value(row.0, vals), lc_value(row.1, vals)) == reduce(a * b));
        },
    }
}

/// The row asserting an equality holds when both sides read the same value.
proof fn lemma_equality_row(c: Constraint, vars: Seq<Option<usize>>, vals: Seq<(bool, nat)>, w: Seq<nat>, bound: nat)
    requires
        agrees_below(vars, vals, w, bound),
        wire_below(c.lhs, bound),
        wire_below(c.rhs, bound),
        operand_value(c.lhs, w) == operand_value(c.rhs, w),
    ensures
        equality_row(c, vars) is Some,
        row_holds(equality_row(c, vars)->0, vals),
{
    lemma_operand_lc(c.lhs, vars, vals, w, bound);
    lemma_operand_lc(c.rhs, vars, vals, w, bound);
    let l = operand_terms(c.lhs, vars)->0;
    let r = operand_terms(c.rhs, vars)->0;
    let a = operand_value(c.lhs, w)->0 as int;
    let row = equality_row(c, vars)->0;
    lemma_lc_negated(r, vals);
    lemma_lc_concat(l, negated(r), vals);
    lemma_reduce_ops(a, 0);
    lemma_reduce_ops(a, reduce(-a) as int);
    lemma_reduce_ops(a, -a);
    assert(a + -a == 0);
    lemma_small_mod(0, modulus());
    assert(lc_value(row.0, vals) == 0);
    lemma_lc_one(vals);
    assert(lc_value(Seq::<(nat, Term)>::empty(), vals) == 0);
    assert(field_mul(0, 1) == 0);
}

/// The variables from `start` on hold the low `bits` bits of `v`.
pub open spec fn bits_held(v: nat, bits: nat, start: nat, vals: Seq<(bool, nat)>) -> bool {
    &&& start + bits <= vals.len()
    &&& start + bits <= usize::MAX
    &&& forall|i: int| 0 <= i < bits ==> #[trigger] vals[start + i] == (false, if value_bit(v, i as nat) { 1nat } else { 0nat })
}

/// The bit of `v` at `i` is the remainder of `v / 2^i` by two.
proof fn lemma_value_bit(v: nat, i: nat)
    requires
        v < 0x1_0000_0000_0000_0000,
        i < 64,
    ensures
        (if value_bit(v, i) { 1nat } else { 0nat }) == (v / pow2(i)) % 2,
{
    lemma_small_mod(v, 0x1_0000_0000_0000_0000nat);
    let x = v as u64;
    assert((v % 0x1_0000_0000_0000_0000nat) as u64 == x);
    vstd::bits::lemma_u64_shr_is_div(x, i as u64);
    let y = x >> (i as u64);
    assert(y & 1u64 == y % 2) by (bit_vector);
    assert(y as nat == v / pow2(i));
}

/// Weighting the bits of `v` by powers of two gives back its low `n` bits.
proof fn lemma_bits_value(v: nat, n: nat, bits: nat, start: nat, vals: Seq<(bool, nat)>)
    requires
        n <= bits <= 32,
        v < pow2(bits),
        bits_held(v, bits, start, vals),
    ensures
        lc_value(Seq::new(n, |i: int| (pow2(i as nat), Term::Var((start + i) as usize))), vals) == v % pow2(n),
    decreases n,
{
    lemma2_to64();
    let f = |i: int| (pow2(i as nat), Term::Var((start + i) as usize));
    let s = Seq::new(n, f);
    if n == 0 {
        lemma_small_mod(v, pow2(bits));
        assert(v % 1 == 0);
    } else {
        let m = (n - 1) as nat;
        assert(s.drop_last() =~= Seq::new(m, f));
        lemma_bits_value(v, m, bits, start, vals);
        if bits > 0 {
            lemma_pow2_strictly_increases(bits, 64);
        }
        lemma_pow2_strictly_increases(bits, 33);
        lemma_value_bit(v, m);
        let bit: nat = (v / pow2(m)) % 2;
        assert(vals[(start + m) as int] == (false, if value_bit(v, m) { 1nat } else { 0nat }));
        assert(term_value(s.last().1, vals) == bit);
        lemma_pow2_pos(m);
        lemma_mod_breakdown(v as int, pow2(m) as int, 2);
        lemma_pow2_unfold(n);
        assert(pow2(n) == pow2(m) * 2);
        lemma_pow2_strictly_increases(n, 33);
        if n < 32 {
            lemma_pow2_strictly_increases(n, 32);
        }
        lemma_mod_bound(v as int, pow2(n) as int);
        lemma_mod_bound(v as int, pow2(m) as int);
        let low = v % pow2(m);
        assert(v % pow2(n) == pow2(m) * bit + low);
        assert(pow2(m) * bit <= pow2(m)) by (nonlinear_arith) requires bit <= 1;
        lemma_reduce_small((pow2(m) * bit) as int);
        lemma_reduce_small((low + pow2(m) * bit) as int);
    }
}

/// The rows of a range constraint hold when its bit variables hold the bits of a value that
/// fits, and its value combination has that value.
proof fn lemma_neg_one()
    ensures
        field_neg(1) == modulus() - 1,
{
    let p = modulus();
    lemma_fundamental_div_mod_converse(-1, p as int, -1, (p - 1) as int);
}

/// The row `bit * (1 - bit) = 0` holds for a variable that holds zero or one.
proof fn lemma_bit_row(x: Term, vals: Seq<(bool, nat)>)
    requires
        term_value(x, vals) == 0 || term_value(x, vals) == 1,
    ensures
        row_holds((seq![(1nat, x)], seq![(1nat, Term::One), (field_neg(1), x)], Seq::<(nat, Term)>::empty()), vals),
{
    let p = modulus();
    let b = term_value(x, vals);
    lemma_lc_one(vals);
    lemma_neg_one();
    assert(lc_value(Seq::<(nat, Term)>::empty(), vals) == 0);
    lemma_lc_single(1, x, vals);
    lemma_reduce_small(b as int);
    let two = seq![(1nat, Term::One), (field_neg(1), x)];
    assert(two.drop_last() =~= seq![(1nat, Term::One)]);
    assert(lc_value(two, vals) == field_add(1, field_mul(field_neg(1), b)));
    if b == 0 {
        lemma_small_mod(1, p);
        lemma_small_mod(0, p);
        assert(field_mul(0, 1) == 0);
    } else {
        lemma_small_mod((p - 1) as nat, p);
        lemma_mod_self_0(p as int);
        assert(field_mul(1, 0) == 0);
    }
}

/// The row tying the weighted bits to the value holds when the bits are those of the value.
proof fn lemma_recompose_row(start: nat, bits: nat, value: Seq<(nat, Term)>, vals: Seq<(bool, nat)>, v: nat)
    requires
        0 < bits <= 32,
        v < pow2(bits),
        lc_value(value, vals) == v,
        bits_held(v, bits, start, vals),
    ensures
        row_holds(
            (
                Seq::new(bits, |i: int| (pow2(i as nat), Term::Var((start + i) as usize))) + negated(value),
                seq![(1nat, Term::One)],
                Seq::<(nat, Term)>::empty(),
            ),
            vals,
        ),
{
    let p = modulus();
    let weights = Seq::new(bits, |i: int| (pow2(i as nat), Term::Var((start + i) as usize)));
    lemma_bits_value(v, bits, bits, start, vals);
    lemma_small_mod(v, pow2(bits));
    lemma_lc_negated(value, vals);
    lemma_lc_concat(weights, negated(value), vals);
    lemma_reduce_ops(v as int, reduce(-(v as int)) as int);
    lemma_reduce_ops(v as int, -(v as int));
    lemma_small_mod(0, p);
    assert(lc_value(weights + negated(value), vals) == 0);
    lemma_lc_one(vals);
    assert(lc_value(Seq::<(nat, Term)>::empty(), vals) == 0);
    assert(field_mul(0, 1) == 0);
}

/// The rows of a range constraint hold when its bit variables hold the bits of a value that
/// fits, and its value combination has that value.
proof fn lemma_range_rows(start: nat, bits: nat, value: Seq<(nat, Term)>, vals: Seq<(bool, nat)>, v: nat)
    requires
        0 < bits <= 32,
        v < pow2(bits),
        lc_value(value, vals) == v,
        bits_held(v, bits, start, vals),
    ensures
        rows_hold(range_rows(start, bits, value), vals),
{
    let rows = range_rows(start, bits, value);
    assert forall|k: int| 0 <= k < rows.len() implies row_holds(#[trigger] rows[k], vals) by {
        if k < bits {
            let x = Term::Var((start + k) as usize);
            assert(vals[start + k] == (false, if value_bit(v, k as nat) { 1nat } else { 0nat }));
            assert(term_value(x, vals) == vals[start + k].1);
            assert(rows[k] == (seq![(1nat, x)], seq![(1nat, Term::One), (field_neg(1), x)], Seq::<(nat, Term)>::empty()));
            lemma_bit_row(x, vals);
        } else {
            lemma_recompose_row(start, bits, value, vals, v);
        }
    }
}

/// The last pair named `n`, where one is.
proof fn lemma_last_pair(pairs: Seq<(String, FieldElement)>, n: Seq<char>, idx: int) -> (j: int)
    requires
        0 <= idx < pairs.len(),
        pairs[idx].0@ == n,
    ensures
        0 <= j < pairs.len(),
        pairs[j].0@ == n,
        last_pair_value(pairs, n) == Some(pairs[j].1),
    decreases pairs.len(),
{
    if pairs.last().0@ == n {
        pairs.len() - 1
    } else {
        let init = pairs.drop_last();
        assert(idx < pairs.len() - 1);
        assert(init[idx] == pairs[idx]);
        let j = lemma_last_pair(init, n, idx);
        assert(init[j] == pairs[j]);
        j
    }
}

/// The first pair named `n`, where one is.
proof fn lemma_first_pair(pairs: Seq<(String, FieldElement)>, n: Seq<char>, idx: int) -> (j: int)
    requires
        0 <= idx < pairs.len(),
        pairs[idx].0@ == n,
    ensures
        0 <= j < pairs.len(),
        pairs[j].0@ == n,
        first_pair_value(pairs, n) == Some(pairs[j].1),
    decreases idx,
{
    if pairs[0].0@ == n {
        0
    } else {
        let rest = pairs.drop_first();
        assert(rest[idx - 1] == pairs[idx]);
        let j = lemma_first_pair(rest, n, idx - 1);
        assert(rest[j] == pairs[j + 1]);
        j + 1
    }
}

/// Assigning densely numbered inputs puts each one's looked-up value on its wire.
proof fn lemma_assign_dense(inputs: Seq<NamedInput>, base: nat, e: Seq<(String, FieldElement)>, w: Seq<nat>)
    requires
        forall|i: int| 0 <= i < inputs.len() ==> #[trigger] inputs[i].wire == base + i,
        base + inputs.len() <= w.len(),
        assign_wires(inputs, e, w) is Some,
    ensures
        assign_wires(inputs, e, w)->0.len() == w.len(),
        forall|i: int| 0 <= i < inputs.len() ==> lookup(e, (#[trigger] inputs[i]).name@) == Some(assign_wires(inputs, e, w)->0[base + i]),
        forall|x: int| 0 <= x < w.len() && !(base <= x < base + inputs.len()) ==> #[trigger] assign_wires(inputs, e, w)->0[x] == w[x],
    decreases inputs.len(),
{
    if inputs.len() > 0 {
        let init = inputs.drop_last();
        assert forall|i: int| 0 <= i < init.len() implies #[trigger] init[i].wire == base + i by {
            assert(init[i] == inputs[i]);
        }
        lemma_assign_dense(init, base, e, w);
        let n = inputs.len() - 1;
        assert(inputs.last() == inputs[n]);
        assert(inputs[n].wire == base + n);
        assert forall|i: int| 0 <= i < inputs.len() implies lookup(e, (#[trigger] inputs[i]).name@) == Some(
            assign_wires(inputs, e, w)->0[base + i],
        ) by {
            if i < n {
                assert(init[i] == inputs[i]);
            }
        }
    }
}

/// The bit variables of the first `g` range constraints begin those of the first `h`.
proof fn lemma_range_allocs_prefix(ranges: Seq<RangeConstraint>, a: Option<&Groth16Assignments>, g: nat, h: nat)
    requires
        g <= h <= ranges.len(),
    ensures
        range_allocs(ranges, a, g).len() <= range_allocs(ranges, a, h).len(),
        forall|y: int| 0 <= y < range_allocs(ranges, a, g).len() ==> #[trigger] range_allocs(ranges, a, h)[y] == range_allocs(ranges, a, g)[y],
    decreases h,
{
    if g < h {
        lemma_range_allocs_prefix(ranges, a, g, (h - 1) as nat);
    }
}

proof fn lemma_rows_concat(
    x: Seq<(Seq<(nat, Term)>, Seq<(nat, Term)>, Seq<(nat, Term)>)>,
    y: Seq<(Seq<(nat, Term)>, Seq<(nat, Term)>, Seq<(nat, Term)>)>,
    vals: Seq<(bool, nat)>,
)
    requires
        rows_hold(x, vals),
        rows_hold(y, vals),
    ensures
        rows_hold(x + y, vals),
{
    assert forall|k: int| 0 <= k < (x + y).len() implies row_holds(#[trigger] (x + y)[k], vals) by {
        if k < x.len() {
            assert((x + y)[k] == x[k]);
        } else {
            assert((x + y)[k] == y[k - x.len()]);
        }
    }
}

/// The rows of the first `g` range constraints hold when the bit variables hold the bits of
/// the values read, each of which fits its type.
proof fn lemma_range_rows_all(
    ranges: Seq<RangeConstraint>,
    a: Option<&Groth16Assignments>,
    vars: Seq<Option<usize>>,
    vals: Seq<(bool, nat)>,
    fw: Seq<nat>,
    total: nat,
    base: nat,
    g: nat,
)
    requires
        g <= ranges.len(),
        agrees_below(vars, vals, fw, total),
        forall|h: int| 0 <= h < ranges.len() ==> {
            &&& range_holds(#[trigger] ranges[h], fw)
            &&& wire_below(ranges[h].value, total)
            &&& range_bits_needed(ranges[h]) > 0 ==> range_assigned(ranges[h], a) == operand_value(ranges[h].value, fw)
        },
        base + range_allocs(ranges, a, ranges.len()).len() <= vals.len(),
        vals.len() <= usize::MAX,
        forall|y: int| 0 <= y < range_allocs(ranges, a, ranges.len()).len() ==> vals[base + y] == #[trigger] range_allocs(ranges, a, ranges.len())[y],
    ensures
        rows_hold(range_rows_all(ranges, a, vars, base, g), vals),
    decreases g,
{
    if g == 0 {
        assert(range_rows_all(ranges, a, vars, base, g) =~= Seq::empty());
    } else {
        let h = (g - 1) as nat;
        lemma_range_rows_all(ranges, a, vars, vals, fw, total, base, h);
        let r = ranges[h as int];
        let b = range_bits_needed(r);
        if b == 0 {
            assert(range_rows_all(ranges, a, vars, base, g) =~= range_rows_all(ranges, a, vars, base, h));
        } else {
            let big = ranges.len();
            let done = range_allocs(ranges, a, h).len();
            let start = base + done;
            let v = operand_value(r.value, fw)->0;
            assert(range_holds(ranges[h as int], fw));
            assert(b == type_bits(r.ty)->0 && b == range_bits(r.ty));
            assert(b <= 32);
            lemma2_to64();
            if b < 32 {
                lemma_pow2_strictly_increases(b, 32);
            }
            assert(v < pow2(b));
            lemma_operand_lc(r.value, vars, vals, fw, total);
            lemma_reduce_small(v as int);
            lemma_range_allocs_prefix(ranges, a, g, big);
            let here = range_allocs(ranges, a, g);
            assert(here =~= range_allocs(ranges, a, h) + bit_allocs(v, b));
            assert forall|i: int| 0 <= i < b implies #[trigger] vals[start + i] == (false, if value_bit(v, i as nat) { 1nat } else { 0nat }) by {
                assert(vals[base + (done + i)] == range_allocs(ranges, a, big)[done + i]);
                assert(here[done + i] == bit_allocs(v, b)[i]);
            }
            lemma_range_rows(start, b, operand_terms(r.value, vars)->0, vals, v);
            lemma_rows_concat(range_rows_all(ranges, a, vars, base, h), range_rows(start, b, operand_terms(r.value, vars)->0), vals);
        }
    }
}

/// The wire table of a successful run of a well-formed circuit: each input's wire holds the
/// value assigned to its name, and each operation's wire holds its result.
proof fn lemma_run_table(ir: CircuitIr, inputs: RuntimeInputs)
    requires
        ir_well_formed(ir),
        final_wires(ir, inputs) is Some,
    ensures
        final_wires(ir, inputs)->0.len() == ir.next_wire,
        forall|i: int| 0 <= i < ir.public_inputs@.len() ==> lookup(inputs.public_entries(), (#[trigger] ir.public_inputs@[i]).name@) == Some(
            final_wires(ir, inputs)->0[i],
        ),
        forall|j: int| 0 <= j < ir.private_inputs@.len() ==> lookup(inputs.private_entries(), (#[trigger] ir.private_inputs@[j]).name@) == Some(
            final_wires(ir, inputs)->0[ir.public_inputs@.len() + j],
        ),
        ops_hold(ir.operations@, final_wires(ir, inputs)->0),
{
    let np = ir.public_inputs@.len();
    let ni = np + ir.private_inputs@.len();
    let zeros = Seq::new(ir.next_wire as nat, |i: int| 0nat);
    let w1 = assign_wires(ir.public_inputs@, inputs.public_entries(), zeros)->0;
    assert forall|i: int| 0 <= i < np implies #[trigger] ir.public_inputs@[i].wire == 0 + i by {}
    lemma_assign_dense(ir.public_inputs@, 0, inputs.public_entries(), zeros);
    lemma_assign_dense(ir.private_inputs@, np, inputs.private_entries(), w1);
    let w0 = assign_wires(ir.private_inputs@, inputs.private_entries(), w1)->0;
    lemma_run_dense(ir.operations@, ni, w0);
    let fw = final_wires(ir, inputs)->0;
    assert forall|i: int| 0 <= i < np implies lookup(inputs.public_entries(), (#[trigger] ir.public_inputs@[i]).name@) == Some(fw[i]) by {
        assert(fw[i] == w0[i]);
        assert(w0[i] == w1[0 + i]);
    }
    assert forall|j: int| 0 <= j < ir.private_inputs@.len() implies lookup(inputs.private_entries(), (#[trigger] ir.private_inputs@[j]).name@)
        == Some(fw[np + j]) by {
        assert(fw[np + j] == w0[np + j]);
    }
}

/// Where each planned variable stands among the allocations.
proof fn lemma_plan_layout(ir: CircuitIr, a: Option<&Groth16Assignments>)
    ensures
        plan_allocs(ir, a).len() == output_base(ir, a) + ir.outputs@.len(),
        forall|x: int| 0 <= x < ir.public_inputs@.len() ==> #[trigger] plan_allocs(ir, a)[x] == (true, public_value(a, ir.public_inputs@[x].name@)->0),
        forall|j: int| 0 <= j < ir.private_inputs@.len() ==> #[trigger] plan_allocs(ir, a)[ir.public_inputs@.len() + j] == (
            false,
            private_value(a, ir.private_inputs@[j].name@)->0,
        ),
        forall|k: int| 0 <= k < ir.operations@.len() ==> #[trigger] plan_allocs(ir, a)[ir.public_inputs@.len() + ir.private_inputs@.len() + k] == (
            false,
            wire_value(a, ir.operations@[k].out)->0,
        ),
        forall|y: int| 0 <= y < range_allocs(ir.range_constraints@, a, ir.range_constraints@.len()).len() ==> plan_allocs(ir, a)[ir.public_inputs@.len()
            + ir.private_inputs@.len() + ir.operations@.len() + y] == #[trigger] range_allocs(ir.range_constraints@, a, ir.range_constraints@.len())[y],
        forall|o: int| 0 <= o < ir.outputs@.len() ==> #[trigger] plan_allocs(ir, a)[output_base(ir, a) + o] == (
            true,
            output_value(a, ir.outputs@[o].name@)->0,
        ),
{
    let np = ir.public_inputs@.len();
    let nq = ir.private_inputs@.len();
    let nk = ir.operations@.len();
    let pp = Seq::new(np, |i: int| (true, public_value(a, ir.public_inputs@[i].name@)->0));
    let qq = Seq::new(nq, |j: int| (false, private_value(a, ir.private_inputs@[j].name@)->0));
    let kk = Seq::new(nk, |k: int| (false, wire_value(a, ir.operations@[k].out)->0));
    let rr = range_allocs(ir.range_constraints@, a, ir.range_constraints@.len());
    let uu = Seq::new(ir.outputs@.len(), |o: int| (true, output_value(a, ir.outputs@[o].name@)->0));
    let all = plan_allocs(ir, a);
    assert(all == pp + qq + kk + rr + uu);
    assert forall|x: int| 0 <= x < np implies #[trigger] all[x] == pp[x] by {}
    assert forall|j: int| 0 <= j < nq implies #[trigger] all[np + j] == qq[j] by {}
    assert forall|k: int| 0 <= k < nk implies #[trigger] all[np + nq + k] == kk[k] by {}
    assert forall|y: int| 0 <= y < rr.len() implies all[np + nq + nk + y] == #[trigger] rr[y] by {}
    assert forall|o: int| 0 <= o < uu.len() implies #[trigger] all[output_base(ir, a) + o] == uu[o] by {}
}

/// Outputs that share a name read the same value from the wire table `w`.
pub open spec fn outputs_agree(ir: CircuitIr, w: Seq<nat>) -> bool {
    forall|i: int, j: int|
        0 <= i < ir.outputs@.len() && 0 <= j < ir.outputs@.len() && (#[trigger] ir.outputs@[i]).name@ == (#[trigger] ir.outputs@[j]).name@
            ==> operand_value(ir.outputs@[i].value, w) == operand_value(ir.outputs@[j].value, w)
}

/// The planned values agree with the run's wire table on every wire, through variables
/// numbered as the wires.
proof fn lemma_values_agree(ir: CircuitIr, inputs: RuntimeInputs, t: WitnessTrace, a: Groth16Assignments)
    requires
        ir_well_formed(ir),
        execution_succeeds(ir, inputs),
        is_trace_of(ir, inputs, t),
        assignments_from(t, a),
    ensures
        forall|i: int| 0 <= i < ir.public_inputs@.len() ==> #[trigger] public_value(Some(&a), ir.public_inputs@[i].name@) is Some,
        forall|j: int| 0 <= j < ir.private_inputs@.len() ==> #[trigger] private_value(Some(&a), ir.private_inputs@[j].name@) is Some,
        a.wires@.len() == ir.next_wire,
        forall|x: int| 0 <= x < ir.next_wire ==> #[trigger] a.wires@[x]@ == final_wires(ir, inputs)->0[x],
        agrees_below(
            wire_vars(ir),
            plan_allocs(ir, Some(&a)),
            final_wires(ir, inputs)->0,
            ir.next_wire as nat,
        ),
{
    let aa = Some(&a);
    let np = ir.public_inputs@.len();
    let nq = ir.private_inputs@.len();
    let ni = np + nq;
    let nk = ir.operations@.len();
    let fw = final_wires(ir, inputs)->0;
    let vals = plan_allocs(ir, aa);
    lemma_run_table(ir, inputs);
    lemma_plan_layout(ir, aa);
    lemma_op_vars(ir, nk);
    assert forall|x: int| 0 <= x < ir.next_wire implies #[trigger] a.wires@[x]@ == fw[x] by {
        assert(t.wires@[x].value@ == fw[x]);
    }
    assert forall|i: int| 0 <= i < np implies #[trigger] public_value(aa, ir.public_inputs@[i].name@) is Some
        && vals[i].1 == fw[i] by {
        let n = ir.public_inputs@[i].name@;
        assert(a.public_inputs@[i].0@ == t.public_inputs@[i].name@);
        let j = lemma_last_pair(a.public_inputs@, n, i);
        assert(a.public_inputs@[j].0@ == t.public_inputs@[j].name@);
        assert(t.public_inputs@[j].name@ == ir.public_inputs@[j].name@);
        assert(lookup(inputs.public_entries(), ir.public_inputs@[j].name@) == Some(t.public_inputs@[j].value@));
        assert(lookup(inputs.public_entries(), ir.public_inputs@[i].name@) == Some(fw[i]));
    }
    assert forall|j: int| 0 <= j < nq implies #[trigger] private_value(aa, ir.private_inputs@[j].name@) is Some
        && vals[np + j].1 == fw[np + j] by {
        let n = ir.private_inputs@[j].name@;
        assert(a.private_inputs@[j].0@ == t.private_inputs@[j].name@);
        let m = lemma_last_pair(a.private_inputs@, n, j);
        assert(a.private_inputs@[m].0@ == t.private_inputs@[m].name@);
        assert(t.private_inputs@[m].name@ == ir.private_inputs@[m].name@);
        assert(lookup(inputs.private_entries(), ir.private_inputs@[m].name@) == Some(t.private_inputs@[m].value@));
        assert(lookup(inputs.private_entries(), ir.private_inputs@[j].name@) == Some(fw[np + j]));
    }
    assert forall|x: int| 0 <= x < ir.next_wire implies #[trigger] wire_vars(ir)[x] == Some(x as usize) && vals[x].1 == fw[x] by {
        if x < np {
            assert(public_value(aa, ir.public_inputs@[x].name@) is Some);
        } else if x < ni {
            assert(private_value(aa, ir.private_inputs@[x - np].name@) is Some);
            assert(vals[np + (x - np)] == vals[x]);
        } else {
            let k = x - ni;
            assert(ir.operations@[k].out == ni + k);
            assert(vals[ni + k] == vals[x]);
        }
    }
}

/// The row tying an output to its instance variable holds when that variable holds the value
/// the output reads.
proof fn lemma_output_row(terms: Seq<(nat, Term)>, var: usize, vals: Seq<(bool, nat)>, v: nat)
    requires
        lc_value(terms, vals) == reduce(v as int),
        (var as int) < vals.len(),
        vals[var as int].1 == v,
    ensures
        row_holds((terms, seq![(1nat, Term::One)], seq![(1nat, Term::Var(var))]), vals),
{
    lemma_lc_one(vals);
    lemma_lc_single(1, Term::Var(var), vals);
    lemma_reduce_ops(v as int, 0);
    assert(1 * v == v);
    assert(field_mul(reduce(v as int), 1) == reduce(reduce(v as int) as int));
}

/// The defining row of each operation holds.
proof fn lemma_operation_rows(ir: CircuitIr, inputs: RuntimeInputs, t: WitnessTrace, a: Groth16Assignments)
    requires
        ir_well_formed(ir),
        execution_succeeds(ir, inputs),
        outputs_agree(ir, final_wires(ir, inputs)->0),
        is_trace_of(ir, inputs, t),
        assignments_from(t, a),
        plan_allocs(ir, Some(&a)).len() <= usize::MAX,
    ensures
        forall|k: int| 0 <= k < ir.operations@.len() ==> #[trigger] wire_value(Some(&a), ir.operations@[k].out) is Some && operation_row(
            ir.operations@[k].kind,
            (ir.public_inputs@.len() + ir.private_inputs@.len() + k) as usize,
            op_vars(ir, (k + 1) as nat),
        ) is Some,
        rows_hold(
            Seq::new(
                ir.operations@.len(),
                |k: int| operation_row(
                    ir.operations@[k].kind,
                    (ir.public_inputs@.len() + ir.private_inputs@.len() + k) as usize,
                    op_vars(ir, (k + 1) as nat),
                )->0,
            ),
            plan_allocs(ir, Some(&a)),
        ),
{
    let aa = Some(&a);
    let ni = ir.public_inputs@.len() + ir.private_inputs@.len();
    let nk = ir.operations@.len();
    let fw = final_wires(ir, inputs)->0;
    let vals = plan_allocs(ir, aa);
    lemma_run_table(ir, inputs);
    lemma_plan_layout(ir, aa);
    lemma_values_agree(ir, inputs, t, a);
    let op_rows = Seq::new(nk, |k: int| operation_row(ir.operations@[k].kind, (ni + k) as usize, op_vars(ir, (k + 1) as nat))->0);
    assert forall|k: int| 0 <= k < nk implies #[trigger] wire_value(aa, ir.operations@[k].out) is Some && operation_row(
        ir.operations@[k].kind,
        (ni + k) as usize,
        op_vars(ir, (k + 1) as nat),
    ) is Some && row_holds(op_rows[k], vals) by {
        let op = ir.operations@[k];
        lemma_op_vars(ir, (k + 1) as nat);
        assert(op.out == ni + k);
        assert(vals[ni + k] == (false, wire_value(aa, op.out)->0));
        assert forall|x: int| 0 <= x < ni + k implies #[trigger] op_vars(ir, (k + 1) as nat)[x] == Some(x as usize) && vals[x].1 == fw[x] by {
            assert(wire_vars(ir)[x] == Some(x as usize));
        }
        assert(agrees_below(op_vars(ir, (k + 1) as nat), vals, fw, (ni + k) as nat));
        lemma_operation_row(op.kind, (ni + k) as usize, op_vars(ir, (k + 1) as nat), vals, fw, (ni + k) as nat);
    }
}

/// The asserting row of each constraint holds.
proof fn lemma_equality_rows(ir: CircuitIr, inputs: RuntimeInputs, t: WitnessTrace, a: Groth16Assignments)
    requires
        ir_well_formed(ir),
        execution_succeeds(ir, inputs),
        outputs_agree(ir, final_wires(ir, inputs)->0),
        is_trace_of(ir, inputs, t),
        assignments_from(t, a),
        plan_allocs(ir, Some(&a)).len() <= usize::MAX,
    ensures
        forall|c: int| 0 <= c < ir.constraints@.len() ==> #[trigger] equality_row(ir.constraints@[c], wire_vars(ir)) is Some,
        rows_hold(
            Seq::new(ir.constraints@.len(), |c: int| equality_row(ir.constraints@[c], wire_vars(ir))->0),
            plan_allocs(ir, Some(&a)),
        ),
{
    let fw = final_wires(ir, inputs)->0;
    let vals = plan_allocs(ir, Some(&a));
    let vars = wire_vars(ir);
    lemma_run_table(ir, inputs);
    lemma_plan_layout(ir, Some(&a));
    lemma_values_agree(ir, inputs, t, a);
    let eq_rows = Seq::new(ir.constraints@.len(), |c: int| equality_row(ir.constraints@[c], vars)->0);
    assert forall|c: int| 0 <= c < ir.constraints@.len() implies #[trigger] equality_row(ir.constraints@[c], vars) is Some
        && row_holds(eq_rows[c], vals) by {
        assert(crate::trace::constraint_holds(ir.constraints@[c], fw));
        lemma_equality_row(ir.constraints@[c], vars, vals, fw, ir.next_wire as nat);
    }
}

/// The bit rows of each range constraint hold.
proof fn lemma_range_constraint_rows(ir: CircuitIr, inputs: RuntimeInputs, t: WitnessTrace, a: Groth16Assignments)
    requires
        ir_well_formed(ir),
        execution_succeeds(ir, inputs),
        outputs_agree(ir, final_wires(ir, inputs)->0),
        is_trace_of(ir, inputs, t),
        assignments_from(t, a),
        plan_allocs(ir, Some(&a)).len() <= usize::MAX,
    ensures
        forall|h: int|
            0 <= h < ir.range_constraints@.len() && range_bits_needed(#[trigger] ir.range_constraints@[h]) > 0 ==> operand_terms(
                ir.range_constraints@[h].value,
                wire_vars(ir),
            ) is Some && range_assigned(ir.range_constraints@[h], Some(&a)) is Some,
        rows_hold(
            range_rows_all(
                ir.range_constraints@,
                Some(&a),
                wire_vars(ir),
                ir.public_inputs@.len() + ir.private_inputs@.len() + ir.operations@.len(),
                ir.range_constraints@.len(),
            ),
            plan_allocs(ir, Some(&a)),
        ),
{
    let aa = Some(&a);
    let total = ir.next_wire as nat;
    let fw = final_wires(ir, inputs)->0;
    let vals = plan_allocs(ir, aa);
    let vars = wire_vars(ir);
    lemma_run_table(ir, inputs);
    lemma_plan_layout(ir, aa);
    lemma_values_agree(ir, inputs, t, a);
    let ranges = ir.range_constraints@;
    assert forall|h: int| 0 <= h < ranges.len() implies {
        &&& range_holds(#[trigger] ranges[h], fw)
        &&& wire_below(ranges[h].value, total)
        &&& range_bits_needed(ranges[h]) > 0 ==> range_assigned(ranges[h], aa) == operand_value(ranges[h].value, fw)
    } by {
        assert(range_holds(ranges[h], fw));
        if let Operand::Wire(w) = ranges[h].value {
            assert(a.wires@[w as int]@ == fw[w as int]);
        }
    }
    lemma_range_rows_all(
        ranges,
        aa,
        vars,
        vals,
        fw,
        total,
        ir.public_inputs@.len() + ir.private_inputs@.len() + ir.operations@.len(),
        ranges.len(),
    );
    assert forall|h: int| 0 <= h < ranges.len() && range_bits_needed(#[trigger] ranges[h]) > 0 implies operand_terms(ranges[h].value, vars) is Some
        && range_assigned(ranges[h], aa) is Some by {
        lemma_operand_lc(ranges[h].value, vars, vals, fw, total);
    }
}

/// The row of each output holds.
proof fn lemma_output_rows(ir: CircuitIr, inputs: RuntimeInputs, t: WitnessTrace, a: Groth16Assignments)
    requires
        ir_well_formed(ir),
        execution_succeeds(ir, inputs),
        outputs_agree(ir, final_wires(ir, inputs)->0),
        is_trace_of(ir, inputs, t),
        assignments_from(t, a),
        plan_allocs(ir, Some(&a)).len() <= usize::MAX,
    ensures
        forall|o: int| 0 <= o < ir.outputs@.len() ==> #[trigger] output_value(Some(&a), ir.outputs@[o].name@) is Some && operand_terms(
            ir.outputs@[o].value,
            wire_vars(ir),
        ) is Some,
        rows_hold(
            Seq::new(
                ir.outputs@.len(),
                |o: int|
                    (
                        operand_terms(ir.outputs@[o].value, wire_vars(ir))->0,
                        seq![(1nat, Term::One)],
                        seq![(1nat, Term::Var((output_base(ir, Some(&a)) + o) as usize))],
                    ),
            ),
            plan_allocs(ir, Some(&a)),
        ),
{
    let aa = Some(&a);
    let total = ir.next_wire as nat;
    let fw = final_wires(ir, inputs)->0;
    let vals = plan_allocs(ir, aa);
    let vars = wire_vars(ir);
    lemma_run_table(ir, inputs);
    lemma_plan_layout(ir, aa);
    lemma_values_agree(ir, inputs, t, a);
    let ob = output_base(ir, aa);
    let out_rows = Seq::new(
        ir.outputs@.len(),
        |o: int| (operand_terms(ir.outputs@[o].value, vars)->0, seq![(1nat, Term::One)], seq![(1nat, Term::Var((ob + o) as usize))]),
    );
    assert forall|o: int| 0 <= o < ir.outputs@.len() implies #[trigger] output_value(aa, ir.outputs@[o].name@) is Some && operand_terms(
        ir.outputs@[o].value,
        vars,
    ) is Some && row_holds(out_rows[o], vals) by {
        let n = ir.outputs@[o].name@;
        assert(a.outputs@[o].0@ == t.outputs@[o].name@);
        let j = lemma_first_pair(a.outputs@, n, o);
        assert(a.outputs@[j].0@ == t.outputs@[j].name@);
        assert(ir.outputs@[j].name@ == ir.outputs@[o].name@);
        assert(operand_value(ir.outputs@[j].value, fw) == operand_value(ir.outputs@[o].value, fw));
        let v = t.outputs@[o].value@;
        assert(operand_value(ir.outputs@[o].value, fw) == Some(v));
        assert(operand_value(ir.outputs@[j].value, fw) == Some(t.outputs@[j].value@));
        lemma_operand_lc(ir.outputs@[o].value, vars, vals, fw, total);
        assert(vals[ob + o] == (true, output_value(aa, n)->0));
        lemma_output_row(operand_terms(ir.outputs@[o].value, vars)->0, (ob + o) as usize, vals, v);
    }
}

/// The values of a successful run satisfy the rank-one plan of its circuit.
///
/// For a circuit that passes `verify`, the assignments taken from the trace of a run that
/// succeeds, and in which outputs sharing a name expose the same value, make a plan (so
/// `plan_circuit` succeeds on them), and every row `a * b = c` of that plan holds in the field
/// under the planned values: the rows defining operations, asserting constraints, decomposing
/// range-checked values into bits, and tying outputs to their instance variables.
pub proof fn lemma_trace_satisfies_plan(ir: CircuitIr, inputs: RuntimeInputs, t: WitnessTrace, a: Groth16Assignments)
    requires
        ir_well_formed(ir),
        execution_succeeds(ir, inputs),
        outputs_agree(ir, final_wires(ir, inputs)->0),
        is_trace_of(ir, inputs, t),
        assignments_from(t, a),
        plan_allocs(ir, Some(&a)).len() <= usize::MAX,
    ensures
        plan_feasible(ir, Some(&a)),
        rows_hold(plan_rows(ir, Some(&a)), plan_allocs(ir, Some(&a))),
{
    let aa = Some(&a);
    let ni = ir.public_inputs@.len() + ir.private_inputs@.len();
    let nk = ir.operations@.len();
    let vals = plan_allocs(ir, aa);
    let vars = wire_vars(ir);
    lemma_values_agree(ir, inputs, t, a);
    lemma_operation_rows(ir, inputs, t, a);
    lemma_equality_rows(ir, inputs, t, a);
    lemma_range_constraint_rows(ir, inputs, t, a);
    lemma_output_rows(ir, inputs, t, a);
    let op_rows = Seq::new(nk, |k: int| operation_row(ir.operations@[k].kind, (ni + k) as usize, op_vars(ir, (k + 1) as nat))->0);
    let eq_rows = Seq::new(ir.constraints@.len(), |c: int| equality_row(ir.constraints@[c], vars)->0);
    let range_part = range_rows_all(ir.range_constraints@, aa, vars, ni + nk, ir.range_constraints@.len());
    let ob = output_base(ir, aa);
    let out_rows = Seq::new(
        ir.outputs@.len(),
        |o: int| (operand_terms(ir.outputs@[o].value, vars)->0, seq![(1nat, Term::One)], seq![(1nat, Term::Var((ob + o) as usize))]),
    );
    assert(plan_rows(ir, aa) == op_rows + eq_rows + range_part + out_rows);
    lemma_rows_concat(op_rows, eq_rows, vals);
    lemma_rows_concat(op_rows + eq_rows, range_part, vals);
    lemma_rows_concat(op_rows + eq_rows + range_part, out_rows, vals);
}

} // verus!
