//! Witness assignments and the backend-facing execution entry points.
use vstd::prelude::*;

use crate::backend::interpreter::InterpreterBackend;
use crate::backend::Backend;
use crate::error::RuntimeResult;
use crate::field::{modulus, parsed_value, FieldElement};
use crate::ir::{CircuitIr, Output};
use crate::trace::{execution_succeeds, final_wires, operand_value, writes_in_range};
use crate::text::{chars_of, push_char, push_str, to_owned};

verus! {

/// Strict lexicographic order on character sequences, by code point (the order of `String`'s
/// `Ord`, which compares the UTF-8 bytes).
pub open spec fn text_less(a: Seq<char>, b: Seq<char>) -> bool
    decreases a.len(),
{
    if a.len() == 0 {
        b.len() > 0
    } else if b.len() == 0 {
        false
    } else if a[0] != b[0] {
        a[0] < b[0]
    } else {
        text_less(a.drop_first(), b.drop_first())
    }
}

/// Entries whose names are strictly increasing.
pub open spec fn strictly_sorted(entries: Seq<(String, FieldElement)>) -> bool {
    forall|i: int, j: int|
        0 <= i < j < entries.len() ==> text_less(#[trigger] entries[i].0@, #[trigger] entries[j].0@)
}

/// The value recorded for `name`, if any.
pub open spec fn lookup(entries: Seq<(String, FieldElement)>, name: Seq<char>) -> Option<nat>
    decreases entries.len(),
{
    if entries.len() == 0 {
        None
    } else if entries[0].0@ == name {
        Some(entries[0].1@)
    } else {
        lookup(entries.drop_first(), name)
    }
}

proof fn lemma_text_less_irreflexive(a: Seq<char>)
    ensures
        !text_less(a, a),
    decreases a.len(),
{
    if a.len() > 0 {
        lemma_text_less_irreflexive(a.drop_first());
    }
}

proof fn lemma_text_less_total(a: Seq<char>, b: Seq<char>)
    ensures
        a != b ==> text_less(a, b) || text_less(b, a),
    decreases a.len(),
{
    if a.len() > 0 && b.len() > 0 && a[0] == b[0] {
        lemma_text_less_total(a.drop_first(), b.drop_first());
        if a != b {
            assert(a.drop_first() != b.drop_first()) by {
                if a.drop_first() == b.drop_first() {
                    assert(a =~= seq![a[0]] + a.drop_first());
                    assert(b =~= seq![b[0]] + b.drop_first());
                }
            }
        }
    } else if a.len() == 0 && b.len() == 0 {
        assert(a =~= b);
    }
}

pub proof fn lemma_text_less_transitive(a: Seq<char>, b: Seq<char>, c: Seq<char>)
    requires
        text_less(a, b),
        text_less(b, c),
    ensures
        text_less(a, c),
    decreases a.len(),
{
    if a.len() > 0 && b.len() > 0 && c.len() > 0 && a[0] == b[0] && b[0] == c[0] {
        lemma_text_less_transitive(a.drop_first(), b.drop_first(), c.drop_first());
    }
}

pub proof fn lemma_text_less_asymmetric(a: Seq<char>, b: Seq<char>)
    requires
        text_less(a, b),
    ensures
        !text_less(b, a),
{
    if text_less(b, a) {
        lemma_text_less_transitive(a, b, a);
        lemma_text_less_irreflexive(a);
    }
}

/// Compares two names in `text_less` order.
pub fn text_lt(a: &str, b: &str) -> (r: bool)
    ensures
        r == text_less(a@, b@),
{
    let x = chars_of(a);
    let y = chars_of(b);
    let mut i: usize = 0;
    assert(x@.subrange(0, x@.len() as int) =~= x@);
    assert(y@.subrange(0, y@.len() as int) =~= y@);
    while i < x.len() && i < y.len()
        invariant
            i <= x@.len(),
            i <= y@.len(),
            x@ == a@,
            y@ == b@,
            forall|k: int| 0 <= k < i ==> x@[k] == y@[k],
            text_less(a@, b@) == text_less(x@.subrange(i as int, x@.len() as int), y@.subrange(
                i as int,
                y@.len() as int,
            )),
        decreases x.len() - i,
    {
        let ghost xs = x@.subrange(i as int, x@.len() as int);
        let ghost ys = y@.subrange(i as int, y@.len() as int);
        if x[i] != y[i] {
            assert(xs[0] == x@[i as int] && ys[0] == y@[i as int]);
            return x[i] < y[i];
        }
        assert(xs.drop_first() =~= x@.subrange(i + 1, x@.len() as int));
        assert(ys.drop_first() =~= y@.subrange(i + 1, y@.len() as int));
        i = i + 1;
    }
    let ghost xs = x@.subrange(i as int, x@.len() as int);
    let ghost ys = y@.subrange(i as int, y@.len() as int);
    i == x.len() && i < y.len()
}

pub open spec fn distinct_names(entries: Seq<(String, FieldElement)>) -> bool {
    forall|i: int, j: int|
        0 <= i < j < entries.len() ==> #[trigger] entries[i].0@ != #[trigger] entries[j].0@
}

proof fn lemma_sorted_distinct(entries: Seq<(String, FieldElement)>)
    requires
        strictly_sorted(entries),
    ensures
        distinct_names(entries),
{
    assert forall|i: int, j: int| 0 <= i < j < entries.len() implies #[trigger] entries[i].0@
        != #[trigger] entries[j].0@ by {
        lemma_text_less_irreflexive(entries[i].0@);
    }
}

proof fn lemma_lookup_at(entries: Seq<(String, FieldElement)>, name: Seq<char>, j: int)
    requires
        distinct_names(entries),
        0 <= j < entries.len(),
        entries[j].0@ == name,
    ensures
        lookup(entries, name) == Some(entries[j].1@),
    decreases entries.len(),
{
    if entries[0].0@ != name {
        let rest = entries.drop_first();
        assert(rest[j - 1] == entries[j]);
        assert forall|a: int, b: int| 0 <= a < b < rest.len() implies #[trigger] rest[a].0@
            != #[trigger] rest[b].0@ by {
            assert(rest[a] == entries[a + 1] && rest[b] == entries[b + 1]);
        }
        lemma_lookup_at(rest, name, j - 1);
    } else {
        if j > 0 {
            assert(entries[0].0@ != entries[j].0@);
        }
    }
}

proof fn lemma_lookup_absent(entries: Seq<(String, FieldElement)>, name: Seq<char>)
    requires
        forall|j: int| 0 <= j < entries.len() ==> #[trigger] entries[j].0@ != name,
    ensures
        lookup(entries, name) is None,
    decreases entries.len(),
{
    if entries.len() > 0 {
        let rest = entries.drop_first();
        assert forall|j: int| 0 <= j < rest.len() implies #[trigger] rest[j].0@ != name by {
            assert(rest[j] == entries[j + 1]);
        }
        lemma_lookup_absent(rest, name);
    }
}

/// A name that some entry carries is found.
pub(crate) proof fn lemma_lookup_present(entries: Seq<(String, FieldElement)>, k: int)
    requires
        0 <= k < entries.len(),
    ensures
        lookup(entries, entries[k].0@) is Some,
    decreases entries.len(),
{
    if entries[0].0@ != entries[k].0@ {
        let rest = entries.drop_first();
        assert(rest[k - 1] == entries[k]);
        lemma_lookup_present(rest, k - 1);
    }
}

/// `lookup` in entries with distinct names: the entry with that name, or nothing.
pub proof fn lemma_lookup_distinct(entries: Seq<(String, FieldElement)>, name: Seq<char>)
    requires
        distinct_names(entries),
    ensures
        lookup(entries, name) is Some <==> exists|j: int| 0 <= j < entries.len() && #[trigger] entries[j].0@ == name,
        forall|j: int| 0 <= j < entries.len() && #[trigger] entries[j].0@ == name ==> lookup(entries, name) == Some(entries[j].1@),
{
    if exists|j: int| 0 <= j < entries.len() && #[trigger] entries[j].0@ == name {
        let j = choose|j: int| 0 <= j < entries.len() && #[trigger] entries[j].0@ == name;
        lemma_lookup_at(entries, name, j);
        assert forall|k: int| 0 <= k < entries.len() && #[trigger] entries[k].0@ == name implies lookup(entries, name) == Some(entries[k].1@) by {
            lemma_lookup_at(entries, name, k);
        }
    } else {
        lemma_lookup_absent(entries, name);
    }
}

/// Replaces the value of `name`, or inserts it in name order.
#[verifier::spinoff_prover]
#[verifier::rlimit(40)]
fn sorted_insert(entries: &mut Vec<(String, FieldElement)>, name: &str, value: FieldElement)
    requires
        strictly_sorted(old(entries)@),
    ensures
        strictly_sorted(final(entries)@),
        forall|k: Seq<char>|
            #[trigger] lookup(final(entries)@, k) == if k == name@ {
                Some(value@)
            } else {
                lookup(old(entries)@, k)
            },
{
    let mut i: usize = 0;
    let mut searching = true;
    while searching && i < entries.len()
        invariant
            i <= entries@.len(),
            entries@ == old(entries)@,
            strictly_sorted(entries@),
            forall|j: int| 0 <= j < i ==> text_less(#[trigger] entries@[j].0@, name@),
            !searching ==> i < entries@.len() && !text_less(entries@[i as int].0@, name@),
        decreases entries.len() - i, if searching { 1int } else { 0int },
    {
        if text_lt(entries[i].0.as_str(), name) {
            i = i + 1;
        } else {
            searching = false;
        }
    }
    let ghost before = entries@;
    proof {
        lemma_sorted_distinct(before);
        lemma_text_less_irreflexive(name@);
    }
    if i < entries.len() && eq_str(entries[i].0.as_str(), name) {
        entries.set(i, (to_owned(name), value));
        proof {
            let after = entries@;
            assert forall|a: int, b: int| 0 <= a < b < after.len() implies text_less(
                #[trigger] after[a].0@,
                #[trigger] after[b].0@,
            ) by {
                assert(after[a].0@ == before[a].0@);
                assert(after[b].0@ == before[b].0@);
            }
            lemma_sorted_distinct(after);
            assert forall|k: Seq<char>| #[trigger] lookup(after, k) == if k == name@ {
                Some(value@)
            } else {
                lookup(before, k)
            } by {
                lemma_lookup_distinct(after, k);
                lemma_lookup_distinct(before, k);
                if k == name@ {
                    assert(after[i as int].0@ == k);
                } else {
                    if exists|j: int| 0 <= j < before.len() && #[trigger] before[j].0@ == k {
                        let j = choose|j: int| 0 <= j < before.len() && #[trigger] before[j].0@ == k;
                        assert(after[j] == before[j]);
                    }
                    if exists|j: int| 0 <= j < after.len() && #[trigger] after[j].0@ == k {
                        let j = choose|j: int| 0 <= j < after.len() && #[trigger] after[j].0@ == k;
                        assert(after[j] == before[j]);
                    }
                }
            }
        }
    } else {
        proof {
            if i < before.len() {
                lemma_text_less_total(before[i as int].0@, name@);
            }
        }
        entries.insert(i, (to_owned(name), value));
        proof {
            let after = entries@;
            assert forall|j: int| i < j < after.len() implies text_less(name@, #[trigger] after[j].0@) by {
                assert(after[j] == before[j - 1]);
                if j - 1 > i {
                    lemma_text_less_transitive(name@, before[i as int].0@, before[j - 1].0@);
                }
            }
            assert forall|a: int, b: int| 0 <= a < b < after.len() implies text_less(
                #[trigger] after[a].0@,
                #[trigger] after[b].0@,
            ) by {
                if b < i {
                    assert(after[a] == before[a] && after[b] == before[b]);
                } else if b == i {
                    assert(after[a] == before[a]);
                } else if a < i {
                    assert(after[a] == before[a]);
                    assert(text_less(name@, after[b].0@));
                    lemma_text_less_transitive(after[a].0@, name@, after[b].0@);
                } else if a == i {
                } else {
                    assert(after[a] == before[a - 1] && after[b] == before[b - 1]);
                }
            }
            lemma_sorted_distinct(after);
            assert forall|k: Seq<char>| #[trigger] lookup(after, k) == if k == name@ {
                Some(value@)
            } else {
                lookup(before, k)
            } by {
                lemma_lookup_distinct(after, k);
                lemma_lookup_distinct(before, k);
                if k == name@ {
                    assert(after[i as int].0@ == k);
                } else {
                    if exists|j: int| 0 <= j < before.len() && #[trigger] before[j].0@ == k {
                        let j = choose|j: int| 0 <= j < before.len() && #[trigger] before[j].0@ == k;
                        if j < i {
                            assert(after[j] == before[j]);
                        } else {
                            assert(after[j + 1] == before[j]);
                        }
                    }
                    if exists|j: int| 0 <= j < after.len() && #[trigger] after[j].0@ == k {
                        let j = choose|j: int| 0 <= j < after.len() && #[trigger] after[j].0@ == k;
                        if j < i {
                            assert(after[j] == before[j]);
                        } else if j > i {
                            assert(after[j] == before[j - 1]);
                        }
                    }
                }
            }
        }
    }
}

/// Equality of two string slices.
pub fn eq_str(a: &str, b: &str) -> (r: bool)
    ensures
        r == (a@ == b@),
{
    let x = chars_of(a);
    let y = chars_of(b);
    if x.len() != y.len() {
        return false;
    }
    let mut i: usize = 0;
    while i < x.len()
        invariant
            i <= x@.len() == y@.len(),
            x@ == a@,
            y@ == b@,
            forall|k: int| 0 <= k < i ==> x@[k] == y@[k],
        decreases x.len() - i,
    {
        if x[i] != y[i] {
            return false;
        }
        i = i + 1;
    }
    assert(x@ =~= y@);
    true
}

/// Every value the entries give a name is below the field modulus.
pub open spec fn entries_canonical(entries: Seq<(String, FieldElement)>) -> bool {
    forall|n: Seq<char>| #[trigger] lookup(entries, n) is Some ==> lookup(entries, n)->0 < modulus()
}

/// Every value an assignment gives is a field element.
pub open spec fn values_canonical(inputs: RuntimeInputs) -> bool {
    entries_canonical(inputs.public_entries()) && entries_canonical(inputs.private_entries())
}

/// Witness values for a circuit's public and private inputs, by name.
#[derive(Debug)]
pub struct RuntimeInputs {
    public: Vec<(String, FieldElement)>,
    private: Vec<(String, FieldElement)>,
}

impl RuntimeInputs {
    /// The public assignments, sorted by name.
    pub closed spec fn public_entries(&self) -> Seq<(String, FieldElement)> {
        self.public@
    }

    /// The private assignments, sorted by name.
    pub closed spec fn private_entries(&self) -> Seq<(String, FieldElement)> {
        self.private@
    }

    #[verifier::type_invariant]
    spec fn sorted(&self) -> bool {
        &&& strictly_sorted(self.public@)
        &&& strictly_sorted(self.private@)
        &&& entries_canonical(self.public@)
        &&& entries_canonical(self.private@)
    }

    /// Every assigned value is a field element (below the modulus).
    pub fn lemma_values_canonical(&self)
        ensures
            values_canonical(*self),
    {
        proof {
            use_type_invariant(self);
        }
    }

    pub fn new() -> (r: RuntimeInputs)
        ensures
            r.public_entries().len() == 0,
            r.private_entries().len() == 0,
    {
        RuntimeInputs { public: Vec::new(), private: Vec::new() }
    }

    /// The entries of both maps are sorted by name.
    pub fn lemma_sorted(&self)
        ensures
            strictly_sorted(self.public_entries()),
            strictly_sorted(self.private_entries()),
            distinct_names(self.public_entries()),
            distinct_names(self.private_entries()),
    {
        proof {
            use_type_invariant(self);
            lemma_sorted_distinct(self.public@);
            lemma_sorted_distinct(self.private@);
        }
    }

    /// Assigns a public input, replacing any earlier value for the same name.
    pub fn insert_public(&mut self, name: &str, value: FieldElement)
        ensures
            forall|k: Seq<char>|
                #[trigger] lookup(final(self).public_entries(), k) == if k == name@ {
                    Some(value@)
                } else {
                    lookup(old(self).public_entries(), k)
                },
            final(self).private_entries() == old(self).private_entries(),
    {
        proof {
            use_type_invariant(&*self);
        }
        value.lemma_canonical();
        let mut entries: Vec<(String, FieldElement)> = Vec::new();
        std::mem::swap(&mut entries, &mut self.public);
        sorted_insert(&mut entries, name, value);
        self.public = entries;
    }

    /// Assigns a private input, replacing any earlier value for the same name.
    pub fn insert_private(&mut self, name: &str, value: FieldElement)
        ensures
            forall|k: Seq<char>|
                #[trigger] lookup(final(self).private_entries(), k) == if k == name@ {
                    Some(value@)
                } else {
                    lookup(old(self).private_entries(), k)
                },
            final(self).public_entries() == old(self).public_entries(),
    {
        proof {
            use_type_invariant(&*self);
        }
        value.lemma_canonical();
        let mut entries: Vec<(String, FieldElement)> = Vec::new();
        std::mem::swap(&mut entries, &mut self.private);
        sorted_insert(&mut entries, name, value);
        self.private = entries;
    }

    /// The public assignments, sorted by name.
    pub fn public_values(&self) -> (r: &Vec<(String, FieldElement)>)
        ensures
            r@ == self.public_entries(),
    {
        &self.public
    }

    /// The private assignments, sorted by name.
    pub fn private_values(&self) -> (r: &Vec<(String, FieldElement)>)
        ensures
            r@ == self.private_entries(),
    {
        &self.private
    }
}

impl Default for RuntimeInputs {
    fn default() -> (r: RuntimeInputs)
        ensures
            r.public_entries().len() == 0,
            r.private_entries().len() == 0,
    {
        RuntimeInputs::new()
    }
}


/// The named outputs of a successful execution.
#[derive(Debug)]
pub struct ExecutionResult {
    pub outputs: Vec<(String, FieldElement)>,
}

/// Each output of the circuit, in order, with the value its operand reads from the wires.
pub open spec fn outputs_match(results: Seq<(String, FieldElement)>, outputs: Seq<Output>, wires: Seq<nat>) -> bool {
    &&& results.len() == outputs.len()
    &&& forall|c: int| 0 <= c < results.len() ==> {
        &&& (#[trigger] results[c]).0@ == outputs[c].name@
        &&& operand_value(outputs[c].value, wires) == Some(results[c].1@)
    }
}

/// Executes `ir` with the interpreter backend.
pub fn execute(ir: &CircuitIr, inputs: &RuntimeInputs) -> (r: RuntimeResult<ExecutionResult>)
    requires
        writes_in_range(*ir),
    ensures
        r is Ok <==> execution_succeeds(*ir, *inputs),
        r matches Ok(res) ==> outputs_match(res.outputs@, ir.outputs@, final_wires(*ir, *inputs)->0),
        r matches Err(e) ==> crate::trace::failure_reported(*ir, *inputs, e.message@),
{
    let backend = InterpreterBackend;
    backend.execute(ir, inputs)
}

/// Executes `ir` with the given backend.
pub fn execute_with_backend<B: Backend>(backend: &B, ir: &CircuitIr, inputs: &RuntimeInputs) -> RuntimeResult<ExecutionResult>
    requires
        writes_in_range(*ir),
{
    backend.execute(ir, inputs)
}

/// The position of the first `c` in `s`.
pub open spec fn first_position(s: Seq<char>, c: char) -> Option<int>
    decreases s.len(),
{
    if s.len() == 0 {
        None
    } else if s[0] == c {
        Some(0)
    } else {
        match first_position(s.drop_first(), c) {
            Some(i) => Some(i + 1),
            None => None,
        }
    }
}

/// What a witness assignment `NAME=VALUE` gives: the name before the first `=` (not empty), and
/// the value after it, `true` and `false` standing for one and zero and anything else read as a
/// field element; or the failure.
pub open spec fn assignment_of(raw: Seq<char>) -> Result<(Seq<char>, nat), Seq<char>> {
    match first_position(raw, '=') {
        None => Err("expected NAME=VALUE assignment, got `"@ + raw + "`"@),
        Some(i) => {
            let name = raw.subrange(0, i);
            let value = raw.subrange(i + 1, raw.len() as int);
            if name.len() == 0 {
                Err("missing input name in `"@ + raw + "`"@)
            } else if value == "true"@ {
                Ok((name, 1))
            } else if value == "false"@ {
                Ok((name, 0))
            } else {
                match parsed_value(value) {
                    Some(v) => Ok((name, v)),
                    None => Err("invalid field element `"@ + value + "`"@),
                }
            }
        },
    }
}

/// Reads a witness assignment `NAME=VALUE`.
pub fn parse_assignment(raw: &str) -> (r: Result<(String, FieldElement), String>)
    ensures
        r is Ok <==> assignment_of(raw@) is Ok,
        r matches Ok(pair) ==> assignment_of(raw@) == Ok::<(Seq<char>, nat), Seq<char>>((pair.0@, pair.1@)),
        r matches Err(message) ==> assignment_of(raw@) == Err::<(Seq<char>, nat), Seq<char>>(message@),
{
    let chars = chars_of(raw);
    let mut i: usize = 0;
    assert(chars@.subrange(0, chars@.len() as int) =~= chars@);
    while i < chars.len() && chars[i] != '='
        invariant
            i <= chars@.len(),
            chars@ == raw@,
            forall|k: int| 0 <= k < i ==> chars@[k] != '=',
            first_position(raw@, '=') == (match first_position(raw@.subrange(i as int, raw@.len() as int), '=') {
                Some(k) => Some(k + i),
                None => None::<int>,
            }),
        decreases chars.len() - i,
    {
        let ghost rest = raw@.subrange(i as int, raw@.len() as int);
        assert(rest.drop_first() =~= raw@.subrange(i + 1, raw@.len() as int));
        i = i + 1;
    }
    if i == chars.len() {
        assert(raw@.subrange(i as int, raw@.len() as int) =~= Seq::<char>::empty());
        let mut message = to_owned("expected NAME=VALUE assignment, got `");
        push_str(&mut message, raw);
        push_str(&mut message, "`");
        return Err(message);
    }
    assert(raw@.subrange(i as int, raw@.len() as int)[0] == '=');
    let mut name = String::new();
    let mut k: usize = 0;
    while k < i
        invariant
            k <= i < chars@.len(),
            chars@ == raw@,
            name@ == raw@.subrange(0, k as int),
        decreases i - k,
    {
        push_char(&mut name, chars[k]);
        k = k + 1;
        assert(name@ =~= raw@.subrange(0, k as int));
    }
    let mut value = String::new();
    let mut k: usize = i + 1;
    while k < chars.len()
        invariant
            i + 1 <= k <= chars@.len(),
            chars@ == raw@,
            value@ == raw@.subrange(i + 1, k as int),
        decreases chars.len() - k,
    {
        push_char(&mut value, chars[k]);
        k = k + 1;
        assert(value@ =~= raw@.subrange(i + 1, k as int));
    }
    if i == 0 {
        let mut message = to_owned("missing input name in `");
        push_str(&mut message, raw);
        push_str(&mut message, "`");
        return Err(message);
    }
    let parsed = if eq_str(value.as_str(), "true") {
        FieldElement::one()
    } else if eq_str(value.as_str(), "false") {
        FieldElement::zero()
    } else {
        FieldElement::parse(value.as_str())?
    };
    Ok((name, parsed))
}

} // verus!
