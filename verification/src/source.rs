//! Resolution of `include` and `import` directives into one program.
//!
//! The resolver is a state machine: whoever reads files asks it what to do with each
//! directive, given the canonical path the directive names, and hands it the items it parsed.
//! It keeps the stack of files being expanded (to reject cycles), the set of (file, namespace)
//! pairs already expanded (to skip repeats), and the dependency graph.
use vstd::prelude::*;

use crate::ast::{
    format_callee, join_path, string_views, Expr, FunctionDecl, Item, Program, Statement,
};
use crate::builtins;
use crate::error::{CompileError, CompileResult};
use crate::eval::{eq_str, text_less, text_lt};
use crate::pretty::{program_source, render_program};
use crate::span::Span;
use crate::text::{
    copy_strings, decimal, json_array_text, json_string, lines_or_none, push_decimal, push_field,
    push_json_array, push_lines_or_none, push_str, quoted, to_owned, usize_to_string, views,
};
use crate::records::{split_lines, text_lines};
use crate::text::{chars_of, push_char};

verus! {

#[derive(Debug, PartialEq, Eq)]
pub struct DependencyGraph {
    pub root: String,
    pub nodes: Vec<String>,
    pub edges: Vec<DependencyEdge>,
}

#[derive(Debug, PartialEq, Eq)]
pub struct DependencyEdge {
    pub from: String,
    pub to: String,
    pub kind: DependencyKind,
    pub namespace: String,
}

#[derive(Debug, Clone, Copy, PartialEq, Eq, Structural)]
pub enum DependencyKind {
    Include,
    Import,
}

#[derive(Debug, PartialEq, Eq)]
pub struct ResolvedProgram {
    pub program: Program,
    pub graph: DependencyGraph,
}

#[derive(Debug, PartialEq, Eq)]
pub struct StdlibCatalog {
    pub root: String,
    pub modules: Vec<StdlibModule>,
    pub total_lines: usize,
}

#[derive(Debug, PartialEq, Eq)]
pub struct StdlibModule {
    pub logical_path: String,
    pub absolute_path: String,
    pub line_count: usize,
}

/// A path with every backslash turned into a forward slash.
pub open spec fn forward_slashes(path: Seq<char>) -> Seq<char> {
    path.map_values(|c: char| if c == '\\' { '/' } else { c })
}

/// The catalogue entry of a standard-library file: its path below the library root with forward
/// slashes, its path on disk, and the number of lines of its source.
pub fn stdlib_module(relative_path: &str, absolute_path: &str, source: &str) -> (m: StdlibModule)
    ensures
        m.logical_path@ == forward_slashes(relative_path@),
        m.absolute_path@ == absolute_path@,
        m.line_count == text_lines(source@).len(),
{
    let chars = chars_of(relative_path);
    let mut logical_path = String::new();
    let mut i: usize = 0;
    while i < chars.len()
        invariant
            i <= chars@.len(),
            chars@ == relative_path@,
            logical_path@ == forward_slashes(chars@.subrange(0, i as int)),
        decreases chars.len() - i,
    {
        let c = chars[i];
        push_char(&mut logical_path, if c == '\\' { '/' } else { c });
        assert(logical_path@ =~= forward_slashes(chars@.subrange(0, i + 1)));
        i = i + 1;
    }
    assert(chars@.subrange(0, i as int) =~= chars@);
    let lines = split_lines(source);
    StdlibModule { logical_path, absolute_path: to_owned(absolute_path), line_count: lines.len() }
}

// ----- namespacing ----------------------------------------------------------------------------

/// The callee after namespacing: builtins (single-segment names) stay, everything else gets
/// the namespace in front.
pub open spec fn qualified_callee(callee: Seq<Seq<char>>, ns: Seq<Seq<char>>) -> Seq<Seq<char>> {
    if callee.len() == 1 && builtins::is_builtin(callee[0]) {
        callee
    } else {
        ns + callee
    }
}

/// `r` is `e` with every call's callee qualified by the namespace `ns`.
pub open spec fn renamed(e: Expr, r: Expr, ns: Seq<Seq<char>>) -> bool
    decreases e, 0nat,
{
    match e {
        Expr::Number { .. } => r == e,
        Expr::Bool { .. } => r == e,
        Expr::Ident { .. } => r == e,
        Expr::Call { callee, args, span } => {
            proof {
                assert(decreases_to!(e => args));
            }
            &&& r is Call
            &&& string_views(r->callee@) == qualified_callee(string_views(callee@), ns)
            &&& r->Call_span == span
            &&& r->args@.len() == args@.len()
            &&& args_renamed(args@, r->args@, ns, args@.len())
        },
        Expr::Unary { op, expr, span } => r matches Expr::Unary { op: o2, expr: e2, span: s2 } && o2 == op && s2 == span
            && renamed(*expr, *e2, ns),
        Expr::Binary { op, lhs, rhs, span } => r matches Expr::Binary { op: o2, lhs: l2, rhs: r2, span: s2 } && o2 == op
            && s2 == span && renamed(*lhs, *l2, ns) && renamed(*rhs, *r2, ns),
        Expr::IfElse { condition, then_branch, else_branch, span } => r matches Expr::IfElse {
            condition: c2,
            then_branch: t2,
            else_branch: e2,
            span: s2,
        } && s2 == span && renamed(*condition, *c2, ns) && renamed(*then_branch, *t2, ns) && renamed(
            *else_branch,
            *e2,
            ns,
        ),
    }
}

/// The first `n` arguments of `a` are renamed into those of `b`.
pub open spec fn args_renamed(a: Seq<Expr>, b: Seq<Expr>, ns: Seq<Seq<char>>, n: nat) -> bool
    decreases a, n,
{
    if n == 0 || n > a.len() {
        true
    } else {
        args_renamed(a, b, ns, (n - 1) as nat) && renamed(a[n - 1], b[n - 1], ns)
    }
}

fn copy_expr_leaf(expr: &Expr) -> (r: Expr)
    requires
        expr is Number || expr is Bool || expr is Ident,
    ensures
        r == *expr,
{
    match expr {
        Expr::Number { value, span } => Expr::Number { value: *value, span: *span },
        Expr::Bool { value, span } => Expr::Bool { value: *value, span: *span },
        Expr::Ident { name, span } => Expr::Ident { name: name.clone(), span: *span },
        _ => Expr::Number { value: 0, span: Span::unknown() },
    }
}

/// `namespace` followed by `callee`.
pub fn qualify_callee(namespace: &Vec<String>, callee: &Vec<String>) -> (r: Vec<String>)
    ensures
        string_views(r@) == string_views(namespace@) + string_views(callee@),
{
    let mut qualified = copy_strings(namespace);
    let mut i: usize = 0;
    while i < callee.len()
        invariant
            i <= callee@.len(),
            string_views(qualified@) == string_views(namespace@) + string_views(callee@.subrange(0, i as int)),
        decreases callee.len() - i,
    {
        let segment = callee[i].clone();
        let ghost before = qualified@;
        qualified.push(segment);
        assert(string_views(qualified@) =~= string_views(before).push(callee@[i as int]@));
        assert(string_views(callee@.subrange(0, i + 1)) =~= string_views(callee@.subrange(0, i as int)).push(callee@[i as int]@));
        assert(string_views(qualified@) =~= string_views(namespace@) + string_views(callee@.subrange(0, i + 1)));
        i = i + 1;
    }
    assert(callee@.subrange(0, i as int) =~= callee@);
    qualified
}

/// `namespace` with `segment` appended.
pub fn extend_namespace(namespace: &Vec<String>, segment: &str) -> (r: Vec<String>)
    ensures
        string_views(r@) == string_views(namespace@).push(segment@),
{
    let mut next = copy_strings(namespace);
    next.push(to_owned(segment));
    assert(string_views(next@) =~= string_views(namespace@).push(segment@));
    next
}

/// `expr` with every non-builtin callee qualified by `namespace`.
pub fn namespace_expr(expr: &Expr, namespace: &Vec<String>) -> (r: Expr)
    ensures
        renamed(*expr, r, string_views(namespace@)),
    decreases expr,
{
    match expr {
        Expr::Number { .. } | Expr::Bool { .. } | Expr::Ident { .. } => copy_expr_leaf(expr),
        Expr::Call { callee, args, span } => {
            let new_callee = if callee.len() == 1 && builtins::contains(callee[0].as_str()) {
                copy_strings(callee)
            } else {
                qualify_callee(namespace, callee)
            };
            let mut new_args: Vec<Expr> = Vec::new();
            let mut i: usize = 0;
            while i < args.len()
                invariant
                    i <= args@.len(),
                    *expr is Call,
                    (*expr)->args == *args,
                    new_args@.len() == i,
                    args_renamed(args@, new_args@, string_views(namespace@), i as nat),
                decreases args.len() - i,
            {
                proof {
                    assert(decreases_to!(*expr => (*expr)->args));
                    vstd::std_specs::vec::axiom_vec_index_decreases(*args, i as int);
                }
                let renamed_arg = namespace_expr(&args[i], namespace);
                let ghost before = new_args@;
                new_args.push(renamed_arg);
                proof {
                    lemma_args_renamed_extend(args@, before, new_args@, string_views(namespace@), i as nat);
                }
                i = i + 1;
            }
            Expr::Call { callee: new_callee, args: new_args, span: *span }
        },
        Expr::Unary { op, expr: inner, span } => Expr::Unary {
            op: *op,
            expr: Box::new(namespace_expr(inner, namespace)),
            span: *span,
        },
        Expr::Binary { op, lhs, rhs, span } => Expr::Binary {
            op: *op,
            lhs: Box::new(namespace_expr(lhs, namespace)),
            rhs: Box::new(namespace_expr(rhs, namespace)),
            span: *span,
        },
        Expr::IfElse { condition, then_branch, else_branch, span } => Expr::IfElse {
            condition: Box::new(namespace_expr(condition, namespace)),
            then_branch: Box::new(namespace_expr(then_branch, namespace)),
            else_branch: Box::new(namespace_expr(else_branch, namespace)),
            span: *span,
        },
    }
}

pub(crate) proof fn lemma_args_renamed_extend(a: Seq<Expr>, before: Seq<Expr>, after: Seq<Expr>, ns: Seq<Seq<char>>, n: nat)
    requires
        n < a.len(),
        before.len() == n,
        after == before.push(after[n as int]),
        args_renamed(a, before, ns, n),
        renamed(a[n as int], after[n as int], ns),
    ensures
        args_renamed(a, after, ns, n + 1),
{
    lemma_args_renamed_prefix(a, before, after, ns, n);
}

proof fn lemma_args_renamed_prefix(a: Seq<Expr>, before: Seq<Expr>, after: Seq<Expr>, ns: Seq<Seq<char>>, n: nat)
    requires
        before.len() <= after.len(),
        n <= before.len(),
        forall|k: int| 0 <= k < before.len() ==> #[trigger] after[k] == before[k],
        args_renamed(a, before, ns, n),
    ensures
        args_renamed(a, after, ns, n),
    decreases n,
{
    if n > 0 && n <= a.len() {
        lemma_args_renamed_prefix(a, before, after, ns, (n - 1) as nat);
    }
}

/// The function as seen from outside a module: named `namespace::name`, with its callees
/// qualified.
pub fn namespace_function(function: &FunctionDecl, namespace: &Vec<String>) -> (r: FunctionDecl)
    ensures
        r.name@ == join_path(string_views(namespace@).push(function.name@)),
        r.params@ == function.params@,
        r.return_type == function.return_type,
        renamed(function.body, r.body, string_views(namespace@)),
        r.span == function.span,
{
    let qualified = extend_namespace(namespace, function.name.as_str());
    let mut params = Vec::new();
    let mut i: usize = 0;
    while i < function.params.len()
        invariant
            i <= function.params@.len(),
            params@ == function.params@.subrange(0, i as int),
        decreases function.params.len() - i,
    {
        let p = &function.params[i];
        params.push(crate::ast::Param { name: p.name.clone(), ty: p.ty, span: p.span });
        assert(params@ =~= function.params@.subrange(0, i + 1));
        i = i + 1;
    }
    assert(params@ =~= function.params@);
    FunctionDecl {
        name: format_callee(qualified.as_slice()),
        params,
        return_type: function.return_type,
        body: namespace_expr(&function.body, namespace),
        span: function.span,
    }
}

// ----- the resolver ---------------------------------------------------------------------------

pub open spec fn kind_label(kind: DependencyKind) -> Seq<char> {
    match kind {
        DependencyKind::Include => crate::ast::inclusion_keyword_chars(),
        DependencyKind::Import => "import"@,
    }
}

impl DependencyKind {
    pub fn label(self) -> (r: String)
        ensures
            r@ == kind_label(self),
    {
        match self {
            DependencyKind::Include => crate::ast::inclusion_keyword(),
            DependencyKind::Import => to_owned("import"),
        }
    }
}

/// An edge as plain values: source file, target file, kind and namespace.
pub open spec fn edge_view(e: DependencyEdge) -> (Seq<char>, Seq<char>, DependencyKind, Seq<char>) {
    (e.from@, e.to@, e.kind, e.namespace@)
}

/// What to do with a directive.
#[derive(Debug)]
pub enum Visit {
    /// The file was already expanded under this namespace: nothing more to add.
    Skip,
    /// Read, parse and resolve the file under `namespace`, in module mode when `module_mode`,
    /// then call `leave`.
    Expand { namespace: Vec<String>, module_mode: bool },
}

pub struct Resolver {
    stack: Vec<String>,
    expanded: Vec<(String, String)>,
    nodes: Vec<String>,
    edges: Vec<DependencyEdge>,
}

/// The message for a cycle: the stack from the first occurrence of `target`, then `target`.
pub open spec fn cycle_message(stack: Seq<Seq<char>>, from: int, target: Seq<char>) -> Seq<char> {
    "circular include detected: "@ + join_arrows(stack.subrange(from, stack.len() as int).push(target))
}

/// The parts separated by ` -> `.
pub open spec fn join_arrows(parts: Seq<Seq<char>>) -> Seq<char>
    decreases parts.len(),
{
    if parts.len() == 0 {
        Seq::empty()
    } else if parts.len() == 1 {
        parts[0]
    } else {
        join_arrows(parts.drop_last()) + " -> "@ + parts.last()
    }
}

pub open spec fn module_message() -> Seq<char> {
    "imported modules may only contain functions, includes, and imports"@
}

pub open spec fn no_duplicates(s: Seq<Seq<char>>) -> bool {
    forall|i: int, j: int| 0 <= i < j < s.len() ==> #[trigger] s[i] != #[trigger] s[j]
}

impl Resolver {
    /// The files being expanded, outermost first.
    pub closed spec fn stack_view(&self) -> Seq<Seq<char>> {
        views(self.stack@)
    }

    /// The (file, namespace) pairs already expanded.
    pub closed spec fn expanded_view(&self) -> Set<(Seq<char>, Seq<char>)> {
        Set::new(|k: (Seq<char>, Seq<char>)| exists|i: int| 0 <= i < self.expanded@.len()
            && (#[trigger] self.expanded@[i]).0@ == k.0 && self.expanded@[i].1@ == k.1)
    }

    /// The files of the graph, in order of first mention.
    pub closed spec fn nodes_view(&self) -> Seq<Seq<char>> {
        views(self.nodes@)
    }

    /// The edges of the graph, in the order the directives were met.
    pub closed spec fn edges_view(&self) -> Seq<(Seq<char>, Seq<char>, DependencyKind, Seq<char>)> {
        self.edges@.map_values(|e: DependencyEdge| edge_view(e))
    }

    #[verifier::type_invariant]
    closed spec fn graph_wf(&self) -> bool {
        no_duplicates(views(self.nodes@))
    }

    /// A resolver for the program whose root file is `root`: the root is the first node, on
    /// the stack, and expanded without a namespace.
    pub fn new(root: &str) -> (r: Resolver)
        ensures
            r.stack_view() == seq![root@],
            r.nodes_view() == seq![root@],
            r.expanded_view() == set![(root@, Seq::<char>::empty())],
            r.edges_view() == Seq::<(Seq<char>, Seq<char>, DependencyKind, Seq<char>)>::empty(),
    {
        let mut stack = Vec::new();
        stack.push(to_owned(root));
        let mut nodes = Vec::new();
        nodes.push(to_owned(root));
        let mut expanded = Vec::new();
        expanded.push((to_owned(root), String::new()));
        let r = Resolver { stack, expanded, nodes, edges: Vec::new() };
        proof {
            assert(views(r.stack@) =~= seq![root@]);
            assert(views(r.nodes@) =~= seq![root@]);
            assert(r.expanded_view() =~= set![(root@, Seq::<char>::empty())]) by {
                assert forall|k: (Seq<char>, Seq<char>)| r.expanded_view().contains(k) <==> k == (root@, Seq::<char>::empty()) by {
                    if k == (root@, Seq::<char>::empty()) {
                        assert(r.expanded@[0].0@ == k.0 && r.expanded@[0].1@ == k.1);
                    }
                }
            }
        }
        r
    }

    fn add_node(&mut self, path: &str)
        ensures
            final(self).stack@ == old(self).stack@,
            final(self).expanded@ == old(self).expanded@,
            final(self).edges@ == old(self).edges@,
            final(self).nodes_view() == if old(self).nodes_view().contains(path@) {
                old(self).nodes_view()
            } else {
                old(self).nodes_view().push(path@)
            },
    {
        proof {
            use_type_invariant(&*self);
        }
        let mut i: usize = 0;
        while i < self.nodes.len()
            invariant
                i <= self.nodes@.len(),
                forall|k: int| 0 <= k < i ==> #[trigger] self.nodes@[k]@ != path@,
            decreases self.nodes.len() - i,
        {
            if eq_str(self.nodes[i].as_str(), path) {
                assert(views(self.nodes@)[i as int] == path@);
                return;
            }
            i = i + 1;
        }
        assert(!views(self.nodes@).contains(path@));
        let ghost before = views(self.nodes@);
        let mut nodes = Vec::new();
        std::mem::swap(&mut nodes, &mut self.nodes);
        nodes.push(to_owned(path));
        assert(views(nodes@) =~= before.push(path@));
        self.nodes = nodes;
    }

    fn is_expanded(&self, path: &str, namespace: &str) -> (r: bool)
        ensures
            r == self.expanded_view().contains((path@, namespace@)),
    {
        let mut i: usize = 0;
        while i < self.expanded.len()
            invariant
                i <= self.expanded@.len(),
                forall|k: int| 0 <= k < i ==> !((#[trigger] self.expanded@[k]).0@ == path@ && self.expanded@[k].1@ == namespace@),
            decreases self.expanded.len() - i,
        {
            if eq_str(self.expanded[i].0.as_str(), path) && eq_str(self.expanded[i].1.as_str(), namespace) {
                assert(self.expanded_view().contains((path@, namespace@)));
                return true;
            }
            i = i + 1;
        }
        false
    }

    fn stack_position(&self, target: &str) -> (r: Option<usize>)
        ensures
            r matches Some(i) ==> i < self.stack_view().len() && self.stack_view()[i as int] == target@
                && forall|k: int| 0 <= k < i ==> #[trigger] self.stack_view()[k] != target@,
            r is None ==> !self.stack_view().contains(target@),
    {
        let mut i: usize = 0;
        while i < self.stack.len()
            invariant
                i <= self.stack@.len(),
                forall|k: int| 0 <= k < i ==> #[trigger] views(self.stack@)[k] != target@,
            decreases self.stack.len() - i,
        {
            if eq_str(self.stack[i].as_str(), target) {
                return Some(i);
            }
            i = i + 1;
        }
        None
    }

    /// Decides on a directive of the file `owner`: records the graph edge (and the target as
    /// a node), fails on a cycle (the target is being expanded), skips a target already
    /// expanded under the same namespace, and otherwise pushes the target and tells the
    /// caller to expand it. An import extends the namespace by its alias and expands the
    /// target in module mode; an include keeps both.
    pub fn enter(
        &mut self,
        owner: &str,
        kind: DependencyKind,
        target: &str,
        namespace: &Vec<String>,
        alias: &str,
        module_mode: bool,
        span: Span,
    ) -> (r: CompileResult<Visit>)
        ensures
            final(self).edges_view() == old(self).edges_view().push(
                (owner@, target@, kind, join_path(entered_namespace(kind, string_views(namespace@), alias@))),
            ),
            final(self).nodes_view() == if old(self).nodes_view().contains(target@) {
                old(self).nodes_view()
            } else {
                old(self).nodes_view().push(target@)
            },
            old(self).stack_view().contains(target@) <==> r is Err,
            r matches Err(e) ==> exists|i: int| 0 <= i < old(self).stack_view().len() && old(self).stack_view()[i] == target@
                && e.message@ == cycle_message(old(self).stack_view(), i, target@),
            r matches Ok(Visit::Skip) ==> final(self).stack_view() == old(self).stack_view(),
            r is Ok ==> (r matches Ok(Visit::Skip) <==> old(self).expanded_view().contains(
                (target@, join_path(entered_namespace(kind, string_views(namespace@), alias@))),
            )),
            r matches Ok(Visit::Expand { namespace: ns, module_mode: m }) ==> {
                &&& string_views(ns@) == entered_namespace(kind, string_views(namespace@), alias@)
                &&& m == (module_mode || kind == DependencyKind::Import)
                &&& final(self).stack_view() == old(self).stack_view().push(target@)
                &&& final(self).expanded_view() == old(self).expanded_view().insert((target@, join_path(string_views(ns@))))
            },
    {
        let next_namespace = match kind {
            DependencyKind::Include => copy_strings(namespace),
            DependencyKind::Import => extend_namespace(namespace, alias),
        };
        assert(string_views(next_namespace@) =~= entered_namespace(kind, string_views(namespace@), alias@));
        let namespace_text = format_callee(next_namespace.as_slice());
        self.add_node(target);
        let ghost nodes_after = self.nodes_view();
        proof {
            use_type_invariant(&*self);
        }
        let edge = DependencyEdge { from: to_owned(owner), to: to_owned(target), kind, namespace: namespace_text.clone() };
        let mut edges = Vec::new();
        std::mem::swap(&mut edges, &mut self.edges);
        edges.push(edge);
        self.edges = edges;
        assert(self.nodes_view() == nodes_after);
        if let Some(index) = self.stack_position(target) {
            let mut message = to_owned("circular include detected: ");
            let mut k: usize = index;
            let ghost parts = self.stack_view().subrange(index as int, self.stack_view().len() as int).push(target@);
            while k < self.stack.len()
                invariant
                    index <= k <= self.stack@.len(),
                    parts == self.stack_view().subrange(index as int, self.stack_view().len() as int).push(target@),
                    self.stack_view() == views(self.stack@),
                    message@ == "circular include detected: "@ + join_arrows(parts.subrange(0, k - index)),
                decreases self.stack.len() - k,
            {
                if k > index {
                    push_str(&mut message, " -> ");
                }
                push_str(&mut message, self.stack[k].as_str());
                proof {
                    let done = parts.subrange(0, k - index + 1);
                    assert(done.drop_last() =~= parts.subrange(0, k - index));
                    assert(done.last() == self.stack_view()[k as int]);
                }
                assert(message@ =~= "circular include detected: "@ + join_arrows(parts.subrange(0, k - index + 1)));
                k = k + 1;
            }
            if k > index {
                push_str(&mut message, " -> ");
            }
            push_str(&mut message, target);
            proof {
                assert(parts.subrange(0, k - index + 1) =~= parts);
                assert(parts.drop_last() =~= parts.subrange(0, k - index));
            }
            assert(message@ =~= cycle_message(old(self).stack_view(), index as int, target@));
            return Err(CompileError::new(span, message));
        }
        if self.is_expanded(target, namespace_text.as_str()) {
            return Ok(Visit::Skip);
        }
        proof {
            use_type_invariant(&*self);
        }
        let mut stack = Vec::new();
        std::mem::swap(&mut stack, &mut self.stack);
        stack.push(to_owned(target));
        self.stack = stack;
        let mut expanded = Vec::new();
        std::mem::swap(&mut expanded, &mut self.expanded);
        expanded.push((to_owned(target), namespace_text));
        self.expanded = expanded;
        proof {
            assert(views(self.stack@) =~= views(old(self).stack@).push(target@));
            assert(self.expanded_view() =~= old(self).expanded_view().insert((target@, join_path(string_views(next_namespace@)))))
                by {
                assert forall|key: (Seq<char>, Seq<char>)| self.expanded_view().contains(key) <==> old(self).expanded_view().insert(
                    (target@, join_path(string_views(next_namespace@))),
                ).contains(key) by {
                    let n = self.expanded@.len() - 1;
                    if key == (target@, join_path(string_views(next_namespace@))) {
                        assert(self.expanded@[n].0@ == key.0 && self.expanded@[n].1@ == key.1);
                    }
                    if old(self).expanded_view().contains(key) {
                        let i = choose|i: int| 0 <= i < old(self).expanded@.len() && (#[trigger] old(self).expanded@[i]).0@ == key.0
                            && old(self).expanded@[i].1@ == key.1;
                        assert(self.expanded@[i] == old(self).expanded@[i]);
                    }
                    if self.expanded_view().contains(key) {
                        let i = choose|i: int| 0 <= i < self.expanded@.len() && (#[trigger] self.expanded@[i]).0@ == key.0
                            && self.expanded@[i].1@ == key.1;
                        if i < n {
                            assert(self.expanded@[i] == old(self).expanded@[i]);
                        }
                    }
                }
            }
        }
        Ok(Visit::Expand { namespace: next_namespace, module_mode: module_mode || kind == DependencyKind::Import })
    }

    /// Ends the expansion of the innermost file.
    pub fn leave(&mut self)
        ensures
            final(self).stack_view() == if old(self).stack_view().len() > 0 {
                old(self).stack_view().drop_last()
            } else {
                old(self).stack_view()
            },
            final(self).nodes_view() == old(self).nodes_view(),
            final(self).expanded_view() == old(self).expanded_view(),
            final(self).edges_view() == old(self).edges_view(),
    {
        proof {
            use_type_invariant(&*self);
        }
        let mut stack = Vec::new();
        std::mem::swap(&mut stack, &mut self.stack);
        let _ = stack.pop();
        self.stack = stack;
        assert(views(self.stack@) =~= if old(self).stack_view().len() > 0 {
            old(self).stack_view().drop_last()
        } else {
            old(self).stack_view()
        });
    }

    /// Places an item that is no directive: a function is namespaced (when there is a
    /// namespace), and inputs and statements are refused inside imported modules.
    pub fn place(&self, item: &Item, namespace: &Vec<String>, module_mode: bool) -> (r: CompileResult<Item>)
        requires
            item is Input || item is Function || item is Statement,
        ensures
            module_mode && !(item is Function) ==> (r matches Err(e) && e.message@ == module_message()),
            r is Ok <==> (item is Function || !module_mode),
            r matches Ok(placed) ==> (item is Function <==> placed is Function),
            r matches Ok(Item::Function(f)) ==> (item matches Item::Function(g) && (namespace@.len() == 0 ==> f.name@ == g.name@)
                && (namespace@.len() > 0 ==> f.name@ == join_path(string_views(namespace@).push(g.name@)))),
            r matches Ok(placed) ==> placed_as(*item, placed, string_views(namespace@)),
    {
        match item {
            Item::Function(function) => {
                if namespace.len() == 0 {
                    assert(string_views(namespace@) =~= Seq::<Seq<char>>::empty());
                    Ok(Item::Function(copy_function(function)))
                } else {
                    Ok(Item::Function(namespace_function(function, namespace)))
                }
            },
            Item::Input(input) => {
                if module_mode {
                    return Err(CompileError::new(input.span, to_owned("imported modules may only contain functions, includes, and imports")));
                }
                Ok(Item::Input(crate::ast::InputDecl {
                    visibility: input.visibility,
                    name: input.name.clone(),
                    ty: input.ty,
                    span: input.span,
                }))
            },
            Item::Statement(statement) => {
                if module_mode {
                    return Err(CompileError::new(statement_span(statement), to_owned("imported modules may only contain functions, includes, and imports")));
                }
                Ok(Item::Statement(copy_statement(statement)))
            },
            _ => Err(CompileError::new(Span::unknown(), to_owned("directives are resolved by `enter`"))),
        }
    }

    /// The dependency graph so far, rooted at `root`.
    pub fn graph(&self, root: &str) -> (g: DependencyGraph)
        ensures
            g.root@ == root@,
            views(g.nodes@) == self.nodes_view(),
            g.edges@.map_values(|e: DependencyEdge| edge_view(e)) == self.edges_view(),
    {
        let mut edges = Vec::new();
        let mut i: usize = 0;
        while i < self.edges.len()
            invariant
                i <= self.edges@.len(),
                edges@.len() == i,
                forall|k: int| 0 <= k < i ==> edge_view(#[trigger] edges@[k]) == edge_view(self.edges@[k]),
            decreases self.edges.len() - i,
        {
            let e = &self.edges[i];
            edges.push(DependencyEdge { from: e.from.clone(), to: e.to.clone(), kind: e.kind, namespace: e.namespace.clone() });
            i = i + 1;
        }
        assert(edges@.map_values(|e: DependencyEdge| edge_view(e)) =~= self.edges_view());
        DependencyGraph { root: to_owned(root), nodes: copy_strings(&self.nodes), edges }
    }
}

/// The namespace a directive's target is expanded under.
pub open spec fn entered_namespace(kind: DependencyKind, ns: Seq<Seq<char>>, alias: Seq<char>) -> Seq<Seq<char>> {
    match kind {
        DependencyKind::Include => ns,
        DependencyKind::Import => ns.push(alias),
    }
}

fn copy_function(f: &FunctionDecl) -> (r: FunctionDecl)
    ensures
        r.name@ == f.name@,
        r.params@ == f.params@,
        r.return_type == f.return_type,
        r.span == f.span,
        renamed(f.body, r.body, Seq::empty()),
{
    let mut params: Vec<crate::ast::Param> = Vec::new();
    let mut i: usize = 0;
    while i < f.params.len()
        invariant
            i <= f.params@.len(),
            params@ == f.params@.subrange(0, i as int),
        decreases f.params.len() - i,
    {
        let p = &f.params[i];
        params.push(crate::ast::Param { name: p.name.clone(), ty: p.ty, span: p.span });
        assert(params@ =~= f.params@.subrange(0, i + 1));
        i = i + 1;
    }
    assert(params@ =~= f.params@);
    FunctionDecl { name: f.name.clone(), params, return_type: f.return_type, body: f.body.clone(), span: f.span }
}

/// `b` is a copy of the statement `a`: the same names, labels and spans, and copied
/// expressions.
pub open spec fn statement_copied(a: Statement, b: Statement) -> bool {
    match (a, b) {
        (Statement::Let(x), Statement::Let(y)) => x.name == y.name && x.span == y.span && renamed(x.expr, y.expr, Seq::empty()),
        (Statement::Constrain(x), Statement::Constrain(y)) => x.span == y.span && renamed(x.lhs, y.lhs, Seq::empty()) && renamed(
            x.rhs,
            y.rhs,
            Seq::empty(),
        ),
        (Statement::Expose(x), Statement::Expose(y)) => x.label == y.label && x.span == y.span && renamed(x.expr, y.expr, Seq::empty()),
        _ => false,
    }
}

fn copy_statement(statement: &Statement) -> (r: Statement)
    ensures
        statement_copied(*statement, r),
{
    match statement {
        Statement::Let(s) => Statement::Let(crate::ast::LetStmt { name: s.name.clone(), expr: s.expr.clone(), span: s.span }),
        Statement::Constrain(s) => Statement::Constrain(crate::ast::ConstrainStmt { lhs: s.lhs.clone(), rhs: s.rhs.clone(), span: s.span }),
        Statement::Expose(s) => {
            let label = match &s.label {
                Some(l) => Some(l.clone()),
                None => None,
            };
            Statement::Expose(crate::ast::ExposeStmt { expr: s.expr.clone(), label, span: s.span })
        },
    }
}

/// What `place` makes of `item` in the namespace `ns`: an input as it is, a statement copied,
/// and a function renamed `ns::name` with its callees qualified (as it is, for the empty
/// namespace).
pub open spec fn placed_as(item: Item, placed: Item, ns: Seq<Seq<char>>) -> bool {
    match (item, placed) {
        (Item::Input(a), Item::Input(b)) => a == b,
        (Item::Statement(a), Item::Statement(b)) => statement_copied(a, b),
        (Item::Function(g), Item::Function(f)) => {
            &&& f.name@ == (if ns.len() == 0 {
                g.name@
            } else {
                join_path(ns.push(g.name@))
            })
            &&& f.params@ == g.params@
            &&& f.return_type == g.return_type
            &&& f.span == g.span
            &&& renamed(g.body, f.body, ns)
        },
        _ => false,
    }
}

fn statement_span(statement: &Statement) -> (s: Span)
    ensures
        s == match *statement {
            Statement::Let(stmt) => stmt.span,
            Statement::Constrain(stmt) => stmt.span,
            Statement::Expose(stmt) => stmt.span,
        },
{
    match statement {
        Statement::Let(stmt) => stmt.span,
        Statement::Constrain(stmt) => stmt.span,
        Statement::Expose(stmt) => stmt.span,
    }
}

/// A diagnostic of the file `path`: the message gets ` in `path`` appended.
pub fn annotate_error(err: CompileError, path: &str) -> (r: CompileError)
    ensures
        r.span == err.span,
        r.message@ == err.message@ + " in `"@ + path@ + "`"@,
{
    let mut message = err.message;
    push_str(&mut message, " in `");
    push_str(&mut message, path);
    push_str(&mut message, "`");
    CompileError::new(err.span, message)
}

/// `, namespace=<namespace>` when there is a namespace.
pub open spec fn namespace_hint(namespace: Seq<char>) -> Seq<char> {
    if namespace.len() == 0 {
        Seq::empty()
    } else {
        ", namespace="@ + namespace
    }
}

pub fn render_namespace_hint(namespace: &str) -> (r: String)
    ensures
        r@ == namespace_hint(namespace@),
{
    proof {
        reveal_strlit("");
        assert(namespace@.len() == 0 ==> namespace@ =~= ""@);
    }
    if eq_str(namespace, "") {
        String::new()
    } else {
        let mut out = to_owned(", namespace=");
        push_str(&mut out, namespace);
        out
    }
}

// ----- renderings -----------------------------------------------------------------------------

pub open spec fn edge_json(e: DependencyEdge) -> Seq<char> {
    "{\"from\":"@ + quoted(e.from@) + ",\"to\":"@ + quoted(e.to@) + ",\"kind\":"@ + quoted(kind_label(e.kind))
        + ",\"namespace\":"@ + quoted(e.namespace@) + "}"@
}

pub open spec fn graph_json(g: DependencyGraph) -> Seq<char> {
    "{"@ + quoted("root"@) + seq![':'] + quoted(g.root@) + ","@ + quoted("nodes"@) + seq![':']
        + json_array_text(g.nodes@.map_values(|n: String| quoted(n@))) + ","@ + quoted("edges"@) + seq![':']
        + json_array_text(g.edges@.map_values(|e: DependencyEdge| edge_json(e))) + "}"@
}

pub open spec fn edge_line(e: DependencyEdge) -> Seq<char> {
    "  "@ + e.from@ + " -> "@ + e.to@ + " ["@ + kind_label(e.kind) + namespace_hint(e.namespace@) + "]\n"@
}

pub open spec fn graph_text(g: DependencyGraph) -> Seq<char> {
    "dependency graph for "@ + g.root@ + "\n"@ + "nodes:\n"@
        + lines_or_none(g.nodes@.map_values(|n: String| "  "@ + n@ + "\n"@)) + "edges:\n"@
        + lines_or_none(g.edges@.map_values(|e: DependencyEdge| edge_line(e)))
}

impl DependencyGraph {
    /// The graph as JSON: root, nodes, edges.
    pub fn to_json(&self) -> (s: String)
        ensures
            s@ == graph_json(*self),
    {
        let mut out = to_owned("{");
        push_field(&mut out, "root", json_string(self.root.as_str()).as_str());
        push_str(&mut out, ",");
        let mut parts: Vec<String> = Vec::new();
        let mut i: usize = 0;
        while i < self.nodes.len()
            invariant
                i <= self.nodes@.len(),
                parts@.len() == i,
                forall|k: int| 0 <= k < i ==> (#[trigger] parts@[k])@ == quoted(self.nodes@[k]@),
            decreases self.nodes.len() - i,
        {
            parts.push(json_string(self.nodes[i].as_str()));
            i = i + 1;
        }
        assert(views(parts@) =~= self.nodes@.map_values(|n: String| quoted(n@)));
        let mut array = String::new();
        push_json_array(&mut array, &parts);
        push_field(&mut out, "nodes", array.as_str());
        push_str(&mut out, ",");
        let mut parts: Vec<String> = Vec::new();
        let mut i: usize = 0;
        while i < self.edges.len()
            invariant
                i <= self.edges@.len(),
                parts@.len() == i,
                forall|k: int| 0 <= k < i ==> (#[trigger] parts@[k])@ == edge_json(self.edges@[k]),
            decreases self.edges.len() - i,
        {
            let e = &self.edges[i];
            let mut part = to_owned("{\"from\":");
            push_str(&mut part, json_string(e.from.as_str()).as_str());
            push_str(&mut part, ",\"to\":");
            push_str(&mut part, json_string(e.to.as_str()).as_str());
            push_str(&mut part, ",\"kind\":");
            push_str(&mut part, json_string(e.kind.label().as_str()).as_str());
            push_str(&mut part, ",\"namespace\":");
            push_str(&mut part, json_string(e.namespace.as_str()).as_str());
            push_str(&mut part, "}");
            parts.push(part);
            i = i + 1;
        }
        assert(views(parts@) =~= self.edges@.map_values(|e: DependencyEdge| edge_json(e)));
        let mut array = String::new();
        push_json_array(&mut array, &parts);
        push_field(&mut out, "edges", array.as_str());
        push_str(&mut out, "}");
        out
    }

    /// The graph as lines of text.
    pub fn to_text(&self) -> (s: String)
        ensures
            s@ == graph_text(*self),
    {
        let mut out = to_owned("dependency graph for ");
        push_str(&mut out, self.root.as_str());
        push_str(&mut out, "\n");
        push_str(&mut out, "nodes:\n");
        let mut lines: Vec<String> = Vec::new();
        let mut i: usize = 0;
        while i < self.nodes.len()
            invariant
                i <= self.nodes@.len(),
                lines@.len() == i,
                forall|k: int| 0 <= k < i ==> (#[trigger] lines@[k])@ == "  "@ + self.nodes@[k]@ + "\n"@,
            decreases self.nodes.len() - i,
        {
            let mut line = to_owned("  ");
            push_str(&mut line, self.nodes[i].as_str());
            push_str(&mut line, "\n");
            lines.push(line);
            i = i + 1;
        }
        assert(views(lines@) =~= self.nodes@.map_values(|n: String| "  "@ + n@ + "\n"@));
        push_lines_or_none(&mut out, &lines);
        push_str(&mut out, "edges:\n");
        let mut lines: Vec<String> = Vec::new();
        let mut i: usize = 0;
        while i < self.edges.len()
            invariant
                i <= self.edges@.len(),
                lines@.len() == i,
                forall|k: int| 0 <= k < i ==> (#[trigger] lines@[k])@ == edge_line(self.edges@[k]),
            decreases self.edges.len() - i,
        {
            let e = &self.edges[i];
            let mut line = to_owned("  ");
            push_str(&mut line, e.from.as_str());
            push_str(&mut line, " -> ");
            push_str(&mut line, e.to.as_str());
            push_str(&mut line, " [");
            push_str(&mut line, e.kind.label().as_str());
            push_str(&mut line, render_namespace_hint(e.namespace.as_str()).as_str());
            push_str(&mut line, "]\n");
            lines.push(line);
            i = i + 1;
        }
        assert(views(lines@) =~= self.edges@.map_values(|e: DependencyEdge| edge_line(e)));
        push_lines_or_none(&mut out, &lines);
        out
    }
}

impl ResolvedProgram {
    /// The resolution as JSON: the graph and the flattened source.
    pub fn to_json(&self) -> (s: String)
        ensures
            s@ == "{"@ + quoted("graph"@) + seq![':'] + graph_json(self.graph) + ","@ + quoted("source"@) + seq![':']
                + quoted(program_source(self.program)) + "}"@,
    {
        let mut out = to_owned("{");
        push_field(&mut out, "graph", self.graph.to_json().as_str());
        push_str(&mut out, ",");
        push_field(&mut out, "source", json_string(render_program(&self.program).as_str()).as_str());
        push_str(&mut out, "}");
        out
    }
}

// ----- the standard library catalog -----------------------------------------------------------

pub open spec fn total_lines(modules: Seq<StdlibModule>) -> nat
    decreases modules.len(),
{
    if modules.len() == 0 {
        0
    } else {
        total_lines(modules.drop_last()) + modules.last().line_count as nat
    }
}

/// Sorted by logical path.
pub open spec fn catalog_sorted(modules: Seq<StdlibModule>) -> bool {
    forall|i: int, j: int| 0 <= i < j < modules.len() ==> !text_less(#[trigger] modules[j].logical_path@, #[trigger] modules[i].logical_path@)
}

impl StdlibCatalog {
    /// The catalog of `modules`, sorted by logical path, with the total line count.
    pub fn new(root: &str, modules: Vec<StdlibModule>) -> (r: StdlibCatalog)
        requires
            total_lines(modules@) <= usize::MAX,
        ensures
            r.root@ == root@,
            r.modules@.len() == modules@.len(),
            r.modules@.to_multiset() == modules@.to_multiset(),
            catalog_sorted(r.modules@),
            r.total_lines == total_lines(modules@),
    {
        let mut sorted: Vec<StdlibModule> = Vec::new();
        let mut remaining = modules;
        let ghost original = remaining@;
        let mut lines: usize = 0;
        proof {
            lemma_total_lines_bound(original, 0);
            broadcast use vstd::multiset::group_multiset_axioms;
            vstd::seq_lib::to_multiset_len(sorted@);
            vstd::multiset::lemma_multiset_empty_len(sorted@.to_multiset());
            assert(sorted@.to_multiset().add(remaining@.to_multiset()) =~= original.to_multiset());
        }
        while remaining.len() > 0
            invariant
                catalog_sorted(sorted@),
                remaining@ == original.subrange(0, remaining@.len() as int),
                lines == total_lines(original) - total_lines(remaining@),
                total_lines(original) <= usize::MAX,
                total_lines(remaining@) <= total_lines(original),
                sorted@.len() + remaining@.len() == original.len(),
                sorted@.to_multiset().add(remaining@.to_multiset()) == original.to_multiset(),
            decreases remaining@.len(),
        {
            let ghost before = remaining@;
            let ghost sorted_before = sorted@;
            let module = remaining.pop().unwrap();
            proof {
                assert(remaining@ =~= before.drop_last());
                assert(before =~= remaining@.push(module));
                lemma_total_lines_bound(original, remaining@.len() as int);
                vstd::seq_lib::to_multiset_build(remaining@, module);
            }
            lines = lines + module.line_count;
            insert_sorted(&mut sorted, module);
            proof {
                broadcast use vstd::multiset::group_multiset_axioms;
                assert(sorted@.to_multiset().add(remaining@.to_multiset()) =~= sorted_before.to_multiset().add(before.to_multiset()));
            }
        }
        proof {
            broadcast use vstd::multiset::group_multiset_axioms;
            vstd::seq_lib::to_multiset_len(remaining@);
            vstd::multiset::lemma_multiset_empty_len(remaining@.to_multiset());
            assert(sorted@.to_multiset() =~= sorted@.to_multiset().add(remaining@.to_multiset()));
        }
        StdlibCatalog { root: to_owned(root), modules: sorted, total_lines: lines }
    }
}

proof fn lemma_total_lines_bound(s: Seq<StdlibModule>, n: int)
    requires
        0 <= n <= s.len(),
    ensures
        total_lines(s.subrange(0, n)) <= total_lines(s),
    decreases s.len() - n,
{
    if n < s.len() {
        lemma_total_lines_bound(s, n + 1);
        assert(s.subrange(0, n + 1).drop_last() =~= s.subrange(0, n));
    } else {
        assert(s.subrange(0, n) =~= s);
    }
}

fn insert_sorted(sorted: &mut Vec<StdlibModule>, module: StdlibModule)
    requires
        catalog_sorted(old(sorted)@),
    ensures
        catalog_sorted(final(sorted)@),
        final(sorted)@.len() == old(sorted)@.len() + 1,
        final(sorted)@.to_multiset() == old(sorted)@.to_multiset().insert(module),
{
    let mut index: usize = 0;
    while index < sorted.len() && !text_lt(module.logical_path.as_str(), sorted[index].logical_path.as_str())
        invariant
            index <= sorted@.len(),
            forall|k: int| 0 <= k < index ==> !text_less(module.logical_path@, #[trigger] sorted@[k].logical_path@),
        decreases sorted.len() - index,
    {
        index = index + 1;
    }
    let ghost before = sorted@;
    let ghost m = module;
    assert(index < before.len() ==> text_less(m.logical_path@, before[index as int].logical_path@));
    sorted.insert(index, module);
    proof {
        assert(sorted@ =~= before.insert(index as int, m));
        vstd::seq_lib::to_multiset_insert(before, index as int, m);
        assert forall|i: int, j: int| 0 <= i < j < sorted@.len() implies !text_less(
            #[trigger] sorted@[j].logical_path@,
            #[trigger] sorted@[i].logical_path@,
        ) by {
            let n = index as int;
            if j < n {
                assert(sorted@[i] == before[i] && sorted@[j] == before[j]);
            } else if j == n {
                assert(sorted@[i] == before[i]);
            } else if i == n {
                assert(sorted@[j] == before[j - 1]);
                if text_less(before[j - 1].logical_path@, m.logical_path@) {
                    if j - 1 > n {
                        crate::eval::lemma_text_less_transitive(
                            before[j - 1].logical_path@,
                            m.logical_path@,
                            before[n].logical_path@,
                        );
                    } else {
                        crate::eval::lemma_text_less_asymmetric(m.logical_path@, before[n].logical_path@);
                    }
                }
            } else if i < n {
                assert(sorted@[i] == before[i] && sorted@[j] == before[j - 1]);
            } else {
                assert(sorted@[i] == before[i - 1] && sorted@[j] == before[j - 1]);
            }
        }
    }
}

pub open spec fn module_json(m: StdlibModule) -> Seq<char> {
    "{\"logical_path\":"@ + quoted(m.logical_path@) + ",\"absolute_path\":"@ + quoted(m.absolute_path@)
        + ",\"line_count\":"@ + decimal(m.line_count as nat) + "}"@
}

impl StdlibCatalog {
    /// The catalog as JSON.
    pub fn to_json(&self) -> (s: String)
        ensures
            s@ == "{"@ + quoted("root"@) + seq![':'] + quoted(self.root@) + ","@ + quoted("total_modules"@) + seq![':']
                + decimal(self.modules@.len()) + ","@ + quoted("total_lines"@) + seq![':'] + decimal(self.total_lines as nat)
                + ","@ + quoted("modules"@) + seq![':'] + json_array_text(self.modules@.map_values(|m: StdlibModule| module_json(m)))
                + "}"@,
    {
        let mut out = to_owned("{");
        push_field(&mut out, "root", json_string(self.root.as_str()).as_str());
        push_str(&mut out, ",");
        push_field(&mut out, "total_modules", usize_to_string(self.modules.len()).as_str());
        push_str(&mut out, ",");
        push_field(&mut out, "total_lines", usize_to_string(self.total_lines).as_str());
        push_str(&mut out, ",");
        let mut parts: Vec<String> = Vec::new();
        let mut i: usize = 0;
        while i < self.modules.len()
            invariant
                i <= self.modules@.len(),
                parts@.len() == i,
                forall|k: int| 0 <= k < i ==> (#[trigger] parts@[k])@ == module_json(self.modules@[k]),
            decreases self.modules.len() - i,
        {
            let m = &self.modules[i];
            let mut part = to_owned("{\"logical_path\":");
            push_str(&mut part, json_string(m.logical_path.as_str()).as_str());
            push_str(&mut part, ",\"absolute_path\":");
            push_str(&mut part, json_string(m.absolute_path.as_str()).as_str());
            push_str(&mut part, ",\"line_count\":");
            push_decimal(&mut part, m.line_count as u128);
            push_str(&mut part, "}");
            parts.push(part);
            i = i + 1;
        }
        assert(views(parts@) =~= self.modules@.map_values(|m: StdlibModule| module_json(m)));
        let mut array = String::new();
        push_json_array(&mut array, &parts);
        push_field(&mut out, "modules", array.as_str());
        push_str(&mut out, "}");
        out
    }

    /// The catalog as lines of text.
    pub fn to_text(&self) -> (s: String)
        ensures
            s@ == "stdlib catalog at "@ + self.root@ + "\nmodules: "@ + decimal(self.modules@.len()) + " ("@
                + decimal(self.total_lines as nat) + " lines)\n"@ + lines_or_none(
                self.modules@.map_values(|m: StdlibModule| "  "@ + m.logical_path@ + "  ("@ + decimal(m.line_count as nat) + " lines)\n"@),
            ),
    {
        let mut out = to_owned("stdlib catalog at ");
        push_str(&mut out, self.root.as_str());
        push_str(&mut out, "\nmodules: ");
        push_decimal(&mut out, self.modules.len() as u128);
        push_str(&mut out, " (");
        push_decimal(&mut out, self.total_lines as u128);
        push_str(&mut out, " lines)\n");
        let mut lines: Vec<String> = Vec::new();
        let mut i: usize = 0;
        while i < self.modules.len()
            invariant
                i <= self.modules@.len(),
                lines@.len() == i,
                forall|k: int| 0 <= k < i ==> (#[trigger] lines@[k])@ == "  "@ + self.modules@[k].logical_path@ + "  ("@
                    + decimal(self.modules@[k].line_count as nat) + " lines)\n"@,
            decreases self.modules.len() - i,
        {
            let m = &self.modules[i];
            let mut line = to_owned("  ");
            push_str(&mut line, m.logical_path.as_str());
            push_str(&mut line, "  (");
            push_decimal(&mut line, m.line_count as u128);
            push_str(&mut line, " lines)\n");
            lines.push(line);
            i = i + 1;
        }
        assert(views(lines@) =~= self.modules@.map_values(
            |m: StdlibModule| "  "@ + m.logical_path@ + "  ("@ + decimal(m.line_count as nat) + " lines)\n"@,
        ));
        push_lines_or_none(&mut out, &lines);
        out
    }
}

} // verus!
