//! The source-level syntax tree produced by the parser.
use vstd::prelude::*;

use crate::span::Span;
use crate::text::{push_char, push_str};

verus! {

#[derive(Debug, Clone, PartialEq, Eq)]
pub struct Program {
    pub circuit: Circuit,
}

#[derive(Debug, Clone, PartialEq, Eq)]
pub struct Circuit {
    pub name: String,
    pub items: Vec<Item>,
}

#[derive(Debug, Clone, PartialEq, Eq)]
pub enum Item {
    Include(IncludeDecl),
    Import(ImportDecl),
    Input(InputDecl),
    Function(FunctionDecl),
    Statement(Statement),
}

#[derive(Debug, Clone, PartialEq, Eq)]
pub struct IncludeDecl {
    pub path: String,
    pub span: Span,
}

#[derive(Debug, Clone, PartialEq, Eq)]
pub struct ImportDecl {
    pub path: String,
    pub alias: String,
    pub span: Span,
}

#[derive(Debug, Clone, PartialEq, Eq)]
pub struct InputDecl {
    pub visibility: Visibility,
    pub name: String,
    pub ty: Type,
    pub span: Span,
}

#[derive(Debug, Clone, Copy, PartialEq, Eq, Structural)]
pub enum Visibility {
    Public,
    Private,
}

#[derive(Debug, Clone, PartialEq, Eq)]
pub struct FunctionDecl {
    pub name: String,
    pub params: Vec<Param>,
    pub return_type: Type,
    pub body: Expr,
    pub span: Span,
}

#[derive(Debug, Clone, PartialEq, Eq)]
pub struct Param {
    pub name: String,
    pub ty: Type,
    pub span: Span,
}

#[derive(Debug, Clone, Copy, PartialEq, Eq, Structural)]
pub enum Type {
    Field,
    Bool,
    U8,
    U16,
    U32,
}

/// The source spelling of a type.
pub open spec fn spelling(t: Type) -> Seq<char> {
    match t {
        Type::Field => "field"@,
        Type::Bool => "bool"@,
        Type::U8 => "u8"@,
        Type::U16 => "u16"@,
        Type::U32 => "u32"@,
    }
}

/// The bit width of an unsigned integer type.
pub open spec fn type_bits(t: Type) -> Option<u8> {
    match t {
        Type::U8 => Some(8u8),
        Type::U16 => Some(16u8),
        Type::U32 => Some(32u8),
        Type::Field | Type::Bool => None,
    }
}

pub open spec fn type_is_uint(t: Type) -> bool {
    type_bits(t) is Some
}

impl Type {
    pub fn name(self) -> (r: &'static str)
        ensures
            r@ == spelling(self),
    {
        match self {
            Type::Field => "field",
            Type::Bool => "bool",
            Type::U8 => "u8",
            Type::U16 => "u16",
            Type::U32 => "u32",
        }
    }

    pub fn uint_bits(self) -> (r: Option<u8>)
        ensures
            r == type_bits(self),
    {
        match self {
            Type::U8 => Some(8),
            Type::U16 => Some(16),
            Type::U32 => Some(32),
            Type::Field | Type::Bool => None,
        }
    }

    pub fn is_uint(self) -> (r: bool)
        ensures
            r == type_is_uint(self),
    {
        self.uint_bits().is_some()
    }
}

#[derive(Debug, Clone, PartialEq, Eq)]
pub enum Statement {
    Let(LetStmt),
    Constrain(ConstrainStmt),
    Expose(ExposeStmt),
}

#[derive(Debug, Clone, PartialEq, Eq)]
pub struct LetStmt {
    pub name: String,
    pub expr: Expr,
    pub span: Span,
}

#[derive(Debug, Clone, PartialEq, Eq)]
pub struct ConstrainStmt {
    pub lhs: Expr,
    pub rhs: Expr,
    pub span: Span,
}

#[derive(Debug, Clone, PartialEq, Eq)]
pub struct ExposeStmt {
    pub expr: Expr,
    pub label: Option<String>,
    pub span: Span,
}

#[derive(Debug, PartialEq, Eq)]
pub enum Expr {
    Number { value: i128, span: Span },
    Bool { value: bool, span: Span },
    Ident { name: String, span: Span },
    Call { callee: Vec<String>, args: Vec<Expr>, span: Span },
    Unary { op: UnaryOp, expr: Box<Expr>, span: Span },
    Binary { op: BinaryOp, lhs: Box<Expr>, rhs: Box<Expr>, span: Span },
    IfElse {
        condition: Box<Expr>,
        then_branch: Box<Expr>,
        else_branch: Box<Expr>,
        span: Span,
    },
}

impl Clone for Expr {
    /// A deep copy, node by node.
    fn clone(&self) -> (r: Expr)
        ensures
            crate::source::renamed(*self, r, Seq::empty()),
        decreases self,
    {
        match self {
            Expr::Number { value, span } => {
                Expr::Number { value: *value, span: *span }
            },
            Expr::Bool { value, span } => Expr::Bool { value: *value, span: *span },
            Expr::Ident { name, span } => Expr::Ident { name: name.clone(), span: *span },
            Expr::Call { callee, args, span } => {
                let mut copied: Vec<Expr> = Vec::new();
                let mut i: usize = 0;
                while i < args.len()
                    invariant
                        i <= args@.len(),
                        *self is Call,
                        (*self)->args == *args,
                        copied@.len() == i,
                        crate::source::args_renamed(args@, copied@, Seq::empty(), i as nat),
                    decreases args.len() - i,
                {
                    proof {
                        assert(decreases_to!(*self => (*self)->args));
                        vstd::std_specs::vec::axiom_vec_index_decreases(*args, i as int);
                    }
                    let ghost before = copied@;
                    copied.push(args[i].clone());
                    proof {
                        crate::source::lemma_args_renamed_extend(args@, before, copied@, Seq::empty(), i as nat);
                    }
                    i = i + 1;
                }
                Expr::Call { callee: crate::text::copy_strings(callee), args: copied, span: *span }
            },
            Expr::Unary { op, expr, span } => Expr::Unary {
                op: *op,
                expr: Box::new((**expr).clone()),
                span: *span,
            },
            Expr::Binary { op, lhs, rhs, span } => Expr::Binary {
                op: *op,
                lhs: Box::new((**lhs).clone()),
                rhs: Box::new((**rhs).clone()),
                span: *span,
            },
            Expr::IfElse { condition, then_branch, else_branch, span } => Expr::IfElse {
                condition: Box::new((**condition).clone()),
                then_branch: Box::new((**then_branch).clone()),
                else_branch: Box::new((**else_branch).clone()),
                span: *span,
            },
        }
    }
}


pub open spec fn expr_span(e: Expr) -> Span {
    match e {
        Expr::Number { span, .. } => span,
        Expr::Bool { span, .. } => span,
        Expr::Ident { span, .. } => span,
        Expr::Call { span, .. } => span,
        Expr::Unary { span, .. } => span,
        Expr::Binary { span, .. } => span,
        Expr::IfElse { span, .. } => span,
    }
}

impl Expr {
    pub fn span(&self) -> (s: Span)
        ensures
            s == expr_span(*self),
    {
        match self {
            Expr::Number { span, .. } => *span,
            Expr::Bool { span, .. } => *span,
            Expr::Ident { span, .. } => *span,
            Expr::Call { span, .. } => *span,
            Expr::Unary { span, .. } => *span,
            Expr::Binary { span, .. } => *span,
            Expr::IfElse { span, .. } => *span,
        }
    }
}

/// The segments of a qualified name joined by `::`.
pub open spec fn join_path(path: Seq<Seq<char>>) -> Seq<char>
    decreases path.len(),
{
    if path.len() == 0 {
        Seq::empty()
    } else if path.len() == 1 {
        path[0]
    } else {
        join_path(path.drop_last()) + "::"@ + path.last()
    }
}

pub open spec fn string_views(v: Seq<String>) -> Seq<Seq<char>> {
    v.map_values(|s: String| s@)
}

/// The position of the last `::` that ends at or before `n` in `s`.
pub open spec fn separator_before(s: Seq<char>, n: int) -> Option<int>
    decreases n,
{
    if n < 2 || n > s.len() {
        None
    } else if s[n - 2] == ':' && s[n - 1] == ':' {
        Some(n - 2)
    } else {
        separator_before(s, n - 1)
    }
}

/// A separator found before `n` lies inside the text and ends by `n`.
pub proof fn lemma_separator_before_bound(s: Seq<char>, n: int)
    ensures
        separator_before(s, n) matches Some(i) ==> 0 <= i && i + 2 <= n && n <= s.len(),
    decreases n,
{
    if n >= 2 && n <= s.len() && !(s[n - 2] == ':' && s[n - 1] == ':') {
        lemma_separator_before_bound(s, n - 1);
    }
}

/// The `::`-separated segments of a path, read from the right.
pub open spec fn split_path(s: Seq<char>) -> Seq<Seq<char>>
    decreases s.len(),
{
    match separator_before(s, s.len() as int) {
        Some(i) => {
            proof {
                lemma_separator_before_bound(s, s.len() as int);
            }
            split_path(s.subrange(0, i)).push(s.subrange(i + 2, s.len() as int))
        },
        None => seq![s],
    }
}

/// Past a `::` followed by text without a colon, the last separator is that `::`.
proof fn lemma_separator_after(a: Seq<char>, b: Seq<char>, n: int)
    requires
        forall|k: int| 0 <= k < b.len() ==> b[k] != ':',
        a.len() + 2 <= n <= a.len() + 2 + b.len(),
    ensures
        separator_before(a + "::"@ + b, n) == Some(a.len() as int),
    decreases n,
{
    reveal_strlit("::");
    let s = a + "::"@ + b;
    if n > a.len() + 2 {
        assert(s[n - 1] == b[n - 1 - a.len() - 2]);
        lemma_separator_after(a, b, n - 1);
    } else {
        assert(s[n - 2] == ':' && s[n - 1] == ':');
    }
}

/// Text without a colon has no separator.
proof fn lemma_no_separator(b: Seq<char>, n: int)
    requires
        forall|k: int| 0 <= k < b.len() ==> b[k] != ':',
    ensures
        separator_before(b, n) is None,
    decreases n,
{
    if n >= 2 && n <= b.len() {
        lemma_no_separator(b, n - 1);
    }
}

/// Splitting the `::`-joined text of a path whose segments hold no colon gives the path back
/// (what `format_callee` writes reads back as the callee).
pub proof fn lemma_split_join_path(path: Seq<Seq<char>>)
    requires
        path.len() >= 1,
        forall|i: int, k: int| 0 <= i < path.len() && 0 <= k < path[i].len() ==> #[trigger] path[i][k] != ':',
    ensures
        split_path(join_path(path)) == path,
    decreases path.len(),
{
    reveal_strlit("::");
    if path.len() == 1 {
        lemma_no_separator(path[0], path[0].len() as int);
        assert(seq![path[0]] =~= path);
    } else {
        let front = path.drop_last();
        let last = path.last();
        assert forall|k: int| 0 <= k < last.len() implies last[k] != ':' by {
            assert(path[path.len() - 1][k] != ':');
        }
        assert forall|i: int, k: int| 0 <= i < front.len() && 0 <= k < front[i].len() implies #[trigger] front[i][k] != ':' by {
            assert(front[i] == path[i]);
        }
        lemma_split_join_path(front);
        let a = join_path(front);
        let s = a + "::"@ + last;
        assert(join_path(path) == s);
        lemma_separator_after(a, last, s.len() as int);
        assert(s.subrange(0, a.len() as int) =~= a);
        assert(s.subrange(a.len() + 2int, s.len() as int) =~= last);
        assert(split_path(s) == split_path(a).push(last));
        assert(front.push(last) =~= path);
    }
}

pub fn format_callee(path: &[String]) -> (r: String)
    ensures
        r@ == join_path(string_views(path@)),
{
    let mut out = String::new();
    let mut i: usize = 0;
    while i < path.len()
        invariant
            i <= path@.len(),
            out@ == join_path(string_views(path@.subrange(0, i as int))),
        decreases path.len() - i,
    {
        let ghost before = path@.subrange(0, i as int);
        let ghost after = path@.subrange(0, i + 1);
        assert(string_views(after).drop_last() =~= string_views(before));
        if i > 0 {
            push_str(&mut out, "::");
        }
        push_str(&mut out, path[i].as_str());
        proof {
            if i == 0 {
                assert(out@ =~= join_path(string_views(after)));
            } else {
                assert(out@ =~= join_path(string_views(after)));
            }
        }
        i = i + 1;
    }
    assert(path@.subrange(0, i as int) =~= path@);
    out
}

#[derive(Debug, Clone, Copy, PartialEq, Eq, Structural)]
pub enum UnaryOp {
    Neg,
}

#[derive(Debug, Clone, Copy, PartialEq, Eq, Structural)]
pub enum BinaryOp {
    Add,
    Sub,
    Mul,
}

pub open spec fn binary_mnemonic(op: BinaryOp) -> Seq<char> {
    match op {
        BinaryOp::Add => "add"@,
        BinaryOp::Sub => "sub"@,
        BinaryOp::Mul => "mul"@,
    }
}

impl BinaryOp {
    pub fn mnemonic(self) -> (r: &'static str)
        ensures
            r@ == binary_mnemonic(self),
    {
        match self {
            BinaryOp::Add => "add",
            BinaryOp::Sub => "sub",
            BinaryOp::Mul => "mul",
        }
    }
}

/// The keyword of the file-inclusion directive, as a sequence of characters.
pub open spec fn inclusion_keyword_chars() -> Seq<char> {
    seq!['i', 'n', 'c', 'l', 'u', 'd', 'e']
}

/// The keyword of the file-inclusion directive.
pub fn inclusion_keyword() -> (s: String)
    ensures
        s@ == inclusion_keyword_chars(),
{
    let mut s = String::new();
    push_char(&mut s, 'i');
    push_char(&mut s, 'n');
    push_char(&mut s, 'c');
    push_char(&mut s, 'l');
    push_char(&mut s, 'u');
    push_char(&mut s, 'd');
    push_char(&mut s, 'e');
    assert(s@ =~= inclusion_keyword_chars());
    s
}

} // verus!
