//! The recursive-descent parser of the circuit language.
use vstd::prelude::*;

use crate::ast::{
    BinaryOp, Circuit, ConstrainStmt, ExposeStmt, Expr, FunctionDecl, ImportDecl, IncludeDecl,
    InputDecl, Item, LetStmt, Param, Program, Statement, Type, UnaryOp, Visibility,
};
use crate::error::{CompileError, CompileResult};
use crate::eval::eq_str;
use crate::lexer::{ident_text, keyword, lex, lexes_to, scan, span_at, tokens_wf, Token, TokenKind};
use crate::span::Span;
use crate::text::to_owned;

verus! {

/// A number per token variant, payloads ignored.
pub open spec fn kind_tag(k: TokenKind) -> u8 {
    match k {
        TokenKind::Circuit => 0,
        TokenKind::Public => 1,
        TokenKind::Private => 2,
        TokenKind::Let => 3,
        TokenKind::Constrain => 4,
        TokenKind::Expose => 5,
        TokenKind::As => 6,
        TokenKind::Field => 7,
        TokenKind::Bool => 8,
        TokenKind::Fn => 9,
        TokenKind::If => 10,
        TokenKind::Else => 11,
        TokenKind::True => 12,
        TokenKind::False => 13,
        TokenKind::Include => 14,
        TokenKind::Import => 15,
        TokenKind::Ident(_) => 16,
        TokenKind::Number(_) => 17,
        TokenKind::String(_) => 18,
        TokenKind::LBrace => 19,
        TokenKind::RBrace => 20,
        TokenKind::LParen => 21,
        TokenKind::RParen => 22,
        TokenKind::Colon => 23,
        TokenKind::ColonColon => 24,
        TokenKind::Comma => 25,
        TokenKind::Semicolon => 26,
        TokenKind::Arrow => 27,
        TokenKind::Equal => 28,
        TokenKind::EqualEqual => 29,
        TokenKind::Plus => 30,
        TokenKind::Minus => 31,
        TokenKind::Star => 32,
        TokenKind::Eof => 33,
    }
}

/// Each variant has its own number.
proof fn lemma_kind_tag(k: TokenKind)
    ensures
        (kind_tag(k) == 0) == (k is Circuit),
        (kind_tag(k) == 1) == (k is Public),
        (kind_tag(k) == 2) == (k is Private),
        (kind_tag(k) == 3) == (k is Let),
        (kind_tag(k) == 4) == (k is Constrain),
        (kind_tag(k) == 5) == (k is Expose),
        (kind_tag(k) == 6) == (k is As),
        (kind_tag(k) == 7) == (k is Field),
        (kind_tag(k) == 8) == (k is Bool),
        (kind_tag(k) == 9) == (k is Fn),
        (kind_tag(k) == 10) == (k is If),
        (kind_tag(k) == 11) == (k is Else),
        (kind_tag(k) == 12) == (k is True),
        (kind_tag(k) == 13) == (k is False),
        (kind_tag(k) == 14) == (k is Include),
        (kind_tag(k) == 15) == (k is Import),
        (kind_tag(k) == 16) == (k is Ident),
        (kind_tag(k) == 17) == (k is Number),
        (kind_tag(k) == 18) == (k is String),
        (kind_tag(k) == 19) == (k is LBrace),
        (kind_tag(k) == 20) == (k is RBrace),
        (kind_tag(k) == 21) == (k is LParen),
        (kind_tag(k) == 22) == (k is RParen),
        (kind_tag(k) == 23) == (k is Colon),
        (kind_tag(k) == 24) == (k is ColonColon),
        (kind_tag(k) == 25) == (k is Comma),
        (kind_tag(k) == 26) == (k is Semicolon),
        (kind_tag(k) == 27) == (k is Arrow),
        (kind_tag(k) == 28) == (k is Equal),
        (kind_tag(k) == 29) == (k is EqualEqual),
        (kind_tag(k) == 30) == (k is Plus),
        (kind_tag(k) == 31) == (k is Minus),
        (kind_tag(k) == 32) == (k is Star),
        (kind_tag(k) == 33) == (k is Eof),
{
}

fn tag(k: &TokenKind) -> (r: u8)
    ensures
        r == kind_tag(*k),
{
    match k {
        TokenKind::Circuit => 0,
        TokenKind::Public => 1,
        TokenKind::Private => 2,
        TokenKind::Let => 3,
        TokenKind::Constrain => 4,
        TokenKind::Expose => 5,
        TokenKind::As => 6,
        TokenKind::Field => 7,
        TokenKind::Bool => 8,
        TokenKind::Fn => 9,
        TokenKind::If => 10,
        TokenKind::Else => 11,
        TokenKind::True => 12,
        TokenKind::False => 13,
        TokenKind::Include => 14,
        TokenKind::Import => 15,
        TokenKind::Ident(_) => 16,
        TokenKind::Number(_) => 17,
        TokenKind::String(_) => 18,
        TokenKind::LBrace => 19,
        TokenKind::RBrace => 20,
        TokenKind::LParen => 21,
        TokenKind::RParen => 22,
        TokenKind::Colon => 23,
        TokenKind::ColonColon => 24,
        TokenKind::Comma => 25,
        TokenKind::Semicolon => 26,
        TokenKind::Arrow => 27,
        TokenKind::Equal => 28,
        TokenKind::EqualEqual => 29,
        TokenKind::Plus => 30,
        TokenKind::Minus => 31,
        TokenKind::Star => 32,
        TokenKind::Eof => 33,
    }
}

// ----- the grammar, as relations between token ranges and syntax trees --------------------------
//
// `ts[i..j]` spells a tree when the parser, started at `i`, builds that tree and stops at `j`.
// Binary operators associate to the left, and a chain ends where no further operator follows.

/// `e` is the expression spelled by `ts[i..j]`: a sum of products, with no `+` or `-` after it.
pub open spec fn expr_spelled(ts: Seq<Token>, i: int, j: int, e: Expr) -> bool
    decreases j - i, 7int,
{
    &&& 0 <= i < j < ts.len()
    &&& sum_chain(ts, i, j, e)
    &&& !(ts[j].kind is Plus)
    &&& !(ts[j].kind is Minus)
}

/// A product, or a shorter sum, `+` or `-`, and a product.
pub open spec fn sum_chain(ts: Seq<Token>, i: int, j: int, e: Expr) -> bool
    decreases j - i, 6int,
{
    ||| product_spelled(ts, i, j, e)
    ||| (e matches Expr::Binary { op, lhs, rhs, span } && exists|m: int|
        #![trigger ts[m]]
        i < m < j && ((op is Add && ts[m].kind is Plus) || (op is Sub && ts[m].kind is Minus)) && ts[m].span == span
            && sum_chain(ts, i, m, *lhs) && product_spelled(ts, m + 1, j, *rhs))
}

/// `e` is a product spelled by `ts[i..j]`, with no `*` after it.
pub open spec fn product_spelled(ts: Seq<Token>, i: int, j: int, e: Expr) -> bool
    decreases j - i, 5int,
{
    &&& 0 <= i < j < ts.len()
    &&& product_chain(ts, i, j, e)
    &&& !(ts[j].kind is Star)
}

/// A unary expression, or a shorter product, `*` and a unary expression.
pub open spec fn product_chain(ts: Seq<Token>, i: int, j: int, e: Expr) -> bool
    decreases j - i, 4int,
{
    ||| unary_spelled(ts, i, j, e)
    ||| (e matches Expr::Binary { op, lhs, rhs, span } && op is Mul && exists|m: int|
        #![trigger ts[m]]
        i < m < j && ts[m].kind is Star && ts[m].span == span && product_chain(ts, i, m, *lhs) && unary_spelled(ts, m + 1, j, *rhs))
}

/// `-` and a unary expression, or a primary expression.
pub open spec fn unary_spelled(ts: Seq<Token>, i: int, j: int, e: Expr) -> bool
    decreases j - i, 3int,
{
    &&& 0 <= i < j < ts.len()
    &&& if ts[i].kind is Minus {
        e matches Expr::Unary { op, expr, span } && op is Neg && span == ts[i].span && unary_spelled(ts, i + 1, j, *expr)
    } else {
        primary_spelled(ts, i, j, e)
    }
}

/// A literal, a name, a call, a conditional, or a parenthesized expression.
pub open spec fn primary_spelled(ts: Seq<Token>, i: int, j: int, e: Expr) -> bool
    decreases j - i, 2int,
{
    &&& 0 <= i < j < ts.len()
    &&& match ts[i].kind {
        TokenKind::Number(v) => j == i + 1 && e == Expr::Number { value: v, span: ts[i].span },
        TokenKind::True => j == i + 1 && e == Expr::Bool { value: true, span: ts[i].span },
        TokenKind::False => j == i + 1 && e == Expr::Bool { value: false, span: ts[i].span },
        TokenKind::Ident(name) => if i + 1 < ts.len() && (ts[i + 1].kind is LParen || ts[i + 1].kind is ColonColon) {
            e matches Expr::Call { callee, args, span } && span == ts[i].span && exists|m: int|
                #![trigger ts[m]]
                i < m < j && callee_spelled(ts, i, m, callee@) && args_spelled(ts, m, j, args@)
        } else {
            j == i + 1 && e == Expr::Ident { name, span: ts[i].span }
        },
        TokenKind::If => e matches Expr::IfElse { condition, then_branch, else_branch, span } && span == ts[i].span && exists|
            a: int,
            b: int,
            c: int,
        |
            #![trigger ts[a], ts[b], ts[c]]
            i + 1 < a < b && b + 2 < c && c + 1 == j && expr_spelled(ts, i + 1, a, *condition) && ts[a].kind is LBrace
                && expr_spelled(ts, a + 1, b, *then_branch) && ts[b].kind is RBrace && ts[b + 1].kind is Else && ts[b + 2].kind is LBrace
                && expr_spelled(ts, b + 3, c, *else_branch) && ts[c].kind is RBrace,
        TokenKind::LParen => exists|m: int| #![trigger ts[m]] i + 1 < m && m + 1 == j && expr_spelled(ts, i + 1, m, e) && ts[m].kind is RParen,
        _ => false,
    }
}

/// The callee `segments` spelled by `ts[i..m]`: names joined by `::`, then `(`.
pub open spec fn callee_spelled(ts: Seq<Token>, i: int, m: int, segments: Seq<String>) -> bool {
    &&& segments.len() >= 1
    &&& m == i + 2 * segments.len()
    &&& 0 <= i
    &&& m < ts.len()
    &&& forall|k: int| 0 <= k < segments.len() ==> ts[i + 2 * k].kind == TokenKind::Ident(#[trigger] segments[k])
    &&& forall|k: int| 1 <= k < segments.len() ==> #[trigger] ts[i + 2 * k - 1].kind is ColonColon
    &&& ts[m - 1].kind is LParen
}

/// `args`, each followed by a comma, spelled by `ts[i..c]`.
pub open spec fn args_upto(ts: Seq<Token>, i: int, c: int, args: Seq<Expr>) -> bool
    decreases c - i, 1int, args.len(),
{
    if args.len() == 0 {
        c == i
    } else {
        exists|p: int, m: int|
            #![trigger ts[p], ts[m]]
            i <= p < m && m + 1 == c && args_upto(ts, i, p, args.drop_last()) && expr_spelled(ts, p, m, args.last()) && ts[m].kind is Comma
    }
}

/// The arguments `args` of a call spelled by `ts[i..j]`: separated by commas, then `)`.
pub open spec fn args_spelled(ts: Seq<Token>, i: int, j: int, args: Seq<Expr>) -> bool
    decreases j - i, 1int, args.len(),
{
    if args.len() == 0 {
        0 <= i && j == i + 1 && j < ts.len() && ts[i].kind is RParen
    } else {
        exists|p: int, m: int|
            #![trigger ts[p], ts[m]]
            i <= p < m && m + 1 == j && args_upto(ts, i, p, args.drop_last()) && expr_spelled(ts, p, m, args.last()) && ts[m].kind is RParen
    }
}

/// `ty` is the type spelled by the token `ts[i]`.
pub open spec fn type_spelled(ts: Seq<Token>, i: int, ty: Type) -> bool {
    &&& 0 <= i < ts.len()
    &&& match ts[i].kind {
        TokenKind::Field => ty is Field,
        TokenKind::Bool => ty is Bool,
        TokenKind::Ident(name) => (name@ == "u8"@ && ty is U8) || (name@ == "u16"@ && ty is U16) || (name@ == "u32"@ && ty is U32),
        _ => false,
    }
}

/// The parameters `params` of a function spelled by `ts[i..j]`: `name: type` separated by
/// commas, then `)`.
pub open spec fn params_spelled(ts: Seq<Token>, i: int, j: int, params: Seq<Param>) -> bool {
    &&& 0 <= i
    &&& j < ts.len()
    &&& if params.len() == 0 {
        j == i + 1 && ts[i].kind is RParen
    } else {
        &&& j == i + 4 * params.len()
        &&& forall|k: int| 0 <= k < params.len() ==> {
            &&& ts[i + 4 * k].kind == TokenKind::Ident((#[trigger] params[k]).name)
            &&& params[k].span == ts[i + 4 * k].span
            &&& ts[i + 4 * k + 1].kind is Colon
            &&& type_spelled(ts, i + 4 * k + 2, params[k].ty)
            &&& if k + 1 < params.len() {
                ts[i + 4 * k + 3].kind is Comma
            } else {
                ts[i + 4 * k + 3].kind is RParen
            }
        }
    }
}

/// A statement spelled by `ts[i..j]`.
pub open spec fn statement_spelled(ts: Seq<Token>, i: int, j: int, st: Statement) -> bool {
    &&& 0 <= i < j < ts.len()
    &&& match st {
        Statement::Let(l) => ts[i].kind is Let && l.span == ts[i].span && ts[i + 1].kind == TokenKind::Ident(l.name)
            && ts[i + 2].kind is Equal && exists|m: int| #![trigger ts[m]] expr_spelled(ts, i + 3, m, l.expr) && ts[m].kind is Semicolon && j == m + 1,
        Statement::Constrain(c) => ts[i].kind is Constrain && c.span == ts[i].span && exists|a: int, m: int|
            #![trigger ts[a], ts[m]]
            expr_spelled(ts, i + 1, a, c.lhs) && ts[a].kind is EqualEqual && expr_spelled(ts, a + 1, m, c.rhs) && ts[m].kind is Semicolon
                && j == m + 1,
        Statement::Expose(x) => ts[i].kind is Expose && x.span == ts[i].span && exists|m: int|
            #![trigger ts[m]]
            expr_spelled(ts, i + 1, m, x.expr) && match x.label {
                None => ts[m].kind is Semicolon && j == m + 1,
                Some(label) => ts[m].kind is As && ts[m + 1].kind == TokenKind::Ident(label) && ts[m + 2].kind is Semicolon && j == m + 3,
            },
    }
}

/// A function declaration spelled by `ts[i..j]`: `fn name(params) -> type { body }`.
pub open spec fn function_spelled(ts: Seq<Token>, i: int, j: int, f: FunctionDecl) -> bool {
    &&& 0 <= i < j < ts.len()
    &&& ts[i].kind is Fn
    &&& f.span == ts[i].span
    &&& ts[i + 1].kind == TokenKind::Ident(f.name)
    &&& ts[i + 2].kind is LParen
    &&& exists|p: int, b: int|
        #![trigger ts[p], ts[b]]
        params_spelled(ts, i + 3, p, f.params@) && ts[p].kind is Arrow && type_spelled(ts, p + 1, f.return_type)
            && ts[p + 2].kind is LBrace && expr_spelled(ts, p + 3, b, f.body) && ts[b].kind is RBrace && j == b + 1
}

/// An item spelled by `ts[i..j]`.
pub open spec fn item_spelled(ts: Seq<Token>, i: int, j: int, item: Item) -> bool {
    &&& 0 <= i < j < ts.len()
    &&& match item {
        Item::Include(d) => ts[i].kind is Include && d.span == ts[i].span && ts[i + 1].kind == TokenKind::String(d.path)
            && ts[i + 2].kind is Semicolon && j == i + 3,
        Item::Import(d) => ts[i].kind is Import && d.span == ts[i].span && ts[i + 1].kind == TokenKind::String(d.path)
            && ts[i + 2].kind is As && ts[i + 3].kind == TokenKind::Ident(d.alias) && ts[i + 4].kind is Semicolon && j == i + 5,
        Item::Input(d) => ((ts[i].kind is Public && d.visibility is Public) || (ts[i].kind is Private && d.visibility is Private))
            && d.span == ts[i].span && ts[i + 1].kind == TokenKind::Ident(d.name) && ts[i + 2].kind is Colon && type_spelled(
            ts,
            i + 3,
            d.ty,
        ) && ts[i + 4].kind is Semicolon && j == i + 5,
        Item::Function(f) => function_spelled(ts, i, j, f),
        Item::Statement(st) => statement_spelled(ts, i, j, st),
    }
}

/// The items `items`, one after another, spelled by `ts[i..c]`.
pub open spec fn items_upto(ts: Seq<Token>, i: int, c: int, items: Seq<Item>) -> bool
    decreases items.len(),
{
    if items.len() == 0 {
        c == i
    } else {
        exists|p: int| #![trigger ts[p]] i <= p < c && items_upto(ts, i, p, items.drop_last()) && item_spelled(ts, p, c, items.last())
    }
}

/// The program `p` spelled by the whole token stream `ts`: `circuit name { items }`, then the
/// end.
pub open spec fn program_spelled(ts: Seq<Token>, p: Program) -> bool {
    &&& ts.len() >= 4
    &&& ts[0].kind is Circuit
    &&& ts[1].kind == TokenKind::Ident(p.circuit.name)
    &&& ts[2].kind is LBrace
    &&& exists|c: int| #![trigger ts[c]] 3 <= c && c + 1 < ts.len() && items_upto(ts, 3, c, p.circuit.items@) && ts[c].kind is RBrace && ts[c + 1].kind is Eof
}

// ----- where the parser stops, or why it fails ---------------------------------------------------
//
// Each `*_outcome` function gives, for the parser started at `i`, the position where it stops
// (`Ok`) or the span and message of the error it reports (`Err`).

/// `r` is what `o` says: `Ok` with the parser stopped at `end`, or the error's span and message.
pub open spec fn reports<T>(o: Result<int, (Span, Seq<char>)>, r: CompileResult<T>, end: int) -> bool {
    match r {
        Ok(_) => o == Ok::<int, (Span, Seq<char>)>(end),
        Err(e) => o == Err::<int, (Span, Seq<char>)>((e.span, e.message@)),
    }
}

/// Past the token at `i`; the end marker is never passed.
pub open spec fn next_pos(ts: Seq<Token>, i: int) -> int {
    if ts[i].kind is Eof {
        i
    } else {
        i + 1
    }
}

/// The token at `i` has the variant of `expected` (its payload aside).
pub open spec fn expect_outcome(ts: Seq<Token>, i: int, expected: TokenKind, message: Seq<char>) -> Result<int, (Span, Seq<char>)> {
    if kind_tag(ts[i].kind) == kind_tag(expected) {
        Ok(next_pos(ts, i))
    } else {
        Err((ts[i].span, message))
    }
}

/// The token at `i` is an identifier.
pub open spec fn ident_outcome(ts: Seq<Token>, i: int, message: Seq<char>) -> Result<int, (Span, Seq<char>)> {
    if ts[i].kind is Ident {
        Ok(i + 1)
    } else {
        Err((ts[i].span, message))
    }
}

/// The token at `i` is a string literal.
pub open spec fn string_outcome(ts: Seq<Token>, i: int, message: Seq<char>) -> Result<int, (Span, Seq<char>)> {
    if ts[i].kind is String {
        Ok(i + 1)
    } else {
        Err((ts[i].span, message))
    }
}

/// The token spells a type.
pub open spec fn type_token(k: TokenKind) -> bool {
    match k {
        TokenKind::Field => true,
        TokenKind::Bool => true,
        TokenKind::Ident(name) => name@ == "u8"@ || name@ == "u16"@ || name@ == "u32"@,
        _ => false,
    }
}

pub open spec fn type_outcome(ts: Seq<Token>, i: int) -> Result<int, (Span, Seq<char>)> {
    if type_token(ts[i].kind) {
        Ok(i + 1)
    } else {
        Err((ts[i].span, "expected `field`, `bool`, `u8`, `u16`, or `u32` type"@))
    }
}

/// An expression from `i`.
pub open spec fn expr_outcome(ts: Seq<Token>, i: int) -> Result<int, (Span, Seq<char>)>
    decreases ts.len() - i, 7int,
{
    sum_outcome(ts, i)
}

/// A product, then as many `+ product` or `- product` as follow.
pub open spec fn sum_outcome(ts: Seq<Token>, i: int) -> Result<int, (Span, Seq<char>)>
    decreases ts.len() - i, 6int,
{
    match product_outcome(ts, i) {
        Err(e) => Err(e),
        Ok(m) => if i < m <= ts.len() {
            sum_rest_outcome(ts, m)
        } else {
            Ok(m)
        },
    }
}

pub open spec fn sum_rest_outcome(ts: Seq<Token>, m: int) -> Result<int, (Span, Seq<char>)>
    decreases ts.len() - m, 5int,
{
    if 0 <= m < ts.len() && (ts[m].kind is Plus || ts[m].kind is Minus) {
        match product_outcome(ts, m + 1) {
            Err(e) => Err(e),
            Ok(n) => if m < n <= ts.len() {
                sum_rest_outcome(ts, n)
            } else {
                Ok(n)
            },
        }
    } else {
        Ok(m)
    }
}

/// A unary expression, then as many `* unary` as follow.
pub open spec fn product_outcome(ts: Seq<Token>, i: int) -> Result<int, (Span, Seq<char>)>
    decreases ts.len() - i, 4int,
{
    match unary_outcome(ts, i) {
        Err(e) => Err(e),
        Ok(m) => if i < m <= ts.len() {
            product_rest_outcome(ts, m)
        } else {
            Ok(m)
        },
    }
}

pub open spec fn product_rest_outcome(ts: Seq<Token>, m: int) -> Result<int, (Span, Seq<char>)>
    decreases ts.len() - m, 3int,
{
    if 0 <= m < ts.len() && ts[m].kind is Star {
        match unary_outcome(ts, m + 1) {
            Err(e) => Err(e),
            Ok(n) => if m < n <= ts.len() {
                product_rest_outcome(ts, n)
            } else {
                Ok(n)
            },
        }
    } else {
        Ok(m)
    }
}

/// Any number of `-`, then a primary expression.
pub open spec fn unary_outcome(ts: Seq<Token>, i: int) -> Result<int, (Span, Seq<char>)>
    decreases ts.len() - i, 2int,
{
    if 0 <= i < ts.len() && ts[i].kind is Minus {
        unary_outcome(ts, i + 1)
    } else {
        primary_outcome(ts, i)
    }
}

/// A literal, a name, a call, a conditional, or a parenthesized expression.
pub open spec fn primary_outcome(ts: Seq<Token>, i: int) -> Result<int, (Span, Seq<char>)>
    decreases ts.len() - i, 1int,
{
    if !(0 <= i && i + 1 < ts.len()) {
        Err((ts[i].span, "expected expression"@))
    } else {
        match ts[i].kind {
            TokenKind::Number(_) => Ok(i + 1),
            TokenKind::True => Ok(i + 1),
            TokenKind::False => Ok(i + 1),
            TokenKind::Ident(_) => if ts[i + 1].kind is LParen || ts[i + 1].kind is ColonColon {
                match callee_outcome(ts, i + 1) {
                    Err(e) => Err(e),
                    Ok(m) => if i < m <= ts.len() {
                        args_outcome(ts, m)
                    } else {
                        Ok(m)
                    },
                }
            } else {
                Ok(i + 1)
            },
            TokenKind::If => match expr_outcome(ts, i + 1) {
                Err(e) => Err(e),
                Ok(a) => match expect_outcome(ts, a, TokenKind::LBrace, "expected `{` before `if` branch"@) {
                    Err(e) => Err(e),
                    Ok(a1) => if i < a1 <= ts.len() {
                        match expr_outcome(ts, a1) {
                            Err(e) => Err(e),
                            Ok(b) => match expect_outcome(ts, b, TokenKind::RBrace, "expected `}` after `if` branch"@) {
                                Err(e) => Err(e),
                                Ok(b1) => match expect_outcome(ts, b1, TokenKind::Else, "expected `else` after `if` branch"@) {
                                    Err(e) => Err(e),
                                    Ok(b2) => match expect_outcome(ts, b2, TokenKind::LBrace, "expected `{` before `else` branch"@) {
                                        Err(e) => Err(e),
                                        Ok(b3) => if i < b3 <= ts.len() {
                                            match expr_outcome(ts, b3) {
                                                Err(e) => Err(e),
                                                Ok(c) => expect_outcome(ts, c, TokenKind::RBrace, "expected `}` after `else` branch"@),
                                            }
                                        } else {
                                            Ok(b3)
                                        },
                                    },
                                },
                            },
                        }
                    } else {
                        Ok(a1)
                    },
                },
            },
            TokenKind::LParen => match expr_outcome(ts, i + 1) {
                Err(e) => Err(e),
                Ok(m) => expect_outcome(ts, m, TokenKind::RParen, "expected `)` after expression"@),
            },
            _ => Err((ts[i].span, "expected expression"@)),
        }
    }
}

/// The rest of a callee from `c`, just past its first name: `:: name` repeated, then `(`.
pub open spec fn callee_outcome(ts: Seq<Token>, c: int) -> Result<int, (Span, Seq<char>)>
    decreases ts.len() - c,
{
    if !(0 <= c && c + 1 < ts.len()) {
        Err((ts[c].span, "qualified identifiers are only supported in call position"@))
    } else if ts[c].kind is ColonColon {
        if ts[c + 1].kind is Ident {
            callee_outcome(ts, c + 2)
        } else {
            Err((ts[c + 1].span, "expected identifier after `::`"@))
        }
    } else if ts[c].kind is LParen {
        Ok(c + 1)
    } else {
        Err((ts[c].span, "qualified identifiers are only supported in call position"@))
    }
}

/// The arguments of a call from `m`, just past `(`, through `)`.
pub open spec fn args_outcome(ts: Seq<Token>, m: int) -> Result<int, (Span, Seq<char>)>
    decreases ts.len() - m, 9int,
{
    if 0 <= m < ts.len() && ts[m].kind is RParen {
        Ok(m + 1)
    } else {
        args_rest_outcome(ts, m)
    }
}

/// Arguments from `p`, separated by commas, then `)`.
pub open spec fn args_rest_outcome(ts: Seq<Token>, p: int) -> Result<int, (Span, Seq<char>)>
    decreases ts.len() - p, 8int,
{
    match expr_outcome(ts, p) {
        Err(e) => Err(e),
        Ok(q) => if p < q && 0 <= q < ts.len() && ts[q].kind is Comma {
            args_rest_outcome(ts, q + 1)
        } else {
            expect_outcome(ts, q, TokenKind::RParen, "expected `)` after argument list"@)
        },
    }
}

/// Parameters from `c`: `name: type` separated by commas; stops where `)` should be.
pub open spec fn params_outcome(ts: Seq<Token>, c: int) -> Result<int, (Span, Seq<char>)>
    decreases ts.len() - c,
{
    match ident_outcome(ts, c, "expected parameter name"@) {
        Err(e) => Err(e),
        Ok(c1) => match expect_outcome(ts, c1, TokenKind::Colon, "expected `:` after parameter name"@) {
            Err(e) => Err(e),
            Ok(c2) => match type_outcome(ts, c2) {
                Err(e) => Err(e),
                Ok(c3) => if c < c3 && 0 <= c3 < ts.len() && ts[c3].kind is Comma {
                    params_outcome(ts, c3 + 1)
                } else {
                    Ok(c3)
                },
            },
        },
    }
}

/// `fn name(params) -> type { body }` from `i`.
pub open spec fn function_outcome(ts: Seq<Token>, i: int) -> Result<int, (Span, Seq<char>)> {
    match expect_outcome(ts, i, TokenKind::Fn, "expected `fn`"@) {
        Err(e) => Err(e),
        Ok(i1) => match ident_outcome(ts, i1, "expected function name after `fn`"@) {
            Err(e) => Err(e),
            Ok(i2) => match expect_outcome(ts, i2, TokenKind::LParen, "expected `(` after function name"@) {
                Err(e) => Err(e),
                Ok(i3) => match (if ts[i3].kind is RParen {
                    Ok(i3)
                } else {
                    params_outcome(ts, i3)
                }) {
                    Err(e) => Err(e),
                    Ok(p) => function_tail_outcome(ts, p),
                },
            },
        },
    }
}

/// The rest of a function declaration from `p`, where `)` should close the parameters.
pub open spec fn function_tail_outcome(ts: Seq<Token>, p: int) -> Result<int, (Span, Seq<char>)> {
    match expect_outcome(ts, p, TokenKind::RParen, "expected `)` after parameter list"@) {
        Err(e) => Err(e),
        Ok(p1) => match expect_outcome(ts, p1, TokenKind::Arrow, "expected `->` after parameter list"@) {
            Err(e) => Err(e),
            Ok(p2) => match type_outcome(ts, p2) {
                Err(e) => Err(e),
                Ok(p3) => match expect_outcome(ts, p3, TokenKind::LBrace, "expected `{` before function body"@) {
                    Err(e) => Err(e),
                    Ok(p4) => match expr_outcome(ts, p4) {
                        Err(e) => Err(e),
                        Ok(b) => expect_outcome(ts, b, TokenKind::RBrace, "expected `}` after function body"@),
                    },
                },
            },
        },
    }
}

pub open spec fn let_outcome(ts: Seq<Token>, i: int) -> Result<int, (Span, Seq<char>)> {
    match expect_outcome(ts, i, TokenKind::Let, "expected `let`"@) {
        Err(e) => Err(e),
        Ok(i1) => match ident_outcome(ts, i1, "expected binding name after `let`"@) {
            Err(e) => Err(e),
            Ok(i2) => match expect_outcome(ts, i2, TokenKind::Equal, "expected `=` after binding name"@) {
                Err(e) => Err(e),
                Ok(i3) => match expr_outcome(ts, i3) {
                    Err(e) => Err(e),
                    Ok(m) => expect_outcome(ts, m, TokenKind::Semicolon, "expected `;` after `let` binding"@),
                },
            },
        },
    }
}

pub open spec fn constrain_outcome(ts: Seq<Token>, i: int) -> Result<int, (Span, Seq<char>)> {
    match expect_outcome(ts, i, TokenKind::Constrain, "expected `constrain`"@) {
        Err(e) => Err(e),
        Ok(i1) => match expr_outcome(ts, i1) {
            Err(e) => Err(e),
            Ok(a) => match expect_outcome(ts, a, TokenKind::EqualEqual, "expected `==` in constraint"@) {
                Err(e) => Err(e),
                Ok(a1) => match expr_outcome(ts, a1) {
                    Err(e) => Err(e),
                    Ok(m) => expect_outcome(ts, m, TokenKind::Semicolon, "expected `;` after constraint"@),
                },
            },
        },
    }
}

pub open spec fn expose_outcome(ts: Seq<Token>, i: int) -> Result<int, (Span, Seq<char>)> {
    match expect_outcome(ts, i, TokenKind::Expose, "expected `expose`"@) {
        Err(e) => Err(e),
        Ok(i1) => match expr_outcome(ts, i1) {
            Err(e) => Err(e),
            Ok(m) => if ts[m].kind is As {
                match ident_outcome(ts, m + 1, "expected output label after `as`"@) {
                    Err(e) => Err(e),
                    Ok(n) => expect_outcome(ts, n, TokenKind::Semicolon, "expected `;` after exposed expression"@),
                }
            } else {
                expect_outcome(ts, m, TokenKind::Semicolon, "expected `;` after exposed expression"@)
            },
        },
    }
}

pub open spec fn statement_outcome(ts: Seq<Token>, i: int) -> Result<int, (Span, Seq<char>)> {
    if ts[i].kind is Let {
        let_outcome(ts, i)
    } else if ts[i].kind is Constrain {
        constrain_outcome(ts, i)
    } else if ts[i].kind is Expose {
        expose_outcome(ts, i)
    } else {
        Err((ts[i].span, "expected `let`, `constrain`, or `expose`"@))
    }
}

pub open spec fn include_outcome(ts: Seq<Token>, i: int) -> Result<int, (Span, Seq<char>)> {
    match string_outcome(ts, next_pos(ts, i), "expected string literal after the inclusion keyword"@) {
        Err(e) => Err(e),
        Ok(m) => expect_outcome(ts, m, TokenKind::Semicolon, "expected `;` after the inclusion path"@),
    }
}

pub open spec fn import_outcome(ts: Seq<Token>, i: int) -> Result<int, (Span, Seq<char>)> {
    match expect_outcome(ts, i, TokenKind::Import, "expected `import`"@) {
        Err(e) => Err(e),
        Ok(i1) => match string_outcome(ts, i1, "expected string literal after `import`"@) {
            Err(e) => Err(e),
            Ok(i2) => match expect_outcome(ts, i2, TokenKind::As, "expected `as` after import path"@) {
                Err(e) => Err(e),
                Ok(i3) => match ident_outcome(ts, i3, "expected import alias after `as`"@) {
                    Err(e) => Err(e),
                    Ok(i4) => expect_outcome(ts, i4, TokenKind::Semicolon, "expected `;` after import declaration"@),
                },
            },
        },
    }
}

pub open spec fn input_outcome(ts: Seq<Token>, i: int) -> Result<int, (Span, Seq<char>)> {
    if !(ts[i].kind is Public || ts[i].kind is Private) {
        Err((ts[i].span, "expected `public` or `private` input declaration"@))
    } else {
        match ident_outcome(ts, i + 1, "expected input name"@) {
            Err(e) => Err(e),
            Ok(i2) => match expect_outcome(ts, i2, TokenKind::Colon, "expected `:` after input name"@) {
                Err(e) => Err(e),
                Ok(i3) => match type_outcome(ts, i3) {
                    Err(e) => Err(e),
                    Ok(i4) => expect_outcome(ts, i4, TokenKind::Semicolon, "expected `;` after input declaration"@),
                },
            },
        }
    }
}

/// An item from `i`, chosen by its first token.
pub open spec fn item_outcome(ts: Seq<Token>, i: int) -> Result<int, (Span, Seq<char>)> {
    if ts[i].kind is Include {
        include_outcome(ts, i)
    } else if ts[i].kind is Import {
        import_outcome(ts, i)
    } else if ts[i].kind is Public || ts[i].kind is Private {
        input_outcome(ts, i)
    } else if ts[i].kind is Fn {
        function_outcome(ts, i)
    } else {
        statement_outcome(ts, i)
    }
}

/// Items from `c` until a token of the variant numbered `terminal`.
pub open spec fn until_outcome(ts: Seq<Token>, c: int, terminal: u8) -> Result<int, (Span, Seq<char>)>
    decreases ts.len() - c,
{
    if kind_tag(ts[c].kind) == terminal {
        Ok(c)
    } else {
        match item_outcome(ts, c) {
            Err(e) => Err(e),
            Ok(d) => if c < d <= ts.len() {
                until_outcome(ts, d, terminal)
            } else {
                Ok(d)
            },
        }
    }
}

/// Items up to the end marker.
pub open spec fn item_list_outcome(ts: Seq<Token>, i: int) -> Result<int, (Span, Seq<char>)> {
    match until_outcome(ts, i, 33) {
        Err(e) => Err(e),
        Ok(c) => expect_outcome(ts, c, TokenKind::Eof, "expected end of file"@),
    }
}

/// `circuit name { items }`, then the end marker.
pub open spec fn program_outcome(ts: Seq<Token>) -> Result<int, (Span, Seq<char>)> {
    match expect_outcome(ts, 0, TokenKind::Circuit, "expected `circuit` keyword"@) {
        Err(e) => Err(e),
        Ok(i1) => match ident_outcome(ts, i1, "expected circuit name"@) {
            Err(e) => Err(e),
            Ok(i2) => match expect_outcome(ts, i2, TokenKind::LBrace, "expected `{` after circuit name"@) {
                Err(e) => Err(e),
                Ok(i3) => match until_outcome(ts, i3, 20) {
                    Err(e) => Err(e),
                    Ok(c) => match expect_outcome(ts, c, TokenKind::RBrace, "expected `}` at end of circuit body"@) {
                        Err(e) => Err(e),
                        Ok(c1) => expect_outcome(ts, c1, TokenKind::Eof, "expected end of file"@),
                    },
                },
            },
        },
    }
}

/// Parses a whole program: one `circuit NAME { items }` and nothing after it.
///
/// A failure to lex is reported as is; a program returned is the one its tokens spell.
pub fn parse(source: &str) -> (r: CompileResult<Program>)
    ensures
        scan(source@, 0).1 matches Some(f) ==> r matches Err(e) && e.message@ == f.1 && e.span == span_at(source@, f.0),
        r matches Ok(p) ==> ident_text(p.circuit.name@) && keyword(p.circuit.name@) is None,
        r matches Ok(p) ==> exists|ts: Seq<Token>| lexes_to(source@, 0, ts) && program_spelled(ts, p) && program_outcome(ts) is Ok,
        r matches Err(e) ==> (scan(source@, 0).1 matches Some(f) && e.message@ == f.1 && e.span == span_at(source@, f.0)) || exists|
            ts: Seq<Token>,
        | lexes_to(source@, 0, ts) && program_outcome(ts) == Err::<int, (Span, Seq<char>)>((e.span, e.message@)),
{
    let tokens = lex(source)?;
    let ghost ts = tokens@;
    let mut parser = Parser { tokens, cursor: 0 };
    let r = parser.parse_program();
    proof {
        if r is Ok {
            assert(lexes_to(source@, 0, ts) && program_spelled(ts, r->Ok_0) && program_outcome(ts) is Ok);
        } else {
            assert(lexes_to(source@, 0, ts) && program_outcome(ts) == Err::<int, (Span, Seq<char>)>((r->Err_0.span, r->Err_0.message@)));
        }
    }
    r
}

/// Parses a sequence of items, as found in a file meant for inclusion.
///
/// A failure to lex is reported as is; the items returned are those the tokens spell, one
/// after another up to the end.
pub fn parse_items(source: &str) -> (r: CompileResult<Vec<Item>>)
    ensures
        scan(source@, 0).1 matches Some(f) ==> r matches Err(e) && e.message@ == f.1 && e.span == span_at(source@, f.0),
        r matches Ok(items) ==> exists|ts: Seq<Token>|
            lexes_to(source@, 0, ts) && items_upto(ts, 0, ts.len() - 1, items@) && item_list_outcome(ts, 0) is Ok,
        r matches Err(e) ==> (scan(source@, 0).1 matches Some(f) && e.message@ == f.1 && e.span == span_at(source@, f.0)) || exists|
            ts: Seq<Token>,
        | lexes_to(source@, 0, ts) && item_list_outcome(ts, 0) == Err::<int, (Span, Seq<char>)>((e.span, e.message@)),
{
    let tokens = lex(source)?;
    let ghost ts = tokens@;
    let mut parser = Parser { tokens, cursor: 0 };
    let r = parser.parse_item_list();
    proof {
        if r is Ok {
            assert(tokens_wf(ts));
            assert(lexes_to(source@, 0, ts) && items_upto(ts, 0, ts.len() - 1, r->Ok_0@) && item_list_outcome(ts, 0) is Ok);
        } else {
            assert(lexes_to(source@, 0, ts) && item_list_outcome(ts, 0) == Err::<int, (Span, Seq<char>)>((r->Err_0.span, r->Err_0.message@)));
        }
    }
    r
}

fn error_at(span: Span, message: &str) -> (e: CompileError)
    ensures
        e.span == span,
        e.message@ == message@,
{
    CompileError::new(span, to_owned(message))
}

struct Parser {
    tokens: Vec<Token>,
    cursor: usize,
}

impl Parser {
    spec fn inv(&self) -> bool {
        tokens_wf(self.tokens@) && self.cursor < self.tokens@.len()
    }

    spec fn at_eof(&self) -> bool {
        self.tokens@[self.cursor as int].kind is Eof
    }

    /// Moves on: same tokens, the cursor never goes back, and it stays within the tokens.
    spec fn moved_on(&self, before: &Parser) -> bool {
        &&& self.inv()
        &&& self.tokens@ == before.tokens@
        &&& self.cursor >= before.cursor
    }

    fn peek_kind(&self) -> (r: &TokenKind)
        requires
            self.inv(),
        ensures
            *r == self.tokens@[self.cursor as int].kind,
    {
        &self.tokens[self.cursor].kind
    }

    fn peek_span(&self) -> (r: Span)
        requires
            self.inv(),
        ensures
            r == self.tokens@[self.cursor as int].span,
    {
        self.tokens[self.cursor].span
    }

    /// The span of the current token; moves past it unless it is the end marker.
    fn bump(&mut self) -> (r: Span)
        requires
            old(self).inv(),
        ensures
            final(self).moved_on(old(self)),
            old(self).at_eof() ==> final(self).cursor == old(self).cursor,
            !old(self).at_eof() ==> final(self).cursor == old(self).cursor + 1,
            r == old(self).tokens@[old(self).cursor as int].span,
    {
        let span = self.tokens[self.cursor].span;
        if !matches!(self.tokens[self.cursor].kind, TokenKind::Eof) {
            assert(self.cursor < self.tokens.len());
            self.cursor = self.cursor + 1;
        }
        span
    }

    fn check(&self, expected: &TokenKind) -> (r: bool)
        requires
            self.inv(),
        ensures
            r == (kind_tag(self.tokens@[self.cursor as int].kind) == kind_tag(*expected)),
    {
        tag(&self.tokens[self.cursor].kind) == tag(expected)
    }

    fn expect_simple(&mut self, expected: TokenKind, message: &str) -> (r: CompileResult<Span>)
        requires
            old(self).inv(),
        ensures
            reports(expect_outcome(old(self).tokens@, old(self).cursor as int, expected, message@), r, final(self).cursor as int),
            final(self).moved_on(old(self)),
            r is Ok && !(expected is Eof) ==> final(self).cursor == old(self).cursor + 1,
            r is Ok ==> kind_tag(old(self).tokens@[old(self).cursor as int].kind) == kind_tag(expected),
            r matches Ok(span) ==> span == old(self).tokens@[old(self).cursor as int].span,
    {
        if self.check(&expected) {
            return Ok(self.bump());
        }
        Err(error_at(self.peek_span(), message))
    }

    fn expect_ident(&mut self, message: &str) -> (r: CompileResult<String>)
        requires
            old(self).inv(),
        ensures
            reports(ident_outcome(old(self).tokens@, old(self).cursor as int, message@), r, final(self).cursor as int),
            final(self).moved_on(old(self)),
            r is Ok ==> final(self).cursor == old(self).cursor + 1,
            r matches Ok(name) ==> ident_text(name@) && keyword(name@) is None,
            r matches Ok(name) ==> old(self).tokens@[old(self).cursor as int].kind == TokenKind::Ident(name),
    {
        let span = self.peek_span();
        let name = match self.peek_kind() {
            TokenKind::Ident(name) => name.clone(),
            _ => {
                self.bump();
                return Err(error_at(span, message));
            },
        };
        proof {
            assert(crate::lexer::token_kind_wf(self.tokens@[self.cursor as int].kind));
        }
        self.bump();
        Ok(name)
    }

    fn parse_program(&mut self) -> (r: CompileResult<Program>)
        requires
            old(self).inv(),
            old(self).cursor == 0,
        ensures
            reports(program_outcome(old(self).tokens@), r, final(self).cursor as int),
            r matches Ok(p) ==> ident_text(p.circuit.name@) && keyword(p.circuit.name@) is None,
            r matches Ok(p) ==> program_spelled(old(self).tokens@, p),
    {
        let ghost ts = self.tokens@;
        self.expect_simple(TokenKind::Circuit, "expected `circuit` keyword")?;
        let name = self.expect_ident("expected circuit name")?;
        self.expect_simple(TokenKind::LBrace, "expected `{` after circuit name")?;
        let items = self.parse_until(TokenKind::RBrace)?;
        let ghost c = self.cursor as int;
        self.expect_simple(TokenKind::RBrace, "expected `}` at end of circuit body")?;
        self.expect_simple(TokenKind::Eof, "expected end of file")?;
        proof {
            lemma_kind_tag(ts[0].kind);
            lemma_kind_tag(ts[2].kind);
            lemma_kind_tag(ts[c].kind);
            lemma_kind_tag(ts[c + 1].kind);
            lemma_kind_tag(TokenKind::RBrace);
            lemma_kind_tag(TokenKind::Eof);
            assert(3 <= c && c + 1 < ts.len() && items_upto(ts, 3, c, items@) && ts[c].kind is RBrace && ts[c + 1].kind is Eof);
        }
        Ok(Program { circuit: Circuit { name, items } })
    }

    fn parse_item_list(&mut self) -> (r: CompileResult<Vec<Item>>)
        requires
            old(self).inv(),
        ensures
            reports(item_list_outcome(old(self).tokens@, old(self).cursor as int), r, final(self).cursor as int),
            r matches Ok(items) ==> items_upto(old(self).tokens@, old(self).cursor as int, final(self).cursor as int, items@)
                && old(self).tokens@[final(self).cursor as int].kind is Eof,
    {
        proof {
            lemma_kind_tag(TokenKind::Eof);
        }
        let items = self.parse_until(TokenKind::Eof)?;
        proof {
            lemma_kind_tag(self.tokens@[self.cursor as int].kind);
        }
        self.expect_simple(TokenKind::Eof, "expected end of file")?;
        Ok(items)
    }

    fn parse_until(&mut self, terminal: TokenKind) -> (r: CompileResult<Vec<Item>>)
        requires
            old(self).inv(),
        ensures
            reports(until_outcome(old(self).tokens@, old(self).cursor as int, kind_tag(terminal)), r, final(self).cursor as int),
            final(self).moved_on(old(self)),
            r matches Ok(items) ==> items_upto(old(self).tokens@, old(self).cursor as int, final(self).cursor as int, items@)
                && kind_tag(old(self).tokens@[final(self).cursor as int].kind) == kind_tag(terminal),
    {
        let ghost ts = self.tokens@;
        let ghost i = self.cursor as int;
        let mut items: Vec<Item> = Vec::new();
        while !self.check(&terminal)
            invariant
                self.moved_on(old(self)),
                ts == self.tokens@,
                i == old(self).cursor,
                items_upto(ts, i, self.cursor as int, items@),
                until_outcome(ts, i, kind_tag(terminal)) == until_outcome(ts, self.cursor as int, kind_tag(terminal)),
            decreases self.tokens@.len() - self.cursor,
        {
            let ghost p = self.cursor as int;
            let ghost before = items@;
            let item = match self.parse_item() {
                Ok(item) => item,
                Err(e) => {
                    assert(until_outcome(ts, p, kind_tag(terminal)) == Err::<int, (Span, Seq<char>)>((e.span, e.message@)));
                    return Err(e);
                },
            };
            proof {
                assert(until_outcome(ts, p, kind_tag(terminal)) == until_outcome(ts, self.cursor as int, kind_tag(terminal)));
            }
            items.push(item);
            proof {
                assert(items@.drop_last() =~= before);
                assert(i <= p < self.cursor && items_upto(ts, i, p, items@.drop_last()) && item_spelled(ts, p, self.cursor as int, items@.last()));
            }
        }
        Ok(items)
    }

    fn parse_item(&mut self) -> (r: CompileResult<Item>)
        requires
            old(self).inv(),
        ensures
            reports(item_outcome(old(self).tokens@, old(self).cursor as int), r, final(self).cursor as int),
            final(self).moved_on(old(self)),
            r is Ok ==> final(self).cursor > old(self).cursor,
            r matches Ok(item) ==> item_spelled(old(self).tokens@, old(self).cursor as int, final(self).cursor as int, item),
    {
        proof {
            lemma_kind_tag(self.tokens@[self.cursor as int].kind);
        }
        let t = tag(self.peek_kind());
        if t == 14 {
            Ok(Item::Include(self.parse_include_decl()?))
        } else if t == 15 {
            Ok(Item::Import(self.parse_import_decl()?))
        } else if t == 1 || t == 2 {
            Ok(Item::Input(self.parse_input_decl()?))
        } else if t == 9 {
            Ok(Item::Function(self.parse_function_decl()?))
        } else {
            Ok(Item::Statement(self.parse_statement()?))
        }
    }

    /// A string literal token's text.
    fn expect_string(&mut self, message: &str) -> (r: CompileResult<String>)
        requires
            old(self).inv(),
        ensures
            reports(string_outcome(old(self).tokens@, old(self).cursor as int, message@), r, final(self).cursor as int),
            final(self).moved_on(old(self)),
            r is Ok ==> final(self).cursor == old(self).cursor + 1,
            r matches Ok(text) ==> old(self).tokens@[old(self).cursor as int].kind == TokenKind::String(text),
    {
        let span = self.peek_span();
        let text = match self.peek_kind() {
            TokenKind::String(text) => text.clone(),
            _ => {
                self.bump();
                return Err(error_at(span, message));
            },
        };
        self.bump();
        Ok(text)
    }

    fn parse_include_decl(&mut self) -> (r: CompileResult<IncludeDecl>)
        requires
            old(self).inv(),
            old(self).tokens@[old(self).cursor as int].kind is Include,
        ensures
            reports(include_outcome(old(self).tokens@, old(self).cursor as int), r, final(self).cursor as int),
            final(self).moved_on(old(self)),
            r is Ok ==> final(self).cursor > old(self).cursor,
            r matches Ok(d) ==> item_spelled(old(self).tokens@, old(self).cursor as int, final(self).cursor as int, Item::Include(d)),
    {
        let ghost ts = self.tokens@;
        let ghost i = self.cursor as int;
        let start = self.bump();
        let path = self.expect_string("expected string literal after the inclusion keyword")?;
        self.expect_simple(TokenKind::Semicolon, "expected `;` after the inclusion path")?;
        proof {
            lemma_kind_tag(ts[i + 2].kind);
        }
        Ok(IncludeDecl { path, span: start })
    }

    fn parse_import_decl(&mut self) -> (r: CompileResult<ImportDecl>)
        requires
            old(self).inv(),
        ensures
            reports(import_outcome(old(self).tokens@, old(self).cursor as int), r, final(self).cursor as int),
            final(self).moved_on(old(self)),
            r is Ok ==> final(self).cursor > old(self).cursor,
            r matches Ok(d) ==> item_spelled(old(self).tokens@, old(self).cursor as int, final(self).cursor as int, Item::Import(d)),
    {
        let ghost ts = self.tokens@;
        let ghost i = self.cursor as int;
        proof {
            lemma_kind_tag(ts[i].kind);
            if i + 2 < ts.len() {
                lemma_kind_tag(ts[i + 2].kind);
            }
            if i + 4 < ts.len() {
                lemma_kind_tag(ts[i + 4].kind);
            }
        }
        let start = self.expect_simple(TokenKind::Import, "expected `import`")?;
        let path = self.expect_string("expected string literal after `import`")?;
        self.expect_simple(TokenKind::As, "expected `as` after import path")?;
        let alias = self.expect_ident("expected import alias after `as`")?;
        self.expect_simple(TokenKind::Semicolon, "expected `;` after import declaration")?;
        Ok(ImportDecl { path, alias, span: start })
    }

    fn parse_input_decl(&mut self) -> (r: CompileResult<InputDecl>)
        requires
            old(self).inv(),
        ensures
            reports(input_outcome(old(self).tokens@, old(self).cursor as int), r, final(self).cursor as int),
            final(self).moved_on(old(self)),
            r is Ok ==> final(self).cursor > old(self).cursor,
            r matches Ok(d) ==> item_spelled(old(self).tokens@, old(self).cursor as int, final(self).cursor as int, Item::Input(d)),
    {
        let ghost ts = self.tokens@;
        let ghost i = self.cursor as int;
        proof {
            lemma_kind_tag(ts[i].kind);
        }
        let t = tag(self.peek_kind());
        let span = self.bump();
        let visibility = if t == 1 {
            Visibility::Public
        } else if t == 2 {
            Visibility::Private
        } else {
            return Err(error_at(span, "expected `public` or `private` input declaration"));
        };
        let name = self.expect_ident("expected input name")?;
        self.expect_simple(TokenKind::Colon, "expected `:` after input name")?;
        let ty = self.parse_type()?;
        self.expect_simple(TokenKind::Semicolon, "expected `;` after input declaration")?;
        proof {
            lemma_kind_tag(ts[i + 2].kind);
            lemma_kind_tag(ts[i + 4].kind);
        }
        Ok(InputDecl { visibility, name, ty, span })
    }

    fn parse_function_decl(&mut self) -> (r: CompileResult<FunctionDecl>)
        requires
            old(self).inv(),
        ensures
            reports(function_outcome(old(self).tokens@, old(self).cursor as int), r, final(self).cursor as int),
            final(self).moved_on(old(self)),
            r is Ok ==> final(self).cursor > old(self).cursor,
            r matches Ok(f) ==> function_spelled(old(self).tokens@, old(self).cursor as int, final(self).cursor as int, f),
    {
        let ghost ts = self.tokens@;
        let ghost i = self.cursor as int;
        let ghost q = i + 3;
        let start = self.expect_simple(TokenKind::Fn, "expected `fn`")?;
        let name = self.expect_ident("expected function name after `fn`")?;
        self.expect_simple(TokenKind::LParen, "expected `(` after function name")?;
        proof {
            lemma_kind_tag(ts[i].kind);
            lemma_kind_tag(ts[i + 2].kind);
            lemma_kind_tag(ts[q].kind);
        }
        let mut params: Vec<Param> = Vec::new();
        if !self.check(&TokenKind::RParen) {
            let mut more = true;
            while more
                invariant
                    self.moved_on(old(self)),
                    self.cursor > old(self).cursor,
                    ts == self.tokens@,
                    i == old(self).cursor,
                    q == i + 3,
                    more ==> self.cursor == q + 4 * params@.len(),
                    !more ==> params@.len() >= 1 && self.cursor == q + 4 * params@.len() - 1 && !(ts[self.cursor as int].kind is Comma),
                    forall|k: int| 0 <= k < params@.len() ==> {
                        &&& ts[q + 4 * k].kind == TokenKind::Ident((#[trigger] params@[k]).name)
                        &&& params@[k].span == ts[q + 4 * k].span
                        &&& ts[q + 4 * k + 1].kind is Colon
                        &&& type_spelled(ts, q + 4 * k + 2, params@[k].ty)
                        &&& (k + 1 < params@.len() || more) ==> ts[q + 4 * k + 3].kind is Comma
                    },
                    function_outcome(ts, i) == (match params_outcome(ts, q) {
                        Err(e) => Err(e),
                        Ok(p) => function_tail_outcome(ts, p),
                    }),
                    more ==> params_outcome(ts, q) == params_outcome(ts, self.cursor as int),
                    !more ==> params_outcome(ts, q) == Ok::<int, (Span, Seq<char>)>(self.cursor as int),
                decreases self.tokens@.len() - self.cursor + (if more { 1int } else { 0int }),
            {
                let ghost c = self.cursor as int;
                let ghost n = params@.len() as int;
                let ghost before = params@;
                let param_span = self.peek_span();
                let param_name = match self.expect_ident("expected parameter name") {
                    Ok(name) => name,
                    Err(e) => {
                        assert(params_outcome(ts, c) == Err::<int, (Span, Seq<char>)>((e.span, e.message@)));
                        return Err(e);
                    },
                };
                match self.expect_simple(TokenKind::Colon, "expected `:` after parameter name") {
                    Ok(_) => {},
                    Err(e) => {
                        assert(params_outcome(ts, c) == Err::<int, (Span, Seq<char>)>((e.span, e.message@)));
                        return Err(e);
                    },
                }
                let param_ty = match self.parse_type() {
                    Ok(ty) => ty,
                    Err(e) => {
                        assert(params_outcome(ts, c) == Err::<int, (Span, Seq<char>)>((e.span, e.message@)));
                        return Err(e);
                    },
                };
                params.push(Param { name: param_name, ty: param_ty, span: param_span });
                proof {
                    lemma_kind_tag(ts[q + 4 * n + 1].kind);
                    lemma_kind_tag(ts[q + 4 * n + 3].kind);
                }
                if self.check(&TokenKind::Comma) {
                    self.bump();
                    proof {
                        assert(params_outcome(ts, c) == params_outcome(ts, self.cursor as int));
                    }
                } else {
                    proof {
                        assert(params_outcome(ts, c) == Ok::<int, (Span, Seq<char>)>(self.cursor as int));
                    }
                    more = false;
                }
                proof {
                    assert forall|k: int| 0 <= k < params@.len() implies {
                        &&& ts[q + 4 * k].kind == TokenKind::Ident((#[trigger] params@[k]).name)
                        &&& params@[k].span == ts[q + 4 * k].span
                        &&& ts[q + 4 * k + 1].kind is Colon
                        &&& type_spelled(ts, q + 4 * k + 2, params@[k].ty)
                        &&& (k + 1 < params@.len() || more) ==> ts[q + 4 * k + 3].kind is Comma
                    } by {
                        if k < n {
                            assert(params@[k] == before[k]);
                        }
                    }
                }
            }
        }
        let ghost close = self.cursor as int;
        proof {
            assert(function_outcome(ts, i) == function_tail_outcome(ts, close));
        }
        self.expect_simple(TokenKind::RParen, "expected `)` after parameter list")?;
        let ghost p = self.cursor as int;
        self.expect_simple(TokenKind::Arrow, "expected `->` after parameter list")?;
        let return_type = self.parse_type()?;
        self.expect_simple(TokenKind::LBrace, "expected `{` before function body")?;
        let body = self.parse_expr()?;
        let ghost b = self.cursor as int;
        self.expect_simple(TokenKind::RBrace, "expected `}` after function body")?;
        proof {
            lemma_kind_tag(ts[close].kind);
            lemma_kind_tag(ts[p].kind);
            lemma_kind_tag(ts[p + 2].kind);
            lemma_kind_tag(ts[b].kind);
            if params@.len() > 0 {
                assert(p == q + 4 * params@.len());
                assert forall|k: int| 0 <= k < params@.len() implies {
                    &&& ts[q + 4 * k].kind == TokenKind::Ident((#[trigger] params@[k]).name)
                    &&& params@[k].span == ts[q + 4 * k].span
                    &&& ts[q + 4 * k + 1].kind is Colon
                    &&& type_spelled(ts, q + 4 * k + 2, params@[k].ty)
                    &&& if k + 1 < params@.len() {
                        ts[q + 4 * k + 3].kind is Comma
                    } else {
                        ts[q + 4 * k + 3].kind is RParen
                    }
                } by {
                    if k + 1 == params@.len() {
                        assert(q + 4 * k + 3 == close);
                    }
                }
            }
            assert(params_spelled(ts, q, p, params@));
            assert(params_spelled(ts, i + 3, p, params@) && ts[p].kind is Arrow && type_spelled(ts, p + 1, return_type)
                && ts[p + 2].kind is LBrace && expr_spelled(ts, p + 3, b, body) && ts[b].kind is RBrace && self.cursor == b + 1);
        }
        Ok(FunctionDecl { name, params, return_type, body, span: start })
    }

    fn parse_statement(&mut self) -> (r: CompileResult<Statement>)
        requires
            old(self).inv(),
        ensures
            reports(statement_outcome(old(self).tokens@, old(self).cursor as int), r, final(self).cursor as int),
            final(self).moved_on(old(self)),
            r is Ok ==> final(self).cursor > old(self).cursor,
            r matches Ok(st) ==> statement_spelled(old(self).tokens@, old(self).cursor as int, final(self).cursor as int, st),
    {
        let t = tag(self.peek_kind());
        if t == 3 {
            Ok(Statement::Let(self.parse_let_stmt()?))
        } else if t == 4 {
            Ok(Statement::Constrain(self.parse_constrain_stmt()?))
        } else if t == 5 {
            Ok(Statement::Expose(self.parse_expose_stmt()?))
        } else {
            Err(error_at(self.peek_span(), "expected `let`, `constrain`, or `expose`"))
        }
    }

    fn parse_let_stmt(&mut self) -> (r: CompileResult<LetStmt>)
        requires
            old(self).inv(),
        ensures
            reports(let_outcome(old(self).tokens@, old(self).cursor as int), r, final(self).cursor as int),
            final(self).moved_on(old(self)),
            r is Ok ==> final(self).cursor > old(self).cursor,
            r matches Ok(l) ==> statement_spelled(old(self).tokens@, old(self).cursor as int, final(self).cursor as int, Statement::Let(l)),
    {
        let ghost ts = self.tokens@;
        let ghost i = self.cursor as int;
        let start = self.expect_simple(TokenKind::Let, "expected `let`")?;
        let name = self.expect_ident("expected binding name after `let`")?;
        self.expect_simple(TokenKind::Equal, "expected `=` after binding name")?;
        let expr = self.parse_expr()?;
        let ghost m = self.cursor as int;
        self.expect_simple(TokenKind::Semicolon, "expected `;` after `let` binding")?;
        proof {
            lemma_kind_tag(ts[i].kind);
            lemma_kind_tag(ts[i + 2].kind);
            lemma_kind_tag(ts[m].kind);
            assert(expr_spelled(ts, i + 3, m, expr) && ts[m].kind is Semicolon && self.cursor == m + 1);
        }
        Ok(LetStmt { name, expr, span: start })
    }

    fn parse_constrain_stmt(&mut self) -> (r: CompileResult<ConstrainStmt>)
        requires
            old(self).inv(),
        ensures
            reports(constrain_outcome(old(self).tokens@, old(self).cursor as int), r, final(self).cursor as int),
            final(self).moved_on(old(self)),
            r is Ok ==> final(self).cursor > old(self).cursor,
            r matches Ok(c) ==> statement_spelled(old(self).tokens@, old(self).cursor as int, final(self).cursor as int, Statement::Constrain(c)),
    {
        let ghost ts = self.tokens@;
        let ghost i = self.cursor as int;
        let start = self.expect_simple(TokenKind::Constrain, "expected `constrain`")?;
        let lhs = self.parse_expr()?;
        let ghost a = self.cursor as int;
        self.expect_simple(TokenKind::EqualEqual, "expected `==` in constraint")?;
        let rhs = self.parse_expr()?;
        let ghost m = self.cursor as int;
        self.expect_simple(TokenKind::Semicolon, "expected `;` after constraint")?;
        proof {
            lemma_kind_tag(ts[i].kind);
            lemma_kind_tag(ts[a].kind);
            lemma_kind_tag(ts[m].kind);
            assert(expr_spelled(ts, i + 1, a, lhs) && ts[a].kind is EqualEqual && expr_spelled(ts, a + 1, m, rhs) && ts[m].kind is Semicolon
                && self.cursor == m + 1);
        }
        Ok(ConstrainStmt { lhs, rhs, span: start })
    }

    fn parse_expose_stmt(&mut self) -> (r: CompileResult<ExposeStmt>)
        requires
            old(self).inv(),
        ensures
            reports(expose_outcome(old(self).tokens@, old(self).cursor as int), r, final(self).cursor as int),
            final(self).moved_on(old(self)),
            r is Ok ==> final(self).cursor > old(self).cursor,
            r matches Ok(x) ==> statement_spelled(old(self).tokens@, old(self).cursor as int, final(self).cursor as int, Statement::Expose(x)),
    {
        let ghost ts = self.tokens@;
        let ghost i = self.cursor as int;
        let start = self.expect_simple(TokenKind::Expose, "expected `expose`")?;
        let expr = self.parse_expr()?;
        let ghost m = self.cursor as int;
        proof {
            lemma_kind_tag(ts[i].kind);
            lemma_kind_tag(ts[m].kind);
        }
        let label = if self.check(&TokenKind::As) {
            self.bump();
            Some(self.expect_ident("expected output label after `as`")?)
        } else {
            None
        };
        let ghost n = self.cursor as int;
        self.expect_simple(TokenKind::Semicolon, "expected `;` after exposed expression")?;
        proof {
            lemma_kind_tag(ts[n].kind);
            assert(expr_spelled(ts, i + 1, m, expr));
        }
        Ok(ExposeStmt { expr, label, span: start })
    }

    fn parse_type(&mut self) -> (r: CompileResult<Type>)
        requires
            old(self).inv(),
        ensures
            reports(type_outcome(old(self).tokens@, old(self).cursor as int), r, final(self).cursor as int),
            final(self).moved_on(old(self)),
            r is Ok ==> final(self).cursor == old(self).cursor + 1,
            r matches Ok(ty) ==> type_spelled(old(self).tokens@, old(self).cursor as int, ty),
    {
        let ty = match self.peek_kind() {
            TokenKind::Field => Some(Type::Field),
            TokenKind::Bool => Some(Type::Bool),
            TokenKind::Ident(name) => if eq_str(name.as_str(), "u8") {
                Some(Type::U8)
            } else if eq_str(name.as_str(), "u16") {
                Some(Type::U16)
            } else if eq_str(name.as_str(), "u32") {
                Some(Type::U32)
            } else {
                None
            },
            _ => None,
        };
        match ty {
            Some(ty) => {
                self.bump();
                Ok(ty)
            },
            None => Err(error_at(self.peek_span(), "expected `field`, `bool`, `u8`, `u16`, or `u32` type")),
        }
    }

    fn parse_expr(&mut self) -> (r: CompileResult<Expr>)
        requires
            old(self).inv(),
        ensures
            reports(expr_outcome(old(self).tokens@, old(self).cursor as int), r, final(self).cursor as int),
            final(self).moved_on(old(self)),
            r matches Ok(e) ==> expr_spelled(old(self).tokens@, old(self).cursor as int, final(self).cursor as int, e),
        decreases old(self).tokens@.len() - old(self).cursor, 5int,
    {
        self.parse_additive()
    }

    fn parse_additive(&mut self) -> (r: CompileResult<Expr>)
        requires
            old(self).inv(),
        ensures
            reports(sum_outcome(old(self).tokens@, old(self).cursor as int), r, final(self).cursor as int),
            final(self).moved_on(old(self)),
            r matches Ok(e) ==> expr_spelled(old(self).tokens@, old(self).cursor as int, final(self).cursor as int, e),
        decreases old(self).tokens@.len() - old(self).cursor, 4int,
    {
        let ghost ts = self.tokens@;
        let ghost start = self.cursor as int;
        let mut expr = self.parse_multiplicative()?;
        let mut more = true;
        while more
            invariant
                self.moved_on(old(self)),
                ts == self.tokens@,
                start == old(self).cursor,
                start < self.cursor,
                sum_chain(ts, start, self.cursor as int, expr),
                !more ==> !(ts[self.cursor as int].kind is Plus) && !(ts[self.cursor as int].kind is Minus),
                sum_outcome(ts, start) == sum_rest_outcome(ts, self.cursor as int),
            decreases self.tokens@.len() - self.cursor + (if more { 1int } else { 0int }),
        {
            let ghost m = self.cursor as int;
            proof {
                lemma_kind_tag(ts[m].kind);
            }
            let t = tag(self.peek_kind());
            if t == 30 || t == 31 {
                let op = if t == 30 {
                    BinaryOp::Add
                } else {
                    BinaryOp::Sub
                };
                let operator_span = self.bump();
                let rhs = match self.parse_multiplicative() {
                    Ok(rhs) => rhs,
                    Err(e) => {
                        assert(sum_rest_outcome(ts, m) == Err::<int, (Span, Seq<char>)>((e.span, e.message@)));
                        return Err(e);
                    },
                };
                proof {
                    assert(sum_rest_outcome(ts, m) == sum_rest_outcome(ts, self.cursor as int));
                }
                let ghost before = expr;
                expr = Expr::Binary { op, lhs: Box::new(expr), rhs: Box::new(rhs), span: operator_span };
                proof {
                    lemma_kind_tag(ts[m].kind);
                    assert(sum_chain(ts, start, m, before));
                    assert(product_spelled(ts, m + 1, self.cursor as int, rhs));
                    assert(start < m < self.cursor && ((op is Add && ts[m].kind is Plus) || (op is Sub && ts[m].kind is Minus))
                        && ts[m].span == operator_span && sum_chain(ts, start, m, before) && product_spelled(
                        ts,
                        m + 1,
                        self.cursor as int,
                        rhs,
                    ));
                    assert(sum_chain(ts, start, self.cursor as int, expr));
                }
            } else {
                more = false;
            }
        }
        Ok(expr)
    }

    fn parse_multiplicative(&mut self) -> (r: CompileResult<Expr>)
        requires
            old(self).inv(),
        ensures
            reports(product_outcome(old(self).tokens@, old(self).cursor as int), r, final(self).cursor as int),
            final(self).moved_on(old(self)),
            r matches Ok(e) ==> product_spelled(old(self).tokens@, old(self).cursor as int, final(self).cursor as int, e),
        decreases old(self).tokens@.len() - old(self).cursor, 3int,
    {
        let ghost ts = self.tokens@;
        let ghost start = self.cursor as int;
        let mut expr = self.parse_unary()?;
        while self.check(&TokenKind::Star)
            invariant
                self.moved_on(old(self)),
                ts == self.tokens@,
                start == old(self).cursor,
                start < self.cursor,
                product_chain(ts, start, self.cursor as int, expr),
                product_outcome(ts, start) == product_rest_outcome(ts, self.cursor as int),
            decreases self.tokens@.len() - self.cursor,
        {
            let ghost m = self.cursor as int;
            proof {
                lemma_kind_tag(ts[m].kind);
            }
            let operator_span = self.bump();
            let rhs = match self.parse_unary() {
                Ok(rhs) => rhs,
                Err(e) => {
                    assert(product_rest_outcome(ts, m) == Err::<int, (Span, Seq<char>)>((e.span, e.message@)));
                    return Err(e);
                },
            };
            proof {
                assert(product_rest_outcome(ts, m) == product_rest_outcome(ts, self.cursor as int));
            }
            let ghost before = expr;
            expr = Expr::Binary { op: BinaryOp::Mul, lhs: Box::new(expr), rhs: Box::new(rhs), span: operator_span };
            proof {
                lemma_kind_tag(ts[m].kind);
                assert(ts[m].kind is Star);
                assert(product_chain(ts, start, m, before));
                assert(unary_spelled(ts, m + 1, self.cursor as int, rhs));
                assert(start < m < self.cursor && ts[m].kind is Star && ts[m].span == operator_span && product_chain(ts, start, m, before)
                    && unary_spelled(ts, m + 1, self.cursor as int, rhs));
                assert(product_chain(ts, start, self.cursor as int, expr));
            }
        }
        proof {
            lemma_kind_tag(ts[self.cursor as int].kind);
        }
        Ok(expr)
    }

    fn parse_unary(&mut self) -> (r: CompileResult<Expr>)
        requires
            old(self).inv(),
        ensures
            reports(unary_outcome(old(self).tokens@, old(self).cursor as int), r, final(self).cursor as int),
            final(self).moved_on(old(self)),
            r matches Ok(e) ==> unary_spelled(old(self).tokens@, old(self).cursor as int, final(self).cursor as int, e),
        decreases old(self).tokens@.len() - old(self).cursor, 2int,
    {
        if self.check(&TokenKind::Minus) {
            let span = self.bump();
            let expr = self.parse_unary()?;
            return Ok(Expr::Unary { op: UnaryOp::Neg, expr: Box::new(expr), span });
        }
        self.parse_primary()
    }

    fn parse_primary(&mut self) -> (r: CompileResult<Expr>)
        requires
            old(self).inv(),
        ensures
            reports(primary_outcome(old(self).tokens@, old(self).cursor as int), r, final(self).cursor as int),
            final(self).moved_on(old(self)),
            r matches Ok(e) ==> primary_spelled(old(self).tokens@, old(self).cursor as int, final(self).cursor as int, e),
        decreases old(self).tokens@.len() - old(self).cursor, 1int,
    {
        let ghost ts = self.tokens@;
        let ghost i = self.cursor as int;
        proof {
            lemma_kind_tag(ts[i].kind);
        }
        let span = self.peek_span();
        let t = tag(self.peek_kind());
        if t == 17 {
            let value = match self.peek_kind() {
                TokenKind::Number(value) => *value,
                _ => 0,
            };
            self.bump();
            Ok(Expr::Number { value, span })
        } else if t == 12 {
            self.bump();
            Ok(Expr::Bool { value: true, span })
        } else if t == 13 {
            self.bump();
            Ok(Expr::Bool { value: false, span })
        } else if t == 16 {
            self.parse_name_or_call()
        } else if t == 10 {
            self.parse_conditional()
        } else if t == 21 {
            self.bump();
            let expr = self.parse_expr()?;
            let ghost m = self.cursor as int;
            self.expect_simple(TokenKind::RParen, "expected `)` after expression")?;
            proof {
                lemma_kind_tag(ts[m].kind);
                assert(i + 1 < m && m + 1 == self.cursor && expr_spelled(ts, i + 1, m, expr) && ts[m].kind is RParen);
            }
            Ok(expr)
        } else {
            self.bump();
            Err(error_at(span, "expected expression"))
        }
    }

    /// A name, or a call: the callee's segments and the arguments.
    fn parse_name_or_call(&mut self) -> (r: CompileResult<Expr>)
        requires
            old(self).inv(),
            old(self).tokens@[old(self).cursor as int].kind is Ident,
        ensures
            reports(primary_outcome(old(self).tokens@, old(self).cursor as int), r, final(self).cursor as int),
            final(self).moved_on(old(self)),
            r matches Ok(e) ==> primary_spelled(old(self).tokens@, old(self).cursor as int, final(self).cursor as int, e),
        decreases old(self).tokens@.len() - old(self).cursor, 0int,
    {
        let ghost ts = self.tokens@;
        let ghost i = self.cursor as int;
        let span = self.peek_span();
        let name = match self.peek_kind() {
            TokenKind::Ident(name) => name.clone(),
            _ => String::new(),
        };
        self.bump();
        proof {
            lemma_kind_tag(ts[i + 1].kind);
        }
        if self.check(&TokenKind::LParen) || self.check(&TokenKind::ColonColon) {
            let callee = self.parse_call_target(name)?;
            let ghost m = self.cursor as int;
            let args = self.parse_call_args()?;
            proof {
                assert(i < m < self.cursor && callee_spelled(ts, i, m, callee@) && args_spelled(ts, m, self.cursor as int, args@));
            }
            Ok(Expr::Call { callee, args, span })
        } else {
            Ok(Expr::Ident { name, span })
        }
    }

    /// `if condition { then } else { otherwise }`.
    fn parse_conditional(&mut self) -> (r: CompileResult<Expr>)
        requires
            old(self).inv(),
            old(self).tokens@[old(self).cursor as int].kind is If,
        ensures
            reports(primary_outcome(old(self).tokens@, old(self).cursor as int), r, final(self).cursor as int),
            final(self).moved_on(old(self)),
            r matches Ok(e) ==> primary_spelled(old(self).tokens@, old(self).cursor as int, final(self).cursor as int, e),
        decreases old(self).tokens@.len() - old(self).cursor, 0int,
    {
        let ghost ts = self.tokens@;
        let ghost i = self.cursor as int;
        let span = self.bump();
        let condition = self.parse_expr()?;
        let ghost a = self.cursor as int;
        self.expect_simple(TokenKind::LBrace, "expected `{` before `if` branch")?;
        let then_branch = self.parse_expr()?;
        let ghost b = self.cursor as int;
        self.expect_simple(TokenKind::RBrace, "expected `}` after `if` branch")?;
        self.expect_simple(TokenKind::Else, "expected `else` after `if` branch")?;
        self.expect_simple(TokenKind::LBrace, "expected `{` before `else` branch")?;
        let else_branch = self.parse_expr()?;
        let ghost c = self.cursor as int;
        self.expect_simple(TokenKind::RBrace, "expected `}` after `else` branch")?;
        proof {
            lemma_kind_tag(ts[a].kind);
            lemma_kind_tag(ts[b].kind);
            lemma_kind_tag(ts[b + 1].kind);
            lemma_kind_tag(ts[b + 2].kind);
            lemma_kind_tag(ts[c].kind);
            assert(i + 1 < a < b && b + 2 < c && c + 1 == self.cursor && expr_spelled(ts, i + 1, a, condition) && ts[a].kind is LBrace
                && expr_spelled(ts, a + 1, b, then_branch) && ts[b].kind is RBrace && ts[b + 1].kind is Else && ts[b + 2].kind is LBrace
                && expr_spelled(ts, b + 3, c, else_branch) && ts[c].kind is RBrace);
        }
        Ok(Expr::IfElse {
            condition: Box::new(condition),
            then_branch: Box::new(then_branch),
            else_branch: Box::new(else_branch),
            span,
        })
    }

    /// The segments of a call's callee, up to and including the opening parenthesis.
    fn parse_call_target(&mut self, first: String) -> (r: CompileResult<Vec<String>>)
        requires
            old(self).inv(),
            old(self).cursor >= 1,
            old(self).tokens@[old(self).cursor - 1].kind == TokenKind::Ident(first),
        ensures
            reports(callee_outcome(old(self).tokens@, old(self).cursor as int), r, final(self).cursor as int),
            final(self).moved_on(old(self)),
            r is Ok ==> final(self).cursor > old(self).cursor,
            r matches Ok(segments) ==> callee_spelled(old(self).tokens@, old(self).cursor - 1, final(self).cursor as int, segments@),
    {
        let ghost ts = self.tokens@;
        let ghost i = self.cursor - 1;
        let mut segments: Vec<String> = Vec::new();
        segments.push(first);
        while self.check(&TokenKind::ColonColon)
            invariant
                self.moved_on(old(self)),
                ts == self.tokens@,
                i == old(self).cursor - 1,
                segments@.len() >= 1,
                self.cursor == i + 2 * segments@.len() - 1,
                forall|k: int| 0 <= k < segments@.len() ==> ts[i + 2 * k].kind == TokenKind::Ident(#[trigger] segments@[k]),
                forall|k: int| 1 <= k < segments@.len() ==> #[trigger] ts[i + 2 * k - 1].kind is ColonColon,
                callee_outcome(ts, i + 1) == callee_outcome(ts, self.cursor as int),
            decreases self.tokens@.len() - self.cursor,
        {
            let ghost c = self.cursor as int;
            proof {
                lemma_kind_tag(ts[self.cursor as int].kind);
            }
            self.bump();
            let segment = match self.expect_ident("expected identifier after `::`") {
                Ok(segment) => segment,
                Err(e) => {
                    assert(callee_outcome(ts, c) == Err::<int, (Span, Seq<char>)>((e.span, e.message@)));
                    return Err(e);
                },
            };
            proof {
                assert(callee_outcome(ts, c) == callee_outcome(ts, c + 2));
            }
            segments.push(segment);
            proof {
                let n = segments@.len();
                assert(ts[i + 2 * (n - 1)].kind == TokenKind::Ident(segments@[n - 1]));
                assert(ts[i + 2 * (n - 1) - 1].kind is ColonColon);
                assert forall|k: int| 1 <= k < segments@.len() implies #[trigger] ts[i + 2 * k - 1].kind is ColonColon by {
                    if k == n - 1 {
                        assert(ts[i + 2 * (n - 1) - 1].kind is ColonColon);
                    }
                }
            }
        }
        proof {
            lemma_kind_tag(ts[self.cursor as int].kind);
        }
        if !self.check(&TokenKind::LParen) {
            return Err(error_at(self.peek_span(), "qualified identifiers are only supported in call position"));
        }
        self.bump();
        Ok(segments)
    }

    fn parse_call_args(&mut self) -> (r: CompileResult<Vec<Expr>>)
        requires
            old(self).inv(),
        ensures
            reports(args_outcome(old(self).tokens@, old(self).cursor as int), r, final(self).cursor as int),
            final(self).moved_on(old(self)),
            r matches Ok(args) ==> args_spelled(old(self).tokens@, old(self).cursor as int, final(self).cursor as int, args@),
        decreases old(self).tokens@.len() - old(self).cursor, 6int,
    {
        let ghost ts = self.tokens@;
        let ghost i = self.cursor as int;
        let mut args: Vec<Expr> = Vec::new();
        let ghost mut last_start: int = i;
        proof {
            lemma_kind_tag(ts[i].kind);
        }
        if !self.check(&TokenKind::RParen) {
            let mut more = true;
            while more
                invariant
                    self.moved_on(old(self)),
                    ts == self.tokens@,
                    i == old(self).cursor,
                    more ==> args_upto(ts, i, self.cursor as int, args@),
                    !more ==> args@.len() >= 1 && i <= last_start < self.cursor && args_upto(ts, i, last_start, args@.drop_last())
                        && expr_spelled(ts, last_start, self.cursor as int, args@.last()) && !(ts[self.cursor as int].kind is Comma),
                    more ==> args_outcome(ts, i) == args_rest_outcome(ts, self.cursor as int),
                    !more ==> args_outcome(ts, i) == expect_outcome(ts, self.cursor as int, TokenKind::RParen, "expected `)` after argument list"@),
                decreases self.tokens@.len() - self.cursor + (if more { 1int } else { 0int }),
            {
                let ghost p = self.cursor as int;
                let arg = match self.parse_expr() {
                    Ok(arg) => arg,
                    Err(e) => {
                        assert(args_rest_outcome(ts, p) == Err::<int, (Span, Seq<char>)>((e.span, e.message@)));
                        return Err(e);
                    },
                };
                let ghost m = self.cursor as int;
                let ghost done = args@;
                args.push(arg);
                proof {
                    lemma_kind_tag(ts[m].kind);
                    assert(args@.drop_last() =~= done);
                }
                if self.check(&TokenKind::Comma) {
                    self.bump();
                    proof {
                        assert(args_rest_outcome(ts, p) == args_rest_outcome(ts, m + 1));
                        assert(i <= p < m && m + 1 == self.cursor && args_upto(ts, i, p, args@.drop_last()) && expr_spelled(ts, p, m, args@.last())
                            && ts[m].kind is Comma);
                    }
                } else {
                    proof {
                        last_start = p;
                        assert(args_rest_outcome(ts, p) == expect_outcome(ts, m, TokenKind::RParen, "expected `)` after argument list"@));
                    }
                    more = false;
                }
            }
            let ghost m = self.cursor as int;
            self.expect_simple(TokenKind::RParen, "expected `)` after argument list")?;
            proof {
                lemma_kind_tag(ts[m].kind);
                assert(i <= last_start < m && m + 1 == self.cursor && args_upto(ts, i, last_start, args@.drop_last()) && expr_spelled(
                    ts,
                    last_start,
                    m,
                    args@.last(),
                ) && ts[m].kind is RParen);
            }
        } else {
            self.expect_simple(TokenKind::RParen, "expected `)` after argument list")?;
        }
        Ok(args)
    }
}

} // verus!
