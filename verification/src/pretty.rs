//! Renders a syntax tree back to source text in the canonical layout.
use vstd::prelude::*;

use crate::ast::{
    format_callee, inclusion_keyword, inclusion_keyword_chars, join_path, spelling, string_views,
    BinaryOp, Expr, FunctionDecl, Item, Param, Program, Statement, UnaryOp, Visibility,
};
use crate::text::{json_string, push_char, push_signed_decimal, push_str, quoted, signed_decimal};

verus! {

pub open spec fn binary_strength(op: BinaryOp) -> nat {
    match op {
        BinaryOp::Mul => 2,
        BinaryOp::Add | BinaryOp::Sub => 1,
    }
}

pub open spec fn binary_symbol(op: BinaryOp) -> Seq<char> {
    match op {
        BinaryOp::Add => "+"@,
        BinaryOp::Sub => "-"@,
        BinaryOp::Mul => "*"@,
    }
}

/// `text`, in parentheses when `parens`.
pub open spec fn wrap(parens: bool, text: Seq<char>) -> Seq<char> {
    if parens {
        seq!['('] + text + seq![')']
    } else {
        text
    }
}

/// The source text of an expression inside a context of binding strength `parent`: negation
/// binds with strength 3, `*` with 2, `+` and `-` with 1, and an `if` is parenthesized inside
/// any operator.
pub open spec fn expr_source(e: Expr, parent: nat) -> Seq<char>
    decreases e, 0nat,
{
    match e {
        Expr::Number { value, .. } => signed_decimal(value as int),
        Expr::Bool { value, .. } => if value {
            "true"@
        } else {
            "false"@
        },
        Expr::Ident { name, .. } => name@,
        Expr::Call { callee, args, .. } => {
            proof {
                assert(decreases_to!(e => args));
            }
            join_path(string_views(callee@)) + seq!['('] + args_source(args@, args@.len()) + seq![')']
        },
        Expr::Unary { expr, .. } => wrap(3 < parent, seq!['-'] + expr_source(*expr, 3)),
        Expr::Binary { op, lhs, rhs, .. } => wrap(
            binary_strength(op) < parent,
            expr_source(*lhs, binary_strength(op)) + seq![' '] + binary_symbol(op) + seq![' ']
                + expr_source(*rhs, binary_strength(op) + 1),
        ),
        Expr::IfElse { condition, then_branch, else_branch, .. } => wrap(
            parent > 0,
            "if "@ + expr_source(*condition, 0) + " { "@ + expr_source(*then_branch, 0) + " } else { "@
                + expr_source(*else_branch, 0) + " }"@,
        ),
    }
}

/// The first `n` call arguments, separated by `, `.
pub open spec fn args_source(args: Seq<Expr>, n: nat) -> Seq<char>
    decreases args, n,
{
    if n == 0 || n > args.len() {
        Seq::empty()
    } else if n == 1 {
        expr_source(args[0], 0)
    } else {
        args_source(args, (n - 1) as nat) + ", "@ + expr_source(args[n - 1], 0)
    }
}

/// Four spaces per level.
pub open spec fn indent_text(level: nat) -> Seq<char>
    decreases level,
{
    if level == 0 {
        Seq::empty()
    } else {
        indent_text((level - 1) as nat) + "    "@
    }
}

pub open spec fn param_source(p: Param) -> Seq<char> {
    p.name@ + ": "@ + spelling(p.ty)
}

/// The first `n` parameters, separated by `, `.
pub open spec fn params_source(params: Seq<Param>, n: nat) -> Seq<char>
    decreases n,
{
    if n == 0 || n > params.len() {
        Seq::empty()
    } else if n == 1 {
        param_source(params[0])
    } else {
        params_source(params, (n - 1) as nat) + ", "@ + param_source(params[n - 1])
    }
}

pub open spec fn function_source(f: FunctionDecl, level: nat) -> Seq<char> {
    indent_text(level) + "fn "@ + f.name@ + seq!['('] + params_source(f.params@, f.params@.len()) + ") -> "@
        + spelling(f.return_type) + " {\n"@ + indent_text(level + 1) + expr_source(f.body, 0) + seq!['\n']
        + indent_text(level) + "}\n"@
}

pub open spec fn statement_source(s: Statement, level: nat) -> Seq<char> {
    indent_text(level) + match s {
        Statement::Let(l) => "let "@ + l.name@ + " = "@ + expr_source(l.expr, 0) + ";\n"@,
        Statement::Constrain(c) => "constrain "@ + expr_source(c.lhs, 0) + " == "@ + expr_source(c.rhs, 0) + ";\n"@,
        Statement::Expose(e) => "expose "@ + expr_source(e.expr, 0) + match e.label {
            Some(label) => " as "@ + label@,
            None => Seq::empty(),
        } + ";\n"@,
    }
}

pub open spec fn item_source(item: Item, level: nat) -> Seq<char> {
    match item {
        Item::Include(d) => indent_text(level) + inclusion_keyword_chars() + seq![' '] + quoted(d.path@) + ";\n"@,
        Item::Import(d) => indent_text(level) + "import "@ + quoted(d.path@) + " as "@ + d.alias@ + ";\n"@,
        Item::Input(i) => indent_text(level) + match i.visibility {
            Visibility::Public => "public "@,
            Visibility::Private => "private "@,
        } + i.name@ + ": "@ + spelling(i.ty) + ";\n"@,
        Item::Function(f) => function_source(f, level),
        Item::Statement(s) => statement_source(s, level),
    }
}

/// The first `n` items at indentation level one.
pub open spec fn items_source(items: Seq<Item>, n: nat) -> Seq<char>
    decreases n,
{
    if n == 0 || n > items.len() {
        Seq::empty()
    } else {
        items_source(items, (n - 1) as nat) + item_source(items[n - 1], 1)
    }
}

/// The canonical source text of a program.
pub open spec fn program_source(p: Program) -> Seq<char> {
    "circuit "@ + p.circuit.name@ + " {\n"@ + items_source(p.circuit.items@, p.circuit.items@.len()) + "}\n"@
}

/// Renders `program` as source text: one item per line, four spaces of indentation per level,
/// and only the parentheses that the binding strengths need.
pub fn render_program(program: &Program) -> (s: String)
    ensures
        s@ == program_source(*program),
{
    let mut out = String::new();
    push_str(&mut out, "circuit ");
    push_str(&mut out, program.circuit.name.as_str());
    push_str(&mut out, " {\n");
    let items = &program.circuit.items;
    let mut i: usize = 0;
    while i < items.len()
        invariant
            i <= items@.len(),
            items@ == program.circuit.items@,
            out@ == "circuit "@ + program.circuit.name@ + " {\n"@ + items_source(items@, i as nat),
        decreases items.len() - i,
    {
        render_item(&items[i], 1, &mut out);
        i = i + 1;
    }
    push_str(&mut out, "}\n");
    assert(out@ =~= program_source(*program));
    out
}

fn render_item(item: &Item, indent_level: usize, out: &mut String)
    requires
        indent_level < usize::MAX,
    ensures
        final(out)@ == old(out)@ + item_source(*item, indent_level as nat),
{
    match item {
        Item::Include(directive) => {
            indent(indent_level, out);
            push_str(out, inclusion_keyword().as_str());
            push_char(out, ' ');
            push_str(out, json_string(directive.path.as_str()).as_str());
            push_str(out, ";\n");
        },
        Item::Import(import) => {
            indent(indent_level, out);
            push_str(out, "import ");
            push_str(out, json_string(import.path.as_str()).as_str());
            push_str(out, " as ");
            push_str(out, import.alias.as_str());
            push_str(out, ";\n");
        },
        Item::Input(input) => {
            indent(indent_level, out);
            push_str(
                out,
                match input.visibility {
                    Visibility::Public => "public ",
                    Visibility::Private => "private ",
                },
            );
            push_str(out, input.name.as_str());
            push_str(out, ": ");
            push_str(out, input.ty.name());
            push_str(out, ";\n");
        },
        Item::Function(function) => render_function(function, indent_level, out),
        Item::Statement(statement) => render_statement(statement, indent_level, out),
    }
    assert(out@ =~= old(out)@ + item_source(*item, indent_level as nat));
}

fn render_function(function: &FunctionDecl, indent_level: usize, out: &mut String)
    requires
        indent_level < usize::MAX,
    ensures
        final(out)@ == old(out)@ + function_source(*function, indent_level as nat),
{
    indent(indent_level, out);
    push_str(out, "fn ");
    push_str(out, function.name.as_str());
    push_char(out, '(');
    let ghost head = out@;
    let mut index: usize = 0;
    while index < function.params.len()
        invariant
            index <= function.params@.len(),
            out@ == head + params_source(function.params@, index as nat),
        decreases function.params.len() - index,
    {
        if index > 0 {
            push_str(out, ", ");
        }
        let param = &function.params[index];
        push_str(out, param.name.as_str());
        push_str(out, ": ");
        push_str(out, param.ty.name());
        assert(out@ =~= head + params_source(function.params@, (index + 1) as nat));
        index = index + 1;
    }
    push_str(out, ") -> ");
    push_str(out, function.return_type.name());
    push_str(out, " {\n");
    indent(indent_level + 1, out);
    render_expr(&function.body, 0, out);
    push_char(out, '\n');
    indent(indent_level, out);
    push_str(out, "}\n");
    assert(out@ =~= old(out)@ + function_source(*function, indent_level as nat));
}

fn render_statement(statement: &Statement, indent_level: usize, out: &mut String)
    ensures
        final(out)@ == old(out)@ + statement_source(*statement, indent_level as nat),
{
    indent(indent_level, out);
    let ghost head = out@;
    match statement {
        Statement::Let(stmt) => {
            push_str(out, "let ");
            push_str(out, stmt.name.as_str());
            push_str(out, " = ");
            render_expr(&stmt.expr, 0, out);
            push_str(out, ";\n");
        },
        Statement::Constrain(stmt) => {
            push_str(out, "constrain ");
            render_expr(&stmt.lhs, 0, out);
            push_str(out, " == ");
            render_expr(&stmt.rhs, 0, out);
            push_str(out, ";\n");
        },
        Statement::Expose(stmt) => {
            push_str(out, "expose ");
            render_expr(&stmt.expr, 0, out);
            match &stmt.label {
                Some(label) => {
                    push_str(out, " as ");
                    push_str(out, label.as_str());
                },
                None => {},
            }
            push_str(out, ";\n");
        },
    }
    assert(out@ =~= old(out)@ + statement_source(*statement, indent_level as nat));
}

/// Appends the source text of `expr` in a context of binding strength `parent_precedence`.
#[verifier::rlimit(50)]
pub fn render_expr(expr: &Expr, parent_precedence: u8, out: &mut String)
    ensures
        final(out)@ == old(out)@ + expr_source(*expr, parent_precedence as nat),
    decreases expr,
{
    match expr {
        Expr::Number { value, .. } => push_signed_decimal(out, *value),
        Expr::Bool { value, .. } => push_str(
            out,
            if *value {
                "true"
            } else {
                "false"
            },
        ),
        Expr::Ident { name, .. } => push_str(out, name.as_str()),
        Expr::Call { callee, args, .. } => {
            push_str(out, format_callee(callee.as_slice()).as_str());
            push_char(out, '(');
            let ghost head = out@;
            let mut index: usize = 0;
            while index < args.len()
                invariant
                    index <= args@.len(),
                    *expr is Call,
                    (*expr)->args == *args,
                    out@ == head + args_source(args@, index as nat),
                decreases args.len() - index,
            {
                if index > 0 {
                    push_str(out, ", ");
                }
                proof {
                    assert(decreases_to!(*expr => (*expr)->args));
                    vstd::std_specs::vec::axiom_vec_index_decreases(*args, index as int);
                }
                render_expr(&args[index], 0, out);
                assert(out@ =~= head + args_source(args@, (index + 1) as nat));
                index = index + 1;
            }
            push_char(out, ')');
        },
        Expr::Unary { op, expr: operand, .. } => {
            let needs_parens = 3 < parent_precedence;
            if needs_parens {
                push_char(out, '(');
            }
            match op {
                UnaryOp::Neg => push_char(out, '-'),
            }
            render_expr(operand, 3, out);
            if needs_parens {
                push_char(out, ')');
            }
        },
        Expr::Binary { op, lhs, rhs, .. } => {
            let precedence: u8 = match op {
                BinaryOp::Mul => 2,
                BinaryOp::Add | BinaryOp::Sub => 1,
            };
            let needs_parens = precedence < parent_precedence;
            if needs_parens {
                push_char(out, '(');
            }
            render_expr(lhs, precedence, out);
            push_char(out, ' ');
            push_str(
                out,
                match op {
                    BinaryOp::Add => "+",
                    BinaryOp::Sub => "-",
                    BinaryOp::Mul => "*",
                },
            );
            push_char(out, ' ');
            render_expr(rhs, precedence + 1, out);
            if needs_parens {
                push_char(out, ')');
            }
        },
        Expr::IfElse { condition, then_branch, else_branch, .. } => {
            let needs_parens = parent_precedence > 0;
            if needs_parens {
                push_char(out, '(');
            }
            push_str(out, "if ");
            render_expr(condition, 0, out);
            push_str(out, " { ");
            render_expr(then_branch, 0, out);
            push_str(out, " } else { ");
            render_expr(else_branch, 0, out);
            push_str(out, " }");
            if needs_parens {
                push_char(out, ')');
            }
        },
    }
    assert(out@ =~= old(out)@ + expr_source(*expr, parent_precedence as nat));
}

fn indent(level: usize, out: &mut String)
    ensures
        final(out)@ == old(out)@ + indent_text(level as nat),
{
    let mut i: usize = 0;
    while i < level
        invariant
            i <= level,
            out@ == old(out)@ + indent_text(i as nat),
        decreases level - i,
    {
        push_str(out, "    ");
        i = i + 1;
    }
}

} // verus!
