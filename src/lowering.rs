use vstd::prelude::*;

use crate::ast::{Ast, Bop, Constant, ElseIf, Expression, Function, If, Statement, TypeConstr, Value};
use crate::lexer::is_space;
use crate::parser::ImportedModule;
use crate::text::{decimal, signed_decimal};

verus! {

// What the code generator emits, stated as text. Expressions lower to a
// sequence of instruction lines; a program to one module.

/// Lines joined, each followed by a line break.
pub open spec fn flatten(p: Seq<Seq<char>>) -> Seq<char>
    decreases p.len(),
{
    if p.len() == 0 {
        Seq::empty()
    } else {
        flatten(p.drop_last()) + p.last() + "\n"@
    }
}

pub open spec fn const_line(v: i32) -> Seq<char> {
    "(i32.const "@ + signed_decimal(v as int) + ")"@
}

/// The instruction of a binary operator; only equality and unsigned
/// greater-than are lowered so far.
pub open spec fn bop_instr(op: Bop) -> Option<Seq<char>> {
    match op {
        Bop::Eq => Some("(i32.eq)"@),
        Bop::Gt => Some("(i32.gt_u)"@),
        _ => None,
    }
}

/// The symbolic address of the string construction, `offset` bytes on.
pub open spec fn string_slot(offset: nat) -> Seq<char> {
    if offset == 0 {
        "~type-String~"@
    } else {
        "~type-String+"@ + decimal(offset) + "~"@
    }
}

/// A store of the number text `v` at the string slot `offset` bytes on.
pub open spec fn store_line(offset: nat, v: Seq<char>) -> Seq<char> {
    "(i32.store (i32.const "@ + string_slot(offset) + ") (i32.const "@ + v + "))"@
}

/// The stores of the first `n` elements of an array, element `k` one word
/// after the length cell per position.
pub open spec fn element_stores(a: Seq<Value>, n: int) -> Option<Seq<Seq<char>>>
    decreases n,
{
    if n <= 0 || n > a.len() {
        Some(Seq::empty())
    } else {
        match (element_stores(a, n - 1), a[n - 1]) {
            (Some(p), Value::I32(x)) => Some(
                p.push(store_line(4 * n as nat, signed_decimal(x as int))),
            ),
            _ => None,
        }
    }
}

/// The stores of the first `n` fields of a string construction: for an array
/// field, its length at the base address and then its elements.
pub open spec fn field_stores(f: Seq<(String, Constant)>, n: int) -> Option<Seq<Seq<char>>>
    decreases n,
{
    if n <= 0 || n > f.len() {
        Some(Seq::empty())
    } else {
        match (field_stores(f, n - 1), f[n - 1].1) {
            (Some(p), Constant::Arr(a)) => match element_stores(a@, a.len() as int) {
                Some(e) => Some(p.push(store_line(0, decimal(a.len() as nat))) + e),
                None => None,
            },
            _ => None,
        }
    }
}

/// A construction lowers to its stores, then the base address as its value;
/// only strings can be constructed so far.
pub open spec fn construction_lines(c: TypeConstr) -> Option<Seq<Seq<char>>> {
    if c.name@ == "String"@ {
        match field_stores(c.values@, c.values.len() as int) {
            Some(p) => Some(p.push("(i32.const "@ + string_slot(0) + ")"@)),
            None => None,
        }
    } else {
        None
    }
}

/// The lines of an expression; `None` for what cannot be lowered yet.
pub open spec fn lower_expr(e: Expression) -> Option<Seq<Seq<char>>>
    decreases e, 0int,
{
    match e {
        Expression::Value(v) => lower_value(v),
        Expression::BinaryOperation(l, op, r) => match (lower_expr(*l), lower_expr(*r), bop_instr(op)) {
            (Some(a), Some(b), Some(i)) => Some(a + b + seq![i]),
            _ => None,
        },
        Expression::UnaryOperation(_, _) => None,
        Expression::If(i) => lower_if(i),
    }
}

/// The lines of a value. A call's arguments are lowered in order; the lines
/// each argument needs first come before the call, whose operands are the
/// arguments' last lines.
pub open spec fn lower_value(v: Value) -> Option<Seq<Seq<char>>>
    decreases v, 0int,
{
    match v {
        Value::I32(x) => Some(seq![const_line(x)]),
        Value::F32(_) => None,
        Value::Var(n) => Some(seq!["(local.get $"@ + n@ + ")"@]),
        Value::TypeConstr(c) => construction_lines(c),
        Value::FnCall(c) => match lower_args(c.args@, c.args.len() as int) {
            Some((h, o)) => Some(h.push("(call $"@ + c.name@ + " "@ + o + ")"@)),
            None => None,
        },
    }
}

/// For the first `n` arguments: the lines to run before the call, and the
/// operand text.
pub open spec fn lower_args(s: Seq<Expression>, n: int) -> Option<(Seq<Seq<char>>, Seq<char>)>
    decreases s, n,
{
    if n <= 0 || n > s.len() {
        Some((Seq::empty(), Seq::empty()))
    } else {
        match (lower_args(s, n - 1), lower_expr(s[n - 1])) {
            (Some((h, o)), Some(p)) => if p.len() > 0 {
                Some((h + p.drop_last(), o + p.last()))
            } else {
                None
            },
            _ => None,
        }
    }
}

/// The lines of the first `n` items of a block; only expressions can be
/// lowered inside a function so far.
pub open spec fn block_lines(s: Seq<Ast>, n: int) -> Option<Seq<Seq<char>>>
    decreases s, n,
{
    if n <= 0 || n > s.len() {
        Some(Seq::empty())
    } else {
        match (block_lines(s, n - 1), s[n - 1]) {
            (Some(p), Ast::Expression(e)) => match lower_expr(e) {
                Some(q) => Some(p + q),
                None => None,
            },
            _ => None,
        }
    }
}

pub open spec fn elsifs_of(i: If) -> Seq<ElseIf> {
    match i.elsifs {
        Some(v) => v@,
        None => Seq::empty(),
    }
}

/// A conditional: the condition, then a branch whose `then` arm is the block;
/// the `else if` clauses nest, each in the `else` arm of the one before.
pub open spec fn lower_if(i: If) -> Option<Seq<Seq<char>>>
    decreases i, 1int,
{
    match (lower_expr(*i.condition), block_lines(i.block@, i.block.len() as int), lower_else(i, 0)) {
        (Some(c), Some(b), Some(e)) => Some(
            c + seq!["(if"@, "(then"@] + b + seq![")"@] + e + seq![")"@],
        ),
        _ => None,
    }
}

/// The `else` arm that follows clause `k` of a conditional's chain.
pub open spec fn lower_else(i: If, k: int) -> Option<Seq<Seq<char>>>
    decreases i, 0int, elsifs_of(i).len() - k,
{
    if 0 <= k < elsifs_of(i).len() {
        let c = elsifs_of(i)[k];
        match (lower_expr(*c.condition), block_lines(c.block@, c.block.len() as int), lower_else(i, k + 1)) {
            (Some(x), Some(b), Some(e)) => Some(
                seq!["(else"@] + x + seq!["(if"@, "(then"@] + b + seq![")"@] + e + seq![")"@, ")"@],
            ),
            _ => None,
        }
    } else {
        match i.els {
            Some(b) => match block_lines(b@, b.len() as int) {
                Some(p) => Some(seq!["(else"@] + p + seq![")"@]),
                None => None,
            },
            None => Some(Seq::empty()),
        }
    }
}

/// The parameters of the first `n` arguments, each one machine word.
pub open spec fn params_text(f: Function, n: int) -> Seq<char>
    decreases n,
{
    if n <= 0 || n > f.args.len() {
        Seq::empty()
    } else {
        params_text(f, n - 1) + " (param $"@ + f.args@[n - 1].name@ + " i32)"@
    }
}

/// The first line of a function: its name, the entry-point export for `main`,
/// its parameters and, unless it returns nothing, its result.
pub open spec fn fn_header(f: Function) -> Seq<char> {
    "(func $"@ + f.name@ + (if f.name@ == "main"@ {
        " (export \"_start\")"@
    } else {
        Seq::empty()
    }) + params_text(f, f.args.len() as int) + (if f.ret_tp.name@ != "()"@ {
        " (result i32)"@
    } else {
        Seq::empty()
    }) + "\n"@
}

pub open spec fn lower_fn(f: Function) -> Option<Seq<char>> {
    match block_lines(f.body@, f.body.len() as int) {
        Some(b) => Some(fn_header(f) + flatten(b) + ")\n"@),
        None => None,
    }
}

pub open spec fn trim_start(s: Seq<char>) -> Seq<char>
    decreases s.len(),
{
    if s.len() > 0 && is_space(s[0]) {
        trim_start(s.drop_first())
    } else {
        s
    }
}

pub open spec fn trim_end(s: Seq<char>) -> Seq<char>
    decreases s.len(),
{
    if s.len() > 0 && is_space(s.last()) {
        trim_end(s.drop_last())
    } else {
        s
    }
}

pub open spec fn trim(s: Seq<char>) -> Seq<char> {
    trim_end(trim_start(s))
}

/// The inside of a lowered module: its text trimmed and, when it is wrapped in
/// `(module` and a closing parenthesis, unwrapped and trimmed again; on lines
/// of its own.
pub open spec fn module_body(text: Seq<char>) -> Seq<char> {
    let t = trim(text);
    if t.len() >= 8 && t.subrange(0, 7) == "(module"@ && t.last() == ')' {
        trim(t.subrange(7, t.len() - 1)) + "\n"@
    } else {
        t + "\n"@
    }
}

/// The index of the first module imported under `path`, if any.
pub open spec fn find_module(m: Seq<ImportedModule>, path: Seq<char>) -> Option<int>
    decreases m.len(),
{
    if m.len() == 0 {
        None
    } else {
        match find_module(m.drop_last(), path) {
            Some(k) => Some(k),
            None => if m.last().path@ == path {
                Some(m.len() - 1)
            } else {
                None
            },
        }
    }
}

/// What one top-level item contributes to the module: a function its code, a
/// structure nothing, an import the inside of the imported module.
pub open spec fn lower_section(a: Ast, m: Seq<ImportedModule>) -> Option<Seq<char>> {
    match a {
        Ast::Statement(Statement::Function(f)) => lower_fn(f),
        Ast::Statement(Statement::Struct(_)) => Some(Seq::empty()),
        Ast::Statement(Statement::Import(im)) => match find_module(m, im.path@) {
            Some(k) => match m[k].read {
                Ok(t) => Some(module_body(t@)),
                Err(_) => None,
            },
            None => None,
        },
        _ => None,
    }
}

/// The first `n` items of a program, lowered and joined.
pub open spec fn lower_sections(s: Seq<Ast>, n: int, m: Seq<ImportedModule>) -> Option<Seq<char>>
    decreases n,
{
    if n <= 0 || n > s.len() {
        Some(Seq::empty())
    } else {
        match (lower_sections(s, n - 1, m), lower_section(s[n - 1], m)) {
            (Some(a), Some(b)) => Some(a + b),
            _ => None,
        }
    }
}

/// The module of a program, before its symbolic addresses are resolved.
pub open spec fn lower_program(s: Seq<Ast>, m: Seq<ImportedModule>) -> Option<Seq<char>> {
    match lower_sections(s, s.len() as int, m) {
        Some(b) => Some("(module\n"@ + b + ")"@),
        None => None,
    }
}

} // verus!
