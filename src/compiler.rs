use vstd::prelude::*;

use crate::ast::{Ast, Bop, Constant, Expression, Function, If, Import, Statement, TypeConstr, Value};
use crate::lexer::is_space_char;
use crate::lowering::{
    block_lines, bop_instr, const_line, construction_lines, element_stores, elsifs_of,
    field_stores, find_module, flatten, fn_header, lower_args, lower_else, lower_expr, lower_fn,
    lower_if, lower_program, lower_section, lower_sections, lower_value, module_body,
    params_text, store_line, string_slot, trim, trim_end, trim_start,
};
use crate::parser::ImportedModule;
use crate::relocation::{fill_in, law_relocated_unmarked, relocated, unmarked};
use crate::relocation::views_of;
use crate::text::{chars_of, push_chars, push_decimal, push_signed, push_str, string_of, text_is};

verus! {

/// A failure to lower a program.
#[derive(Debug)]
pub struct CompilerError {
    pub msg: String,
    pub line: u32,
}

fn gen_err(msg: &str) -> (r: CompilerError)
    ensures
        r.msg@ == msg@,
        r.line == 0,
{
    let mut out: Vec<char> = Vec::new();
    push_str(&mut out, msg);
    CompilerError { msg: string_of(&out), line: 0 }
}

/// Appends the line `s`.
fn push_line(p: &mut Vec<Vec<char>>, s: &str)
    ensures
        views_of(final(p)@) == views_of(old(p)@).push(s@),
{
    let mut l: Vec<char> = Vec::new();
    push_str(&mut l, s);
    p.push(l);
    assert(views_of(p@) =~= views_of(old(p)@).push(s@));
}

/// Appends the lines of `q`.
fn append_lines(p: &mut Vec<Vec<char>>, q: Vec<Vec<char>>)
    ensures
        views_of(final(p)@) == views_of(old(p)@) + views_of(q@),
{
    let mut q = q;
    let ghost qv = views_of(q@);
    p.append(&mut q);
    assert(views_of(p@) =~= views_of(old(p)@) + qv);
}

/// The text of the string slot `offset` bytes past the base address.
fn push_slot(out: &mut Vec<char>, offset: u128)
    ensures
        final(out)@ == old(out)@ + string_slot(offset as nat),
{
    if offset == 0 {
        push_str(out, "~type-String~");
    } else {
        push_str(out, "~type-String+");
        push_decimal(out, offset);
        push_str(out, "~");
        assert(out@ =~= old(out)@ + string_slot(offset as nat));
    }
}

/// A store of a number at the string slot `offset` bytes on.
fn store(offset: u128, v: &Vec<char>) -> (r: Vec<char>)
    ensures
        r@ == store_line(offset as nat, v@),
{
    let mut out: Vec<char> = Vec::new();
    push_str(&mut out, "(i32.store (i32.const ");
    push_slot(&mut out, offset);
    push_str(&mut out, ") (i32.const ");
    push_chars(&mut out, v);
    push_str(&mut out, "))");
    assert(out@ =~= store_line(offset as nat, v@));
    out
}

/// The stores of the elements of an array.
fn compile_elements(a: &Vec<Value>) -> (r: Result<Vec<Vec<char>>, CompilerError>)
    ensures
        match element_stores(a@, a.len() as int) {
            Some(p) => r matches Ok(q) && views_of(q@) == p,
            None => r matches Err(e) && e.msg@ == "only numbers can be stored in an array"@,
        },
{
    let mut out: Vec<Vec<char>> = Vec::new();
    let mut i: usize = 0;
    assert(views_of(out@) =~= element_stores(a@, 0)->0);
    while i < a.len()
        invariant
            i <= a.len(),
            element_stores(a@, i as int) is Some,
            views_of(out@) == element_stores(a@, i as int)->0,
        decreases a.len() - i,
    {
        match &a[i] {
            Value::I32(x) => {
                let mut v: Vec<char> = Vec::new();
                push_signed(&mut v, *x as i64);
                let line = store(4 * (i as u128 + 1), &v);
                let ghost before = views_of(out@);
                out.push(line);
                assert(views_of(out@) =~= before.push(line@));
            },
            _ => {
                proof {
                    lemma_element_stores_none(a@, i as int + 1, a.len() as int);
                }
                return Err(gen_err("only numbers can be stored in an array"));
            },
        }
        i = i + 1;
    }
    Ok(out)
}

proof fn lemma_element_stores_none(a: Seq<Value>, k: int, n: int)
    requires
        1 <= k <= n <= a.len(),
        element_stores(a, k) is None,
    ensures
        element_stores(a, n) is None,
    decreases n - k,
{
    if k < n {
        lemma_element_stores_none(a, k, n - 1);
    }
}

proof fn lemma_field_stores_none(f: Seq<(String, Constant)>, k: int, n: int)
    requires
        1 <= k <= n <= f.len(),
        field_stores(f, k) is None,
    ensures
        field_stores(f, n) is None,
    decreases n - k,
{
    if k < n {
        lemma_field_stores_none(f, k, n - 1);
    }
}

/// The lines of a construction: its stores, then its base address.
pub fn compile_type_construction(c: &TypeConstr) -> (r: Result<Vec<Vec<char>>, CompilerError>)
    ensures
        match construction_lines(*c) {
            Some(p) => r matches Ok(q) && views_of(q@) == p,
            None => r is Err,
        },
        c.name@ != "String"@ ==> (r matches Err(e) && e.msg@ == "unsupported construction"@),
        r matches Err(e) ==> (e.msg@ == "unsupported construction"@ || e.msg@
            == "only arrays can be stored in a construction"@ || e.msg@
            == "only numbers can be stored in an array"@),
{
    let name = chars_of(c.name.as_str());
    if !text_is(&name, "String") {
        return Err(gen_err("unsupported construction"));
    }
    let mut out: Vec<Vec<char>> = Vec::new();
    let mut i: usize = 0;
    assert(views_of(out@) =~= field_stores(c.values@, 0)->0);
    while i < c.values.len()
        invariant
            i <= c.values.len(),
            c.name@ == "String"@,
            field_stores(c.values@, i as int) is Some,
            views_of(out@) == field_stores(c.values@, i as int)->0,
        decreases c.values.len() - i,
    {
        match &c.values[i].1 {
            Constant::Arr(a) => {
                let mut n: Vec<char> = Vec::new();
                push_decimal(&mut n, a.len() as u128);
                let len_line = store(0, &n);
                let ghost before = views_of(out@);
                out.push(len_line);
                match compile_elements(a) {
                    Ok(e) => {
                        append_lines(&mut out, e);
                        assert(views_of(out@) =~= before.push(store_line(0, n@)) + views_of(e@));
                    },
                    Err(err) => {
                        proof {
                            lemma_field_stores_none(c.values@, i as int + 1, c.values.len() as int);
                        }
                        return Err(err);
                    },
                }
            },
            _ => {
                proof {
                    lemma_field_stores_none(c.values@, i as int + 1, c.values.len() as int);
                }
                return Err(gen_err("only arrays can be stored in a construction"));
            },
        }
        i = i + 1;
    }
    let mut last: Vec<char> = Vec::new();
    push_str(&mut last, "(i32.const ");
    push_slot(&mut last, 0);
    push_str(&mut last, ")");
    let ghost before = views_of(out@);
    out.push(last);
    assert(views_of(out@) =~= before.push("(i32.const "@ + string_slot(0) + ")"@));
    Ok(out)
}

proof fn lemma_block_lines_none(s: Seq<Ast>, k: int, n: int)
    requires
        1 <= k <= n <= s.len(),
        block_lines(s, k) is None,
    ensures
        block_lines(s, n) is None,
    decreases n - k,
{
    if k < n {
        lemma_block_lines_none(s, k, n - 1);
    }
}

proof fn lemma_lower_args_none(s: Seq<Expression>, k: int, n: int)
    requires
        1 <= k <= n <= s.len(),
        lower_args(s, k) is None,
    ensures
        lower_args(s, n) is None,
    decreases n - k,
{
    if k < n {
        lemma_lower_args_none(s, k, n - 1);
    }
}

/// The lines of an expression.
pub fn compile_expr(e: &Expression) -> (r: Result<Vec<Vec<char>>, CompilerError>)
    ensures
        match lower_expr(*e) {
            Some(p) => r matches Ok(q) && views_of(q@) == p,
            None => r is Err,
        },
        *e is UnaryOperation ==> (r matches Err(x) && x.msg@ == "unary operations are not yet supported"@),
    decreases e, 0int,
{
    match e {
        Expression::Value(v) => compile_val(v),
        Expression::BinaryOperation(l, op, r) => {
            let a = compile_expr(l)?;
            let b = compile_expr(r)?;
            compile_binary_op(a, *op, b)
        },
        Expression::UnaryOperation(_, _) => Err(gen_err("unary operations are not yet supported")),
        Expression::If(i) => compile_if(i),
    }
}

/// The lines of both operands, then the operator's instruction.
pub fn compile_binary_op(lhs: Vec<Vec<char>>, op: Bop, rhs: Vec<Vec<char>>) -> (r: Result<
    Vec<Vec<char>>,
    CompilerError,
>)
    ensures
        match bop_instr(op) {
            Some(i) => r matches Ok(q) && views_of(q@) == views_of(lhs@) + views_of(rhs@) + seq![i],
            None => r matches Err(e) && e.msg@ == "operator not yet supported"@,
        },
{
    let mut out = lhs;
    append_lines(&mut out, rhs);
    match op {
        Bop::Eq => push_line(&mut out, "(i32.eq)"),
        Bop::Gt => push_line(&mut out, "(i32.gt_u)"),
        _ => {
            return Err(gen_err("operator not yet supported"));
        },
    }
    Ok(out)
}

/// The lines of a value.
pub fn compile_val(v: &Value) -> (r: Result<Vec<Vec<char>>, CompilerError>)
    ensures
        match lower_value(*v) {
            Some(p) => r matches Ok(q) && views_of(q@) == p,
            None => r is Err,
        },
        *v is F32 ==> (r matches Err(e) && e.msg@ == "fractional numbers are not yet supported"@),
    decreases v, 0int,
{
    let mut out: Vec<Vec<char>> = Vec::new();
    match v {
        Value::I32(x) => {
            let mut l: Vec<char> = Vec::new();
            push_str(&mut l, "(i32.const ");
            push_signed(&mut l, *x as i64);
            push_str(&mut l, ")");
            assert(l@ =~= const_line(*x));
            out.push(l);
            assert(views_of(out@) =~= seq![const_line(*x)]);
            Ok(out)
        },
        Value::F32(_) => Err(gen_err("fractional numbers are not yet supported")),
        Value::Var(n) => {
            let mut l: Vec<char> = Vec::new();
            push_str(&mut l, "(local.get $");
            push_str(&mut l, n.as_str());
            push_str(&mut l, ")");
            out.push(l);
            assert(views_of(out@) =~= seq!["(local.get $"@ + n@ + ")"@]);
            Ok(out)
        },
        Value::TypeConstr(c) => compile_type_construction(c),
        Value::FnCall(c) => {
            let (mut h, o) = compile_args(&c.args)?;
            let mut l: Vec<char> = Vec::new();
            push_str(&mut l, "(call $");
            push_str(&mut l, c.name.as_str());
            push_str(&mut l, " ");
            push_chars(&mut l, &o);
            push_str(&mut l, ")");
            let ghost before = views_of(h@);
            h.push(l);
            assert(views_of(h@) =~= before.push("(call $"@ + c.name@ + " "@ + o@ + ")"@));
            Ok(h)
        },
    }
}

/// The arguments of a call, in order: the lines each needs first, and the
/// operands, each an argument's last line.
pub fn compile_args(args: &Vec<Expression>) -> (r: Result<(Vec<Vec<char>>, Vec<char>), CompilerError>)
    ensures
        match lower_args(args@, args.len() as int) {
            Some((h, o)) => r matches Ok((x, y)) && views_of(x@) == h && y@ == o,
            None => r is Err,
        },
    decreases args, 0int,
{
    let mut hoisted: Vec<Vec<char>> = Vec::new();
    let mut operands: Vec<char> = Vec::new();
    let mut i: usize = 0;
    assert(views_of(hoisted@) =~= Seq::<Seq<char>>::empty());
    while i < args.len()
        invariant
            i <= args.len(),
            lower_args(args@, i as int) matches Some((h, o)) && views_of(hoisted@) == h
                && operands@ == o,
        decreases args.len() - i,
    {
        let mut p = match compile_expr(&args[i]) {
            Ok(p) => p,
            Err(e) => {
                proof {
                    lemma_lower_args_none(args@, i as int + 1, args.len() as int);
                }
                return Err(e);
            },
        };
        if p.len() == 0 {
            proof {
                lemma_lower_args_none(args@, i as int + 1, args.len() as int);
            }
            return Err(gen_err("an argument lowers to nothing"));
        }
        let ghost pv = views_of(p@);
        let last = p.pop().unwrap();
        assert(views_of(p@) =~= pv.drop_last());
        push_chars(&mut operands, &last);
        append_lines(&mut hoisted, p);
        i = i + 1;
    }
    Ok((hoisted, operands))
}

/// The lines of the expressions of a block, in order.
pub fn compile_block(block: &Vec<Ast>) -> (r: Result<Vec<Vec<char>>, CompilerError>)
    ensures
        match block_lines(block@, block.len() as int) {
            Some(p) => r matches Ok(q) && views_of(q@) == p,
            None => r is Err,
        },
    decreases block, 0int,
{
    let mut out: Vec<Vec<char>> = Vec::new();
    let mut i: usize = 0;
    assert(views_of(out@) =~= Seq::<Seq<char>>::empty());
    while i < block.len()
        invariant
            i <= block.len(),
            block_lines(block@, i as int) matches Some(p) && views_of(out@) == p,
        decreases block.len() - i,
    {
        match &block[i] {
            Ast::Expression(e) => match compile_expr(e) {
                Ok(q) => {
                    append_lines(&mut out, q);
                },
                Err(err) => {
                    proof {
                        lemma_block_lines_none(block@, i as int + 1, block.len() as int);
                    }
                    return Err(err);
                },
            },
            Ast::Statement(_) => {
                proof {
                    lemma_block_lines_none(block@, i as int + 1, block.len() as int);
                }
                return Err(gen_err("statements inside a function are not yet supported"));
            },
        }
        i = i + 1;
    }
    Ok(out)
}

/// A conditional: the condition, then a branch with the block in its `then`
/// arm and the rest of the chain in its `else` arm.
pub fn compile_if(i: &If) -> (r: Result<Vec<Vec<char>>, CompilerError>)
    ensures
        match lower_if(*i) {
            Some(p) => r matches Ok(q) && views_of(q@) == p,
            None => r is Err,
        },
    decreases i, 1int,
{
    let mut out = compile_expr(&i.condition)?;
    let b = compile_block(&i.block)?;
    let e = compile_else(i, 0)?;
    push_line(&mut out, "(if");
    push_line(&mut out, "(then");
    append_lines(&mut out, b);
    push_line(&mut out, ")");
    append_lines(&mut out, e);
    push_line(&mut out, ")");
    Ok(out)
}

/// The `else` arm that follows clause `k` of a conditional's chain.
pub fn compile_else(i: &If, k: usize) -> (r: Result<Vec<Vec<char>>, CompilerError>)
    ensures
        match lower_else(*i, k as int) {
            Some(p) => r matches Ok(q) && views_of(q@) == p,
            None => r is Err,
        },
    decreases i, 0int, elsifs_of(*i).len() - k,
{
    let n: usize = match &i.elsifs {
        Some(v) => v.len(),
        None => 0,
    };
    if k < n {
        match &i.elsifs {
            Some(v) => {
                let c = &v[k];
                let x = compile_expr(&c.condition)?;
                let b = compile_block(&c.block)?;
                let e = compile_else(i, k + 1)?;
                let mut out: Vec<Vec<char>> = Vec::new();
                push_line(&mut out, "(else");
                append_lines(&mut out, x);
                push_line(&mut out, "(if");
                push_line(&mut out, "(then");
                append_lines(&mut out, b);
                push_line(&mut out, ")");
                append_lines(&mut out, e);
                push_line(&mut out, ")");
                push_line(&mut out, ")");
                Ok(out)
            },
            None => Err(gen_err("unreachable")),
        }
    } else {
        match &i.els {
            Some(b) => {
                let p = compile_block(b)?;
                let mut out: Vec<Vec<char>> = Vec::new();
                push_line(&mut out, "(else");
                append_lines(&mut out, p);
                push_line(&mut out, ")");
                Ok(out)
            },
            None => {
                let out: Vec<Vec<char>> = Vec::new();
                assert(views_of(out@) =~= Seq::<Seq<char>>::empty());
                Ok(out)
            },
        }
    }
}

/// Appends the lines, each followed by a line break.
fn push_flat(out: &mut Vec<char>, p: &Vec<Vec<char>>)
    ensures
        final(out)@ == old(out)@ + flatten(views_of(p@)),
{
    let mut i: usize = 0;
    assert(views_of(p@).subrange(0, 0) =~= Seq::<Seq<char>>::empty());
    while i < p.len()
        invariant
            i <= p.len(),
            out@ == old(out)@ + flatten(views_of(p@).subrange(0, i as int)),
        decreases p.len() - i,
    {
        let ghost pre = views_of(p@).subrange(0, i + 1);
        assert(pre.drop_last() =~= views_of(p@).subrange(0, i as int));
        push_chars(out, &p[i]);
        push_str(out, "\n");
        assert(out@ =~= old(out)@ + flatten(pre));
        i = i + 1;
    }
    assert(views_of(p@).subrange(0, i as int) =~= views_of(p@));
}

/// The code of a function: its header line, its body, and the closing
/// parenthesis.
pub fn compile_fn_def(f: &Function) -> (r: Result<Vec<char>, CompilerError>)
    ensures
        match lower_fn(*f) {
            Some(t) => r matches Ok(q) && q@ == t,
            None => r is Err,
        },
{
    let body = compile_block(&f.body)?;
    let mut out: Vec<char> = Vec::new();
    push_str(&mut out, "(func $");
    push_str(&mut out, f.name.as_str());
    let name = chars_of(f.name.as_str());
    if text_is(&name, "main") {
        push_str(&mut out, " (export \"_start\")");
    }
    let ghost h2 = out@;
    let mut i: usize = 0;
    while i < f.args.len()
        invariant
            i <= f.args.len(),
            out@ == h2 + params_text(*f, i as int),
        decreases f.args.len() - i,
    {
        push_str(&mut out, " (param $");
        push_str(&mut out, f.args[i].name.as_str());
        push_str(&mut out, " i32)");
        assert(out@ =~= h2 + params_text(*f, i + 1));
        i = i + 1;
    }
    let ret = chars_of(f.ret_tp.name.as_str());
    if !text_is(&ret, "()") {
        push_str(&mut out, " (result i32)");
    }
    push_str(&mut out, "\n");
    assert(out@ =~= fn_header(*f));
    push_flat(&mut out, &body);
    push_str(&mut out, ")\n");
    assert(out@ =~= lower_fn(*f)->0);
    Ok(out)
}

/// The characters of `s` from `from` up to `to`.
fn slice(s: &Vec<char>, from: usize, to: usize) -> (r: Vec<char>)
    requires
        from <= to <= s.len(),
    ensures
        r@ == s@.subrange(from as int, to as int),
{
    let mut r: Vec<char> = Vec::new();
    let mut i: usize = from;
    while i < to
        invariant
            from <= i <= to <= s.len(),
            r@ == s@.subrange(from as int, i as int),
        decreases to - i,
    {
        r.push(s[i]);
        i = i + 1;
        assert(r@ =~= s@.subrange(from as int, i as int));
    }
    r
}

/// `s` without white space at either end.
pub fn trimmed(s: &Vec<char>) -> (r: Vec<char>)
    ensures
        r@ == trim(s@),
{
    let mut i: usize = 0;
    assert(s@.subrange(0, s.len() as int) =~= s@);
    while i < s.len() && is_space_char(s[i])
        invariant
            i <= s.len(),
            trim_start(s@) == trim_start(s@.subrange(i as int, s.len() as int)),
        decreases s.len() - i,
    {
        assert(s@.subrange(i as int, s.len() as int).drop_first() =~= s@.subrange(i + 1, s.len() as int));
        i = i + 1;
    }
    let ghost t = s@.subrange(i as int, s.len() as int);
    assert(trim_start(s@) == t);
    let mut j: usize = s.len();
    assert(t.subrange(0, t.len() as int) =~= t);
    while j > i && is_space_char(s[j - 1])
        invariant
            i <= j <= s.len(),
            t == s@.subrange(i as int, s.len() as int),
            trim_end(t) == trim_end(s@.subrange(i as int, j as int)),
        decreases j,
    {
        assert(s@.subrange(i as int, j as int).drop_last() =~= s@.subrange(i as int, j - 1));
        j = j - 1;
    }
    slice(s, i, j)
}

/// Whether `t` starts with the characters of `lit`.
fn starts_with(t: &Vec<char>, lit: &str) -> (r: bool)
    ensures
        r == (t.len() >= lit@.len() && t@.subrange(0, lit@.len() as int) == lit@),
{
    let l = chars_of(lit);
    if t.len() < l.len() {
        return false;
    }
    let head = slice(t, 0, l.len());
    text_is(&head, lit)
}

/// The inside of a lowered module, on lines of its own.
pub fn compile_module_body(text: &str) -> (r: Vec<char>)
    ensures
        r@ == module_body(text@),
{
    proof {
        reveal_strlit("(module");
    }
    let chars = chars_of(text);
    let mut t = trimmed(&chars);
    if t.len() >= 8 && starts_with(&t, "(module") && t[t.len() - 1] == ')' {
        let inner = slice(&t, 7, t.len() - 1);
        let mut out = trimmed(&inner);
        push_str(&mut out, "\n");
        out
    } else {
        push_str(&mut t, "\n");
        t
    }
}

pub proof fn lemma_find_module_prefix(m: Seq<ImportedModule>, k: int, path: Seq<char>)
    requires
        0 <= k <= m.len(),
        find_module(m.subrange(0, k), path) is Some,
    ensures
        find_module(m, path) == find_module(m.subrange(0, k), path),
    decreases m.len() - k,
{
    if k < m.len() {
        assert(m.subrange(0, k + 1).drop_last() =~= m.subrange(0, k));
        lemma_find_module_prefix(m, k + 1, path);
    } else {
        assert(m.subrange(0, k) =~= m);
    }
}

/// Lowers a program to one module, with symbolic addresses still in place.
pub struct Compiler {
    pub ast: Vec<Ast>,
    pub imports: Vec<ImportedModule>,
}

impl Compiler {
    pub fn new(ast: Vec<Ast>, imports: Vec<ImportedModule>) -> (r: Compiler)
        ensures
            r.ast == ast,
            r.imports == imports,
    {
        Compiler { ast, imports }
    }

    /// The inside of the module an import directive names.
    pub fn compile_import(&self, im: &Import) -> (r: Result<Vec<char>, CompilerError>)
        ensures
            match lower_section(Ast::Statement(Statement::Import(*im)), self.imports@) {
                Some(t) => r matches Ok(q) && q@ == t,
                None => r is Err,
            },
    {
        let mut k: usize = 0;
        assert(self.imports@.subrange(0, 0) =~= Seq::<ImportedModule>::empty());
        while k < self.imports.len()
            invariant
                k <= self.imports.len(),
                find_module(self.imports@.subrange(0, k as int), im.path@) is None,
            decreases self.imports.len() - k,
        {
            let ghost pre = self.imports@.subrange(0, k + 1);
            assert(pre.drop_last() =~= self.imports@.subrange(0, k as int));
            if self.imports[k].path == im.path {
                proof {
                    lemma_find_module_prefix(self.imports@, k + 1, im.path@);
                }
                return match &self.imports[k].read {
                    Ok(text) => Ok(compile_module_body(text.as_str())),
                    Err(e) => {
                        let mut m: Vec<char> = Vec::new();
                        push_str(&mut m, e.as_str());
                        Err(CompilerError { msg: string_of(&m), line: 0 })
                    },
                };
            }
            k = k + 1;
        }
        assert(self.imports@.subrange(0, k as int) =~= self.imports@);
        Err(gen_err("import not resolved"))
    }

    /// The module text of the whole program, before relocation.
    pub fn compile(&self) -> (r: Result<Vec<char>, CompilerError>)
        ensures
            match lower_program(self.ast@, self.imports@) {
                Some(t) => r matches Ok(q) && q@ == t,
                None => r is Err,
            },
    {
        let mut out: Vec<char> = Vec::new();
        push_str(&mut out, "(module\n");
        let ghost start = out@;
        let mut i: usize = 0;
        assert(out@ =~= start + lower_sections(self.ast@, 0, self.imports@)->0);
        while i < self.ast.len()
            invariant
                i <= self.ast.len(),
                lower_sections(self.ast@, i as int, self.imports@) is Some,
                out@ == start + lower_sections(self.ast@, i as int, self.imports@)->0,
            decreases self.ast.len() - i,
        {
            let piece: Result<Vec<char>, CompilerError> = match &self.ast[i] {
                Ast::Statement(Statement::Function(f)) => compile_fn_def(f),
                Ast::Statement(Statement::Struct(_)) => Ok(Vec::new()),
                Ast::Statement(Statement::Import(im)) => self.compile_import(im),
                Ast::Statement(_) => Err(gen_err("enumerations and bindings are not yet supported")),
                Ast::Expression(_) => Err(gen_err("expressions outside a function are not yet supported")),
            };
            match piece {
                Ok(q) => {
                    assert(lower_section(self.ast@[i as int], self.imports@) == Some(q@)) by {
                        if self.ast@[i as int] matches Ast::Statement(Statement::Struct(_)) {
                            assert(q@ =~= Seq::<char>::empty());
                        }
                    }
                    push_chars(&mut out, &q);
                    assert(out@ =~= start + lower_sections(self.ast@, i + 1, self.imports@)->0);
                },
                Err(e) => {
                    proof {
                        lemma_sections_none(self.ast@, i as int + 1, self.ast.len() as int, self.imports@);
                    }
                    return Err(e);
                },
            }
            i = i + 1;
        }
        push_str(&mut out, ")");
        assert(out@ =~= lower_program(self.ast@, self.imports@)->0);
        Ok(out)
    }
}

proof fn lemma_sections_none(s: Seq<Ast>, k: int, n: int, m: Seq<ImportedModule>)
    requires
        1 <= k <= n <= s.len(),
        lower_sections(s, k, m) is None,
    ensures
        lower_sections(s, n, m) is None,
    decreases n - k,
{
    if k < n {
        lemma_sections_none(s, k, n - 1, m);
    }
}

/// Lowers a parsed program to the final module text: every function becomes a
/// code section, `main` is exported as the entry point, imported modules are
/// inlined, and every symbolic address is resolved.
pub fn compile(ast: Vec<Ast>, imports: Vec<ImportedModule>) -> (r: Result<String, CompilerError>)
    ensures
        r matches Ok(s) ==> (lower_program(ast@, imports@) matches Some(t) && relocated(t) == Some(s@)),
        lower_program(ast@, imports@) is None ==> r is Err,
        (lower_program(ast@, imports@) matches Some(t) && relocated(t) is None) ==> r is Err,
        (lower_program(ast@, imports@) is Some && relocated(lower_program(ast@, imports@)->0) is Some)
            ==> (r matches Ok(x) && x@ == relocated(lower_program(ast@, imports@)->0)->0),
        r matches Ok(x) ==> unmarked(x@),
{
    let compiler = Compiler::new(ast, imports);
    let text = compiler.compile()?;
    proof {
        law_relocated_unmarked(text@);
    }
    fill_in(string_of(&text))
}

/// `amount` levels of indentation, four spaces each; none when `amount` is
/// not positive.
pub fn indent(amount: i32) -> (r: String)
    ensures
        r@.len() == if amount > 0 { 4 * amount } else { 0 },
        forall|i: int| 0 <= i < r@.len() ==> r@[i] == ' ',
{
    let mut out: Vec<char> = Vec::new();
    let mut k: i32 = 0;
    while k < amount
        invariant
            0 <= k,
            amount > 0 ==> k <= amount,
            amount <= 0 ==> k == 0,
            out@.len() == 4 * k,
            forall|i: int| 0 <= i < out@.len() ==> out@[i] == ' ',
        decreases amount - k,
    {
        out.push(' ');
        out.push(' ');
        out.push(' ');
        out.push(' ');
        k = k + 1;
    }
    string_of(&out)
}

} // verus!
