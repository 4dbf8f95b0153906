use vstd::prelude::*;

use crate::ast::{Arg, Ast, Bop, Constant, ElseIf, Expression, Statement, Value};
use crate::lowering::find_module;
use crate::parser::{skip_newlines, ImportedModule, Export};
use crate::scopes::{visible, Frames};
use crate::token::{is_operator_token, token_text, Number, Token};
use crate::ast::bop_of;

verus! {

// The grammar of the language, stated as a parser over a sequence of tokens:
// each rule takes a parse state and gives what it parsed and the state after
// it, or an error message with its line.

/// The state of a parse: the current token's position, the line, the declared
/// functions and types, and the stack of scopes.
pub struct PState {
    pub pos: int,
    pub line: int,
    pub funcs: Seq<Seq<char>>,
    pub types: Seq<Seq<char>>,
    pub scopes: Frames,
}

/// What a rule gives: a result and the state after it, or a message and a line.
pub type Parsed<X> = Result<(X, PState), (Seq<char>, int)>;

/// The value of a syntax tree, with texts as character sequences.
pub enum AstV {
    Fun(Seq<char>, Seq<(Seq<char>, Seq<char>)>, Seq<char>, Seq<AstV>),
    Struct(Seq<char>, Seq<(Seq<char>, Seq<char>)>),
    Import(Seq<char>),
    Expr(ExprV),
    Other,
}

pub enum ExprV {
    Val(ValV),
    Bin(Box<ExprV>, Bop, Box<ExprV>),
    Un(Box<ExprV>),
    If(Box<ExprV>, Seq<AstV>, Option<Seq<(ExprV, Seq<AstV>)>>, Option<Seq<AstV>>),
}

pub enum ValV {
    F32(Seq<char>),
    I32(i32),
    Constr(Seq<char>, Seq<(Seq<char>, ConstV)>),
    Var(Seq<char>),
    Call(Seq<char>, Seq<ExprV>),
}

pub enum ConstV {
    Val(ValV),
    Arr(Seq<ValV>),
}

pub open spec fn view_args(a: Seq<Arg>) -> Seq<(Seq<char>, Seq<char>)> {
    Seq::new(a.len(), |i: int| (a[i].name@, a[i].tp.name@))
}

pub open spec fn view_ast(a: Ast) -> AstV
    decreases a,
{
    match a {
        Ast::Statement(Statement::Function(f)) => AstV::Fun(
            f.name@,
            view_args(f.args@),
            f.ret_tp.name@,
            Seq::new(f.body.len() as nat, |i: int| if 0 <= i < f.body.len() { view_ast(f.body@[i]) } else { AstV::Other }),
        ),
        Ast::Statement(Statement::Struct(d)) => AstV::Struct(d.name@, view_args(d.fields@)),
        Ast::Statement(Statement::Import(im)) => AstV::Import(im.path@),
        Ast::Expression(e) => AstV::Expr(view_expr(e)),
        _ => AstV::Other,
    }
}

pub open spec fn view_expr(e: Expression) -> ExprV
    decreases e,
{
    match e {
        Expression::Value(v) => ExprV::Val(view_value(v)),
        Expression::BinaryOperation(l, op, r) => ExprV::Bin(Box::new(view_expr(*l)), op, Box::new(view_expr(*r))),
        Expression::UnaryOperation(_, x) => ExprV::Un(Box::new(view_expr(*x))),
        Expression::If(i) => ExprV::If(
            Box::new(view_expr(*i.condition)),
            Seq::new(i.block.len() as nat, |k: int| if 0 <= k < i.block.len() { view_ast(i.block@[k]) } else { AstV::Other }),
            match i.elsifs {
                Some(v) => Some(Seq::new(v.len() as nat, |k: int| if 0 <= k < v.len() {
                    (view_expr(*v@[k].condition), Seq::new(v@[k].block.len() as nat, |j: int| if 0 <= j < v@[k].block.len() { view_ast(v@[k].block@[j]) } else { AstV::Other }))
                } else {
                    (ExprV::Un(Box::new(ExprV::Val(ValV::I32(0)))), Seq::empty())
                })),
                None => None,
            },
            match i.els {
                Some(b) => Some(Seq::new(b.len() as nat, |k: int| if 0 <= k < b.len() { view_ast(b@[k]) } else { AstV::Other })),
                None => None,
            },
        ),
    }
}

pub open spec fn view_value(v: Value) -> ValV
    decreases v,
{
    match v {
        Value::F32(t) => ValV::F32(t@),
        Value::I32(x) => ValV::I32(x),
        Value::TypeConstr(c) => ValV::Constr(
            c.name@,
            Seq::new(c.values.len() as nat, |k: int| if 0 <= k < c.values.len() {
                (c.values@[k].0@, match c.values@[k].1 {
                    Constant::Value(x) => ConstV::Val(view_value(x)),
                    Constant::Arr(a) => ConstV::Arr(Seq::new(a.len() as nat, |j: int| if 0 <= j < a.len() { view_value(a@[j]) } else { ValV::I32(0) })),
                })
            } else {
                (Seq::empty(), ConstV::Arr(Seq::empty()))
            }),
        ),
        Value::Var(n) => ValV::Var(n@),
        Value::FnCall(c) => ValV::Call(
            c.name@,
            Seq::new(c.args.len() as nat, |k: int| if 0 <= k < c.args.len() { view_expr(c.args@[k]) } else { ExprV::Val(ValV::I32(0)) }),
        ),
    }
}

pub open spec fn view_block(b: Seq<Ast>) -> Seq<AstV> {
    Seq::new(b.len(), |k: int| view_ast(b[k]))
}

pub open spec fn view_exprs(b: Seq<Expression>) -> Seq<ExprV> {
    Seq::new(b.len(), |k: int| view_expr(b[k]))
}

pub open spec fn view_elsifs(b: Seq<ElseIf>) -> Seq<(ExprV, Seq<AstV>)> {
    Seq::new(b.len(), |k: int| (view_expr(*b[k].condition), view_block(b[k].block@)))
}

/// The string literal `s` as a value: a `String` construction of its code points.
pub open spec fn string_value(s: Seq<char>) -> ValV {
    ValV::Constr(
        "String"@,
        seq![("String"@, ConstV::Arr(Seq::new(s.len(), |i: int| ValV::I32(s[i] as u32 as i32))))],
    )
}

pub open spec fn tok(t: Seq<Token>, s: PState) -> Token {
    t[s.pos]
}

pub open spec fn peek(t: Seq<Token>, s: PState) -> Token {
    t[skip_newlines(t, s.pos + 1)]
}

/// Moving to the next token, line breaks passed and counted up to the largest
/// `u32`; staying on `Eof`.
pub open spec fn adv(t: Seq<Token>, s: PState) -> PState {
    if tok(t, s) is Eof {
        s
    } else {
        let j = skip_newlines(t, s.pos + 1);
        let l = s.line + (j - s.pos - 1);
        PState { pos: j, line: if l > u32::MAX { u32::MAX as int } else { l }, ..s }
    }
}

pub open spec fn fail<X>(s: PState, msg: Seq<char>) -> Parsed<X> {
    Err((msg, s.line))
}

/// An error that names the token found where another was expected.
pub open spec fn fail_found<X>(t: Seq<Token>, s: PState, msg: Seq<char>) -> Parsed<X> {
    Err((msg + ", found "@ + token_text(tok(t, s)), s.line))
}

/// A state is within the tokens.
pub open spec fn inside(t: Seq<Token>, s: PState) -> bool {
    0 <= s.pos < t.len()
}

/// `s2` lies further on than `s`, within the tokens.
pub open spec fn ahead(t: Seq<Token>, s: PState, s2: PState) -> bool {
    s.pos < s2.pos < t.len()
}

/// The error a rule gives on a state it cannot stand on; no parse reaches one.
pub open spec fn astray<X>() -> Parsed<X> {
    Err((Seq::empty(), -1))
}

/// The value of the current token: a variable in scope, a call of a declared
/// function followed by `(`, a number, a string, or a truth value.
pub open spec fn g_value(t: Seq<Token>, m: Seq<ImportedModule>, s: PState) -> Parsed<ValV>
    decreases t.len() - s.pos, 2int,
{
    if !inside(t, s) {
        astray()
    } else {
        match tok(t, s) {
            Token::Ident(i) => if visible(s.scopes, i@) {
                Ok((ValV::Var(i@), adv(t, s)))
            } else if s.funcs.contains(i@) && peek(t, s) is LPeren {
                g_call(t, m, s)
            } else {
                fail(s, "unknown identifier "@ + i@)
            },
            Token::Number(Number::I32(v)) => Ok((ValV::I32(v), adv(t, s))),
            Token::Number(Number::F32(f)) => Ok((ValV::F32(f@), adv(t, s))),
            Token::String(x) => Ok((string_value(x@), adv(t, s))),
            Token::True => Ok((ValV::I32(1), adv(t, s))),
            Token::False => Ok((ValV::I32(0), adv(t, s))),
            _ => fail(s, "expected a value, found "@ + token_text(tok(t, s))),
        }
    }
}

/// A call: the function's name and its parenthesized arguments.
pub open spec fn g_call(t: Seq<Token>, m: Seq<ImportedModule>, s: PState) -> Parsed<ValV>
    decreases t.len() - s.pos, 1int,
{
    if !inside(t, s) {
        astray()
    } else {
        match tok(t, s) {
            Token::Ident(n) => {
                let s1 = adv(t, s);
                if !ahead(t, s, s1) {
                    astray()
                } else {
                    match g_args(t, m, s1) {
                        Ok((a, s2)) => Ok((ValV::Call(n@, a), s2)),
                        Err(e) => Err(e),
                    }
                }
            },
            _ => fail_found(t, s, "expected a function name"@),
        }
    }
}

/// Parenthesized, comma-separated argument expressions.
pub open spec fn g_args(t: Seq<Token>, m: Seq<ImportedModule>, s: PState) -> Parsed<Seq<ExprV>>
    decreases t.len() - s.pos, 0int,
{
    if !inside(t, s) {
        astray()
    } else if !(tok(t, s) is LPeren) {
        fail_found(t, s, "expected opening parenthesis"@)
    } else {
        let s1 = adv(t, s);
        if !ahead(t, s, s1) {
            astray()
        } else if tok(t, s1) is RPeren {
            Ok((Seq::empty(), adv(t, s1)))
        } else {
            g_args_rest(t, m, s1)
        }
    }
}

/// Arguments from the current one to the closing parenthesis.
pub open spec fn g_args_rest(t: Seq<Token>, m: Seq<ImportedModule>, s: PState) -> Parsed<Seq<ExprV>>
    decreases t.len() - s.pos, 4int,
{
    if !inside(t, s) {
        astray()
    } else {
        match g_expr(t, m, s) {
            Err(e) => Err(e),
            Ok((e, s2)) => if !ahead(t, s, s2) {
                astray()
            } else if tok(t, s2) is Coma {
                if peek(t, s2) is RPeren {
                    fail(s2, "unexpected comma"@)
                } else {
                    let s3 = adv(t, s2);
                    if !ahead(t, s, s3) {
                        astray()
                    } else {
                        match g_args_rest(t, m, s3) {
                            Ok((rest, s4)) => Ok((seq![e] + rest, s4)),
                            Err(x) => Err(x),
                        }
                    }
                }
            } else if tok(t, s2) is RPeren {
                Ok((seq![e], adv(t, s2)))
            } else {
                fail_found(t, s2, "expected comma or closing parenthesis"@)
            },
        }
    }
}

/// A value, optionally followed by one binary operator and a second value.
pub open spec fn g_expr(t: Seq<Token>, m: Seq<ImportedModule>, s: PState) -> Parsed<ExprV>
    decreases t.len() - s.pos, 3int,
{
    if !inside(t, s) {
        astray()
    } else {
        match g_value(t, m, s) {
            Err(e) => Err(e),
            Ok((l, s1)) => if !is_operator_token(tok(t, s1)) {
                Ok((ExprV::Val(l), s1))
            } else {
                match bop_of(tok(t, s1)) {
                    None => fail_found(t, s1, "expected binary operator"@),
                    Some(op) => {
                        let s2 = adv(t, s1);
                        if !ahead(t, s, s2) {
                            astray()
                        } else {
                            match g_value(t, m, s2) {
                                Err(e) => Err(e),
                                Ok((r, s3)) => Ok((ExprV::Bin(Box::new(ExprV::Val(l)), op, Box::new(ExprV::Val(r))), s3)),
                            }
                        }
                    },
                }
            },
        }
    }
}

/// A declared type named after a colon.
pub open spec fn g_type(t: Seq<Token>, s: PState) -> Parsed<Seq<char>> {
    if !inside(t, s) {
        astray()
    } else if !(tok(t, s) is Colin) {
        fail_found(t, s, "expected a type"@)
    } else {
        let s1 = adv(t, s);
        match tok(t, s1) {
            Token::Ident(n) => if s1.types.contains(n@) {
                Ok((n@, adv(t, s1)))
            } else {
                fail(s1, "type not defined "@ + n@)
            },
            _ => fail_found(t, s1, "expected a type"@),
        }
    }
}

/// `s` with `n` declared in the innermost scope.
pub open spec fn declare(s: PState, n: Seq<char>) -> PState {
    PState { scopes: s.scopes.update(s.scopes.len() - 1, s.scopes.last().push(n)), ..s }
}

/// One parameter, `name: type`, then a comma not before `)`, or `)`; the name
/// is declared in the innermost scope.
pub open spec fn g_arg(t: Seq<Token>, s: PState) -> Parsed<(Seq<char>, Seq<char>)> {
    if !inside(t, s) {
        astray()
    } else {
        match tok(t, s) {
            Token::Ident(n) => match g_type(t, adv(t, s)) {
                Err(e) => Err(e),
                Ok((tp, s2)) => if tok(t, s2) is Coma {
                    if peek(t, s2) is RPeren {
                        fail(s2, "unexpected comma"@)
                    } else {
                        Ok(((n@, tp), declare(adv(t, s2), n@)))
                    }
                } else if !(tok(t, s2) is RPeren) {
                    fail_found(t, s2, "expected comma"@)
                } else {
                    Ok(((n@, tp), declare(s2, n@)))
                },
            },
            _ => fail_found(t, s, "expected a parameter name"@),
        }
    }
}

/// Parameters from the current token up to `)` or the end.
pub open spec fn g_arg_list(t: Seq<Token>, s: PState) -> Parsed<Seq<(Seq<char>, Seq<char>)>>
    decreases t.len() - s.pos,
{
    if !inside(t, s) {
        astray()
    } else if tok(t, s) is RPeren || tok(t, s) is Eof {
        Ok((Seq::empty(), s))
    } else {
        match g_arg(t, s) {
            Err(e) => Err(e),
            Ok((a, s2)) => if !ahead(t, s, s2) {
                astray()
            } else {
                match g_arg_list(t, s2) {
                    Ok((rest, s3)) => Ok((seq![a] + rest, s3)),
                    Err(e) => Err(e),
                }
            },
        }
    }
}

/// A parenthesized parameter list.
pub open spec fn g_params(t: Seq<Token>, s: PState) -> Parsed<Seq<(Seq<char>, Seq<char>)>> {
    if !inside(t, s) {
        astray()
    } else if !(tok(t, s) is LPeren) {
        fail_found(t, s, "expected opening parenthesis"@)
    } else {
        match g_arg_list(t, adv(t, s)) {
            Err(e) => Err(e),
            Ok((a, s2)) => if !(tok(t, s2) is RPeren) {
                fail_found(t, s2, "expected closing parenthesis"@)
            } else {
                Ok((a, adv(t, s2)))
            },
        }
    }
}

/// The names a module exports, from export `j` on, added to `funcs`; the
/// first export of another kind than a function is an error.
pub open spec fn g_exports(ex: Seq<Export>, j: int, funcs: Seq<Seq<char>>) -> Result<Seq<Seq<char>>, Seq<char>>
    decreases ex.len() - j,
{
    if j < 0 || j >= ex.len() {
        Ok(funcs)
    } else if ex[j].kind@ != "func"@ {
        Err("unexpected export kind "@ + ex[j].kind@)
    } else {
        g_exports(ex, j + 1, funcs.push(ex[j].name@))
    }
}

/// An import directive, `import "path";`.
pub open spec fn g_import(t: Seq<Token>, m: Seq<ImportedModule>, s: PState) -> Parsed<AstV> {
    if !inside(t, s) {
        astray()
    } else if !(tok(t, s) is Import) {
        fail_found(t, s, "expected import"@)
    } else {
        let s1 = adv(t, s);
        match tok(t, s1) {
            Token::String(p) => {
                let s2 = adv(t, s1);
                match find_module(m, p@) {
                    None => fail(s2, "import not resolved: "@ + p@),
                    Some(k) => match m[k].read {
                        Err(e) => fail(s2, e@),
                        Ok(_) => match g_exports(m[k].exports@, 0, s2.funcs) {
                            Err(e) => fail(s2, e),
                            Ok(f) => if !(tok(t, s2) is SemiColin) {
                                fail_found(t, s2, "missing semicolon"@)
                            } else {
                                Ok((AstV::Import(p@), adv(t, PState { funcs: f, ..s2 })))
                            },
                        },
                    },
                }
            },
            _ => fail_found(t, s1, "expected path"@),
        }
    }
}

/// The tokens of a structure's body, skipped up to its closing brace.
pub open spec fn g_skip(t: Seq<Token>, s: PState) -> Result<PState, (Seq<char>, int)>
    decreases t.len() - s.pos,
{
    if !inside(t, s) {
        Err((Seq::empty(), -1))
    } else if tok(t, s) is RBrace {
        Ok(s)
    } else if tok(t, s) is Eof {
        Err(("expected right brace"@ + ", found "@ + token_text(tok(t, s)), s.line))
    } else {
        let s1 = adv(t, s);
        if !ahead(t, s, s1) {
            Err((Seq::empty(), -1))
        } else {
            g_skip(t, s1)
        }
    }
}

/// A structure declaration: its name becomes a type; its body is skipped.
pub open spec fn g_struct(t: Seq<Token>, s: PState) -> Parsed<AstV> {
    if !inside(t, s) {
        astray()
    } else if !(tok(t, s) is Struct) {
        fail_found(t, s, "expected struct"@)
    } else {
        let s1 = adv(t, s);
        match tok(t, s1) {
            Token::Ident(n) => match g_skip(t, adv(t, s1)) {
                Err(e) => Err(e),
                Ok(s3) => {
                    let s4 = adv(t, s3);
                    Ok((AstV::Struct(n@, Seq::empty()), PState { types: s4.types.push(n@), ..s4 }))
                },
            },
            _ => fail_found(t, s1, "expected a structure name"@),
        }
    }
}

/// One item of a program or block, chosen by its first token.
pub open spec fn g_section(t: Seq<Token>, m: Seq<ImportedModule>, s: PState) -> Parsed<AstV>
    decreases t.len() - s.pos, 9int,
{
    if !inside(t, s) {
        astray()
    } else {
        match tok(t, s) {
            Token::Fn => g_fn(t, m, s),
            Token::Ident(_) => match g_expr(t, m, s) {
                Ok((e, s2)) => Ok((AstV::Expr(e), s2)),
                Err(e) => Err(e),
            },
            Token::If => match g_if(t, m, s) {
                Ok((e, s2)) => Ok((AstV::Expr(e), s2)),
                Err(e) => Err(e),
            },
            Token::Struct => g_struct(t, s),
            Token::Import => g_import(t, m, s),
            _ => fail(s, "unexpected token "@ + token_text(tok(t, s))),
        }
    }
}

/// Items up to a closing brace or the end.
pub open spec fn g_items(t: Seq<Token>, m: Seq<ImportedModule>, s: PState) -> Parsed<Seq<AstV>>
    decreases t.len() - s.pos, 10int,
{
    if !inside(t, s) {
        astray()
    } else if tok(t, s) is RBrace || tok(t, s) is Eof {
        Ok((Seq::empty(), s))
    } else {
        match g_section(t, m, s) {
            Err(e) => Err(e),
            Ok((a, s2)) => if !ahead(t, s, s2) {
                astray()
            } else {
                match g_items(t, m, s2) {
                    Ok((rest, s3)) => Ok((seq![a] + rest, s3)),
                    Err(e) => Err(e),
                }
            },
        }
    }
}

/// A brace-delimited block, parsed in a scope of its own.
pub open spec fn g_block(t: Seq<Token>, m: Seq<ImportedModule>, s: PState) -> Parsed<Seq<AstV>>
    decreases t.len() - s.pos, 8int,
{
    if !inside(t, s) {
        astray()
    } else if !(tok(t, s) is LBrace) {
        fail_found(t, s, "expected a block"@)
    } else {
        let s1 = adv(t, s);
        if !ahead(t, s, s1) {
            astray()
        } else {
            match g_items(t, m, PState { scopes: s1.scopes.push(Seq::empty()), ..s1 }) {
                Err(e) => Err(e),
                Ok((v, s2)) => if !(tok(t, s2) is RBrace) {
                    fail_found(t, s2, "expected right brace"@)
                } else {
                    let s3 = adv(t, s2);
                    Ok((v, PState { scopes: s3.scopes.drop_last(), ..s3 }))
                },
            }
        }
    }
}

/// A function definition; its name enters the function table once its body
/// is parsed.
pub open spec fn g_fn(t: Seq<Token>, m: Seq<ImportedModule>, s: PState) -> Parsed<AstV>
    decreases t.len() - s.pos, 8int,
{
    if !inside(t, s) {
        astray()
    } else if !(tok(t, s) is Fn) {
        fail_found(t, s, "expected fn"@)
    } else {
        let s1 = adv(t, s);
        match tok(t, s1) {
            Token::Ident(n) => {
                let s2 = adv(t, s1);
                match g_params(t, PState { scopes: s2.scopes.push(Seq::empty()), ..s2 }) {
                    Err(e) => Err(e),
                    Ok((args, s3)) => {
                        let rt: Parsed<Seq<char>> = if tok(t, s3) is Colin {
                            g_type(t, s3)
                        } else {
                            Ok(("()"@, s3))
                        };
                        match rt {
                            Err(e) => Err(e),
                            Ok((r, s4)) => if !ahead(t, s, s4) {
                                astray()
                            } else {
                                match g_block(t, m, s4) {
                                    Err(e) => Err(e),
                                    Ok((body, s5)) => Ok((
                                        AstV::Fun(n@, args, r, body),
                                        PState { scopes: s5.scopes.drop_last(), funcs: s5.funcs.push(n@), ..s5 },
                                    )),
                                }
                            },
                        }
                    },
                }
            },
            _ => fail_found(t, s1, "expected a function name"@),
        }
    }
}

/// `else if` clauses from the current token on.
pub open spec fn g_elsifs(t: Seq<Token>, m: Seq<ImportedModule>, s: PState) -> Parsed<Seq<(ExprV, Seq<AstV>)>>
    decreases t.len() - s.pos, 7int,
{
    if !inside(t, s) {
        astray()
    } else if !(tok(t, s) is Else && peek(t, s) is If) {
        Ok((Seq::empty(), s))
    } else {
        let s1 = adv(t, adv(t, s));
        if !ahead(t, s, s1) {
            astray()
        } else {
            match g_expr(t, m, s1) {
                Err(e) => Err(e),
                Ok((c, s2)) => if !ahead(t, s, s2) {
                    astray()
                } else {
                    match g_block(t, m, s2) {
                        Err(e) => Err(e),
                        Ok((b, s3)) => if !ahead(t, s, s3) {
                            astray()
                        } else {
                            match g_elsifs(t, m, s3) {
                                Ok((rest, s4)) => Ok((seq![(c, b)] + rest, s4)),
                                Err(e) => Err(e),
                            }
                        },
                    }
                },
            }
        }
    }
}

/// A conditional: condition and block, any `else if` clauses, an optional
/// `else` block.
pub open spec fn g_if(t: Seq<Token>, m: Seq<ImportedModule>, s: PState) -> Parsed<ExprV>
    decreases t.len() - s.pos, 8int,
{
    if !inside(t, s) {
        astray()
    } else if !(tok(t, s) is If) {
        fail_found(t, s, "expected if"@)
    } else {
        let s1 = adv(t, s);
        match g_expr(t, m, s1) {
            Err(e) => Err(e),
            Ok((c, s2)) => if !ahead(t, s, s2) {
                astray()
            } else {
                match g_block(t, m, s2) {
                    Err(e) => Err(e),
                    Ok((b, s3)) => if !ahead(t, s, s3) {
                        astray()
                    } else {
                        match g_elsifs(t, m, s3) {
                            Err(e) => Err(e),
                            Ok((ei, s4)) => {
                                let elsifs = if ei.len() == 0 { None } else { Some(ei) };
                                if tok(t, s4) is Else {
                                    let s5 = adv(t, s4);
                                    if !ahead(t, s, s5) {
                                        astray()
                                    } else {
                                        match g_block(t, m, s5) {
                                            Err(e) => Err(e),
                                            Ok((eb, s6)) => Ok((ExprV::If(Box::new(c), b, elsifs, Some(eb)), s6)),
                                        }
                                    }
                                } else {
                                    Ok((ExprV::If(Box::new(c), b, elsifs, None), s4))
                                }
                            },
                        }
                    },
                }
            },
        }
    }
}

/// The items of a program, up to the end.
pub open spec fn g_program(t: Seq<Token>, m: Seq<ImportedModule>, s: PState) -> Parsed<Seq<AstV>>
    decreases t.len() - s.pos,
{
    if !inside(t, s) {
        astray()
    } else if tok(t, s) is Eof {
        Ok((Seq::empty(), s))
    } else {
        match g_section(t, m, s) {
            Err(e) => Err(e),
            Ok((a, s2)) => if !ahead(t, s, s2) {
                astray()
            } else {
                match g_program(t, m, s2) {
                    Ok((rest, s3)) => Ok((seq![a] + rest, s3)),
                    Err(e) => Err(e),
                }
            },
        }
    }
}

/// The tokens with an end marker supplied when they lack one.
pub open spec fn ended(t: Seq<Token>) -> Seq<Token> {
    if t.len() == 0 || !(t.last() is Eof) {
        t.push(Token::Eof)
    } else {
        t
    }
}

/// The state a parse starts in: at the first token that is no line break, the
/// builtin type `i32` declared, one empty scope.
pub open spec fn start_state(t: Seq<Token>) -> PState {
    let p = skip_newlines(t, 0);
    PState {
        pos: p,
        line: if 1 + p > u32::MAX { u32::MAX as int } else { 1 + p },
        funcs: Seq::empty(),
        types: seq!["i32"@],
        scopes: seq![Seq::empty()],
    }
}

/// The program that a sequence of tokens is, given the modules it imports, or
/// the error met first.
pub open spec fn program_of(tokens: Seq<Token>, m: Seq<ImportedModule>) -> Result<Seq<AstV>, (Seq<char>, int)> {
    let t = ended(tokens);
    match g_program(t, m, start_state(t)) {
        Ok((p, _)) => Ok(p),
        Err(e) => Err(e),
    }
}

/// A list result with `acc` put in front of its items.
pub open spec fn prefixed<V>(acc: Seq<V>, r: Parsed<Seq<V>>) -> Parsed<Seq<V>> {
    match r {
        Ok((rest, s)) => Ok((acc + rest, s)),
        Err(e) => Err(e),
    }
}

pub proof fn lemma_prefixed_push<V>(acc: Seq<V>, a: V, r: Parsed<Seq<V>>)
    ensures
        prefixed(acc, prefixed(seq![a], r)) == prefixed(acc.push(a), r),
{
    match r {
        Ok((rest, s)) => {
            assert(acc + (seq![a] + rest) =~= acc.push(a) + rest);
        },
        Err(_) => {},
    }
}

pub proof fn lemma_view_call(c: crate::ast::FnCall)
    ensures
        view_value(Value::FnCall(c)) == ValV::Call(c.name@, view_exprs(c.args@)),
{
    let x = view_value(Value::FnCall(c));
    assert(x->Call_1 =~= view_exprs(c.args@));
}

pub proof fn lemma_view_fn(f: crate::ast::Function)
    ensures
        view_ast(Ast::Statement(Statement::Function(f))) == AstV::Fun(f.name@, view_args(f.args@), f.ret_tp.name@, view_block(f.body@)),
{
    let x = view_ast(Ast::Statement(Statement::Function(f)));
    assert(x->Fun_3 =~= view_block(f.body@));
}

pub proof fn lemma_view_if(i: crate::ast::If)
    ensures
        view_expr(Expression::If(i)) == ExprV::If(
            Box::new(view_expr(*i.condition)),
            view_block(i.block@),
            match i.elsifs { Some(v) => Some(view_elsifs(v@)), None => None },
            match i.els { Some(b) => Some(view_block(b@)), None => None },
        ),
{
    let x = view_expr(Expression::If(i));
    assert(x->If_1 =~= view_block(i.block@));
    match i.elsifs {
        Some(v) => {
            let e = x->If_2->0;
            assert forall|k: int| 0 <= k < v.len() implies e[k].1 =~= view_block(v@[k].block@) by {}
            assert(e =~= view_elsifs(v@));
        },
        None => {},
    }
    match i.els {
        Some(b) => {
            assert(x->If_3->0 =~= view_block(b@));
        },
        None => {},
    }
}

pub proof fn lemma_prefixed_empty<V>(r: Parsed<Seq<V>>)
    ensures
        prefixed(Seq::empty(), r) == r,
{
    match r {
        Ok((rest, s)) => {
            assert(Seq::<V>::empty() + rest =~= rest);
        },
        Err(_) => {},
    }
}

proof fn lemma_type_keeps_funcs(t: Seq<Token>, s: PState)
    ensures
        g_type(t, s) matches Ok((_, s2)) ==> s2.funcs == s.funcs,
{
}

proof fn lemma_arg_list_keeps_funcs(t: Seq<Token>, s: PState)
    ensures
        g_arg_list(t, s) matches Ok((_, s2)) ==> s2.funcs == s.funcs,
    decreases t.len() - s.pos,
{
    if inside(t, s) && !(tok(t, s) is RPeren || tok(t, s) is Eof) {
        lemma_type_keeps_funcs(t, adv(t, s));
        match g_arg(t, s) {
            Ok((_, s2)) => {
                if ahead(t, s, s2) {
                    lemma_arg_list_keeps_funcs(t, s2);
                }
            },
            Err(_) => {},
        }
    }
}

/// A function's name enters the function table only after its body: the body
/// is parsed with the table as it stood before the definition, so neither a
/// call of the function itself nor one of a function defined later resolves
/// in it; once the definition is parsed, its name is the table's last entry.
pub proof fn law_fn_registered_after_body(t: Seq<Token>, m: Seq<ImportedModule>, s: PState)
    ensures
        g_fn(t, m, s) matches Ok((f, s2)) ==> (f matches AstV::Fun(n, _, _, body) && exists|s4: PState|
            s4.funcs == s.funcs && (#[trigger] g_block(t, m, s4) matches Ok((b, s5)) && b == body
                && s2.funcs == s5.funcs.push(n))),
{
    if inside(t, s) && tok(t, s) is Fn {
        let s1 = adv(t, s);
        match tok(t, s1) {
            Token::Ident(n) => {
                let s2 = adv(t, s1);
                let sp = PState { scopes: s2.scopes.push(Seq::empty()), ..s2 };
                if inside(t, sp) && tok(t, sp) is LPeren {
                    lemma_arg_list_keeps_funcs(t, adv(t, sp));
                }
                match g_params(t, sp) {
                    Ok((args, s3)) => {
                        lemma_type_keeps_funcs(t, s3);
                        let rt: Parsed<Seq<char>> = if tok(t, s3) is Colin {
                            g_type(t, s3)
                        } else {
                            Ok(("()"@, s3))
                        };
                        match rt {
                            Ok((r, s4)) => {
                                assert(s4.funcs == s.funcs);
                                if ahead(t, s, s4) {
                                    match g_block(t, m, s4) {
                                        Ok((body, s5)) => {
                                            assert(g_block(t, m, s4) matches Ok((b, s5)) && b == body);
                                        },
                                        Err(_) => {},
                                    }
                                }
                            },
                            Err(_) => {},
                        }
                    },
                    Err(_) => {},
                }
            },
            _ => {},
        }
    }
}

/// A name declared again in an inner frame shadows the outer declaration in
/// the parse: while that frame and frames that do not redeclare it are open,
/// the name parses as a variable, and its innermost declaration is the inner
/// one.
pub proof fn law_shadowing_in_parse(
    t: Seq<Token>,
    m: Seq<ImportedModule>,
    s: PState,
    v: Frames,
    f: Seq<Seq<char>>,
    n: Seq<char>,
    inner: Frames,
)
    requires
        inside(t, s),
        tok(t, s) matches Token::Ident(i) && i@ == n,
        s.scopes == v.push(f.push(n)) + inner,
        forall|i: int| 0 <= i < inner.len() ==> !(#[trigger] inner[i]).contains(n),
    ensures
        g_value(t, m, s) == Parsed::<ValV>::Ok((ValV::Var(n), adv(t, s))),
        crate::scopes::innermost(s.scopes, n) == v.len(),
{
    crate::scopes::law_block_scoping(v, f, n, inner);
    crate::scopes::law_shadowing(v, f, n, inner);
}

/// A successful rule left the scopes as it found them.
pub open spec fn same_scopes<X>(r: Parsed<X>, s: PState) -> bool {
    r matches Ok((_, s2)) ==> s2.scopes == s.scopes
}

proof fn lemma_value_scopes(t: Seq<Token>, m: Seq<ImportedModule>, s: PState)
    ensures
        same_scopes(g_value(t, m, s), s),
    decreases t.len() - s.pos, 2int,
{
    if inside(t, s) {
        if let Token::Ident(i) = tok(t, s) {
            if !visible(s.scopes, i@) && s.funcs.contains(i@) && peek(t, s) is LPeren {
                lemma_call_scopes(t, m, s);
            }
        }
    }
}

proof fn lemma_call_scopes(t: Seq<Token>, m: Seq<ImportedModule>, s: PState)
    ensures
        same_scopes(g_call(t, m, s), s),
    decreases t.len() - s.pos, 1int,
{
    if inside(t, s) && tok(t, s) is Ident {
        let s1 = adv(t, s);
        if ahead(t, s, s1) {
            lemma_args_scopes(t, m, s1);
        }
    }
}

proof fn lemma_args_scopes(t: Seq<Token>, m: Seq<ImportedModule>, s: PState)
    ensures
        same_scopes(g_args(t, m, s), s),
    decreases t.len() - s.pos, 0int,
{
    if inside(t, s) && tok(t, s) is LPeren {
        let s1 = adv(t, s);
        if ahead(t, s, s1) && !(tok(t, s1) is RPeren) {
            lemma_args_rest_scopes(t, m, s1);
        }
    }
}

proof fn lemma_args_rest_scopes(t: Seq<Token>, m: Seq<ImportedModule>, s: PState)
    ensures
        same_scopes(g_args_rest(t, m, s), s),
    decreases t.len() - s.pos, 4int,
{
    if inside(t, s) {
        lemma_expr_scopes(t, m, s);
        match g_expr(t, m, s) {
            Ok((_, s2)) => {
                let s3 = adv(t, s2);
                if ahead(t, s, s2) && tok(t, s2) is Coma && !(peek(t, s2) is RPeren) && ahead(t, s, s3) {
                    lemma_args_rest_scopes(t, m, s3);
                }
            },
            Err(_) => {},
        }
    }
}

proof fn lemma_expr_scopes(t: Seq<Token>, m: Seq<ImportedModule>, s: PState)
    ensures
        same_scopes(g_expr(t, m, s), s),
    decreases t.len() - s.pos, 3int,
{
    if inside(t, s) {
        lemma_value_scopes(t, m, s);
        match g_value(t, m, s) {
            Ok((_, s1)) => {
                let s2 = adv(t, s1);
                if ahead(t, s, s2) {
                    lemma_value_scopes(t, m, s2);
                }
            },
            Err(_) => {},
        }
    }
}

proof fn lemma_arg_list_frames(t: Seq<Token>, s: PState)
    requires
        s.scopes.len() > 0,
    ensures
        g_arg_list(t, s) matches Ok((_, s2)) ==> s2.scopes.len() == s.scopes.len()
            && s2.scopes.drop_last() == s.scopes.drop_last(),
    decreases t.len() - s.pos,
{
    if inside(t, s) && !(tok(t, s) is RPeren || tok(t, s) is Eof) {
        match g_arg(t, s) {
            Ok((_, s2)) => {
                assert(s2.scopes.drop_last() =~= s.scopes.drop_last());
                if ahead(t, s, s2) {
                    lemma_arg_list_frames(t, s2);
                }
            },
            Err(_) => {},
        }
    }
}

proof fn lemma_skip_scopes(t: Seq<Token>, s: PState)
    ensures
        g_skip(t, s) matches Ok(s2) ==> s2.scopes == s.scopes,
    decreases t.len() - s.pos,
{
    if inside(t, s) && !(tok(t, s) is RBrace) && !(tok(t, s) is Eof) {
        let s1 = adv(t, s);
        if ahead(t, s, s1) {
            lemma_skip_scopes(t, s1);
        }
    }
}

proof fn lemma_section_scopes(t: Seq<Token>, m: Seq<ImportedModule>, s: PState)
    ensures
        same_scopes(g_section(t, m, s), s),
    decreases t.len() - s.pos, 9int,
{
    if inside(t, s) {
        match tok(t, s) {
            Token::Fn => lemma_fn_scopes(t, m, s),
            Token::Ident(_) => lemma_expr_scopes(t, m, s),
            Token::If => lemma_if_scopes(t, m, s),
            Token::Struct => {
                let s1 = adv(t, s);
                lemma_skip_scopes(t, adv(t, s1));
            },
            _ => {},
        }
    }
}

proof fn lemma_items_scopes(t: Seq<Token>, m: Seq<ImportedModule>, s: PState)
    ensures
        same_scopes(g_items(t, m, s), s),
    decreases t.len() - s.pos, 10int,
{
    if inside(t, s) && !(tok(t, s) is RBrace || tok(t, s) is Eof) {
        lemma_section_scopes(t, m, s);
        match g_section(t, m, s) {
            Ok((_, s2)) => {
                if ahead(t, s, s2) {
                    lemma_items_scopes(t, m, s2);
                }
            },
            Err(_) => {},
        }
    }
}

proof fn lemma_block_scopes(t: Seq<Token>, m: Seq<ImportedModule>, s: PState)
    ensures
        same_scopes(g_block(t, m, s), s),
    decreases t.len() - s.pos, 8int,
{
    if inside(t, s) && tok(t, s) is LBrace {
        let s1 = adv(t, s);
        if ahead(t, s, s1) {
            let sp = PState { scopes: s1.scopes.push(Seq::empty()), ..s1 };
            lemma_items_scopes(t, m, sp);
            assert(sp.scopes.drop_last() =~= s.scopes);
        }
    }
}

proof fn lemma_fn_scopes(t: Seq<Token>, m: Seq<ImportedModule>, s: PState)
    ensures
        same_scopes(g_fn(t, m, s), s),
    decreases t.len() - s.pos, 8int,
{
    if inside(t, s) && tok(t, s) is Fn {
        let s1 = adv(t, s);
        if tok(t, s1) is Ident {
            let s2 = adv(t, s1);
            let sp = PState { scopes: s2.scopes.push(Seq::empty()), ..s2 };
            if inside(t, sp) && tok(t, sp) is LPeren {
                lemma_arg_list_frames(t, adv(t, sp));
            }
            match g_params(t, sp) {
                Ok((_, s3)) => {
                    assert(s3.scopes.drop_last() =~= s.scopes);
                    let rt: Parsed<Seq<char>> = if tok(t, s3) is Colin {
                        g_type(t, s3)
                    } else {
                        Ok(("()"@, s3))
                    };
                    match rt {
                        Ok((_, s4)) => {
                            if ahead(t, s, s4) {
                                lemma_block_scopes(t, m, s4);
                            }
                        },
                        Err(_) => {},
                    }
                },
                Err(_) => {},
            }
        }
    }
}

proof fn lemma_elsifs_scopes(t: Seq<Token>, m: Seq<ImportedModule>, s: PState)
    ensures
        same_scopes(g_elsifs(t, m, s), s),
    decreases t.len() - s.pos, 7int,
{
    if inside(t, s) && tok(t, s) is Else && peek(t, s) is If {
        let s1 = adv(t, adv(t, s));
        if ahead(t, s, s1) {
            lemma_expr_scopes(t, m, s1);
            match g_expr(t, m, s1) {
                Ok((_, s2)) => {
                    if ahead(t, s, s2) {
                        lemma_block_scopes(t, m, s2);
                        match g_block(t, m, s2) {
                            Ok((_, s3)) => {
                                if ahead(t, s, s3) {
                                    lemma_elsifs_scopes(t, m, s3);
                                }
                            },
                            Err(_) => {},
                        }
                    }
                },
                Err(_) => {},
            }
        }
    }
}

proof fn lemma_if_scopes(t: Seq<Token>, m: Seq<ImportedModule>, s: PState)
    ensures
        same_scopes(g_if(t, m, s), s),
    decreases t.len() - s.pos, 8int,
{
    if inside(t, s) && tok(t, s) is If {
        let s1 = adv(t, s);
        lemma_expr_scopes(t, m, s1);
        match g_expr(t, m, s1) {
            Ok((_, s2)) => {
                if ahead(t, s, s2) {
                    lemma_block_scopes(t, m, s2);
                    match g_block(t, m, s2) {
                        Ok((_, s3)) => {
                            if ahead(t, s, s3) {
                                lemma_elsifs_scopes(t, m, s3);
                                match g_elsifs(t, m, s3) {
                                    Ok((_, s4)) => {
                                        let s5 = adv(t, s4);
                                        if tok(t, s4) is Else && ahead(t, s, s5) {
                                            lemma_block_scopes(t, m, s5);
                                        }
                                    },
                                    Err(_) => {},
                                }
                            }
                        },
                        Err(_) => {},
                    }
                }
            },
            Err(_) => {},
        }
    }
}

/// A block leaves the scopes as it found them: a name declared inside it, at
/// any depth, is visible after its closing brace exactly when it was before
/// the block opened, so a name declared only inside it no longer resolves.
pub proof fn law_block_closes_scope(t: Seq<Token>, m: Seq<ImportedModule>, s: PState, n: Seq<char>)
    ensures
        g_block(t, m, s) matches Ok((_, s2)) ==> s2.scopes == s.scopes && (crate::scopes::visible(
            s2.scopes,
            n,
        ) == crate::scopes::visible(s.scopes, n)),
{
    lemma_block_scopes(t, m, s);
}

} // verus!
