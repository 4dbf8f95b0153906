use vstd::prelude::*;

use crate::ast::{
    Arg, Ast, Bop, Constant, ElseIf, Expression, FnCall, Function, If, Import, Statement, Struct,
    Type, TypeConstr, Value,
};
use crate::grammar::{
    adv, declare, g_arg, g_arg_list, g_args, g_args_rest, g_call, g_expr, g_params, g_type,
    g_value, view_args, g_skip, g_struct, g_import, g_exports, view_ast, g_section, g_items,
    g_block, g_fn, g_if, g_elsifs, g_program, view_block, view_elsifs, lemma_view_fn,
    lemma_view_if, lemma_prefixed_empty, AstV, ExprV, ended, program_of, start_state, lemma_prefixed_push, lemma_view_call,
    prefixed, string_value, view_exprs, view_expr, view_value, Parsed, PState, ValV,
};
use crate::scopes::Scopes;
use crate::text::{push_str, string_of};
use crate::token::{token_text, Number, Token};
use crate::lowering::find_module;
use crate::compiler::lemma_find_module_prefix;

verus! {

/// A function or other item that an imported module exports.
#[derive(Clone, Debug)]
pub struct Export {
    pub name: String,
    pub kind: String,
}

/// What the caller learned of a module named by an import directive: the path as
/// written, the module's text or why it could not be read, and its exports.
#[derive(Debug)]
pub struct ImportedModule {
    pub path: String,
    pub read: Result<String, String>,
    pub exports: Vec<Export>,
}

/// A failure to parse, with the line it was found on.
#[derive(Debug)]
pub struct ParserError {
    pub msg: String,
    pub line: u32,
}

/// The index of the first token from `j` on that is not a line break; the last
/// index when there is none.
pub open spec fn skip_newlines(t: Seq<Token>, j: int) -> int
    decreases t.len() - j,
{
    if j >= t.len() {
        t.len() - 1
    } else if t[j] is NewLine {
        skip_newlines(t, j + 1)
    } else {
        j
    }
}

/// The character sequences of a vector of strings.
pub open spec fn names_of(v: Seq<String>) -> Seq<Seq<char>> {
    Seq::new(v.len(), |i: int| v[i]@)
}

/// The message and line of an error.
pub open spec fn err_of(e: ParserError) -> (Seq<char>, int) {
    (e.msg@, e.line as int)
}

/// A parse result as the grammar states it: the value's view and the state
/// after it, or the error.
pub open spec fn outcome<X, V>(r: Result<X, ParserError>, f: spec_fn(X) -> V, s: PState) -> Parsed<V> {
    match r {
        Ok(x) => Ok((f(x), s)),
        Err(e) => Err(err_of(e)),
    }
}

/// A text made of a fixed prefix and a name.
fn message(prefix: &str, name: &str) -> (r: String)
    ensures
        r@ == prefix@ + name@,
{
    let mut out: Vec<char> = Vec::new();
    push_str(&mut out, prefix);
    push_str(&mut out, name);
    string_of(&out)
}

/// A text made of a fixed prefix and the characters of `name`.
fn message_chars(prefix: &str, name: &Vec<char>) -> (r: String)
    ensures
        r@ == prefix@ + name@,
{
    let mut out: Vec<char> = Vec::new();
    push_str(&mut out, prefix);
    crate::text::push_chars(&mut out, name);
    string_of(&out)
}

/// A string holding the characters of `s`.
fn owned(s: &str) -> (r: String)
    ensures
        r@ == s@,
{
    let mut out: Vec<char> = Vec::new();
    push_str(&mut out, s);
    string_of(&out)
}

/// Whether `v` holds a string equal to `name`.
fn holds(v: &Vec<String>, name: &String) -> (r: bool)
    ensures
        r == names_of(v@).contains(name@),
{
    let mut i: usize = 0;
    while i < v.len()
        invariant
            i <= v.len(),
            forall|k: int| 0 <= k < i ==> v@[k]@ != name@,
        decreases v.len() - i,
    {
        if v[i] == *name {
            assert(names_of(v@)[i as int] == name@);
            return true;
        }
        i = i + 1;
    }
    assert(!names_of(v@).contains(name@)) by {
        if names_of(v@).contains(name@) {
            let k = choose|k: int| 0 <= k < names_of(v@).len() && names_of(v@)[k] == name@;
            assert(v@[k]@ == name@);
        }
    }
    false
}

/// Recursive-descent parser state: the tokens, the position of the current one,
/// the lexical scopes, and the flat tables of declared functions and types.
pub struct Parser {
    pub tokens: Vec<Token>,
    pub pos: usize,
    pub funcs: Vec<String>,
    pub scopes: Scopes,
    pub types: Vec<String>,
    pub line: u32,
    pub imports: Vec<ImportedModule>,
}

impl Parser {
    /// The tokens end with `Eof`, the current token is no line break, and at
    /// least the outermost scope is open.
    pub open spec fn wf(&self) -> bool {
        &&& self.tokens.len() > 0
        &&& self.tokens@.last() is Eof
        &&& self.pos < self.tokens.len()
        &&& !(self.tokens@[self.pos as int] is NewLine)
        &&& self.scopes@.len() > 0
    }

    /// The parse state: position, line, tables and scopes.
    pub open spec fn st(&self) -> PState {
        PState {
            pos: self.pos as int,
            line: self.line as int,
            funcs: names_of(self.funcs@),
            types: names_of(self.types@),
            scopes: self.scopes@,
        }
    }

    pub open spec fn cur_spec(&self) -> Token {
        self.tokens@[self.pos as int]
    }

    pub open spec fn peek_spec(&self) -> Token {
        self.tokens@[skip_newlines(self.tokens@, self.pos + 1)]
    }

    /// The tokens left, as a measure of progress.
    pub open spec fn left(&self) -> int {
        self.tokens.len() - self.pos
    }

    /// What every step keeps: the tokens and imports, well-formedness, and
    /// forward motion; tables only grow.
    pub open spec fn keeps(&self, other: &Parser) -> bool {
        &&& other.wf()
        &&& other.tokens == self.tokens
        &&& other.imports == self.imports
        &&& self.pos <= other.pos
        &&& self.line <= other.line
        &&& names_of(self.funcs@).is_prefix_of(names_of(other.funcs@))
        &&& names_of(self.types@).is_prefix_of(names_of(other.types@))
    }

    proof fn lemma_skip(t: Seq<Token>, j: int)
        requires
            t.len() > 0,
            t.last() is Eof,
            0 <= j,
        ensures
            j <= skip_newlines(t, j) || skip_newlines(t, j) == t.len() - 1,
            0 <= skip_newlines(t, j) < t.len(),
            !(t[skip_newlines(t, j)] is NewLine),
            j < t.len() ==> j <= skip_newlines(t, j),
        decreases t.len() - j,
    {
        if j < t.len() && t[j] is NewLine {
            Self::lemma_skip(t, j + 1);
        }
    }

    pub fn cur(&self) -> (r: &Token)
        requires
            self.wf(),
        ensures
            *r == self.cur_spec(),
    {
        &self.tokens[self.pos]
    }

    /// The token after the current one, line breaks skipped.
    pub fn peek(&self) -> (r: &Token)
        requires
            self.wf(),
        ensures
            *r == self.peek_spec(),
    {
        let mut j: usize = self.pos + 1;
        while j < self.tokens.len() && matches!(self.tokens[j], Token::NewLine)
            invariant
                self.wf(),
                self.pos < j <= self.tokens.len(),
                skip_newlines(self.tokens@, self.pos + 1) == skip_newlines(self.tokens@, j as int),
            decreases self.tokens.len() - j,
        {
            j = j + 1;
        }
        if j == self.tokens.len() {
            &self.tokens[self.tokens.len() - 1]
        } else {
            &self.tokens[j]
        }
    }

    /// Moves to the next token, counting the line breaks passed; stays on `Eof`.
    pub fn advance(&mut self)
        requires
            old(self).wf(),
        ensures
            old(self).keeps(final(self)),
            final(self).funcs == old(self).funcs,
            final(self).types == old(self).types,
            final(self).scopes == old(self).scopes,
            old(self).cur_spec() is Eof ==> final(self).pos == old(self).pos,
            !(old(self).cur_spec() is Eof) ==> final(self).pos == skip_newlines(
                old(self).tokens@,
                old(self).pos + 1,
            ) && final(self).pos > old(self).pos,
            final(self).cur_spec() == old(self).peek_spec() || old(self).cur_spec() is Eof,
            final(self).st() == adv(old(self).tokens@, old(self).st()),
    {
        proof {
            Self::lemma_skip(self.tokens@, self.pos + 1);
        }
        if matches!(self.tokens[self.pos], Token::Eof) {
            return;
        }
        let mut j: usize = self.pos + 1;
        while matches!(self.tokens[j], Token::NewLine)
            invariant
                self.wf(),
                self.tokens == old(self).tokens,
                self.pos == old(self).pos,
                self.funcs == old(self).funcs,
                self.types == old(self).types,
                self.scopes == old(self).scopes,
                self.imports == old(self).imports,
                old(self).line <= self.line,
                self.line as int == (if old(self).line + (j - self.pos - 1) > u32::MAX {
                    u32::MAX as int
                } else {
                    old(self).line + (j - self.pos - 1)
                }),
                self.pos < j < self.tokens.len(),
                skip_newlines(self.tokens@, self.pos + 1) == skip_newlines(self.tokens@, j as int),
            decreases self.tokens.len() - j,
        {
            if self.line < u32::MAX {
                self.line = self.line + 1;
            }
            j = j + 1;
        }
        self.pos = j;
    }

    /// An error naming the current token, which another was expected in place of.
    pub fn unexpected(&self, msg: &str) -> (r: ParserError)
        requires
            self.wf(),
        ensures
            r.msg@ == msg@ + ", found "@ + token_text(self.cur_spec()),
            r.line == self.line,
    {
        let mut out: Vec<char> = Vec::new();
        push_str(&mut out, msg);
        push_str(&mut out, ", found ");
        let found = self.cur().text();
        crate::text::push_chars(&mut out, &found);
        ParserError { msg: string_of(&out), line: self.line }
    }

    /// An error at the current line.
    pub fn make_err(&self, msg: String) -> (r: ParserError)
        ensures
            r.msg@ == msg@,
            r.line == self.line,
    {
        ParserError { msg, line: self.line }
    }

    /// The current token's identifier text, cloned.
    fn ident_text(&self) -> (r: Option<String>)
        requires
            self.wf(),
        ensures
            match self.cur_spec() {
                Token::Ident(i) => r matches Some(s) && s@ == i@,
                _ => r is None,
            },
    {
        match &self.tokens[self.pos] {
            Token::Ident(i) => Some(i.clone()),
            _ => None,
        }
    }

    /// A value: a variable in scope, a call of a declared function, a number, a
    /// string, or a truth value.
    pub fn parse_value(&mut self) -> (r: Result<Expression, ParserError>)
        requires
            old(self).wf(),
        ensures
            old(self).keeps(final(self)),
            final(self).funcs == old(self).funcs,
            final(self).types == old(self).types,
            final(self).scopes == old(self).scopes,
            r is Ok ==> final(self).pos > old(self).pos,
            r matches Ok(e) ==> e is Value,
            g_value(old(self).tokens@, old(self).imports@, old(self).st()) == outcome(
                r,
                |e: Expression| match e {
                    Expression::Value(v) => view_value(v),
                    _ => ValV::I32(0),
                },
                final(self).st(),
            ),
        decreases old(self).left(), 2int,
    {
        let t = self.cur();
        match t {
            Token::Ident(i) => {
                let name = i.clone();
                if self.scopes.is_visible(name.as_str()) {
                    self.advance();
                    Ok(Expression::Value(Value::Var(name)))
                } else if holds(&self.funcs, &name) && matches!(self.peek(), Token::LPeren) {
                    match self.parse_fn_call() {
                        Ok(c) => Ok(Expression::Value(Value::FnCall(c))),
                        Err(e) => Err(e),
                    }
                } else {
                    let msg = message("unknown identifier ", name.as_str());
                    Err(self.make_err(msg))
                }
            },
            Token::Number(Number::I32(v)) => {
                let v = *v;
                self.advance();
                Ok(Expression::Value(Value::I32(v)))
            },
            Token::Number(Number::F32(f)) => {
                let f = f.clone();
                self.advance();
                Ok(Expression::Value(Value::F32(f)))
            },
            Token::String(s) => {
                let c = string_construction(s);
                proof {
                    lemma_string_view(c, s@);
                }
                self.advance();
                Ok(Expression::Value(Value::TypeConstr(c)))
            },
            Token::True => {
                self.advance();
                Ok(Expression::Value(Value::I32(1)))
            },
            Token::False => {
                self.advance();
                Ok(Expression::Value(Value::I32(0)))
            },
            _ => {
                let found = t.text();
                let msg = message_chars("expected a value, found ", &found);
                Err(self.make_err(msg))
            },
        }
    }

    /// A call: the function's name and its parenthesized arguments.
    pub fn parse_fn_call(&mut self) -> (r: Result<FnCall, ParserError>)
        requires
            old(self).wf(),
        ensures
            old(self).keeps(final(self)),
            final(self).funcs == old(self).funcs,
            final(self).types == old(self).types,
            final(self).scopes == old(self).scopes,
            r is Ok ==> final(self).pos > old(self).pos,
            r matches Ok(c) ==> old(self).cur_spec() matches Token::Ident(i) && c.name@ == i@,
            g_call(old(self).tokens@, old(self).imports@, old(self).st()) == outcome(
                r,
                |c: FnCall| view_value(Value::FnCall(c)),
                final(self).st(),
            ),
        decreases old(self).left(), 1int,
    {
        let name = match self.ident_text() {
            Some(n) => n,
            None => {
                return Err(self.unexpected("expected a function name"));
            },
        };
        self.advance();
        let args = self.parse_args()?;
        let c = FnCall { name, args };
        proof {
            lemma_view_call(c);
        }
        Ok(c)
    }

    /// Parenthesized, comma-separated argument expressions.
    pub fn parse_args(&mut self) -> (r: Result<Vec<Expression>, ParserError>)
        requires
            old(self).wf(),
        ensures
            old(self).keeps(final(self)),
            final(self).funcs == old(self).funcs,
            final(self).types == old(self).types,
            final(self).scopes == old(self).scopes,
            r is Ok ==> final(self).pos > old(self).pos,
            !(old(self).cur_spec() is LPeren) ==> r is Err,
            g_args(old(self).tokens@, old(self).imports@, old(self).st()) == outcome(
                r,
                |v: Vec<Expression>| view_exprs(v@),
                final(self).st(),
            ),
        decreases old(self).left(), 0int,
    {
        if !matches!(self.cur(), Token::LPeren) {
            return Err(self.unexpected("expected opening parenthesis"));
        }
        self.advance();
        let mut args: Vec<Expression> = Vec::new();
        assert(view_exprs(args@) =~= Seq::<crate::grammar::ExprV>::empty());
        if matches!(self.cur(), Token::RPeren) {
            self.advance();
            return Ok(args);
        }
        let ghost t = old(self).tokens@;
        let ghost m = old(self).imports@;
        proof {
            lemma_prefixed_empty(g_args_rest(t, m, self.st()));
        }
        loop
            invariant
                old(self).wf(),
                old(self).keeps(self),
                self.funcs == old(self).funcs,
                self.types == old(self).types,
                self.scopes == old(self).scopes,
                self.pos > old(self).pos,
                old(self).cur_spec() is LPeren,
                t == old(self).tokens@,
                m == old(self).imports@,
                g_args(t, m, old(self).st()) == prefixed(view_exprs(args@), g_args_rest(t, m, self.st())),
            decreases self.left(),
        {
            let ghost s0 = self.st();
            let ghost acc = view_exprs(args@);
            let e = self.parse_expr()?;
            let ghost ev = view_expr(e);
            args.push(e);
            assert(view_exprs(args@) =~= acc.push(ev));
            if matches!(self.cur(), Token::Coma) {
                if matches!(self.peek(), Token::RPeren) {
                    let msg = owned("unexpected comma");
                    return Err(self.make_err(msg));
                }
                self.advance();
                proof {
                    lemma_prefixed_push(acc, ev, g_args_rest(t, m, self.st()));
                }
            } else if matches!(self.cur(), Token::RPeren) {
                self.advance();
                assert(acc + seq![ev] =~= acc.push(ev));
                return Ok(args);
            } else {
                return Err(self.unexpected("expected comma or closing parenthesis"));
            }
        }
    }

    /// A value, optionally followed by one binary operator and a second value.
    pub fn parse_expr(&mut self) -> (r: Result<Expression, ParserError>)
        requires
            old(self).wf(),
        ensures
            old(self).keeps(final(self)),
            final(self).funcs == old(self).funcs,
            final(self).types == old(self).types,
            final(self).scopes == old(self).scopes,
            r is Ok ==> final(self).pos > old(self).pos,
            r matches Ok(e) ==> expr_shape(e),
            g_expr(old(self).tokens@, old(self).imports@, old(self).st()) == outcome(
                r,
                |e: Expression| view_expr(e),
                final(self).st(),
            ),
        decreases old(self).left(), 3int,
    {
        let lhs = self.parse_value()?;
        if !self.cur().is_operator() {
            return Ok(lhs);
        }
        let op = match Bop::from_token(self.cur()) {
            Some(op) => op,
            None => {
                return Err(self.unexpected("expected binary operator"));
            },
        };
        self.advance();
        let rhs = self.parse_value()?;
        proof {
            assert(view_expr(lhs) == crate::grammar::ExprV::Val(view_value(lhs->Value_0)));
            assert(view_expr(rhs) == crate::grammar::ExprV::Val(view_value(rhs->Value_0)));
        }
        Ok(Expression::BinaryOperation(Box::new(lhs), op, Box::new(rhs)))
    }

    /// A declared type named after a colon.
    pub fn parse_type(&mut self) -> (r: Result<Type, ParserError>)
        requires
            old(self).wf(),
        ensures
            old(self).keeps(final(self)),
            final(self).funcs == old(self).funcs,
            final(self).types == old(self).types,
            final(self).scopes == old(self).scopes,
            r is Ok ==> final(self).pos > old(self).pos,
            r is Ok <==> (old(self).cur_spec() is Colin && (old(self).peek_spec() matches Token::Ident(
                i,
            ) && names_of(old(self).types@).contains(i@))),
            r matches Ok(t) ==> old(self).peek_spec() matches Token::Ident(i) && t.name@ == i@,
            g_type(old(self).tokens@, old(self).st()) == outcome(
                r,
                |x: Type| x.name@,
                final(self).st(),
            ),
    {
        if !matches!(self.cur(), Token::Colin) {
            return Err(self.unexpected("expected a type"));
        }
        self.advance();
        let name = match self.ident_text() {
            Some(n) => n,
            None => {
                return Err(self.unexpected("expected a type"));
            },
        };
        if !holds(&self.types, &name) {
            let msg = message("type not defined ", name.as_str());
            return Err(self.make_err(msg));
        }
        self.advance();
        Ok(Type { name })
    }

    /// One parameter, `name: type`, followed by a comma or the closing
    /// parenthesis; the name is declared in the innermost scope.
    pub fn parse_arg_def(&mut self) -> (r: Result<Arg, ParserError>)
        requires
            old(self).wf(),
        ensures
            old(self).keeps(final(self)),
            final(self).funcs == old(self).funcs,
            final(self).types == old(self).types,
            r is Ok ==> final(self).pos > old(self).pos,
            r matches Ok(a) ==> old(self).cur_spec() matches Token::Ident(i) && a.name@ == i@
                && final(self).scopes@ == old(self).scopes@.update(
                old(self).scopes@.len() - 1,
                old(self).scopes@.last().push(i@),
            ),
            g_arg(old(self).tokens@, old(self).st()) == outcome(
                r,
                |a: Arg| (a.name@, a.tp.name@),
                final(self).st(),
            ),
    {
        let name = match self.ident_text() {
            Some(n) => n,
            None => {
                return Err(self.unexpected("expected a parameter name"));
            },
        };
        self.advance();
        let tp = self.parse_type()?;
        if matches!(self.cur(), Token::Coma) {
            if matches!(self.peek(), Token::RPeren) {
                let msg = owned("unexpected comma");
                return Err(self.make_err(msg));
            }
            self.advance();
        } else if !matches!(self.cur(), Token::RPeren) {
            return Err(self.unexpected("expected comma"));
        }
        let declared = name.clone();
        self.scopes.declare(declared);
        Ok(Arg { name, tp })
    }

    /// A parenthesized parameter list; each name is declared in the innermost
    /// scope, in order.
    pub fn parse_args_def(&mut self) -> (r: Result<Vec<Arg>, ParserError>)
        requires
            old(self).wf(),
        ensures
            old(self).keeps(final(self)),
            final(self).funcs == old(self).funcs,
            final(self).types == old(self).types,
            r is Ok ==> final(self).pos > old(self).pos,
            r matches Ok(args) ==> final(self).scopes@ == old(self).scopes@.update(
                old(self).scopes@.len() - 1,
                old(self).scopes@.last() + Seq::new(args.len() as nat, |k: int| args@[k].name@),
            ),
            g_params(old(self).tokens@, old(self).st()) == outcome(
                r,
                |v: Vec<Arg>| view_args(v@),
                final(self).st(),
            ),
    {
        if !matches!(self.cur(), Token::LPeren) {
            return Err(self.unexpected("expected opening parenthesis"));
        }
        self.advance();
        let mut args: Vec<Arg> = Vec::new();
        let ghost last = old(self).scopes@.len() - 1;
        let ghost t = old(self).tokens@;
        let ghost s1 = self.st();
        assert(view_args(args@) =~= Seq::<(Seq<char>, Seq<char>)>::empty());
        proof {
            lemma_prefixed_empty(g_arg_list(t, s1));
        }
        assert(old(self).scopes@.last() + Seq::new(0, |k: int| args@[k].name@) =~= old(self).scopes@.last());
        assert(old(self).scopes@.update(last, old(self).scopes@.last()) =~= old(self).scopes@);
        while !matches!(self.cur(), Token::RPeren) && !matches!(self.cur(), Token::Eof)
            invariant
                old(self).wf(),
                last == old(self).scopes@.len() - 1,
                old(self).keeps(self),
                self.funcs == old(self).funcs,
                self.types == old(self).types,
                self.pos > old(self).pos,
                self.scopes@ == old(self).scopes@.update(
                    last,
                    old(self).scopes@.last() + Seq::new(args.len() as nat, |k: int| args@[k].name@),
                ),
                t == old(self).tokens@,
                old(self).cur_spec() is LPeren,
                s1 == adv(t, old(self).st()),
                g_arg_list(t, s1) == prefixed(view_args(args@), g_arg_list(t, self.st())),
            decreases self.left(),
        {
            let ghost cur = self.st();
            let ghost acc = view_args(args@);
            let ghost before = old(self).scopes@.last() + Seq::new(args.len() as nat, |k: int| args@[k].name@);
            let ghost sc = self.scopes@;
            assert(sc.len() == old(self).scopes@.len());
            assert(sc.last() == before);
            let a = self.parse_arg_def()?;
            let ghost n = a.name@;
            let ghost av = (a.name@, a.tp.name@);
            args.push(a);
            assert(view_args(args@) =~= acc.push(av));
            proof {
                lemma_prefixed_push(acc, av, g_arg_list(t, self.st()));
            }
            assert(old(self).scopes@.last() + Seq::new(args.len() as nat, |k: int| args@[k].name@)
                =~= before.push(n));
            assert(self.scopes@ =~= old(self).scopes@.update(last, before.push(n)));
        }
        assert(view_args(args@) + Seq::empty() =~= view_args(args@));
        if !matches!(self.cur(), Token::RPeren) {
            return Err(self.unexpected("expected closing parenthesis"));
        }
        self.advance();
        Ok(args)
    }

    /// The items up to the end of the tokens.
    pub fn parse(&mut self) -> (r: Result<Vec<Ast>, ParserError>)
        requires
            old(self).wf(),
        ensures
            old(self).keeps(final(self)),
            r is Ok ==> final(self).cur_spec() is Eof,
            r matches Ok(p) ==> forall|k: int| 0 <= k < p.len() ==> is_section(#[trigger] p@[k]),
            old(self).cur_spec() is Eof ==> (r matches Ok(p) && p.len() == 0),
            g_program(old(self).tokens@, old(self).imports@, old(self).st()) == outcome(
                r,
                |v: Vec<Ast>| view_block(v@),
                final(self).st(),
            ),
    {
        let ghost t = old(self).tokens@;
        let ghost m = old(self).imports@;
        let mut program: Vec<Ast> = Vec::new();
        proof {
            lemma_prefixed_empty(g_program(t, m, self.st()));
        }
        assert(view_block(program@) =~= Seq::<AstV>::empty());
        while !self.cur().is_eof()
            invariant
                old(self).keeps(self),
                old(self).cur_spec() is Eof ==> self.cur_spec() is Eof && program.len() == 0,
                forall|k: int| 0 <= k < program.len() ==> is_section(#[trigger] program@[k]),
                t == old(self).tokens@,
                m == old(self).imports@,
                g_program(t, m, old(self).st()) == prefixed(view_block(program@), g_program(t, m, self.st())),
            decreases self.left(),
        {
            let ghost acc = view_block(program@);
            let a = self.parse_section()?;
            assert(is_section(a));
            let ghost av = view_ast(a);
            program.push(a);
            assert(view_block(program@) =~= acc.push(av));
            proof {
                lemma_prefixed_push(acc, av, g_program(t, m, self.st()));
            }
        }
        assert(view_block(program@) + Seq::empty() =~= view_block(program@));
        Ok(program)
    }

    /// One item of a program or block, chosen by its first token: a function,
    /// a structure, an import, a conditional, or an expression.
    pub fn parse_section(&mut self) -> (r: Result<Ast, ParserError>)
        requires
            old(self).wf(),
        ensures
            old(self).keeps(final(self)),
            r is Ok ==> final(self).pos > old(self).pos,
            r is Ok ==> final(self).scopes@ == old(self).scopes@,
            r is Ok ==> section_kind(old(self).cur_spec(), r->Ok_0),
            g_section(old(self).tokens@, old(self).imports@, old(self).st()) == outcome(
                r,
                |a: Ast| view_ast(a),
                final(self).st(),
            ),
        decreases old(self).left(), 9int,
    {
        if matches!(self.cur(), Token::Fn) {
            let f = self.parse_fn_def()?;
            Ok(Ast::Statement(f))
        } else if matches!(self.cur(), Token::Ident(_)) {
            let e = self.parse_expr()?;
            Ok(Ast::Expression(e))
        } else if matches!(self.cur(), Token::If) {
            let e = self.parse_if()?;
            Ok(Ast::Expression(e))
        } else if matches!(self.cur(), Token::Struct) {
            let st = self.parse_struct_def()?;
            Ok(Ast::Statement(st))
        } else if matches!(self.cur(), Token::Import) {
            let im = self.parse_import()?;
            Ok(Ast::Statement(im))
        } else {
            let found = self.cur().text();
            let msg = message_chars("unexpected token ", &found);
            Err(self.make_err(msg))
        }
    }

    /// A brace-delimited block of items, parsed in a scope of its own.
    pub fn parse_block(&mut self) -> (r: Result<Vec<Ast>, ParserError>)
        requires
            old(self).wf(),
        ensures
            old(self).keeps(final(self)),
            r is Ok ==> final(self).pos > old(self).pos,
            r is Ok ==> final(self).scopes@ == old(self).scopes@,
            !(old(self).cur_spec() is LBrace) ==> r is Err,
            g_block(old(self).tokens@, old(self).imports@, old(self).st()) == outcome(
                r,
                |v: Vec<Ast>| view_block(v@),
                final(self).st(),
            ),
        decreases old(self).left(), 8int,
    {
        if !matches!(self.cur(), Token::LBrace) {
            return Err(self.unexpected("expected a block"));
        }
        let ghost t = old(self).tokens@;
        let ghost m = old(self).imports@;
        self.advance();
        self.scopes.push_scope();
        let ghost s1 = self.st();
        let mut block: Vec<Ast> = Vec::new();
        proof {
            lemma_prefixed_empty(g_items(t, m, s1));
        }
        assert(view_block(block@) =~= Seq::<AstV>::empty());
        while !matches!(self.cur(), Token::RBrace) && !matches!(self.cur(), Token::Eof)
            invariant
                old(self).keeps(self),
                self.pos > old(self).pos,
                self.scopes@ == old(self).scopes@.push(Seq::empty()),
                old(self).cur_spec() is LBrace,
                t == old(self).tokens@,
                m == old(self).imports@,
                s1 == (PState { scopes: adv(t, old(self).st()).scopes.push(Seq::empty()), ..adv(t, old(self).st()) }),
                old(self).pos < s1.pos < t.len(),
                g_items(t, m, s1) == prefixed(view_block(block@), g_items(t, m, self.st())),
            decreases self.left(),
        {
            let ghost acc = view_block(block@);
            let a = self.parse_section()?;
            let ghost av = view_ast(a);
            block.push(a);
            assert(view_block(block@) =~= acc.push(av));
            proof {
                lemma_prefixed_push(acc, av, g_items(t, m, self.st()));
            }
        }
        assert(view_block(block@) + Seq::empty() =~= view_block(block@));
        if !matches!(self.cur(), Token::RBrace) {
            return Err(self.unexpected("expected right brace"));
        }
        self.advance();
        let ghost s3 = self.st();
        self.scopes.pop_scope();
        assert(self.scopes@ =~= old(self).scopes@);
        assert(self.st() == (PState { scopes: s3.scopes.drop_last(), ..s3 }));
        Ok(block)
    }

    /// A function definition: name, parameters, optional return type and body.
    /// The parameters are declared in a scope of the function's own; the name
    /// enters the function table only once the whole body is parsed.
    pub fn parse_fn_def(&mut self) -> (r: Result<Statement, ParserError>)
        requires
            old(self).wf(),
        ensures
            old(self).keeps(final(self)),
            r is Ok ==> final(self).pos > old(self).pos,
            r is Ok ==> final(self).scopes@ == old(self).scopes@,
            r matches Ok(st) ==> st matches Statement::Function(f) && old(self).cur_spec() is Fn
                && (old(self).peek_spec() matches Token::Ident(n) && f.name@ == n@)
                && names_of(final(self).funcs@).len() > 0
                && names_of(final(self).funcs@).last() == f.name@
                && names_of(old(self).funcs@).is_prefix_of(names_of(final(self).funcs@).drop_last()),
            g_fn(old(self).tokens@, old(self).imports@, old(self).st()) == outcome(
                r,
                |x: Statement| view_ast(Ast::Statement(x)),
                final(self).st(),
            ),
        decreases old(self).left(), 8int,
    {
        if !matches!(self.cur(), Token::Fn) {
            return Err(self.unexpected("expected fn"));
        }
        self.advance();
        let name = match self.ident_text() {
            Some(n) => n,
            None => {
                return Err(self.unexpected("expected a function name"));
            },
        };
        self.advance();
        self.scopes.push_scope();
        let args = self.parse_args_def()?;
        let ret_tp = if matches!(self.cur(), Token::Colin) {
            self.parse_type()?
        } else {
            proof {
                reveal_strlit("()");
            }
            Type { name: owned("()") }
        };
        let body = self.parse_block()?;
        let ghost s5 = self.st();
        self.scopes.pop_scope();
        assert(self.scopes@ =~= old(self).scopes@);
        let fname = name.clone();
        let ghost before = *self;
        self.funcs.push(fname);
        assert(names_of(self.funcs@) =~= names_of(before.funcs@).push(name@));
        assert(names_of(self.funcs@).drop_last() =~= names_of(before.funcs@));
        assert(names_of(before.funcs@).is_prefix_of(names_of(self.funcs@)));
        assert(self.st() == (PState { scopes: s5.scopes.drop_last(), funcs: s5.funcs.push(name@), ..s5 }));
        let f = Function { name, args, ret_tp, body };
        proof {
            lemma_view_fn(f);
        }
        Ok(Statement::Function(f))
    }

    /// A conditional: condition and block, then any `else if` clauses, then an
    /// optional `else` block.
    pub fn parse_if(&mut self) -> (r: Result<Expression, ParserError>)
        requires
            old(self).wf(),
        ensures
            old(self).keeps(final(self)),
            r is Ok ==> final(self).pos > old(self).pos,
            r is Ok ==> final(self).scopes@ == old(self).scopes@,
            r matches Ok(e) ==> e matches Expression::If(i) && expr_shape(*i.condition)
                && (i.elsifs matches Some(v) ==> v.len() > 0),
            g_if(old(self).tokens@, old(self).imports@, old(self).st()) == outcome(
                r,
                |e: Expression| view_expr(e),
                final(self).st(),
            ),
        decreases old(self).left(), 8int,
    {
        if !matches!(self.cur(), Token::If) {
            return Err(self.unexpected("expected if"));
        }
        self.advance();
        let condition = self.parse_expr()?;
        let block = self.parse_block()?;
        let elsifs = self.parse_els_ifs()?;
        let els = if matches!(self.cur(), Token::Else) {
            self.advance();
            Some(self.parse_block()?)
        } else {
            None
        };
        let i = If { condition: Box::new(condition), block, elsifs, els };
        proof {
            lemma_view_if(i);
        }
        Ok(Expression::If(i))
    }

    /// The `else if` clauses after a conditional's block: `None` when there is
    /// none, otherwise all of them in order.
    pub fn parse_els_ifs(&mut self) -> (r: Result<Option<Vec<ElseIf>>, ParserError>)
        requires
            old(self).wf(),
        ensures
            old(self).keeps(final(self)),
            r is Ok ==> final(self).scopes@ == old(self).scopes@,
            r matches Ok(o) ==> (o is None <==> !(old(self).cur_spec() is Else
                && old(self).peek_spec() is If)),
            r matches Ok(o) ==> (o matches Some(v) ==> v.len() > 0),
            r matches Ok(o) ==> (o is None ==> *final(self) == *old(self)),
            r is Ok ==> !(final(self).cur_spec() is Else && final(self).peek_spec() is If),
            g_elsifs(old(self).tokens@, old(self).imports@, old(self).st()) == outcome(
                r,
                |o: Option<Vec<ElseIf>>| match o {
                    Some(v) => view_elsifs(v@),
                    None => Seq::empty(),
                },
                final(self).st(),
            ),
        decreases old(self).left(), 7int,
    {
        if !(matches!(self.cur(), Token::Else) && matches!(self.peek(), Token::If)) {
            return Ok(None);
        }
        let ghost t = old(self).tokens@;
        let ghost m = old(self).imports@;
        let mut elsifs: Vec<ElseIf> = Vec::new();
        proof {
            lemma_prefixed_empty(g_elsifs(t, m, self.st()));
        }
        assert(view_elsifs(elsifs@) =~= Seq::<(ExprV, Seq<AstV>)>::empty());
        while matches!(self.cur(), Token::Else) && matches!(self.peek(), Token::If)
            invariant
                old(self).keeps(self),
                self.scopes@ == old(self).scopes@,
                old(self).cur_spec() is Else && old(self).peek_spec() is If,
                elsifs.len() == 0 ==> *self == *old(self),
                t == old(self).tokens@,
                m == old(self).imports@,
                g_elsifs(t, m, old(self).st()) == prefixed(view_elsifs(elsifs@), g_elsifs(t, m, self.st())),
            decreases self.left(),
        {
            let ghost acc = view_elsifs(elsifs@);
            self.advance();
            self.advance();
            let condition = self.parse_expr()?;
            let block = self.parse_block()?;
            let ei = ElseIf { condition: Box::new(condition), block };
            let ghost ev = (view_expr(*ei.condition), view_block(ei.block@));
            elsifs.push(ei);
            assert(view_elsifs(elsifs@) =~= acc.push(ev));
            proof {
                lemma_prefixed_push(acc, ev, g_elsifs(t, m, self.st()));
            }
        }
        assert(view_elsifs(elsifs@) + Seq::empty() =~= view_elsifs(elsifs@));
        Ok(Some(elsifs))
    }

    /// A structure declaration: its name is declared as a type; the fields up
    /// to the closing brace are skipped.
    pub fn parse_struct_def(&mut self) -> (r: Result<Statement, ParserError>)
        requires
            old(self).wf(),
        ensures
            old(self).keeps(final(self)),
            final(self).scopes == old(self).scopes,
            final(self).funcs == old(self).funcs,
            r is Ok ==> final(self).pos > old(self).pos,
            r matches Ok(st) ==> st matches Statement::Struct(d) && names_of(final(self).types@)
                == names_of(old(self).types@).push(d.name@) && d.fields.len() == 0,
            g_struct(old(self).tokens@, old(self).st()) == outcome(
                r,
                |x: Statement| view_ast(Ast::Statement(x)),
                final(self).st(),
            ),
    {
        if !matches!(self.cur(), Token::Struct) {
            return Err(self.unexpected("expected struct"));
        }
        self.advance();
        let ghost s1 = self.st();
        let name = match self.ident_text() {
            Some(n) => n,
            None => {
                return Err(self.unexpected("expected a structure name"));
            },
        };
        self.advance();
        let ghost t = old(self).tokens@;
        let ghost s2 = self.st();
        while !matches!(self.cur(), Token::RBrace)
            invariant
                old(self).keeps(self),
                self.scopes == old(self).scopes,
                self.funcs == old(self).funcs,
                self.types == old(self).types,
                self.pos > old(self).pos,
                t == old(self).tokens@,
                old(self).cur_spec() is Struct,
                s1 == adv(t, old(self).st()),
                s2 == adv(t, s1),
                crate::grammar::tok(t, s1) matches Token::Ident(i) && i@ == name@,
                g_skip(t, s2) == g_skip(t, self.st()),
            decreases self.left(),
        {
            if matches!(self.cur(), Token::Eof) {
                return Err(self.unexpected("expected right brace"));
            }
            self.advance();
        }
        self.advance();
        let tname = name.clone();
        self.types.push(tname);
        assert(names_of(self.types@) =~= names_of(old(self).types@).push(name@));
        let d = Struct { name, fields: Vec::new() };
        assert(view_args(d.fields@) =~= Seq::<(Seq<char>, Seq<char>)>::empty());
        Ok(Statement::Struct(d))
    }

    /// An import directive, `import "path";`: every function the module
    /// exports enters the function table.
    pub fn parse_import(&mut self) -> (r: Result<Statement, ParserError>)
        requires
            old(self).wf(),
        ensures
            old(self).keeps(final(self)),
            final(self).scopes == old(self).scopes,
            final(self).types == old(self).types,
            r is Ok ==> final(self).pos > old(self).pos,
            g_import(old(self).tokens@, old(self).imports@, old(self).st()) == outcome(
                r,
                |x: Statement| view_ast(Ast::Statement(x)),
                final(self).st(),
            ),
            r matches Ok(st) ==> st matches Statement::Import(im) && exists|k: int|
                0 <= k < old(self).imports.len() && #[trigger] old(self).imports@[k].path@ == im.path@
                    && old(self).imports@[k].read is Ok && names_of(final(self).funcs@)
                    == names_of(old(self).funcs@) + exported_names(old(self).imports@[k]),
    {
        if !matches!(self.cur(), Token::Import) {
            return Err(self.unexpected("expected import"));
        }
        self.advance();
        let ghost t = old(self).tokens@;
        let ghost s1 = self.st();
        let path = match self.cur() {
            Token::String(p) => p.clone(),
            _ => {
                return Err(self.unexpected("expected path"));
            },
        };
        self.advance();
        let ghost s2 = self.st();
        let mut k: usize = 0;
        assert(self.imports@.subrange(0, 0) =~= Seq::<ImportedModule>::empty());
        while k < self.imports.len() && !(self.imports[k].path == path)
            invariant
                k <= self.imports.len(),
                find_module(self.imports@.subrange(0, k as int), path@) is None,
            decreases self.imports.len() - k,
        {
            assert(self.imports@.subrange(0, k + 1).drop_last() =~= self.imports@.subrange(0, k as int));
            k = k + 1;
        }
        if k < self.imports.len() {
            assert(self.imports@.subrange(0, k + 1).drop_last() =~= self.imports@.subrange(0, k as int));
            proof {
                lemma_find_module_prefix(self.imports@, k + 1, path@);
            }
        } else {
            assert(self.imports@.subrange(0, k as int) =~= self.imports@);
        }
        if k == self.imports.len() {
            let msg = message("import not resolved: ", path.as_str());
            return Err(self.make_err(msg));
        }
        match &self.imports[k].read {
            Ok(_) => {},
            Err(e) => {
                let msg = e.clone();
                return Err(self.make_err(msg));
            },
        }
        let n = self.imports[k].exports.len();
        let mut j: usize = 0;
        let ghost module = self.imports@[k as int];
        assert(names_of(self.funcs@) =~= names_of(old(self).funcs@) + exported_names(module).subrange(0, 0));
        while j < n
            invariant
                old(self).keeps(self),
                self.scopes == old(self).scopes,
                self.types == old(self).types,
                self.pos > old(self).pos,
                k < self.imports.len(),
                module == self.imports@[k as int],
                n == module.exports.len(),
                j <= n,
                names_of(self.funcs@) == names_of(old(self).funcs@) + exported_names(module).subrange(0, j as int),
                g_exports(module.exports@, 0, names_of(old(self).funcs@)) == g_exports(module.exports@, j as int, names_of(self.funcs@)),
                t == old(self).tokens@,
                old(self).cur_spec() is Import,
                s1 == adv(t, old(self).st()),
                crate::grammar::tok(t, s1) matches Token::String(p) && p@ == path@,
                s2 == adv(t, s1),
                find_module(self.imports@, path@) == Some(k as int),
                module.read is Ok,
                self.st() == (PState { funcs: names_of(self.funcs@), ..s2 }),
            decreases n - j,
        {
            let kind = crate::text::chars_of(self.imports[k].exports[j].kind.as_str());
            if !crate::text::text_is(&kind, "func") {
                let msg = message("unexpected export kind ", self.imports[k].exports[j].kind.as_str());
                return Err(self.make_err(msg));
            }
            let fname = self.imports[k].exports[j].name.clone();
            let ghost before = names_of(self.funcs@);
            self.funcs.push(fname);
            assert(names_of(self.funcs@) =~= before.push(module.exports@[j as int].name@));
            assert(exported_names(module).subrange(0, j + 1) =~= exported_names(module).subrange(0, j as int).push(module.exports@[j as int].name@));
            assert(names_of(self.funcs@) =~= names_of(old(self).funcs@) + exported_names(module).subrange(0, j + 1));
            j = j + 1;
        }
        assert(exported_names(module).subrange(0, n as int) =~= exported_names(module));
        if !matches!(self.cur(), Token::SemiColin) {
            return Err(self.unexpected("missing semicolon"));
        }
        self.advance();
        Ok(Statement::Import(Import { path }))
    }
}

/// The names a module exports, in order.
pub open spec fn exported_names(m: ImportedModule) -> Seq<Seq<char>> {
    Seq::new(m.exports.len() as nat, |k: int| m.exports@[k].name@)
}

/// What an item of a program or block can be: a function, structure or import
/// statement, a conditional, or an expression of one value or one operation.
pub open spec fn is_section(a: Ast) -> bool {
    match a {
        Ast::Statement(Statement::Function(_)) => true,
        Ast::Statement(Statement::Struct(_)) => true,
        Ast::Statement(Statement::Import(_)) => true,
        Ast::Expression(Expression::If(_)) => true,
        Ast::Expression(e) => expr_shape(e),
        _ => false,
    }
}

/// The kind of item parsed follows from the token it starts with.
pub open spec fn section_kind(t: Token, a: Ast) -> bool {
    match t {
        Token::Fn => a matches Ast::Statement(Statement::Function(_)),
        Token::Ident(_) => a matches Ast::Expression(e) && expr_shape(e),
        Token::If => a matches Ast::Expression(Expression::If(_)),
        Token::Struct => a matches Ast::Statement(Statement::Struct(_)),
        Token::Import => a matches Ast::Statement(Statement::Import(_)),
        _ => false,
    }
}

/// An expression is a value, or one binary operation on two values.
pub open spec fn expr_shape(e: Expression) -> bool {
    match e {
        Expression::Value(_) => true,
        Expression::BinaryOperation(l, _, r) => (*l is Value) && (*r is Value),
        _ => false,
    }
}

proof fn lemma_string_view(c: TypeConstr, s: Seq<char>)
    requires
        is_string_construction(c, s),
    ensures
        view_value(Value::TypeConstr(c)) == string_value(s),
{
    let x = view_value(Value::TypeConstr(c));
    let a = c.values@[0].1->Arr_0;
    let f = x->Constr_1;
    let want = string_value(s)->Constr_1;
    assert(f[0].1->Arr_0 =~= want[0].1->Arr_0) by {
        assert(f[0].1 is Arr);
        assert(f[0].1->Arr_0.len() == a.len());
        assert forall|j: int| 0 <= j < s.len() implies f[0].1->Arr_0[j] == want[0].1->Arr_0[j] by {
            assert(a@[j] matches Value::I32(_));
            assert(f[0].1->Arr_0[j] == view_value(a@[j]));
        }
    }
    assert(f =~= want);
}

/// The construction of a string: a value of type `String` whose one field,
/// also named `String`, is the array of the characters' code points.
pub open spec fn is_string_construction(c: TypeConstr, s: Seq<char>) -> bool {
    &&& c.name@ == "String"@
    &&& c.values.len() == 1
    &&& c.values@[0].0@ == "String"@
    &&& c.values@[0].1 matches Constant::Arr(a) && a.len() == s.len() && forall|k: int|
        0 <= k < s.len() ==> (#[trigger] a@[k] matches Value::I32(x) && x == s[k] as u32 as i32)
}

/// The string literal `s` as a construction of its code points.
pub fn string_construction(s: &String) -> (r: TypeConstr)
    ensures
        is_string_construction(r, s@),
{
    let chars = crate::text::chars_of(s.as_str());
    let mut arr: Vec<Value> = Vec::new();
    let mut i: usize = 0;
    while i < chars.len()
        invariant
            i <= chars.len(),
            chars@ == s@,
            arr.len() == i,
            forall|k: int| 0 <= k < i ==> (#[trigger] arr@[k] matches Value::I32(x) && x == s@[k] as u32 as i32),
        decreases chars.len() - i,
    {
        arr.push(Value::I32(chars[i] as u32 as i32));
        i = i + 1;
    }
    let mut values: Vec<(String, Constant)> = Vec::new();
    values.push((owned("String"), Constant::Arr(arr)));
    let name = owned("String");
    TypeConstr { name, values }
}

/// The paths named by import directives, in order: the text of each string
/// token that directly follows an `import` keyword.
pub open spec fn import_paths_of(t: Seq<Token>) -> Seq<Seq<char>>
    decreases t.len(),
{
    if t.len() < 2 {
        Seq::empty()
    } else {
        let p = import_paths_of(t.drop_last());
        match (t[t.len() - 2], t.last()) {
            (Token::Import, Token::String(s)) => p.push(s@),
            _ => p,
        }
    }
}

/// The paths that the import directives among `tokens` name, so that the
/// caller can read those modules before parsing.
pub fn import_paths(tokens: &Vec<Token>) -> (r: Vec<String>)
    ensures
        names_of(r@) == import_paths_of(tokens@),
{
    let mut r: Vec<String> = Vec::new();
    if tokens.len() < 2 {
        assert(names_of(r@) =~= import_paths_of(tokens@));
        return r;
    }
    let mut i: usize = 1;
    assert(names_of(r@) =~= import_paths_of(tokens@.subrange(0, 1)));
    while i < tokens.len()
        invariant
            1 <= i <= tokens.len(),
            names_of(r@) == import_paths_of(tokens@.subrange(0, i as int)),
        decreases tokens.len() - i,
    {
        let ghost pre = tokens@.subrange(0, i + 1);
        assert(pre.drop_last() =~= tokens@.subrange(0, i as int));
        assert(pre[pre.len() - 2] == tokens@[i - 1]);
        assert(pre.last() == tokens@[i as int]);
        if matches!(tokens[i - 1], Token::Import) {
            match &tokens[i] {
                Token::String(s) => {
                    let ghost before = names_of(r@);
                    r.push(s.clone());
                    assert(names_of(r@) =~= before.push(s@));
                },
                _ => {},
            }
        }
        i = i + 1;
    }
    assert(tokens@.subrange(0, i as int) =~= tokens@);
    r
}

/// Parses a program: the tokens, line breaks included, and the modules that
/// its import directives name. A missing end marker is supplied. Functions
/// may only be called once their definition is complete, so neither calls
/// ahead nor recursive calls resolve.
pub fn parse(tokens: Vec<Token>, imports: Vec<ImportedModule>) -> (r: Result<Vec<Ast>, ParserError>)
    ensures
        program_of(tokens@, imports@) == match r {
            Ok(p) => Ok(view_block(p@)),
            Err(e) => Err(err_of(e)),
        },
        r matches Ok(p) ==> forall|k: int| 0 <= k < p.len() ==> is_section(#[trigger] p@[k]),
        (forall|i: int| 0 <= i < tokens.len() ==> (#[trigger] tokens@[i] is NewLine || tokens@[i] is Eof))
            ==> (r matches Ok(p) && p.len() == 0),
{
    let ghost given = tokens@;
    let ghost m = imports@;
    let mut tokens = tokens;
    let ghost blank = forall|i: int| 0 <= i < tokens.len() ==> (#[trigger] tokens@[i] is NewLine || tokens@[i] is Eof);
    if tokens.len() == 0 || !matches!(tokens[tokens.len() - 1], Token::Eof) {
        tokens.push(Token::Eof);
    }
    let ghost t = tokens@;
    assert(t == ended(given));
    let mut pos: usize = 0;
    let mut line: u32 = 1;
    while matches!(tokens[pos], Token::NewLine)
        invariant
            tokens.len() > 0,
            tokens@.last() is Eof,
            pos < tokens.len(),
            line >= 1,
            tokens@ == t,
            skip_newlines(t, 0) == skip_newlines(t, pos as int),
            line as int == (if 1 + pos > u32::MAX { u32::MAX as int } else { 1 + pos }),
            blank ==> (forall|k: int| 0 <= k < tokens.len() ==> (#[trigger] tokens@[k] is NewLine || tokens@[k] is Eof)),
        decreases tokens.len() - pos,
    {
        if line < u32::MAX {
            line = line + 1;
        }
        pos = pos + 1;
    }
    let mut types: Vec<String> = Vec::new();
    types.push(owned("i32"));
    let mut parser = Parser {
        tokens,
        pos,
        funcs: Vec::new(),
        scopes: Scopes::new(),
        types,
        line,
        imports,
    };
    assert(names_of(parser.funcs@) =~= Seq::<Seq<char>>::empty());
    assert(names_of(parser.types@) =~= seq!["i32"@]);
    assert(parser.st() == start_state(t));
    parser.parse()
}

} // verus!
