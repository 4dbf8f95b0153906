use vstd::prelude::*;

use crate::token::Token;

verus! {

/// A node of the syntax tree.
#[derive(Debug)]
pub enum Ast {
    Expression(Expression),
    Statement(Statement),
}

#[derive(Debug)]
pub enum Expression {
    Value(Value),
    BinaryOperation(Box<Expression>, Bop, Box<Expression>),
    UnaryOperation(Uop, Box<Expression>),
    If(If),
}

#[derive(Debug)]
pub enum Statement {
    Function(Function),
    Struct(Struct),
    Enum(Enum),
    Let(Let),
    Import(Import),
}

/// A variable binding; reserved, not produced by the parser.
#[derive(Debug)]
pub struct Let {
    pub name: String,
    pub tp: Type,
    pub type_infered: bool,
    pub value: Expression,
}

/// An enumeration; reserved, with no content yet.
#[derive(Debug, Clone)]
pub struct Enum {}

/// A structure declaration; its fields are not recorded yet.
#[derive(Debug, Clone)]
pub struct Struct {
    pub name: String,
    pub fields: Vec<Arg>,
}

#[derive(Debug)]
pub struct Function {
    pub name: String,
    pub args: Vec<Arg>,
    pub ret_tp: Type,
    pub body: Vec<Ast>,
}

#[derive(Debug, Clone)]
pub struct Arg {
    pub name: String,
    pub tp: Type,
}

#[derive(Debug, Clone)]
pub struct Type {
    pub name: String,
}

/// A value. A fractional literal is kept as its text.
#[derive(Debug)]
pub enum Value {
    F32(String),
    I32(i32),
    TypeConstr(TypeConstr),
    Var(String),
    FnCall(FnCall),
}

/// The construction of a value of a named type, field by field; field names
/// are distinct.
#[derive(Debug)]
pub struct TypeConstr {
    pub name: String,
    pub values: Vec<(String, Constant)>,
}

#[derive(Debug)]
pub enum Constant {
    Value(Value),
    Arr(Vec<Value>),
}

#[derive(Debug)]
pub struct FnCall {
    pub name: String,
    pub args: Vec<Expression>,
}

#[derive(Debug, Clone, Copy, PartialEq, Eq, Structural)]
pub enum Bop {
    Plus,
    Minus,
    Slash,
    Star,
    Eq,
    NotEq,
    Gt,
    Lt,
    GtEq,
    LtEq,
    Carret,
}

/// Unary operators; reserved, the parser produces no unary operation yet.
#[derive(Debug, Clone, Copy, PartialEq, Eq, Structural)]
pub enum Uop {
    Not,
}

#[derive(Debug)]
pub struct If {
    pub condition: Box<Expression>,
    pub block: Vec<Ast>,
    pub elsifs: Option<Vec<ElseIf>>,
    pub els: Option<Vec<Ast>>,
}

#[derive(Debug)]
pub struct ElseIf {
    pub condition: Box<Expression>,
    pub block: Vec<Ast>,
}

/// A directive that brings in the functions of an already lowered module.
#[derive(Debug, Clone)]
pub struct Import {
    pub path: String,
}

/// The binary operator a token stands for.
pub open spec fn bop_of(t: Token) -> Option<Bop> {
    match t {
        Token::Plus => Some(Bop::Plus),
        Token::Minus => Some(Bop::Minus),
        Token::Slash => Some(Bop::Slash),
        Token::Star => Some(Bop::Star),
        Token::EqTo => Some(Bop::Eq),
        Token::NotEq => Some(Bop::NotEq),
        Token::Gt => Some(Bop::Gt),
        Token::Lt => Some(Bop::Lt),
        Token::GtEq => Some(Bop::GtEq),
        Token::LtEq => Some(Bop::LtEq),
        Token::Carret => Some(Bop::Carret),
        _ => None,
    }
}

impl Bop {
    pub fn from_token(token: &Token) -> (r: Option<Bop>)
        ensures
            r == bop_of(*token),
    {
        match token {
            Token::Plus => Some(Bop::Plus),
            Token::Minus => Some(Bop::Minus),
            Token::Slash => Some(Bop::Slash),
            Token::Star => Some(Bop::Star),
            Token::EqTo => Some(Bop::Eq),
            Token::NotEq => Some(Bop::NotEq),
            Token::Gt => Some(Bop::Gt),
            Token::Lt => Some(Bop::Lt),
            Token::GtEq => Some(Bop::GtEq),
            Token::LtEq => Some(Bop::LtEq),
            Token::Carret => Some(Bop::Carret),
            _ => None,
        }
    }
}

// The syntax tree is recursive through vectors, so its copies are made by
// these functions rather than by derived impls.

fn clone_block(b: &Vec<Ast>) -> (r: Vec<Ast>)
    decreases b, 0int,
{
    let mut v: Vec<Ast> = Vec::new();
    let mut i: usize = 0;
    while i < b.len()
        decreases b.len() - i,
    {
        v.push(clone_ast(&b[i]));
        i = i + 1;
    }
    v
}

fn clone_exprs(b: &Vec<Expression>) -> (r: Vec<Expression>)
    decreases b, 0int,
{
    let mut v: Vec<Expression> = Vec::new();
    let mut i: usize = 0;
    while i < b.len()
        decreases b.len() - i,
    {
        v.push(clone_expr(&b[i]));
        i = i + 1;
    }
    v
}

fn clone_values(b: &Vec<Value>) -> (r: Vec<Value>)
    decreases b, 0int,
{
    let mut v: Vec<Value> = Vec::new();
    let mut i: usize = 0;
    while i < b.len()
        decreases b.len() - i,
    {
        v.push(clone_value(&b[i]));
        i = i + 1;
    }
    v
}

fn clone_fields(b: &Vec<(String, Constant)>) -> (r: Vec<(String, Constant)>)
    decreases b, 0int,
{
    let mut v: Vec<(String, Constant)> = Vec::new();
    let mut i: usize = 0;
    while i < b.len()
        decreases b.len() - i,
    {
        let c = match &b[i].1 {
            Constant::Value(x) => Constant::Value(clone_value(x)),
            Constant::Arr(a) => Constant::Arr(clone_values(a)),
        };
        v.push((b[i].0.clone(), c));
        i = i + 1;
    }
    v
}

fn clone_elsifs(b: &Vec<ElseIf>) -> (r: Vec<ElseIf>)
    decreases b, 0int,
{
    let mut v: Vec<ElseIf> = Vec::new();
    let mut i: usize = 0;
    while i < b.len()
        decreases b.len() - i,
    {
        let c = ElseIf { condition: Box::new(clone_expr(&b[i].condition)), block: clone_block(&b[i].block) };
        v.push(c);
        i = i + 1;
    }
    v
}

fn clone_args(b: &Vec<Arg>) -> (r: Vec<Arg>) {
    let mut v: Vec<Arg> = Vec::new();
    let mut i: usize = 0;
    while i < b.len()
        decreases b.len() - i,
    {
        v.push(Arg { name: b[i].name.clone(), tp: Type { name: b[i].tp.name.clone() } });
        i = i + 1;
    }
    v
}

fn clone_function(f: &Function) -> (r: Function)
    decreases f, 0int,
{
    Function {
        name: f.name.clone(),
        args: clone_args(&f.args),
        ret_tp: Type { name: f.ret_tp.name.clone() },
        body: clone_block(&f.body),
    }
}

fn clone_ast(a: &Ast) -> (r: Ast)
    decreases a, 1int,
{
    match a {
        Ast::Expression(e) => Ast::Expression(clone_expr(e)),
        Ast::Statement(st) => Ast::Statement(clone_statement(st)),
    }
}

fn clone_statement(st: &Statement) -> (r: Statement)
    decreases st, 0int,
{
    match st {
        Statement::Function(f) => Statement::Function(clone_function(f)),
        Statement::Struct(d) => Statement::Struct(Struct { name: d.name.clone(), fields: clone_args(&d.fields) }),
        Statement::Enum(_) => Statement::Enum(Enum {}),
        Statement::Let(l) => Statement::Let(clone_let(l)),
        Statement::Import(im) => Statement::Import(Import { path: im.path.clone() }),
    }
}

fn clone_let(l: &Let) -> (r: Let)
    decreases l, 0int,
{
    Let {
        name: l.name.clone(),
        tp: Type { name: l.tp.name.clone() },
        type_infered: l.type_infered,
        value: clone_expr(&l.value),
    }
}

fn clone_expr(e: &Expression) -> (r: Expression)
    decreases e, 0int,
{
    match e {
        Expression::Value(v) => Expression::Value(clone_value(v)),
        Expression::BinaryOperation(l, op, r) => Expression::BinaryOperation(
            Box::new(clone_expr(l)),
            *op,
            Box::new(clone_expr(r)),
        ),
        Expression::UnaryOperation(op, x) => Expression::UnaryOperation(*op, Box::new(clone_expr(x))),
        Expression::If(i) => Expression::If(clone_if(i)),
    }
}

fn clone_if(i: &If) -> (r: If)
    decreases i, 0int,
{
    If {
        condition: Box::new(clone_expr(&i.condition)),
        block: clone_block(&i.block),
        elsifs: match &i.elsifs {
            Some(v) => Some(clone_elsifs(v)),
            None => None,
        },
        els: match &i.els {
            Some(b) => Some(clone_block(b)),
            None => None,
        },
    }
}

fn clone_value(v: &Value) -> (r: Value)
    decreases v, 0int,
{
    match v {
        Value::F32(t) => Value::F32(t.clone()),
        Value::I32(x) => Value::I32(*x),
        Value::TypeConstr(c) => Value::TypeConstr(TypeConstr { name: c.name.clone(), values: clone_fields(&c.values) }),
        Value::Var(n) => Value::Var(n.clone()),
        Value::FnCall(c) => Value::FnCall(FnCall { name: c.name.clone(), args: clone_exprs(&c.args) }),
    }
}

impl Clone for Ast {
    fn clone(&self) -> Self {
        clone_ast(self)
    }
}

impl Clone for Expression {
    fn clone(&self) -> Self {
        clone_expr(self)
    }
}

impl Clone for Statement {
    fn clone(&self) -> Self {
        clone_statement(self)
    }
}

impl Clone for Let {
    fn clone(&self) -> Self {
        clone_let(self)
    }
}

impl Clone for Function {
    fn clone(&self) -> Self {
        clone_function(self)
    }
}

impl Clone for Value {
    fn clone(&self) -> Self {
        clone_value(self)
    }
}

impl Clone for If {
    fn clone(&self) -> Self {
        clone_if(self)
    }
}

impl Clone for TypeConstr {
    fn clone(&self) -> Self {
        TypeConstr { name: self.name.clone(), values: clone_fields(&self.values) }
    }
}

impl Clone for Constant {
    fn clone(&self) -> Self {
        match self {
            Constant::Value(x) => Constant::Value(clone_value(x)),
            Constant::Arr(a) => Constant::Arr(clone_values(a)),
        }
    }
}

impl Clone for FnCall {
    fn clone(&self) -> Self {
        FnCall { name: self.name.clone(), args: clone_exprs(&self.args) }
    }
}

impl Clone for ElseIf {
    fn clone(&self) -> Self {
        ElseIf { condition: Box::new(clone_expr(&self.condition)), block: clone_block(&self.block) }
    }
}

} // verus!
