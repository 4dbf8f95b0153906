use vstd::prelude::*;

use crate::text::{push_signed, push_str, signed_decimal};

verus! {

/// A lexical unit of source text.
#[derive(Debug, Clone, PartialEq)]
pub enum Token {
    Elegal,
    Eof,
    WhiteSpace(String),
    NewLine,
    LPeren,
    RPeren,
    LBrace,
    RBrace,
    Plus,
    Minus,
    Star,
    Slash,
    Carret,
    Coma,
    Dot,
    Eq,
    EqTo,
    NotEq,
    Not,
    Gt,
    Lt,
    GtEq,
    LtEq,
    Colin,
    SemiColin,
    Quote,
    Number(Number),
    String(String),
    Ident(String),
    Let,
    Fn,
    For,
    While,
    If,
    Else,
    Struct,
    Enum,
    Return,
    Break,
    Continue,
    Import,
    True,
    False,
}

/// A numeric literal. A literal with a decimal point is kept as its text, since
/// nothing here computes with fractional numbers.
#[derive(Debug, Clone, PartialEq)]
pub enum Number {
    F32(String),
    I32(i32),
}

/// The tokens that may stand between the two operands of an expression.
pub open spec fn is_operator_token(t: Token) -> bool {
    t is Plus || t is Minus || t is Slash || t is Star || t is Gt || t is Lt || t is GtEq
        || t is LtEq || t is Carret || t is Not || t is EqTo || t is NotEq
}

/// How a token is written in messages: its text, or a name for it.
pub open spec fn token_text(t: Token) -> Seq<char> {
    match t {
        Token::Elegal => "illegal character"@,
        Token::Eof => "end of input"@,
        Token::NewLine => "line break"@,
        Token::LPeren => "("@,
        Token::RPeren => ")"@,
        Token::LBrace => "{"@,
        Token::RBrace => "}"@,
        Token::Plus => "+"@,
        Token::Minus => "-"@,
        Token::Star => "*"@,
        Token::Slash => "/"@,
        Token::Carret => "^"@,
        Token::Coma => ","@,
        Token::Dot => "."@,
        Token::Eq => "="@,
        Token::EqTo => "=="@,
        Token::NotEq => "!="@,
        Token::Not => "!"@,
        Token::Gt => ">"@,
        Token::Lt => "<"@,
        Token::GtEq => ">="@,
        Token::LtEq => "<="@,
        Token::Colin => ":"@,
        Token::SemiColin => ";"@,
        Token::Quote => "'"@,
        Token::Let => "let"@,
        Token::Fn => "fn"@,
        Token::For => "for"@,
        Token::While => "while"@,
        Token::If => "if"@,
        Token::Else => "else"@,
        Token::Struct => "struct"@,
        Token::Enum => "enum"@,
        Token::Return => "return"@,
        Token::Break => "break"@,
        Token::Continue => "continue"@,
        Token::Import => "import"@,
        Token::True => "true"@,
        Token::False => "false"@,
        Token::WhiteSpace(s) => s@,
        Token::Number(Number::I32(v)) => signed_decimal(v as int),
        Token::Number(Number::F32(x)) => x@,
        Token::String(s) => "\""@ + s@ + "\""@,
        Token::Ident(s) => s@,
    }
}

impl Token {
    /// How the token is written in messages.
    pub fn text(&self) -> (r: Vec<char>)
        ensures
            r@ == token_text(*self),
    {
        let mut out: Vec<char> = Vec::new();
        match self {
            Token::Elegal => push_str(&mut out, "illegal character"),
            Token::Eof => push_str(&mut out, "end of input"),
            Token::NewLine => push_str(&mut out, "line break"),
            Token::LPeren => push_str(&mut out, "("),
            Token::RPeren => push_str(&mut out, ")"),
            Token::LBrace => push_str(&mut out, "{"),
            Token::RBrace => push_str(&mut out, "}"),
            Token::Plus => push_str(&mut out, "+"),
            Token::Minus => push_str(&mut out, "-"),
            Token::Star => push_str(&mut out, "*"),
            Token::Slash => push_str(&mut out, "/"),
            Token::Carret => push_str(&mut out, "^"),
            Token::Coma => push_str(&mut out, ","),
            Token::Dot => push_str(&mut out, "."),
            Token::Eq => push_str(&mut out, "="),
            Token::EqTo => push_str(&mut out, "=="),
            Token::NotEq => push_str(&mut out, "!="),
            Token::Not => push_str(&mut out, "!"),
            Token::Gt => push_str(&mut out, ">"),
            Token::Lt => push_str(&mut out, "<"),
            Token::GtEq => push_str(&mut out, ">="),
            Token::LtEq => push_str(&mut out, "<="),
            Token::Colin => push_str(&mut out, ":"),
            Token::SemiColin => push_str(&mut out, ";"),
            Token::Quote => push_str(&mut out, "'"),
            Token::Let => push_str(&mut out, "let"),
            Token::Fn => push_str(&mut out, "fn"),
            Token::For => push_str(&mut out, "for"),
            Token::While => push_str(&mut out, "while"),
            Token::If => push_str(&mut out, "if"),
            Token::Else => push_str(&mut out, "else"),
            Token::Struct => push_str(&mut out, "struct"),
            Token::Enum => push_str(&mut out, "enum"),
            Token::Return => push_str(&mut out, "return"),
            Token::Break => push_str(&mut out, "break"),
            Token::Continue => push_str(&mut out, "continue"),
            Token::Import => push_str(&mut out, "import"),
            Token::True => push_str(&mut out, "true"),
            Token::False => push_str(&mut out, "false"),
            Token::WhiteSpace(s) => push_str(&mut out, s.as_str()),
            Token::Number(Number::I32(v)) => push_signed(&mut out, *v as i64),
            Token::Number(Number::F32(x)) => push_str(&mut out, x.as_str()),
            Token::String(s) => {
                push_str(&mut out, "\"");
                push_str(&mut out, s.as_str());
                push_str(&mut out, "\"");
            },
            Token::Ident(s) => push_str(&mut out, s.as_str()),
        }
        out
    }

    pub fn is_eof(&self) -> (r: bool)
        ensures
            r == (*self is Eof),
    {
        match self {
            Token::Eof => true,
            _ => false,
        }
    }

    pub fn is_not_eof(&self) -> (r: bool)
        ensures
            r == !(*self is Eof),
    {
        match self {
            Token::Eof => false,
            _ => true,
        }
    }

    pub fn is_whitespace(&self) -> (r: bool)
        ensures
            r == (*self is WhiteSpace),
    {
        match self {
            Token::WhiteSpace(_) => true,
            _ => false,
        }
    }

    pub fn is_ident(&self) -> (r: bool)
        ensures
            r == (*self is Ident),
    {
        match self {
            Token::Ident(_) => true,
            _ => false,
        }
    }

    pub fn is_operator(&self) -> (r: bool)
        ensures
            r == is_operator_token(*self),
    {
        match self {
            Token::Plus | Token::Minus | Token::Slash | Token::Star | Token::Gt | Token::Lt
            | Token::GtEq | Token::LtEq | Token::Carret | Token::Not | Token::EqTo
            | Token::NotEq => true,
            _ => false,
        }
    }
}

} // verus!
