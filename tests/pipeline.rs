use plang::ast::{Ast, Bop, Expression, Statement, Value};
use plang::compiler::compile;
use plang::lexer::lex;
use plang::parser::{import_paths, parse, Export, ImportedModule, Parser, ParserError};
use plang::scopes::Scopes;
use plang::token::{Number, Token};

fn tokens(src: &str) -> Vec<Token> {
    lex(src).into_iter().filter(|t| !t.is_whitespace()).collect()
}

fn parse_src(src: &str) -> Result<Vec<Ast>, ParserError> {
    parse(tokens(src), Vec::new())
}

fn build(src: &str) -> String {
    let ast = parse_src(src).ok().expect("parses");
    compile(ast, Vec::new()).ok().expect("lowers")
}

fn parse_err(src: &str) -> ParserError {
    match parse_src(src) {
        Ok(_) => panic!("expected a parse error"),
        Err(e) => e,
    }
}

#[test]
fn empty_main_is_the_entry_point() {
    assert_eq!(build("fn main() { }"), "(module\n(func $main (export \"_start\")\n)\n)");
}

#[test]
fn empty_program() {
    assert_eq!(parse_src("").ok().unwrap().len(), 0);
    assert_eq!(parse(vec![Token::NewLine], Vec::new()).ok().unwrap().len(), 0);
    assert_eq!(build(""), "(module\n)");
}

#[test]
fn parameters_and_result() {
    assert_eq!(
        build("fn add(a: i32, b: i32): i32 { }"),
        "(module\n(func $add (param $a i32) (param $b i32) (result i32)\n)\n)"
    );
}

#[test]
fn call_after_definition_resolves() {
    let out = build("fn add(a: i32, b: i32): i32 { }\nfn main() { add(1, 2) }");
    assert_eq!(
        out,
        "(module\n(func $add (param $a i32) (param $b i32) (result i32)\n)\n\
         (func $main (export \"_start\")\n(call $add (i32.const 1)(i32.const 2))\n)\n)"
    );
}

#[test]
fn call_before_definition_fails() {
    let e = parse_err("fn main() { add(1, 2) }\nfn add(a: i32, b: i32): i32 { }");
    assert_eq!(e.msg, "unknown identifier add");
    assert_eq!(e.line, 1);
}

#[test]
fn recursive_call_fails() {
    let e = parse_err("fn f() {\n f()\n}");
    assert_eq!(e.msg, "unknown identifier f");
    assert_eq!(e.line, 2);
}

#[test]
fn parameter_visible_in_nested_blocks() {
    assert!(parse_src("fn f(x: i32) { if x { x } }").is_ok());
}

#[test]
fn name_unresolvable_after_its_block() {
    let e = parse_err("fn f(x: i32) { x }\nfn g() { x }");
    assert_eq!(e.msg, "unknown identifier x");
    assert_eq!(e.line, 2);
}

#[test]
fn inner_parameter_shadows_outer() {
    let ast = parse_src("fn f(x: i32) { fn g(x: i32) { x } x }").ok().unwrap();
    match &ast[0] {
        Ast::Statement(Statement::Function(f)) => {
            assert_eq!(f.body.len(), 2);
            match &f.body[0] {
                Ast::Statement(Statement::Function(g)) => match &g.body[0] {
                    Ast::Expression(Expression::Value(Value::Var(v))) => assert_eq!(v, "x"),
                    _ => panic!("expected a variable"),
                },
                _ => panic!("expected a function"),
            }
        },
        _ => panic!("expected a function"),
    }
}

#[test]
fn unknown_type_is_rejected() {
    let e = parse_err("fn f(x: u8) { }");
    assert_eq!(e.msg, "type not defined u8");
}

#[test]
fn struct_declares_a_type() {
    assert!(parse_src("struct P { a: i32 }\nfn f(p: P) { }").is_ok());
    assert_eq!(build("struct P { a: i32 }"), "(module\n)");
}

#[test]
fn unexpected_token_is_an_error() {
    assert_eq!(parse_err("fn main() { }\n}").msg, "unexpected token }");
    assert_eq!(parse_err("fn f() { if , { } }").msg, "expected a value, found ,");
    assert_eq!(parse_err("fn main() {").msg, "expected right brace, found end of input");
    assert_eq!(parse_err("struct S {").msg, "expected right brace, found end of input");
    assert_eq!(parse_err("fn (").msg, "expected a function name, found (");
    assert_eq!(parse_err("fn f(a: i32,) { }").msg, "unexpected comma");
}

#[test]
fn string_literal_layout() {
    let out = build("fn print(s: i32) { }\nfn main() { print(\"ab\") }");
    assert_eq!(
        out,
        "(module\n(func $print (param $s i32)\n)\n(func $main (export \"_start\")\n\
         (i32.store (i32.const 0) (i32.const 2))\n\
         (i32.store (i32.const 4) (i32.const 97))\n\
         (i32.store (i32.const 8) (i32.const 98))\n\
         (call $print (i32.const 0))\n)\n)"
    );
}

#[test]
fn else_if_chain_nests() {
    let out = build(
        "fn a() { }\nfn b() { }\nfn c() { }\n\
         fn main() { if false { a() } else if true { b() } else { c() } }",
    );
    let main = "(func $main (export \"_start\")\n\
        (i32.const 0)\n(if\n(then\n(call $a )\n)\n\
        (else\n(i32.const 1)\n(if\n(then\n(call $b )\n)\n\
        (else\n(call $c )\n)\n)\n)\n)\n)\n";
    assert!(out.ends_with(&format!("{})", main)));
    assert_eq!(out.matches("(call $b )").count(), 1);
}

#[test]
fn equality_and_greater_than_are_lowered() {
    let out = build("fn f(x: i32) { if x == 1 { } if x > 2 { } }");
    assert_eq!(
        out,
        "(module\n(func $f (param $x i32)\n\
         (local.get $x)\n(i32.const 1)\n(i32.eq)\n(if\n(then\n)\n)\n\
         (local.get $x)\n(i32.const 2)\n(i32.gt_u)\n(if\n(then\n)\n)\n)\n)"
    );
}

#[test]
fn other_operators_are_not_yet_supported() {
    let ast = parse_src("fn f(x: i32) { x + 1 }").ok().unwrap();
    assert!(compile(ast, Vec::new()).is_err());
}

#[test]
fn fractional_numbers_are_not_yet_supported() {
    let ast = parse_src("fn f(x: i32) { if 1.5 { } }").ok().unwrap();
    assert!(compile(ast, Vec::new()).is_err());
}

#[test]
fn one_operator_per_expression() {
    let e = parse_err("fn f(x: i32) { x == 1 == 2 }");
    assert_eq!(e.msg, "unexpected token ==");
}

#[test]
fn expression_leaves_a_second_operator() {
    let mut p = Parser {
        tokens: vec![
            Token::Number(Number::I32(1)),
            Token::Plus,
            Token::Number(Number::I32(2)),
            Token::Plus,
            Token::Number(Number::I32(3)),
            Token::Eof,
        ],
        pos: 0,
        funcs: Vec::new(),
        scopes: Scopes::new(),
        types: Vec::new(),
        line: 1,
        imports: Vec::new(),
    };
    match p.parse_expr() {
        Ok(Expression::BinaryOperation(l, Bop::Plus, r)) => {
            assert!(matches!(*l, Expression::Value(Value::I32(1))));
            assert!(matches!(*r, Expression::Value(Value::I32(2))));
        },
        _ => panic!("expected one binary operation"),
    }
    assert_eq!(p.pos, 3);
}

fn library_module() -> ImportedModule {
    ImportedModule {
        path: "lib.wat".to_string(),
        read: Ok("(module\n(func $ext (export \"ext\"))\n)\n".to_string()),
        exports: vec![Export { name: "ext".to_string(), kind: "func".to_string() }],
    }
}

#[test]
fn import_brings_functions_in() {
    let toks = tokens("import \"lib.wat\";\nfn main() { ext() }");
    assert_eq!(import_paths(&toks), vec!["lib.wat".to_string()]);
    let ast = parse(toks, vec![library_module()]).ok().expect("parses");
    let out = compile(ast, vec![library_module()]).ok().expect("lowers");
    assert_eq!(
        out,
        "(module\n(func $ext (export \"ext\"))\n(func $main (export \"_start\")\n(call $ext )\n)\n)"
    );
}

#[test]
fn unreadable_import_is_a_parse_error() {
    let m = ImportedModule {
        path: "gone.wat".to_string(),
        read: Err("No such file or directory".to_string()),
        exports: Vec::new(),
    };
    match parse(tokens("import \"gone.wat\";"), vec![m]) {
        Ok(_) => panic!("expected an error"),
        Err(e) => assert_eq!(e.msg, "No such file or directory"),
    }
    let e = parse_err("import \"other.wat\";");
    assert_eq!(e.msg, "import not resolved: other.wat");
}

#[test]
fn import_of_other_kind_is_rejected() {
    let m = ImportedModule {
        path: "lib.wat".to_string(),
        read: Ok("(module)".to_string()),
        exports: vec![Export { name: "mem".to_string(), kind: "memory".to_string() }],
    };
    match parse(tokens("import \"lib.wat\";"), vec![m]) {
        Ok(_) => panic!("expected an error"),
        Err(e) => assert_eq!(e.msg, "unexpected export kind memory"),
    }
}

#[test]
fn main_is_one_empty_function() {
    let ast = parse_src("fn main() { }").ok().unwrap();
    assert_eq!(ast.len(), 1);
    match &ast[0] {
        Ast::Statement(Statement::Function(f)) => {
            assert_eq!(f.name, "main");
            assert!(f.args.is_empty());
            assert_eq!(f.ret_tp.name, "()");
            assert!(f.body.is_empty());
        },
        _ => panic!("expected a function"),
    }
}

#[test]
fn nested_block_sees_the_parameter() {
    let ast = parse_src("fn f(x: i32) { if x { x } }").ok().unwrap();
    match &ast[0] {
        Ast::Statement(Statement::Function(f)) => {
            assert_eq!(f.args[0].name, "x");
            assert_eq!(f.args[0].tp.name, "i32");
            match &f.body[0] {
                Ast::Expression(Expression::If(i)) => {
                    assert!(matches!(&*i.condition, Expression::Value(Value::Var(v)) if v == "x"));
                    assert!(matches!(&i.block[0], Ast::Expression(Expression::Value(Value::Var(v))) if v == "x"));
                    assert!(i.elsifs.is_none());
                    assert!(i.els.is_none());
                },
                _ => panic!("expected a conditional"),
            }
        },
        _ => panic!("expected a function"),
    }
}

#[test]
fn a_tree_clones_to_an_equal_tree() {
    let ast = parse_src("struct P { }\nfn g(a: i32, b: i32) { }\nfn f(x: i32, p: P) { if x == 1 { g(x, 2) } else if x { g(\"ab\", 1.5) } else { } }")
        .ok()
        .unwrap();
    let copy = ast.clone();
    assert_eq!(format!("{:?}", ast), format!("{:?}", copy));
}
