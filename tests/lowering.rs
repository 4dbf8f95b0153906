use plang::ast::{Ast, Constant, Expression, Function, Import, Statement, Type, TypeConstr, Value};
use plang::compiler::{compile, compile_module_body, compile_type_construction, indent};

fn text(lines: Vec<Vec<char>>) -> Vec<String> {
    lines.into_iter().map(|l| l.into_iter().collect()).collect()
}

#[test]
fn string_construction_lines() {
    let c = TypeConstr {
        name: "String".to_string(),
        values: vec![(
            "String".to_string(),
            Constant::Arr(vec![Value::I32('a' as i32), Value::I32('b' as i32)]),
        )],
    };
    let lines = text(compile_type_construction(&c).ok().unwrap());
    assert_eq!(
        lines,
        vec![
            "(i32.store (i32.const ~type-String~) (i32.const 2))",
            "(i32.store (i32.const ~type-String+4~) (i32.const 97))",
            "(i32.store (i32.const ~type-String+8~) (i32.const 98))",
            "(i32.const ~type-String~)",
        ]
    );
}

#[test]
fn other_constructions_are_unsupported() {
    let c = TypeConstr { name: "Point".to_string(), values: Vec::new() };
    assert!(compile_type_construction(&c).is_err());
    let d = TypeConstr {
        name: "String".to_string(),
        values: vec![("String".to_string(), Constant::Value(Value::I32(1)))],
    };
    assert!(compile_type_construction(&d).is_err());
}

#[test]
fn nested_function_is_not_lowered() {
    let inner = Function {
        name: "g".to_string(),
        args: Vec::new(),
        ret_tp: Type { name: "()".to_string() },
        body: Vec::new(),
    };
    let outer = Function {
        name: "f".to_string(),
        args: Vec::new(),
        ret_tp: Type { name: "()".to_string() },
        body: vec![Ast::Statement(Statement::Function(inner))],
    };
    assert!(compile(vec![Ast::Statement(Statement::Function(outer))], Vec::new()).is_err());
}

#[test]
fn top_level_expression_is_not_lowered() {
    let e = Ast::Expression(Expression::Value(Value::I32(1)));
    assert!(compile(vec![e], Vec::new()).is_err());
}

#[test]
fn import_without_module_is_an_error() {
    let im = Ast::Statement(Statement::Import(Import { path: "x.wat".to_string() }));
    assert!(compile(vec![im], Vec::new()).is_err());
}

#[test]
fn negative_constant() {
    let f = Function {
        name: "f".to_string(),
        args: Vec::new(),
        ret_tp: Type { name: "()".to_string() },
        body: vec![Ast::Expression(Expression::Value(Value::I32(-7)))],
    };
    assert_eq!(
        compile(vec![Ast::Statement(Statement::Function(f))], Vec::new()).ok().unwrap(),
        "(module\n(func $f\n(i32.const -7)\n)\n)"
    );
}

#[test]
fn module_body_strips_the_wrapper() {
    let body: String = compile_module_body("  (module\n  (func $a)\n)\n").into_iter().collect();
    assert_eq!(body, "(func $a)\n");
    let plain: String = compile_module_body("(func $b)").into_iter().collect();
    assert_eq!(plain, "(func $b)\n");
    let empty: String = compile_module_body("(module)").into_iter().collect();
    assert_eq!(empty, "\n");
}

#[test]
fn indentation() {
    assert_eq!(indent(0), "");
    assert_eq!(indent(2), "        ");
    assert_eq!(indent(-3), "");
}
