use twee::ast::Binop;
use twee::ast::Expr;
use twee::ast::FunctionDecl;
use twee::ast::Parameter;
use twee::ast::Return;
use twee::ast::Stmt;
use twee::ast::VariableDecl;
use twee::lexer::Lexer;
use twee::parser::Parser;

fn parse(source: &str) -> Result<Vec<Stmt>, String> {
    let mut parser = Parser::new(Lexer::new(source));
    parser.parse()
}

fn expression(source: &str) -> Expr {
    let mut stmts = parse(source).unwrap();
    assert_eq!(stmts.len(), 1);
    match stmts.remove(0) {
        Stmt::Expression(e) => e,
        other => panic!("no expression: {:?}", other),
    }
}

fn name(text: &str) -> Expr {
    Expr::Identifier(text.to_string())
}

fn binary(left: Expr, op: Binop, right: Expr) -> Expr {
    Expr::BinaryOp { left: Box::new(left), op, right: Box::new(right) }
}

#[test]
fn operators_that_bind_alike_group_from_the_left() {
    assert_eq!(
        expression("a - b - c"),
        binary(binary(name("a"), Binop::Sub, name("b")), Binop::Sub, name("c"))
    );
    assert_eq!(
        expression("a - b + c"),
        binary(binary(name("a"), Binop::Sub, name("b")), Binop::Add, name("c"))
    );
    assert_eq!(
        expression("a / b * c / d"),
        binary(
            binary(binary(name("a"), Binop::Div, name("b")), Binop::Mul, name("c")),
            Binop::Div,
            name("d")
        )
    );
}

#[test]
fn multiplication_binds_tighter_than_addition() {
    assert_eq!(
        expression("a + b * c"),
        binary(name("a"), Binop::Add, binary(name("b"), Binop::Mul, name("c")))
    );
    assert_eq!(
        expression("a * b + c"),
        binary(binary(name("a"), Binop::Mul, name("b")), Binop::Add, name("c"))
    );
    assert_eq!(
        expression("a + b * c - d"),
        binary(
            binary(name("a"), Binop::Add, binary(name("b"), Binop::Mul, name("c"))),
            Binop::Sub,
            name("d")
        )
    );
}

#[test]
fn parentheses_group_first() {
    assert_eq!(
        expression("(a + b) * c"),
        binary(binary(name("a"), Binop::Add, name("b")), Binop::Mul, name("c"))
    );
    assert_eq!(
        expression("a - (b - c)"),
        binary(name("a"), Binop::Sub, binary(name("b"), Binop::Sub, name("c")))
    );
    assert_eq!(expression("((x))"), name("x"));
}

#[test]
fn precedence_and_linking_of_the_operators() {
    assert_eq!(Binop::Add.precedence(), 1);
    assert_eq!(Binop::Sub.precedence(), 1);
    assert_eq!(Binop::Mul.precedence(), 2);
    assert_eq!(Binop::Div.precedence(), 2);
    for op in [Binop::Add, Binop::Sub, Binop::Mul, Binop::Div] {
        assert!(op.is_left_linked());
    }
}

#[test]
fn literals_and_calls() {
    assert_eq!(expression("42"), Expr::Number(42));
    assert_eq!(expression("12.75"), Expr::Number(12));
    assert_eq!(expression("0.99"), Expr::Number(0));
    assert_eq!(expression("\"hi\""), Expr::String("hi".to_string()));
    assert_eq!(
        expression("f()"),
        Expr::FunctionCall { callee: "f".to_string(), args: vec![] }
    );
    assert_eq!(
        expression("f(1, x, \"s\", g(2) + 3)"),
        Expr::FunctionCall {
            callee: "f".to_string(),
            args: vec![
                Expr::Number(1),
                name("x"),
                Expr::String("s".to_string()),
                binary(
                    Expr::FunctionCall { callee: "g".to_string(), args: vec![Expr::Number(2)] },
                    Binop::Add,
                    Expr::Number(3)
                ),
            ]
        }
    );
}

#[test]
fn a_number_too_large_is_the_greatest() {
    assert_eq!(expression("9223372036854775807"), Expr::Number(i64::MAX));
    assert_eq!(expression("9223372036854775808"), Expr::Number(i64::MAX));
    assert_eq!(
        expression("123456789012345678901234567890.5"),
        Expr::Number(i64::MAX)
    );
    assert_eq!(expression("9223372036854775806"), Expr::Number(i64::MAX - 1));
}

#[test]
fn a_malformed_number_is_an_error() {
    assert_eq!(parse("1\u{b2}").unwrap_err(), "invalid float literal");
    assert_eq!(parse("int x = 1.\u{663};").unwrap_err(), "invalid float literal");
}

#[test]
fn declarations_and_returns() {
    let stmts = parse("int x = 5; char c = 'A' char* s = \"hi\"; return x").unwrap();
    assert_eq!(
        stmts,
        vec![
            Stmt::VariableDecl(VariableDecl {
                data_type: "int".to_string(),
                name: "x".to_string(),
                value: Expr::Number(5)
            }),
            Stmt::VariableDecl(VariableDecl {
                data_type: "char".to_string(),
                name: "c".to_string(),
                value: Expr::String("A".to_string())
            }),
            Stmt::VariableDecl(VariableDecl {
                data_type: "char*".to_string(),
                name: "s".to_string(),
                value: Expr::String("hi".to_string())
            }),
            Stmt::Return(Return { value: name("x") }),
        ]
    );
}

#[test]
fn a_function_with_parameters_and_a_body() {
    let stmts = parse("int add(int a, char b) { int x = a; return x; } int main() { }").unwrap();
    assert_eq!(
        stmts,
        vec![
            Stmt::FunctionDecl(FunctionDecl {
                data_type: "int".to_string(),
                name: "add".to_string(),
                body: vec![
                    Stmt::VariableDecl(VariableDecl {
                        data_type: "int".to_string(),
                        name: "x".to_string(),
                        value: name("a")
                    }),
                    Stmt::Return(Return { value: name("x") }),
                ],
                params: vec![
                    Parameter { data_type: "int".to_string(), name: "a".to_string() },
                    Parameter { data_type: "char".to_string(), name: "b".to_string() },
                ],
            }),
            Stmt::FunctionDecl(FunctionDecl {
                data_type: "int".to_string(),
                name: "main".to_string(),
                body: vec![],
                params: vec![],
            }),
        ]
    );
}

#[test]
fn semicolons_may_stand_or_not() {
    assert_eq!(parse("").unwrap(), vec![]);
    assert_eq!(parse("x y").unwrap().len(), 2);
    assert_eq!(parse("x; y;").unwrap().len(), 2);
    assert_eq!(parse("x;; y").unwrap().len(), 2);
    assert_eq!(
        parse("x;;; y").unwrap_err(),
        "[twee::error] unexpected token Semi"
    );
    assert_eq!(
        parse("int f() { x;; }").unwrap_err(),
        "[twee::error] unexpected token Semi"
    );
}

#[test]
fn syntax_errors_name_what_was_expected_and_what_stood_there() {
    assert_eq!(
        parse("int = 5").unwrap_err(),
        "[twee::error] expected Identifier but got Some(Equals)"
    );
    assert_eq!(
        parse("int x 5").unwrap_err(),
        "[twee::error] expected Equals but got Some(Number)"
    );
    assert_eq!(
        parse("(a + b").unwrap_err(),
        "[twee::error] expected RParen but got Some(EOF)"
    );
    assert_eq!(
        parse("int f(int a) return a;").unwrap_err(),
        "[twee::error] expected LBrace but got Some(Return)"
    );
    assert_eq!(
        parse("int f(x) { }").unwrap_err(),
        "[twee::error] expected DataType but got Some(Identifier)"
    );
    assert_eq!(parse("a +").unwrap_err(), "[twee::error] unexpected token EOF");
    assert_eq!(parse("= 1").unwrap_err(), "[twee::error] unexpected token Equals");
    assert_eq!(
        parse("int f() { return 1;").unwrap_err(),
        "[twee::error] unexpected token EOF"
    );
    assert_eq!(parse("f(a,)").unwrap_err(), "[twee::error] unexpected token RParen");
}

#[test]
fn lists_must_go_on_with_a_comma_or_end() {
    assert_eq!(
        parse("f(a b)").unwrap_err(),
        "Expected ',' or ')' in function call arguments list."
    );
    assert_eq!(
        parse("int f(int a int b) { }").unwrap_err(),
        "Expected ',' or ')' in function parameters"
    );
}

#[test]
fn a_lexical_error_ends_parsing_with_its_message() {
    assert_eq!(
        parse("int x = 5; @ int y = 6;").unwrap_err(),
        "[twee::error] unknown character '@'"
    );
    assert_eq!(
        parse("char* s = \"abc").unwrap_err(),
        "Unterminated string literal"
    );
    assert_eq!(
        parse("int x = 5 $").unwrap_err(),
        "[twee::error] unknown character '$'"
    );
    assert_eq!(
        parse("int #").unwrap_err(),
        "[twee::error] unknown character '#'"
    );
}

#[test]
fn a_copy_of_an_expression_is_equal_to_it() {
    let e = expression("f(a + 1, \"s\") * (b - 2)");
    assert_eq!(e.clone(), e);
}
