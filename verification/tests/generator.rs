use twee::ast::Binop;
use twee::ast::Expr;
use twee::ast::FunctionDecl;
use twee::ast::Parameter;
use twee::ast::Return;
use twee::ast::Stmt;
use twee::ast::VariableDecl;
use twee::codegen::CodeGen;
use twee::lexer::Lexer;
use twee::parser::Parser;

const HEADER: &str = ".section .text\n    .globl main\n    .type main, @function\n";

fn compile(source: &str) -> Result<String, String> {
    let mut parser = Parser::new(Lexer::new(source));
    let program = parser.parse()?;
    CodeGen::new().generate(&program)
}

fn generate(stmts: Vec<Stmt>) -> Result<String, String> {
    CodeGen::new().generate(&stmts)
}

fn declare(data_type: &str, name: &str, value: Expr) -> Stmt {
    Stmt::VariableDecl(VariableDecl {
        data_type: data_type.to_string(),
        name: name.to_string(),
        value,
    })
}

fn function(name: &str, params: Vec<(&str, &str)>, body: Vec<Stmt>) -> Stmt {
    Stmt::FunctionDecl(FunctionDecl {
        data_type: "int".to_string(),
        name: name.to_string(),
        body,
        params: params
            .into_iter()
            .map(|(t, n)| Parameter { data_type: t.to_string(), name: n.to_string() })
            .collect(),
    })
}

fn call(callee: &str, args: Vec<Expr>) -> Expr {
    Expr::FunctionCall { callee: callee.to_string(), args }
}

fn name(text: &str) -> Expr {
    Expr::Identifier(text.to_string())
}

fn text(value: &str) -> Expr {
    Expr::String(value.to_string())
}

#[test]
fn an_empty_program_is_the_header() {
    assert_eq!(generate(vec![]).unwrap(), HEADER);
}

#[test]
fn every_variable_lies_at_the_next_multiple_of_eight() {
    let out = compile("int main() { int a = 1; char b = 'x'; char* c = \"yz\"; int d = 2; }")
        .unwrap();
    let expected = format!(
        ".section .rodata\n.LC0:\n    .string \"yz\"\n{}main:\n    pushq %rbp\n    movq %rsp, %rbp\n    movl $1, -8(%rbp)\n    movl $120, -16(%rbp)\n    leaq .LC0(%rip), %rax\n    movq %rax, -24(%rbp)\n    movl $2, -32(%rbp)\n    leave\n    ret\n",
        HEADER
    );
    assert_eq!(out, expected);
}

#[test]
fn parameters_lie_one_behind_the_other_and_are_stored_by_their_width() {
    let out = compile("int f(int a, char b, char* c) { return b; }").unwrap();
    let expected = format!(
        "{}f:\n    pushq %rbp\n    movq %rsp, %rbp\n    subq $16, %rsp\n    movl %edi, -4(%rbp)\n    movb %sil, -5(%rbp)\n    movq %rdx, -13(%rbp)\n    movzbl -5(%rbp), %eax\n    leave\n    ret\n",
        HEADER
    );
    assert_eq!(out, expected);
    let out = compile("int f(int a, char b, char* c) { int x = 7; return x; }").unwrap();
    let expected = format!(
        "{}f:\n    pushq %rbp\n    movq %rsp, %rbp\n    subq $16, %rsp\n    movl %edi, -4(%rbp)\n    movb %sil, -5(%rbp)\n    movq %rdx, -13(%rbp)\n    movl $7, -24(%rbp)\n    movl -24(%rbp), %eax\n    leave\n    ret\n",
        HEADER
    );
    assert_eq!(out, expected);
}

#[test]
fn the_frame_is_a_multiple_of_sixteen() {
    let wide = "char* a, char* b, char* c";
    let out = compile(&format!("int f({}) {{ }}", wide)).unwrap();
    assert!(out.contains("    subq $32, %rsp\n"));
    let out = compile("int f(char* a, char* b) { }").unwrap();
    assert!(out.contains("    subq $16, %rsp\n"));
    let out = compile("int f(char a) { }").unwrap();
    assert!(out.contains("    subq $16, %rsp\n"));
    let out = compile("int f() { int x = 1; }").unwrap();
    assert!(!out.contains("subq"));
}

#[test]
fn six_parameters_use_the_six_registers() {
    let out = compile("int f(int a, int b, int c, int d, int e, int g) { }").unwrap();
    let expected = format!(
        "{}f:\n    pushq %rbp\n    movq %rsp, %rbp\n    subq $32, %rsp\n    movl %edi, -4(%rbp)\n    movl %esi, -8(%rbp)\n    movl %edx, -12(%rbp)\n    movl %ecx, -16(%rbp)\n    movl %r8d, -20(%rbp)\n    movl %r9d, -24(%rbp)\n    leave\n    ret\n",
        HEADER
    );
    assert_eq!(out, expected);
    let chars = compile("int f(char a, char b, char c, char d, char e, char g) { }").unwrap();
    for line in [
        "    movb %dil, -1(%rbp)\n",
        "    movb %sil, -2(%rbp)\n",
        "    movb %dl, -3(%rbp)\n",
        "    movb %cl, -4(%rbp)\n",
        "    movb %r8b, -5(%rbp)\n",
        "    movb %r9b, -6(%rbp)\n",
    ] {
        assert!(chars.contains(line));
    }
    let pointers =
        compile("int f(char* a, char* b, char* c, char* d, char* e, char* g) { }").unwrap();
    for line in [
        "    movq %rdi, -8(%rbp)\n",
        "    movq %rsi, -16(%rbp)\n",
        "    movq %rdx, -24(%rbp)\n",
        "    movq %rcx, -32(%rbp)\n",
        "    movq %r8, -40(%rbp)\n",
        "    movq %r9, -48(%rbp)\n",
    ] {
        assert!(pointers.contains(line));
    }
}

#[test]
fn seven_parameters_are_refused() {
    let source = "int f(int a, int b, int c, int d, int e, int g, int h) { return 0; }";
    assert_eq!(
        compile(source).unwrap_err(),
        "tried to do stack parameters, not implemented"
    );
    let params = vec![("bad", "a"); 9];
    assert_eq!(
        generate(vec![function("f", params, vec![])]).unwrap_err(),
        "tried to do stack parameters, not implemented"
    );
}

#[test]
fn a_parameter_of_an_unknown_type_is_refused() {
    assert_eq!(
        generate(vec![function("f", vec![("int", "a"), ("float", "b")], vec![])]).unwrap_err(),
        "unknown data type tried in save_param_to_stk. data type: float"
    );
}

#[test]
fn a_string_is_pooled_once() {
    let out = compile(
        "int main() { char* a = \"hi\"; char* b = \"hi\"; printf(\"hi\"); puts(\"ho\", \"hi\"); }",
    )
    .unwrap();
    let expected = format!(
        ".section .rodata\n.LC0:\n    .string \"hi\"\n.LC1:\n    .string \"ho\"\n{}main:\n    pushq %rbp\n    movq %rsp, %rbp\n    leaq .LC0(%rip), %rax\n    movq %rax, -8(%rbp)\n    leaq .LC0(%rip), %rax\n    movq %rax, -16(%rbp)\n    leaq .LC0(%rip), %rdi\n    movl $0, %eax\n    call printf\n    leaq .LC1(%rip), %rdi\n    leaq .LC0(%rip), %rsi\n    call puts\n    leave\n    ret\n",
        HEADER
    );
    assert_eq!(out, expected);
    assert_eq!(out.matches(".string \"hi\"").count(), 1);
}

#[test]
fn string_constants_are_escaped() {
    let out = generate(vec![Stmt::Expression(call(
        "puts",
        vec![text("a\nb\tc\rd\\e\"f\0g\u{1}h\u{7f}i\u{9f}j'k\u{e9}")],
    ))])
    .unwrap();
    assert!(out.contains(
        "    .string \"a\\nb\\tc\\rd\\\\e\\\"f\\0g\\x01h\\x7fi\\x9fj'k\u{e9}\"\n"
    ));
}

#[test]
fn a_string_of_one_byte_is_a_character() {
    let out = generate(vec![
        declare("char", "a", text("A")),
        declare("char*", "b", text("")),
        declare("char*", "c", text("\u{e9}")),
        declare("char", "d", text("\0")),
    ])
    .unwrap();
    let expected = format!(
        ".section .rodata\n.LC0:\n    .string \"\"\n.LC1:\n    .string \"\u{e9}\"\n{}    movl $65, -8(%rbp)\n    leaq .LC0(%rip), %rax\n    movq %rax, -16(%rbp)\n    leaq .LC1(%rip), %rax\n    movq %rax, -24(%rbp)\n    movl $0, -32(%rbp)\n",
        HEADER
    );
    assert_eq!(out, expected);
}

#[test]
fn arguments_go_into_the_registers_of_their_positions() {
    let out = compile(
        "int main() { int i = 1; char c = 'c'; char* s = \"str\"; f(i, c, s, 4, \"x\", i); }",
    )
    .unwrap();
    let expected = format!(
        ".section .rodata\n.LC0:\n    .string \"str\"\n.LC1:\n    .string \"x\"\n{}main:\n    pushq %rbp\n    movq %rsp, %rbp\n    movl $1, -8(%rbp)\n    movl $99, -16(%rbp)\n    leaq .LC0(%rip), %rax\n    movq %rax, -24(%rbp)\n    movl -8(%rbp), %edi\n    movzbl -16(%rbp), %esi\n    movq -24(%rbp), %rdx\n    movq $4, %rcx\n    leaq .LC1(%rip), %r8\n    movl -8(%rbp), %r9d\n    call f\n    leave\n    ret\n",
        HEADER
    );
    assert_eq!(out, expected);
}

#[test]
fn a_seventh_argument_is_refused() {
    assert_eq!(
        compile("f(1, 2, 3, 4, 5, 6, 7)").unwrap_err(),
        "too many params for registers"
    );
    assert!(compile("f(1, 2, 3, 4, 5, 6)").is_ok());
}

#[test]
fn the_result_of_a_call_is_stored_by_the_width_of_the_variable() {
    let out = compile("int x = f(); char c = g(1);").unwrap();
    let expected = format!(
        "{}    call f\n    movl %eax, -8(%rbp)\n    movq $1, %rdi\n    call g\n    movb %al, -16(%rbp)\n",
        HEADER
    );
    assert_eq!(out, expected);
    assert_eq!(
        compile("char* s = f();").unwrap_err(),
        "unable to store return value for type: char*"
    );
}

#[test]
fn numbers_are_returned_as_32_bits_hold_them() {
    let cases: [(i64, &str); 6] = [
        (0, "0"),
        (42, "42"),
        (-7, "-7"),
        (2147483647, "2147483647"),
        (2147483648, "2147483647"),
        (i64::MIN, "-2147483648"),
    ];
    for (value, written) in cases {
        let out = generate(vec![Stmt::Return(Return { value: Expr::Number(value) })]).unwrap();
        assert_eq!(out, format!("{}    movl ${}, %eax\n", HEADER, written));
    }
    let out = generate(vec![declare("int", "x", Expr::Number(3000000000))]).unwrap();
    assert_eq!(out, format!("{}    movl $3000000000, -8(%rbp)\n", HEADER));
    let out = generate(vec![Stmt::Expression(call("f", vec![Expr::Number(-5)]))]).unwrap();
    assert_eq!(out, format!("{}    movq $-5, %rdi\n    call f\n", HEADER));
}

#[test]
fn errors_of_returns() {
    assert_eq!(compile("return y").unwrap_err(), "undefined variable: y");
    assert_eq!(
        compile("char* s = \"ab\"; return s").unwrap_err(),
        "unable to return this data type"
    );
    assert_eq!(compile("return 1 + 2").unwrap_err(), "unsupported return expression");
    assert_eq!(compile("return \"s\"").unwrap_err(), "unsupported return expression");
    assert_eq!(compile("return f()").unwrap_err(), "unsupported return expression");
    assert_eq!(
        compile("int f(char* p) { return p; }").unwrap_err(),
        "unable to return this data type"
    );
}

#[test]
fn errors_of_arguments() {
    assert_eq!(compile("f(y)").unwrap_err(), "undefined variable: y");
    assert_eq!(compile("f(1 + 2)").unwrap_err(), "unsupported arg type");
    assert_eq!(compile("f(g())").unwrap_err(), "unsupported arg type");
}

#[test]
fn errors_of_declarations() {
    assert_eq!(
        generate(vec![declare("auto", "x", Expr::Number(1))]).unwrap_err(),
        "unknown data type: auto"
    );
    assert_eq!(
        generate(vec![declare("float", "x", call("f", vec![]))]).unwrap_err(),
        "unknown data type: float"
    );
    assert_eq!(
        compile("int x = 1; int y = x;").unwrap_err(),
        "unsupported initializer expression"
    );
    assert_eq!(
        compile("int y = 1 + 2;").unwrap_err(),
        "unsupported initializer expression"
    );
    let sum = Expr::BinaryOp {
        left: Box::new(Expr::Number(1)),
        op: Binop::Mul,
        right: Box::new(Expr::Number(2)),
    };
    assert_eq!(
        generate(vec![declare("int", "z", sum)]).unwrap_err(),
        "unsupported initializer expression"
    );
}

#[test]
fn an_expression_that_is_no_call_gives_no_code() {
    assert_eq!(compile("x; 1 + 2; \"s\"; (y)").unwrap(), HEADER);
}

#[test]
fn each_function_has_variables_of_its_own() {
    assert_eq!(
        compile("int f() { int x = 1; } int g() { return x; }").unwrap_err(),
        "undefined variable: x"
    );
    let out = compile("int f() { int x = 1; int y = 2; } int g() { int z = 3; return z; }")
        .unwrap();
    assert!(out.contains("g:\n    pushq %rbp\n    movq %rsp, %rbp\n    movl $3, -8(%rbp)\n"));
}

#[test]
fn a_later_declaration_of_a_name_takes_its_place() {
    let out = compile("int main() { int x = 1; char x = 'b'; return x; }").unwrap();
    assert!(out.contains(
        "    movl $1, -8(%rbp)\n    movl $98, -16(%rbp)\n    movzbl -16(%rbp), %eax\n"
    ));
}

#[test]
fn the_same_source_gives_the_same_text() {
    let source = "int main() { char* s = \"hi\"; char* t = \"ho\"; printf(s); puts(t, \"hi\"); return 0; }";
    let first = compile(source).unwrap();
    let second = compile(source).unwrap();
    assert_eq!(first, second);
}

#[test]
fn the_text_is_kept_until_it_is_cleared() {
    let mut codegen = CodeGen::new();
    assert_eq!(codegen.get_output(), "");
    let first = codegen.generate(&[Stmt::Expression(call("f", vec![text("ab")]))]).unwrap();
    assert_eq!(codegen.get_output(), first);
    let second = codegen.generate(&[Stmt::Expression(call("g", vec![text("ab")]))]).unwrap();
    let unit = format!(
        ".section .rodata\n.LC0:\n    .string \"ab\"\n{}    leaq .LC0(%rip), %rdi\n    call g\n",
        HEADER
    );
    assert_eq!(second, format!("{}{}", first, unit));
    codegen.clear();
    assert_eq!(codegen.get_output(), "");
    let third = codegen.generate(&[]).unwrap();
    assert_eq!(
        third,
        format!(".section .rodata\n.LC0:\n    .string \"ab\"\n{}", HEADER)
    );
}

#[test]
fn after_an_error_the_text_is_what_was_lowered() {
    let mut codegen = CodeGen::new();
    codegen.generate(&[Stmt::Expression(call("f", vec![]))]).unwrap();
    let failed = codegen.generate(&[
        Stmt::Expression(call("g", vec![])),
        Stmt::Return(Return { value: name("nowhere") }),
    ]);
    assert_eq!(failed.unwrap_err(), "undefined variable: nowhere");
    assert_eq!(codegen.get_output(), "    call g\n");
}

#[test]
fn registers_sizes_and_escapes() {
    let wide = ["%rdi", "%rsi", "%rdx", "%rcx", "%r8", "%r9"];
    let narrow = ["%edi", "%esi", "%edx", "%ecx", "%r8d", "%r9d"];
    let low = ["%dil", "%sil", "%dl", "%cl", "%r8b", "%r9b"];
    for i in 0..6 {
        assert_eq!(CodeGen::get_64bit_reg(i).unwrap(), wide[i]);
        assert_eq!(CodeGen::get_32bit_reg(i).unwrap(), narrow[i]);
        assert_eq!(CodeGen::get_8bit_reg(i).unwrap(), low[i]);
        assert_eq!(CodeGen::get_param_register("char*", i), wide[i]);
        assert_eq!(CodeGen::get_param_register("int", i), narrow[i]);
        assert_eq!(CodeGen::get_param_register("char", i), narrow[i]);
    }
    for i in [6, 7, 100] {
        assert_eq!(CodeGen::get_64bit_reg(i).unwrap_err(), "too many params for registers");
        assert_eq!(CodeGen::get_32bit_reg(i).unwrap_err(), "too many params for registers");
        assert_eq!(CodeGen::get_8bit_reg(i).unwrap_err(), "too many params for registers");
    }
    assert_eq!(CodeGen::get_type_size("int"), 4);
    assert_eq!(CodeGen::get_type_size("char"), 1);
    assert_eq!(CodeGen::get_type_size("char*"), 8);
    assert_eq!(CodeGen::get_type_size("auto"), 0);
    assert!(CodeGen::is_known_type("char*"));
    assert!(!CodeGen::is_known_type("long"));
    assert_eq!(CodeGen::get_escaped_string("a\"b\n"), "a\\\"b\\n");
    assert_eq!(CodeGen::get_escaped_string(""), "");
}

#[test]
fn a_function_returns_its_parameter() {
    let out = compile("int f(int a) { return a; }").unwrap();
    let expected = format!(
        "{}f:\n    pushq %rbp\n    movq %rsp, %rbp\n    subq $16, %rsp\n    movl %edi, -4(%rbp)\n    movl -4(%rbp), %eax\n    leave\n    ret\n",
        HEADER
    );
    assert_eq!(out, expected);
}

#[test]
fn a_function_passes_its_parameters_on() {
    let out = compile("int f(int a, char b, char* c) { g(c, b, a); return 0; }").unwrap();
    let expected = format!(
        "{}f:\n    pushq %rbp\n    movq %rsp, %rbp\n    subq $16, %rsp\n    movl %edi, -4(%rbp)\n    movb %sil, -5(%rbp)\n    movq %rdx, -13(%rbp)\n    movq -13(%rbp), %rdi\n    movzbl -5(%rbp), %esi\n    movl -4(%rbp), %edx\n    call g\n    movl $0, %eax\n    leave\n    ret\n",
        HEADER
    );
    assert_eq!(out, expected);
}

#[test]
fn a_variable_may_take_the_name_of_a_parameter() {
    let out = compile("int f(int a) { char a = 'x'; return a; }").unwrap();
    assert!(out.contains(
        "    movl %edi, -4(%rbp)\n    movl $120, -8(%rbp)\n    movzbl -8(%rbp), %eax\n"
    ));
}

#[test]
fn a_pooled_string_keeps_its_label() {
    let mut codegen = CodeGen::new();
    assert!(codegen.generate_string("one").is_ok());
    assert!(codegen.generate_string("two").is_ok());
    assert!(codegen.generate_string("one").is_ok());
    assert!(codegen.generate_string("two").is_ok());
    let out = codegen.generate(&[Stmt::Expression(call("f", vec![text("two"), text("one")]))]);
    let expected = format!(
        ".section .rodata\n.LC0:\n    .string \"one\"\n.LC1:\n    .string \"two\"\n{}    leaq .LC1(%rip), %rdi\n    leaq .LC0(%rip), %rsi\n    call f\n",
        HEADER
    );
    assert_eq!(out.unwrap(), expected);
}

#[test]
fn a_function_is_lowered_by_itself() {
    let mut codegen = CodeGen::new();
    let decl = FunctionDecl {
        data_type: "int".to_string(),
        name: "f".to_string(),
        body: vec![Stmt::Return(Return { value: name("a") })],
        params: vec![Parameter { data_type: "int".to_string(), name: "a".to_string() }],
    };
    assert!(codegen.generate_fn_decl(&decl).is_ok());
    assert_eq!(
        codegen.get_output(),
        "f:\n    pushq %rbp\n    movq %rsp, %rbp\n    subq $16, %rsp\n    movl %edi, -4(%rbp)\n    movl -4(%rbp), %eax\n    leave\n    ret\n"
    );
    let seven = FunctionDecl {
        data_type: "int".to_string(),
        name: "g".to_string(),
        body: vec![],
        params: (0..7)
            .map(|i| Parameter { data_type: "int".to_string(), name: format!("p{}", i) })
            .collect(),
    };
    let before = codegen.get_output().to_string();
    assert_eq!(
        codegen.generate_fn_decl(&seven).unwrap_err(),
        "tried to do stack parameters, not implemented"
    );
    assert_eq!(codegen.get_output(), before);
}
