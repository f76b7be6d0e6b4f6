use twee::codegen::CodeGen;
use twee::lexer::Lexer;
use twee::parser::Parser;

fn compile(source: &str) -> Result<String, String> {
    let lexer = Lexer::new(source);
    let mut parser = Parser::new(lexer);
    let program = parser.parse()?;
    let mut codegen = CodeGen::new();
    codegen.generate(&program)
}

#[test]
fn returns_a_local_int() {
    let text = compile("int main() { int x = 5; return x; }").unwrap();
    let expected = ".section .text\n    .globl main\n    .type main, @function\nmain:\n    pushq %rbp\n    movq %rsp, %rbp\n    movl $5, -8(%rbp)\n    movl -8(%rbp), %eax\n    leave\n    ret\n";
    assert_eq!(text, expected);
}

#[test]
fn returns_a_local_char() {
    let text = compile("int main() { char c = 'A'; return c; }").unwrap();
    let expected = ".section .text\n    .globl main\n    .type main, @function\nmain:\n    pushq %rbp\n    movq %rsp, %rbp\n    movl $65, -8(%rbp)\n    movzbl -8(%rbp), %eax\n    leave\n    ret\n";
    assert_eq!(text, expected);
}

#[test]
fn prints_a_pooled_string() {
    let text = compile("int main() { char* s = \"hi\"; printf(s); return 0; }").unwrap();
    let expected = ".section .rodata\n.LC0:\n    .string \"hi\"\n.section .text\n    .globl main\n    .type main, @function\nmain:\n    pushq %rbp\n    movq %rsp, %rbp\n    leaq .LC0(%rip), %rax\n    movq %rax, -8(%rbp)\n    movq -8(%rbp), %rdi\n    movl $0, %eax\n    call printf\n    movl $0, %eax\n    leave\n    ret\n";
    assert_eq!(text, expected);
}
