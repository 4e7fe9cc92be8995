use wheelc::ast::{Expr, Program, Stmt};
use wheelc::codegen::{codegen_to_asm, codegen_to_machine_code};
use wheelc::parser::Parser;

fn parse(src: &str) -> Program {
    let mut p = Parser::new(src);
    p.parse_program()
}

fn assemble(src: &str) -> String {
    codegen_to_asm(&parse(src))
}

const HEAD: &str = "    .intel_syntax noprefix\n    .section .rodata\n";
const TEXT: &str = "    .section .text\n    .global _start\n_start:\n";
const EXIT: &str = "    mov rax, 60\n    xor rdi, rdi\n    syscall\n";

fn lines(parts: &[&str]) -> String {
    let mut out = String::new();
    for p in parts {
        out.push_str(p);
        out.push('\n');
    }
    out
}

fn print_lines(label: &str, len: usize) -> Vec<String> {
    vec![
        "    mov rax, 1".to_string(),
        "    mov rdi, 1".to_string(),
        format!("    lea rsi, [rip + {}]", label),
        format!("    mov rdx, {}", len),
        "    mov rax, 1".to_string(),
        "    mov rdi, 1".to_string(),
        "    syscall".to_string(),
    ]
}

#[test]
fn hello_from_main() {
    let mut expected = String::from(HEAD);
    expected.push_str(&lines(&["Lmsg0:", "    .ascii \"Hello\"", "    .section .bss", "input_buffer: .space 256"]));
    expected.push_str(TEXT);
    for l in print_lines("Lmsg0", 5) {
        expected.push_str(&l);
        expected.push('\n');
    }
    expected.push_str(EXIT);
    assert_eq!(assemble("func main() { print(\"Hello\"); }"), expected);
}

#[test]
fn other_functions_are_not_lowered() {
    let out = assemble("func helper() { print(\"no\"); }");
    assert!(out.contains("Lmsg0:\n    .ascii \"no\"\n"));
    assert!(!out.contains("lea rsi"));
    assert_eq!(out.matches("syscall").count(), 1);
}

#[test]
fn folded_sum_prints_its_digit() {
    let mut expected = String::from(HEAD);
    expected.push_str(&lines(&[
        "Lmsg0:",
        "    .ascii \"5\"",
        "    .section .bss",
        "input_buffer: .space 256",
        "a: .quad 0",
        "b: .quad 0",
    ]));
    expected.push_str(TEXT);
    expected.push_str(&lines(&[
        "    mov rax, 2",
        "    mov qword ptr [rip + a], rax",
        "    mov rax, 3",
        "    mov qword ptr [rip + b], rax",
    ]));
    for l in print_lines("Lmsg0", 1) {
        expected.push_str(&l);
        expected.push('\n');
    }
    expected.push_str(EXIT);
    assert_eq!(assemble("let a = 2; let b = 3; print(a + b);"), expected);
}

#[test]
fn literal_condition_selects_branch_at_compile_time() {
    let mut expected = String::from(HEAD);
    expected.push_str(&lines(&[
        "Lmsg0:",
        "    .ascii \"yes\"",
        "Lmsg1:",
        "    .ascii \"no\"",
        "    .section .bss",
        "input_buffer: .space 256",
    ]));
    expected.push_str(TEXT);
    for l in print_lines("Lmsg0", 3) {
        expected.push_str(&l);
        expected.push('\n');
    }
    expected.push_str(&lines(&["    jmp Lend_0", "Lelse_0:"]));
    for l in print_lines("Lmsg1", 2) {
        expected.push_str(&l);
        expected.push('\n');
    }
    expected.push_str(&lines(&["Lend_0:"]));
    expected.push_str(EXIT);
    assert_eq!(assemble("if 1 { print(\"yes\"); } else { print(\"no\"); }"), expected);
}

#[test]
fn false_literal_condition_jumps_to_else() {
    let out = assemble("if 0 { print(\"yes\"); } else { print(\"no\"); }");
    assert!(out.contains("_start:\n    jmp Lelse_0\n"));
    assert!(!out.contains("cmp rax, 0"));
}

#[test]
fn runtime_condition_is_tested() {
    let out = assemble("let x = input(); if x { print(\"a\"); }");
    assert!(out.contains(
        "    mov rax, qword ptr [rip + x]\n    cmp rax, 0\n    je Lend_0\n"
    ));
    assert!(out.contains("x_buf: .space 256\nx_len: .quad 0\n"));
}

#[test]
fn identical_strings_share_one_entry() {
    let out = assemble("print(\"x\"); print(\"x\");");
    assert_eq!(out.matches("Lmsg0:").count(), 1);
    assert!(!out.contains("Lmsg1"));
    assert_eq!(out.matches("lea rsi, [rip + Lmsg0]").count(), 2);
}

#[test]
fn labels_are_unique_across_the_program() {
    let out = assemble("let i = input(); while i { if i { print(\"a\"); } } if i { print(\"b\"); }");
    assert!(out.contains("Lloop_0:\n"));
    assert!(out.contains("Lexit_0:\n"));
    assert!(out.contains("Lend_1:\n"));
    assert!(out.contains("Lend_2:\n"));
    assert_eq!(out.matches("Lend_1:").count(), 1);
}

#[test]
fn input_binding_reads_into_its_buffer() {
    let out = assemble("let name = input(); print(name);");
    assert!(out.contains(
        "    mov rax, 0\n    mov rdi, 0\n    lea rsi, [rip + name_buf]\n    mov rdx, 255\n    syscall\n    mov qword ptr [rip + name_len], rax\n"
    ));
    assert!(out.contains("    lea rsi, [rip + name_buf]\n    mov rdx, qword ptr [rip + name_len]\n"));
}

#[test]
fn runtime_arithmetic_uses_the_stack() {
    let out = assemble("let a = input(); let b = a - 2; print(b);");
    assert!(out.contains(
        "    mov rax, qword ptr [rip + a]\n    push rax\n    mov rax, 2\n    mov rbx, rax\n    pop rax\n    sub rax, rbx\n    mov qword ptr [rip + b], rax\n"
    ));
    assert!(out.contains("    add rbx, '0'\n    mov byte ptr [rsi], bl\n    mov rdx, 1\n"));
}

#[test]
fn quotes_in_strings_are_escaped() {
    let prog = Program {
        items: vec![Stmt::Expr(Expr::Call {
            name: "print".to_string(),
            args: vec![Expr::Str("a\"b".to_string())],
        })],
    };
    let out = codegen_to_asm(&prog);
    assert!(out.contains("Lmsg0:\n    .ascii \"a\\\"b\"\n"));
    assert!(out.contains("    mov rdx, 3\n"));
}

#[test]
fn negative_constants_and_relations() {
    let out = assemble("let a = 0 - 7; let b = a < 3;");
    assert!(out.contains("    mov rax, -7\n    mov qword ptr [rip + a], rax\n"));
    assert!(out.contains("    mov rax, 1\n    mov qword ptr [rip + b], rax\n"));
}

#[test]
fn machine_code_path_is_empty() {
    let (code, data) = codegen_to_machine_code(&parse("print(\"x\");"));
    assert!(code.is_empty());
    assert!(data.is_empty());
}

#[test]
fn strings_in_loop_and_function_bodies_are_collected() {
    let out = assemble("for i in range(3) { print(\"loop\"); } func f() { print(\"fn\"); }");
    assert!(out.contains("Lmsg0:\n    .ascii \"loop\"\n"));
    assert!(out.contains("Lmsg1:\n    .ascii \"fn\"\n"));
}

#[test]
fn assigning_input_reads_into_the_buffer() {
    let out = assemble("let s = input(); s = input();");
    assert_eq!(
        out.matches("    lea rsi, [rip + s_buf]\n    mov rdx, 255\n    syscall\n    mov qword ptr [rip + s_len], rax\n").count(),
        2
    );
    let other = assemble("let n = 1; n = input();");
    assert!(other.contains("lea rsi, [rip + input_buffer]\n    mov rdx, 255\n    syscall\n    mov rbx, rax\n"));
    assert!(other.contains("    mov qword ptr [rip + n], rax\n"));
}

#[test]
fn printing_a_string_constant_writes_its_entry() {
    let out = assemble("let s = \"hi\"; print(s);");
    assert!(out.contains("Lmsg0:\n    .ascii \"hi\"\n"));
    assert!(out.contains("    lea rsi, [rip + Lmsg0]\n    mov rdx, 2\n"));
    assert!(!out.contains("add rbx, '0'"));
}

#[test]
fn printing_an_integer_constant_writes_its_numeral() {
    let out = assemble("let a = 12; print(a);");
    assert!(out.contains("Lmsg0:\n    .ascii \"12\"\n"));
    assert!(out.contains("    lea rsi, [rip + Lmsg0]\n    mov rdx, 2\n"));
    assert!(!out.contains("add rbx, '0'"));
}

#[test]
fn nested_lets_get_cells_once() {
    let out = assemble("if 1 { let x = 3; } while 0 { let x = 4; let y = input(); let y = input(); }");
    assert_eq!(out.matches("x: .quad 0\n").count(), 1);
    assert_eq!(out.matches("y_buf: .space 256\n").count(), 1);
    assert_eq!(out.matches("y_len: .quad 0\n").count(), 1);
}

#[test]
fn input_with_arguments_is_not_the_builtin() {
    let out = assemble("let z = input(1);");
    assert!(!out.contains("z_buf"));
    assert!(out.contains("    mov rax, 0\n    mov qword ptr [rip + z], rax\n"));
}

#[test]
fn programs_can_be_cloned() {
    let prog = parse("let a = 1; if a { print(\"x\"); } struct P { x: int }");
    let copy = prog.clone();
    assert_eq!(codegen_to_asm(&prog), codegen_to_asm(&copy));
    assert_eq!(format!("{:?}", prog), format!("{:?}", copy));
}
