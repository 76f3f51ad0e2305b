use minicomp::ast::{Expr, Op, Stmt};
use minicomp::codegen::CodeGen;
use minicomp::lexer::{Lexer, Token};
use minicomp::parser::Parser;
use minicomp::{compile, CompileError};

fn output_of(source: &str) -> String {
    let tokens = Lexer::new(source).tokenize().unwrap();
    let stmts = Parser::new(tokens).parse().unwrap();
    CodeGen::new().generate(&stmts).unwrap()
}

fn pos(haystack: &str, needle: &str) -> usize {
    haystack.find(needle).unwrap()
}

#[test]
fn test_lexer() {
    let source = "let x = 5; let y = x+(4+2)/2; let z = x+y; exit z + 2;";
    let tokens = Lexer::new(source).tokenize().unwrap();
    assert_eq!(
        tokens,
        vec![
            Token::Let,
            Token::Ident("x".to_string()),
            Token::Equal,
            Token::Number(5),
            Token::Semicolon,
            Token::Let,
            Token::Ident("y".to_string()),
            Token::Equal,
            Token::Ident("x".to_string()),
            Token::Plus,
            Token::LParen,
            Token::Number(4),
            Token::Plus,
            Token::Number(2),
            Token::RParen,
            Token::Slash,
            Token::Number(2),
            Token::Semicolon,
            Token::Let,
            Token::Ident("z".to_string()),
            Token::Equal,
            Token::Ident("x".to_string()),
            Token::Plus,
            Token::Ident("y".to_string()),
            Token::Semicolon,
            Token::Exit,
            Token::Ident("z".to_string()),
            Token::Plus,
            Token::Number(2),
            Token::Semicolon,
        ]
    );
}

#[test]
fn test_parse_expr() {
    let mut lexer = Lexer::new("1 + 2 * 3");
    let tokens = lexer.tokenize().unwrap();
    let mut parser = Parser::new(tokens);
    let expr = parser.parse_expr().unwrap();
    match expr {
        Expr::BinOp(left, Op::Add, right) => {
            match *left {
                Expr::Num(1) => {}
                _ => panic!("expected Num(1)"),
            }
            match *right {
                Expr::BinOp(inner_left, Op::Mul, inner_right) => {
                    match *inner_left {
                        Expr::Num(2) => {}
                        _ => panic!("expected Num(2)"),
                    }
                    match *inner_right {
                        Expr::Num(3) => {}
                        _ => panic!("expected Num(3)"),
                    }
                }
                _ => panic!("expected BinOp with Mul"),
            }
        }
        _ => panic!("expected BinOp with Add"),
    }
}

#[test]
fn test_comparison_eq() {
    let out = output_of("let x = 5 == 5; exit(x);");
    assert!(out.contains("cmp rax, rbx"));
    assert!(out.contains("sete al"));
    assert!(out.contains("movzx rax, al"));
}

#[test]
fn test_comparison_gt() {
    let out = output_of("let x = 10 > 5; exit(x);");
    assert!(out.contains("cmp rax, rbx"));
    assert!(out.contains("setg al"));
}

#[test]
fn test_simple_exit() {
    let out = output_of("exit(42);");
    assert!(out.contains("mov rax, 42"));
    assert!(out.contains("mov rdi, rax"));
    assert!(out.contains("mov rax, 60"));
    assert!(out.contains("syscall"));
}

#[test]
fn test_let_and_exit() {
    let out = output_of("let x = 10; exit(x);");
    assert!(out.contains("mov rax, 10"));
    assert!(out.contains("mov [rbp-8], rax"));
    assert!(out.contains("mov rax, [rbp-8]"));
}

#[test]
fn test_arithmetic() {
    let out = output_of("exit(2 + 3 * 4);");
    assert!(out.contains("imul rax, rbx"));
    assert!(out.contains("add rax, rbx"));
}

#[test]
fn exit_literal_loads_and_exits() {
    let out = output_of("exit(7);");
    let load = pos(&out, "    mov rax, 7\n");
    let arg = pos(&out, "    mov rdi, rax\n");
    assert!(load < arg);
    assert!(arg < pos(&out, "    mov rax, 60\n    syscall\n"));
    assert!(!out.contains("sub rsp"));
}

#[test]
fn bound_name_is_stored_then_loaded() {
    let out = output_of("let x = 3; exit(x);");
    let store = pos(&out, "    mov [rbp-8], rax\n");
    let load = pos(&out, "    mov rax, [rbp-8]\n");
    assert!(pos(&out, "    mov rax, 3\n") < store);
    assert!(store < load);
    assert!(load < pos(&out, "    mov rdi, rax\n"));
    assert!(out.contains("    sub rsp, 16\n"));
}

#[test]
fn multiply_before_add() {
    let out = output_of("exit(2 + 3 * 4);");
    assert!(pos(&out, "imul rax, rbx") < pos(&out, "add rax, rbx"));
    let expected = "    mov rax, 4\n    push rax\n    mov rax, 3\n    pop rbx\n    imul rax, rbx\n    push rax\n    mov rax, 2\n    pop rbx\n    add rax, rbx\n";
    assert!(out.contains(expected));
}

#[test]
fn comparison_sets_and_widens() {
    let out = output_of("let x = 5 == 5; exit(x);");
    let cmp = pos(&out, "    cmp rax, rbx\n");
    let set = pos(&out, "    sete al\n");
    let widen = pos(&out, "    movzx rax, al\n");
    assert!(cmp < set && set < widen);
}

#[test]
fn if_elif_else_labels() {
    let out = output_of(
        "let a = 1; if (a == 1) { exit(1); } elif (a == 2) { exit(2); } elif (a == 3) { exit(3); } else { exit(4); }",
    );
    for target in ["je .elif_1\n", "je .elif_2\n", "je .elif_3\n"] {
        assert_eq!(out.matches(target).count(), 1);
    }
    for label in [".elif_1:\n", ".elif_2:\n", ".elif_3:\n", ".if_end_0:\n"] {
        assert_eq!(out.matches(label).count(), 1);
    }
    assert_eq!(out.matches("jmp .if_end_0\n").count(), 3);
    assert!(pos(&out, ".elif_3:\n") < pos(&out, "; else block"));
    assert!(pos(&out, "; else block") < pos(&out, ".if_end_0:\n"));
}

#[test]
fn plain_if_skips_to_end() {
    let out = output_of("if (1) { exit(5); }");
    assert!(out.contains("    cmp rax, 0\n    je .if_end_0\n    ; then block\n"));
    assert!(out.contains(".if_end_0:\n"));
    assert!(!out.contains("elif"));
}

#[test]
fn unary_minus_binds_to_primary() {
    let out = output_of("exit(-2*3);");
    let expected = "    mov rax, 3\n    push rax\n    mov rax, 2\n    neg rax\n    pop rbx\n    imul rax, rbx\n";
    assert!(out.contains(expected));
    assert!(pos(&out, "neg rax") < pos(&out, "imul rax, rbx"));
}

#[test]
fn redeclaration_takes_a_new_slot() {
    let out = output_of("let x = 1; let x = 2; exit(x);");
    assert!(out.contains("    mov rax, 1\n    mov [rbp-8], rax\n"));
    assert!(out.contains("    mov rax, 2\n    mov [rbp-16], rax\n"));
    let exit = pos(&out, "; exit");
    assert!(out[exit..].contains("    mov rax, [rbp-16]\n"));
    assert!(!out[exit..].contains("[rbp-8]"));
}

#[test]
fn unbound_name_fails() {
    let tokens = Lexer::new("exit(y);").tokenize().unwrap();
    let stmts = Parser::new(tokens).parse().unwrap();
    assert_eq!(CodeGen::new().generate(&stmts), Err(CompileError::UnboundVariable));
    assert_eq!(compile("exit(y);"), Err(CompileError::UnboundVariable));
}

#[test]
fn bang_without_equal_fails() {
    assert_eq!(Lexer::new("let x = !5;").tokenize(), Err(CompileError::Lexical));
    assert_eq!(Lexer::new("!").tokenize(), Err(CompileError::Lexical));
    assert_eq!(
        Lexer::new("1 != 2").tokenize().unwrap(),
        vec![Token::Number(1), Token::NotEqual, Token::Number(2)]
    );
}

#[test]
fn two_char_operators_and_skipped_chars() {
    let tokens = Lexer::new("a>=b<=c>d<e==f=g @#$ _").tokenize().unwrap();
    assert_eq!(
        tokens,
        vec![
            Token::Ident("a".to_string()),
            Token::GreaterEqual,
            Token::Ident("b".to_string()),
            Token::LessEqual,
            Token::Ident("c".to_string()),
            Token::Greater,
            Token::Ident("d".to_string()),
            Token::Less,
            Token::Ident("e".to_string()),
            Token::EqualEqual,
            Token::Ident("f".to_string()),
            Token::Equal,
            Token::Ident("g".to_string()),
        ]
    );
}

#[test]
fn keywords_and_words() {
    let tokens = Lexer::new("let exit while if elif else lets x_1 If").tokenize().unwrap();
    assert_eq!(
        tokens,
        vec![
            Token::Let,
            Token::Exit,
            Token::While,
            Token::If,
            Token::Elif,
            Token::Else,
            Token::Ident("lets".to_string()),
            Token::Ident("x_1".to_string()),
            Token::Ident("If".to_string()),
        ]
    );
}

#[test]
fn number_wraps_at_32_bits() {
    assert_eq!(Lexer::new("4294967297").tokenize().unwrap(), vec![Token::Number(1)]);
    assert_eq!(Lexer::new("2147483648").tokenize().unwrap(), vec![Token::Number(i32::MIN)]);
    assert_eq!(Lexer::new("").tokenize().unwrap(), vec![]);
}

#[test]
fn syntax_errors() {
    let bad = ["let = 5;", "exit(1)", "exit 1;", "let x = ;", "x = 1;", "if (1) { exit(1);", "exit((1);", "let x = 1 +;"];
    for source in bad {
        let tokens = Lexer::new(source).tokenize().unwrap();
        assert_eq!(Parser::new(tokens).parse().map(|s| s.len()), Err(CompileError::Syntax), "{}", source);
    }
}

#[test]
fn comparison_is_left_folded() {
    let tokens = Lexer::new("a < b < c").tokenize().unwrap();
    match Parser::new(tokens).parse_expr().unwrap() {
        Expr::BinOp(left, Op::Lt, right) => {
            assert!(matches!(*left, Expr::BinOp(_, Op::Lt, _)));
            assert!(matches!(*right, Expr::Ident(ref c) if c == "c"));
        }
        _ => panic!("expected a comparison"),
    }
}

#[test]
fn top_level_close_brace_is_an_error() {
    let tokens = Lexer::new("exit(1); } exit(2);").tokenize().unwrap();
    assert!(matches!(Parser::new(tokens).parse(), Err(CompileError::Syntax)));
    assert_eq!(compile("exit(1); }"), Err(CompileError::Syntax));
    assert_eq!(compile("}"), Err(CompileError::Syntax));
    let tokens = Lexer::new("if (1) { exit(1); } exit(2);").tokenize().unwrap();
    let stmts = Parser::new(tokens).parse().unwrap();
    assert_eq!(stmts.len(), 2);
    assert!(matches!(stmts[1], Stmt::Exit(Expr::Num(2))));
}

#[test]
fn unary_plus_is_rejected_by_the_generator() {
    assert_eq!(compile("exit(+1);"), Err(CompileError::InvalidUnary));
}

#[test]
fn while_loop_lowering() {
    let out = compile("let i = 3; while (i > 0) { let i = i - 1; } exit(i);").unwrap();
    let expected_head = ".while_0:\n    ; while condition\n";
    assert!(out.contains(expected_head));
    assert!(out.contains("    cmp rax, 0\n    je .while_end_1\n    ; while body\n"));
    assert!(pos(&out, "    jmp .while_0\n") < pos(&out, ".while_end_1:\n"));
    assert!(out.contains("    mov [rbp-16], rax\n"));
}

#[test]
fn frame_reserves_top_level_lets() {
    let three = compile("let a = 1; let b = 2; let c = 3; exit(a);").unwrap();
    assert!(three.contains("    sub rsp, 32\n"));
    let nested = compile("if (1) { let a = 1; } exit(0);").unwrap();
    assert!(!nested.contains("sub rsp"));
}

#[test]
fn whole_output_of_exit() {
    let out = compile("exit(42);").unwrap();
    let expected = "section .data\n\nsection .bss\n\nsection .text\nglobal _start\n\n_start:\n    push rbp\n    mov rbp, rsp\n\n    ; exit\n    mov rax, 42\n    mov rdi, rax\n    mov rax, 60\n    syscall\n\n\n    ; default exit\n    mov rax, 60\n    xor rdi, rdi\n    syscall\n";
    assert_eq!(out, expected);
}

#[test]
fn division_and_negative_literal_text() {
    let out = compile("let x = 0 - 7 / 2; exit(x);").unwrap();
    assert!(out.contains("    cqo\n    idiv rbx\n"));
    assert!(out.contains("    sub rax, rbx\n"));
}

#[test]
fn default_generator_is_empty() {
    let tokens = Lexer::new("exit(3);").tokenize().unwrap();
    let stmts = Parser::new(tokens).parse().unwrap();
    assert_eq!(CodeGen::default().generate(&stmts), CodeGen::new().generate(&stmts));
}

#[test]
fn nested_if_labels_are_distinct() {
    let out = compile(
        "if (1) { if (2) { exit(1); } else { exit(2); } } elif (3) { while (0) { exit(5); } } else { exit(4); }",
    )
    .unwrap();
    let labels: Vec<&str> = out.lines().filter(|l| l.ends_with(':') && l.starts_with('.')).collect();
    let mut unique = labels.clone();
    unique.sort();
    unique.dedup();
    assert_eq!(labels.len(), unique.len());
    assert_eq!(out.matches("jmp .if_end_0\n").count(), 2);
}
