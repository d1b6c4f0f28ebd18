use rlox::ast_printer::AstPrinter;
use rlox::environment::Environment;
use rlox::error::{decimal, LoxResult};
use rlox::expr::{BinaryExpr, Expr, LiteralExpr};
use rlox::generate_ast::generate_ast;
use rlox::interpreter::Interpreter;
use rlox::lit::Lit;
use rlox::parser::Parser;
use rlox::scanner::Scanner;
use rlox::token::Token;
use rlox::token_type::TokenType;

/// Runs a program front to back; panics on scan or parse errors.
fn run(source: &str) -> (bool, Vec<String>) {
    let mut scanner = Scanner::new(source.to_string());
    let scan_errors = scanner.scan_tokens();
    assert!(scan_errors.is_empty(), "unexpected scan errors");
    let tokens = scanner.into_tokens();
    let mut parser = Parser::new(tokens);
    let (statements, parse_errors) = parser.parse();
    assert!(parse_errors.is_empty(), "unexpected parse errors");
    let mut interpreter = Interpreter::new();
    let ok = interpreter.interpret(&statements);
    (ok, interpreter.output().clone())
}

/// Like `run`, but also hands back the runtime error that stopped the run.
fn run_with_error(source: &str) -> (bool, Vec<String>, Option<LoxResult>) {
    let mut scanner = Scanner::new(source.to_string());
    let scan_errors = scanner.scan_tokens();
    assert!(scan_errors.is_empty(), "unexpected scan errors");
    let tokens = scanner.into_tokens();
    let mut parser = Parser::new(tokens);
    let (statements, parse_errors) = parser.parse();
    assert!(parse_errors.is_empty(), "unexpected parse errors");
    let mut interpreter = Interpreter::new();
    let ok = interpreter.interpret(&statements);
    (ok, interpreter.output().clone(), interpreter.error().clone())
}

#[test]
fn arithmetic_follows_ieee_double_semantics() {
    let (ok, out) = run("print 0.5 * 4; print 7 / 2; print 10 - 3 - 2;");
    assert!(ok);
    assert_eq!(out, vec!["2", "3.5", "5"]);
}

#[test]
fn division_by_zero_is_a_value_not_an_error() {
    let (ok, out) = run("print (1 / 0) > 100000; print (0 / 0) == (0 / 0);");
    assert!(ok);
    // 1/0 is positive infinity; 0/0 is NaN, which is not equal to itself.
    assert_eq!(out, vec!["true", "false"]);
}

#[test]
fn string_concatenation_and_cross_variant_equality() {
    let (ok, out) = run("print \"a\" + \"b\"; print 1 == \"1\";");
    assert!(ok);
    assert_eq!(out, vec!["ab", "false"]);

    let (ok2, _, err) = run_with_error("print 1 + \"b\";");
    assert!(!ok2);
    assert!(matches!(err, Some(LoxResult::RuntimeError { .. })));
}

#[test]
fn truthiness_of_zero_empty_string_nil_and_false() {
    let (ok, out) = run("print !0; print !\"\"; print !nil; print !false;");
    assert!(ok);
    assert_eq!(out, vec!["false", "false", "true", "true"]);
}

#[test]
fn assignment_to_undeclared_name_is_a_runtime_error() {
    let (ok, _, err) = run_with_error("x = 1;");
    assert!(!ok);
    assert!(matches!(err, Some(LoxResult::RuntimeError { .. })));
}

#[test]
fn declare_then_assign_then_read() {
    let (ok, out) = run("var x; x = 1; print x;");
    assert!(ok);
    assert_eq!(out, vec!["1"]);
}

#[test]
fn shadowing_prints_inner_then_outer() {
    let (ok, out) = run("var x = 1; { var x = 2; print x; } print x;");
    assert!(ok);
    assert_eq!(out, vec!["2", "1"]);
}

#[test]
fn block_declarations_are_invisible_after_the_block() {
    let (ok, out, err) = run_with_error("{ var y = 5; } print y;");
    assert!(!ok);
    assert!(out.is_empty());
    assert!(matches!(err, Some(LoxResult::RuntimeError { .. })));
}

#[test]
fn for_loop_counts_and_variable_stays_scoped() {
    let (ok, out) = run("for (var i = 0; i < 3; i = i + 1) print i;");
    assert!(ok);
    assert_eq!(out, vec!["0", "1", "2"]);

    let (ok2, _, err) = run_with_error(
        "for (var i = 0; i < 3; i = i + 1) print i; print i;",
    );
    assert!(!ok2);
    assert!(matches!(err, Some(LoxResult::RuntimeError { .. })));
}

#[test]
fn while_loop_runs_until_condition_is_false() {
    let (ok, out) = run("var n = 3; while (n > 0) { print n; n = n - 1; }");
    assert!(ok);
    assert_eq!(out, vec!["3", "2", "1"]);
}

#[test]
fn two_independent_syntax_errors_in_one_pass() {
    let mut scanner = Scanner::new("foo bar; baz qux;".to_string());
    let scan_errors = scanner.scan_tokens();
    assert!(scan_errors.is_empty());
    let mut parser = Parser::new(scanner.into_tokens());
    let (_, parse_errors) = parser.parse();
    assert_eq!(parse_errors.len(), 2);
    assert!(parse_errors
        .iter()
        .all(|e| matches!(e, LoxResult::ParseError { .. })));
    assert!(!parser.success());
}

#[test]
fn grouping_and_left_associativity() {
    let (ok, out) = run("print (1 + 2) * 3; print 10 - 3 - 2;");
    assert!(ok);
    assert_eq!(out, vec!["9", "5"]);
}

#[test]
fn unterminated_string_one_error_and_eof_token() {
    let mut scanner = Scanner::new("\"abc".to_string());
    let scan_errors = scanner.scan_tokens();
    assert_eq!(scan_errors.len(), 1);
    assert!(matches!(scan_errors[0], LoxResult::Error { .. }));
    let tokens = scanner.into_tokens();
    assert!(matches!(tokens.last().unwrap().ttype, TokenType::Eof));
}

#[test]
fn unexpected_character_is_reported_and_scanning_continues() {
    let mut scanner = Scanner::new("@ 1".to_string());
    let scan_errors = scanner.scan_tokens();
    assert_eq!(scan_errors.len(), 1);
    let tokens = scanner.into_tokens();
    // The number after the bad character is still scanned.
    assert!(matches!(tokens[0].ttype, TokenType::Number));
    assert!(matches!(tokens.last().unwrap().ttype, TokenType::Eof));
}

#[test]
fn nested_block_comments_are_skipped() {
    let (ok, out) = run("/* outer /* inner */ still out */ print 1;");
    assert!(ok);
    assert_eq!(out, vec!["1"]);
}

#[test]
fn unterminated_block_comment_is_one_error() {
    let mut scanner = Scanner::new("/* never closed".to_string());
    let scan_errors = scanner.scan_tokens();
    assert_eq!(scan_errors.len(), 1);
    assert!(matches!(scan_errors[0], LoxResult::Error { .. }));
}

#[test]
fn logical_operators_return_the_deciding_operand() {
    let (ok, out) = run("print 1 and 2; print nil or \"x\"; print nil and 2; print 1 or 2;");
    assert!(ok);
    assert_eq!(out, vec!["2", "x", "nil", "1"]);
}

#[test]
fn unary_minus_of_a_non_number_is_nil() {
    let (ok, out) = run("print -\"a\";");
    assert!(ok);
    assert_eq!(out, vec!["nil"]);
}

#[test]
fn assignment_is_an_expression_yielding_the_value() {
    let (ok, out) = run("var x; print x = 5;");
    assert!(ok);
    assert_eq!(out, vec!["5"]);
}

#[test]
fn assignment_reaches_the_enclosing_scope() {
    let (ok, out) = run("var x = 1; { x = 2; } print x;");
    assert!(ok);
    assert_eq!(out, vec!["2"]);
}

#[test]
fn dangling_else_binds_to_the_nearest_if() {
    let (ok, out) = run("if (true) if (false) print 1; else print 2;");
    assert!(ok);
    assert_eq!(out, vec!["2"]);
}

#[test]
fn comparing_non_numbers_is_a_runtime_error() {
    let (ok, _, err) = run_with_error("print 1 < \"a\";");
    assert!(!ok);
    match err {
        Some(LoxResult::RuntimeError { message, .. }) => {
            assert_eq!(message, "Expected two numbers.");
        }
        other => panic!("expected a runtime error, got {:?}", other),
    }
}

#[test]
fn calls_are_parsed_but_not_supported_at_runtime() {
    let (ok, _, err) = run_with_error("var f = 1; f(2, 3);");
    assert!(!ok);
    assert!(matches!(err, Some(LoxResult::RuntimeError { .. })));
}

#[test]
fn string_literals_may_span_lines_and_lines_are_counted() {
    let mut scanner = Scanner::new("\"a\nb\"\nx".to_string());
    let scan_errors = scanner.scan_tokens();
    assert!(scan_errors.is_empty());
    let tokens = scanner.into_tokens();
    assert!(matches!(tokens[0].ttype, TokenType::String));
    assert_eq!(tokens[0].literal, Some(Lit::Str("a\nb".to_string())));
    // The identifier after the two-line string sits on line 3.
    assert!(matches!(tokens[1].ttype, TokenType::Identifier));
    assert_eq!(tokens[1].line, 3);
}

#[test]
fn keywords_are_recognized_and_identifiers_pass_through() {
    assert_eq!(Scanner::keywords("and"), Some(TokenType::And));
    assert_eq!(Scanner::keywords("while"), Some(TokenType::While));
    assert_eq!(Scanner::keywords("whilst"), None);
}

#[test]
fn number_literals_parse_with_fraction_but_not_trailing_dot() {
    let mut scanner = Scanner::new("12.5 7. 3".to_string());
    let scan_errors = scanner.scan_tokens();
    assert!(scan_errors.is_empty());
    let tokens = scanner.into_tokens();
    assert!(matches!(tokens[0].ttype, TokenType::Number));
    assert_eq!(tokens[0].literal, Some(Lit::Num(12.5f64.to_bits())));
    // `7.` scans as the number 7 followed by a dot token.
    assert_eq!(tokens[1].literal, Some(Lit::Num(7.0f64.to_bits())));
    assert!(matches!(tokens[2].ttype, TokenType::Dot));
    assert_eq!(tokens[3].literal, Some(Lit::Num(3.0f64.to_bits())));
}

#[test]
fn environment_defines_resolves_and_rejects_unbound_names() {
    let mut env = Environment::new();
    let name = Token::new(TokenType::Identifier, "a", None, 1);
    assert!(env.get(&name).is_err());
    env.define("a", Lit::Num(2.0f64.to_bits()));
    assert_eq!(env.get(&name).ok(), Some(Lit::Num(2.0f64.to_bits())));
    assert!(env.assign(&name, Lit::Bool(true)).is_ok());
    assert_eq!(env.get(&name).ok(), Some(Lit::Bool(true)));
    let other = Token::new(TokenType::Identifier, "b", None, 1);
    assert!(env.assign(&other, Lit::Nil).is_err());
}

#[test]
fn ast_printer_parenthesizes_by_structure() {
    let expr = Expr::Binary(BinaryExpr {
        left: Box::new(Expr::Literal(LiteralExpr {
            value: Some(Lit::Num(1.0f64.to_bits())),
        })),
        operator: Token::new(TokenType::Plus, "+", None, 1),
        right: Box::new(Expr::Literal(LiteralExpr {
            value: Some(Lit::Str("s".to_string())),
        })),
    });
    let printed = AstPrinter.format(&expr).unwrap();
    assert_eq!(printed, "(+ 1 \"s\")");
}

#[test]
fn diagnostic_lines_carry_line_and_location() {
    let lex = LoxResult::error(3, "Unexpected character.");
    assert_eq!(lex.report(""), "[line: 3] Error: Unexpected character.");
    let tok = Token::new(TokenType::Identifier, "x", None, 7);
    let rt = LoxResult::runtime_error(tok, "Undefined variable 'x'.");
    assert_eq!(rt.report(""), "7 at 'x' Undefined variable 'x'.");
    let eof = Token::eof(9);
    let pe = LoxResult::parse_error(eof, "Expect expression.");
    assert_eq!(pe.report(""), "9 at end Expect expression.");
    assert_eq!(decimal(120), "120");
}

#[test]
fn runtime_errors_stop_the_run_and_truncate_output() {
    let (ok, out, err) = run_with_error("print 1; print 2 + nil; print 3;");
    assert!(!ok);
    assert_eq!(out, vec!["1"]);
    assert!(matches!(err, Some(LoxResult::RuntimeError { .. })));
}

#[test]
fn generated_ast_modules_have_the_expected_shape() {
    let files = generate_ast();
    assert_eq!(files.len(), 2);
    assert_eq!(files[0].0, "expr.rs");
    assert_eq!(files[1].0, "stmt.rs");
    let expr_src = &files[0].1;
    assert!(expr_src.starts_with("use crate::error::*;\n"));
    assert!(expr_src.contains("\npub enum Expr {\n"));
    assert!(expr_src.contains("    Binary(BinaryExpr),\n"));
    assert!(expr_src.contains("pub struct BinaryExpr {\n"));
    assert!(expr_src.contains("    pub operator: Token,\n"));
    assert!(expr_src
        .contains("    fn visit_binary_expr(&self, expr: &BinaryExpr) -> Result<T, LoxError>;\n"));
    assert!(expr_src.contains("        visitor.visit_unary_expr(self)\n"));
    let stmt_src = &files[1].1;
    assert!(stmt_src.contains("\npub enum Stmt {\n"));
    assert!(stmt_src.contains("pub struct IfStmt {\n"));
    assert!(stmt_src.contains("    pub else_branch: Option<Box<Stmt>>,\n"));
}
