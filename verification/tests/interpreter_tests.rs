use rlox::expr::{BinaryExpr, Expr, LiteralExpr, UnaryExpr};
use rlox::interpreter::Interpreter;
use rlox::lit::Lit;
use rlox::token::Token;
use rlox::token_type::TokenType;

fn make_literal_num_expr(i: f64) -> Box<Expr> {
    Box::new(Expr::Literal(LiteralExpr {
        value: Some(Lit::Num(i.to_bits())),
    }))
}

fn make_literal_str_expr(s: &str) -> Box<Expr> {
    Box::new(Expr::Literal(LiteralExpr {
        value: Some(Lit::Str(s.to_string())),
    }))
}

fn make_literal_bool_expr(b: bool) -> Box<Expr> {
    Box::new(Expr::Literal(LiteralExpr {
        value: Some(Lit::Bool(b)),
    }))
}

fn make_literal_nil_expr() -> Box<Expr> {
    Box::new(Expr::Literal(LiteralExpr {
        value: Some(Lit::Nil),
    }))
}

#[test]
fn test_unary_minus() {
    let mut interpreter = Interpreter::new();
    let unary_expr = Expr::Unary(UnaryExpr {
        operator: Token::new(TokenType::Minus, "-", None, 0),
        right: make_literal_num_expr(10.0),
    });
    let result = interpreter.evaluate(&unary_expr);
    assert!(result.is_ok());
    assert_eq!(result.ok(), Some(Lit::Num((-10.0f64).to_bits())));
}

#[test]
fn test_unary_not() {
    let mut interpreter = Interpreter::new();
    let unary_expr = Expr::Unary(UnaryExpr {
        operator: Token::new(TokenType::Bang, "!", None, 0),
        right: make_literal_bool_expr(false),
    });
    let result = interpreter.evaluate(&unary_expr);
    assert!(result.is_ok());
    assert_eq!(result.ok(), Some(Lit::Bool(true)));
}

#[test]
fn test_binary_sub() {
    let mut interpreter = Interpreter::new();
    let binary_expr = Expr::Binary(BinaryExpr {
        operator: Token::new(TokenType::Minus, "-", None, 0),
        left: make_literal_num_expr(10.0),
        right: make_literal_num_expr(3.0),
    });
    let result = interpreter.evaluate(&binary_expr);
    assert!(result.is_ok());
    assert_eq!(result.ok(), Some(Lit::Num(7.0f64.to_bits())));
}

#[test]
fn test_binary_mul() {
    let mut interpreter = Interpreter::new();
    let binary_expr = Expr::Binary(BinaryExpr {
        operator: Token::new(TokenType::Star, "*", None, 0),
        left: make_literal_num_expr(10.0),
        right: make_literal_num_expr(3.0),
    });
    let result = interpreter.evaluate(&binary_expr);
    assert!(result.is_ok());
    assert_eq!(result.ok(), Some(Lit::Num(30.0f64.to_bits())));
}

#[test]
fn test_binary_div() {
    let mut interpreter = Interpreter::new();
    let binary_expr = Expr::Binary(BinaryExpr {
        operator: Token::new(TokenType::Slash, "/", None, 0),
        left: make_literal_num_expr(10.0),
        right: make_literal_num_expr(2.0),
    });
    let result = interpreter.evaluate(&binary_expr);
    assert!(result.is_ok());
    assert_eq!(result.ok(), Some(Lit::Num(5.0f64.to_bits())));
}

#[test]
fn test_binary_add() {
    let mut interpreter = Interpreter::new();
    let binary_expr = Expr::Binary(BinaryExpr {
        operator: Token::new(TokenType::Plus, "+", None, 0),
        left: make_literal_num_expr(10.0),
        right: make_literal_num_expr(2.0),
    });
    let result = interpreter.evaluate(&binary_expr);
    assert!(result.is_ok());
    assert_eq!(result.ok(), Some(Lit::Num(12.0f64.to_bits())));
}

#[test]
fn test_binary_concat() {
    let mut interpreter = Interpreter::new();
    let binary_expr = Expr::Binary(BinaryExpr {
        operator: Token::new(TokenType::Plus, "+", None, 0),
        left: make_literal_str_expr("abcdef"),
        right: make_literal_str_expr("012345"),
    });
    let result = interpreter.evaluate(&binary_expr);
    assert!(result.is_ok());
    assert_eq!(result.ok(), Some(Lit::Str(String::from("abcdef012345"))));
}

#[test]
fn test_error_str_num_binary_concat() {
    let mut interpreter = Interpreter::new();
    let binary_expr = Expr::Binary(BinaryExpr {
        operator: Token::new(TokenType::Plus, "+", None, 0),
        left: make_literal_str_expr("abcdef"),
        right: make_literal_num_expr(123.0),
    });
    let result = interpreter.evaluate(&binary_expr);
    assert!(result.is_err());
}

#[test]
fn test_binary_greater_than() {
    let mut interpreter = Interpreter::new();
    let binary_expr = Expr::Binary(BinaryExpr {
        operator: Token::new(TokenType::Greater, ">", None, 0),
        left: make_literal_num_expr(10.0),
        right: make_literal_num_expr(2.0),
    });
    let result = interpreter.evaluate(&binary_expr);
    assert!(result.is_ok());
    assert_eq!(result.ok(), Some(Lit::Bool(true)));
}

#[test]
fn test_binary_less_than() {
    let mut interpreter = Interpreter::new();
    let binary_expr = Expr::Binary(BinaryExpr {
        operator: Token::new(TokenType::Less, "<", None, 0),
        left: make_literal_num_expr(10.0),
        right: make_literal_num_expr(2.0),
    });
    let result = interpreter.evaluate(&binary_expr);
    assert!(result.is_ok());
    assert_eq!(result.ok(), Some(Lit::Bool(false)));
}

#[test]
fn test_binary_less_than_equal() {
    let mut interpreter = Interpreter::new();
    let binary_expr = Expr::Binary(BinaryExpr {
        operator: Token::new(TokenType::LessEqual, "<=", None, 0),
        left: make_literal_num_expr(10.0),
        right: make_literal_num_expr(10.0),
    });
    let result = interpreter.evaluate(&binary_expr);
    assert!(result.is_ok());
    assert_eq!(result.ok(), Some(Lit::Bool(true)));
}

#[test]
fn test_binary_greater_than_equal() {
    let mut interpreter = Interpreter::new();
    let binary_expr = Expr::Binary(BinaryExpr {
        operator: Token::new(TokenType::GreaterEqual, ">=", None, 0),
        left: make_literal_num_expr(10.0),
        right: make_literal_num_expr(10.0),
    });
    let result = interpreter.evaluate(&binary_expr);
    assert!(result.is_ok());
    assert_eq!(result.ok(), Some(Lit::Bool(true)));
}

#[test]
fn test_err_binary_greater_than() {
    let mut interpreter = Interpreter::new();
    let binary_expr = Expr::Binary(BinaryExpr {
        operator: Token::new(TokenType::GreaterEqual, ">=", None, 0),
        left: make_literal_str_expr("10.0"),
        right: make_literal_num_expr(10.0),
    });
    let result = interpreter.evaluate(&binary_expr);
    assert!(result.is_err());
}

#[test]
fn test_err_binary_greater_than_equal() {
    let mut interpreter = Interpreter::new();
    let binary_expr = Expr::Binary(BinaryExpr {
        operator: Token::new(TokenType::GreaterEqual, ">=", None, 0),
        left: make_literal_str_expr("10.0"),
        right: make_literal_nil_expr(),
    });
    let result = interpreter.evaluate(&binary_expr);
    assert!(result.is_err());
}

#[test]
fn test_binary_equal() {
    let mut interpreter = Interpreter::new();
    let binary_expr = Expr::Binary(BinaryExpr {
        operator: Token::new(TokenType::EqualEqual, "==", None, 0),
        left: make_literal_nil_expr(),
        right: make_literal_nil_expr(),
    });
    let result = interpreter.evaluate(&binary_expr);
    assert!(result.is_ok());
    assert_eq!(result.ok(), Some(Lit::Bool(true)));
}
