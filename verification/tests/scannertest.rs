use naag::environment::Environment;
use naag::interpreter::run;
use naag::scanner::{LiteralValue, Scanner, TokenType};

#[test]
fn handle_one_char() {
    let source = "( ) { }";
    let mut scanner = Scanner::new(source);
    let tokens = scanner.scan_tokens().expect("Failed to scan tokens");

    assert_eq!(tokens.len(), 5); // 4 characters + EOF token
    assert_eq!(tokens[0].token_type, TokenType::LeftParen);
    assert_eq!(tokens[1].token_type, TokenType::RightParen);
    assert_eq!(tokens[2].token_type, TokenType::LeftBrace);
    assert_eq!(tokens[3].token_type, TokenType::RightBrace);
    assert_eq!(tokens[4].token_type, TokenType::Eof);
}

#[test]
fn handle_twochar_tokens() {
    let source = "! != == >=";
    let mut scanner = Scanner::new(source);
    let tokens = scanner.scan_tokens().expect("Failed to scan tokens");

    assert_eq!(tokens.len(), 5); // 4 tokens + EOF
    assert_eq!(tokens[0].token_type, TokenType::Bang);
    assert_eq!(tokens[1].token_type, TokenType::BangEqual);
    assert_eq!(tokens[2].token_type, TokenType::EqualEqual);
    assert_eq!(tokens[3].token_type, TokenType::GreaterEqual);
    assert_eq!(tokens[4].token_type, TokenType::Eof);
}

#[test]
fn handle_variable_definition() {
    let mut env = Environment::new();
    let mut out: Vec<String> = Vec::new();
    let source = "var x = 42;";
    let mut scanner = Scanner::new(source);
    let tokens = scanner.scan_tokens().expect("Failed to scan tokens");

    assert_eq!(tokens.len(), 6); // var, x, =, 42, ;, and EOF
    run(source, &mut env, &mut out).expect("Failed to run");
    assert_eq!(env.get("x"), Some(&LiteralValue::IntValue(42)));
}

#[test]
fn handle_basic_arithmetic() {
    let source = "var y = 5 + 3;";
    let mut env = Environment::new();
    let mut out: Vec<String> = Vec::new();
    run(source, &mut env, &mut out).expect("Failed to run");
    assert_eq!(env.get("y"), Some(&LiteralValue::IntValue(8)));
}

#[test]
fn handle_undefined_variable() {
    let mut env = Environment::new();
    let mut out: Vec<String> = Vec::new();
    let source = "print x;";
    assert!(
        run(source, &mut env, &mut out).is_err(),
        "Should fail on undefined variable"
    );
}
