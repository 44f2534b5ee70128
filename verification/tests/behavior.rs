use naag::environment::Environment;
use naag::interpreter::{evaluate_expression, run};
use naag::scanner::{LiteralValue, Scanner, Token, TokenType};

fn scan(source: &str) -> Result<Vec<Token>, String> {
    let mut scanner = Scanner::new(source);
    scanner.scan_tokens()
}

fn fresh() -> (Environment, Vec<String>) {
    (Environment::new(), Vec::new())
}

#[test]
fn empty_source_yields_only_eof() {
    let tokens = scan("").expect("empty source must scan");
    assert_eq!(tokens.len(), 1);
    assert_eq!(tokens[0].token_type, TokenType::Eof);
    assert_eq!(tokens[0].lexeme, "");
    assert_eq!(tokens[0].line_number, 1);
}

#[test]
fn comment_only_yields_only_eof() {
    let tokens = scan("// hi").expect("comment must scan");
    assert_eq!(tokens.len(), 1);
    assert_eq!(tokens[0].token_type, TokenType::Eof);
}

#[test]
fn comment_runs_to_end_of_line_only() {
    let tokens = scan("// c\nvar").expect("must scan");
    assert_eq!(tokens.len(), 2);
    assert_eq!(tokens[0].token_type, TokenType::Var);
    assert_eq!(tokens[0].line_number, 2);
}

#[test]
fn slash_alone_is_division() {
    let tokens = scan("/").expect("must scan");
    assert_eq!(tokens.len(), 2);
    assert_eq!(tokens[0].token_type, TokenType::Slash);
}

#[test]
fn unterminated_string_fails_scanning() {
    let err = scan("\"abc").expect_err("unterminated string must fail");
    assert!(err.contains("unterminated string"), "got: {}", err);
}

#[test]
fn unrecognized_char_names_char_and_line() {
    let err = scan("@").expect_err("must fail");
    assert_eq!(err, "unrecognized char at line 1: @");
}

#[test]
fn lexical_errors_are_all_collected() {
    let err = scan("@\n#").expect_err("must fail");
    assert_eq!(
        err,
        "unrecognized char at line 1: @\nunrecognized char at line 2: #"
    );
}

#[test]
fn number_token_carries_value() {
    let tokens = scan("123").expect("must scan");
    assert_eq!(tokens.len(), 2);
    assert_eq!(tokens[0].token_type, TokenType::Number);
    assert_eq!(tokens[0].lexeme, "123");
    assert_eq!(tokens[0].literal, Some(LiteralValue::IntValue(123)));
}

#[test]
fn number_too_large_is_a_lexical_error() {
    let err = scan("99999999999999999999").expect_err("must fail");
    assert_eq!(err, "number too large at line 1");
}

#[test]
fn largest_number_still_scans() {
    let tokens = scan("9223372036854775807").expect("must scan");
    assert_eq!(
        tokens[0].literal,
        Some(LiteralValue::IntValue(i64::MAX))
    );
}

#[test]
fn string_token_carries_text() {
    let tokens = scan("\"hi\"").expect("must scan");
    assert_eq!(tokens.len(), 2);
    assert_eq!(tokens[0].token_type, TokenType::Stringlit);
    assert_eq!(tokens[0].lexeme, "\"hi\"");
    assert_eq!(
        tokens[0].literal,
        Some(LiteralValue::StringValue(String::from("hi")))
    );
}

#[test]
fn string_with_newline_counts_lines() {
    let tokens = scan("\"a\nb\" (").expect("must scan");
    assert_eq!(tokens[0].token_type, TokenType::Stringlit);
    // the token carries the line of its first character, the opening quote
    assert_eq!(tokens[0].line_number, 1);
    // the embedded newline still advances the line counter for what follows
    assert_eq!(tokens[1].token_type, TokenType::LeftParen);
    assert_eq!(tokens[1].line_number, 2);
}

#[test]
fn var_is_a_keyword_but_longer_names_are_not() {
    let tokens = scan("var variable").expect("must scan");
    assert_eq!(tokens.len(), 3);
    assert_eq!(tokens[0].token_type, TokenType::Var);
    assert_eq!(tokens[1].token_type, TokenType::Identifier);
    assert_eq!(tokens[1].lexeme, "variable");
}

#[test]
fn newline_increments_line_number() {
    let tokens = scan("(\n)").expect("must scan");
    assert_eq!(tokens[0].line_number, 1);
    assert_eq!(tokens[1].line_number, 2);
    assert_eq!(tokens[2].line_number, 2);
}

#[test]
fn token_to_string_shows_kind_lexeme_and_literal() {
    let t = Token::new(
        TokenType::Number,
        String::from("42"),
        Some(LiteralValue::IntValue(42)),
        1,
    );
    assert_eq!(t.to_string(), "Number 42 Some(IntValue(42))");
    let s = Token::new(
        TokenType::Stringlit,
        String::from("\"hi\""),
        Some(LiteralValue::StringValue(String::from("hi"))),
        1,
    );
    assert_eq!(s.to_string(), "Stringlit \"hi\" Some(StringValue(\"hi\"))");
    let i = Token::new(
        TokenType::Identifier,
        String::from("x"),
        Some(LiteralValue::IdentifierValue(String::from("x"))),
        2,
    );
    assert_eq!(i.to_string(), "Identifier x Some(IdentifierValue(\"x\"))");
    let e = Token::new(TokenType::Eof, String::new(), None, 3);
    assert_eq!(e.to_string(), "Eof  None");
}

#[test]
fn division_by_zero_fails() {
    let (mut env, mut out) = fresh();
    let err = run("var d = 10 / 0;", &mut env, &mut out).expect_err("must fail");
    assert_eq!(err, "Division by zero");
    assert_eq!(env.get("d"), None);
}

#[test]
fn fold_is_left_to_right_without_precedence() {
    let (mut env, mut out) = fresh();
    run("var z = 2 - 3 + 4;", &mut env, &mut out).expect("must run");
    assert_eq!(env.get("z"), Some(&LiteralValue::IntValue(3)));
}

#[test]
fn multiplication_and_division_fold_too() {
    let (mut env, mut out) = fresh();
    run("var m = 6 * 7; var q = 7 / 2;", &mut env, &mut out).expect("must run");
    assert_eq!(env.get("m"), Some(&LiteralValue::IntValue(42)));
    assert_eq!(env.get("q"), Some(&LiteralValue::IntValue(3)));
}

#[test]
fn identifier_operand_resolves() {
    let (mut env, mut out) = fresh();
    run("var a = 2; var b = a + 3;", &mut env, &mut out).expect("must run");
    assert_eq!(env.get("b"), Some(&LiteralValue::IntValue(5)));
}

#[test]
fn assignment_to_undeclared_name_fails_and_binds_nothing() {
    let (mut env, mut out) = fresh();
    let err = run("x = 1;", &mut env, &mut out).expect_err("must fail");
    assert_eq!(err, "Undefined variable 'x'");
    assert_eq!(env.get("x"), None);
}

#[test]
fn assignment_to_declared_name_overwrites() {
    let (mut env, mut out) = fresh();
    run("var x = 1; x = 2;", &mut env, &mut out).expect("must run");
    assert_eq!(env.get("x"), Some(&LiteralValue::IntValue(2)));
}

#[test]
fn read_prints_name_and_value() {
    let (mut env, mut out) = fresh();
    run("var x = 42; x;", &mut env, &mut out).expect("must run");
    assert_eq!(out, vec![String::from("x = 42")]);
}

#[test]
fn read_of_negative_value_prints_minus_sign() {
    let (mut env, mut out) = fresh();
    run("var n = 0 - 5; n;", &mut env, &mut out).expect("must run");
    assert_eq!(out, vec![String::from("n = -5")]);
}

#[test]
fn lines_before_an_error_are_still_produced() {
    let (mut env, mut out) = fresh();
    let err = run("var a = 1; a b;", &mut env, &mut out).expect_err("must fail");
    assert_eq!(err, "Undefined variable 'b'");
    assert_eq!(out, vec![String::from("a = 1")]);
}

#[test]
fn undefined_read_fails_and_prints_nothing() {
    let (mut env, mut out) = fresh();
    let err = run("print x;", &mut env, &mut out).expect_err("must fail");
    assert_eq!(err, "Undefined variable 'print'");
    assert!(out.is_empty());
}

#[test]
fn string_literal_is_not_an_expression_term() {
    let (mut env, mut out) = fresh();
    let err = run("var s = \"hi\";", &mut env, &mut out).expect_err("must fail");
    assert_eq!(err, "Expected a number or variable");
}

#[test]
fn malformed_var_form_is_skipped_silently() {
    let (mut env, mut out) = fresh();
    run("var + ;", &mut env, &mut out).expect("must run");
    assert!(out.is_empty());
}

#[test]
fn scan_error_aborts_run_before_execution() {
    let (mut env, mut out) = fresh();
    let err = run("var x = 1; @", &mut env, &mut out).expect_err("must fail");
    assert_eq!(err, "unrecognized char at line 1: @");
    assert_eq!(env.get("x"), None);
}

#[test]
fn evaluate_expression_divides_and_detects_zero() {
    let env = Environment::new();
    let tokens = vec![
        Token::new(
            TokenType::Number,
            String::from("10"),
            Some(LiteralValue::IntValue(10)),
            1,
        ),
        Token::new(TokenType::Slash, String::from("/"), None, 1),
        Token::new(
            TokenType::Number,
            String::from("0"),
            Some(LiteralValue::IntValue(0)),
            1,
        ),
    ];
    let mut pos: usize = 0;
    let err = evaluate_expression(&tokens, &mut pos, &env).expect_err("must fail");
    assert_eq!(err, "Division by zero");
}

#[test]
fn evaluate_expression_folds_left_to_right() {
    let env = Environment::new();
    let tokens = vec![
        Token::new(
            TokenType::Number,
            String::from("2"),
            Some(LiteralValue::IntValue(2)),
            1,
        ),
        Token::new(TokenType::Minus, String::from("-"), None, 1),
        Token::new(
            TokenType::Number,
            String::from("3"),
            Some(LiteralValue::IntValue(3)),
            1,
        ),
        Token::new(TokenType::Plus, String::from("+"), None, 1),
        Token::new(
            TokenType::Number,
            String::from("4"),
            Some(LiteralValue::IntValue(4)),
            1,
        ),
    ];
    let mut pos: usize = 0;
    let value = evaluate_expression(&tokens, &mut pos, &env).expect("must evaluate");
    assert_eq!(value, LiteralValue::IntValue(3));
    assert_eq!(pos, 5);
}

#[test]
fn addition_wraps_on_overflow() {
    let (mut env, mut out) = fresh();
    run(
        "var w = 9223372036854775807 + 1; var v = 0 - 9223372036854775807 - 2;",
        &mut env,
        &mut out,
    )
    .expect("must run");
    assert_eq!(env.get("w"), Some(&LiteralValue::IntValue(i64::MIN)));
    assert_eq!(env.get("v"), Some(&LiteralValue::IntValue(i64::MAX)));
}

#[test]
fn environment_define_get_assign() {
    let mut env = Environment::new();
    assert_eq!(env.get("a"), None);
    env.define(String::from("a"), LiteralValue::IntValue(1));
    assert_eq!(env.get("a"), Some(&LiteralValue::IntValue(1)));
    env.define(String::from("a"), LiteralValue::IntValue(2));
    assert_eq!(env.get("a"), Some(&LiteralValue::IntValue(2)));
    env.assign("a", LiteralValue::IntValue(3)).expect("bound name");
    assert_eq!(env.get("a"), Some(&LiteralValue::IntValue(3)));
    let err = env
        .assign("b", LiteralValue::IntValue(4))
        .expect_err("unbound name");
    assert_eq!(err, "Undefined variable 'b'");
    assert_eq!(env.get("b"), None);
}
