use lox::bytecode::{ByteCode, Opcode};
use lox::compiler::{compile, CompileErrorKind};
use lox::token::{Token, TokenType};
use lox::vm::{NumericOp, RuntimeFault, Step, Value, VM};

fn tok(kind: TokenType, lexeme: &str) -> Token {
    Token::new(kind, lexeme.to_string(), 1)
}

fn num(lexeme: &str) -> Token {
    let value: f64 = lexeme.parse().unwrap();
    Token::number(lexeme.to_string(), value.to_bits(), 1)
}

fn text(lexeme: &str) -> Token {
    tok(TokenType::String, lexeme)
}

fn compute(op: NumericOp, a: u64, b: u64) -> Value {
    let x = f64::from_bits(a);
    let y = f64::from_bits(b);
    match op {
        NumericOp::Negate => Value::Num((-x).to_bits()),
        NumericOp::Add => Value::Num((x + y).to_bits()),
        NumericOp::Subtract => Value::Num((x - y).to_bits()),
        NumericOp::Multiply => Value::Num((x * y).to_bits()),
        NumericOp::Divide => Value::Num((x / y).to_bits()),
        NumericOp::Less => Value::Bool(x < y),
        NumericOp::LessEqual => Value::Bool(x <= y),
        NumericOp::Greater => Value::Bool(x > y),
        NumericOp::GreaterEqual => Value::Bool(x >= y),
        NumericOp::Equal => Value::Bool(x == y),
        NumericOp::NotEqual => Value::Bool(x != y),
    }
}

fn evaluate(code: &ByteCode) -> Result<Value, RuntimeFault> {
    let mut vm = VM::new();
    loop {
        match vm.run(code) {
            Step::Finished(v) => return Ok(v),
            Step::Fault(f) => return Err(f),
            Step::Numeric(op, a, b) => vm.push(compute(op, a, b))?,
            Step::Continue => {}
        }
    }
}

fn number_of(v: &Value) -> f64 {
    match v {
        Value::Num(bits) => f64::from_bits(*bits),
        _ => panic!("not a number: {:?}", v),
    }
}

fn run_tokens(tokens: Vec<Token>) -> Value {
    let code = compile(&tokens).expect("compiles");
    evaluate(&code).expect("runs")
}

#[test]
fn arithm_precedence() {
    // 2 - 6 / 2 + 2 * 4;
    let tokens = vec![
        num("2"),
        tok(TokenType::Minus, "-"),
        num("6"),
        tok(TokenType::Slash, "/"),
        num("2"),
        tok(TokenType::Plus, "+"),
        num("2"),
        tok(TokenType::Star, "*"),
        num("4"),
        tok(TokenType::Semicolon, ";"),
        tok(TokenType::Eof, ""),
    ];
    let val = run_tokens(tokens);
    assert_eq!(val, Value::Num(7.0f64.to_bits()));
}

#[test]
fn parenthesis_precedence() {
    // ( 2*  3 + (2 + 3)) * ((2 + 4) * 2);
    let tokens = vec![
        tok(TokenType::LeftParen, "("),
        num("2"),
        tok(TokenType::Star, "*"),
        num("3"),
        tok(TokenType::Plus, "+"),
        tok(TokenType::LeftParen, "("),
        num("2"),
        tok(TokenType::Plus, "+"),
        num("3"),
        tok(TokenType::RightParen, ")"),
        tok(TokenType::RightParen, ")"),
        tok(TokenType::Star, "*"),
        tok(TokenType::LeftParen, "("),
        tok(TokenType::LeftParen, "("),
        num("2"),
        tok(TokenType::Plus, "+"),
        num("4"),
        tok(TokenType::RightParen, ")"),
        tok(TokenType::Star, "*"),
        num("2"),
        tok(TokenType::RightParen, ")"),
        tok(TokenType::Semicolon, ";"),
        tok(TokenType::Eof, ""),
    ];
    let val = run_tokens(tokens);
    assert_eq!(val, Value::Num(132.0f64.to_bits()));
}

#[test]
fn repeated_operator_groups_left() {
    // 8 - 2 - 1 is (8 - 2) - 1
    let tokens = vec![
        num("8"),
        tok(TokenType::Minus, "-"),
        num("2"),
        tok(TokenType::Minus, "-"),
        num("1"),
        tok(TokenType::Eof, ""),
    ];
    assert_eq!(number_of(&run_tokens(tokens)), 5.0);
}

#[test]
fn division_binds_tighter_than_subtraction() {
    // 1 - 2 / 4 - 1: (1 - (2 / 4)) - 1
    let tokens = vec![
        num("1"),
        tok(TokenType::Minus, "-"),
        num("2"),
        tok(TokenType::Slash, "/"),
        num("4"),
        tok(TokenType::Minus, "-"),
        num("1"),
        tok(TokenType::Semicolon, ";"),
        tok(TokenType::Eof, ""),
    ];
    assert_eq!(number_of(&run_tokens(tokens)), -0.5);
}

#[test]
fn comparison_binds_loosest() {
    // 1 + 2 < 2 * 2
    let tokens = vec![
        num("1"),
        tok(TokenType::Plus, "+"),
        num("2"),
        tok(TokenType::Less, "<"),
        num("2"),
        tok(TokenType::Star, "*"),
        num("2"),
        tok(TokenType::Eof, ""),
    ];
    assert_eq!(run_tokens(tokens), Value::Bool(true));
}

#[test]
fn division_by_zero_gives_infinity() {
    let tokens = vec![num("1"), tok(TokenType::Slash, "/"), num("0"), tok(TokenType::Eof, "")];
    assert_eq!(number_of(&run_tokens(tokens)), f64::INFINITY);
}

#[test]
fn single_literal_evaluates_to_itself() {
    let tokens = vec![num("2.5"), tok(TokenType::Semicolon, ";"), tok(TokenType::Eof, "")];
    assert_eq!(number_of(&run_tokens(tokens)), 2.5);
}

#[test]
fn empty_input_compiles_to_lone_return() {
    let tokens = vec![Token::new(TokenType::Eof, String::new(), 4)];
    let code = compile(&tokens).unwrap();
    assert_eq!(code.code, vec![Opcode::Ret.to_byte()]);
    assert_eq!(code.line_info, vec![4]);
    assert_eq!(evaluate(&code), Err(RuntimeFault::StackUnderflow));
}

#[test]
fn string_concatenation() {
    let tokens = vec![text("ab"), tok(TokenType::Plus, "+"), text("cd"), tok(TokenType::Eof, "")];
    assert_eq!(run_tokens(tokens), Value::Str("abcd".to_string()));
}

#[test]
fn string_equality() {
    let tokens = vec![
        text("ab"),
        tok(TokenType::EqualEqual, "=="),
        text("ab"),
        tok(TokenType::Eof, ""),
    ];
    assert_eq!(run_tokens(tokens), Value::Bool(true));
    let tokens = vec![
        text("ab"),
        tok(TokenType::BangEqual, "!="),
        text("ab"),
        tok(TokenType::Eof, ""),
    ];
    assert_eq!(run_tokens(tokens), Value::Bool(false));
}

#[test]
fn number_and_string_are_rejected_at_compile_time() {
    let tokens = vec![num("2"), tok(TokenType::Plus, "+"), text("a"), tok(TokenType::Eof, "")];
    let err = compile(&tokens).unwrap_err();
    assert_eq!(err.kind, CompileErrorKind::TypeMismatch);
    assert_eq!(err.line, 1);
}

#[test]
fn group_is_exempt_from_operand_type_rule() {
    let tokens = vec![
        text("a"),
        tok(TokenType::Plus, "+"),
        tok(TokenType::LeftParen, "("),
        text("b"),
        tok(TokenType::RightParen, ")"),
        tok(TokenType::Eof, ""),
    ];
    assert_eq!(run_tokens(tokens), Value::Str("ab".to_string()));
}

#[test]
fn missing_right_operand() {
    let tokens = vec![num("2"), tok(TokenType::Plus, "+"), tok(TokenType::Eof, "")];
    assert_eq!(compile(&tokens).unwrap_err().kind, CompileErrorKind::MissingOperand);
}

#[test]
fn unclosed_group() {
    let tokens = vec![
        tok(TokenType::LeftParen, "("),
        num("2"),
        tok(TokenType::Plus, "+"),
        num("3"),
        tok(TokenType::Semicolon, ";"),
        tok(TokenType::Eof, ""),
    ];
    assert_eq!(compile(&tokens).unwrap_err().kind, CompileErrorKind::UnmatchedParen);
}

#[test]
fn unexpected_leading_token() {
    let tokens = vec![tok(TokenType::Plus, "+"), num("2"), tok(TokenType::Eof, "")];
    assert_eq!(compile(&tokens).unwrap_err().kind, CompileErrorKind::UnexpectedToken);
    let tokens = vec![tok(TokenType::True, "true"), tok(TokenType::Eof, "")];
    assert_eq!(compile(&tokens).unwrap_err().kind, CompileErrorKind::UnexpectedToken);
}

#[test]
fn operand_without_operator_between() {
    let tokens = vec![
        num("2"),
        tok(TokenType::Plus, "+"),
        num("3"),
        num("4"),
        tok(TokenType::Eof, ""),
    ];
    assert_eq!(compile(&tokens).unwrap_err().kind, CompileErrorKind::UnknownOperator);
}

#[test]
fn tokens_after_terminator_are_rejected() {
    let tokens = vec![
        num("2"),
        tok(TokenType::Semicolon, ";"),
        num("3"),
        tok(TokenType::Eof, ""),
    ];
    assert_eq!(compile(&tokens).unwrap_err().kind, CompileErrorKind::UnexpectedToken);
}

#[test]
fn too_many_constants() {
    let mut tokens = vec![num("1")];
    for _ in 0..256 {
        tokens.push(tok(TokenType::Plus, "+"));
        tokens.push(num("1"));
    }
    tokens.push(tok(TokenType::Eof, ""));
    assert_eq!(compile(&tokens).unwrap_err().kind, CompileErrorKind::TooManyConstants);
    tokens.truncate(511);
    tokens.push(tok(TokenType::Eof, ""));
    assert_eq!(number_of(&run_tokens(tokens)), 256.0);
}
