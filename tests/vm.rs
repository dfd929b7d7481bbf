use lox::bytecode::{ByteCode, Opcode};
use lox::compiler::compile;
use lox::token::{Token, TokenType};
use lox::vm::{NumericOp, RuntimeFault, Step, Value, VM};

fn fragment(code: &[u8]) -> ByteCode {
    let mut f = ByteCode::new();
    for b in code {
        f.write_code(*b, 1);
    }
    f
}

fn op(o: Opcode) -> u8 {
    o.to_byte()
}

#[test]
fn constant_index_out_of_range_is_a_runtime_fault() {
    let mut f = fragment(&[op(Opcode::Num), 3, op(Opcode::Ret)]);
    f.write_number(1.0f64.to_bits());
    let mut vm = VM::new();
    assert!(matches!(vm.run(&f), Step::Fault(RuntimeFault::ConstantOutOfRange)));
    let f = fragment(&[op(Opcode::Str), 0, op(Opcode::Ret)]);
    let mut vm = VM::new();
    assert!(matches!(vm.run(&f), Step::Fault(RuntimeFault::ConstantOutOfRange)));
}

#[test]
fn pop_on_empty_stack_is_a_runtime_fault() {
    for o in [Opcode::Ret, Opcode::Add, Opcode::Neg, Opcode::Not, Opcode::Equal] {
        let f = fragment(&[op(o), op(Opcode::Ret)]);
        let mut vm = VM::new();
        assert!(matches!(vm.run(&f), Step::Fault(RuntimeFault::StackUnderflow)));
    }
    let mut vm = VM::new();
    assert!(matches!(vm.pop(), Err(RuntimeFault::StackUnderflow)));
}

#[test]
fn number_equal_to_boolean_is_a_type_fault() {
    // 1 == true
    let mut f = fragment(&[op(Opcode::Num), 0, op(Opcode::True), op(Opcode::Equal), op(Opcode::Ret)]);
    f.write_number(1.0f64.to_bits());
    let mut vm = VM::new();
    assert!(matches!(vm.run(&f), Step::Fault(RuntimeFault::TypeMismatch)));
}

#[test]
fn unknown_opcode_and_overrun_are_faults() {
    let mut vm = VM::new();
    assert!(matches!(vm.run(&fragment(&[99])), Step::Fault(RuntimeFault::UnknownOpcode)));
    let mut vm = VM::new();
    assert!(matches!(vm.run(&fragment(&[op(Opcode::True)])), Step::Fault(RuntimeFault::CodeOverrun)));
    let mut vm = VM::new();
    assert!(matches!(vm.run(&fragment(&[op(Opcode::Num)])), Step::Fault(RuntimeFault::CodeOverrun)));
}

#[test]
fn stack_overflow_is_a_fault() {
    let mut code = vec![op(Opcode::True); 257];
    code.push(op(Opcode::Ret));
    let mut vm = VM::new();
    assert!(matches!(vm.run(&fragment(&code)), Step::Fault(RuntimeFault::StackOverflow)));
    let mut vm = VM::new();
    for _ in 0..256 {
        assert!(vm.push(Value::Nil).is_ok());
    }
    assert_eq!(vm.push(Value::Nil), Err(RuntimeFault::StackOverflow));
}

#[test]
fn booleans_and_strings_are_handled_in_the_machine() {
    let f = fragment(&[op(Opcode::True), op(Opcode::Not), op(Opcode::False), op(Opcode::Equal), op(Opcode::Ret)]);
    let mut vm = VM::new();
    assert!(matches!(vm.run(&f), Step::Finished(Value::Bool(true))));
    let mut f = fragment(&[op(Opcode::Str), 0, op(Opcode::Str), 1, op(Opcode::Add), op(Opcode::Ret)]);
    f.write_string("ab".to_string());
    f.write_string("cd".to_string());
    let mut vm = VM::new();
    match vm.run(&f) {
        Step::Finished(v) => {
            assert!(v.is_string());
            assert_eq!(v.get_string(), "abcd".to_string());
        }
        other => panic!("unexpected {:?}", other),
    }
    let mut f = fragment(&[op(Opcode::Str), 0, op(Opcode::Str), 1, op(Opcode::Sub), op(Opcode::Ret)]);
    f.write_string("ab".to_string());
    f.write_string("cd".to_string());
    let mut vm = VM::new();
    assert!(matches!(vm.run(&f), Step::Fault(RuntimeFault::TypeMismatch)));
}

#[test]
fn numbers_are_handed_to_the_host() {
    let tokens = vec![
        Token::number("2".to_string(), 2.0f64.to_bits(), 1),
        Token::new(TokenType::Star, "*".to_string(), 1),
        Token::number("3".to_string(), 3.0f64.to_bits(), 1),
        Token::new(TokenType::Eof, String::new(), 1),
    ];
    let code = compile(&tokens).unwrap();
    let mut vm = VM::new();
    match vm.run(&code) {
        Step::Numeric(NumericOp::Multiply, a, b) => {
            assert_eq!(f64::from_bits(a), 2.0);
            assert_eq!(f64::from_bits(b), 3.0);
        }
        other => panic!("unexpected {:?}", other),
    }
    assert!(vm.push(Value::Num(6.0f64.to_bits())).is_ok());
    match vm.run(&code) {
        Step::Finished(v) => {
            assert!(v.is_num());
            assert_eq!(f64::from_bits(v.get_num()), 6.0);
        }
        other => panic!("unexpected {:?}", other),
    }
    vm.reset();
    assert_eq!(vm.ip, 0);
    assert!(vm.stack.is_empty());
}

#[test]
fn negate_is_handed_to_the_host() {
    let mut f = fragment(&[op(Opcode::Num), 0, op(Opcode::Neg), op(Opcode::Ret)]);
    f.write_number(4.0f64.to_bits());
    let mut vm = VM::new();
    match vm.step(&f) {
        Step::Continue => {}
        other => panic!("unexpected {:?}", other),
    }
    assert!(matches!(vm.step(&f), Step::Numeric(NumericOp::Negate, _, 0)));
    let v = Value::Bool(false);
    assert!(v.is_bool());
    assert!(!v.get_bool());
}
