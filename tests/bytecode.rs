use lox::bytecode::{ByteCode, Instruction, Opcode};

fn op(o: Opcode) -> u8 {
    o.to_byte()
}

#[test]
fn merge_works() {
    // left = 2 + 3
    // right = 6 / 2
    // total = (2 + 3) - (6 / 2)
    let mut left = ByteCode::new();
    left.write_number(2.0f64.to_bits());
    left.write_number(3.0f64.to_bits());
    left.write_code(op(Opcode::Num), 1);
    left.write_code(0, 1);
    left.write_code(op(Opcode::Num), 1);
    left.write_code(1, 1);
    left.write_code(op(Opcode::Add), 1);
    left.write_code(op(Opcode::Ret), 1);

    let mut right = ByteCode::new();
    right.write_number(6.0f64.to_bits());
    right.write_number(2.0f64.to_bits());
    right.write_code(op(Opcode::Num), 2);
    right.write_code(0, 2);
    right.write_code(op(Opcode::Num), 2);
    right.write_code(1, 2);
    right.write_code(op(Opcode::Div), 2);
    right.write_code(op(Opcode::Ret), 2);

    let merged = ByteCode::merge_binary(&left, &right, Opcode::Sub, 2);

    let mut expected = ByteCode::new();
    expected.write_number(2.0f64.to_bits());
    expected.write_number(3.0f64.to_bits());
    expected.write_code(op(Opcode::Num), 1);
    expected.write_code(0, 1);
    expected.write_code(op(Opcode::Num), 1);
    expected.write_code(1, 1);
    expected.write_code(op(Opcode::Add), 1);
    expected.write_number(6.0f64.to_bits());
    expected.write_number(2.0f64.to_bits());
    expected.write_code(op(Opcode::Num), 2);
    expected.write_code(2, 2);
    expected.write_code(op(Opcode::Num), 2);
    expected.write_code(3, 2);
    expected.write_code(op(Opcode::Div), 2);
    expected.write_code(op(Opcode::Sub), 2);
    expected.write_code(op(Opcode::Ret), 2);

    assert_eq!(merged.disassemble(), expected.disassemble());
    assert_eq!(merged.code, expected.code);
    assert_eq!(merged.numbers, expected.numbers);
    assert_eq!(merged.strings, expected.strings);
    assert_eq!(merged.line_info, expected.line_info);
    // the inputs are left as they were
    assert_eq!(left.code.len(), 6);
    assert_eq!(right.numbers.len(), 2);
}

#[test]
fn merge_moves_string_indices() {
    let mut left = ByteCode::new();
    left.write_string("ab".to_string());
    left.write_code(op(Opcode::Str), 1);
    left.write_code(0, 1);
    left.write_code(op(Opcode::Ret), 1);
    let mut right = ByteCode::new();
    right.write_string("cd".to_string());
    right.write_code(op(Opcode::Str), 1);
    right.write_code(0, 1);
    right.write_code(op(Opcode::Ret), 1);
    let merged = ByteCode::merge_binary(&left, &right, Opcode::Add, 3);
    assert_eq!(merged.strings, vec!["ab".to_string(), "cd".to_string()]);
    assert_eq!(
        merged.disassemble(),
        vec![
            Instruction { opcode: Opcode::Str, operand: 0 },
            Instruction { opcode: Opcode::Str, operand: 1 },
            Instruction { opcode: Opcode::Add, operand: 0 },
        ]
    );
    assert_eq!(merged.line_info, vec![1, 1, 1, 1, 3, 3]);
}

#[test]
fn opcode_bytes_round_trip() {
    for b in 0u8..=16 {
        let opcode = Opcode::from_byte(b).unwrap();
        assert_eq!(opcode.to_byte(), b);
    }
    assert_eq!(Opcode::from_byte(17), None);
    assert_eq!(Opcode::Str.to_byte(), 16);
}

#[test]
fn fetches_are_bounds_checked() {
    let mut code = ByteCode::new();
    assert!(code.is_nop());
    code.write_number(1.5f64.to_bits());
    code.write_code(op(Opcode::Num), 1);
    code.write_code(0, 1);
    code.write_code(200, 1);
    assert!(!code.is_nop());
    let mut ip: usize = 0;
    assert_eq!(code.fetch_instruction(&mut ip), Some(Opcode::Num));
    assert_eq!(ip, 1);
    assert_eq!(code.fetch_operand(&mut ip), Some(0));
    assert_eq!(code.fetch_instruction(&mut ip), None);
    assert_eq!(ip, 2);
    let mut end: usize = 3;
    assert_eq!(code.fetch_operand(&mut end), None);
    assert_eq!(code.fetch_number(0), Some(1.5f64.to_bits()));
    assert_eq!(code.fetch_number(1), None);
    assert_eq!(code.fetch_string(0), None);
}
