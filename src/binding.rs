use vstd::prelude::*;

use crate::bytecode::{is_operator_opcode, Opcode};
use crate::token::TokenType;

verus! {

/// How strongly an operator holds the operand on its left and on its right, in tenths.
#[derive(Debug, Clone, Copy, PartialEq, Eq, Structural)]
pub struct BindingPower {
    pub left_operand: i32,
    pub right_operand: i32,
}

/// The binding-power table, in tenths: each right power is one tenth above its left power,
/// so that a repeated operator groups to the left. `-` binds tighter than `+`.
pub open spec fn spec_binding_power(t: TokenType) -> Option<(int, int)> {
    match t {
        TokenType::Semicolon => Some((-20, -20)),
        TokenType::EqualEqual | TokenType::BangEqual | TokenType::Greater
        | TokenType::GreaterEqual | TokenType::Less | TokenType::LessEqual => Some((-11, -10)),
        TokenType::Plus => Some((10, 11)),
        TokenType::Minus => Some((20, 21)),
        TokenType::Star => Some((30, 31)),
        TokenType::Slash => Some((40, 41)),
        TokenType::Bang => Some((50, 51)),
        _ => None,
    }
}

/// Looks an operator up in the binding-power table; `None` for a kind without an entry.
pub fn get_binding_power(operator: TokenType) -> (r: Option<BindingPower>)
    ensures
        match spec_binding_power(operator) {
            Some((l, rt)) => r == Some(BindingPower { left_operand: l as i32, right_operand: rt as i32 }),
            None => r is None,
        },
{
    match operator {
        TokenType::Semicolon => Some(BindingPower { left_operand: -20, right_operand: -20 }),
        TokenType::EqualEqual | TokenType::BangEqual | TokenType::Greater
        | TokenType::GreaterEqual | TokenType::Less | TokenType::LessEqual => Some(
            BindingPower { left_operand: -11, right_operand: -10 },
        ),
        TokenType::Plus => Some(BindingPower { left_operand: 10, right_operand: 11 }),
        TokenType::Minus => Some(BindingPower { left_operand: 20, right_operand: 21 }),
        TokenType::Star => Some(BindingPower { left_operand: 30, right_operand: 31 }),
        TokenType::Slash => Some(BindingPower { left_operand: 40, right_operand: 41 }),
        TokenType::Bang => Some(BindingPower { left_operand: 50, right_operand: 51 }),
        _ => None,
    }
}

/// The binary operators that the compiler accepts between two operands.
pub open spec fn spec_is_binary_operator(t: TokenType) -> bool {
    match t {
        TokenType::Plus | TokenType::Minus | TokenType::Star | TokenType::Slash
        | TokenType::EqualEqual | TokenType::BangEqual | TokenType::Less | TokenType::LessEqual
        | TokenType::Greater | TokenType::GreaterEqual => true,
        _ => false,
    }
}

pub fn is_binary_operator(t: TokenType) -> (r: bool)
    ensures
        r == spec_is_binary_operator(t),
{
    match t {
        TokenType::Plus | TokenType::Minus | TokenType::Star | TokenType::Slash
        | TokenType::EqualEqual | TokenType::BangEqual | TokenType::Less | TokenType::LessEqual
        | TokenType::Greater | TokenType::GreaterEqual => true,
        _ => false,
    }
}

/// The opcode an operator compiles to.
pub open spec fn spec_operator_opcode(t: TokenType) -> Option<Opcode> {
    match t {
        TokenType::Plus => Some(Opcode::Add),
        TokenType::Minus => Some(Opcode::Sub),
        TokenType::Star => Some(Opcode::Mul),
        TokenType::Slash => Some(Opcode::Div),
        TokenType::EqualEqual => Some(Opcode::Equal),
        TokenType::BangEqual => Some(Opcode::NotEqual),
        TokenType::Greater => Some(Opcode::Greater),
        TokenType::GreaterEqual => Some(Opcode::GreaterEqual),
        TokenType::Less => Some(Opcode::Less),
        TokenType::LessEqual => Some(Opcode::LessEqual),
        TokenType::Bang => Some(Opcode::Not),
        _ => None,
    }
}

pub fn opcode_from_op(t: TokenType) -> (r: Option<Opcode>)
    ensures
        r == spec_operator_opcode(t),
{
    match t {
        TokenType::Plus => Some(Opcode::Add),
        TokenType::Minus => Some(Opcode::Sub),
        TokenType::Star => Some(Opcode::Mul),
        TokenType::Slash => Some(Opcode::Div),
        TokenType::EqualEqual => Some(Opcode::Equal),
        TokenType::BangEqual => Some(Opcode::NotEqual),
        TokenType::Greater => Some(Opcode::Greater),
        TokenType::GreaterEqual => Some(Opcode::GreaterEqual),
        TokenType::Less => Some(Opcode::Less),
        TokenType::LessEqual => Some(Opcode::LessEqual),
        TokenType::Bang => Some(Opcode::Not),
        _ => None,
    }
}

/// Every binary operator has a binding power and compiles to an operator opcode.
pub proof fn lemma_binary_operator_entries(t: TokenType)
    requires
        spec_is_binary_operator(t),
    ensures
        spec_binding_power(t) is Some,
        spec_operator_opcode(t) is Some,
        is_operator_opcode(spec_operator_opcode(t).unwrap()),
{
}

} // verus!
