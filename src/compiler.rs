use vstd::prelude::*;

use crate::binding::{
    get_binding_power, is_binary_operator, lemma_binary_operator_entries, opcode_from_op,
    spec_binding_power, spec_is_binary_operator, spec_operator_opcode,
};
use crate::bytecode::{merge_model, ByteCode, Fragment, Opcode};
use crate::token::{Token, TokenType};

verus! {

/// The category of an operand: a number literal, a string literal, or a parenthesized group.
#[derive(Debug, Clone, Copy, PartialEq, Eq, Structural)]
pub enum OperandKind {
    Number,
    Text,
    Group,
}

#[derive(Debug, Clone, Copy, PartialEq, Eq, Structural)]
pub enum CompileErrorKind {
    /// A token that cannot stand where it was found.
    UnexpectedToken,
    /// A number and a string literal on the two sides of an operator.
    TypeMismatch,
    /// The input ended where an operand was due.
    MissingOperand,
    /// A group that the input leaves unclosed.
    UnmatchedParen,
    /// A token after an operand that has no binding power.
    UnknownOperator,
    /// A splice whose pools would outgrow what one operand byte can index.
    TooManyConstants,
}

/// A compile-time diagnostic and the source line of the token that caused it.
#[derive(Debug, Clone, Copy, PartialEq, Eq, Structural)]
pub struct CompileError {
    pub kind: CompileErrorKind,
    pub line: u32,
}

/// The largest size of a constant pool: an operand is one byte.
pub const POOL_LIMIT: usize = 256;

/// The kind of the token at `pos`; past the last token the input has ended.
pub open spec fn kind_at(toks: Seq<Token>, pos: int) -> TokenType {
    if 0 <= pos < toks.len() {
        toks[pos].token_type
    } else {
        TokenType::Eof
    }
}

/// The line of the token at `pos`, 0 past the last token.
pub open spec fn line_at(toks: Seq<Token>, pos: int) -> u32 {
    if 0 <= pos < toks.len() {
        toks[pos].line
    } else {
        0
    }
}

pub open spec fn error(kind: CompileErrorKind, line: u32) -> CompileError {
    CompileError { kind, line }
}

/// The fragment of a number literal: push constant 0, return.
pub open spec fn number_fragment(bits: u64, line: u32) -> Fragment {
    Fragment {
        code: seq![Opcode::Num.spec_byte(), 0u8, Opcode::Ret.spec_byte()],
        numbers: seq![bits],
        strings: Seq::empty(),
        lines: seq![line, line, line],
    }
}

/// The fragment of a string literal: push string constant 0, return.
pub open spec fn text_fragment(text: Seq<char>, line: u32) -> Fragment {
    Fragment {
        code: seq![Opcode::Str.spec_byte(), 0u8, Opcode::Ret.spec_byte()],
        numbers: Seq::empty(),
        strings: seq![text],
        lines: seq![line, line, line],
    }
}

/// The fragment of an empty expression: return alone.
pub open spec fn end_fragment(line: u32) -> Fragment {
    Fragment {
        code: seq![Opcode::Ret.spec_byte()],
        numbers: Seq::empty(),
        strings: Seq::empty(),
        lines: seq![line],
    }
}

/// The category that a token leading an operand gives it.
pub open spec fn leading_kind(t: TokenType) -> OperandKind {
    if t == TokenType::Number {
        OperandKind::Number
    } else if t == TokenType::String {
        OperandKind::Text
    } else {
        OperandKind::Group
    }
}

/// Two literal operands of different categories; a group pairs with anything.
pub open spec fn mismatched(left: OperandKind, right: OperandKind) -> bool {
    left != OperandKind::Group && right != OperandKind::Group && left != right
}

/// A compiled operand and the position after it.
pub struct Parsed {
    pub frag: Fragment,
    pub kind: OperandKind,
    pub pos: int,
}

/// Splices two fragments under the operator token `op`, if the pools stay addressable.
pub open spec fn splice(left: Fragment, right: Fragment, op: Token) -> Result<Fragment, CompileError> {
    if left.numbers.len() + right.numbers.len() <= 256 && left.strings.len() + right.strings.len()
        <= 256 {
        Ok(merge_model(left, right, spec_operator_opcode(op.token_type).unwrap(), op.line))
    } else {
        Err(error(CompileErrorKind::TooManyConstants, op.line))
    }
}

/// Compiles the operand that starts at `pos`: a literal, or a parenthesized group.
pub open spec fn operand_spec(toks: Seq<Token>, pos: int) -> Result<Parsed, CompileError>
    decreases toks.len() - pos, 0int,
{
    let t = kind_at(toks, pos);
    if t == TokenType::Number {
        Ok(
            Parsed {
                frag: number_fragment(toks[pos].number_bits, toks[pos].line),
                kind: OperandKind::Number,
                pos: pos + 1,
            },
        )
    } else if t == TokenType::String {
        Ok(
            Parsed {
                frag: text_fragment(toks[pos].lexeme@, toks[pos].line),
                kind: OperandKind::Text,
                pos: pos + 1,
            },
        )
    } else if t == TokenType::LeftParen {
        group_spec(toks, pos + 1)
    } else if t == TokenType::Eof {
        Err(error(CompileErrorKind::MissingOperand, line_at(toks, pos)))
    } else {
        Err(error(CompileErrorKind::UnexpectedToken, line_at(toks, pos)))
    }
}

/// Compiles a group whose `(` stood just before `pos`, through its `)`.
pub open spec fn group_spec(toks: Seq<Token>, pos: int) -> Result<Parsed, CompileError>
    decreases toks.len() - pos, 4int,
{
    match operand_spec(toks, pos) {
        Err(e) => Err(e),
        Ok(first) => if first.pos <= pos || first.pos > toks.len() {
            Err(error(CompileErrorKind::UnexpectedToken, line_at(toks, pos)))
        } else {
            match chain_spec(toks, first.frag, first.kind, first.pos, true) {
                Err(e) => Err(e),
                Ok((frag, end)) => Ok(Parsed { frag, kind: OperandKind::Group, pos: end + 1 }),
            }
        },
    }
}

/// After an operand, climbs operator after operator until the end of the statement
/// (or, inside a group, until its `)`), each time with all that came before as the left
/// operand.
pub open spec fn chain_spec(
    toks: Seq<Token>,
    left: Fragment,
    kind: OperandKind,
    pos: int,
    in_group: bool,
) -> Result<(Fragment, int), CompileError>
    decreases toks.len() - pos, 3int,
{
    let t = kind_at(toks, pos);
    if in_group && t == TokenType::RightParen {
        Ok((left, pos))
    } else if !in_group && (t == TokenType::Semicolon || t == TokenType::Eof) {
        Ok((left, pos))
    } else if spec_is_binary_operator(t) {
        match climb_spec(toks, left, kind, pos) {
            Err(e) => Err(e),
            Ok((frag, next)) => if next <= pos || next > toks.len() {
                Err(error(CompileErrorKind::UnexpectedToken, line_at(toks, pos)))
            } else {
                chain_spec(toks, frag, kind, next, in_group)
            },
        }
    } else if in_group && (t == TokenType::Semicolon || t == TokenType::Eof) {
        Err(error(CompileErrorKind::UnmatchedParen, line_at(toks, pos)))
    } else {
        Err(error(CompileErrorKind::UnexpectedToken, line_at(toks, pos)))
    }
}

/// One climbing step: the binary operator at `pos` and its right operand, which absorbs
/// every following operator that binds tighter.
pub open spec fn climb_spec(toks: Seq<Token>, left: Fragment, kind: OperandKind, pos: int) -> Result<
    (Fragment, int),
    CompileError,
>
    decreases toks.len() - pos, 1int,
{
    let rt = kind_at(toks, pos + 1);
    if rt == TokenType::Eof {
        Err(error(CompileErrorKind::MissingOperand, line_at(toks, pos + 1)))
    } else if mismatched(kind, leading_kind(rt)) {
        Err(error(CompileErrorKind::TypeMismatch, line_at(toks, pos + 1)))
    } else if pos < 0 || pos >= toks.len() {
        Err(error(CompileErrorKind::UnexpectedToken, line_at(toks, pos)))
    } else {
        match operand_spec(toks, pos + 1) {
            Err(e) => Err(e),
            Ok(right) => if right.pos <= pos + 1 || right.pos > toks.len() {
                Err(error(CompileErrorKind::UnexpectedToken, line_at(toks, pos)))
            } else {
                climb_rest_spec(toks, left, pos, right.frag, right.kind, right.pos)
            },
        }
    }
}

/// Looks at the operator after the right operand of the operator at `op_pos`: if the
/// expression ends there, or the current operator binds at least as strongly, splices;
/// otherwise lets the right operand climb first and looks again.
pub open spec fn climb_rest_spec(
    toks: Seq<Token>,
    left: Fragment,
    op_pos: int,
    right: Fragment,
    right_kind: OperandKind,
    pos: int,
) -> Result<(Fragment, int), CompileError>
    decreases toks.len() - pos, 2int,
{
    let t = kind_at(toks, pos);
    let op = toks[op_pos];
    if t == TokenType::Eof || t == TokenType::Semicolon || t == TokenType::RightParen {
        match splice(left, right, op) {
            Err(e) => Err(e),
            Ok(frag) => Ok((frag, pos)),
        }
    } else if !spec_is_binary_operator(t) {
        Err(error(CompileErrorKind::UnknownOperator, line_at(toks, pos)))
    } else if spec_binding_power(op.token_type).unwrap().1 >= spec_binding_power(t).unwrap().0 {
        match splice(left, right, op) {
            Err(e) => Err(e),
            Ok(frag) => Ok((frag, pos)),
        }
    } else {
        match climb_spec(toks, right, right_kind, pos) {
            Err(e) => Err(e),
            Ok((longer, next)) => if next <= pos || next > toks.len() {
                Err(error(CompileErrorKind::UnexpectedToken, line_at(toks, pos)))
            } else {
                climb_rest_spec(toks, left, op_pos, longer, right_kind, next)
            },
        }
    }
}

/// What `compile` produces from a token sequence.
pub open spec fn compile_spec(toks: Seq<Token>) -> Result<Fragment, CompileError> {
    if kind_at(toks, 0) == TokenType::Eof {
        Ok(end_fragment(line_at(toks, 0)))
    } else {
        match operand_spec(toks, 0) {
            Err(e) => Err(e),
            Ok(first) => match chain_spec(toks, first.frag, first.kind, first.pos, false) {
                Err(e) => Err(e),
                Ok((frag, end)) => if kind_at(toks, end) == TokenType::Semicolon && kind_at(
                    toks,
                    end + 1,
                ) != TokenType::Eof {
                    Err(error(CompileErrorKind::UnexpectedToken, line_at(toks, end + 1)))
                } else {
                    Ok(frag)
                },
            },
        }
    }
}

/// A compiled operand, its category, and the position after it.
struct Compiled {
    code: ByteCode,
    kind: OperandKind,
    pos: usize,
}

pub open spec fn fragment_result(r: Result<ByteCode, CompileError>) -> Result<Fragment, CompileError> {
    match r {
        Ok(c) => Ok(c@),
        Err(e) => Err(e),
    }
}

pub open spec fn pair_result(r: Result<(ByteCode, usize), CompileError>) -> Result<
    (Fragment, int),
    CompileError,
> {
    match r {
        Ok((c, p)) => Ok((c@, p as int)),
        Err(e) => Err(e),
    }
}

spec fn operand_result(r: Result<Compiled, CompileError>) -> Result<Parsed, CompileError> {
    match r {
        Ok(c) => Ok(Parsed { frag: c.code@, kind: c.kind, pos: c.pos as int }),
        Err(e) => Err(e),
    }
}

proof fn lemma_literal_fragments_wf(bits: u64, text: Seq<char>, line: u32)
    ensures
        number_fragment(bits, line).wf(),
        text_fragment(text, line).wf(),
        end_fragment(line).wf(),
{
    let c0 = seq![Opcode::Ret.spec_byte()];
    assert(c0.subrange(1, 1) =~= Seq::<u8>::empty());
    let cn = seq![Opcode::Num.spec_byte(), 0u8, Opcode::Ret.spec_byte()];
    assert(cn.subrange(2, 3) =~= c0);
    let cs = seq![Opcode::Str.spec_byte(), 0u8, Opcode::Ret.spec_byte()];
    assert(cs.subrange(2, 3) =~= c0);
    let i_n = crate::bytecode::Instruction { opcode: Opcode::Num, operand: 0 };
    let i_s = crate::bytecode::Instruction { opcode: Opcode::Str, operand: 0 };
    assert(crate::bytecode::decode(c0) =~= Seq::empty());
    assert(crate::bytecode::decode(cn) =~= seq![i_n]);
    assert(crate::bytecode::decode(cs) =~= seq![i_s]);
    assert(seq![i_n].drop_first() =~= Seq::empty());
    assert(seq![i_s].drop_first() =~= Seq::empty());
    assert(crate::bytecode::encode(Seq::empty()) =~= Seq::<u8>::empty());
    assert(crate::bytecode::encode(seq![i_n]) =~= seq![Opcode::Num.spec_byte(), 0u8]);
    assert(crate::bytecode::encode(seq![i_s]) =~= seq![Opcode::Str.spec_byte(), 0u8]);
    assert(cn =~= crate::bytecode::encode(seq![i_n]) + c0);
    assert(cs =~= crate::bytecode::encode(seq![i_s]) + c0);
    assert(c0 =~= crate::bytecode::encode(Seq::empty()) + c0);
}

fn token_kind(tokens: &Vec<Token>, pos: usize) -> (r: TokenType)
    ensures
        r == kind_at(tokens@, pos as int),
{
    if pos < tokens.len() {
        tokens[pos].token_type
    } else {
        TokenType::Eof
    }
}

fn token_line(tokens: &Vec<Token>, pos: usize) -> (r: u32)
    ensures
        r == line_at(tokens@, pos as int),
{
    if pos < tokens.len() {
        tokens[pos].line
    } else {
        0
    }
}

/// The fragment of a number literal.
fn emit_number(token: &Token) -> (r: ByteCode)
    ensures
        r@ == number_fragment(token.number_bits, token.line),
        r@.wf(),
{
    let mut code = ByteCode::new();
    code.write_number(token.number_bits);
    code.write_code(Opcode::Num.to_byte(), token.line);
    code.write_code(0, token.line);
    code.write_code(Opcode::Ret.to_byte(), token.line);
    proof {
        lemma_literal_fragments_wf(token.number_bits, token.lexeme@, token.line);
        assert(code@.code =~= number_fragment(token.number_bits, token.line).code);
        assert(code@.numbers =~= number_fragment(token.number_bits, token.line).numbers);
        assert(code@.strings =~= number_fragment(token.number_bits, token.line).strings);
        assert(code@.lines =~= number_fragment(token.number_bits, token.line).lines);
    }
    code
}

/// The fragment of a string literal.
fn emit_string(token: &Token) -> (r: ByteCode)
    ensures
        r@ == text_fragment(token.lexeme@, token.line),
        r@.wf(),
{
    let mut code = ByteCode::new();
    code.write_string(token.lexeme.clone());
    code.write_code(Opcode::Str.to_byte(), token.line);
    code.write_code(0, token.line);
    code.write_code(Opcode::Ret.to_byte(), token.line);
    proof {
        lemma_literal_fragments_wf(token.number_bits, token.lexeme@, token.line);
        assert(code@.code =~= text_fragment(token.lexeme@, token.line).code);
        assert(code@.numbers =~= text_fragment(token.lexeme@, token.line).numbers);
        assert(code@.strings =~= text_fragment(token.lexeme@, token.line).strings);
        assert(code@.lines =~= text_fragment(token.lexeme@, token.line).lines);
    }
    code
}

/// The fragment of an empty expression.
fn emit_end(line: u32) -> (r: ByteCode)
    ensures
        r@ == end_fragment(line),
        r@.wf(),
{
    let mut code = ByteCode::new();
    code.write_code(Opcode::Ret.to_byte(), line);
    proof {
        lemma_literal_fragments_wf(0, Seq::empty(), line);
        assert(code@.code =~= end_fragment(line).code);
        assert(code@.numbers =~= end_fragment(line).numbers);
        assert(code@.strings =~= end_fragment(line).strings);
        assert(code@.lines =~= end_fragment(line).lines);
    }
    code
}

/// Splices two fragments under the operator token `op`, or reports that the pools would
/// outgrow one operand byte.
fn splice_under(left: &ByteCode, right: &ByteCode, op: &Token) -> (r: Result<ByteCode, CompileError>)
    requires
        left@.wf(),
        right@.wf(),
        spec_is_binary_operator(op.token_type),
    ensures
        fragment_result(r) == splice(left@, right@, *op),
        r matches Ok(c) ==> c@.wf(),
{
    proof {
        lemma_binary_operator_entries(op.token_type);
    }
    if left.numbers.len() > POOL_LIMIT || right.numbers.len() > POOL_LIMIT - left.numbers.len()
        || left.strings.len() > POOL_LIMIT || right.strings.len() > POOL_LIMIT
        - left.strings.len() {
        return Err(CompileError { kind: CompileErrorKind::TooManyConstants, line: op.line });
    }
    match opcode_from_op(op.token_type) {
        Some(opcode) => Ok(ByteCode::merge_binary(left, right, opcode, op.line)),
        None => {
            proof {
                assert(false);
            }
            Err(CompileError { kind: CompileErrorKind::UnknownOperator, line: op.line })
        },
    }
}

fn operand(tokens: &Vec<Token>, pos: usize) -> (r: Result<Compiled, CompileError>)
    requires
        pos <= tokens@.len(),
    ensures
        operand_result(r) == operand_spec(tokens@, pos as int),
        r matches Ok(c) ==> pos < c.pos <= tokens@.len() && c.code@.wf(),
    decreases tokens@.len() - pos, 0int,
{
    // positions stay within the token count, a usize
    let _count = tokens.len();
    let t = token_kind(tokens, pos);
    match t {
        TokenType::Number => Ok(
            Compiled { code: emit_number(&tokens[pos]), kind: OperandKind::Number, pos: pos + 1 },
        ),
        TokenType::String => Ok(
            Compiled { code: emit_string(&tokens[pos]), kind: OperandKind::Text, pos: pos + 1 },
        ),
        TokenType::LeftParen => group(tokens, pos + 1),
        TokenType::Eof => Err(
            CompileError { kind: CompileErrorKind::MissingOperand, line: token_line(tokens, pos) },
        ),
        _ => Err(
            CompileError { kind: CompileErrorKind::UnexpectedToken, line: token_line(tokens, pos) },
        ),
    }
}

fn group(tokens: &Vec<Token>, pos: usize) -> (r: Result<Compiled, CompileError>)
    requires
        pos <= tokens@.len(),
    ensures
        operand_result(r) == group_spec(tokens@, pos as int),
        r matches Ok(c) ==> pos < c.pos <= tokens@.len() && c.code@.wf(),
    decreases tokens@.len() - pos, 4int,
{
    // positions stay within the token count, a usize
    let _count = tokens.len();
    match operand(tokens, pos) {
        Err(e) => Err(e),
        Ok(first) => match chain(tokens, first.code, first.kind, first.pos, true) {
            Err(e) => Err(e),
            Ok((code, end)) => Ok(Compiled { code, kind: OperandKind::Group, pos: end + 1 }),
        },
    }
}

fn chain(tokens: &Vec<Token>, left: ByteCode, kind: OperandKind, pos: usize, in_group: bool) -> (r:
    Result<(ByteCode, usize), CompileError>)
    requires
        pos <= tokens@.len(),
        left@.wf(),
    ensures
        pair_result(r) == chain_spec(tokens@, left@, kind, pos as int, in_group),
        r matches Ok((c, p)) ==> {
            &&& pos <= p <= tokens@.len()
            &&& c@.wf()
            &&& in_group ==> kind_at(tokens@, p as int) == TokenType::RightParen
        },
    decreases tokens@.len() - pos, 3int,
{
    let t = token_kind(tokens, pos);
    if in_group && t == TokenType::RightParen {
        Ok((left, pos))
    } else if !in_group && (t == TokenType::Semicolon || t == TokenType::Eof) {
        Ok((left, pos))
    } else if is_binary_operator(t) {
        match climb(tokens, left, kind, pos) {
            Err(e) => Err(e),
            Ok((code, next)) => chain(tokens, code, kind, next, in_group),
        }
    } else if in_group && (t == TokenType::Semicolon || t == TokenType::Eof) {
        Err(CompileError { kind: CompileErrorKind::UnmatchedParen, line: token_line(tokens, pos) })
    } else {
        Err(CompileError { kind: CompileErrorKind::UnexpectedToken, line: token_line(tokens, pos) })
    }
}

fn climb(tokens: &Vec<Token>, left: ByteCode, kind: OperandKind, pos: usize) -> (r: Result<
    (ByteCode, usize),
    CompileError,
>)
    requires
        pos < tokens@.len(),
        spec_is_binary_operator(kind_at(tokens@, pos as int)),
        left@.wf(),
    ensures
        pair_result(r) == climb_spec(tokens@, left@, kind, pos as int),
        r matches Ok((c, p)) ==> pos < p <= tokens@.len() && c@.wf(),
    decreases tokens@.len() - pos, 1int,
{
    // positions stay within the token count, a usize
    let _count = tokens.len();
    let rt = token_kind(tokens, pos + 1);
    if rt == TokenType::Eof {
        return Err(
            CompileError {
                kind: CompileErrorKind::MissingOperand,
                line: token_line(tokens, pos + 1),
            },
        );
    }
    let right_kind = if rt == TokenType::Number {
        OperandKind::Number
    } else if rt == TokenType::String {
        OperandKind::Text
    } else {
        OperandKind::Group
    };
    if kind != OperandKind::Group && right_kind != OperandKind::Group && kind != right_kind {
        return Err(
            CompileError { kind: CompileErrorKind::TypeMismatch, line: token_line(tokens, pos + 1) },
        );
    }
    match operand(tokens, pos + 1) {
        Err(e) => Err(e),
        Ok(right) => climb_rest(tokens, left, pos, right.code, right.kind, right.pos),
    }
}

fn climb_rest(
    tokens: &Vec<Token>,
    left: ByteCode,
    op_pos: usize,
    right: ByteCode,
    right_kind: OperandKind,
    pos: usize,
) -> (r: Result<(ByteCode, usize), CompileError>)
    requires
        op_pos < pos <= tokens@.len(),
        spec_is_binary_operator(kind_at(tokens@, op_pos as int)),
        left@.wf(),
        right@.wf(),
    ensures
        pair_result(r) == climb_rest_spec(tokens@, left@, op_pos as int, right@, right_kind, pos as int),
        r matches Ok((c, p)) ==> pos <= p <= tokens@.len() && c@.wf(),
    decreases tokens@.len() - pos, 2int,
{
    let t = token_kind(tokens, pos);
    let op = &tokens[op_pos];
    if t == TokenType::Eof || t == TokenType::Semicolon || t == TokenType::RightParen {
        return match splice_under(&left, &right, op) {
            Err(e) => Err(e),
            Ok(code) => Ok((code, pos)),
        };
    }
    if !is_binary_operator(t) {
        return Err(
            CompileError { kind: CompileErrorKind::UnknownOperator, line: token_line(tokens, pos) },
        );
    }
    proof {
        lemma_binary_operator_entries(t);
        lemma_binary_operator_entries(op.token_type);
    }
    match (get_binding_power(op.token_type), get_binding_power(t)) {
        (Some(current), Some(next)) => {
            if current.right_operand >= next.left_operand {
                match splice_under(&left, &right, op) {
                    Err(e) => Err(e),
                    Ok(code) => Ok((code, pos)),
                }
            } else {
                match climb(tokens, right, right_kind, pos) {
                    Err(e) => Err(e),
                    Ok((longer, next_pos)) => climb_rest(
                        tokens,
                        left,
                        op_pos,
                        longer,
                        right_kind,
                        next_pos,
                    ),
                }
            }
        },
        _ => {
            proof {
                assert(false);
            }
            Err(CompileError { kind: CompileErrorKind::UnknownOperator, line: op.line })
        },
    }
}

/// Compiles a token sequence into one fragment that evaluates the expression: an empty
/// input gives a lone `Ret`; otherwise an operand and the operators that follow it, up to
/// a `;` (which only the end of input may follow) or the end of input.
pub fn compile(tokens: &Vec<Token>) -> (r: Result<ByteCode, CompileError>)
    ensures
        fragment_result(r) == compile_spec(tokens@),
        r matches Ok(c) ==> c@.wf(),
{
    // positions stay within the token count, a usize
    let _count = tokens.len();
    if token_kind(tokens, 0) == TokenType::Eof {
        return Ok(emit_end(token_line(tokens, 0)));
    }
    match operand(tokens, 0) {
        Err(e) => Err(e),
        Ok(first) => match chain(tokens, first.code, first.kind, first.pos, false) {
            Err(e) => Err(e),
            Ok((code, end)) => {
                if token_kind(tokens, end) == TokenType::Semicolon && token_kind(tokens, end + 1)
                    != TokenType::Eof {
                    Err(
                        CompileError {
                            kind: CompileErrorKind::UnexpectedToken,
                            line: token_line(tokens, end + 1),
                        },
                    )
                } else {
                    Ok(code)
                }
            },
        },
    }
}

/// A number literal, a binary operator and a string literal, in that order at the start of
/// the input, are rejected at compile time as a type mismatch, on the string's line.
pub proof fn lemma_number_then_string_rejected(toks: Seq<Token>)
    requires
        toks.len() >= 3,
        toks[0].token_type == TokenType::Number,
        spec_is_binary_operator(toks[1].token_type),
        toks[2].token_type == TokenType::String,
    ensures
        compile_spec(toks) == Err::<Fragment, CompileError>(
            error(CompileErrorKind::TypeMismatch, toks[2].line),
        ),
{
    let first = operand_spec(toks, 0);
    assert(first is Ok);
    let p = first.unwrap();
    assert(p.kind == OperandKind::Number && p.pos == 1);
    assert(climb_spec(toks, p.frag, p.kind, 1) == Err::<(Fragment, int), CompileError>(
        error(CompileErrorKind::TypeMismatch, toks[2].line),
    ));
    assert(chain_spec(toks, p.frag, p.kind, 1, false) == Err::<(Fragment, int), CompileError>(
        error(CompileErrorKind::TypeMismatch, toks[2].line),
    ));
}

/// The binding powers decide the grouping of three number literals: with `a o1 b o2 c`
/// and nothing after, the fragment is `(a o1 b) o2 c` when `o1` holds its right operand at
/// least as strongly as `o2` holds its left one, and `a o1 (b o2 c)` otherwise.
pub proof fn lemma_three_operand_grouping(toks: Seq<Token>)
    requires
        toks.len() == 5,
        toks[0].token_type == TokenType::Number,
        toks[2].token_type == TokenType::Number,
        toks[4].token_type == TokenType::Number,
        spec_is_binary_operator(toks[1].token_type),
        spec_is_binary_operator(toks[3].token_type),
    ensures
        ({
            let a = number_fragment(toks[0].number_bits, toks[0].line);
            let b = number_fragment(toks[2].number_bits, toks[2].line);
            let c = number_fragment(toks[4].number_bits, toks[4].line);
            let o1 = spec_operator_opcode(toks[1].token_type).unwrap();
            let o2 = spec_operator_opcode(toks[3].token_type).unwrap();
            compile_spec(toks) == if spec_binding_power(toks[1].token_type).unwrap().1
                >= spec_binding_power(toks[3].token_type).unwrap().0 {
                Ok::<Fragment, CompileError>(
                    merge_model(merge_model(a, b, o1, toks[1].line), c, o2, toks[3].line),
                )
            } else {
                Ok::<Fragment, CompileError>(
                    merge_model(a, merge_model(b, c, o2, toks[3].line), o1, toks[1].line),
                )
            }
        }),
{
    let a = number_fragment(toks[0].number_bits, toks[0].line);
    let b = number_fragment(toks[2].number_bits, toks[2].line);
    let c = number_fragment(toks[4].number_bits, toks[4].line);
    let o1 = spec_operator_opcode(toks[1].token_type).unwrap();
    let o2 = spec_operator_opcode(toks[3].token_type).unwrap();
    lemma_binary_operator_entries(toks[1].token_type);
    lemma_binary_operator_entries(toks[3].token_type);
    assert(operand_spec(toks, 0) == Ok::<Parsed, CompileError>(
        Parsed { frag: a, kind: OperandKind::Number, pos: 1 },
    ));
    assert(operand_spec(toks, 2) == Ok::<Parsed, CompileError>(
        Parsed { frag: b, kind: OperandKind::Number, pos: 3 },
    ));
    assert(operand_spec(toks, 4) == Ok::<Parsed, CompileError>(
        Parsed { frag: c, kind: OperandKind::Number, pos: 5 },
    ));
    assert(kind_at(toks, 5) == TokenType::Eof);
    if spec_binding_power(toks[1].token_type).unwrap().1 >= spec_binding_power(
        toks[3].token_type,
    ).unwrap().0 {
        let ab = merge_model(a, b, o1, toks[1].line);
        assert(climb_rest_spec(toks, a, 1, b, OperandKind::Number, 3) == Ok::<
            (Fragment, int),
            CompileError,
        >((ab, 3)));
        assert(climb_spec(toks, a, OperandKind::Number, 1) == Ok::<(Fragment, int), CompileError>(
            (ab, 3),
        ));
        let abc = merge_model(ab, c, o2, toks[3].line);
        assert(climb_rest_spec(toks, ab, 3, c, OperandKind::Number, 5) == Ok::<
            (Fragment, int),
            CompileError,
        >((abc, 5)));
        assert(climb_spec(toks, ab, OperandKind::Number, 3) == Ok::<(Fragment, int), CompileError>(
            (abc, 5),
        ));
        assert(chain_spec(toks, abc, OperandKind::Number, 5, false) == Ok::<
            (Fragment, int),
            CompileError,
        >((abc, 5)));
        assert(chain_spec(toks, ab, OperandKind::Number, 3, false) == Ok::<
            (Fragment, int),
            CompileError,
        >((abc, 5)));
        assert(chain_spec(toks, a, OperandKind::Number, 1, false) == Ok::<
            (Fragment, int),
            CompileError,
        >((abc, 5)));
    } else {
        let bc = merge_model(b, c, o2, toks[3].line);
        let abc = merge_model(a, bc, o1, toks[1].line);
        assert(climb_rest_spec(toks, b, 3, c, OperandKind::Number, 5) == Ok::<
            (Fragment, int),
            CompileError,
        >((bc, 5)));
        assert(climb_spec(toks, b, OperandKind::Number, 3) == Ok::<(Fragment, int), CompileError>(
            (bc, 5),
        ));
        assert(climb_rest_spec(toks, a, 1, bc, OperandKind::Number, 5) == Ok::<
            (Fragment, int),
            CompileError,
        >((abc, 5)));
        assert(climb_rest_spec(toks, a, 1, b, OperandKind::Number, 3) == Ok::<
            (Fragment, int),
            CompileError,
        >((abc, 5)));
        assert(climb_spec(toks, a, OperandKind::Number, 1) == Ok::<(Fragment, int), CompileError>(
            (abc, 5),
        ));
        assert(chain_spec(toks, abc, OperandKind::Number, 5, false) == Ok::<
            (Fragment, int),
            CompileError,
        >((abc, 5)));
        assert(chain_spec(toks, a, OperandKind::Number, 1, false) == Ok::<
            (Fragment, int),
            CompileError,
        >((abc, 5)));
    }
}

} // verus!
