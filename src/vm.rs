use vstd::prelude::*;
use vstd::string::StringExecFns;

use crate::bytecode::{
    encode, encode_instr, lemma_decode_valid, lemma_encode_append, lemma_opcode_byte_round_trip,
    valid_instr, ByteCode, Fragment, Instruction, Opcode,
};

verus! {

/// The largest number of values the evaluation stack holds.
pub const STACK_LIMIT: usize = 256;

/// A runtime value. A number is held as the bit pattern of its 64-bit floating-point value.
#[derive(Debug, Clone)]
pub enum Value {
    Num(u64),
    Bool(bool),
    Str(String),
    Nil,
}

/// The mathematical content of a runtime value.
pub enum Val {
    Num(u64),
    Bool(bool),
    Str(Seq<char>),
    Nil,
}

impl View for Value {
    type V = Val;

    open spec fn view(&self) -> Val {
        match self {
            Value::Num(n) => Val::Num(*n),
            Value::Bool(b) => Val::Bool(*b),
            Value::Str(s) => Val::Str(s@),
            Value::Nil => Val::Nil,
        }
    }
}

/// Two values are equal when they are of one kind with equal contents; numbers compare by
/// bit pattern.
impl PartialEq for Value {
    fn eq(&self, other: &Value) -> (r: bool) {
        match (self, other) {
            (Value::Num(a), Value::Num(b)) => *a == *b,
            (Value::Bool(a), Value::Bool(b)) => *a == *b,
            (Value::Str(a), Value::Str(b)) => *a == *b,
            (Value::Nil, Value::Nil) => true,
            _ => false,
        }
    }
}

impl vstd::std_specs::cmp::PartialEqSpecImpl for Value {
    open spec fn obeys_eq_spec() -> bool {
        true
    }

    open spec fn eq_spec(&self, other: &Value) -> bool {
        self@ == other@
    }
}

impl Value {
    pub fn is_num(&self) -> (r: bool)
        ensures
            r == (self is Num),
    {
        match self {
            Value::Num(_) => true,
            _ => false,
        }
    }

    pub fn is_string(&self) -> (r: bool)
        ensures
            r == (self is Str),
    {
        match self {
            Value::Str(_) => true,
            _ => false,
        }
    }

    pub fn is_bool(&self) -> (r: bool)
        ensures
            r == (self is Bool),
    {
        match self {
            Value::Bool(_) => true,
            _ => false,
        }
    }

    /// The bit pattern of a number.
    pub fn get_num(&self) -> (r: u64)
        requires
            self is Num,
        ensures
            self@ == Val::Num(r),
    {
        match self {
            Value::Num(n) => *n,
            _ => 0,
        }
    }

    pub fn get_string(&self) -> (r: String)
        requires
            self is Str,
        ensures
            self@ == Val::Str(r@),
    {
        match self {
            Value::Str(s) => s.clone(),
            _ => String::new(),
        }
    }

    pub fn get_bool(&self) -> (r: bool)
        requires
            self is Bool,
        ensures
            self@ == Val::Bool(r),
    {
        match self {
            Value::Bool(b) => *b,
            _ => false,
        }
    }
}

/// An unrecoverable fault of the machine: the fragment it ran is malformed.
#[derive(Debug, Clone, Copy, PartialEq, Eq, Structural)]
pub enum RuntimeFault {
    StackOverflow,
    StackUnderflow,
    ConstantOutOfRange,
    UnknownOpcode,
    CodeOverrun,
    TypeMismatch,
}

/// An operation on numbers, which the host carries out in floating point.
#[derive(Debug, Clone, Copy, PartialEq, Eq, Structural)]
pub enum NumericOp {
    Negate,
    Add,
    Subtract,
    Multiply,
    Divide,
    Less,
    LessEqual,
    Greater,
    GreaterEqual,
    Equal,
    NotEqual,
}

/// What one instruction, or a run of instructions, ends in.
#[derive(Debug)]
pub enum Step {
    /// The instruction was carried out; the machine goes on.
    Continue,
    /// `Ret` popped the fragment's result.
    Finished(Value),
    /// The fragment is malformed.
    Fault(RuntimeFault),
    /// The operands of a numeric operation were popped (the second is 0 for `Negate`);
    /// the host computes the result and pushes it before the machine goes on.
    Numeric(NumericOp, u64, u64),
}

pub enum Outcome {
    Continue,
    Finished(Val),
    Fault(RuntimeFault),
    Numeric(NumericOp, u64, u64),
}

impl View for Step {
    type V = Outcome;

    open spec fn view(&self) -> Outcome {
        match self {
            Step::Continue => Outcome::Continue,
            Step::Finished(v) => Outcome::Finished(v@),
            Step::Fault(f) => Outcome::Fault(*f),
            Step::Numeric(op, a, b) => Outcome::Numeric(*op, *a, *b),
        }
    }
}

/// An outcome and the machine state after it.
pub struct Transition {
    pub outcome: Outcome,
    pub ip: int,
    pub stack: Seq<Val>,
}

pub open spec fn fault(f: RuntimeFault, ip: int, stack: Seq<Val>) -> Transition {
    Transition { outcome: Outcome::Fault(f), ip, stack }
}

pub open spec fn go_on(ip: int, stack: Seq<Val>) -> Transition {
    Transition { outcome: Outcome::Continue, ip, stack }
}

/// Pushes `v`, unless the stack is full.
pub open spec fn push_spec(v: Val, ip: int, stack: Seq<Val>) -> Transition {
    if stack.len() >= 256 {
        fault(RuntimeFault::StackOverflow, ip, stack)
    } else {
        go_on(ip, stack.push(v))
    }
}

/// The numeric operation an opcode stands for (`Negate` for those without one).
pub open spec fn numeric_op_of(op: Opcode) -> NumericOp {
    match op {
        Opcode::Add => NumericOp::Add,
        Opcode::Sub => NumericOp::Subtract,
        Opcode::Mul => NumericOp::Multiply,
        Opcode::Div => NumericOp::Divide,
        Opcode::Less => NumericOp::Less,
        Opcode::LessEqual => NumericOp::LessEqual,
        Opcode::Greater => NumericOp::Greater,
        Opcode::GreaterEqual => NumericOp::GreaterEqual,
        Opcode::Equal => NumericOp::Equal,
        Opcode::NotEqual => NumericOp::NotEqual,
        _ => NumericOp::Negate,
    }
}

/// A binary operator on the two top values, `b` on top of `a`: numbers go to the host;
/// `+` concatenates strings; `==` and `!=` compare two strings or two booleans.
pub open spec fn binary_spec(op: Opcode, ip: int, stack: Seq<Val>) -> Transition {
    if stack.len() < 2 {
        fault(RuntimeFault::StackUnderflow, ip, stack)
    } else {
        let a = stack[stack.len() - 2];
        let b = stack[stack.len() - 1];
        let rest = stack.take(stack.len() - 2);
        match (a, b) {
            (Val::Num(x), Val::Num(y)) => Transition {
                outcome: Outcome::Numeric(numeric_op_of(op), x, y),
                ip,
                stack: rest,
            },
            (Val::Str(x), Val::Str(y)) => if op == Opcode::Add {
                go_on(ip, rest.push(Val::Str(x + y)))
            } else if op == Opcode::Equal {
                go_on(ip, rest.push(Val::Bool(x == y)))
            } else if op == Opcode::NotEqual {
                go_on(ip, rest.push(Val::Bool(x != y)))
            } else {
                fault(RuntimeFault::TypeMismatch, ip, stack)
            },
            (Val::Bool(x), Val::Bool(y)) => if op == Opcode::Equal {
                go_on(ip, rest.push(Val::Bool(x == y)))
            } else if op == Opcode::NotEqual {
                go_on(ip, rest.push(Val::Bool(x != y)))
            } else {
                fault(RuntimeFault::TypeMismatch, ip, stack)
            },
            _ => fault(RuntimeFault::TypeMismatch, ip, stack),
        }
    }
}

/// Carries out the instruction `op`, whose opcode byte stood just before `ip`.
pub open spec fn exec_spec(f: Fragment, op: Opcode, ip: int, stack: Seq<Val>) -> Transition {
    match op {
        Opcode::Ret => if stack.len() == 0 {
            fault(RuntimeFault::StackUnderflow, ip, stack)
        } else {
            Transition { outcome: Outcome::Finished(stack.last()), ip, stack: stack.drop_last() }
        },
        Opcode::Num => if ip >= f.code.len() {
            fault(RuntimeFault::CodeOverrun, ip, stack)
        } else if f.code[ip] >= f.numbers.len() {
            fault(RuntimeFault::ConstantOutOfRange, ip + 1, stack)
        } else {
            push_spec(Val::Num(f.numbers[f.code[ip] as int]), ip + 1, stack)
        },
        Opcode::Str => if ip >= f.code.len() {
            fault(RuntimeFault::CodeOverrun, ip, stack)
        } else if f.code[ip] >= f.strings.len() {
            fault(RuntimeFault::ConstantOutOfRange, ip + 1, stack)
        } else {
            push_spec(Val::Str(f.strings[f.code[ip] as int]), ip + 1, stack)
        },
        Opcode::True => push_spec(Val::Bool(true), ip, stack),
        Opcode::False => push_spec(Val::Bool(false), ip, stack),
        Opcode::Neg => if stack.len() == 0 {
            fault(RuntimeFault::StackUnderflow, ip, stack)
        } else {
            match stack.last() {
                Val::Num(x) => Transition {
                    outcome: Outcome::Numeric(NumericOp::Negate, x, 0),
                    ip,
                    stack: stack.drop_last(),
                },
                _ => fault(RuntimeFault::TypeMismatch, ip, stack),
            }
        },
        Opcode::Not => if stack.len() == 0 {
            fault(RuntimeFault::StackUnderflow, ip, stack)
        } else {
            match stack.last() {
                Val::Bool(b) => go_on(ip, stack.drop_last().push(Val::Bool(!b))),
                _ => fault(RuntimeFault::TypeMismatch, ip, stack),
            }
        },
        _ => binary_spec(op, ip, stack),
    }
}

/// Fetches the instruction at `ip` and carries it out.
pub open spec fn step_spec(f: Fragment, ip: int, stack: Seq<Val>) -> Transition {
    if ip < 0 || ip >= f.code.len() {
        fault(RuntimeFault::CodeOverrun, ip, stack)
    } else {
        match Opcode::spec_from_byte(f.code[ip]) {
            None => fault(RuntimeFault::UnknownOpcode, ip, stack),
            Some(op) => exec_spec(f, op, ip + 1, stack),
        }
    }
}

/// Steps until the fragment returns, faults, or hands a numeric operation to the host.
pub open spec fn run_spec(f: Fragment, ip: int, stack: Seq<Val>) -> Transition
    decreases f.code.len() - ip,
{
    let t = step_spec(f, ip, stack);
    if t.outcome is Continue && ip < t.ip <= f.code.len() {
        run_spec(f, t.ip, t.stack)
    } else {
        t
    }
}

/// The numeric operation an opcode stands for.
fn numeric_op(op: Opcode) -> (r: NumericOp)
    ensures
        r == numeric_op_of(op),
{
    match op {
        Opcode::Add => NumericOp::Add,
        Opcode::Sub => NumericOp::Subtract,
        Opcode::Mul => NumericOp::Multiply,
        Opcode::Div => NumericOp::Divide,
        Opcode::Less => NumericOp::Less,
        Opcode::LessEqual => NumericOp::LessEqual,
        Opcode::Greater => NumericOp::Greater,
        Opcode::GreaterEqual => NumericOp::GreaterEqual,
        Opcode::Equal => NumericOp::Equal,
        Opcode::NotEqual => NumericOp::NotEqual,
        _ => NumericOp::Negate,
    }
}

/// The virtual machine: an instruction pointer and a bounded stack of values.
pub struct VM {
    pub stack: Vec<Value>,
    pub ip: usize,
}

pub open spec fn values(v: Seq<Value>) -> Seq<Val> {
    v.map_values(|x: Value| x@)
}

impl VM {
    pub open spec fn stack_view(&self) -> Seq<Val> {
        values(self.stack@)
    }

    /// The stack holds no more than its limit.
    pub open spec fn wf(&self) -> bool {
        self.stack@.len() <= 256
    }

    pub fn new() -> (r: VM)
        ensures
            r.wf(),
            r.ip == 0,
            r.stack@.len() == 0,
    {
        VM { stack: Vec::new(), ip: 0 }
    }

    /// Makes the machine ready to run a fragment from its start.
    pub fn reset(&mut self)
        ensures
            final(self).wf(),
            final(self).ip == 0,
            final(self).stack@.len() == 0,
    {
        self.ip = 0;
        self.stack = Vec::new();
    }

    /// Pushes a value, or reports a full stack and leaves it unchanged.
    pub fn push(&mut self, v: Value) -> (r: Result<(), RuntimeFault>)
        requires
            old(self).wf(),
        ensures
            final(self).wf(),
            final(self).ip == old(self).ip,
            old(self).stack@.len() < 256 ==> r is Ok && final(self).stack_view() == old(
                self,
            ).stack_view().push(v@),
            old(self).stack@.len() >= 256 ==> r == Err::<(), RuntimeFault>(
                RuntimeFault::StackOverflow,
            ) && final(self).stack@ == old(self).stack@,
    {
        if self.stack.len() >= STACK_LIMIT {
            return Err(RuntimeFault::StackOverflow);
        }
        let ghost before = self.stack@;
        self.stack.push(v);
        proof {
            assert(values(before.push(v)) =~= values(before).push(v@));
        }
        Ok(())
    }

    /// Pops the top value, or reports an empty stack.
    pub fn pop(&mut self) -> (r: Result<Value, RuntimeFault>)
        requires
            old(self).wf(),
        ensures
            final(self).wf(),
            final(self).ip == old(self).ip,
            old(self).stack@.len() == 0 ==> r == Err::<Value, RuntimeFault>(
                RuntimeFault::StackUnderflow,
            ) && final(self).stack@ == old(self).stack@,
            old(self).stack@.len() > 0 ==> (r matches Ok(v) && v@ == old(self).stack_view().last()
                && final(self).stack_view() == old(self).stack_view().drop_last()),
    {
        let ghost before = self.stack@;
        match self.stack.pop() {
            None => Err(RuntimeFault::StackUnderflow),
            Some(v) => {
                proof {
                    assert(values(before.drop_last()) =~= values(before).drop_last());
                }
                Ok(v)
            },
        }
    }

    /// Carries out a binary operator on the two top values.
    fn binary(&mut self, op: Opcode) -> (r: Step)
        requires
            old(self).wf(),
        ensures
            final(self).wf(),
            final(self).ip == old(self).ip,
            r@ == binary_spec(op, old(self).ip as int, old(self).stack_view()).outcome,
            !(r is Fault) ==> final(self).stack_view() == binary_spec(
                op,
                old(self).ip as int,
                old(self).stack_view(),
            ).stack,
    {
        if self.stack.len() < 2 {
            return Step::Fault(RuntimeFault::StackUnderflow);
        }
        let ghost s0 = self.stack_view();
        let b = match self.pop() {
            Ok(v) => v,
            Err(f) => return Step::Fault(f),
        };
        let a = match self.pop() {
            Ok(v) => v,
            Err(f) => return Step::Fault(f),
        };
        proof {
            assert(s0.drop_last().drop_last() =~= s0.take(s0.len() - 2));
            assert(s0.drop_last().last() == s0[s0.len() - 2]);
        }
        match (a, b) {
            (Value::Num(x), Value::Num(y)) => Step::Numeric(numeric_op(op), x, y),
            (Value::Str(x), Value::Str(y)) => {
                if op == Opcode::Add {
                    let mut joined = x;
                    joined.append(y.as_str());
                    self.push_step(Value::Str(joined))
                } else if op == Opcode::Equal {
                    self.push_step(Value::Bool(x == y))
                } else if op == Opcode::NotEqual {
                    self.push_step(Value::Bool(x != y))
                } else {
                    Step::Fault(RuntimeFault::TypeMismatch)
                }
            },
            (Value::Bool(x), Value::Bool(y)) => {
                if op == Opcode::Equal {
                    self.push_step(Value::Bool(x == y))
                } else if op == Opcode::NotEqual {
                    self.push_step(Value::Bool(x != y))
                } else {
                    Step::Fault(RuntimeFault::TypeMismatch)
                }
            },
            _ => Step::Fault(RuntimeFault::TypeMismatch),
        }
    }

    /// Fetches the instruction at the instruction pointer and carries it out. After a fault
    /// the machine's state is unspecified: reset it before running again.
    pub fn step(&mut self, code: &ByteCode) -> (r: Step)
        requires
            old(self).wf(),
        ensures
            final(self).wf(),
            r@ == step_spec(code@, old(self).ip as int, old(self).stack_view()).outcome,
            !(r is Fault) ==> final(self).ip == step_spec(
                code@,
                old(self).ip as int,
                old(self).stack_view(),
            ).ip && final(self).stack_view() == step_spec(
                code@,
                old(self).ip as int,
                old(self).stack_view(),
            ).stack,
            r is Continue ==> old(self).ip < final(self).ip <= code@.code.len(),
    {
        let at = self.ip;
        let opcode = match code.fetch_instruction(&mut self.ip) {
            None => {
                return if at >= code.code.len() {
                    Step::Fault(RuntimeFault::CodeOverrun)
                } else {
                    Step::Fault(RuntimeFault::UnknownOpcode)
                };
            },
            Some(op) => op,
        };
        match opcode {
            Opcode::Ret => match self.pop() {
                Err(f) => Step::Fault(f),
                Ok(v) => Step::Finished(v),
            },
            Opcode::Num => match code.fetch_operand(&mut self.ip) {
                None => Step::Fault(RuntimeFault::CodeOverrun),
                Some(addr) => match code.fetch_number(addr as usize) {
                    None => Step::Fault(RuntimeFault::ConstantOutOfRange),
                    Some(bits) => self.push_step(Value::Num(bits)),
                },
            },
            Opcode::Str => match code.fetch_operand(&mut self.ip) {
                None => Step::Fault(RuntimeFault::CodeOverrun),
                Some(addr) => match code.fetch_string(addr as usize) {
                    None => Step::Fault(RuntimeFault::ConstantOutOfRange),
                    Some(text) => self.push_step(Value::Str(text.clone())),
                },
            },
            Opcode::True => self.push_step(Value::Bool(true)),
            Opcode::False => self.push_step(Value::Bool(false)),
            Opcode::Neg => match self.pop() {
                Err(f) => Step::Fault(f),
                Ok(Value::Num(x)) => Step::Numeric(NumericOp::Negate, x, 0),
                Ok(_) => Step::Fault(RuntimeFault::TypeMismatch),
            },
            Opcode::Not => match self.pop() {
                Err(f) => Step::Fault(f),
                Ok(Value::Bool(b)) => self.push_step(Value::Bool(!b)),
                Ok(_) => Step::Fault(RuntimeFault::TypeMismatch),
            },
            _ => self.binary(opcode),
        }
    }

    /// Steps until the fragment returns, faults, or hands a numeric operation to the host,
    /// and reports which.
    pub fn run(&mut self, code: &ByteCode) -> (r: Step)
        requires
            old(self).wf(),
        ensures
            final(self).wf(),
            !(r is Continue),
            r@ == run_spec(code@, old(self).ip as int, old(self).stack_view()).outcome,
            !(r is Fault) ==> final(self).ip == run_spec(
                code@,
                old(self).ip as int,
                old(self).stack_view(),
            ).ip && final(self).stack_view() == run_spec(
                code@,
                old(self).ip as int,
                old(self).stack_view(),
            ).stack,
    {
        let ghost ip0 = self.ip as int;
        let ghost s0 = self.stack_view();
        loop
            invariant
                self.wf(),
                ip0 == old(self).ip as int,
                s0 == old(self).stack_view(),
                run_spec(code@, ip0, s0) == run_spec(code@, self.ip as int, self.stack_view()),
            decreases code@.code.len() - self.ip,
        {
            let ghost ip1 = self.ip as int;
            let ghost s1 = self.stack_view();
            let r = self.step(code);
            match r {
                Step::Continue => {},
                _ => {
                    assert(run_spec(code@, ip1, s1) == step_spec(code@, ip1, s1));
                    return r;
                },
            }
        }
    }

    /// Pushes `v` and goes on, or faults on a full stack.
    fn push_step(&mut self, v: Value) -> (r: Step)
        requires
            old(self).wf(),
        ensures
            final(self).wf(),
            final(self).ip == old(self).ip,
            r@ == push_spec(v@, old(self).ip as int, old(self).stack_view()).outcome,
            !(r is Fault) ==> final(self).stack_view() == push_spec(
                v@,
                old(self).ip as int,
                old(self).stack_view(),
            ).stack,
    {
        match self.push(v) {
            Ok(()) => Step::Continue,
            Err(f) => Step::Fault(f),
        }
    }
}

/// Whether two values are of one kind.
pub open spec fn same_kind(a: Val, b: Val) -> bool {
    match (a, b) {
        (Val::Num(_), Val::Num(_)) | (Val::Bool(_), Val::Bool(_)) | (Val::Str(_), Val::Str(_))
        | (Val::Nil, Val::Nil) => true,
        _ => false,
    }
}

/// An instruction that reads a constant past the end of its pool faults, whatever the stack.
pub proof fn lemma_constant_out_of_range_faults(f: Fragment, ip: int, stack: Seq<Val>)
    requires
        0 <= ip,
        ip + 1 < f.code.len(),
        (f.code[ip] == Opcode::Num.spec_byte() && f.code[ip + 1] >= f.numbers.len()) || (f.code[ip]
            == Opcode::Str.spec_byte() && f.code[ip + 1] >= f.strings.len()),
    ensures
        step_spec(f, ip, stack).outcome == Outcome::Fault(RuntimeFault::ConstantOutOfRange),
{
}

/// Every instruction that pops faults on an empty stack.
pub proof fn lemma_pop_on_empty_stack_faults(f: Fragment, ip: int, op: Opcode)
    requires
        0 <= ip < f.code.len(),
        f.code[ip] == op.spec_byte(),
        op != Opcode::Num,
        op != Opcode::Str,
        op != Opcode::True,
        op != Opcode::False,
    ensures
        step_spec(f, ip, Seq::empty()).outcome == Outcome::Fault(RuntimeFault::StackUnderflow),
{
    lemma_opcode_byte_round_trip(op);
}

/// `==` and `!=` on two values of different kinds fault.
pub proof fn lemma_equality_across_kinds_faults(f: Fragment, ip: int, stack: Seq<Val>)
    requires
        0 <= ip < f.code.len(),
        f.code[ip] == Opcode::Equal.spec_byte() || f.code[ip] == Opcode::NotEqual.spec_byte(),
        stack.len() >= 2,
        !same_kind(stack[stack.len() - 2], stack[stack.len() - 1]),
    ensures
        step_spec(f, ip, stack).outcome == Outcome::Fault(RuntimeFault::TypeMismatch),
{
}

/// Where the `k`-th instruction of the fragment's body starts (the closing `Ret` where `k`
/// is the body's length).
pub open spec fn boundary(f: Fragment, k: int) -> int {
    encode(f.body().take(k)).len() as int
}

/// Faults that only a malformed fragment can cause.
pub open spec fn structural_fault(o: Outcome) -> bool {
    o == Outcome::Fault(RuntimeFault::CodeOverrun) || o == Outcome::Fault(
        RuntimeFault::UnknownOpcode,
    ) || o == Outcome::Fault(RuntimeFault::ConstantOutOfRange)
}

/// A well-formed fragment cannot fault on its own structure: from the start of any
/// instruction, a step reads a known opcode and in-range constants, and an instruction that
/// goes on (or hands a number operation to the host) ends at the start of the next one.
pub proof fn lemma_well_formed_step(f: Fragment, k: int, stack: Seq<Val>)
    requires
        f.wf(),
        0 <= k <= f.body().len(),
    ensures
        !structural_fault(step_spec(f, boundary(f, k), stack).outcome),
        step_spec(f, boundary(f, k), stack).outcome is Continue || step_spec(
            f,
            boundary(f, k),
            stack,
        ).outcome is Numeric ==> k < f.body().len() && step_spec(
            f,
            boundary(f, k),
            stack,
        ).ip == boundary(f, k + 1),
{
    let b = f.body();
    let pre = b.take(k);
    let ip = boundary(f, k);
    lemma_encode_append(pre, b.skip(k));
    assert(pre + b.skip(k) =~= b);
    if k == b.len() {
        assert(b.skip(k) =~= Seq::<Instruction>::empty());
        assert(encode(b.skip(k)) =~= Seq::<u8>::empty());
        assert(f.code[ip] == Opcode::Ret.spec_byte());
    } else {
        let i = b[k];
        lemma_decode_valid(f.code);
        assert(valid_instr(b[k]));
        assert(b.skip(k) =~= seq![i] + b.skip(k + 1));
        assert(b.skip(k).drop_first() =~= b.skip(k + 1));
        let code_tail = encode(b.skip(k));
        assert(code_tail =~= encode_instr(i) + encode(b.skip(k + 1)));
        assert(f.code == encode(pre) + (encode_instr(i) + encode(b.skip(k + 1))) + seq![
            Opcode::Ret.spec_byte(),
        ]);
        assert(f.code[ip] == i.opcode.spec_byte());
        lemma_opcode_byte_round_trip(i.opcode);
        if i.opcode.has_operand() {
            assert(f.code[ip + 1] == i.operand);
        }
        assert(b.take(k + 1) =~= pre + seq![i]);
        lemma_encode_append(pre, seq![i]);
        assert(seq![i].drop_first() =~= Seq::<Instruction>::empty());
        assert(encode(Seq::<Instruction>::empty()) =~= Seq::<u8>::empty());
        assert(encode(seq![i]) =~= encode_instr(i));
    }
}

/// Running a well-formed fragment from the start of any instruction never ends in a
/// structural fault, and when it hands a number operation to the host it stops at the start
/// of an instruction, from which the run can go on after the host pushes the result.
pub proof fn lemma_well_formed_run(f: Fragment, k: int, stack: Seq<Val>)
    requires
        f.wf(),
        0 <= k <= f.body().len(),
    ensures
        !structural_fault(run_spec(f, boundary(f, k), stack).outcome),
        run_spec(f, boundary(f, k), stack).outcome is Numeric ==> exists|j: int|
            0 <= j <= f.body().len() && run_spec(f, boundary(f, k), stack).ip == boundary(f, j),
    decreases f.body().len() - k,
{
    let ip = boundary(f, k);
    let t = step_spec(f, ip, stack);
    lemma_well_formed_step(f, k, stack);
    if t.outcome is Continue && ip < t.ip <= f.code.len() {
        lemma_well_formed_run(f, k + 1, t.stack);
    } else if t.outcome is Numeric {
        assert(run_spec(f, ip, stack).ip == boundary(f, k + 1));
    }
}

} // verus!
