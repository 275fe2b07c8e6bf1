use vstd::prelude::*;
use crate::ast::BinaryOperator;
use crate::bytecode::{Bytecode, Literal, LiteralView};
use crate::object::{truthy, Object};
use crate::opcode::Opcode;

verus! {

/// Why a run stopped without a result.
#[derive(Debug, Clone, Copy, PartialEq, Eq, Structural)]
pub enum RuntimeError {
    /// An instruction needed a value and the stack was empty.
    StackUnderflow,
    /// An instruction met an operand of a kind it does not take: arithmetic
    /// and ordering take numbers only.
    TypeMismatch { op: Opcode, left: Object, right: Object },
    /// An instruction that this machine does not execute: calls.
    Unsupported(Opcode),
    /// A `Constant` instruction whose index is outside the pool.
    BadConstant(usize),
    /// The instructions ran out before a `Return`.
    MissingReturn,
}

/// What one step of the machine leaves to its host, or how the run ended.
///
/// The machine does no floating-point work itself: for `Decode` the host pushes
/// the binary64 value of the literal, for `Arithmetic` the binary64 result of
/// `left op right` (both given as bit patterns), each with `VM::push`.
#[derive(Debug, Clone, PartialEq)]
pub enum Step {
    Continue,
    Decode(String),
    Arithmetic { op: BinaryOperator, left: u64, right: u64 },
    Returned(Object),
    Failed(RuntimeError),
}

pub enum StepView {
    Continue,
    Decode(Seq<char>),
    Arithmetic { op: BinaryOperator, left: u64, right: u64 },
    Returned(Object),
    Failed(RuntimeError),
}

impl View for Step {
    type V = StepView;

    open spec fn view(&self) -> StepView {
        match self {
            Step::Continue => StepView::Continue,
            Step::Decode(s) => StepView::Decode(s@),
            Step::Arithmetic { op, left, right } => StepView::Arithmetic {
                op: *op,
                left: *left,
                right: *right,
            },
            Step::Returned(v) => StepView::Returned(*v),
            Step::Failed(e) => StepView::Failed(*e),
        }
    }
}

/// The arithmetic operator that an instruction performs, if any.
pub open spec fn arith_of(op: Opcode) -> Option<BinaryOperator> {
    match op {
        Opcode::Add => Some(BinaryOperator::Add),
        Opcode::Subtract => Some(BinaryOperator::Subtract),
        Opcode::Multiply => Some(BinaryOperator::Multiply),
        Opcode::Divide => Some(BinaryOperator::Divide),
        Opcode::Modulo => Some(BinaryOperator::Modulo),
        _ => None,
    }
}

/// The sign bit of a binary64 bit pattern.
pub const SIGN_BIT: u64 = 0x8000_0000_0000_0000;

/// The exponent field of a binary64 bit pattern.
pub const EXPONENT_BITS: u64 = 0x7ff0_0000_0000_0000;

/// The fraction field of a binary64 bit pattern.
pub const FRACTION_BITS: u64 = 0x000f_ffff_ffff_ffff;

/// The bit pattern is a NaN: all exponent bits set and a fraction that is not zero.
pub open spec fn is_nan_bits(b: u64) -> bool {
    b & EXPONENT_BITS == EXPONENT_BITS && b & FRACTION_BITS != 0
}

/// The bit pattern is `0.0` or `-0.0`.
pub open spec fn is_zero_bits(b: u64) -> bool {
    b == 0 || b == SIGN_BIT
}

/// A key whose unsigned order is the numeric order of the values that are not NaN,
/// with `-0.0` just below `0.0`.
pub open spec fn order_key(b: u64) -> u64 {
    if b & SIGN_BIT != 0 {
        !b
    } else {
        b | SIGN_BIT
    }
}

/// binary64 `==`: false when either is NaN; the two zeros are equal.
pub open spec fn number_eq(a: u64, b: u64) -> bool {
    !is_nan_bits(a) && !is_nan_bits(b) && (a == b || (is_zero_bits(a) && is_zero_bits(b)))
}

/// binary64 `<`: false when either is NaN or both are zeros.
pub open spec fn number_lt(a: u64, b: u64) -> bool {
    !is_nan_bits(a) && !is_nan_bits(b) && !(is_zero_bits(a) && is_zero_bits(b)) && order_key(a)
        < order_key(b)
}

/// Equality that knows the kind: values of different kinds are never equal.
pub open spec fn values_equal(left: Object, right: Object) -> bool {
    match (left, right) {
        (Object::Number(a), Object::Number(b)) => number_eq(a, b),
        (Object::Boolean(a), Object::Boolean(b)) => a == b,
        _ => false,
    }
}

/// What a two-operand instruction makes of its operands.
pub enum Combined {
    /// A value to push.
    Value(Object),
    /// binary64 arithmetic for the host.
    Host(BinaryOperator, u64, u64),
    /// The operands are of a kind the instruction does not take.
    Mismatch,
}

/// The instructions that take two operands.
pub open spec fn takes_two(op: Opcode) -> bool {
    arith_of(op) is Some || op == Opcode::Equal || op == Opcode::Greater || op == Opcode::Less
        || op == Opcode::And || op == Opcode::Or
}

pub open spec fn combine_spec(op: Opcode, left: Object, right: Object) -> Combined {
    match arith_of(op) {
        Some(a) => match (left, right) {
            (Object::Number(l), Object::Number(r)) => Combined::Host(a, l, r),
            _ => Combined::Mismatch,
        },
        None => match (op, left, right) {
            (Opcode::Equal, _, _) => Combined::Value(Object::Boolean(values_equal(left, right))),
            (Opcode::And, _, _) => Combined::Value(Object::Boolean(truthy(left) && truthy(right))),
            (Opcode::Or, _, _) => Combined::Value(Object::Boolean(truthy(left) || truthy(right))),
            (Opcode::Greater, Object::Number(l), Object::Number(r)) => Combined::Value(
                Object::Boolean(number_lt(r, l)),
            ),
            (Opcode::Less, Object::Number(l), Object::Number(r)) => Combined::Value(
                Object::Boolean(number_lt(l, r)),
            ),
            _ => Combined::Mismatch,
        },
    }
}

/// One step at instruction `ip` with operand stack `stack`: the next
/// instruction pointer, the stack, and what is left to the host.
pub open spec fn step_spec(codes: Seq<Opcode>, pool: Seq<LiteralView>, ip: int, stack: Seq<Object>) -> (
    int,
    Seq<Object>,
    StepView,
) {
    if ip < 0 || ip >= codes.len() {
        (ip, stack, StepView::Failed(RuntimeError::MissingReturn))
    } else {
        let op = codes[ip];
        match op {
            Opcode::Constant(i) => if i >= pool.len() {
                (ip, stack, StepView::Failed(RuntimeError::BadConstant(i)))
            } else {
                match pool[i as int] {
                    LiteralView::Boolean(b) => (
                        ip + 1,
                        stack.push(Object::Boolean(b)),
                        StepView::Continue,
                    ),
                    LiteralView::Number(text) => (ip + 1, stack, StepView::Decode(text)),
                }
            },
            Opcode::Return => if stack.len() == 0 {
                (ip, stack, StepView::Failed(RuntimeError::StackUnderflow))
            } else {
                (ip, stack.drop_last(), StepView::Returned(stack.last()))
            },
            Opcode::Not => if stack.len() == 0 {
                (ip, stack, StepView::Failed(RuntimeError::StackUnderflow))
            } else {
                (
                    ip + 1,
                    stack.drop_last().push(Object::Boolean(!truthy(stack.last()))),
                    StepView::Continue,
                )
            },
            Opcode::Call(_) => (ip, stack, StepView::Failed(RuntimeError::Unsupported(op))),
            _ => if stack.len() < 2 {
                (ip, Seq::empty(), StepView::Failed(RuntimeError::StackUnderflow))
            } else {
                let right = stack.last();
                let left = stack.drop_last().last();
                let rest = stack.drop_last().drop_last();
                match combine_spec(op, left, right) {
                    Combined::Value(v) => (ip + 1, rest.push(v), StepView::Continue),
                    Combined::Host(a, l, r) => (
                        ip + 1,
                        rest,
                        StepView::Arithmetic { op: a, left: l, right: r },
                    ),
                    Combined::Mismatch => (
                        ip,
                        rest,
                        StepView::Failed(RuntimeError::TypeMismatch { op, left, right }),
                    ),
                }
            },
        }
    }
}

/// A whole run from `ip` with `stack`, where the host answers `Decode` with
/// `decode` and `Arithmetic` with `arith`: the result and the stack left over.
pub open spec fn run_from(
    codes: Seq<Opcode>,
    pool: Seq<LiteralView>,
    decode: spec_fn(Seq<char>) -> u64,
    arith: spec_fn(BinaryOperator, u64, u64) -> u64,
    ip: int,
    stack: Seq<Object>,
) -> (Result<Object, RuntimeError>, Seq<Object>)
    decreases codes.len() - ip,
{
    let (ip2, st2, s) = step_spec(codes, pool, ip, stack);
    if ip < 0 || ip >= codes.len() || ip2 <= ip {
        match s {
            StepView::Returned(v) => (Ok(v), st2),
            StepView::Failed(e) => (Err(e), st2),
            _ => (Err(RuntimeError::MissingReturn), st2),
        }
    } else {
        match s {
            StepView::Continue => run_from(codes, pool, decode, arith, ip2, st2),
            StepView::Decode(t) => run_from(
                codes,
                pool,
                decode,
                arith,
                ip2,
                st2.push(Object::Number(decode(t))),
            ),
            StepView::Arithmetic { op, left, right } => run_from(
                codes,
                pool,
                decode,
                arith,
                ip2,
                st2.push(Object::Number(arith(op, left, right))),
            ),
            StepView::Returned(v) => (Ok(v), st2),
            StepView::Failed(e) => (Err(e), st2),
        }
    }
}

fn is_nan(b: u64) -> (r: bool)
    ensures
        r == is_nan_bits(b),
{
    b & EXPONENT_BITS == EXPONENT_BITS && b & FRACTION_BITS != 0
}

fn is_zero(b: u64) -> (r: bool)
    ensures
        r == is_zero_bits(b),
{
    b == 0 || b == SIGN_BIT
}

fn key(b: u64) -> (r: u64)
    ensures
        r == order_key(b),
{
    if b & SIGN_BIT != 0 {
        !b
    } else {
        b | SIGN_BIT
    }
}

fn number_less(a: u64, b: u64) -> (r: bool)
    ensures
        r == number_lt(a, b),
{
    !is_nan(a) && !is_nan(b) && !(is_zero(a) && is_zero(b)) && key(a) < key(b)
}

fn equal(left: Object, right: Object) -> (r: bool)
    ensures
        r == values_equal(left, right),
{
    match (left, right) {
        (Object::Number(a), Object::Number(b)) => !is_nan(a) && !is_nan(b) && (a == b || (is_zero(a)
            && is_zero(b))),
        (Object::Boolean(a), Object::Boolean(b)) => a == b,
        _ => false,
    }
}

fn combine(op: Opcode, left: Object, right: Object) -> (r: Combined)
    ensures
        r == combine_spec(op, left, right),
{
    let arith = match op {
        Opcode::Add => Some(BinaryOperator::Add),
        Opcode::Subtract => Some(BinaryOperator::Subtract),
        Opcode::Multiply => Some(BinaryOperator::Multiply),
        Opcode::Divide => Some(BinaryOperator::Divide),
        Opcode::Modulo => Some(BinaryOperator::Modulo),
        _ => None,
    };
    match arith {
        Some(a) => match (left, right) {
            (Object::Number(l), Object::Number(r)) => Combined::Host(a, l, r),
            _ => Combined::Mismatch,
        },
        None => match (op, left, right) {
            (Opcode::Equal, _, _) => Combined::Value(Object::Boolean(equal(left, right))),
            (Opcode::And, _, _) => Combined::Value(
                Object::Boolean(Object::is_truthy(&left) && Object::is_truthy(&right)),
            ),
            (Opcode::Or, _, _) => Combined::Value(
                Object::Boolean(Object::is_truthy(&left) || Object::is_truthy(&right)),
            ),
            (Opcode::Greater, Object::Number(l), Object::Number(r)) => Combined::Value(
                Object::Boolean(number_less(r, l)),
            ),
            (Opcode::Less, Object::Number(l), Object::Number(r)) => Combined::Value(
                Object::Boolean(number_less(l, r)),
            ),
            _ => Combined::Mismatch,
        },
    }
}

/// A stack machine that executes bytecode one instruction at a time.
pub struct VM {
    ip: usize,
    stack: Vec<Object>,
}

impl Default for VM {
    fn default() -> (r: Self)
        ensures
            r.ip() == 0,
            r.stack().len() == 0,
    {
        VM { ip: 0, stack: Vec::with_capacity(256) }
    }
}

impl VM {
    /// The index of the next instruction.
    pub closed spec fn ip(&self) -> int {
        self.ip as int
    }

    /// The operand stack, bottom first.
    pub closed spec fn stack(&self) -> Seq<Object> {
        self.stack@
    }

    fn pop(&mut self) -> (r: Option<Object>)
        ensures
            final(self).ip == old(self).ip,
            old(self).stack@.len() == 0 ==> r is None && final(self).stack@ == old(self).stack@,
            old(self).stack@.len() > 0 ==> r == Some(old(self).stack@.last())
                && final(self).stack@ == old(self).stack@.drop_last(),
    {
        self.stack.pop()
    }

    /// Readies the machine for a new run: instruction pointer at the start and
    /// an empty stack, whose storage is kept.
    pub fn reset(&mut self)
        ensures
            final(self).ip() == 0,
            final(self).stack().len() == 0,
    {
        self.ip = 0;
        self.stack.clear();
    }

    /// Hands the host's answer to a `Decode` or `Arithmetic` step to the machine.
    pub fn push(&mut self, value: Object)
        ensures
            final(self).ip() == old(self).ip(),
            final(self).stack() == old(self).stack().push(value),
    {
        self.stack.push(value);
    }

    /// Pops the two operands of an instruction, right one first, and combines them.
    fn binary_op(&mut self, opcode: Opcode) -> (r: Step)
        requires
            old(self).ip < usize::MAX,
        ensures
            ({
                let st = old(self).stack@;
                if st.len() < 2 {
                    &&& r == Step::Failed(RuntimeError::StackUnderflow)
                    &&& final(self).stack@ == Seq::<Object>::empty()
                    &&& final(self).ip == old(self).ip
                } else {
                    let right = st.last();
                    let left = st.drop_last().last();
                    let rest = st.drop_last().drop_last();
                    match combine_spec(opcode, left, right) {
                        Combined::Value(v) => {
                            &&& r == Step::Continue
                            &&& final(self).stack@ == rest.push(v)
                            &&& final(self).ip == old(self).ip + 1
                        },
                        Combined::Host(a, l, rr) => {
                            &&& r == Step::Arithmetic { op: a, left: l, right: rr }
                            &&& final(self).stack@ == rest
                            &&& final(self).ip == old(self).ip + 1
                        },
                        Combined::Mismatch => {
                            &&& r == Step::Failed(
                                RuntimeError::TypeMismatch { op: opcode, left, right },
                            )
                            &&& final(self).stack@ == rest
                            &&& final(self).ip == old(self).ip
                        },
                    }
                }
            }),
    {
        let right = match self.pop() {
            Some(v) => v,
            None => return Step::Failed(RuntimeError::StackUnderflow),
        };
        let left = match self.pop() {
            Some(v) => v,
            None => return Step::Failed(RuntimeError::StackUnderflow),
        };
        match combine(opcode, left, right) {
            Combined::Value(v) => {
                self.stack.push(v);
                self.ip = self.ip + 1;
                Step::Continue
            },
            Combined::Host(op, l, r) => {
                self.ip = self.ip + 1;
                Step::Arithmetic { op, left: l, right: r }
            },
            Combined::Mismatch => Step::Failed(RuntimeError::TypeMismatch { op: opcode, left, right }),
        }
    }

    /// Executes the instruction at the instruction pointer. After `Returned` or
    /// `Failed` the run is over.
    pub fn step(&mut self, bytecode: &Bytecode) -> (r: Step)
        ensures
            ({
                let (ip2, st2, s) = step_spec(
                    bytecode.codes@,
                    bytecode.pool(),
                    old(self).ip(),
                    old(self).stack(),
                );
                &&& final(self).ip() == ip2
                &&& final(self).stack() == st2
                &&& r@ == s
            }),
    {
        if self.ip >= bytecode.codes.len() {
            return Step::Failed(RuntimeError::MissingReturn);
        }
        let opcode = bytecode.codes[self.ip];
        match opcode {
            Opcode::Constant(i) => {
                if i >= bytecode.constants.len() {
                    return Step::Failed(RuntimeError::BadConstant(i));
                }
                match &bytecode.constants[i] {
                    Literal::Boolean(b) => {
                        self.stack.push(Object::Boolean(*b));
                        self.ip = self.ip + 1;
                        Step::Continue
                    },
                    Literal::Number(text) => {
                        self.ip = self.ip + 1;
                        Step::Decode(text.clone())
                    },
                }
            },
            Opcode::Return => match self.pop() {
                Some(v) => Step::Returned(v),
                None => Step::Failed(RuntimeError::StackUnderflow),
            },
            Opcode::Not => match self.pop() {
                Some(v) => {
                    self.stack.push(Object::Boolean(Object::is_falsey(&v)));
                    self.ip = self.ip + 1;
                    Step::Continue
                },
                None => Step::Failed(RuntimeError::StackUnderflow),
            },
            Opcode::Call(_) => Step::Failed(RuntimeError::Unsupported(opcode)),
            _ => self.binary_op(opcode),
        }
    }
}

} // verus!
