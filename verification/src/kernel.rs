//! The floating-point kernel: what the library asks of the arithmetic that
//! it does not carry out itself.
//!
//! A double travels through the library as its IEEE-754 binary64 bit
//! pattern. The kernel is a function that the caller hands in. It reads a
//! numeral into a double and applies one primitive operation to doubles.

use vstd::prelude::*;

verus! {

/// The bit pattern of `0.0`.
pub const ZERO: u64 = 0;

/// The bit pattern of `-0.0`.
pub const NEGATIVE_ZERO: u64 = 0x8000_0000_0000_0000;

/// The bit pattern of positive infinity.
pub const INFINITY: u64 = 0x7FF0_0000_0000_0000;

/// The bit pattern of negative infinity.
pub const NEGATIVE_INFINITY: u64 = 0xFFF0_0000_0000_0000;

/// Whether `bits` is a double that compares equal to `0.0`: one of the two
/// zeros.
pub open spec fn is_zero(bits: u64) -> bool {
    bits == ZERO || bits == NEGATIVE_ZERO
}

/// Whether `bits` is a double that compares equal to `0.0`.
pub fn zero(bits: u64) -> (r: bool)
    ensures
        r == is_zero(bits),
{
    bits == ZERO || bits == NEGATIVE_ZERO
}

/// A primitive of one operand.
#[derive(Clone, Copy, Debug, PartialEq, Eq, Structural)]
pub enum UnaryFn {
    /// The square root.
    Sqrt,
    /// The absolute value.
    Abs,
    /// The nearest integer; a half rounds away from zero.
    Round,
    /// The least integer that is not less.
    Ceil,
    /// The greatest integer that is not greater.
    Floor,
    /// The sine of an angle in radians.
    Sin,
    /// The cosine of an angle in radians.
    Cos,
    /// The tangent of an angle in radians.
    Tan,
    /// The natural logarithm.
    Ln,
    /// The logarithm to base 10.
    Log10,
    /// `e` raised to the operand.
    Exp,
}

/// A primitive of two operands.
#[derive(Clone, Copy, Debug, PartialEq, Eq, Structural)]
pub enum BinaryFn {
    Add,
    Sub,
    Mul,
    /// Division as IEEE-754 defines it.
    Div,
    /// The first operand raised to the second.
    Pow,
    /// The greater operand; the other one where one is not a number.
    Max,
    /// The lesser operand; the other one where one is not a number.
    Min,
}

/// One request to the kernel.
#[derive(Debug, PartialEq, Eq)]
pub enum Operation {
    /// The double nearest to what a numeral writes.
    Numeral(String),
    Unary(UnaryFn, u64),
    Binary(BinaryFn, u64, u64),
}

/// The model of an [`Operation`].
pub enum Request {
    Numeral(Seq<char>),
    Unary(UnaryFn, u64),
    Binary(BinaryFn, u64, u64),
}

impl View for Operation {
    type V = Request;

    open spec fn view(&self) -> Request {
        match self {
            Operation::Numeral(text) => Request::Numeral(text@),
            Operation::Unary(f, x) => Request::Unary(*f, *x),
            Operation::Binary(f, x, y) => Request::Binary(*f, *x, *y),
        }
    }
}

/// Whether `kernel` takes every operation.
pub open spec fn accepts_all<K: Fn(Operation) -> u64>(kernel: K) -> bool {
    forall|operation: Operation| call_requires(kernel, (operation,))
}

/// Whether the result of `kernel` is a function of what the operation says:
/// it answers equal requests alike.
pub open spec fn is_function<K: Fn(Operation) -> u64>(kernel: K) -> bool {
    forall|a: Operation, b: Operation, x: u64, y: u64|
        a@ == b@ && #[trigger] call_ensures(kernel, (a,), x) && #[trigger] call_ensures(
            kernel,
            (b,),
            y,
        ) ==> x == y
}

/// Whether `kernel` may answer `x` to an operation that says `request`.
pub open spec fn may_answer<K: Fn(Operation) -> u64>(kernel: K, request: Request, x: u64) -> bool {
    exists|operation: Operation|
        operation@ == request && #[trigger] call_ensures(kernel, (operation,), x)
}

/// What `kernel` answers to `request`.
pub open spec fn answer<K: Fn(Operation) -> u64>(kernel: K, request: Request) -> u64 {
    choose|x: u64| may_answer(kernel, request, x)
}

/// `kernel` as a function from requests to doubles.
pub open spec fn model<K: Fn(Operation) -> u64>(kernel: K) -> spec_fn(Request) -> u64 {
    |request: Request| answer(kernel, request)
}

/// Asks `kernel` for `operation`.
pub fn ask<K: Fn(Operation) -> u64>(kernel: &K, operation: Operation) -> (x: u64)
    requires
        accepts_all(*kernel),
    ensures
        may_answer(*kernel, operation@, x),
        is_function(*kernel) ==> x == model(*kernel)(operation@),
{
    let ghost request = operation@;
    let ghost asked = operation;
    let x = kernel(operation);
    assert(asked@ == request && call_ensures(*kernel, (asked,), x));
    assert(may_answer(*kernel, request, x));
    x
}

} // verus!
