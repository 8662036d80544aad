//! Arithmetic on real-valued quantities.
//!
//! The library says which operations are done on which quantities, and in
//! which order; the operations themselves are the caller's: a function from
//! an [`Operation`] and the bit patterns of its operands to the bit pattern
//! of the result.

use crate::quantity::{Quantity, INFINITY, ONE, ZERO};
use vstd::prelude::*;

verus! {

/// An operation on doubles.
#[derive(Debug, Clone, Copy, PartialEq, Eq, Structural)]
pub enum Operation {
    Add,
    Subtract,
    Multiply,
    Divide,
    /// The square root of the first operand.
    SquareRoot,
    /// The double nearest to the first operand, which is a whole number and
    /// not the bit pattern of a double.
    Convert,
}

/// A function that does the operations.
pub trait Calculator: Fn(Operation, u64, u64) -> u64 + Copy {}

impl<F: Fn(Operation, u64, u64) -> u64 + Copy> Calculator for F {}

/// What `calc` answers.
pub open spec fn answer<C: Calculator>(calc: C, op: Operation, a: u64, b: u64) -> u64 {
    choose|r: u64| call_ensures(calc, (op, a, b), r)
}

/// `calc` takes all operands, and has one answer to each question.
pub open spec fn reliable<C: Calculator>(calc: C) -> bool {
    &&& forall|op: Operation, a: u64, b: u64| #[trigger] call_requires(calc, (op, a, b))
    &&& forall|op: Operation, a: u64, b: u64, r: u64, s: u64|
        #[trigger] call_ensures(calc, (op, a, b), r) && #[trigger] call_ensures(
            calc,
            (op, a, b),
            s,
        ) ==> r == s
}

fn ask<C: Calculator>(calc: C, op: Operation, a: u64, b: u64) -> (r: Quantity)
    requires
        reliable(calc),
    ensures
        r.bits == answer(calc, op, a, b),
{
    Quantity { bits: calc(op, a, b) }
}

// ---------------------------------------------------------------------
// The operations
// ---------------------------------------------------------------------

pub open spec fn sum<C: Calculator>(calc: C, a: Quantity, b: Quantity) -> Quantity {
    Quantity { bits: answer(calc, Operation::Add, a.bits, b.bits) }
}

pub open spec fn difference<C: Calculator>(calc: C, a: Quantity, b: Quantity) -> Quantity {
    Quantity { bits: answer(calc, Operation::Subtract, a.bits, b.bits) }
}

pub open spec fn product<C: Calculator>(calc: C, a: Quantity, b: Quantity) -> Quantity {
    Quantity { bits: answer(calc, Operation::Multiply, a.bits, b.bits) }
}

pub open spec fn quotient<C: Calculator>(calc: C, a: Quantity, b: Quantity) -> Quantity {
    Quantity { bits: answer(calc, Operation::Divide, a.bits, b.bits) }
}

pub open spec fn root<C: Calculator>(calc: C, a: Quantity) -> Quantity {
    Quantity { bits: answer(calc, Operation::SquareRoot, a.bits, 0) }
}

pub open spec fn whole<C: Calculator>(calc: C, n: u64) -> Quantity {
    Quantity { bits: answer(calc, Operation::Convert, n, 0) }
}

pub fn plus<C: Calculator>(calc: C, a: Quantity, b: Quantity) -> (r: Quantity)
    requires
        reliable(calc),
    ensures
        r == sum(calc, a, b),
{
    ask(calc, Operation::Add, a.bits, b.bits)
}

pub fn minus<C: Calculator>(calc: C, a: Quantity, b: Quantity) -> (r: Quantity)
    requires
        reliable(calc),
    ensures
        r == difference(calc, a, b),
{
    ask(calc, Operation::Subtract, a.bits, b.bits)
}

pub fn times<C: Calculator>(calc: C, a: Quantity, b: Quantity) -> (r: Quantity)
    requires
        reliable(calc),
    ensures
        r == product(calc, a, b),
{
    ask(calc, Operation::Multiply, a.bits, b.bits)
}

pub fn over<C: Calculator>(calc: C, a: Quantity, b: Quantity) -> (r: Quantity)
    requires
        reliable(calc),
    ensures
        r == quotient(calc, a, b),
{
    ask(calc, Operation::Divide, a.bits, b.bits)
}

pub fn square_root<C: Calculator>(calc: C, a: Quantity) -> (r: Quantity)
    requires
        reliable(calc),
    ensures
        r == root(calc, a),
{
    ask(calc, Operation::SquareRoot, a.bits, 0)
}

pub fn from_whole<C: Calculator>(calc: C, n: u64) -> (r: Quantity)
    requires
        reliable(calc),
    ensures
        r == whole(calc, n),
{
    ask(calc, Operation::Convert, n, 0)
}

// ---------------------------------------------------------------------
// Formulas
// ---------------------------------------------------------------------

/// The smaller of two quantities.
pub open spec fn least(a: Quantity, b: Quantity) -> Quantity {
    if b.rank() < a.rank() {
        b
    } else {
        a
    }
}

/// The larger of two quantities.
pub open spec fn greatest(a: Quantity, b: Quantity) -> Quantity {
    if a.rank() < b.rank() {
        b
    } else {
        a
    }
}

pub fn min_of(a: Quantity, b: Quantity) -> (r: Quantity)
    ensures
        r == least(a, b),
{
    if b.less(a) {
        b
    } else {
        a
    }
}

pub fn max_of(a: Quantity, b: Quantity) -> (r: Quantity)
    ensures
        r == greatest(a, b),
{
    if a.less(b) {
        b
    } else {
        a
    }
}

/// An exponential moving average: `old * (1 - alpha) + sample * alpha`.
pub open spec fn moved<C: Calculator>(
    calc: C,
    old_value: Quantity,
    sample: Quantity,
    alpha: Quantity,
) -> Quantity {
    sum(
        calc,
        product(calc, old_value, difference(calc, Quantity { bits: ONE }, alpha)),
        product(calc, sample, alpha),
    )
}

/// An exponential moving average.
pub fn ema<C: Calculator>(calc: C, old_value: Quantity, sample: Quantity, alpha: Quantity) -> (r:
    Quantity)
    requires
        reliable(calc),
    ensures
        r == moved(calc, old_value, sample, alpha),
{
    let kept = times(calc, old_value, minus(calc, Quantity { bits: ONE }, alpha));
    plus(calc, kept, times(calc, sample, alpha))
}

/// A weight that grows by `inc`, to one at most.
pub open spec fn bumped<C: Calculator>(calc: C, weight: Quantity, inc: Quantity) -> Quantity {
    least(sum(calc, weight, inc), Quantity { bits: ONE })
}

/// The share of `n` in `total`.
pub open spec fn share_of<C: Calculator>(calc: C, n: u64, total: u64) -> Quantity {
    quotient(calc, whole(calc, n), whole(calc, total))
}

pub fn share<C: Calculator>(calc: C, n: u64, total: u64) -> (r: Quantity)
    requires
        reliable(calc),
    ensures
        r == share_of(calc, n, total),
{
    over(calc, from_whole(calc, n), from_whole(calc, total))
}

/// `n / of`, to one at most.
pub open spec fn capped<C: Calculator>(calc: C, n: u64, of: Quantity) -> Quantity {
    least(quotient(calc, whole(calc, n), of), Quantity { bits: ONE })
}

pub fn cap<C: Calculator>(calc: C, n: u64, of: Quantity) -> (r: Quantity)
    requires
        reliable(calc),
    ensures
        r == capped(calc, n, of),
{
    min_of(over(calc, from_whole(calc, n), of), Quantity { bits: ONE })
}

/// A weight that grows by `inc`, to one at most.
pub fn bump_weight<C: Calculator>(calc: C, weight: Quantity, inc: Quantity) -> (r: Quantity)
    requires
        reliable(calc),
    ensures
        r == bumped(calc, weight, inc),
{
    min_of(plus(calc, weight, inc), Quantity { bits: ONE })
}

// ---------------------------------------------------------------------
// Orderly arithmetic
// ---------------------------------------------------------------------

/// A double from zero up to, but not including, infinity.
pub open spec fn finite(q: Quantity) -> bool {
    q.bits < INFINITY
}

/// A double from zero to one.
pub open spec fn unit(q: Quantity) -> bool {
    q.bits <= ONE
}

/// `calc` keeps the order of the numbers where rounding does: adding zero
/// changes nothing, sums of larger numbers are no smaller, a part of a number
/// is no larger, and the share of a part in a whole is between zero and one.
pub open spec fn orderly<C: Calculator>(calc: C) -> bool {
    &&& forall|a: Quantity|
        finite(a) ==> #[trigger] sum(calc, a, Quantity { bits: ZERO }) == a
    &&& forall|a: Quantity, b: Quantity, c: Quantity, d: Quantity|
        #![trigger sum(calc, a, b), sum(calc, c, d)]
        finite(a) && finite(c) && unit(b) && unit(d) && a.rank() <= c.rank() && b.rank()
            <= d.rank() ==> finite(sum(calc, a, b)) && sum(calc, a, b).rank() <= sum(
            calc,
            c,
            d,
        ).rank()
    &&& forall|a: Quantity, b: Quantity|
        unit(a) && unit(b) ==> (#[trigger] product(calc, a, b)).bits <= b.bits
    &&& forall|n: u64, m: u64| 0 < m && n <= m ==> unit(#[trigger] share_of(calc, n, m))
    &&& forall|n: u64, q: Quantity|
        finite(q) && ONE <= q.bits ==> finite(#[trigger] quotient(calc, whole(calc, n), q))
}

/// `calc` is exact on whole numbers that a double can hold, as long as the
/// results are such numbers: they keep their order, their products are those
/// of the numbers, and so are three quarters of a multiple of four. The bit
/// patterns are those of 0.75, 25, 28 and 60.
pub open spec fn exact<C: Calculator>(calc: C) -> bool {
    &&& forall|n: u64, m: u64|
        #![trigger whole(calc, n), whole(calc, m)]
        n < m <= 0x20_0000_0000_0000 ==> whole(calc, n).rank() < whole(calc, m).rank()
    &&& forall|n: u64, m: u64|
        n * m <= 0x20_0000_0000_0000 ==> #[trigger] product(calc, whole(calc, n), whole(calc, m))
            == whole(calc, (n * m) as u64)
    &&& forall|n: u64|
        n <= 0x20_0000_0000_0000 && n % 4 == 0 ==> #[trigger] product(
            calc,
            whole(calc, n),
            Quantity { bits: 0x3FE8_0000_0000_0000 },
        ) == whole(calc, (n / 4 * 3) as u64)
    &&& whole(calc, 25) == (Quantity { bits: 0x4039_0000_0000_0000 })
    &&& whole(calc, 28) == (Quantity { bits: 0x403C_0000_0000_0000 })
    &&& whole(calc, 60) == (Quantity { bits: 0x404E_0000_0000_0000 })
}

/// A weight never grows past one, and neither does a capped share.
pub proof fn law_weights_are_at_most_one<C: Calculator>(
    calc: C,
    weight: Quantity,
    inc: Quantity,
    n: u64,
)
    ensures
        bumped(calc, weight, inc).rank() <= (Quantity { bits: ONE }).rank(),
        capped(calc, n, inc).rank() <= (Quantity { bits: ONE }).rank(),
{
}

} // verus!
