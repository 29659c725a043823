//! Strategies that hand part of the formula to a bulk routine of the platform.
//!
//! A bulk routine works in place on a whole buffer: it is given the buffer and a
//! second operand of the same length, overwrites the buffer, and reports how it
//! went. What it reports is not looked at: the buffer is handed on as the routine
//! left it, so the contracts speak of some report and of the buffer after the call.
//!
//! Each strategy asks two things of a routine: that it may be called on the buffer
//! the strategy has filled, and that its contract says the buffer keeps its
//! length. Every routine meets the second, since a slice cannot grow or shrink;
//! it is asked for because a contract that is silent about the length leaves the
//! verifier without it.

use vstd::prelude::*;
use crate::contract::{aligned, fused_accepts, fused_output, mul_div_accepts, mul_div_output, product_accepts, product_output};
use crate::sequential::{mul_div_pass, product_pass, rust_array};

verus! {

/// How the power-delegating strategy computes on this platform: the choice is
/// made once, by whoever knows whether the platform has a bulk power routine.
pub enum PowRoute<F, M, P> {
    /// No bulk routine: the whole formula is applied in one pass.
    Portable { fused: F },
    /// A bulk power routine: multiply and divide in one pass, then one call of
    /// the routine over the buffer and the exponents.
    Accelerated { mul_div: M, pow: P },
}

/// Fills `out` by the route given.
///
/// On the portable route `out` ends as the sequential fused strategy leaves it.
/// On the accelerated route `out` ends as `pow` left it, after `pow` was handed
/// the buffer that `mul_div` filled together with `d`.
pub fn pow_helper<T: Copy, R, F: Fn(T, T, T, T) -> T, M: Fn(T, T, T) -> T, P: Fn(&mut [T], &[T]) -> R>(
    a: &[T],
    b: &[T],
    c: &[T],
    d: &[T],
    out: &mut [T],
    route: &PowRoute<F, M, P>,
)
    requires
        aligned(a@, b@, c@, d@),
        old(out)@.len() == a@.len(),
        (match *route {
            PowRoute::Portable { fused } => fused_accepts(fused, a@, b@, c@, d@),
            PowRoute::Accelerated { mul_div, pow } => {
                &&& mul_div_accepts(mul_div, a@, b@, c@)
                &&& forall|r: &mut [T]|
                    mul_div_output(mul_div, a@, b@, c@, r@) ==> #[trigger] call_requires(pow, (r, d))
                &&& forall|r: &mut [T], status: R|
                    mul_div_output(mul_div, a@, b@, c@, r@) && #[trigger] call_ensures(
                        pow,
                        (r, d),
                        status,
                    ) ==> final(r)@.len() == r@.len()
            },
        }),
    ensures
        final(out)@.len() == a@.len(),
        (match *route {
            PowRoute::Portable { fused } => fused_output(fused, a@, b@, c@, d@, final(out)@),
            PowRoute::Accelerated { mul_div, pow } => exists|r: &mut [T], status: R|
                mul_div_output(mul_div, a@, b@, c@, r@) && final(r)@ == final(out)@
                    && #[trigger] call_ensures(pow, (r, d), status),
        }),
{
    match route {
        PowRoute::Portable { fused } => {
            rust_array(a, b, c, d, out, fused);
        },
        PowRoute::Accelerated { mul_div, pow } => {
            mul_div_pass(a, b, c, out, mul_div);
            let _ = pow(out, d);
        },
    }
}

/// The power-delegating strategy over whole buffers: fills `out` by the route given.
pub fn rust_with_pow<T: Copy, R, F: Fn(T, T, T, T) -> T, M: Fn(T, T, T) -> T, P: Fn(&mut [T], &[T]) -> R>(
    a: &[T],
    b: &[T],
    c: &[T],
    d: &[T],
    out: &mut [T],
    route: &PowRoute<F, M, P>,
)
    requires
        aligned(a@, b@, c@, d@),
        old(out)@.len() == a@.len(),
        (match *route {
            PowRoute::Portable { fused } => fused_accepts(fused, a@, b@, c@, d@),
            PowRoute::Accelerated { mul_div, pow } => {
                &&& mul_div_accepts(mul_div, a@, b@, c@)
                &&& forall|r: &mut [T]|
                    mul_div_output(mul_div, a@, b@, c@, r@) ==> #[trigger] call_requires(pow, (r, d))
                &&& forall|r: &mut [T], status: R|
                    mul_div_output(mul_div, a@, b@, c@, r@) && #[trigger] call_ensures(
                        pow,
                        (r, d),
                        status,
                    ) ==> final(r)@.len() == r@.len()
            },
        }),
    ensures
        final(out)@.len() == a@.len(),
        (match *route {
            PowRoute::Portable { fused } => fused_output(fused, a@, b@, c@, d@, final(out)@),
            PowRoute::Accelerated { mul_div, pow } => exists|r: &mut [T], status: R|
                mul_div_output(mul_div, a@, b@, c@, r@) && final(r)@ == final(out)@
                    && #[trigger] call_ensures(pow, (r, d), status),
        }),
{
    pow_helper(a, b, c, d, out, route);
}

/// Fills `out` with two bulk routines: one pass stores the products, then `div`
/// is handed the buffer with `c`, then `pow` is handed what `div` left with `d`.
///
/// `out` ends as `pow` left it.
pub fn div_pow_helper<
    T: Copy,
    R,
    S,
    M: Fn(T, T) -> T,
    D: Fn(&mut [T], &[T]) -> R,
    P: Fn(&mut [T], &[T]) -> S,
>(a: &[T], b: &[T], c: &[T], d: &[T], out: &mut [T], product: &M, div: &D, pow: &P)
    requires
        aligned(a@, b@, c@, d@),
        old(out)@.len() == a@.len(),
        product_accepts(*product, a@, b@),
        forall|r: &mut [T]| product_output(*product, a@, b@, r@) ==> #[trigger] call_requires(*div, (r, c)),
        forall|r: &mut [T], status: R|
            product_output(*product, a@, b@, r@) && #[trigger] call_ensures(*div, (r, c), status)
                ==> final(r)@.len() == r@.len(),
        forall|r: &mut [T], status: R, q: &mut [T]|
            product_output(*product, a@, b@, r@) && #[trigger] call_ensures(*div, (r, c), status)
                && q@ == final(r)@ ==> #[trigger] call_requires(*pow, (q, d)),
        forall|r: &mut [T], divided: R, q: &mut [T], raised: S|
            product_output(*product, a@, b@, r@) && #[trigger] call_ensures(*div, (r, c), divided)
                && q@ == final(r)@ && #[trigger] call_ensures(*pow, (q, d), raised) ==> final(q)@.len()
                == q@.len(),
    ensures
        final(out)@.len() == a@.len(),
        exists|r: &mut [T], divided: R, q: &mut [T], raised: S|
            product_output(*product, a@, b@, r@) && #[trigger] call_ensures(*div, (r, c), divided)
                && q@ == final(r)@ && #[trigger] call_ensures(*pow, (q, d), raised) && final(q)@
                == final(out)@,
{
    product_pass(a, b, out, product);
    let _ = div(out, c);
    let _ = pow(out, d);
}

/// The strategy that delegates division and power, over whole buffers. It is
/// offered only where both bulk routines exist, so it takes them as they are.
pub fn rust_with_div_pow<
    T: Copy,
    R,
    S,
    M: Fn(T, T) -> T,
    D: Fn(&mut [T], &[T]) -> R,
    P: Fn(&mut [T], &[T]) -> S,
>(a: &[T], b: &[T], c: &[T], d: &[T], out: &mut [T], product: &M, div: &D, pow: &P)
    requires
        aligned(a@, b@, c@, d@),
        old(out)@.len() == a@.len(),
        product_accepts(*product, a@, b@),
        forall|r: &mut [T]| product_output(*product, a@, b@, r@) ==> #[trigger] call_requires(*div, (r, c)),
        forall|r: &mut [T], status: R|
            product_output(*product, a@, b@, r@) && #[trigger] call_ensures(*div, (r, c), status)
                ==> final(r)@.len() == r@.len(),
        forall|r: &mut [T], status: R, q: &mut [T]|
            product_output(*product, a@, b@, r@) && #[trigger] call_ensures(*div, (r, c), status)
                && q@ == final(r)@ ==> #[trigger] call_requires(*pow, (q, d)),
        forall|r: &mut [T], divided: R, q: &mut [T], raised: S|
            product_output(*product, a@, b@, r@) && #[trigger] call_ensures(*div, (r, c), divided)
                && q@ == final(r)@ && #[trigger] call_ensures(*pow, (q, d), raised) ==> final(q)@.len()
                == q@.len(),
    ensures
        final(out)@.len() == a@.len(),
        exists|r: &mut [T], divided: R, q: &mut [T], raised: S|
            product_output(*product, a@, b@, r@) && #[trigger] call_ensures(*div, (r, c), divided)
                && q@ == final(r)@ && #[trigger] call_ensures(*pow, (q, d), raised) && final(q)@
                == final(out)@,
{
    div_pow_helper(a, b, c, d, out, product, div, pow);
}

} // verus!
