//! Single-threaded passes: one walk over the indices, one write per index.

use vstd::prelude::*;
use crate::contract::{aligned, fused_accepts, fused_output, product_accepts, mul_div_accepts, mul_div_output, product_output};

verus! {

/// The sequential fused strategy: for each index in turn, applies `fused` to the
/// four inputs at that index and stores the result at the same index of `out`.
///
/// Every element of `out` is overwritten; what it held before plays no part.
pub fn rust_array<T: Copy, F: Fn(T, T, T, T) -> T>(
    a: &[T],
    b: &[T],
    c: &[T],
    d: &[T],
    out: &mut [T],
    fused: &F,
)
    requires
        aligned(a@, b@, c@, d@),
        old(out)@.len() == a@.len(),
        fused_accepts(*fused, a@, b@, c@, d@),
    ensures
        fused_output(*fused, a@, b@, c@, d@, final(out)@),
{
    let n: usize = a.len();
    let mut i: usize = 0;
    while i < n
        invariant
            n == a@.len(),
            aligned(a@, b@, c@, d@),
            out@.len() == n,
            fused_accepts(*fused, a@, b@, c@, d@),
            i <= n,
            forall|j: int|
                0 <= j < i ==> call_ensures(*fused, (a@[j], b@[j], c@[j], d@[j]), #[trigger] out@[j]),
        decreases n - i,
    {
        out[i] = fused(a[i], b[i], c[i], d[i]);
        i += 1;
    }
}

/// First phase of the power-delegating strategy: stores what `mul_div` returns on
/// the first three inputs at each index.
pub fn mul_div_pass<T: Copy, M: Fn(T, T, T) -> T>(a: &[T], b: &[T], c: &[T], out: &mut [T], mul_div: &M)
    requires
        a@.len() == b@.len(),
        a@.len() == c@.len(),
        old(out)@.len() == a@.len(),
        mul_div_accepts(*mul_div, a@, b@, c@),
    ensures
        mul_div_output(*mul_div, a@, b@, c@, final(out)@),
{
    let n: usize = a.len();
    let mut i: usize = 0;
    while i < n
        invariant
            n == a@.len(),
            a@.len() == b@.len(),
            a@.len() == c@.len(),
            out@.len() == n,
            mul_div_accepts(*mul_div, a@, b@, c@),
            i <= n,
            forall|j: int| 0 <= j < i ==> call_ensures(*mul_div, (a@[j], b@[j], c@[j]), #[trigger] out@[j]),
        decreases n - i,
    {
        out[i] = mul_div(a[i], b[i], c[i]);
        i += 1;
    }
}

/// First phase of the strategy that delegates division and power: stores what
/// `product` returns on the first two inputs at each index.
pub fn product_pass<T: Copy, M: Fn(T, T) -> T>(a: &[T], b: &[T], out: &mut [T], product: &M)
    requires
        a@.len() == b@.len(),
        old(out)@.len() == a@.len(),
        product_accepts(*product, a@, b@),
    ensures
        product_output(*product, a@, b@, final(out)@),
{
    let n: usize = a.len();
    let mut i: usize = 0;
    while i < n
        invariant
            n == a@.len(),
            a@.len() == b@.len(),
            out@.len() == n,
            product_accepts(*product, a@, b@),
            i <= n,
            forall|j: int| 0 <= j < i ==> call_ensures(*product, (a@[j], b@[j]), #[trigger] out@[j]),
        decreases n - i,
    {
        out[i] = product(a[i], b[i]);
        i += 1;
    }
}

} // verus!
