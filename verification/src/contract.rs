//! The contract that every execution strategy meets.
//!
//! The element type and its arithmetic belong to the caller: a strategy is handed
//! the operations as function values and promises, index by index, that the
//! output holds what those operations return on the inputs at that index.

use vstd::prelude::*;

verus! {

/// The four input sequences have the same length.
pub open spec fn aligned<T>(a: Seq<T>, b: Seq<T>, c: Seq<T>, d: Seq<T>) -> bool {
    a.len() == b.len() && a.len() == c.len() && a.len() == d.len()
}

/// `fused` may be called on the inputs at every index.
pub open spec fn fused_accepts<T, F: Fn(T, T, T, T) -> T>(
    fused: F,
    a: Seq<T>,
    b: Seq<T>,
    c: Seq<T>,
    d: Seq<T>,
) -> bool {
    forall|i: int| 0 <= i < a.len() ==> call_requires(fused, (#[trigger] a[i], b[i], c[i], d[i]))
}

/// `out` has the inputs' length and holds at every index a value that `fused`
/// returns on the inputs at that index.
pub open spec fn fused_output<T, F: Fn(T, T, T, T) -> T>(
    fused: F,
    a: Seq<T>,
    b: Seq<T>,
    c: Seq<T>,
    d: Seq<T>,
    out: Seq<T>,
) -> bool {
    &&& out.len() == a.len()
    &&& forall|i: int|
        0 <= i < a.len() ==> call_ensures(fused, (a[i], b[i], c[i], d[i]), #[trigger] out[i])
}

/// `mul_div` may be called on the first three inputs at every index.
pub open spec fn mul_div_accepts<T, M: Fn(T, T, T) -> T>(
    mul_div: M,
    a: Seq<T>,
    b: Seq<T>,
    c: Seq<T>,
) -> bool {
    forall|i: int| 0 <= i < a.len() ==> call_requires(mul_div, (#[trigger] a[i], b[i], c[i]))
}

/// `out` has the inputs' length and holds at every index a value that `mul_div`
/// returns on the first three inputs at that index.
pub open spec fn mul_div_output<T, M: Fn(T, T, T) -> T>(
    mul_div: M,
    a: Seq<T>,
    b: Seq<T>,
    c: Seq<T>,
    out: Seq<T>,
) -> bool {
    &&& out.len() == a.len()
    &&& forall|i: int| 0 <= i < a.len() ==> call_ensures(mul_div, (a[i], b[i], c[i]), #[trigger] out[i])
}

/// `product` may be called on the first two inputs at every index.
pub open spec fn product_accepts<T, M: Fn(T, T) -> T>(product: M, a: Seq<T>, b: Seq<T>) -> bool {
    forall|i: int| 0 <= i < a.len() ==> call_requires(product, (#[trigger] a[i], b[i]))
}

/// `out` has the inputs' length and holds at every index a value that `product`
/// returns on the first two inputs at that index.
pub open spec fn product_output<T, M: Fn(T, T) -> T>(product: M, a: Seq<T>, b: Seq<T>, out: Seq<T>) -> bool {
    &&& out.len() == a.len()
    &&& forall|i: int| 0 <= i < a.len() ==> call_ensures(product, (a[i], b[i]), #[trigger] out[i])
}

} // verus!
