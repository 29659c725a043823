//! Laws that relate the strategies to one another.
//!
//! Every strategy that computes with the fused operation alone promises the same
//! thing of its output, so two such outputs differ only where the operation
//! itself may return different values. A strategy that hands steps of the
//! formula to bulk routines returns a fused output as well whenever the routines
//! work element by element and the formula factors through their steps.

use vstd::prelude::*;
use crate::chunks::{chunk_of, chunk_start, is_chunk, lemma_chunk_bounds, lemma_index_in_its_chunk, part};
use crate::contract::{aligned, fused_output, mul_div_output, product_output};
use crate::parallel::chunk_filled;

verus! {

/// `fused` returns one value only on the inputs at each index.
pub open spec fn fused_is_single_valued<T, F: Fn(T, T, T, T) -> T>(
    fused: F,
    a: Seq<T>,
    b: Seq<T>,
    c: Seq<T>,
    d: Seq<T>,
) -> bool {
    forall|i: int, x: T, y: T|
        0 <= i < a.len() && #[trigger] call_ensures(fused, (a[i], b[i], c[i], d[i]), x)
            && #[trigger] call_ensures(fused, (a[i], b[i], c[i], d[i]), y) ==> x == y
}

/// Strategies agree: where the fused operation returns one value only, any two
/// outputs that meet the strategies' common contract are equal, index by index.
pub proof fn lemma_fused_outputs_agree<T, F: Fn(T, T, T, T) -> T>(
    fused: F,
    a: Seq<T>,
    b: Seq<T>,
    c: Seq<T>,
    d: Seq<T>,
    first: Seq<T>,
    second: Seq<T>,
)
    requires
        fused_output(fused, a, b, c, d, first),
        fused_output(fused, a, b, c, d, second),
        fused_is_single_valued(fused, a, b, c, d),
    ensures
        first == second,
{
    assert forall|i: int| 0 <= i < first.len() implies first[i] == second[i] by {
        assert(call_ensures(fused, (a[i], b[i], c[i], d[i]), first[i]));
        assert(call_ensures(fused, (a[i], b[i], c[i], d[i]), second[i]));
    }
    assert(first =~= second);
}

/// The accelerated route returns a fused output: if the power routine raises
/// each element of the buffer by the exponent at its index, and raising what
/// `mul_div` returns gives a value that `fused` returns, then what the
/// accelerated route leaves in `out` meets the contract of the fused strategy.
/// The parallel strategy with one bulk power call leaves `out` under the same
/// contract as the accelerated route, so the law holds of it too.
pub proof fn lemma_accelerated_output_is_fused<
    T,
    R,
    F: Fn(T, T, T, T) -> T,
    M: Fn(T, T, T) -> T,
    P: Fn(&mut [T], &[T]) -> R,
>(fused: F, mul_div: M, pow: P, raise: spec_fn(T, T) -> T, a: Seq<T>, b: Seq<T>, c: Seq<T>, d: &[T], out: Seq<T>)
    requires
        aligned(a, b, c, d@),
        exists|r: &mut [T], status: R|
            mul_div_output(mul_div, a, b, c, r@) && final(r)@ == out && #[trigger] call_ensures(
                pow,
                (r, d),
                status,
            ),
        forall|r: &mut [T], status: R|
            r@.len() == d@.len() && #[trigger] call_ensures(pow, (r, d), status) ==> ({
                &&& final(r)@.len() == r@.len()
                &&& forall|i: int| 0 <= i < r@.len() ==> #[trigger] final(r)@[i] == raise(r@[i], d@[i])
            }),
        forall|i: int, m: T|
            0 <= i < a.len() && #[trigger] call_ensures(mul_div, (a[i], b[i], c[i]), m) ==> call_ensures(
                fused,
                (a[i], b[i], c[i], d@[i]),
                raise(m, d@[i]),
            ),
    ensures
        fused_output(fused, a, b, c, d@, out),
{
    let (r, status) = choose|r: &mut [T], status: R|
        mul_div_output(mul_div, a, b, c, r@) && final(r)@ == out && #[trigger] call_ensures(
            pow,
            (r, d),
            status,
        );
    assert forall|i: int| 0 <= i < a.len() implies call_ensures(
        fused,
        (a[i], b[i], c[i], d@[i]),
        #[trigger] out[i],
    ) by {
        assert(call_ensures(mul_div, (a[i], b[i], c[i]), r@[i]));
        assert(final(r)@[i] == raise(r@[i], d@[i]));
    }
}

/// The route with two bulk routines returns a fused output: if the division
/// routine divides each element of the buffer by the divisor at its index, the
/// power routine raises each element by the exponent at its index, and dividing
/// and raising what `product` returns gives a value that `fused` returns, then
/// what that route leaves in `out` meets the contract of the fused strategy.
pub proof fn lemma_div_pow_output_is_fused<
    T,
    R,
    S,
    F: Fn(T, T, T, T) -> T,
    M: Fn(T, T) -> T,
    D: Fn(&mut [T], &[T]) -> R,
    P: Fn(&mut [T], &[T]) -> S,
>(
    fused: F,
    product: M,
    div: D,
    pow: P,
    ratio: spec_fn(T, T) -> T,
    raise: spec_fn(T, T) -> T,
    a: Seq<T>,
    b: Seq<T>,
    c: &[T],
    d: &[T],
    out: Seq<T>,
)
    requires
        aligned(a, b, c@, d@),
        exists|r: &mut [T], divided: R, q: &mut [T], raised: S|
            product_output(product, a, b, r@) && #[trigger] call_ensures(div, (r, c), divided) && q@
                == final(r)@ && #[trigger] call_ensures(pow, (q, d), raised) && final(q)@ == out,
        forall|r: &mut [T], status: R|
            r@.len() == c@.len() && #[trigger] call_ensures(div, (r, c), status) ==> ({
                &&& final(r)@.len() == r@.len()
                &&& forall|i: int| 0 <= i < r@.len() ==> #[trigger] final(r)@[i] == ratio(r@[i], c@[i])
            }),
        forall|q: &mut [T], status: S|
            q@.len() == d@.len() && #[trigger] call_ensures(pow, (q, d), status) ==> ({
                &&& final(q)@.len() == q@.len()
                &&& forall|i: int| 0 <= i < q@.len() ==> #[trigger] final(q)@[i] == raise(q@[i], d@[i])
            }),
        forall|i: int, p: T|
            0 <= i < a.len() && #[trigger] call_ensures(product, (a[i], b[i]), p) ==> call_ensures(
                fused,
                (a[i], b[i], c@[i], d@[i]),
                raise(ratio(p, c@[i]), d@[i]),
            ),
    ensures
        fused_output(fused, a, b, c@, d@, out),
{
    let (r, divided, q, raised) = choose|r: &mut [T], divided: R, q: &mut [T], raised: S|
        product_output(product, a, b, r@) && #[trigger] call_ensures(div, (r, c), divided) && q@
            == final(r)@ && #[trigger] call_ensures(pow, (q, d), raised) && final(q)@ == out;
    assert forall|i: int| 0 <= i < a.len() implies call_ensures(
        fused,
        (a[i], b[i], c@[i], d@[i]),
        #[trigger] out[i],
    ) by {
        assert(call_ensures(product, (a[i], b[i]), r@[i]));
        assert(final(r)@[i] == ratio(r@[i], c@[i]));
        assert(final(q)@[i] == raise(q@[i], d@[i]));
    }
}

/// The chunk size has no effect on the result: under the conditions of
/// `lemma_accelerated_output_is_fused`, asked of the power routine on every
/// buffer, what the chunked strategy leaves in `out` on the accelerated route
/// meets the contract of the fused strategy, whatever the size of the chunks.
pub proof fn lemma_chunked_output_is_fused<
    T,
    R,
    F: Fn(T, T, T, T) -> T,
    M: Fn(T, T, T) -> T,
    P: Fn(&mut [T], &[T]) -> R,
>(
    fused: F,
    mul_div: M,
    pow: P,
    raise: spec_fn(T, T) -> T,
    a: Seq<T>,
    b: Seq<T>,
    c: Seq<T>,
    d: Seq<T>,
    out: Seq<T>,
    size: int,
)
    requires
        0 < size,
        aligned(a, b, c, d),
        out.len() == a.len(),
        forall|k: int| #[trigger]
            is_chunk(k, a.len() as int, size) ==> exists|r: &mut [T], e: &[T], status: R|
                chunk_filled(mul_div, a, b, c, k, size, r@) && e@ == part(d, k, size) && final(r)@
                    == part(out, k, size) && call_ensures(pow, (r, e), status),
        forall|r: &mut [T], e: &[T], status: R|
            r@.len() == e@.len() && #[trigger] call_ensures(pow, (r, e), status) ==> ({
                &&& final(r)@.len() == r@.len()
                &&& forall|i: int| 0 <= i < r@.len() ==> #[trigger] final(r)@[i] == raise(r@[i], e@[i])
            }),
        forall|i: int, m: T|
            0 <= i < a.len() && #[trigger] call_ensures(mul_div, (a[i], b[i], c[i]), m) ==> call_ensures(
                fused,
                (a[i], b[i], c[i], d[i]),
                raise(m, d[i]),
            ),
    ensures
        fused_output(fused, a, b, c, d, out),
{
    let n = a.len() as int;
    assert forall|i: int| 0 <= i < a.len() implies call_ensures(
        fused,
        (a[i], b[i], c[i], d[i]),
        #[trigger] out[i],
    ) by {
        let k = chunk_of(i, size);
        lemma_index_in_its_chunk(i, n, size);
        lemma_chunk_bounds(k, n, size);
        assert(is_chunk(k, n, size));
        let (r, e, status) = choose|r: &mut [T], e: &[T], status: R|
            chunk_filled(mul_div, a, b, c, k, size, r@) && e@ == part(d, k, size) && final(r)@
                == part(out, k, size) && call_ensures(pow, (r, e), status);
        let j = i - chunk_start(k, size);
        assert(part(a, k, size)[j] == a[i]);
        assert(part(b, k, size)[j] == b[i]);
        assert(part(c, k, size)[j] == c[i]);
        assert(part(d, k, size)[j] == d[i]);
        assert(part(out, k, size)[j] == out[i]);
        assert(call_ensures(mul_div, (a[i], b[i], c[i]), r@[j]));
        assert(final(r)@[j] == raise(r@[j], e@[j]));
    }
}

} // verus!
