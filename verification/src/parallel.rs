//! Data-parallel strategies: the output buffer is split among the workers of a
//! thread pool, and each part of it is written by one task only.

use vstd::prelude::*;
use rayon::iter::IndexedParallelIterator;
use rayon::iter::IntoParallelRefMutIterator;
use rayon::iter::ParallelIterator;
use rayon::slice::ParallelSliceMut;
use crate::chunks::{
    chunk_of, chunk_range, chunk_start, is_chunk, lemma_chunk_bounds, lemma_chunk_number_fits,
    lemma_index_in_its_chunk, part, CHUNK_SIZE,
};
use crate::contract::{aligned, fused_accepts, fused_output, mul_div_accepts, mul_div_output};
use crate::routed::{pow_helper, PowRoute};

verus! {

/// Runs `task` once for every index of `out`, on the workers of rayon's pool, and
/// stores at each index what `task` returned for it.
///
/// Calls `par_iter_mut`, `enumerate` and `for_each` of rayon. The contract takes
/// from rayon's documentation that the iterator yields every slot of the slice
/// once, that `enumerate` pairs it with its position, and that `for_each` has
/// run the operation on every item when it returns.
#[verifier::external_body]
fn par_fill<T: Send, G: Fn(usize) -> T + Sync>(out: &mut [T], task: &G)
    requires
        forall|i: usize| i < old(out)@.len() ==> #[trigger] call_requires(*task, (i,)),
    ensures
        final(out)@.len() == old(out)@.len(),
        forall|i: usize|
            i < old(out)@.len() ==> call_ensures(*task, (i,), #[trigger] final(out)@[i as int]),
{
    out.par_iter_mut().enumerate().for_each(|(i, slot)| *slot = task(i));
}

/// The parallel per-element strategy: every index is one task, which applies
/// `fused` to the four inputs at that index and writes the slot of that index.
pub fn rust_array_par<T: Copy + Send + Sync, F: Fn(T, T, T, T) -> T + Sync>(
    a: &[T],
    b: &[T],
    c: &[T],
    d: &[T],
    out: &mut [T],
    fused: &F,
)
    requires
        aligned(a@, b@, c@, d@),
        old(out)@.len() == a@.len(),
        fused_accepts(*fused, a@, b@, c@, d@),
    ensures
        fused_output(*fused, a@, b@, c@, d@, final(out)@),
{
    let task = |i: usize| -> (value: T)
        requires
            i < a@.len(),
        ensures
            call_ensures(*fused, (a@[i as int], b@[i as int], c@[i as int], d@[i as int]), value),
        { fused(a[i], b[i], c[i], d[i]) };
    par_fill(out, &task);
    proof {
        assert forall|i: int| 0 <= i < a@.len() implies call_ensures(
            *fused,
            (a@[i], b@[i], c@[i], d@[i]),
            #[trigger] out@[i],
        ) by {
            let at = i as usize;
            assert(call_ensures(task, (at,), out@[at as int]));
        }
    }
}

/// The parallel strategy with one bulk power call: every index is one task that
/// stores what `mul_div` returns there; when all have run, `pow` is handed the
/// whole buffer together with `d`.
///
/// `out` ends as `pow` left it.
pub fn rust_array_par_pow<
    T: Copy + Send + Sync,
    R,
    M: Fn(T, T, T) -> T + Sync,
    P: Fn(&mut [T], &[T]) -> R,
>(a: &[T], b: &[T], c: &[T], d: &[T], out: &mut [T], mul_div: &M, pow: &P)
    requires
        aligned(a@, b@, c@, d@),
        old(out)@.len() == a@.len(),
        mul_div_accepts(*mul_div, a@, b@, c@),
        forall|r: &mut [T]|
            mul_div_output(*mul_div, a@, b@, c@, r@) ==> #[trigger] call_requires(*pow, (r, d)),
        forall|r: &mut [T], status: R|
            mul_div_output(*mul_div, a@, b@, c@, r@) && #[trigger] call_ensures(*pow, (r, d), status)
                ==> final(r)@.len() == r@.len(),
    ensures
        final(out)@.len() == a@.len(),
        exists|r: &mut [T], status: R|
            mul_div_output(*mul_div, a@, b@, c@, r@) && final(r)@ == final(out)@
                && #[trigger] call_ensures(*pow, (r, d), status),
{
    let task = |i: usize| -> (value: T)
        requires
            i < a@.len(),
        ensures
            call_ensures(*mul_div, (a@[i as int], b@[i as int], c@[i as int]), value),
        { mul_div(a[i], b[i], c[i]) };
    par_fill(out, &task);
    proof {
        assert forall|i: int| 0 <= i < a@.len() implies call_ensures(
            *mul_div,
            (a@[i], b@[i], c@[i]),
            #[trigger] out@[i],
        ) by {
            let at = i as usize;
            assert(call_ensures(task, (at,), out@[at as int]));
        }
    }
    let _ = pow(out, d);
}

/// Cuts `out` into chunks of `size` elements, the last one shorter where `size`
/// does not divide the length, and runs `task` once for every chunk, on the
/// workers of rayon's pool, with the chunk's position and the chunk itself.
///
/// Calls `par_chunks_mut`, `enumerate` and `for_each` of rayon. The contract takes
/// from rayon's documentation that the chunks do not overlap, that all but the
/// last hold exactly `size` elements, that `enumerate` pairs each with its
/// position, and that `for_each` has run the operation on every item when it
/// returns. `par_chunks_mut` panics on a size of zero, which `requires` leaves out.
#[verifier::external_body]
fn par_chunks<T: Send, G: Fn(usize, &mut [T]) + Sync>(out: &mut [T], size: usize, task: &G)
    requires
        size > 0,
        forall|k: usize, piece: &mut [T]|
            is_chunk(k as int, old(out)@.len() as int, size as int) && piece@ == part(
                old(out)@,
                k as int,
                size as int,
            ) ==> #[trigger] call_requires(*task, (k, piece)),
    ensures
        final(out)@.len() == old(out)@.len(),
        forall|k: int| #[trigger]
            is_chunk(k, old(out)@.len() as int, size as int) ==> exists|piece: &mut [T]|
                piece@ == part(old(out)@, k, size as int) && final(piece)@ == part(
                    final(out)@,
                    k,
                    size as int,
                ) && call_ensures(*task, (k as usize, piece), ()),
{
    out.par_chunks_mut(size).enumerate().for_each(|(k, piece)| task(k, piece));
}

/// `buffer` holds chunk `k` as the first phase of the accelerated route leaves it:
/// at every index of the chunk, a value that `mul_div` returns on the first three
/// inputs at that index.
pub open spec fn chunk_filled<T, M: Fn(T, T, T) -> T>(
    mul_div: M,
    a: Seq<T>,
    b: Seq<T>,
    c: Seq<T>,
    k: int,
    size: int,
    buffer: Seq<T>,
) -> bool {
    mul_div_output(mul_div, part(a, k, size), part(b, k, size), part(c, k, size), buffer)
}

/// The parallel chunked strategy with chunks of `size` elements: every chunk is
/// one task, which fills its part of `out` by the route given, from the parts of
/// the inputs that lie at the same indices.
///
/// On the portable route `out` ends as the sequential fused strategy leaves it,
/// whatever `size` is. On the accelerated route every chunk of `out` ends as
/// `pow` left it, after `pow` was handed the chunk that `mul_div` filled together
/// with the exponents of that chunk.
pub fn par_pow_by_chunks<
    T: Copy + Send + Sync,
    R,
    F: Fn(T, T, T, T) -> T + Sync,
    M: Fn(T, T, T) -> T + Sync,
    P: Fn(&mut [T], &[T]) -> R + Sync,
>(a: &[T], b: &[T], c: &[T], d: &[T], out: &mut [T], size: usize, route: &PowRoute<F, M, P>)
    requires
        size > 0,
        aligned(a@, b@, c@, d@),
        old(out)@.len() == a@.len(),
        (match *route {
            PowRoute::Portable { fused } => fused_accepts(fused, a@, b@, c@, d@),
            PowRoute::Accelerated { mul_div, pow } => {
                &&& mul_div_accepts(mul_div, a@, b@, c@)
                &&& forall|k: int, r: &mut [T], e: &[T]| #[trigger]
                    is_chunk(k, a@.len() as int, size as int)
                        && chunk_filled(mul_div, a@, b@, c@, k, size as int, r@)
                        && e@ == part(d@, k, size as int)
                        ==> #[trigger] call_requires(pow, (r, e))
                &&& forall|k: int, r: &mut [T], e: &[T], status: R| #[trigger]
                    is_chunk(k, a@.len() as int, size as int)
                        && chunk_filled(mul_div, a@, b@, c@, k, size as int, r@)
                        && e@ == part(d@, k, size as int)
                        && #[trigger] call_ensures(pow, (r, e), status)
                        ==> final(r)@.len() == r@.len()
            },
        }),
    ensures
        final(out)@.len() == a@.len(),
        (match *route {
            PowRoute::Portable { fused } => fused_output(fused, a@, b@, c@, d@, final(out)@),
            PowRoute::Accelerated { mul_div, pow } => forall|k: int| #[trigger]
                is_chunk(k, a@.len() as int, size as int)
                    ==> exists|r: &mut [T], e: &[T], status: R|
                    chunk_filled(mul_div, a@, b@, c@, k, size as int, r@)
                        && e@ == part(d@, k, size as int)
                        && final(r)@ == part(final(out)@, k, size as int)
                        && call_ensures(pow, (r, e), status),
        }),
{
    let n: usize = a.len();
    let task = |k: usize, chunk: &mut [T]|
        requires
            is_chunk(k as int, n as int, size as int),
            old(chunk)@.len() == part(a@, k as int, size as int).len(),
        ensures
            final(chunk)@.len() == old(chunk)@.len(),
            (match route {
                PowRoute::Portable { fused } => fused_output(
                    *fused,
                    part(a@, k as int, size as int),
                    part(b@, k as int, size as int),
                    part(c@, k as int, size as int),
                    part(d@, k as int, size as int),
                    final(chunk)@,
                ),
                PowRoute::Accelerated { mul_div, pow } => exists|r: &mut [T], e: &[T], status: R|
                    chunk_filled(*mul_div, a@, b@, c@, k as int, size as int, r@)
                        && e@ == part(d@, k as int, size as int)
                        && final(r)@ == final(chunk)@
                        && #[trigger] call_ensures(*pow, (r, e), status),
            }),
        {
            let (start, end) = chunk_range(k, n, size);
            proof {
                lemma_chunk_bounds(k as int, n as int, size as int);
                assert forall|i: int| 0 <= i < end - start implies {
                    &&& part(a@, k as int, size as int)[i] == a@[start + i]
                    &&& part(b@, k as int, size as int)[i] == b@[start + i]
                    &&& part(c@, k as int, size as int)[i] == c@[start + i]
                    &&& part(d@, k as int, size as int)[i] == d@[start + i]
                } by {}
            }
            pow_helper(&a[start..end], &b[start..end], &c[start..end], &d[start..end], chunk, route);
        };
    proof {
        assert forall|k: usize, piece: &mut [T]|
            is_chunk(k as int, n as int, size as int) && piece@ == part(out@, k as int, size as int)
            implies #[trigger] call_requires(task, (k, piece)) by {
            lemma_chunk_bounds(k as int, n as int, size as int);
        }
    }
    par_chunks(out, size, &task);
    proof {
        match route {
            PowRoute::Portable { fused } => {
                assert forall|i: int| 0 <= i < n implies call_ensures(
                    *fused,
                    (a@[i], b@[i], c@[i], d@[i]),
                    #[trigger] out@[i],
                ) by {
                    let k = chunk_of(i, size as int);
                    let start = chunk_start(k, size as int);
                    lemma_index_in_its_chunk(i, n as int, size as int);
                    lemma_chunk_bounds(k, n as int, size as int);
                    lemma_chunk_number_fits(k, n as int, size as int);
                    assert(is_chunk(k, n as int, size as int));
                    assert(part(out@, k, size as int)[i - start] == out@[i]);
                    assert(part(a@, k, size as int)[i - start] == a@[i]);
                    assert(part(b@, k, size as int)[i - start] == b@[i]);
                    assert(part(c@, k, size as int)[i - start] == c@[i]);
                    assert(part(d@, k, size as int)[i - start] == d@[i]);
                }
            },
            PowRoute::Accelerated { mul_div, pow } => {
                assert forall|k: int| #[trigger]
                    is_chunk(k, a@.len() as int, size as int) implies exists|
                    r: &mut [T],
                    e: &[T],
                    status: R,
                |
                    chunk_filled(*mul_div, a@, b@, c@, k, size as int, r@)
                        && e@ == part(d@, k, size as int)
                        && final(r)@ == part(out@, k, size as int)
                        && call_ensures(*pow, (r, e), status) by {
                    lemma_chunk_number_fits(k, n as int, size as int);
                }
            },
        }
    }
}

/// The parallel chunked strategy, with chunks of `CHUNK_SIZE` elements.
pub fn rust_array_par_pow_chunk<
    T: Copy + Send + Sync,
    R,
    F: Fn(T, T, T, T) -> T + Sync,
    M: Fn(T, T, T) -> T + Sync,
    P: Fn(&mut [T], &[T]) -> R + Sync,
>(a: &[T], b: &[T], c: &[T], d: &[T], out: &mut [T], route: &PowRoute<F, M, P>)
    requires
        aligned(a@, b@, c@, d@),
        old(out)@.len() == a@.len(),
        (match *route {
            PowRoute::Portable { fused } => fused_accepts(fused, a@, b@, c@, d@),
            PowRoute::Accelerated { mul_div, pow } => {
                &&& mul_div_accepts(mul_div, a@, b@, c@)
                &&& forall|k: int, r: &mut [T], e: &[T]| #[trigger]
                    is_chunk(k, a@.len() as int, CHUNK_SIZE as int)
                        && chunk_filled(mul_div, a@, b@, c@, k, CHUNK_SIZE as int, r@)
                        && e@ == part(d@, k, CHUNK_SIZE as int)
                        ==> #[trigger] call_requires(pow, (r, e))
                &&& forall|k: int, r: &mut [T], e: &[T], status: R| #[trigger]
                    is_chunk(k, a@.len() as int, CHUNK_SIZE as int)
                        && chunk_filled(mul_div, a@, b@, c@, k, CHUNK_SIZE as int, r@)
                        && e@ == part(d@, k, CHUNK_SIZE as int)
                        && #[trigger] call_ensures(pow, (r, e), status)
                        ==> final(r)@.len() == r@.len()
            },
        }),
    ensures
        final(out)@.len() == a@.len(),
        (match *route {
            PowRoute::Portable { fused } => fused_output(fused, a@, b@, c@, d@, final(out)@),
            PowRoute::Accelerated { mul_div, pow } => forall|k: int| #[trigger]
                is_chunk(k, a@.len() as int, CHUNK_SIZE as int)
                    ==> exists|r: &mut [T], e: &[T], status: R|
                    chunk_filled(mul_div, a@, b@, c@, k, CHUNK_SIZE as int, r@)
                        && e@ == part(d@, k, CHUNK_SIZE as int)
                        && final(r)@ == part(final(out)@, k, CHUNK_SIZE as int)
                        && call_ensures(pow, (r, e), status),
        }),
{
    par_pow_by_chunks(a, b, c, d, out, CHUNK_SIZE, route);
}

} // verus!
