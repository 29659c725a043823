use std::sync::atomic::{AtomicUsize, Ordering};
use std::sync::Mutex;

use array_kernels::parallel::{par_pow_by_chunks, rust_array_par, rust_array_par_pow, rust_array_par_pow_chunk};
use array_kernels::routed::{div_pow_helper, pow_helper, PowRoute};
use array_kernels::sequential::rust_array;

type Fused = fn(f64, f64, f64, f64) -> f64;
type MulDiv = fn(f64, f64, f64) -> f64;

fn formula(a: f64, b: f64, c: f64, d: f64) -> f64 {
    ((a * b) / c).powf(d)
}

fn mul_div(a: f64, b: f64, c: f64) -> f64 {
    (a * b) / c
}

fn ramp(n: usize, first: f64) -> Vec<f64> {
    (0..n).map(|i| first + i as f64).collect()
}

#[test]
fn a_routine_that_fails_leaves_the_first_phase() {
    let refuse = |_out: &mut [f64], _d: &[f64]| -> Result<(), String> { Err(String::from("refused")) };
    let route: PowRoute<Fused, MulDiv, _> = PowRoute::Accelerated { mul_div, pow: refuse };
    let mut out = [f64::NAN; 2];
    pow_helper(&[2.0, 3.0], &[4.0, 5.0], &[1.0, 2.0], &[2.0, 1.0], &mut out, &route);
    assert_eq!(out, [8.0, 7.5]);
}

#[test]
fn a_routine_that_fails_half_way_leaves_what_it_wrote() {
    let half = |out: &mut [f64], d: &[f64]| -> Result<(), usize> {
        out[0] = out[0].powf(d[0]);
        Err(1)
    };
    let route: PowRoute<Fused, MulDiv, _> = PowRoute::Accelerated { mul_div, pow: half };
    let mut out = [f64::NAN; 2];
    pow_helper(&[2.0, 3.0], &[4.0, 5.0], &[1.0, 2.0], &[2.0, 3.0], &mut out, &route);
    assert_eq!(out, [64.0, 7.5]);
}

#[test]
fn a_failing_division_routine_is_passed_over() {
    let product = |a: f64, b: f64| a * b;
    let refuse = |_out: &mut [f64], _c: &[f64]| -> Option<()> { None };
    let raise = |out: &mut [f64], d: &[f64]| -> bool {
        for i in 0..out.len() {
            out[i] = out[i].powf(d[i]);
        }
        true
    };
    let mut out = [f64::NAN; 2];
    div_pow_helper(&[2.0, 3.0], &[4.0, 5.0], &[2.0, 3.0], &[2.0, 1.0], &mut out, &product, &refuse, &raise);
    assert_eq!(out, [64.0, 15.0]);
}

#[test]
fn the_power_routine_gets_the_whole_buffer_once() {
    let calls = AtomicUsize::new(0);
    let seen = Mutex::new(Vec::new());
    let raise = |out: &mut [f64], d: &[f64]| {
        calls.fetch_add(1, Ordering::SeqCst);
        seen.lock().unwrap().push((out.to_vec(), d.to_vec()));
        for i in 0..out.len() {
            out[i] = out[i].powf(d[i]);
        }
    };
    let route: PowRoute<Fused, MulDiv, _> = PowRoute::Accelerated { mul_div, pow: raise };
    let mut out = [f64::NAN; 3];
    pow_helper(&[2.0, 3.0, 1.0], &[4.0, 5.0, 1.0], &[1.0, 2.0, 4.0], &[2.0, 1.0, 0.5], &mut out, &route);
    assert_eq!(calls.load(Ordering::SeqCst), 1);
    assert_eq!(*seen.lock().unwrap(), vec![(vec![8.0, 7.5, 0.25], vec![2.0, 1.0, 0.5])]);
    assert_eq!(out, [64.0, 7.5, 0.5]);
}

#[test]
fn the_parallel_power_strategy_calls_the_routine_once_on_the_filled_buffer() {
    let n = 1000;
    let a = ramp(n, 1.0);
    let b = ramp(n, 2.0);
    let c = ramp(n, 3.0);
    let d = vec![2.0; n];
    let calls = AtomicUsize::new(0);
    let raise = |out: &mut [f64], e: &[f64]| {
        calls.fetch_add(1, Ordering::SeqCst);
        assert_eq!(out.len(), n);
        assert_eq!(e.len(), n);
        for i in 0..n {
            assert_eq!(out[i], (a[i] * b[i]) / c[i]);
            out[i] = out[i].powf(e[i]);
        }
    };
    let mut out = vec![f64::NAN; n];
    rust_array_par_pow(&a, &b, &c, &d, &mut out, &(mul_div as MulDiv), &raise);
    assert_eq!(calls.load(Ordering::SeqCst), 1);
    for i in 0..n {
        assert_eq!(out[i], ((a[i] * b[i]) / c[i]).powf(2.0));
    }
}

#[test]
fn each_chunk_is_handed_to_the_routine_once_with_its_own_exponents() {
    let n = 10;
    let a = ramp(n, 1.0);
    let b = vec![1.0; n];
    let c = vec![1.0; n];
    let d = ramp(n, 100.0);
    let seen = Mutex::new(Vec::new());
    let record = |out: &mut [f64], e: &[f64]| {
        seen.lock().unwrap().push((out.to_vec(), e.to_vec()));
        for i in 0..out.len() {
            out[i] = -out[i];
        }
    };
    let route: PowRoute<Fused, MulDiv, _> = PowRoute::Accelerated { mul_div, pow: record };
    let mut out = vec![f64::NAN; n];
    par_pow_by_chunks(&a, &b, &c, &d, &mut out, 4, &route);
    let mut chunks = seen.lock().unwrap().clone();
    chunks.sort_by(|x, y| x.0[0].partial_cmp(&y.0[0]).unwrap());
    assert_eq!(
        chunks,
        vec![
            (vec![1.0, 2.0, 3.0, 4.0], vec![100.0, 101.0, 102.0, 103.0]),
            (vec![5.0, 6.0, 7.0, 8.0], vec![104.0, 105.0, 106.0, 107.0]),
            (vec![9.0, 10.0], vec![108.0, 109.0]),
        ]
    );
    assert_eq!(out, vec![-1.0, -2.0, -3.0, -4.0, -5.0, -6.0, -7.0, -8.0, -9.0, -10.0]);
}

#[test]
fn the_fixed_chunk_size_is_used() {
    let n = 70_000;
    let a = vec![1.0; n];
    let lengths = Mutex::new(Vec::new());
    let record = |out: &mut [f64], e: &[f64]| {
        assert_eq!(out.len(), e.len());
        lengths.lock().unwrap().push(out.len());
    };
    let route: PowRoute<Fused, MulDiv, _> = PowRoute::Accelerated { mul_div, pow: record };
    let mut out = vec![f64::NAN; n];
    rust_array_par_pow_chunk(&a, &a, &a, &a, &mut out, &route);
    let mut lengths = lengths.lock().unwrap().clone();
    lengths.sort();
    assert_eq!(lengths, vec![4464, 32768, 32768]);
    assert!(out.iter().all(|x| *x == 1.0));
}

#[test]
fn every_index_is_computed_once_by_the_parallel_strategy() {
    let n = 5000;
    let a = ramp(n, 0.0);
    let ones = vec![1.0; n];
    let counts: Vec<AtomicUsize> = (0..n).map(|_| AtomicUsize::new(0)).collect();
    let count = |a: f64, _b: f64, _c: f64, _d: f64| -> f64 {
        counts[a as usize].fetch_add(1, Ordering::SeqCst);
        a + 0.5
    };
    let mut out = vec![f64::NAN; n];
    rust_array_par(&a, &ones, &ones, &ones, &mut out, &count);
    for i in 0..n {
        assert_eq!(counts[i].load(Ordering::SeqCst), 1, "index {}", i);
        assert_eq!(out[i], i as f64 + 0.5);
    }
}

#[test]
fn every_index_is_computed_once_by_the_chunked_strategy() {
    let n = 5000;
    let a = ramp(n, 0.0);
    let ones = vec![1.0; n];
    let counts: Vec<AtomicUsize> = (0..n).map(|_| AtomicUsize::new(0)).collect();
    let count = |a: f64, _b: f64, _c: f64, _d: f64| -> f64 {
        counts[a as usize].fetch_add(1, Ordering::SeqCst);
        a + 0.5
    };
    let route: PowRoute<_, MulDiv, fn(&mut [f64], &[f64]) -> bool> = PowRoute::Portable { fused: count };
    let mut out = vec![f64::NAN; n];
    par_pow_by_chunks(&a, &ones, &ones, &ones, &mut out, 128, &route);
    for i in 0..n {
        assert_eq!(counts[i].load(Ordering::SeqCst), 1, "index {}", i);
        assert_eq!(out[i], i as f64 + 0.5);
    }
}

#[test]
fn the_sequential_strategy_walks_the_indices_in_order() {
    let order = Mutex::new(Vec::new());
    let note = |a: f64, b: f64, c: f64, d: f64| -> f64 {
        order.lock().unwrap().push(a);
        formula(a, b, c, d)
    };
    let mut out = [f64::NAN; 4];
    rust_array(&[1.0, 2.0, 3.0, 4.0], &[1.0; 4], &[1.0; 4], &[2.0; 4], &mut out, &note);
    assert_eq!(*order.lock().unwrap(), vec![1.0, 2.0, 3.0, 4.0]);
    assert_eq!(out, [1.0, 4.0, 9.0, 16.0]);
}

#[test]
fn other_element_types_are_served() {
    let pick = |a: u32, b: u32, c: u32, d: u32| -> u32 { (a * b / c).pow(d) };
    let mut out = [0u32; 3];
    rust_array_par(&[2, 3, 10], &[4, 5, 10], &[1, 1, 7], &[2, 1, 3], &mut out, &pick);
    assert_eq!(out, [64, 15, 2744]);
}
