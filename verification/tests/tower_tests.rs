//! Arithmetic in the degree-3, 6 and 12 levels of the sample tower.

use core::marker::PhantomData;

use groth16::cubic::CubicExt;
use groth16::field::Field;
use groth16::fp::Fp;
use groth16::quadratic::QuadExt;
use groth16::sample::Fp12;
use groth16::sample::Fp2;
use groth16::sample::Fp3;
use groth16::sample::Fp6;
use groth16::sample::FpM61;

fn fp(x: u64) -> FpM61 {
    Fp::from_u64(x)
}

fn fp2(a: u64, b: u64) -> Fp2 {
    QuadExt { c0: fp(a), c1: fp(b), marker: PhantomData }
}

fn fp3(a: u64, b: u64, c: u64) -> Fp3 {
    CubicExt { c0: fp(a), c1: fp(b), c2: fp(c), marker: PhantomData }
}

fn fp6(xs: [u64; 6]) -> Fp6 {
    CubicExt {
        c0: fp2(xs[0], xs[1]),
        c1: fp2(xs[2], xs[3]),
        c2: fp2(xs[4], xs[5]),
        marker: PhantomData,
    }
}

fn fp12(lo: [u64; 6], hi: [u64; 6]) -> Fp12 {
    QuadExt { c0: fp6(lo), c1: fp6(hi), marker: PhantomData }
}

#[test]
fn fp3_field_laws_on_samples() {
    let x = fp3(1, 2, 3);
    let y = fp3(4, 5, 6);
    let z = fp3(7, 0, 9);
    assert!(x.mul(&y).eq_el(&y.mul(&x)));
    assert!(x.mul(&y.mul(&z)).eq_el(&x.mul(&y).mul(&z)));
    assert!(x.mul(&y.add(&z)).eq_el(&x.mul(&y).add(&x.mul(&z))));
    assert!(x.mul(&Fp3::one()).eq_el(&x));
    assert!(x.add(&Fp3::zero()).eq_el(&x));
    let inv = x.inverse().expect("nonzero cubic element must invert");
    assert!(x.mul(&inv).eq_el(&Fp3::one()));
    assert!(Fp3::zero().inverse().is_none());
}

#[test]
fn fp6_tower_arithmetic() {
    let x = fp6([1, 2, 3, 4, 5, 6]);
    let y = fp6([7, 8, 9, 10, 11, 12]);
    assert!(x.mul(&y).eq_el(&y.mul(&x)));
    assert!(x.mul(&Fp6::one()).eq_el(&x));
    let inv = x.inverse().expect("nonzero degree-6 element must invert");
    assert!(x.mul(&inv).eq_el(&Fp6::one()));
    let s = x.square();
    assert!(s.eq_el(&x.mul(&x)));
}

#[test]
fn fp12_tower_arithmetic() {
    let x = fp12([1, 2, 3, 4, 5, 6], [7, 8, 9, 10, 11, 12]);
    let y = fp12([2, 0, 0, 1, 0, 3], [0, 5, 0, 0, 4, 0]);
    assert!(x.mul(&y).eq_el(&y.mul(&x)));
    assert!(x.mul(&Fp12::one()).eq_el(&x));
    assert!(x.add(&x.neg()).eq_el(&Fp12::zero()));
    let inv = x.inverse().expect("nonzero degree-12 element must invert");
    assert!(x.mul(&inv).eq_el(&Fp12::one()));
    // subtraction undoes addition at the top of the tower
    let s = x.add(&y).sub(&y);
    assert!(s.eq_el(&x));
}
