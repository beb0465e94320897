//! Field-law and square-root behaviour on concrete elements of the sample
//! tower.

use core::marker::PhantomData;

use groth16::field::Field;
use groth16::field::field_pow;
use groth16::bigint::BigInt;
use groth16::fp::Fp;
use groth16::fp::LegendreSymbol;
use groth16::quadratic::QuadExt;
use groth16::sample::Fp2;
use groth16::sample::Fp4;
use groth16::sample::FpM61;
use groth16::sample::FpM89;
use groth16::sample::M61;

fn fp(x: u64) -> FpM61 {
    Fp::from_u64(x)
}

fn fp2(a: u64, b: u64) -> Fp2 {
    QuadExt { c0: fp(a), c1: fp(b), marker: PhantomData }
}

fn fp4(a: u64, b: u64, c: u64, d: u64) -> Fp4 {
    QuadExt { c0: fp2(a, b), c1: fp2(c, d), marker: PhantomData }
}

#[test]
fn fp_add_associative_and_distributive() {
    let samples: [u64; 5] = [0, 1, 2, 12345678901234567, M61 - 1];
    for &a in samples.iter() {
        for &b in samples.iter() {
            for &c in samples.iter() {
                let (x, y, z) = (fp(a), fp(b), fp(c));
                let left = x.add(&y.add(&z));
                let right = x.add(&y).add(&z);
                assert!(left.eq_el(&right));
                let dl = x.mul(&y.add(&z));
                let dr = x.mul(&y).add(&x.mul(&z));
                assert!(dl.eq_el(&dr));
            }
        }
    }
}

#[test]
fn fp_identities_and_inverse() {
    let samples: [u64; 4] = [1, 2, 987654321, M61 - 2];
    for &a in samples.iter() {
        let x = fp(a);
        assert!(x.add(&FpM61::zero()).eq_el(&x));
        assert!(x.mul(&FpM61::one()).eq_el(&x));
        let inv = x.inverse().expect("nonzero element must invert");
        assert!(x.mul(&inv).eq_el(&FpM61::one()));
    }
    assert!(FpM61::zero().inverse().is_none());
}

#[test]
fn fp_sub_neg_roundtrip() {
    let x = fp(17);
    let y = fp(M61 - 3);
    let d = x.sub(&y);
    assert!(d.add(&y).eq_el(&x));
    let n = y.neg();
    assert!(y.add(&n).eq_el(&FpM61::zero()));
}

#[test]
fn fp_pow_matches_repeated_multiplication() {
    let x = fp(3);
    let e = BigInt::from_u64(5, 1);
    let p = field_pow(&x, &e);
    assert!(p.eq_el(&fp(243)));
    let e0 = BigInt::from_u64(0, 1);
    assert!(field_pow(&x, &e0).eq_el(&FpM61::one()));
}

#[test]
fn fp_sqrt_of_squares() {
    // 25 has roots 5 and M61 - 5; the smaller representative is returned
    let x = fp(25);
    let r = x.sqrt().expect("25 is a square");
    assert!(r.mul(&r).eq_el(&x));
    assert!(r.eq_el(&fp(5)));
    let zero_root = FpM61::zero().sqrt().expect("zero has a root");
    assert!(zero_root.eq_el(&FpM61::zero()));
}

#[test]
fn fp_sqrt_fails_on_nonresidue() {
    // the modulus is 3 mod 4, so -1 is a quadratic non-residue
    let x = fp(M61 - 1);
    assert_eq!(x.legendre(), LegendreSymbol::QuadraticNonResidue);
    assert!(x.sqrt().is_none());
    assert_eq!(fp(4).legendre(), LegendreSymbol::QuadraticResidue);
    assert_eq!(FpM61::zero().legendre(), LegendreSymbol::Zero);
}

#[test]
fn fp2_field_laws_on_samples() {
    let xs = [fp2(1, 2), fp2(0, 5), fp2(M61 - 1, 7)];
    let ys = [fp2(3, 4), fp2(9, 0), fp2(11, M61 - 2)];
    for x in xs.iter() {
        for y in ys.iter() {
            assert!(x.mul(y).eq_el(&y.mul(x)));
            assert!(x.add(y).eq_el(&y.add(x)));
            let z = fp2(6, 13);
            assert!(x.mul(&y.add(&z)).eq_el(&x.mul(y).add(&x.mul(&z))));
            assert!(x.mul(&y.mul(&z)).eq_el(&x.mul(y).mul(&z)));
        }
        assert!(x.mul(&Fp2::one()).eq_el(x));
        assert!(x.add(&Fp2::zero()).eq_el(x));
    }
    let x = fp2(8, 3);
    let inv = x.inverse().expect("nonzero quadratic element must invert");
    assert!(x.mul(&inv).eq_el(&Fp2::one()));
    assert!(Fp2::zero().inverse().is_none());
}

#[test]
fn fp4_tower_arithmetic() {
    let x = fp4(1, 2, 3, 4);
    let y = fp4(5, 0, 0, 6);
    assert!(x.mul(&y).eq_el(&y.mul(&x)));
    assert!(x.mul(&Fp4::one()).eq_el(&x));
    let inv = x.inverse().expect("nonzero degree-4 element must invert");
    assert!(x.mul(&inv).eq_el(&Fp4::one()));
}

#[test]
fn two_limb_field_arithmetic() {
    // 2^89 - 1
    let m: u128 = 618970019642690137449562111;
    let a: FpM89 = Fp::from_u64(u64::MAX);
    let sq = a.square();
    // (2^64 - 1)^2 mod (2^89 - 1), computed independently
    let expect: u128 = ((u64::MAX as u128) * (u64::MAX as u128)) % m;
    let bytes = sq.to_bytes();
    assert_eq!(bytes.len(), 16);
    let mut got: u128 = 0;
    for (i, byte) in bytes.iter().enumerate() {
        got |= (*byte as u128) << (8 * i);
    }
    assert_eq!(got, expect);
    let back: FpM89 = Fp::from_bytes(&bytes).expect("canonical bytes must decode");
    assert!(back.eq_el(&sq));
    let inv = sq.inverse().expect("nonzero element must invert");
    assert!(sq.mul(&inv).eq_el(&FpM89::one()));
    let root = sq.sqrt().expect("a square has a root");
    assert!(root.mul(&root).eq_el(&sq));
}

#[test]
fn quadratic_embedding_matches_base() {
    // an element with vanishing c1 behaves exactly like its base field
    // counterpart
    let a = fp(123456789);
    let b = fp(987654321);
    let xa = Fp2::from_base(&a);
    let xb = Fp2::from_base(&b);
    assert!(xa.mul(&xb).eq_el(&Fp2::from_base(&a.mul(&b))));
    assert!(xa.add(&xb).eq_el(&Fp2::from_base(&a.add(&b))));
    assert!(xa.neg().eq_el(&Fp2::from_base(&a.neg())));
}
