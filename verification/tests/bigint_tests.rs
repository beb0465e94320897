//! Limb-level behaviour of the fixed-width integers: carries, borrows,
//! comparison, bits and shifts.

use groth16::bigint::BigInt;

#[test]
fn add_with_carry_reports_overflow() {
    let a = BigInt { limbs: vec![u64::MAX, u64::MAX] };
    let one = BigInt::from_u64(1, 2);
    let (s, carry) = a.add_with_carry(&one);
    assert!(carry);
    assert_eq!(s.limbs, vec![0, 0]);
    let (t, carry2) = one.add_with_carry(&one);
    assert!(!carry2);
    assert_eq!(t.limbs, vec![2, 0]);
}

#[test]
fn add_carries_across_limbs() {
    let a = BigInt { limbs: vec![u64::MAX, 0] };
    let one = BigInt::from_u64(1, 2);
    let (s, carry) = a.add_with_carry(&one);
    assert!(!carry);
    assert_eq!(s.limbs, vec![0, 1]);
}

#[test]
fn sub_with_borrow_flags_underflow() {
    let a = BigInt::from_u64(5, 2);
    let b = BigInt::from_u64(7, 2);
    let (_, borrow) = a.sub_with_borrow(&b);
    assert!(borrow);
    let (d, borrow2) = b.sub_with_borrow(&a);
    assert!(!borrow2);
    assert_eq!(d.limbs, vec![2, 0]);
}

#[test]
fn comparison_and_equality() {
    let a = BigInt { limbs: vec![0, 1] };
    let b = BigInt { limbs: vec![u64::MAX, 0] };
    assert!(b.lt(&a));
    assert!(!a.lt(&b));
    assert!(!a.lt(&a.dup()));
    assert!(a.eq_val(&a.dup()));
    assert!(!a.eq_val(&b));
    assert!(BigInt::zero(3).is_zero());
    assert!(!a.is_zero());
}

#[test]
fn bit_access_and_shifts() {
    let a = BigInt { limbs: vec![0b1010, 1] };
    assert!(!a.get_bit(0));
    assert!(a.get_bit(1));
    assert!(!a.get_bit(2));
    assert!(a.get_bit(3));
    assert!(a.get_bit(64));
    assert!(!a.get_bit(65));
    let halved = a.shr1();
    assert_eq!(halved.limbs, vec![0b101 | (1u64 << 63), 0]);
    let r = a.shr(64);
    assert_eq!(r.limbs, vec![1, 0]);
    let l = BigInt::from_u64(3, 2).shl(65);
    assert_eq!(l.limbs, vec![0, 6]);
    // bits shifted past the top are dropped
    let trunc = BigInt { limbs: vec![1, 1] }.shl(64);
    assert_eq!(trunc.limbs, vec![0, 1]);
}

#[test]
fn bit_length() {
    assert_eq!(BigInt::zero(2).num_bits(), 0);
    assert_eq!(BigInt::from_u64(1, 2).num_bits(), 1);
    assert_eq!(BigInt::from_u64(0b100101, 2).num_bits(), 6);
    let high = BigInt { limbs: vec![7, 0b1000] };
    assert_eq!(high.num_bits(), 64 + 4);
}
