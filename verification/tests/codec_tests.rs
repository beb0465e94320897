//! Canonical encoding round trips and rejection of out-of-range bytes.

use groth16::field::Field;
use groth16::fp::Fp;
use groth16::sample::FpM61;
use groth16::sample::M61;

#[test]
fn encode_decode_round_trip() {
    let samples: [u64; 5] = [0, 1, 255, 1234567890123456789, M61 - 1];
    for &v in samples.iter() {
        let x: FpM61 = Fp::from_u64(v);
        let bytes = x.to_bytes();
        assert_eq!(bytes.len(), 8);
        let back: FpM61 = Fp::from_bytes(&bytes).expect("canonical bytes must decode");
        assert!(back.eq_el(&x));
    }
}

#[test]
fn encoding_is_little_endian_fixed_width() {
    let x: FpM61 = Fp::from_u64(0x0102030405060708);
    let bytes = x.to_bytes();
    assert_eq!(bytes, vec![0x08, 0x07, 0x06, 0x05, 0x04, 0x03, 0x02, 0x01]);
}

#[test]
fn decode_rejects_values_at_or_above_modulus() {
    // the modulus itself
    let m_bytes = M61.to_le_bytes().to_vec();
    assert!(<Fp<groth16::sample::M61Params>>::from_bytes(&m_bytes).is_none());
    // well above the modulus
    let big = u64::MAX.to_le_bytes().to_vec();
    assert!(<Fp<groth16::sample::M61Params>>::from_bytes(&big).is_none());
    // one below the modulus is fine
    let ok = (M61 - 1).to_le_bytes().to_vec();
    assert!(<Fp<groth16::sample::M61Params>>::from_bytes(&ok).is_some());
}

#[test]
fn decode_rejects_wrong_length() {
    let short = vec![1u8, 2, 3];
    assert!(<Fp<groth16::sample::M61Params>>::from_bytes(&short).is_none());
    let long = vec![0u8; 16];
    assert!(<Fp<groth16::sample::M61Params>>::from_bytes(&long).is_none());
}
