//! Pairing bilinearity and end-to-end Groth16 verification against the
//! sample engine.

use groth16::pairing::Pairing;
use groth16::sample::M61;
use groth16::sample::SamplePairing;
use groth16::snark::PreparedVerifyingKey;
use groth16::snark::Proof;
use groth16::snark::VerificationError;
use groth16::snark::VerifyingKey;
use groth16::snark::prepare_verifying_key;
use groth16::snark::verify_proof;

type E = SamplePairing;

fn sample_vk() -> VerifyingKey<E> {
    VerifyingKey { alpha_g1: 2, beta_g2: 3, gamma_g2: 1, delta_g2: 1, gamma_abc_g1: vec![4, 1] }
}

fn sample_proof() -> Proof<E> {
    Proof { a: 4, b: 4, c: 1 }
}

#[test]
fn pairing_bilinear_in_small_scalars() {
    let p: u64 = 1234567;
    let q: u64 = 7654321;
    let e_pq = E::pairing(&p, &q);
    // k = 3: triple the first argument, cube the pairing value, triple the
    // second argument — all three must agree
    let p3 = E::g1_add(&E::g1_add(&p, &p), &p);
    let q3 = E::g1_add(&E::g1_add(&q, &q), &q);
    let cube = E::gt_mul(&E::gt_mul(&e_pq, &e_pq), &e_pq);
    assert_eq!(E::pairing(&p3, &q), cube);
    assert_eq!(E::pairing(&p, &q3), cube);
    // and via the scalar-multiplication operation itself
    let p3s = E::g1_scale(&p, &3);
    assert_eq!(p3s, p3);
    assert_eq!(E::pairing(&p3s, &q), cube);
}

#[test]
fn verify_accepts_valid_proof() {
    let vk = sample_vk();
    let pvk = prepare_verifying_key(&vk);
    let proof = sample_proof();
    let inputs: [u64; 1] = [5];
    assert_eq!(verify_proof(&pvk, &proof, &inputs), Ok(true));
}

#[test]
fn verify_rejects_mutated_proof() {
    let vk = sample_vk();
    let pvk = prepare_verifying_key(&vk);
    let inputs: [u64; 1] = [5];
    // negate A
    let bad_a = Proof { a: M61 - 4, b: 4, c: 1 };
    assert_eq!(verify_proof(&pvk, &bad_a, &inputs), Ok(false));
    // perturb C
    let bad_c = Proof { a: 4, b: 4, c: 2 };
    assert_eq!(verify_proof(&pvk, &bad_c, &inputs), Ok(false));
    // wrong public input
    let proof = sample_proof();
    let wrong: [u64; 1] = [6];
    assert_eq!(verify_proof(&pvk, &proof, &wrong), Ok(false));
}

#[test]
fn verify_rejects_wrong_input_count() {
    let vk = sample_vk();
    let pvk = prepare_verifying_key(&vk);
    let proof = sample_proof();
    let too_many: [u64; 2] = [5, 7];
    assert_eq!(
        verify_proof(&pvk, &proof, &too_many),
        Err(VerificationError::MalformedVerifyingKey)
    );
    let too_few: [u64; 0] = [];
    assert_eq!(
        verify_proof(&pvk, &proof, &too_few),
        Err(VerificationError::MalformedVerifyingKey)
    );
}

#[test]
fn prepare_is_deterministic() {
    let vk = sample_vk();
    let pvk1: PreparedVerifyingKey<E> = prepare_verifying_key(&vk);
    let pvk2: PreparedVerifyingKey<E> = prepare_verifying_key(&vk);
    assert_eq!(pvk1.alpha_g1_beta_g2, pvk2.alpha_g1_beta_g2);
    assert_eq!(pvk1.gamma_g2_neg, pvk2.gamma_g2_neg);
    assert_eq!(pvk1.delta_g2_neg, pvk2.delta_g2_neg);
    assert_eq!(pvk1.vk.gamma_abc_g1, pvk2.vk.gamma_abc_g1);
    // the stored negations agree with negating the key directly
    assert_eq!(pvk1.gamma_g2_neg, E::g2_neg(&vk.gamma_g2));
    assert_eq!(pvk1.delta_g2_neg, E::g2_neg(&vk.delta_g2));
}
