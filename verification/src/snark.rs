//! Groth16 proof verification: verifying-key preparation and the
//! pairing-product check, generic over any [`Pairing`] engine.

use vstd::prelude::*;

use crate::pairing::Pairing;

verus! {

/// A Groth16 verifying key: four fixed group elements plus one first-group
/// element per public input (and one extra constant term).
pub struct VerifyingKey<E: Pairing> {
    pub alpha_g1: E::G1,
    pub beta_g2: E::G2,
    pub gamma_g2: E::G2,
    pub delta_g2: E::G2,
    pub gamma_abc_g1: Vec<E::G1>,
}

/// A Groth16 proof: three group elements.
pub struct Proof<E: Pairing> {
    pub a: E::G1,
    pub b: E::G2,
    pub c: E::G1,
}

/// An immutable snapshot derived once from a [`VerifyingKey`] and reused
/// across many verification calls: the pairing of alpha and beta, and the
/// negations of gamma and delta.
pub struct PreparedVerifyingKey<E: Pairing> {
    pub vk: VerifyingKey<E>,
    pub alpha_g1_beta_g2: E::Gt,
    pub gamma_g2_neg: E::G2,
    pub delta_g2_neg: E::G2,
}

/// The one structural failure mode of verification: the number of public
/// inputs does not match the verifying key.
#[derive(Clone, Copy, Debug, PartialEq, Eq, Structural)]
pub enum VerificationError {
    MalformedVerifyingKey,
}

impl<E: Pairing> VerifyingKey<E> {
    pub open spec fn wf(&self) -> bool {
        &&& E::g1_wf(self.alpha_g1)
        &&& E::g2_wf(self.beta_g2)
        &&& E::g2_wf(self.gamma_g2)
        &&& E::g2_wf(self.delta_g2)
        &&& forall|i: int|
            0 <= i < self.gamma_abc_g1@.len() ==> E::g1_wf(#[trigger] self.gamma_abc_g1@[i])
    }
}

impl<E: Pairing> Proof<E> {
    pub open spec fn wf(&self) -> bool {
        &&& E::g1_wf(self.a)
        &&& E::g2_wf(self.b)
        &&& E::g1_wf(self.c)
    }
}

impl<E: Pairing> PreparedVerifyingKey<E> {
    pub open spec fn wf(&self) -> bool {
        &&& self.vk.wf()
        &&& E::gt_wf(self.alpha_g1_beta_g2)
        &&& E::g2_wf(self.gamma_g2_neg)
        &&& E::g2_wf(self.delta_g2_neg)
    }
}

/// What preparation computes from a verifying key: the key itself is kept
/// (the element sequence by value), and the three derived fields are exactly
/// the pairing of alpha with beta and the negations of gamma and delta.
pub open spec fn prepared_from<E: Pairing>(
    pvk: PreparedVerifyingKey<E>,
    vk: VerifyingKey<E>,
) -> bool {
    &&& pvk.vk.alpha_g1 == vk.alpha_g1
    &&& pvk.vk.beta_g2 == vk.beta_g2
    &&& pvk.vk.gamma_g2 == vk.gamma_g2
    &&& pvk.vk.delta_g2 == vk.delta_g2
    &&& pvk.vk.gamma_abc_g1@ == vk.gamma_abc_g1@
    &&& pvk.alpha_g1_beta_g2 == E::sp_pairing(vk.alpha_g1, vk.beta_g2)
    &&& pvk.gamma_g2_neg == E::sp_g2_neg(vk.gamma_g2)
    &&& pvk.delta_g2_neg == E::sp_g2_neg(vk.delta_g2)
}

/// The public-input accumulator: the constant term plus, for each of the
/// first `k` inputs, the matching key element scaled by that input.
pub open spec fn gic_spec<E: Pairing>(abc: Seq<E::G1>, inputs: Seq<E::Fr>, k: int) -> E::G1
    decreases k,
{
    if k <= 0 {
        abc[0]
    } else {
        E::sp_g1_add(gic_spec::<E>(abc, inputs, k - 1), E::sp_g1_scale(abc[k], inputs[k - 1]))
    }
}

/// The pairing product the verification equation compares against the
/// prepared alpha-beta pairing.
pub open spec fn verification_product<E: Pairing>(
    pvk: PreparedVerifyingKey<E>,
    proof: Proof<E>,
    inputs: Seq<E::Fr>,
) -> E::Gt {
    E::sp_gt_mul(
        E::sp_gt_mul(
            E::sp_pairing(proof.a, proof.b),
            E::sp_pairing(
                gic_spec::<E>(pvk.vk.gamma_abc_g1@, inputs, inputs.len() as int),
                pvk.gamma_g2_neg,
            ),
        ),
        E::sp_pairing(proof.c, pvk.delta_g2_neg),
    )
}

/// Prepare the verifying key `vk` for use in proof verification.
pub fn prepare_verifying_key<E: Pairing>(vk: &VerifyingKey<E>) -> (r: PreparedVerifyingKey<E>)
    requires
        vk.wf(),
    ensures
        prepared_from::<E>(r, *vk),
        r.wf(),
{
    let mut abc: Vec<E::G1> = Vec::new();
    let n = vk.gamma_abc_g1.len();
    for i in 0..n
        invariant
            n == vk.gamma_abc_g1@.len(),
            abc@ == vk.gamma_abc_g1@.take(i as int),
            vk.wf(),
    {
        abc.push(E::g1_dup(&vk.gamma_abc_g1[i]));
        proof {
            assert(abc@ =~= vk.gamma_abc_g1@.take(i + 1 as int));
        }
    }
    proof {
        assert(abc@ =~= vk.gamma_abc_g1@);
    }
    PreparedVerifyingKey {
        vk: VerifyingKey {
            alpha_g1: E::g1_dup(&vk.alpha_g1),
            beta_g2: E::g2_dup(&vk.beta_g2),
            gamma_g2: E::g2_dup(&vk.gamma_g2),
            delta_g2: E::g2_dup(&vk.delta_g2),
            gamma_abc_g1: abc,
        },
        alpha_g1_beta_g2: E::pairing(&vk.alpha_g1, &vk.beta_g2),
        gamma_g2_neg: E::g2_neg(&vk.gamma_g2),
        delta_g2_neg: E::g2_neg(&vk.delta_g2),
    }
}

/// Verify a Groth16 proof `proof` against the prepared verification key
/// `pvk`, with respect to the instance `public_inputs`.
///
/// The only error is a count mismatch between the public inputs and the
/// verifying key; a proof that merely fails the pairing equation yields
/// `Ok(false)`, never an error.
pub fn verify_proof<E: Pairing>(
    pvk: &PreparedVerifyingKey<E>,
    proof: &Proof<E>,
    public_inputs: &[E::Fr],
) -> (r: Result<bool, VerificationError>)
    requires
        pvk.wf(),
        proof.wf(),
        forall|i: int| 0 <= i < public_inputs@.len() ==> E::fr_wf(#[trigger] public_inputs@[i]),
    ensures
        match r {
            Ok(accepted) => {
                &&& public_inputs@.len() + 1 == pvk.vk.gamma_abc_g1@.len()
                &&& accepted == (verification_product::<E>(*pvk, *proof, public_inputs@)
                    == pvk.alpha_g1_beta_g2)
            },
            Err(e) => {
                &&& public_inputs@.len() + 1 != pvk.vk.gamma_abc_g1@.len()
                &&& e == VerificationError::MalformedVerifyingKey
            },
        },
{
    let n = public_inputs.len();
    if pvk.vk.gamma_abc_g1.len() == 0 || n != pvk.vk.gamma_abc_g1.len() - 1 {
        return Err(VerificationError::MalformedVerifyingKey);
    }

    let mut g_ic = E::g1_dup(&pvk.vk.gamma_abc_g1[0]);
    for i in 0..n
        invariant
            pvk.wf(),
            n == public_inputs@.len(),
            n + 1 == pvk.vk.gamma_abc_g1@.len(),
            forall|j: int| 0 <= j < public_inputs@.len() ==> E::fr_wf(#[trigger] public_inputs@[j]),
            g_ic == gic_spec::<E>(pvk.vk.gamma_abc_g1@, public_inputs@, i as int),
            E::g1_wf(g_ic),
    {
        let term = E::g1_scale(&pvk.vk.gamma_abc_g1[i + 1], &public_inputs[i]);
        g_ic = E::g1_add(&g_ic, &term);
    }

    let left = E::pairing(&proof.a, &proof.b);
    let mid = E::pairing(&g_ic, &pvk.gamma_g2_neg);
    let right = E::pairing(&proof.c, &pvk.delta_g2_neg);
    let product = E::gt_mul(&E::gt_mul(&left, &mid), &right);
    Ok(E::gt_eq(&product, &pvk.alpha_g1_beta_g2))
}

/// The three pairing values can be multiplied in any association and
/// order without changing the accept decision: the target group is a
/// commutative monoid, so all six orderings of the product agree, and
/// multiplying by the target identity changes nothing.
pub proof fn lemma_product_order_irrelevant<E: Pairing>(p1: E::Gt, p2: E::Gt, p3: E::Gt)
    requires
        E::gt_wf(p1),
        E::gt_wf(p2),
        E::gt_wf(p3),
    ensures
        E::sp_gt_mul(E::sp_gt_mul(p1, p2), p3) == E::sp_gt_mul(p1, E::sp_gt_mul(p2, p3)),
        E::sp_gt_mul(E::sp_gt_mul(p1, p2), p3) == E::sp_gt_mul(E::sp_gt_mul(p2, p1), p3),
        E::sp_gt_mul(E::sp_gt_mul(p1, p2), p3) == E::sp_gt_mul(E::sp_gt_mul(p3, p1), p2),
        E::sp_gt_mul(E::sp_gt_mul(E::sp_gt_mul(p1, p2), p3), E::sp_gt_one()) == E::sp_gt_mul(
            E::sp_gt_mul(p1, p2),
            p3,
        ),
{
    E::sp_wf_closure();
    E::gt_monoid_laws();
    assert(E::sp_gt_mul(E::sp_gt_mul(p3, p1), p2) == E::sp_gt_mul(p3, E::sp_gt_mul(p1, p2)));
    assert(E::sp_gt_mul(p3, E::sp_gt_mul(p1, p2)) == E::sp_gt_mul(E::sp_gt_mul(p1, p2), p3));
}

/// Preparing the same verifying key twice yields the same prepared key:
/// the derived pairing value, the negated points, and the kept key contents
/// agree pairwise.
pub proof fn lemma_prepare_deterministic<E: Pairing>(
    vk: VerifyingKey<E>,
    pvk1: PreparedVerifyingKey<E>,
    pvk2: PreparedVerifyingKey<E>,
)
    requires
        prepared_from::<E>(pvk1, vk),
        prepared_from::<E>(pvk2, vk),
    ensures
        pvk1.alpha_g1_beta_g2 == pvk2.alpha_g1_beta_g2,
        pvk1.gamma_g2_neg == pvk2.gamma_g2_neg,
        pvk1.delta_g2_neg == pvk2.delta_g2_neg,
        pvk1.vk.alpha_g1 == pvk2.vk.alpha_g1,
        pvk1.vk.beta_g2 == pvk2.vk.beta_g2,
        pvk1.vk.gamma_g2 == pvk2.vk.gamma_g2,
        pvk1.vk.delta_g2 == pvk2.vk.delta_g2,
        pvk1.vk.gamma_abc_g1@ == pvk2.vk.gamma_abc_g1@,
{
}

} // verus!
