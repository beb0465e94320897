//! The pairing-engine capability: two source groups, a target group, a
//! scalar field, and a bilinear map between them.
//!
//! The Groth16 verifier is written against this trait alone.  An engine
//! supplies the executable operations together with specification-level
//! counterparts, and must prove that the pairing is additive in each slot;
//! from those two obligations the scalar forms of bilinearity
//! (`e(k·P, Q) == e(P, Q)^k == e(P, k·Q)` for natural `k`) follow by the
//! generic lemmas at the bottom of this module.

use vstd::prelude::*;

verus! {

pub trait Pairing: Sized {
    /// Elements of the first source group.
    type G1;

    /// Elements of the second source group.
    type G2;

    /// Elements of the target group (the multiplicative group the pairing
    /// lands in).
    type Gt;

    /// Elements of the scalar field acting on both source groups.
    type Fr;

    spec fn g1_wf(a: Self::G1) -> bool;

    spec fn g2_wf(b: Self::G2) -> bool;

    spec fn gt_wf(t: Self::Gt) -> bool;

    spec fn fr_wf(s: Self::Fr) -> bool;

    /// The bilinear map itself, at the specification level.
    spec fn sp_pairing(a: Self::G1, b: Self::G2) -> Self::Gt;

    spec fn sp_g1_add(a: Self::G1, b: Self::G1) -> Self::G1;

    spec fn sp_g1_scale(a: Self::G1, k: Self::Fr) -> Self::G1;

    spec fn sp_g2_add(a: Self::G2, b: Self::G2) -> Self::G2;

    spec fn sp_g2_scale(a: Self::G2, k: Self::Fr) -> Self::G2;

    spec fn sp_g2_neg(b: Self::G2) -> Self::G2;

    spec fn sp_gt_mul(x: Self::Gt, y: Self::Gt) -> Self::Gt;

    /// The identity of the target group.
    spec fn sp_gt_one() -> Self::Gt;

    /// The identity of the second source group.
    spec fn sp_g2_identity() -> Self::G2;

    /// Well-formedness is preserved by every specification-level operation.
    proof fn sp_wf_closure()
        ensures
            forall|a: Self::G1, b: Self::G1|
                Self::g1_wf(a) && Self::g1_wf(b) ==> Self::g1_wf(#[trigger] Self::sp_g1_add(a, b)),
            forall|a: Self::G1, k: Self::Fr|
                Self::g1_wf(a) && Self::fr_wf(k) ==> Self::g1_wf(#[trigger] Self::sp_g1_scale(a, k)),
            forall|a: Self::G2, b: Self::G2|
                Self::g2_wf(a) && Self::g2_wf(b) ==> Self::g2_wf(#[trigger] Self::sp_g2_add(a, b)),
            forall|a: Self::G2, k: Self::Fr|
                Self::g2_wf(a) && Self::fr_wf(k) ==> Self::g2_wf(#[trigger] Self::sp_g2_scale(a, k)),
            forall|b: Self::G2| Self::g2_wf(b) ==> Self::g2_wf(#[trigger] Self::sp_g2_neg(b)),
            forall|x: Self::Gt, y: Self::Gt|
                Self::gt_wf(x) && Self::gt_wf(y) ==> Self::gt_wf(#[trigger] Self::sp_gt_mul(x, y)),
            forall|a: Self::G1, b: Self::G2|
                Self::g1_wf(a) && Self::g2_wf(b) ==> Self::gt_wf(#[trigger] Self::sp_pairing(a, b)),
            Self::gt_wf(Self::sp_gt_one()),
    ;

    /// Negation really is the group-theoretic additive inverse in the
    /// second source group, not a representation-level flip.
    proof fn g2_neg_law()
        ensures
            Self::g2_wf(Self::sp_g2_identity()),
            forall|b: Self::G2|
                Self::g2_wf(b) ==> Self::sp_g2_add(b, #[trigger] Self::sp_g2_neg(b))
                    == Self::sp_g2_identity(),
    ;

    /// The target group is a commutative monoid under its multiplication.
    proof fn gt_monoid_laws()
        ensures
            forall|x: Self::Gt, y: Self::Gt|
                Self::gt_wf(x) && Self::gt_wf(y) ==> #[trigger] Self::sp_gt_mul(x, y)
                    == Self::sp_gt_mul(y, x),
            forall|x: Self::Gt, y: Self::Gt, z: Self::Gt|
                #![trigger Self::sp_gt_mul(Self::sp_gt_mul(x, y), z)]
                Self::gt_wf(x) && Self::gt_wf(y) && Self::gt_wf(z) ==> Self::sp_gt_mul(
                    Self::sp_gt_mul(x, y),
                    z,
                ) == Self::sp_gt_mul(x, Self::sp_gt_mul(y, z)),
            forall|x: Self::Gt|
                Self::gt_wf(x) ==> #[trigger] Self::sp_gt_mul(x, Self::sp_gt_one()) == x,
    ;

    /// The pairing is additive in its first slot.
    proof fn pairing_add_left(a1: Self::G1, a2: Self::G1, b: Self::G2)
        requires
            Self::g1_wf(a1),
            Self::g1_wf(a2),
            Self::g2_wf(b),
        ensures
            Self::sp_pairing(Self::sp_g1_add(a1, a2), b) == Self::sp_gt_mul(
                Self::sp_pairing(a1, b),
                Self::sp_pairing(a2, b),
            ),
    ;

    /// The pairing is additive in its second slot.
    proof fn pairing_add_right(a: Self::G1, b1: Self::G2, b2: Self::G2)
        requires
            Self::g1_wf(a),
            Self::g2_wf(b1),
            Self::g2_wf(b2),
        ensures
            Self::sp_pairing(a, Self::sp_g2_add(b1, b2)) == Self::sp_gt_mul(
                Self::sp_pairing(a, b1),
                Self::sp_pairing(a, b2),
            ),
    ;

    fn pairing(a: &Self::G1, b: &Self::G2) -> (r: Self::Gt)
        requires
            Self::g1_wf(*a),
            Self::g2_wf(*b),
        ensures
            r == Self::sp_pairing(*a, *b),
            Self::gt_wf(r),
    ;

    fn g1_add(a: &Self::G1, b: &Self::G1) -> (r: Self::G1)
        requires
            Self::g1_wf(*a),
            Self::g1_wf(*b),
        ensures
            r == Self::sp_g1_add(*a, *b),
            Self::g1_wf(r),
    ;

    /// Scalar multiplication of a first-group element by a field scalar,
    /// interpreted through the scalar's integer representative.
    fn g1_scale(a: &Self::G1, k: &Self::Fr) -> (r: Self::G1)
        requires
            Self::g1_wf(*a),
            Self::fr_wf(*k),
        ensures
            r == Self::sp_g1_scale(*a, *k),
            Self::g1_wf(r),
    ;

    /// The group-theoretic inverse in the second source group.
    fn g2_neg(b: &Self::G2) -> (r: Self::G2)
        requires
            Self::g2_wf(*b),
        ensures
            r == Self::sp_g2_neg(*b),
            Self::g2_wf(r),
    ;

    fn gt_mul(x: &Self::Gt, y: &Self::Gt) -> (r: Self::Gt)
        requires
            Self::gt_wf(*x),
            Self::gt_wf(*y),
        ensures
            r == Self::sp_gt_mul(*x, *y),
            Self::gt_wf(r),
    ;

    fn gt_eq(x: &Self::Gt, y: &Self::Gt) -> (r: bool)
        requires
            Self::gt_wf(*x),
            Self::gt_wf(*y),
        ensures
            r == (*x == *y),
    ;

    fn g1_dup(a: &Self::G1) -> (r: Self::G1)
        requires
            Self::g1_wf(*a),
        ensures
            r == *a,
    ;

    fn g2_dup(b: &Self::G2) -> (r: Self::G2)
        requires
            Self::g2_wf(*b),
        ensures
            r == *b,
    ;
}

/// `k`-fold sum of a first-group element with itself, for positive `k`
/// (both 0 and 1 give the element back); used to state bilinearity over
/// natural scalars.
pub open spec fn g1_scale_nat<E: Pairing>(a: E::G1, k: nat) -> E::G1
    decreases k,
{
    if k <= 1 {
        a
    } else {
        E::sp_g1_add(g1_scale_nat::<E>(a, (k - 1) as nat), a)
    }
}

/// `k`-fold sum of a second-group element with itself.
pub open spec fn g2_scale_nat<E: Pairing>(b: E::G2, k: nat) -> E::G2
    decreases k,
{
    if k <= 1 {
        b
    } else {
        E::sp_g2_add(g2_scale_nat::<E>(b, (k - 1) as nat), b)
    }
}

/// `k`-th power of a target-group element.
pub open spec fn gt_pow_nat<E: Pairing>(t: E::Gt, k: nat) -> E::Gt
    decreases k,
{
    if k <= 1 {
        t
    } else {
        E::sp_gt_mul(gt_pow_nat::<E>(t, (k - 1) as nat), t)
    }
}

pub proof fn lemma_g1_scale_nat_wf<E: Pairing>(a: E::G1, k: nat)
    requires
        E::g1_wf(a),
    ensures
        E::g1_wf(g1_scale_nat::<E>(a, k)),
    decreases k,
{
    if k > 1 {
        lemma_g1_scale_nat_wf::<E>(a, (k - 1) as nat);
        E::sp_wf_closure();
    }
}

pub proof fn lemma_g2_scale_nat_wf<E: Pairing>(b: E::G2, k: nat)
    requires
        E::g2_wf(b),
    ensures
        E::g2_wf(g2_scale_nat::<E>(b, k)),
    decreases k,
{
    if k > 1 {
        lemma_g2_scale_nat_wf::<E>(b, (k - 1) as nat);
        E::sp_wf_closure();
    }
}

/// Bilinearity in the first slot, over natural scalars: pairing a `k`-fold
/// sum against a fixed second argument raises the pairing to the `k`-th
/// power.
pub proof fn lemma_pairing_scale_left<E: Pairing>(a: E::G1, b: E::G2, k: nat)
    requires
        E::g1_wf(a),
        E::g2_wf(b),
    ensures
        E::sp_pairing(g1_scale_nat::<E>(a, k), b) == gt_pow_nat::<E>(E::sp_pairing(a, b), k),
    decreases k,
{
    if k > 1 {
        lemma_pairing_scale_left::<E>(a, b, (k - 1) as nat);
        lemma_g1_scale_nat_wf::<E>(a, (k - 1) as nat);
        E::pairing_add_left(g1_scale_nat::<E>(a, (k - 1) as nat), a, b);
    }
}

/// Bilinearity in the second slot, over natural scalars.
pub proof fn lemma_pairing_scale_right<E: Pairing>(a: E::G1, b: E::G2, k: nat)
    requires
        E::g1_wf(a),
        E::g2_wf(b),
    ensures
        E::sp_pairing(a, g2_scale_nat::<E>(b, k)) == gt_pow_nat::<E>(E::sp_pairing(a, b), k),
    decreases k,
{
    if k > 1 {
        lemma_pairing_scale_right::<E>(a, b, (k - 1) as nat);
        lemma_g2_scale_nat_wf::<E>(b, (k - 1) as nat);
        E::pairing_add_right(a, g2_scale_nat::<E>(b, (k - 1) as nat), b);
    }
}

/// The two scalar forms of bilinearity agree: `e(k·P, Q) == e(P, k·Q)`.
pub proof fn lemma_pairing_scale_swap<E: Pairing>(a: E::G1, b: E::G2, k: nat)
    requires
        E::g1_wf(a),
        E::g2_wf(b),
    ensures
        E::sp_pairing(g1_scale_nat::<E>(a, k), b) == E::sp_pairing(a, g2_scale_nat::<E>(b, k)),
{
    lemma_pairing_scale_left::<E>(a, b, k);
    lemma_pairing_scale_right::<E>(a, b, k);
}

} // verus!
