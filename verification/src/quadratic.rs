//! Quadratic extension fields: pairs `c0 + c1·α` over any base field
//! satisfying the [`Field`] contract, with `α² = ν` for a chosen
//! non-residue `ν`.
//!
//! The choice of `ν` is a structural precondition — nothing here checks
//! that it really has no square root in the base field — and the whole
//! construction is generic, so towers arise by instantiating the base with
//! another extension.

use vstd::prelude::*;

use core::marker::PhantomData;

use crate::field::Field;
use crate::field::lemma_add_perm4;
use crate::field::lemma_mul_distrib_right;
use crate::field::lemma_mul_neg;
use crate::field::lemma_mul_swap_left;
use crate::field::lemma_neg_mul;
use crate::field::lemma_neg_zero;

verus! {

/// The defining constant of one quadratic extension of `B`.
pub trait QuadParams<B: Field>: Sized {
    /// The non-residue `ν`, as a base-field view.
    spec fn nr() -> B::V;

    proof fn lemma_nr_valid()
        ensures
            B::sp_valid(Self::nr()),
    ;

    fn nonresidue() -> (r: B)
        ensures
            r.wf(),
            r@ == Self::nr(),
    ;
}

/// An element `c0 + c1·α` of the quadratic extension.
pub struct QuadExt<B: Field, P: QuadParams<B>> {
    pub c0: B,
    pub c1: B,
    pub marker: PhantomData<P>,
}

impl<B: Field, P: QuadParams<B>> View for QuadExt<B, P> {
    type V = (B::V, B::V);

    open spec fn view(&self) -> (B::V, B::V) {
        (self.c0@, self.c1@)
    }
}

impl<B: Field, P: QuadParams<B>> QuadExt<B, P> {
    /// The norm down to the base field: `c0² - ν·c1²`, the product of the
    /// element with its conjugate.
    pub open spec fn sp_norm(v: (B::V, B::V)) -> B::V {
        B::sp_add(
            B::sp_mul(v.0, v.0),
            B::sp_neg(B::sp_mul(P::nr(), B::sp_mul(v.1, v.1))),
        )
    }

    /// The base field embeds as the elements with vanishing `c1`.
    pub fn from_base(b: &B) -> (r: Self)
        requires
            b.wf(),
        ensures
            r.wf(),
            r@ == (b@, B::sp_zero()),
    {
        QuadExt { c0: b.dup(), c1: B::zero(), marker: PhantomData }
    }
}

impl<B: Field, P: QuadParams<B>> Field for QuadExt<B, P> {
    open spec fn sp_valid(v: (B::V, B::V)) -> bool {
        B::sp_valid(v.0) && B::sp_valid(v.1)
    }

    open spec fn sp_add(a: (B::V, B::V), b: (B::V, B::V)) -> (B::V, B::V) {
        (B::sp_add(a.0, b.0), B::sp_add(a.1, b.1))
    }

    open spec fn sp_mul(a: (B::V, B::V), b: (B::V, B::V)) -> (B::V, B::V) {
        (
            B::sp_add(B::sp_mul(a.0, b.0), B::sp_mul(P::nr(), B::sp_mul(a.1, b.1))),
            B::sp_add(B::sp_mul(a.0, b.1), B::sp_mul(a.1, b.0)),
        )
    }

    open spec fn sp_neg(a: (B::V, B::V)) -> (B::V, B::V) {
        (B::sp_neg(a.0), B::sp_neg(a.1))
    }

    open spec fn sp_zero() -> (B::V, B::V) {
        (B::sp_zero(), B::sp_zero())
    }

    open spec fn sp_one() -> (B::V, B::V) {
        (B::sp_one(), B::sp_zero())
    }

    open spec fn sp_unit(v: (B::V, B::V)) -> bool {
        Self::sp_valid(v) && B::sp_unit(Self::sp_norm(v))
    }

    open spec fn wf(&self) -> bool {
        self.c0.wf() && self.c1.wf()
    }

    proof fn lemma_wf_valid(x: &Self) {
        B::lemma_wf_valid(&x.c0);
        B::lemma_wf_valid(&x.c1);
    }

    proof fn lemma_valid_closure() {
        B::lemma_valid_closure();
        P::lemma_nr_valid();
    }

    proof fn lemma_unit_nonzero() {
        B::lemma_valid_closure();
        B::lemma_unit_nonzero();
        P::lemma_nr_valid();
        assert forall|v: (B::V, B::V)| #[trigger] Self::sp_unit(v) implies Self::sp_valid(v) && v
            != Self::sp_zero() by {
            if v == Self::sp_zero() {
                lemma_norm_of_zero::<B, P>();
            }
        }
    }

    proof fn lemma_add_comm() {
        B::lemma_valid_closure();
        B::lemma_add_comm();
    }

    proof fn lemma_add_assoc() {
        B::lemma_valid_closure();
        B::lemma_add_assoc();
    }

    proof fn lemma_add_zero() {
        B::lemma_valid_closure();
        B::lemma_add_zero();
    }

    proof fn lemma_add_neg() {
        B::lemma_valid_closure();
        B::lemma_add_neg();
    }

    proof fn lemma_mul_comm() {
        B::lemma_valid_closure();
        P::lemma_nr_valid();
        B::lemma_mul_comm();
        B::lemma_add_comm();
    }

    #[verifier::rlimit(50)]
    proof fn lemma_mul_assoc() {
        B::lemma_valid_closure();
        P::lemma_nr_valid();
        let n = P::nr();
        assert forall|x: (B::V, B::V), y: (B::V, B::V), z: (B::V, B::V)|
            Self::sp_valid(x) && Self::sp_valid(y) && Self::sp_valid(z) implies Self::sp_mul(
            Self::sp_mul(x, y),
            z,
        ) == Self::sp_mul(x, Self::sp_mul(y, z)) by {
            B::lemma_valid_closure();
            B::lemma_mul_comm();
            B::lemma_mul_assoc();
            B::lemma_mul_distrib();
            B::lemma_add_comm();
            B::lemma_add_assoc();
            let (a, b) = x;
            let (c, d) = y;
            let (e, f) = z;
            // first coordinate: expand both association orders into four
            // summands and match them up to regrouping
            lemma_mul_distrib_right::<B>(B::sp_mul(a, c), B::sp_mul(n, B::sp_mul(b, d)), e);
            lemma_mul_distrib_right::<B>(B::sp_mul(a, d), B::sp_mul(b, c), f);
            lemma_mul_distrib_right::<B>(B::sp_mul(a, c), B::sp_mul(a, d), e);
            let t1 = B::sp_mul(B::sp_mul(a, c), e);
            let s2 = B::sp_mul(a, B::sp_mul(n, B::sp_mul(d, f)));
            let s3 = B::sp_mul(n, B::sp_mul(b, B::sp_mul(c, f)));
            let s4 = B::sp_mul(n, B::sp_mul(b, B::sp_mul(d, e)));
            assert(B::sp_mul(B::sp_mul(n, B::sp_mul(b, d)), e) == s4) by {
                assert(B::sp_mul(B::sp_mul(n, B::sp_mul(b, d)), e) == B::sp_mul(
                    n,
                    B::sp_mul(B::sp_mul(b, d), e),
                ));
                assert(B::sp_mul(B::sp_mul(b, d), e) == B::sp_mul(b, B::sp_mul(d, e)));
            }
            assert(B::sp_mul(n, B::sp_mul(B::sp_mul(a, d), f)) == s2) by {
                assert(B::sp_mul(B::sp_mul(a, d), f) == B::sp_mul(a, B::sp_mul(d, f)));
                lemma_mul_swap_left::<B>(a, n, B::sp_mul(d, f));
            }
            assert(B::sp_mul(n, B::sp_mul(B::sp_mul(b, c), f)) == s3) by {
                assert(B::sp_mul(B::sp_mul(b, c), f) == B::sp_mul(b, B::sp_mul(c, f)));
            }
            assert(B::sp_mul(
                n,
                B::sp_add(B::sp_mul(B::sp_mul(a, d), f), B::sp_mul(B::sp_mul(b, c), f)),
            ) == B::sp_add(s2, s3));
            assert(Self::sp_mul(Self::sp_mul(x, y), z).0 == B::sp_add(
                B::sp_add(t1, s4),
                B::sp_add(s2, s3),
            ));
            assert(t1 == B::sp_mul(a, B::sp_mul(c, e)));
            assert(B::sp_mul(a, B::sp_mul(n, B::sp_mul(d, f))) == s2);
            assert(B::sp_mul(n, B::sp_mul(b, B::sp_mul(c, f))) == s3);
            assert(B::sp_mul(n, B::sp_mul(b, B::sp_mul(d, e))) == s4);
            assert(Self::sp_mul(x, Self::sp_mul(y, z)).0 == B::sp_add(
                B::sp_add(t1, s2),
                B::sp_add(s3, s4),
            ));
            lemma_add_perm4::<B>(t1, s4, s2, s3);
            assert(Self::sp_mul(Self::sp_mul(x, y), z).0 == Self::sp_mul(x, Self::sp_mul(y, z)).0);
            // second coordinate: same four-summand regrouping
            lemma_mul_distrib_right::<B>(B::sp_mul(a, c), B::sp_mul(n, B::sp_mul(b, d)), f);
            lemma_mul_distrib_right::<B>(B::sp_mul(a, d), B::sp_mul(b, c), e);
            let u1 = B::sp_mul(B::sp_mul(a, c), f);
            let v2 = B::sp_mul(a, B::sp_mul(d, e));
            let v3 = B::sp_mul(b, B::sp_mul(c, e));
            let v4 = B::sp_mul(b, B::sp_mul(n, B::sp_mul(d, f)));
            assert(B::sp_mul(B::sp_mul(n, B::sp_mul(b, d)), f) == v4) by {
                assert(B::sp_mul(B::sp_mul(n, B::sp_mul(b, d)), f) == B::sp_mul(
                    n,
                    B::sp_mul(B::sp_mul(b, d), f),
                ));
                assert(B::sp_mul(B::sp_mul(b, d), f) == B::sp_mul(b, B::sp_mul(d, f)));
                lemma_mul_swap_left::<B>(b, n, B::sp_mul(d, f));
            }
            assert(B::sp_mul(B::sp_mul(a, d), e) == v2);
            assert(B::sp_mul(B::sp_mul(b, c), e) == v3);
            assert(Self::sp_mul(Self::sp_mul(x, y), z).1 == B::sp_add(
                B::sp_add(u1, v4),
                B::sp_add(v2, v3),
            ));
            assert(u1 == B::sp_mul(a, B::sp_mul(c, f)));
            assert(Self::sp_mul(x, Self::sp_mul(y, z)).1 == B::sp_add(
                B::sp_add(u1, v2),
                B::sp_add(v3, v4),
            ));
            lemma_add_perm4::<B>(u1, v4, v2, v3);
            assert(Self::sp_mul(Self::sp_mul(x, y), z).1 == Self::sp_mul(x, Self::sp_mul(y, z)).1);
        }
    }

    proof fn lemma_mul_one() {
        B::lemma_valid_closure();
        P::lemma_nr_valid();
        assert forall|a: (B::V, B::V)| Self::sp_valid(a) implies #[trigger] Self::sp_mul(
            a,
            Self::sp_one(),
        ) == a by {
            B::lemma_valid_closure();
            B::lemma_mul_one();
            B::lemma_mul_zero();
            B::lemma_add_zero();
            B::lemma_add_comm();
            assert(B::sp_mul(P::nr(), B::sp_mul(a.1, B::sp_zero())) == B::sp_zero());
            assert(B::sp_add(B::sp_mul(a.0, B::sp_zero()), B::sp_mul(a.1, B::sp_one())) == a.1);
        }
    }

    proof fn lemma_mul_zero() {
        B::lemma_valid_closure();
        P::lemma_nr_valid();
        assert forall|a: (B::V, B::V)| Self::sp_valid(a) implies #[trigger] Self::sp_mul(
            a,
            Self::sp_zero(),
        ) == Self::sp_zero() by {
            B::lemma_valid_closure();
            B::lemma_mul_zero();
            B::lemma_add_zero();
        }
    }

    proof fn lemma_mul_distrib() {
        B::lemma_valid_closure();
        P::lemma_nr_valid();
        let n = P::nr();
        assert forall|x: (B::V, B::V), y: (B::V, B::V), z: (B::V, B::V)|
            Self::sp_valid(x) && Self::sp_valid(y) && Self::sp_valid(z) implies Self::sp_mul(
            x,
            Self::sp_add(y, z),
        ) == Self::sp_add(Self::sp_mul(x, y), Self::sp_mul(x, z)) by {
            B::lemma_valid_closure();
            B::lemma_mul_distrib();
            B::lemma_add_comm();
            B::lemma_add_assoc();
            let (a, b) = x;
            let (c, d) = y;
            let (e, f) = z;
            // first coordinate
            assert(B::sp_mul(b, B::sp_add(d, f)) == B::sp_add(B::sp_mul(b, d), B::sp_mul(b, f)));
            assert(B::sp_mul(n, B::sp_add(B::sp_mul(b, d), B::sp_mul(b, f))) == B::sp_add(
                B::sp_mul(n, B::sp_mul(b, d)),
                B::sp_mul(n, B::sp_mul(b, f)),
            ));
            lemma_add_perm4::<B>(
                B::sp_mul(a, c),
                B::sp_mul(a, e),
                B::sp_mul(n, B::sp_mul(b, d)),
                B::sp_mul(n, B::sp_mul(b, f)),
            );
            assert(B::sp_add(
                B::sp_add(B::sp_mul(a, c), B::sp_mul(n, B::sp_mul(b, d))),
                B::sp_add(B::sp_mul(n, B::sp_mul(b, f)), B::sp_mul(a, e)),
            ) == B::sp_add(
                B::sp_add(B::sp_mul(a, c), B::sp_mul(n, B::sp_mul(b, d))),
                B::sp_add(B::sp_mul(a, e), B::sp_mul(n, B::sp_mul(b, f))),
            ));
            // second coordinate
            lemma_add_perm4::<B>(
                B::sp_mul(a, d),
                B::sp_mul(a, f),
                B::sp_mul(b, c),
                B::sp_mul(b, e),
            );
            assert(B::sp_add(
                B::sp_add(B::sp_mul(a, d), B::sp_mul(b, c)),
                B::sp_add(B::sp_mul(b, e), B::sp_mul(a, f)),
            ) == B::sp_add(
                B::sp_add(B::sp_mul(a, d), B::sp_mul(b, c)),
                B::sp_add(B::sp_mul(a, f), B::sp_mul(b, e)),
            ));
        }
    }

    fn zero() -> (r: Self) {
        QuadExt { c0: B::zero(), c1: B::zero(), marker: PhantomData }
    }

    fn one() -> (r: Self) {
        QuadExt { c0: B::one(), c1: B::zero(), marker: PhantomData }
    }

    fn dup(&self) -> (r: Self) {
        QuadExt { c0: self.c0.dup(), c1: self.c1.dup(), marker: PhantomData }
    }

    fn add(&self, other: &Self) -> (r: Self) {
        QuadExt { c0: self.c0.add(&other.c0), c1: self.c1.add(&other.c1), marker: PhantomData }
    }

    fn sub(&self, other: &Self) -> (r: Self) {
        QuadExt { c0: self.c0.sub(&other.c0), c1: self.c1.sub(&other.c1), marker: PhantomData }
    }

    fn neg(&self) -> (r: Self) {
        QuadExt { c0: self.c0.neg(), c1: self.c1.neg(), marker: PhantomData }
    }

    fn mul(&self, other: &Self) -> (r: Self) {
        let nr = P::nonresidue();
        let a0b0 = self.c0.mul(&other.c0);
        let a1b1 = self.c1.mul(&other.c1);
        let a0b1 = self.c0.mul(&other.c1);
        let a1b0 = self.c1.mul(&other.c0);
        QuadExt { c0: a0b0.add(&nr.mul(&a1b1)), c1: a0b1.add(&a1b0), marker: PhantomData }
    }

    fn square(&self) -> (r: Self) {
        self.mul(self)
    }

    fn inverse(&self) -> (r: Option<Self>) {
        let zero_el = Self::zero();
        if self.eq_el(&zero_el) {
            proof {
                Self::lemma_unit_nonzero();
            }
            return None;
        }
        // the norm trick: (c0 + c1·α)(c0 - c1·α) = c0² - ν·c1² lies in the
        // base field, so one base-field inversion suffices and scaling the
        // conjugate by the inverted norm gives the inverse
        let nr = P::nonresidue();
        let c0sq = self.c0.square();
        let c1sq = self.c1.square();
        let norm = c0sq.sub(&nr.mul(&c1sq));
        proof {
            assert(norm@ == Self::sp_norm(self@));
        }
        match norm.inverse() {
            None => {
                proof {
                    Self::lemma_wf_valid(self);
                }
                None
            },
            Some(t) => {
                let cand = QuadExt {
                    c0: self.c0.mul(&t),
                    c1: self.c1.mul(&t).neg(),
                    marker: PhantomData,
                };
                proof {
                    Self::lemma_wf_valid(self);
                    B::lemma_wf_valid(&t);
                    lemma_quad_inverse_algebra::<B, P>(self@, t@);
                }
                Some(cand)
            },
        }
    }

    fn eq_el(&self, other: &Self) -> (r: bool) {
        let e0 = self.c0.eq_el(&other.c0);
        let e1 = self.c1.eq_el(&other.c1);
        e0 && e1
    }
}

/// The norm of the zero element is the base field's zero.
proof fn lemma_norm_of_zero<B: Field, P: QuadParams<B>>()
    ensures
        QuadExt::<B, P>::sp_norm(QuadExt::<B, P>::sp_zero()) == B::sp_zero(),
{
    B::lemma_valid_closure();
    P::lemma_nr_valid();
    B::lemma_mul_zero();
    B::lemma_add_zero();
    lemma_neg_zero::<B>();
    let z = B::sp_zero();
    assert(B::sp_mul(z, z) == z);
    assert(B::sp_mul(P::nr(), z) == z);
    assert(B::sp_add(z, z) == z);
}

/// Scaling the conjugate by the inverted norm yields the multiplicative
/// inverse: `(c0 + c1·α) · (c0·t - c1·t·α) == 1` whenever `t` inverts the
/// norm.
proof fn lemma_quad_inverse_algebra<B: Field, P: QuadParams<B>>(v: (B::V, B::V), t: B::V)
    requires
        QuadExt::<B, P>::sp_valid(v),
        B::sp_valid(t),
        B::sp_mul(QuadExt::<B, P>::sp_norm(v), t) == B::sp_one(),
    ensures
        QuadExt::<B, P>::sp_mul(v, (B::sp_mul(v.0, t), B::sp_neg(B::sp_mul(v.1, t))))
            == QuadExt::<B, P>::sp_one(),
{
    B::lemma_valid_closure();
    P::lemma_nr_valid();
    B::lemma_mul_comm();
    B::lemma_mul_assoc();
    B::lemma_mul_distrib();
    B::lemma_add_comm();
    B::lemma_add_neg();
    let (a, b) = v;
    let n = P::nr();
    let aa = B::sp_mul(a, a);
    let bb = B::sp_mul(b, b);
    let nbb = B::sp_mul(n, bb);
    // first coordinate: a·(a·t) + ν·(b·(-(b·t))) == (a² - ν·b²)·t == 1
    assert(B::sp_mul(a, B::sp_mul(a, t)) == B::sp_mul(aa, t));
    lemma_mul_neg::<B>(b, B::sp_mul(b, t));
    assert(B::sp_mul(b, B::sp_mul(b, t)) == B::sp_mul(bb, t));
    lemma_mul_neg::<B>(n, B::sp_mul(bb, t));
    assert(B::sp_mul(n, B::sp_mul(bb, t)) == B::sp_mul(nbb, t));
    lemma_neg_mul::<B>(nbb, t);
    lemma_mul_distrib_right::<B>(aa, B::sp_neg(nbb), t);
    assert(QuadExt::<B, P>::sp_mul(v, (B::sp_mul(v.0, t), B::sp_neg(B::sp_mul(v.1, t)))).0
        == B::sp_mul(QuadExt::<B, P>::sp_norm(v), t));
    // second coordinate: a·(-(b·t)) + b·(a·t) == 0
    lemma_mul_neg::<B>(a, B::sp_mul(b, t));
    assert(B::sp_mul(b, B::sp_mul(a, t)) == B::sp_mul(a, B::sp_mul(b, t))) by {
        assert(B::sp_mul(b, B::sp_mul(a, t)) == B::sp_mul(B::sp_mul(b, a), t));
        assert(B::sp_mul(B::sp_mul(a, b), t) == B::sp_mul(a, B::sp_mul(b, t)));
        assert(B::sp_mul(b, a) == B::sp_mul(a, b));
    }
    let w = B::sp_mul(a, B::sp_mul(b, t));
    assert(B::sp_add(B::sp_neg(w), w) == B::sp_add(w, B::sp_neg(w)));
}

/// Embedding law, negation: negating a base element inside the extension
/// matches base-field negation.
pub proof fn lemma_base_embedding_neg<B: Field, P: QuadParams<B>>(a: B::V)
    requires
        B::sp_valid(a),
    ensures
        QuadExt::<B, P>::sp_neg((a, B::sp_zero())) == (B::sp_neg(a), B::sp_zero()),
{
    lemma_neg_zero::<B>();
}

/// Embedding law, subtraction: subtracting base elements inside the
/// extension matches base-field subtraction.
pub proof fn lemma_base_embedding_sub<B: Field, P: QuadParams<B>>(a: B::V, b: B::V)
    requires
        B::sp_valid(a),
        B::sp_valid(b),
    ensures
        QuadExt::<B, P>::sp_add((a, B::sp_zero()), QuadExt::<B, P>::sp_neg((b, B::sp_zero())))
            == (B::sp_add(a, B::sp_neg(b)), B::sp_zero()),
{
    B::lemma_valid_closure();
    B::lemma_add_zero();
    lemma_neg_zero::<B>();
}

/// Embedding law, additive half: adding two base elements inside the
/// extension (as `c1 = 0` pairs) matches base-field addition.
pub proof fn lemma_base_embedding_add<B: Field, P: QuadParams<B>>(a: B::V, b: B::V)
    requires
        B::sp_valid(a),
        B::sp_valid(b),
    ensures
        QuadExt::<B, P>::sp_add((a, B::sp_zero()), (b, B::sp_zero())) == (
            B::sp_add(a, b),
            B::sp_zero(),
        ),
{
    B::lemma_valid_closure();
    B::lemma_add_zero();
}

/// Embedding law, multiplicative half: multiplying two base elements inside
/// the extension matches base-field multiplication.
pub proof fn lemma_base_embedding_mul<B: Field, P: QuadParams<B>>(a: B::V, b: B::V)
    requires
        B::sp_valid(a),
        B::sp_valid(b),
    ensures
        QuadExt::<B, P>::sp_mul((a, B::sp_zero()), (b, B::sp_zero())) == (
            B::sp_mul(a, b),
            B::sp_zero(),
        ),
{
    B::lemma_valid_closure();
    P::lemma_nr_valid();
    B::lemma_mul_zero();
    B::lemma_mul_comm();
    B::lemma_add_zero();
    B::lemma_add_comm();
    let z = B::sp_zero();
    assert(B::sp_mul(z, b) == z) by {
        assert(B::sp_mul(z, b) == B::sp_mul(b, z));
    }
    assert(B::sp_mul(z, z) == z);
    assert(B::sp_mul(P::nr(), z) == z);
    assert(B::sp_add(B::sp_mul(a, z), z) == z);
    assert(B::sp_mul(a, z) == z);
}

} // verus!
