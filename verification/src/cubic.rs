//! Cubic extension fields: triples `c0 + c1·β + c2·β²` over any base field
//! satisfying the [`Field`] contract, with `β³ = ν`.
//!
//! As with the quadratic construction, the non-residue is a structural
//! precondition and the construction composes: a cubic extension of a
//! quadratic extension yields the degree-6 level of a tower.

use vstd::prelude::*;

use core::marker::PhantomData;

use crate::field::Field;
use crate::field::lemma_add_perm4;
use crate::field::lemma_mul_distrib_right;
use crate::field::lemma_mul_swap_left;

verus! {

/// The defining constant of one cubic extension of `B`.
pub trait CubicParams<B: Field>: Sized {
    /// The non-residue `ν` (an element with no cube root in `B`).
    spec fn nr() -> B::V;

    proof fn lemma_nr_valid()
        ensures
            B::sp_valid(Self::nr()),
    ;

    fn nonresidue() -> (r: B)
        ensures
            r.wf(),
            r@ == Self::nr(),
    ;
}

/// An element `c0 + c1·β + c2·β²` of the cubic extension.
pub struct CubicExt<B: Field, P: CubicParams<B>> {
    pub c0: B,
    pub c1: B,
    pub c2: B,
    pub marker: PhantomData<P>,
}

impl<B: Field, P: CubicParams<B>> View for CubicExt<B, P> {
    type V = (B::V, B::V, B::V);

    open spec fn view(&self) -> (B::V, B::V, B::V) {
        (self.c0@, self.c1@, self.c2@)
    }
}

impl<B: Field, P: CubicParams<B>> CubicExt<B, P> {
    /// The base field embeds as the elements with vanishing `c1` and `c2`.
    pub fn from_base(b: &B) -> (r: Self)
        requires
            b.wf(),
        ensures
            r.wf(),
            r@ == (b@, B::sp_zero(), B::sp_zero()),
    {
        CubicExt { c0: b.dup(), c1: B::zero(), c2: B::zero(), marker: PhantomData }
    }
}

impl<B: Field, P: CubicParams<B>> Field for CubicExt<B, P> {
    open spec fn sp_valid(v: (B::V, B::V, B::V)) -> bool {
        B::sp_valid(v.0) && B::sp_valid(v.1) && B::sp_valid(v.2)
    }

    open spec fn sp_add(a: (B::V, B::V, B::V), b: (B::V, B::V, B::V)) -> (B::V, B::V, B::V) {
        (B::sp_add(a.0, b.0), B::sp_add(a.1, b.1), B::sp_add(a.2, b.2))
    }

    open spec fn sp_mul(a: (B::V, B::V, B::V), b: (B::V, B::V, B::V)) -> (B::V, B::V, B::V) {
        (
            B::sp_add(
                B::sp_mul(a.0, b.0),
                B::sp_mul(P::nr(), B::sp_add(B::sp_mul(a.1, b.2), B::sp_mul(a.2, b.1))),
            ),
            B::sp_add(
                B::sp_add(B::sp_mul(a.0, b.1), B::sp_mul(a.1, b.0)),
                B::sp_mul(P::nr(), B::sp_mul(a.2, b.2)),
            ),
            B::sp_add(
                B::sp_add(B::sp_mul(a.0, b.2), B::sp_mul(a.1, b.1)),
                B::sp_mul(a.2, b.0),
            ),
        )
    }

    open spec fn sp_neg(a: (B::V, B::V, B::V)) -> (B::V, B::V, B::V) {
        (B::sp_neg(a.0), B::sp_neg(a.1), B::sp_neg(a.2))
    }

    open spec fn sp_zero() -> (B::V, B::V, B::V) {
        (B::sp_zero(), B::sp_zero(), B::sp_zero())
    }

    open spec fn sp_one() -> (B::V, B::V, B::V) {
        (B::sp_one(), B::sp_zero(), B::sp_zero())
    }

    open spec fn sp_unit(v: (B::V, B::V, B::V)) -> bool {
        false
    }

    open spec fn wf(&self) -> bool {
        self.c0.wf() && self.c1.wf() && self.c2.wf()
    }

    proof fn lemma_wf_valid(x: &Self) {
        B::lemma_wf_valid(&x.c0);
        B::lemma_wf_valid(&x.c1);
        B::lemma_wf_valid(&x.c2);
    }

    proof fn lemma_valid_closure() {
        B::lemma_valid_closure();
        P::lemma_nr_valid();
    }

    proof fn lemma_unit_nonzero() {
    }

    proof fn lemma_add_comm() {
        B::lemma_valid_closure();
        B::lemma_add_comm();
    }

    proof fn lemma_add_assoc() {
        B::lemma_valid_closure();
        B::lemma_add_assoc();
    }

    proof fn lemma_add_zero() {
        B::lemma_valid_closure();
        B::lemma_add_zero();
    }

    proof fn lemma_add_neg() {
        B::lemma_valid_closure();
        B::lemma_add_neg();
    }

    proof fn lemma_mul_comm() {
        B::lemma_valid_closure();
        P::lemma_nr_valid();
        B::lemma_mul_comm();
        B::lemma_add_comm();
        B::lemma_add_assoc();
        assert forall|x: (B::V, B::V, B::V), y: (B::V, B::V, B::V)|
            Self::sp_valid(x) && Self::sp_valid(y) implies #[trigger] Self::sp_mul(x, y)
            == Self::sp_mul(y, x) by {
            B::lemma_valid_closure();
            B::lemma_mul_comm();
            B::lemma_add_comm();
            B::lemma_add_assoc();
            let (a0, a1, a2) = x;
            let (b0, b1, b2) = y;
            // last coordinate needs its three summands rotated
            let p = B::sp_mul(a0, b2);
            let q = B::sp_mul(a1, b1);
            let r = B::sp_mul(a2, b0);
            assert(B::sp_add(B::sp_add(p, q), r) == B::sp_add(B::sp_add(r, q), p)) by {
                assert(B::sp_add(B::sp_add(p, q), r) == B::sp_add(r, B::sp_add(p, q)));
                assert(B::sp_add(r, B::sp_add(p, q)) == B::sp_add(r, B::sp_add(q, p)));
                assert(B::sp_add(r, B::sp_add(q, p)) == B::sp_add(B::sp_add(r, q), p));
            }
        }
    }

    #[verifier::rlimit(100)]
    proof fn lemma_mul_assoc() {
        B::lemma_valid_closure();
        P::lemma_nr_valid();
        let n = P::nr();
        assert forall|x: (B::V, B::V, B::V), y: (B::V, B::V, B::V), z: (B::V, B::V, B::V)|
            Self::sp_valid(x) && Self::sp_valid(y) && Self::sp_valid(z) implies Self::sp_mul(
            Self::sp_mul(x, y),
            z,
        ) == Self::sp_mul(x, Self::sp_mul(y, z)) by {
            lemma_cubic_assoc_component::<B, P>(x, y, z);
        }
    }

    proof fn lemma_mul_one() {
        B::lemma_valid_closure();
        P::lemma_nr_valid();
        assert forall|a: (B::V, B::V, B::V)| Self::sp_valid(a) implies #[trigger] Self::sp_mul(
            a,
            Self::sp_one(),
        ) == a by {
            B::lemma_valid_closure();
            B::lemma_mul_one();
            B::lemma_mul_zero();
            B::lemma_add_zero();
            B::lemma_add_comm();
            let z = B::sp_zero();
            assert(B::sp_add(B::sp_mul(a.1, z), B::sp_mul(a.2, z)) == z);
            assert(B::sp_mul(P::nr(), z) == z);
            assert(B::sp_add(B::sp_mul(a.0, z), B::sp_mul(a.1, B::sp_one())) == B::sp_add(
                z,
                a.1,
            ));
            assert(B::sp_add(z, a.1) == B::sp_add(a.1, z));
            assert(B::sp_mul(P::nr(), B::sp_mul(a.2, z)) == z);
            assert(B::sp_add(B::sp_mul(a.0, z), B::sp_mul(a.1, z)) == z);
            assert(B::sp_add(z, B::sp_mul(a.2, B::sp_one())) == B::sp_add(a.2, z));
        }
    }

    proof fn lemma_mul_zero() {
        B::lemma_valid_closure();
        P::lemma_nr_valid();
        assert forall|a: (B::V, B::V, B::V)| Self::sp_valid(a) implies #[trigger] Self::sp_mul(
            a,
            Self::sp_zero(),
        ) == Self::sp_zero() by {
            B::lemma_valid_closure();
            B::lemma_mul_zero();
            B::lemma_add_zero();
        }
    }

    proof fn lemma_mul_distrib() {
        B::lemma_valid_closure();
        P::lemma_nr_valid();
        let n = P::nr();
        assert forall|x: (B::V, B::V, B::V), y: (B::V, B::V, B::V), z: (B::V, B::V, B::V)|
            Self::sp_valid(x) && Self::sp_valid(y) && Self::sp_valid(z) implies Self::sp_mul(
            x,
            Self::sp_add(y, z),
        ) == Self::sp_add(Self::sp_mul(x, y), Self::sp_mul(x, z)) by {
            B::lemma_valid_closure();
            B::lemma_mul_distrib();
            B::lemma_add_comm();
            B::lemma_add_assoc();
            let (a0, a1, a2) = x;
            let (b0, b1, b2) = y;
            let (c0, c1, c2) = z;
            // first coordinate
            lemma_add_perm4::<B>(
                B::sp_mul(a1, b2),
                B::sp_mul(a1, c2),
                B::sp_mul(a2, b1),
                B::sp_mul(a2, c1),
            );
            assert(B::sp_add(
                B::sp_add(B::sp_mul(a1, b2), B::sp_mul(a2, b1)),
                B::sp_add(B::sp_mul(a2, c1), B::sp_mul(a1, c2)),
            ) == B::sp_add(
                B::sp_add(B::sp_mul(a1, b2), B::sp_mul(a2, b1)),
                B::sp_add(B::sp_mul(a1, c2), B::sp_mul(a2, c1)),
            ));
            lemma_add_perm4::<B>(
                B::sp_mul(a0, b0),
                B::sp_mul(a0, c0),
                B::sp_mul(n, B::sp_add(B::sp_mul(a1, b2), B::sp_mul(a2, b1))),
                B::sp_mul(n, B::sp_add(B::sp_mul(a1, c2), B::sp_mul(a2, c1))),
            );
            assert(B::sp_add(
                B::sp_add(
                    B::sp_mul(a0, b0),
                    B::sp_mul(n, B::sp_add(B::sp_mul(a1, b2), B::sp_mul(a2, b1))),
                ),
                B::sp_add(
                    B::sp_mul(n, B::sp_add(B::sp_mul(a1, c2), B::sp_mul(a2, c1))),
                    B::sp_mul(a0, c0),
                ),
            ) == Self::sp_add(Self::sp_mul(x, y), Self::sp_mul(x, z)).0);
            // second coordinate
            lemma_add_perm4::<B>(
                B::sp_mul(a0, b1),
                B::sp_mul(a0, c1),
                B::sp_mul(a1, b0),
                B::sp_mul(a1, c0),
            );
            lemma_add_perm4::<B>(
                B::sp_add(B::sp_mul(a0, b1), B::sp_mul(a1, b0)),
                B::sp_add(B::sp_mul(a1, c0), B::sp_mul(a0, c1)),
                B::sp_mul(n, B::sp_mul(a2, b2)),
                B::sp_mul(n, B::sp_mul(a2, c2)),
            );
            assert(B::sp_add(B::sp_mul(a1, c0), B::sp_mul(a0, c1)) == B::sp_add(
                B::sp_mul(a0, c1),
                B::sp_mul(a1, c0),
            ));
            // third coordinate
            lemma_add_perm4::<B>(
                B::sp_mul(a0, b2),
                B::sp_mul(a0, c2),
                B::sp_mul(a1, b1),
                B::sp_mul(a1, c1),
            );
            lemma_add_perm4::<B>(
                B::sp_add(B::sp_mul(a0, b2), B::sp_mul(a1, b1)),
                B::sp_add(B::sp_mul(a1, c1), B::sp_mul(a0, c2)),
                B::sp_mul(a2, b0),
                B::sp_mul(a2, c0),
            );
            assert(B::sp_add(B::sp_mul(a1, c1), B::sp_mul(a0, c2)) == B::sp_add(
                B::sp_mul(a0, c2),
                B::sp_mul(a1, c1),
            ));
        }
    }

    fn zero() -> (r: Self) {
        CubicExt { c0: B::zero(), c1: B::zero(), c2: B::zero(), marker: PhantomData }
    }

    fn one() -> (r: Self) {
        CubicExt { c0: B::one(), c1: B::zero(), c2: B::zero(), marker: PhantomData }
    }

    fn dup(&self) -> (r: Self) {
        CubicExt { c0: self.c0.dup(), c1: self.c1.dup(), c2: self.c2.dup(), marker: PhantomData }
    }

    fn add(&self, other: &Self) -> (r: Self) {
        CubicExt {
            c0: self.c0.add(&other.c0),
            c1: self.c1.add(&other.c1),
            c2: self.c2.add(&other.c2),
            marker: PhantomData,
        }
    }

    fn sub(&self, other: &Self) -> (r: Self) {
        CubicExt {
            c0: self.c0.sub(&other.c0),
            c1: self.c1.sub(&other.c1),
            c2: self.c2.sub(&other.c2),
            marker: PhantomData,
        }
    }

    fn neg(&self) -> (r: Self) {
        CubicExt {
            c0: self.c0.neg(),
            c1: self.c1.neg(),
            c2: self.c2.neg(),
            marker: PhantomData,
        }
    }

    fn mul(&self, other: &Self) -> (r: Self) {
        let nr = P::nonresidue();
        let a0b0 = self.c0.mul(&other.c0);
        let a1b2 = self.c1.mul(&other.c2);
        let a2b1 = self.c2.mul(&other.c1);
        let a0b1 = self.c0.mul(&other.c1);
        let a1b0 = self.c1.mul(&other.c0);
        let a2b2 = self.c2.mul(&other.c2);
        let a0b2 = self.c0.mul(&other.c2);
        let a1b1 = self.c1.mul(&other.c1);
        let a2b0 = self.c2.mul(&other.c0);
        CubicExt {
            c0: a0b0.add(&nr.mul(&a1b2.add(&a2b1))),
            c1: a0b1.add(&a1b0).add(&nr.mul(&a2b2)),
            c2: a0b2.add(&a1b1).add(&a2b0),
            marker: PhantomData,
        }
    }

    fn square(&self) -> (r: Self) {
        self.mul(self)
    }

    fn inverse(&self) -> (r: Option<Self>) {
        let zero_el = Self::zero();
        if self.eq_el(&zero_el) {
            return None;
        }
        // the norm trick for degree three: with s0 = c0² - ν·c1·c2,
        // s1 = ν·c2² - c0·c1 and s2 = c1² - c0·c2, the combination
        // c0·s0 + ν·(c2·s1 + c1·s2) is the norm, a base-field scalar;
        // the candidate (s0·t, s1·t, s2·t) with t the inverted norm is
        // accepted only after multiplying back to one.  No guaranteed
        // success domain is stated at this level (`sp_unit` is empty here):
        // proving that the check always passes on invertible input needs
        // the full cubic norm algebra.
        let nr = P::nonresidue();
        let s0 = self.c0.square().sub(&nr.mul(&self.c1.mul(&self.c2)));
        let s1 = nr.mul(&self.c2.square()).sub(&self.c0.mul(&self.c1));
        let s2 = self.c1.square().sub(&self.c0.mul(&self.c2));
        let norm = self.c0.mul(&s0).add(&nr.mul(&self.c2.mul(&s1).add(&self.c1.mul(&s2))));
        match norm.inverse() {
            None => None,
            Some(t) => {
                let cand = CubicExt {
                    c0: s0.mul(&t),
                    c1: s1.mul(&t),
                    c2: s2.mul(&t),
                    marker: PhantomData,
                };
                let prod = self.mul(&cand);
                let one_el = Self::one();
                if prod.eq_el(&one_el) {
                    Some(cand)
                } else {
                    None
                }
            },
        }
    }

    fn eq_el(&self, other: &Self) -> (r: bool) {
        let e0 = self.c0.eq_el(&other.c0);
        let e1 = self.c1.eq_el(&other.c1);
        let e2 = self.c2.eq_el(&other.c2);
        e0 && e1 && e2
    }
}

/// Associativity of the cubic multiplication formula, proved by expanding
/// both association orders of each coordinate into the same nine canonical
/// triple products and regrouping.
#[verifier::rlimit(100)]
proof fn lemma_cubic_assoc_component<B: Field, P: CubicParams<B>>(
    x: (B::V, B::V, B::V),
    y: (B::V, B::V, B::V),
    z: (B::V, B::V, B::V),
)
    requires
        CubicExt::<B, P>::sp_valid(x),
        CubicExt::<B, P>::sp_valid(y),
        CubicExt::<B, P>::sp_valid(z),
    ensures
        CubicExt::<B, P>::sp_mul(CubicExt::<B, P>::sp_mul(x, y), z) == CubicExt::<B, P>::sp_mul(
            x,
            CubicExt::<B, P>::sp_mul(y, z),
        ),
{
    B::lemma_valid_closure();
    P::lemma_nr_valid();
    B::lemma_mul_comm();
    B::lemma_mul_assoc();
    B::lemma_mul_distrib();
    B::lemma_add_comm();
    B::lemma_add_assoc();
    let n = P::nr();
    let (a0, a1, a2) = x;
    let (b0, b1, b2) = y;
    let (c0, c1, c2) = z;
    // every product of one coordinate from each operand, in canonical
    // right-nested association, with its power of the non-residue applied
    // outermost
    assert forall|p: B::V, q: B::V, r: B::V|
        B::sp_valid(p) && B::sp_valid(q) && B::sp_valid(r) implies #[trigger] B::sp_mul(
        B::sp_mul(p, q),
        r,
    ) == B::sp_mul(p, B::sp_mul(q, r)) by {
        B::lemma_mul_assoc();
    }
    assert forall|p: B::V, q: B::V, r: B::V|
        B::sp_valid(p) && B::sp_valid(q) && B::sp_valid(r) implies #[trigger] B::sp_mul(
        p,
        B::sp_mul(q, r),
    ) == B::sp_mul(q, B::sp_mul(p, r)) by {
        lemma_mul_swap_left::<B>(p, q, r);
    }
    assert forall|p: B::V, q: B::V, r: B::V|
        B::sp_valid(p) && B::sp_valid(q) && B::sp_valid(r) implies #[trigger] B::sp_mul(
        B::sp_add(p, q),
        r,
    ) == B::sp_add(B::sp_mul(p, r), B::sp_mul(q, r)) by {
        lemma_mul_distrib_right::<B>(p, q, r);
    }
    let u = CubicExt::<B, P>::sp_mul(x, y);
    let v = CubicExt::<B, P>::sp_mul(y, z);
    let l = CubicExt::<B, P>::sp_mul(u, z);
    let r = CubicExt::<B, P>::sp_mul(x, v);
    assert(l.0 == r.0);
    assert(l.1 == r.1);
    assert(l.2 == r.2);
}

} // verus!
