//! The field capability shared by every arithmetic layer: prime fields and
//! each extension level expose the same contract, so that towers and
//! generic algorithms (such as exponentiation and the proof verifier) can
//! be written once against it.
//!
//! Every element type carries a mathematical view (`View::V`); the
//! specification-level operations `sp_add`, `sp_mul`, `sp_neg` and the two
//! constants act on views, the executable operations are tied to them, and
//! the field laws are stated — and proved by each implementation — as the
//! `lemma_*` obligations.

use vstd::prelude::*;

use vstd::arithmetic::power2::pow2;

use crate::bigint::BigInt;

verus! {

pub trait Field: View + Sized {
    /// Which views denote field elements.
    spec fn sp_valid(v: Self::V) -> bool;

    spec fn sp_add(a: Self::V, b: Self::V) -> Self::V;

    spec fn sp_mul(a: Self::V, b: Self::V) -> Self::V;

    spec fn sp_neg(a: Self::V) -> Self::V;

    /// The additive identity.
    spec fn sp_zero() -> Self::V;

    /// The multiplicative identity.
    spec fn sp_one() -> Self::V;

    /// The domain on which `inverse` is guaranteed to succeed.  For a
    /// prime-field implementation this holds of every nonzero element of a
    /// prime modulus; for an extension it holds whenever the element's norm
    /// is guaranteed invertible in the base field.
    spec fn sp_unit(v: Self::V) -> bool;

    /// Structural soundness of a concrete element.
    spec fn wf(&self) -> bool;

    /// A well-formed element denotes a field value.
    proof fn lemma_wf_valid(x: &Self)
        requires
            x.wf(),
        ensures
            Self::sp_valid(x@),
    ;

    /// The operations stay within the field, and the field is not trivial.
    proof fn lemma_valid_closure()
        ensures
            forall|a: Self::V, b: Self::V|
                Self::sp_valid(a) && Self::sp_valid(b) ==> Self::sp_valid(
                    #[trigger] Self::sp_add(a, b),
                ),
            forall|a: Self::V, b: Self::V|
                Self::sp_valid(a) && Self::sp_valid(b) ==> Self::sp_valid(
                    #[trigger] Self::sp_mul(a, b),
                ),
            forall|a: Self::V| Self::sp_valid(a) ==> Self::sp_valid(#[trigger] Self::sp_neg(a)),
            Self::sp_valid(Self::sp_zero()),
            Self::sp_valid(Self::sp_one()),
            Self::sp_zero() != Self::sp_one(),
    ;

    /// A guaranteed-invertible element is a valid, nonzero element.
    proof fn lemma_unit_nonzero()
        ensures
            forall|v: Self::V|
                #[trigger] Self::sp_unit(v) ==> Self::sp_valid(v) && v != Self::sp_zero(),
    ;

    /// Addition is commutative.
    proof fn lemma_add_comm()
        ensures
            forall|a: Self::V, b: Self::V|
                Self::sp_valid(a) && Self::sp_valid(b) ==> #[trigger] Self::sp_add(a, b)
                    == Self::sp_add(b, a),
    ;

    /// Addition is associative.
    proof fn lemma_add_assoc()
        ensures
            forall|a: Self::V, b: Self::V, c: Self::V|
                #![trigger Self::sp_add(Self::sp_add(a, b), c)]
                Self::sp_valid(a) && Self::sp_valid(b) && Self::sp_valid(c) ==> Self::sp_add(
                    Self::sp_add(a, b),
                    c,
                ) == Self::sp_add(a, Self::sp_add(b, c)),
    ;

    /// Zero is the additive identity.
    proof fn lemma_add_zero()
        ensures
            forall|a: Self::V|
                Self::sp_valid(a) ==> #[trigger] Self::sp_add(a, Self::sp_zero()) == a,
    ;

    /// Every element cancels against its negation.
    proof fn lemma_add_neg()
        ensures
            forall|a: Self::V|
                Self::sp_valid(a) ==> #[trigger] Self::sp_add(a, Self::sp_neg(a))
                    == Self::sp_zero(),
    ;

    /// Multiplication is commutative.
    proof fn lemma_mul_comm()
        ensures
            forall|a: Self::V, b: Self::V|
                Self::sp_valid(a) && Self::sp_valid(b) ==> #[trigger] Self::sp_mul(a, b)
                    == Self::sp_mul(b, a),
    ;

    /// Multiplication is associative.
    proof fn lemma_mul_assoc()
        ensures
            forall|a: Self::V, b: Self::V, c: Self::V|
                #![trigger Self::sp_mul(Self::sp_mul(a, b), c)]
                Self::sp_valid(a) && Self::sp_valid(b) && Self::sp_valid(c) ==> Self::sp_mul(
                    Self::sp_mul(a, b),
                    c,
                ) == Self::sp_mul(a, Self::sp_mul(b, c)),
    ;

    /// One is the multiplicative identity.
    proof fn lemma_mul_one()
        ensures
            forall|a: Self::V|
                Self::sp_valid(a) ==> #[trigger] Self::sp_mul(a, Self::sp_one()) == a,
    ;

    /// Multiplication by zero annihilates.
    proof fn lemma_mul_zero()
        ensures
            forall|a: Self::V|
                Self::sp_valid(a) ==> #[trigger] Self::sp_mul(a, Self::sp_zero())
                    == Self::sp_zero(),
    ;

    /// Multiplication distributes over addition.
    proof fn lemma_mul_distrib()
        ensures
            forall|a: Self::V, b: Self::V, c: Self::V|
                #![trigger Self::sp_mul(a, Self::sp_add(b, c))]
                Self::sp_valid(a) && Self::sp_valid(b) && Self::sp_valid(c) ==> Self::sp_mul(
                    a,
                    Self::sp_add(b, c),
                ) == Self::sp_add(Self::sp_mul(a, b), Self::sp_mul(a, c)),
    ;

    fn zero() -> (r: Self)
        ensures
            r.wf(),
            r@ == Self::sp_zero(),
    ;

    fn one() -> (r: Self)
        ensures
            r.wf(),
            r@ == Self::sp_one(),
    ;

    /// A fresh element denoting the same value.
    fn dup(&self) -> (r: Self)
        requires
            self.wf(),
        ensures
            r.wf(),
            r@ == self@,
    ;

    fn add(&self, other: &Self) -> (r: Self)
        requires
            self.wf(),
            other.wf(),
        ensures
            r.wf(),
            r@ == Self::sp_add(self@, other@),
    ;

    fn sub(&self, other: &Self) -> (r: Self)
        requires
            self.wf(),
            other.wf(),
        ensures
            r.wf(),
            r@ == Self::sp_add(self@, Self::sp_neg(other@)),
    ;

    fn neg(&self) -> (r: Self)
        requires
            self.wf(),
        ensures
            r.wf(),
            r@ == Self::sp_neg(self@),
    ;

    fn mul(&self, other: &Self) -> (r: Self)
        requires
            self.wf(),
            other.wf(),
        ensures
            r.wf(),
            r@ == Self::sp_mul(self@, other@),
    ;

    /// Value-equivalent to multiplying an element by itself.
    fn square(&self) -> (r: Self)
        requires
            self.wf(),
        ensures
            r.wf(),
            r@ == Self::sp_mul(self@, self@),
    ;

    /// The multiplicative inverse; zero is the only element with none, a
    /// returned inverse really does multiply back to one, and success is
    /// owed on the whole guaranteed domain [`Field::sp_unit`].
    fn inverse(&self) -> (r: Option<Self>)
        requires
            self.wf(),
        ensures
            self@ == Self::sp_zero() ==> r is None,
            Self::sp_unit(self@) ==> r is Some,
            r matches Some(inv) ==> inv.wf() && Self::sp_mul(self@, inv@) == Self::sp_one(),
    ;

    /// Equality of denoted values.
    fn eq_el(&self, other: &Self) -> (r: bool)
        requires
            self.wf(),
            other.wf(),
        ensures
            r == (self@ == other@),
    ;
}

/// Multiplication distributes over addition from the left factor too.
pub proof fn lemma_mul_distrib_right<F: Field>(a: F::V, b: F::V, c: F::V)
    requires
        F::sp_valid(a),
        F::sp_valid(b),
        F::sp_valid(c),
    ensures
        F::sp_mul(F::sp_add(a, b), c) == F::sp_add(F::sp_mul(a, c), F::sp_mul(b, c)),
{
    F::lemma_valid_closure();
    F::lemma_mul_comm();
    F::lemma_mul_distrib();
    assert(F::sp_mul(F::sp_add(a, b), c) == F::sp_mul(c, F::sp_add(a, b)));
    assert(F::sp_mul(c, a) == F::sp_mul(a, c));
    assert(F::sp_mul(c, b) == F::sp_mul(b, c));
}

/// A factor passes inward across another: `a·(n·w) == n·(a·w)`.
pub proof fn lemma_mul_swap_left<F: Field>(a: F::V, n: F::V, w: F::V)
    requires
        F::sp_valid(a),
        F::sp_valid(n),
        F::sp_valid(w),
    ensures
        F::sp_mul(a, F::sp_mul(n, w)) == F::sp_mul(n, F::sp_mul(a, w)),
{
    F::lemma_valid_closure();
    F::lemma_mul_comm();
    F::lemma_mul_assoc();
    assert(F::sp_mul(F::sp_mul(a, n), w) == F::sp_mul(a, F::sp_mul(n, w)));
    assert(F::sp_mul(F::sp_mul(n, a), w) == F::sp_mul(n, F::sp_mul(a, w)));
    assert(F::sp_mul(a, n) == F::sp_mul(n, a));
}

/// Four summands can be regrouped across the middle:
/// `(p+q)+(r+s) == (p+r)+(s+q)`.
pub proof fn lemma_add_perm4<F: Field>(p: F::V, q: F::V, r: F::V, s: F::V)
    requires
        F::sp_valid(p),
        F::sp_valid(q),
        F::sp_valid(r),
        F::sp_valid(s),
    ensures
        F::sp_add(F::sp_add(p, q), F::sp_add(r, s)) == F::sp_add(
            F::sp_add(p, r),
            F::sp_add(s, q),
        ),
{
    F::lemma_valid_closure();
    F::lemma_add_comm();
    F::lemma_add_assoc();
    // both sides flatten to p followed by the same permuted tail
    assert(F::sp_add(F::sp_add(p, q), F::sp_add(r, s)) == F::sp_add(
        p,
        F::sp_add(q, F::sp_add(r, s)),
    ));
    assert(F::sp_add(F::sp_add(p, r), F::sp_add(s, q)) == F::sp_add(
        p,
        F::sp_add(r, F::sp_add(s, q)),
    ));
    assert(F::sp_add(q, F::sp_add(r, s)) == F::sp_add(F::sp_add(q, r), s));
    assert(F::sp_add(F::sp_add(q, r), s) == F::sp_add(F::sp_add(r, q), s));
    assert(F::sp_add(F::sp_add(r, q), s) == F::sp_add(r, F::sp_add(q, s)));
    assert(F::sp_add(q, s) == F::sp_add(s, q));
}

/// Additive inverses are unique: whatever cancels `x` is `x`'s negation.
pub proof fn lemma_neg_unique<F: Field>(x: F::V, y: F::V)
    requires
        F::sp_valid(x),
        F::sp_valid(y),
        F::sp_add(x, y) == F::sp_zero(),
    ensures
        y == F::sp_neg(x),
{
    F::lemma_valid_closure();
    F::lemma_add_comm();
    F::lemma_add_assoc();
    F::lemma_add_zero();
    F::lemma_add_neg();
    // y == y + (x + (-x)) == (y + x) + (-x) == 0 + (-x) == -x
    assert(F::sp_add(y, F::sp_add(x, F::sp_neg(x))) == y);
    assert(F::sp_add(F::sp_add(y, x), F::sp_neg(x)) == F::sp_add(y, F::sp_add(x, F::sp_neg(x))));
    assert(F::sp_add(y, x) == F::sp_add(x, y));
    assert(F::sp_add(F::sp_zero(), F::sp_neg(x)) == F::sp_add(F::sp_neg(x), F::sp_zero()));
}

/// Negation passes out of a product: `a·(-b) == -(a·b)`.
pub proof fn lemma_mul_neg<F: Field>(a: F::V, b: F::V)
    requires
        F::sp_valid(a),
        F::sp_valid(b),
    ensures
        F::sp_mul(a, F::sp_neg(b)) == F::sp_neg(F::sp_mul(a, b)),
{
    F::lemma_valid_closure();
    F::lemma_add_neg();
    F::lemma_mul_distrib();
    F::lemma_mul_zero();
    // a·b + a·(-b) == a·(b + (-b)) == a·0 == 0, so a·(-b) cancels a·b
    assert(F::sp_mul(a, F::sp_add(b, F::sp_neg(b))) == F::sp_add(
        F::sp_mul(a, b),
        F::sp_mul(a, F::sp_neg(b)),
    ));
    lemma_neg_unique::<F>(F::sp_mul(a, b), F::sp_mul(a, F::sp_neg(b)));
}

/// Negation passes out of the left factor too.
pub proof fn lemma_neg_mul<F: Field>(a: F::V, b: F::V)
    requires
        F::sp_valid(a),
        F::sp_valid(b),
    ensures
        F::sp_mul(F::sp_neg(a), b) == F::sp_neg(F::sp_mul(a, b)),
{
    F::lemma_valid_closure();
    F::lemma_mul_comm();
    lemma_mul_neg::<F>(b, a);
    assert(F::sp_mul(F::sp_neg(a), b) == F::sp_mul(b, F::sp_neg(a)));
    assert(F::sp_mul(b, a) == F::sp_mul(a, b));
}

/// The negation of zero is zero.
pub proof fn lemma_neg_zero<F: Field>()
    ensures
        F::sp_neg(F::sp_zero()) == F::sp_zero(),
{
    F::lemma_valid_closure();
    F::lemma_add_neg();
    F::lemma_add_comm();
    F::lemma_add_zero();
    assert(F::sp_add(F::sp_zero(), F::sp_neg(F::sp_zero())) == F::sp_zero());
    assert(F::sp_add(F::sp_zero(), F::sp_neg(F::sp_zero())) == F::sp_add(
        F::sp_neg(F::sp_zero()),
        F::sp_zero(),
    ));
}

/// A negation absorbs the matching element from an adjacent sum:
/// `-x + (x + -y) == -y`.
pub proof fn lemma_neg_absorb<F: Field>(x: F::V, y: F::V)
    requires
        F::sp_valid(x),
        F::sp_valid(y),
    ensures
        F::sp_add(F::sp_neg(x), F::sp_add(x, F::sp_neg(y))) == F::sp_neg(y),
{
    F::lemma_valid_closure();
    F::lemma_add_comm();
    F::lemma_add_assoc();
    F::lemma_add_zero();
    F::lemma_add_neg();
    assert(F::sp_add(F::sp_add(F::sp_neg(x), x), F::sp_neg(y)) == F::sp_add(
        F::sp_neg(x),
        F::sp_add(x, F::sp_neg(y)),
    ));
    assert(F::sp_add(F::sp_neg(x), x) == F::sp_add(x, F::sp_neg(x)));
    assert(F::sp_add(F::sp_zero(), F::sp_neg(y)) == F::sp_add(F::sp_neg(y), F::sp_zero()));
}

/// The `k`-th power of a view under a field's multiplication.
pub open spec fn sp_pow<F: Field>(v: F::V, k: nat) -> F::V
    decreases k,
{
    if k == 0 {
        F::sp_one()
    } else {
        F::sp_mul(sp_pow::<F>(v, (k - 1) as nat), v)
    }
}

pub proof fn lemma_sp_pow_valid<F: Field>(v: F::V, k: nat)
    requires
        F::sp_valid(v),
    ensures
        F::sp_valid(sp_pow::<F>(v, k)),
    decreases k,
{
    F::lemma_valid_closure();
    if k > 0 {
        lemma_sp_pow_valid::<F>(v, (k - 1) as nat);
    }
}

/// Powers compose additively in the exponent.
pub proof fn lemma_sp_pow_adds<F: Field>(v: F::V, a: nat, b: nat)
    requires
        F::sp_valid(v),
    ensures
        sp_pow::<F>(v, a + b) == F::sp_mul(sp_pow::<F>(v, a), sp_pow::<F>(v, b)),
    decreases b,
{
    F::lemma_valid_closure();
    lemma_sp_pow_valid::<F>(v, a);
    if b == 0 {
        F::lemma_mul_one();
    } else {
        lemma_sp_pow_adds::<F>(v, a, (b - 1) as nat);
        lemma_sp_pow_valid::<F>(v, (b - 1) as nat);
        F::lemma_mul_assoc();
        assert(sp_pow::<F>(v, (a + b - 1) as nat) == F::sp_mul(
            sp_pow::<F>(v, a),
            sp_pow::<F>(v, (b - 1) as nat),
        ));
    }
}

/// Binary (square-and-multiply) exponentiation against the field
/// interface; correct for any exponent, including zero.
pub fn field_pow<F: Field>(base: &F, e: &BigInt) -> (r: F)
    requires
        base.wf(),
        e.limbs@.len() <= 0x100_0000,
    ensures
        r.wf(),
        r@ == sp_pow::<F>(base@, e.value()),
{
    let nb: usize = 64 * e.limbs.len();
    let mut acc = F::one();
    proof {
        crate::bigint::lemma_value_bound(e.limbs@);
        vstd::arithmetic::div_mod::lemma_basic_div(e.value() as int, pow2(nb as nat) as int);
        vstd::arithmetic::power2::lemma_pow2_pos(nb as nat);
    }
    for i in 0..nb
        invariant
            base.wf(),
            acc.wf(),
            nb == 64 * e.limbs@.len(),
            acc@ == sp_pow::<F>(base@, e.value() / pow2((nb - i) as nat)),
    {
        let ghost h: nat = e.value() / pow2((nb - i) as nat);
        let sq = acc.square();
        let bit = e.get_bit(nb - 1 - i);
        let acc2 = if bit {
            sq.mul(base)
        } else {
            sq
        };
        acc = acc2;
        proof {
            F::lemma_wf_valid(base);
            let h2: nat = e.value() / pow2((nb - i - 1) as nat);
            let b: nat = if bit {
                1
            } else {
                0
            };
            assert(h2 == 2 * h + b) by {
                vstd::arithmetic::power2::lemma_pow2_adds((nb - i - 1) as nat, 1);
                vstd::arithmetic::power2::lemma2_to64();
                vstd::arithmetic::power2::lemma_pow2_pos((nb - i - 1) as nat);
                vstd::arithmetic::div_mod::lemma_div_denominator(
                    e.value() as int,
                    pow2((nb - i - 1) as nat) as int,
                    2,
                );
                vstd::arithmetic::div_mod::lemma_fundamental_div_mod(h2 as int, 2);
            }
            lemma_sp_pow_adds::<F>(base@, h, h);
            if bit {
                assert(sp_pow::<F>(base@, (2 * h + 1) as nat) == F::sp_mul(
                    sp_pow::<F>(base@, 2 * h),
                    base@,
                ));
            }
        }
    }
    proof {
        vstd::arithmetic::power2::lemma2_to64();
        assert(e.value() / pow2(0) == e.value()) by {
            vstd::arithmetic::div_mod::lemma_div_basics(e.value() as int);
        }
    }
    acc
}

} // verus!
