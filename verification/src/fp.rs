//! Prime fields, generic over a modulus descriptor.
//!
//! An element stores its canonical representative — the unique integer in
//! `[0, M)` — as a fixed-width [`BigInt`]; the element's view is that
//! number.  Multiplication interleaves doubling and conditional addition
//! over the full fixed bit width: the iteration count is fixed by the
//! width and no division by the modulus is ever performed, though the
//! conditional additions and subtractions do branch on operand bits, so
//! no freedom from data-dependent branching is claimed here.

use vstd::prelude::*;

use core::marker::PhantomData;
use vstd::arithmetic::div_mod::*;
use vstd::arithmetic::mul::*;
use vstd::arithmetic::power2::*;

use crate::bigint::BigInt;
use crate::bigint::lemma_value_bound;
use crate::field::Field;

verus! {

/// A modulus descriptor: the limb width and the prime modulus, as
/// specification values and as runtime data.
pub trait FpParams: Sized {
    /// The width, in limbs, of every element's representative.
    spec fn limbs() -> nat;

    /// The (odd, at least 3) modulus.
    spec fn modulus() -> nat;

    proof fn lemma_facts()
        ensures
            1 <= Self::limbs() <= 0x100_0000,
            Self::modulus() >= 3,
            Self::modulus() % 2 == 1,
            Self::modulus() < pow2((64 * Self::limbs()) as nat),
    ;

    fn limb_count() -> (n: usize)
        ensures
            n as nat == Self::limbs(),
    ;

    fn modulus_repr() -> (m: BigInt)
        ensures
            m.wf(Self::limbs()),
            m.value() == Self::modulus(),
    ;
}

/// Euler's criterion at `v`: `v^((m-1)/2)` is 1 or `m - 1` modulo `m`.
/// When `m` is prime this holds of every nonzero element, so it carves out
/// exactly the domain on which inversion by exponentiation must succeed —
/// and it pins the value of `v^(m-1)` to 1 without any appeal to number
/// theory beyond the power laws.
pub open spec fn euler_unit(v: nat, m: nat) -> bool {
    let e = vstd::arithmetic::power::pow(v as int, ((m - 1) as nat) / 2) % (m as int);
    e == 1 || e == m - 1
}

/// A prime-field element in canonical representation.
pub struct Fp<P: FpParams> {
    pub repr: BigInt,
    pub marker: PhantomData<P>,
}

impl<P: FpParams> View for Fp<P> {
    type V = nat;

    open spec fn view(&self) -> nat {
        self.repr.value()
    }
}

impl<P: FpParams> Fp<P> {
    /// Strict ordering of canonical residues, compared as unsigned
    /// integers.
    pub fn lt(&self, other: &Fp<P>) -> (r: bool)
        requires
            self.wf(),
            other.wf(),
        ensures
            r == (self@ < other@),
    {
        self.repr.lt(&other.repr)
    }

    /// An element from a one-limb value already below the modulus.
    pub fn from_u64(x: u64) -> (r: Fp<P>)
        requires
            (x as nat) < P::modulus(),
        ensures
            r.wf(),
            r@ == x as nat,
    {
        proof {
            P::lemma_facts();
        }
        Fp { repr: BigInt::from_u64(x, P::limb_count()), marker: PhantomData }
    }
}

impl<P: FpParams> Field for Fp<P> {
    open spec fn sp_valid(v: nat) -> bool {
        v < P::modulus()
    }

    open spec fn sp_add(a: nat, b: nat) -> nat {
        (a + b) % P::modulus()
    }

    open spec fn sp_mul(a: nat, b: nat) -> nat {
        (a * b) % P::modulus()
    }

    open spec fn sp_neg(a: nat) -> nat {
        (((P::modulus() - (a % P::modulus())) as nat) % P::modulus()) as nat
    }

    open spec fn sp_zero() -> nat {
        0
    }

    open spec fn sp_one() -> nat {
        1
    }

    open spec fn sp_unit(v: nat) -> bool {
        v < P::modulus() && euler_unit(v, P::modulus())
    }

    open spec fn wf(&self) -> bool {
        &&& self.repr.wf(P::limbs())
        &&& self.repr.value() < P::modulus()
    }

    proof fn lemma_wf_valid(x: &Self) {
    }

    proof fn lemma_unit_nonzero() {
        P::lemma_facts();
        let m = P::modulus();
        assert forall|v: nat| #[trigger] Self::sp_unit(v) implies v < m && v != 0 by {
            if v == 0 {
                vstd::arithmetic::power::lemma0_pow(((m - 1) as nat) / 2);
                lemma_small_mod(0, m);
            }
        }
    }

    proof fn lemma_valid_closure() {
        P::lemma_facts();
        let m = P::modulus();
        assert forall|a: nat, b: nat| a < m && b < m implies #[trigger] Self::sp_add(a, b) < m by {
            lemma_mod_bound((a + b) as int, m as int);
        }
        assert forall|a: nat, b: nat| a < m && b < m implies #[trigger] Self::sp_mul(a, b) < m by {
            lemma_mod_bound((a * b) as int, m as int);
        }
        assert forall|a: nat| a < m implies #[trigger] Self::sp_neg(a) < m by {
            lemma_mod_bound((m - (a % m)) as int, m as int);
        }
    }

    proof fn lemma_add_comm() {
    }

    proof fn lemma_add_assoc() {
        P::lemma_facts();
        let m = P::modulus();
        assert forall|a: nat, b: nat, c: nat| a < m && b < m && c < m implies Self::sp_add(
            Self::sp_add(a, b),
            c,
        ) == Self::sp_add(a, Self::sp_add(b, c)) by {
            lemma_small_mod(a, m);
            lemma_small_mod(c, m);
            lemma_add_mod_noop((a + b) as int, c as int, m as int);
            lemma_add_mod_noop(a as int, (b + c) as int, m as int);
        }
    }

    proof fn lemma_add_zero() {
        P::lemma_facts();
        let m = P::modulus();
        assert forall|a: nat| a < m implies #[trigger] Self::sp_add(a, 0) == a by {
            lemma_small_mod(a, m);
        }
    }

    proof fn lemma_add_neg() {
        P::lemma_facts();
        let m = P::modulus();
        assert forall|a: nat| a < m implies #[trigger] Self::sp_add(a, Self::sp_neg(a)) == 0nat by {
            lemma_small_mod(a, m);
            lemma_mod_self_0(m as int);
            if a == 0 {
                lemma_small_mod(0, m);
            } else {
                lemma_small_mod((m - a) as nat, m);
            }
        }
    }

    proof fn lemma_mul_comm() {
    }

    proof fn lemma_mul_assoc() {
        P::lemma_facts();
        let m = P::modulus();
        assert forall|a: nat, b: nat, c: nat| a < m && b < m && c < m implies Self::sp_mul(
            Self::sp_mul(a, b),
            c,
        ) == Self::sp_mul(a, Self::sp_mul(b, c)) by {
            lemma_mul_mod_noop_left((a * b) as int, c as int, m as int);
            lemma_mul_mod_noop_right(a as int, (b * c) as int, m as int);
            lemma_mul_is_associative(a as int, b as int, c as int);
        }
    }

    proof fn lemma_mul_one() {
        P::lemma_facts();
        let m = P::modulus();
        assert forall|a: nat| a < m implies #[trigger] Self::sp_mul(a, 1) == a by {
            lemma_small_mod(a, m);
        }
    }

    proof fn lemma_mul_zero() {
        P::lemma_facts();
        let m = P::modulus();
        assert forall|a: nat| a < m implies #[trigger] Self::sp_mul(a, 0) == 0nat by {
            lemma_small_mod(0, m);
        }
    }

    proof fn lemma_mul_distrib() {
        P::lemma_facts();
        let m = P::modulus();
        assert forall|a: nat, b: nat, c: nat| a < m && b < m && c < m implies Self::sp_mul(
            a,
            Self::sp_add(b, c),
        ) == Self::sp_add(Self::sp_mul(a, b), Self::sp_mul(a, c)) by {
            lemma_mul_mod_noop_right(a as int, (b + c) as int, m as int);
            lemma_mul_is_distributive_add(a as int, b as int, c as int);
            lemma_add_mod_noop((a * b) as int, (a * c) as int, m as int);
        }
    }

    fn zero() -> (r: Self) {
        proof {
            P::lemma_facts();
        }
        Fp { repr: BigInt::zero(P::limb_count()), marker: PhantomData }
    }

    fn one() -> (r: Self) {
        proof {
            P::lemma_facts();
        }
        Fp { repr: BigInt::from_u64(1, P::limb_count()), marker: PhantomData }
    }

    fn dup(&self) -> (r: Self) {
        Fp { repr: self.repr.dup(), marker: PhantomData }
    }

    fn add(&self, other: &Self) -> (r: Self) {
        proof {
            P::lemma_facts();
        }
        let ghost m = P::modulus();
        let mrepr = P::modulus_repr();
        let (s, carry) = self.repr.add_with_carry(&other.repr);
        if carry {
            proof {
                lemma_value_bound(s.limbs@);
            }
            let (d, _) = s.sub_with_borrow(&mrepr);
            proof {
                lemma_value_bound(d.limbs@);
                assert(d.value() == self@ + other@ - m);
                assert(((self@ + other@) % m) == self@ + other@ - m) by {
                    lemma_mod_sub_multiples_vanish((self@ + other@) as int, m as int);
                    lemma_small_mod((self@ + other@ - m) as nat, m);
                }
            }
            Fp { repr: d, marker: PhantomData }
        } else {
            let ge = !s.lt(&mrepr);
            if ge {
                let (d, _) = s.sub_with_borrow(&mrepr);
                proof {
                    assert(((self@ + other@) % m) == self@ + other@ - m) by {
                        lemma_mod_sub_multiples_vanish((self@ + other@) as int, m as int);
                        lemma_small_mod((self@ + other@ - m) as nat, m);
                    }
                }
                Fp { repr: d, marker: PhantomData }
            } else {
                proof {
                    lemma_small_mod((self@ + other@) as nat, m);
                }
                Fp { repr: s, marker: PhantomData }
            }
        }
    }

    fn sub(&self, other: &Self) -> (r: Self) {
        proof {
            P::lemma_facts();
        }
        let ghost m = P::modulus();
        let ghost a = self@;
        let ghost b = other@;
        let mrepr = P::modulus_repr();
        let (d, borrow) = self.repr.sub_with_borrow(&other.repr);
        let out = if borrow {
            let (d2, c2) = d.add_with_carry(&mrepr);
            proof {
                lemma_value_bound(d2.limbs@);
                if !c2 {
                    assert(false);
                }
                assert(d2.value() == a - b + m);
            }
            Fp { repr: d2, marker: PhantomData }
        } else {
            Fp { repr: d, marker: PhantomData }
        };
        proof {
            // relate the branchwise result to addition of the negation
            assert(out@ == Self::sp_add(a, Self::sp_neg(b))) by {
                lemma_small_mod(a, m);
                lemma_small_mod(b, m);
                lemma_mod_self_0(m as int);
                if b == 0 {
                    lemma_small_mod(a, m);
                } else {
                    lemma_small_mod((m - b) as nat, m);
                    if a >= b {
                        lemma_mod_add_multiples_vanish((a - b) as int, m as int);
                        lemma_small_mod((a - b) as nat, m);
                    } else {
                        lemma_small_mod((a + m - b) as nat, m);
                    }
                }
            }
        }
        out
    }

    fn neg(&self) -> (r: Self) {
        proof {
            P::lemma_facts();
        }
        let ghost m = P::modulus();
        let mrepr = P::modulus_repr();
        if self.repr.is_zero() {
            proof {
                lemma_mod_self_0(m as int);
                lemma_small_mod(0, m);
            }
            Self::zero()
        } else {
            let (d, _) = mrepr.sub_with_borrow(&self.repr);
            proof {
                lemma_small_mod(self@, m);
                lemma_small_mod((m - self@) as nat, m);
            }
            Fp { repr: d, marker: PhantomData }
        }
    }

    fn mul(&self, other: &Self) -> (r: Self) {
        proof {
            P::lemma_facts();
        }
        let ghost m = P::modulus();
        let n = P::limb_count();
        let nb: usize = 64 * n;
        let mut acc = Self::zero();
        proof {
            lemma_value_bound(other.repr.limbs@);
            lemma_basic_div(other@ as int, pow2((64 * P::limbs()) as nat) as int);
            lemma_pow2_pos((64 * P::limbs()) as nat);
            lemma_small_mod(0, m);
            assert(other@ / pow2((64 * P::limbs()) as nat) == 0);
            assert(self@ * 0 == 0) by (nonlinear_arith);
            assert(acc@ == (self@ * (other@ / pow2(((64 * n) - 0) as nat))) % P::modulus());
        }
        for i in 0..nb
            invariant
                self.wf(),
                other.wf(),
                acc.wf(),
                nb == 64 * P::limbs(),
                acc@ == (self@ * (other@ / pow2((nb - i) as nat))) % P::modulus(),
        {
            let ghost a = self@;
            let ghost h: nat = other@ / pow2((nb - i) as nat);
            let doubled = acc.add(&acc);
            let bit = other.repr.get_bit(nb - 1 - i);
            let acc2 = if bit {
                doubled.add(self)
            } else {
                doubled
            };
            acc = acc2;
            proof {
                P::lemma_facts();
                let m = P::modulus();
                let h2: nat = other@ / pow2((nb - i - 1) as nat);
                let b: nat = if bit {
                    1
                } else {
                    0
                };
                assert(h2 == 2 * h + b) by {
                    lemma_pow2_adds((nb - i - 1) as nat, 1);
                    lemma2_to64();
                    lemma_pow2_pos((nb - i - 1) as nat);
                    lemma_div_denominator(other@ as int, pow2((nb - i - 1) as nat) as int, 2);
                    lemma_fundamental_div_mod(h2 as int, 2);
                }
                // doubling then (optionally) adding the multiplicand tracks
                // the next partial product
                assert(doubled@ == (2 * (a * h)) % m) by {
                    lemma_mul_mod_noop_right(2, (a * h) as int, m as int);
                }
                if bit {
                    assert(acc@ == (2 * (a * h) + a) % m) by {
                        lemma_small_mod(a, m);
                        lemma_add_mod_noop((2 * (a * h)) as int, a as int, m as int);
                    }
                }
                assert(a * h2 == 2 * (a * h) + b * a) by (nonlinear_arith)
                    requires
                        h2 == 2 * h + b,
                ;
            }
        }
        proof {
            lemma2_to64();
            assert(other@ / pow2(0) == other@) by {
                lemma_div_basics(other@ as int);
            }
        }
        acc
    }

    fn square(&self) -> (r: Self) {
        self.mul(self)
    }

    fn inverse(&self) -> (r: Option<Self>) {
        proof {
            P::lemma_facts();
        }
        if self.repr.is_zero() {
            proof {
                if Self::sp_unit(0) {
                    vstd::arithmetic::power::lemma0_pow(((P::modulus() - 1) as nat) / 2);
                    lemma_small_mod(0, P::modulus());
                }
            }
            return None;
        }
        let mrepr = P::modulus_repr();
        let two = BigInt::from_u64(2, P::limb_count());
        let (mm2, _) = mrepr.sub_with_borrow(&two);
        // candidate by square-and-multiply with exponent M - 2; it is
        // accepted only if it multiplies back to one, which the Euler
        // criterion guarantees
        let n = P::limb_count();
        let nb: usize = 64 * n;
        let mut cand = Self::one();
        proof {
            lemma_value_bound(mm2.limbs@);
            lemma_pow2_pos((64 * P::limbs()) as nat);
            lemma_basic_div(mm2.value() as int, pow2((64 * P::limbs()) as nat) as int);
            vstd::arithmetic::power::lemma_pow0(self@ as int);
            lemma_small_mod(1, P::modulus());
        }
        for i in 0..nb
            invariant
                self.wf(),
                cand.wf(),
                nb == 64 * P::limbs(),
                mm2.limbs@.len() == P::limbs(),
                mm2.value() == P::modulus() - 2,
                cand@ as int == vstd::arithmetic::power::pow(
                    self@ as int,
                    mm2.value() / pow2((nb - i) as nat),
                ) % (P::modulus() as int),
        {
            let ghost v = self@ as int;
            let ghost h: nat = mm2.value() / pow2((nb - i) as nat);
            let sq = cand.square();
            let bit = mm2.get_bit(nb - 1 - i);
            let acc2 = if bit {
                sq.mul(self)
            } else {
                sq
            };
            let ghost cand_old = cand@;
            cand = acc2;
            proof {
                P::lemma_facts();
                let m = P::modulus() as int;
                let h2: nat = mm2.value() / pow2((nb - i - 1) as nat);
                let b: nat = if bit {
                    1
                } else {
                    0
                };
                assert(h2 == 2 * h + b) by {
                    lemma_pow2_adds((nb - i - 1) as nat, 1);
                    lemma2_to64();
                    lemma_pow2_pos((nb - i - 1) as nat);
                    lemma_div_denominator(mm2.value() as int, pow2((nb - i - 1) as nat) as int, 2);
                    lemma_fundamental_div_mod(h2 as int, 2);
                }
                let ph = vstd::arithmetic::power::pow(v, h);
                lemma_fp_pow_nonneg(v, h);
                assert(sq@ as int == (ph * ph) % m) by {
                    lemma_mul_mod_noop_general(ph, ph, m);
                }
                vstd::arithmetic::power::lemma_pow_adds(v, h, h);
                if bit {
                    assert(acc2@ as int == (vstd::arithmetic::power::pow(v, 2 * h) * v) % m) by {
                        lemma_small_mod(self@, P::modulus());
                        lemma_mul_mod_noop_left(
                            vstd::arithmetic::power::pow(v, 2 * h),
                            v,
                            m,
                        );
                    }
                    vstd::arithmetic::power::lemma_pow_adds(v, 2 * h, 1);
                    vstd::arithmetic::power::lemma_pow1(v);
                }
            }
        }
        proof {
            lemma2_to64();
            assert(mm2.value() / pow2(0) == mm2.value()) by {
                lemma_div_basics(mm2.value() as int);
            }
        }
        let prod = self.mul(&cand);
        let one_el = Self::one();
        proof {
            // on the Euler domain the product is exactly one:
            // v · v^(m-2) == v^(m-1) == (v^((m-1)/2))², and the square of
            // either 1 or m-1 is 1 modulo m
            if Self::sp_unit(self@) {
                P::lemma_facts();
                let m = P::modulus() as int;
                let v = self@ as int;
                let half: nat = ((P::modulus() - 1) as nat) / 2;
                let e = vstd::arithmetic::power::pow(v, half);
                assert(prod@ as int == (v * vstd::arithmetic::power::pow(v, (P::modulus() - 2) as nat))
                    % m) by {
                    lemma_mul_mod_noop_right(
                        v,
                        vstd::arithmetic::power::pow(v, (P::modulus() - 2) as nat),
                        m,
                    );
                }
                assert(v * vstd::arithmetic::power::pow(v, (P::modulus() - 2) as nat)
                    == vstd::arithmetic::power::pow(v, (P::modulus() - 1) as nat)) by {
                    vstd::arithmetic::power::lemma_pow_adds(v, 1, (P::modulus() - 2) as nat);
                    vstd::arithmetic::power::lemma_pow1(v);
                }
                assert(half + half == P::modulus() - 1) by {
                    lemma_fundamental_div_mod(P::modulus() as int, 2);
                    lemma_fundamental_div_mod_converse(
                        (P::modulus() - 1) as int,
                        2,
                        (P::modulus() as int) / 2,
                        0,
                    );
                }
                vstd::arithmetic::power::lemma_pow_adds(v, half, half);
                lemma_fp_pow_nonneg(v, half);
                assert(vstd::arithmetic::power::pow(v, (P::modulus() - 1) as nat) % m == ((e % m) * (
                e % m)) % m) by {
                    lemma_mul_mod_noop_general(e, e, m);
                }
                assert(e % m == 1 || e % m == m - 1);
                if e % m == 1 {
                    assert(((e % m) * (e % m)) % m == 1int % m);
                } else {
                    assert((m - 1) * (m - 1) == m * (m - 2) + 1) by (nonlinear_arith);
                    lemma_mod_multiples_vanish(m - 2, 1, m);
                    assert(((e % m) * (e % m)) % m == (m * (m - 2) + 1) % m);
                }
                lemma_small_mod(1, P::modulus());
                assert(prod@ as int == vstd::arithmetic::power::pow(v, (P::modulus() - 1) as nat)
                    % m);
                assert(vstd::arithmetic::power::pow(v, (P::modulus() - 1) as nat) == e * e);
                assert((e * e) % m == ((e % m) * (e % m)) % m);
                assert(((e % m) * (e % m)) % m == 1);
                assert(prod@ == 1nat);
            }
        }
        if prod.eq_el(&one_el) {
            Some(cand)
        } else {
            None
        }
    }

    fn eq_el(&self, other: &Self) -> (r: bool) {
        self.repr.eq_val(&other.repr)
    }
}

/// The three classes an element falls into under the Euler criterion.
#[derive(Clone, Copy, Debug, PartialEq, Eq, Structural)]
pub enum LegendreSymbol {
    Zero,
    QuadraticResidue,
    QuadraticNonResidue,
}

/// Classification by `v^((m-1)/2) mod m`, compared against one.
pub open spec fn legendre_spec(v: nat, m: nat) -> LegendreSymbol {
    if v == 0 {
        LegendreSymbol::Zero
    } else if vstd::arithmetic::power::pow(v as int, ((m - 1) as nat) / 2) % (m as int) == 1 {
        LegendreSymbol::QuadraticResidue
    } else {
        LegendreSymbol::QuadraticNonResidue
    }
}

/// Powers of a non-negative base are non-negative.
pub proof fn lemma_fp_pow_nonneg(v: int, k: nat)
    requires
        v >= 0,
    ensures
        vstd::arithmetic::power::pow(v, k) >= 0,
{
    if k == 0 {
        vstd::arithmetic::power::lemma_pow0(v);
    } else if v == 0 {
        vstd::arithmetic::power::lemma0_pow(k);
    } else {
        vstd::arithmetic::power::lemma_pow_positive(v, k);
    }
}

/// The abstract field power of a prime-field view is ordinary modular
/// exponentiation.
pub proof fn lemma_fp_pow<P: FpParams>(v: nat, k: nat)
    requires
        v < P::modulus(),
    ensures
        crate::field::sp_pow::<Fp<P>>(v, k) as int == vstd::arithmetic::power::pow(v as int, k) % (
        P::modulus() as int),
    decreases k,
{
    P::lemma_facts();
    let m = P::modulus();
    if k == 0 {
        lemma_small_mod(1, m);
        vstd::arithmetic::power::lemma_pow0(v as int);
    } else {
        lemma_fp_pow::<P>(v, (k - 1) as nat);
        let pk1 = vstd::arithmetic::power::pow(v as int, (k - 1) as nat);
        assert(pk1 >= 0) by {
            if k == 1 {
                vstd::arithmetic::power::lemma_pow0(v as int);
            } else if v == 0 {
                vstd::arithmetic::power::lemma0_pow((k - 1) as nat);
            } else {
                vstd::arithmetic::power::lemma_pow_positive(v as int, (k - 1) as nat);
            }
        }
        assert(vstd::arithmetic::power::pow(v as int, k) == pk1 * v) by {
            vstd::arithmetic::power::lemma_pow1(v as int);
            vstd::arithmetic::power::lemma_pow_adds(v as int, (k - 1) as nat, 1);
        }
        lemma_mul_mod_noop_left(pk1, v as int, m as int);
        let skm1: nat = crate::field::sp_pow::<Fp<P>>(v, (k - 1) as nat);
        assert(crate::field::sp_pow::<Fp<P>>(v, k) == (skm1 * v) % m);
        assert(skm1 as int == pk1 % (m as int));
        assert(((pk1 % (m as int)) * v) % (m as int) == (pk1 * v) % (m as int));
        assert((skm1 as int) * (v as int) == (pk1 % (m as int)) * v);
        assert(((skm1 * v) % m) as int == ((skm1 as int) * (v as int)) % (m as int));
        assert(crate::field::sp_pow::<Fp<P>>(v, k) as int == (pk1 * v) % (m as int));
    }
}

impl<P: FpParams> Fp<P> {
    /// Whether this element is zero, a square, or a non-square, computed by
    /// raising it to `(M-1)/2`.
    pub fn legendre(&self) -> (r: LegendreSymbol)
        requires
            self.wf(),
        ensures
            r == legendre_spec(self@, P::modulus()),
    {
        proof {
            P::lemma_facts();
        }
        let ghost m = P::modulus();
        if self.repr.is_zero() {
            return LegendreSymbol::Zero;
        }
        let e = P::modulus_repr().shr1();
        proof {
            // for odd M, M/2 equals (M-1)/2
            lemma_fundamental_div_mod(m as int, 2);
            lemma_div_multiples_vanish((m / 2) as int, 2);
            assert(e.value() == ((m - 1) as nat) / 2);
            lemma_fp_pow::<P>(self@, e.value());
        }
        let s = crate::field::field_pow(self, &e);
        let one_el = Self::one();
        if s.eq_el(&one_el) {
            LegendreSymbol::QuadraticResidue
        } else {
            LegendreSymbol::QuadraticNonResidue
        }
    }

    /// A square root: the root is computed by raising to `(M+1)/4` and is
    /// always checked by squaring before being returned, with the smaller
    /// of the two candidate roots preferred.  For moduli that are 3 modulo
    /// 4 the routine is also complete: it succeeds on every quadratic
    /// residue.
    pub fn sqrt(&self) -> (r: Option<Fp<P>>)
        requires
            self.wf(),
        ensures
            r matches Some(root) ==> root.wf() && Self::sp_mul(root@, root@) == self@ && 2 * root@
                <= P::modulus(),
            legendre_spec(self@, P::modulus()) == LegendreSymbol::QuadraticNonResidue ==> r
                is None,
            self@ == 0 ==> r is Some && r.unwrap()@ == 0,
            P::modulus() % 4 == 3 && legendre_spec(self@, P::modulus())
                == LegendreSymbol::QuadraticResidue ==> r is Some,
    {
        proof {
            P::lemma_facts();
        }
        let ghost m = P::modulus();
        if self.repr.is_zero() {
            proof {
                lemma_small_mod(0, m);
            }
            return Some(Self::zero());
        }
        match self.legendre() {
            LegendreSymbol::Zero => None,
            LegendreSymbol::QuadraticNonResidue => None,
            LegendreSymbol::QuadraticResidue => {
                let mrepr = P::modulus_repr();
                let b0 = mrepr.get_bit(0);
                let b1 = mrepr.get_bit(1);
                proof {
                    lemma_breakdown(m as int, 2, 2);
                    lemma2_to64();
                    assert(m as int / pow2(0) as int == m as int) by {
                        lemma_div_basics(m as int);
                    }
                }
                if !(b0 && b1) {
                    // the exponentiation route applies only when M is
                    // 3 modulo 4
                    return None;
                }
                let e = mrepr.shr(2);
                let one_b = BigInt::from_u64(1, P::limb_count());
                let (e1, c) = e.add_with_carry(&one_b);
                proof {
                    lemma2_to64();
                    assert(e.value() == m / 4);
                    assert(m / 4 < m) by {
                        lemma_div_is_strictly_smaller(m as int, 4);
                    }
                    lemma_value_bound(e1.limbs@);
                    if c {
                        assert(false);
                    }
                }
                let cand = crate::field::field_pow(self, &e1);
                let negc = cand.neg();
                let root = if negc.repr.lt(&cand.repr) {
                    negc
                } else {
                    cand
                };
                proof {
                    lemma_small_mod(self@, m);
                    // the chosen root is the smaller representative of the
                    // two candidates
                    lemma_small_mod(cand@, m);
                    lemma_mod_self_0(m as int);
                    if cand@ != 0 {
                        lemma_small_mod((m - cand@) as nat, m);
                    }
                    assert(2 * root@ <= m);
                }
                let sq = root.square();
                proof {
                    // completeness: the Euler power of a residue is one, so
                    // the candidate's square is the element itself
                    lemma_mod_self_0(m as int);
                    let mi = m as int;
                    let v = self@ as int;
                    let q: nat = m / 4;
                    lemma_fundamental_div_mod(m as int, 4);
                    assert(m % 4 == 3);
                    assert(e1.value() == q + 1);
                    lemma_fp_pow::<P>(self@, e1.value());
                    let half: nat = ((m - 1) as nat) / 2;
                    assert(vstd::arithmetic::power::pow(v, half) % mi == 1);
                    assert(half == 2 * q + 1) by {
                        lemma_fundamental_div_mod_converse(
                            (m - 1) as int,
                            2,
                            (2 * q + 1) as int,
                            0,
                        );
                    }
                    let c = cand@ as int;
                    lemma_fp_pow_nonneg(v, (q + 1) as nat);
                    assert((c * c) % mi == v) by {
                        lemma_mul_mod_noop_general(
                            vstd::arithmetic::power::pow(v, (q + 1) as nat),
                            vstd::arithmetic::power::pow(v, (q + 1) as nat),
                            mi,
                        );
                        vstd::arithmetic::power::lemma_pow_adds(v, (q + 1) as nat, (q + 1) as nat);
                        vstd::arithmetic::power::lemma_pow_adds(v, (2 * q + 1) as nat, 1);
                        vstd::arithmetic::power::lemma_pow1(v);
                        lemma_mul_mod_noop_left(
                            vstd::arithmetic::power::pow(v, (2 * q + 1) as nat),
                            v,
                            mi,
                        );
                        lemma_small_mod(self@, m);
                    }
                    if root@ != cand@ {
                        assert(root@ == m - cand@);
                        assert((mi - c) * (mi - c) == mi * (mi - 2 * c) + c * c)
                            by (nonlinear_arith);
                        lemma_mod_multiples_vanish(mi - 2 * c, c * c, mi);
                    }
                    assert(sq@ == self@);
                }
                if sq.eq_el(self) {
                    Some(root)
                } else {
                    None
                }
            },
        }
    }
}

} // verus!
