//! A concrete instantiation for exercising the library: a prime field over
//! the Mersenne prime 2^61 - 1, extension fields over it, and a minimal
//! pairing engine.
//!
//! The engine works in the groups of order 2^61 - 1 generated inside the
//! scalar field itself: both source groups are the additive group of
//! scalars, the target group is the same group written multiplicatively,
//! and the pairing multiplies the two scalars.  That map is genuinely
//! bilinear, which is all the verifier's contract relies on.

use vstd::prelude::*;

use vstd::arithmetic::div_mod::*;
use vstd::arithmetic::mul::*;
use vstd::arithmetic::power2::*;

use crate::fp::Fp;
use crate::fp::FpParams;
use crate::pairing::Pairing;
use crate::cubic::CubicExt;
use crate::cubic::CubicParams;
use crate::quadratic::QuadExt;
use crate::quadratic::QuadParams;

verus! {

/// The Mersenne prime 2^61 - 1.
pub const M61: u64 = 2305843009213693951;

/// Parameters of the one-limb field modulo 2^61 - 1.
pub struct M61Params;

impl FpParams for M61Params {
    open spec fn limbs() -> nat {
        1
    }

    open spec fn modulus() -> nat {
        M61 as nat
    }

    proof fn lemma_facts() {
        lemma2_to64();
    }

    fn limb_count() -> (n: usize) {
        1
    }

    fn modulus_repr() -> (m: crate::bigint::BigInt) {
        crate::bigint::BigInt::from_u64(M61, 1)
    }
}

/// The base prime field of the sample tower.
pub type FpM61 = Fp<M61Params>;

/// Parameters of a two-limb field modulo the Mersenne prime 2^89 - 1,
/// exercising multi-limb carries and borrows.
pub struct M89Params;

impl FpParams for M89Params {
    open spec fn limbs() -> nat {
        2
    }

    open spec fn modulus() -> nat {
        618970019642690137449562111
    }

    proof fn lemma_facts() {
        lemma2_to64();
        lemma_pow2_adds(64, 64);
        assert(pow2(128) == 0x1_0000_0000_0000_0000_0000_0000_0000_0000);
    }

    fn limb_count() -> (n: usize) {
        2
    }

    fn modulus_repr() -> (m: crate::bigint::BigInt) {
        let m = crate::bigint::BigInt { limbs: vec![0xffff_ffff_ffff_ffff, 0x1ff_ffff] };
        proof {
            lemma_m89_value(m.limbs@);
        }
        m
    }
}

/// The two-limb sequence of 2^89 - 1 denotes exactly that number.
proof fn lemma_m89_value(s: Seq<u64>)
    requires
        s.len() == 2,
        s[0] == 0xffff_ffff_ffff_ffff,
        s[1] == 0x1ff_ffff,
    ensures
        crate::bigint::limbs_value(s) == 618970019642690137449562111,
{
    lemma2_to64();
    assert(s.drop_last().drop_last() =~= Seq::<u64>::empty());
    assert(crate::bigint::limbs_value(s.drop_last().drop_last()) == 0);
    assert(s.drop_last().last() == s[0]);
    assert(crate::bigint::limbs_value(s.drop_last()) == (s[0] as nat) * pow2(0));
    assert(crate::bigint::limbs_value(s) == crate::bigint::limbs_value(s.drop_last()) + (
    s[1] as nat) * pow2(64));
}

/// A two-limb sample field.
pub type FpM89 = Fp<M89Params>;

/// Degree-2 extension: -1 is a non-residue because the modulus is
/// 3 modulo 4.
pub struct Fp2Params;

impl QuadParams<FpM61> for Fp2Params {
    open spec fn nr() -> nat {
        (M61 - 1) as nat
    }

    proof fn lemma_nr_valid() {
    }

    fn nonresidue() -> (r: FpM61) {
        Fp::<M61Params>::from_u64(M61 - 1)
    }
}

pub type Fp2 = QuadExt<FpM61, Fp2Params>;

/// Degree-4 tower: a quadratic extension of the quadratic extension, with
/// the square root adjoined at the first level as the new non-residue.
pub struct Fp4Params;

impl QuadParams<Fp2> for Fp4Params {
    open spec fn nr() -> (nat, nat) {
        (0, 1)
    }

    proof fn lemma_nr_valid() {
        M61Params::lemma_facts();
    }

    fn nonresidue() -> (r: Fp2) {
        proof {
            M61Params::lemma_facts();
        }
        QuadExt {
            c0: Fp::<M61Params>::from_u64(0),
            c1: Fp::<M61Params>::from_u64(1),
            marker: core::marker::PhantomData,
        }
    }
}

pub type Fp4 = QuadExt<Fp2, Fp4Params>;

/// Degree-3 extension of the base field; the cube-free choice of
/// non-residue is the parameter set's responsibility.
pub struct Fp3Params;

impl CubicParams<FpM61> for Fp3Params {
    open spec fn nr() -> nat {
        2
    }

    proof fn lemma_nr_valid() {
    }

    fn nonresidue() -> (r: FpM61) {
        Fp::<M61Params>::from_u64(2)
    }
}

pub type Fp3 = CubicExt<FpM61, Fp3Params>;

/// Degree-6 tower: a cubic extension of the degree-2 level, adjoining a
/// cube root of the element `α` already present there.
pub struct Fp6Params;

impl CubicParams<Fp2> for Fp6Params {
    open spec fn nr() -> (nat, nat) {
        (0, 1)
    }

    proof fn lemma_nr_valid() {
        M61Params::lemma_facts();
    }

    fn nonresidue() -> (r: Fp2) {
        proof {
            M61Params::lemma_facts();
        }
        QuadExt {
            c0: Fp::<M61Params>::from_u64(0),
            c1: Fp::<M61Params>::from_u64(1),
            marker: core::marker::PhantomData,
        }
    }
}

pub type Fp6 = CubicExt<Fp2, Fp6Params>;

/// Degree-12 tower: a quadratic extension of the degree-6 level, adjoining
/// a square root of `β`.
pub struct Fp12Params;

impl QuadParams<Fp6> for Fp12Params {
    open spec fn nr() -> ((nat, nat), (nat, nat), (nat, nat)) {
        ((0, 0), (1, 0), (0, 0))
    }

    proof fn lemma_nr_valid() {
        M61Params::lemma_facts();
    }

    fn nonresidue() -> (r: Fp6) {
        proof {
            M61Params::lemma_facts();
        }
        CubicExt {
            c0: QuadExt {
                c0: Fp::<M61Params>::from_u64(0),
                c1: Fp::<M61Params>::from_u64(0),
                marker: core::marker::PhantomData,
            },
            c1: QuadExt {
                c0: Fp::<M61Params>::from_u64(1),
                c1: Fp::<M61Params>::from_u64(0),
                marker: core::marker::PhantomData,
            },
            c2: QuadExt {
                c0: Fp::<M61Params>::from_u64(0),
                c1: Fp::<M61Params>::from_u64(0),
                marker: core::marker::PhantomData,
            },
            marker: core::marker::PhantomData,
        }
    }
}

pub type Fp12 = QuadExt<Fp6, Fp12Params>;

/// The sample pairing engine over groups of order 2^61 - 1.
pub struct SamplePairing;

impl Pairing for SamplePairing {
    type G1 = u64;

    type G2 = u64;

    type Gt = u64;

    type Fr = u64;

    open spec fn g1_wf(a: u64) -> bool {
        a < M61
    }

    open spec fn g2_wf(b: u64) -> bool {
        b < M61
    }

    open spec fn gt_wf(t: u64) -> bool {
        t < M61
    }

    open spec fn fr_wf(s: u64) -> bool {
        s < M61
    }

    open spec fn sp_pairing(a: u64, b: u64) -> u64 {
        (((a as nat) * (b as nat)) % (M61 as nat)) as u64
    }

    open spec fn sp_g1_add(a: u64, b: u64) -> u64 {
        (((a + b) as nat) % (M61 as nat)) as u64
    }

    open spec fn sp_g1_scale(a: u64, k: u64) -> u64 {
        (((a as nat) * (k as nat)) % (M61 as nat)) as u64
    }

    open spec fn sp_g2_add(a: u64, b: u64) -> u64 {
        (((a + b) as nat) % (M61 as nat)) as u64
    }

    open spec fn sp_g2_scale(a: u64, k: u64) -> u64 {
        (((a as nat) * (k as nat)) % (M61 as nat)) as u64
    }

    open spec fn sp_g2_neg(b: u64) -> u64 {
        (((M61 - b) as nat) % (M61 as nat)) as u64
    }

    open spec fn sp_gt_mul(x: u64, y: u64) -> u64 {
        (((x + y) as nat) % (M61 as nat)) as u64
    }

    open spec fn sp_gt_one() -> u64 {
        0
    }

    open spec fn sp_g2_identity() -> u64 {
        0
    }

    proof fn sp_wf_closure() {
        let m = M61 as int;
        assert forall|a: u64, b: u64|
            Self::g1_wf(a) && Self::g1_wf(b) implies Self::g1_wf(
            #[trigger] Self::sp_g1_add(a, b),
        ) by {
            lemma_mod_bound((a + b) as int, m);
        }
        assert forall|a: u64, k: u64|
            Self::g1_wf(a) && Self::fr_wf(k) implies Self::g1_wf(
            #[trigger] Self::sp_g1_scale(a, k),
        ) by {
            lemma_mod_bound(((a as nat) * (k as nat)) as int, m);
        }
        assert forall|a: u64, b: u64|
            Self::g2_wf(a) && Self::g2_wf(b) implies Self::g2_wf(
            #[trigger] Self::sp_g2_add(a, b),
        ) by {
            lemma_mod_bound((a + b) as int, m);
        }
        assert forall|a: u64, k: u64|
            Self::g2_wf(a) && Self::fr_wf(k) implies Self::g2_wf(
            #[trigger] Self::sp_g2_scale(a, k),
        ) by {
            lemma_mod_bound(((a as nat) * (k as nat)) as int, m);
        }
        assert forall|b: u64| Self::g2_wf(b) implies Self::g2_wf(
            #[trigger] Self::sp_g2_neg(b),
        ) by {
            lemma_mod_bound((M61 - b) as int, m);
        }
        assert forall|x: u64, y: u64|
            Self::gt_wf(x) && Self::gt_wf(y) implies Self::gt_wf(
            #[trigger] Self::sp_gt_mul(x, y),
        ) by {
            lemma_mod_bound((x + y) as int, m);
        }
        assert forall|a: u64, b: u64|
            Self::g1_wf(a) && Self::g2_wf(b) implies Self::gt_wf(
            #[trigger] Self::sp_pairing(a, b),
        ) by {
            lemma_mod_bound(((a as nat) * (b as nat)) as int, m);
        }
    }

    proof fn g2_neg_law() {
        let m = M61 as nat;
        assert forall|b: u64| b < M61 implies Self::sp_g2_add(b, #[trigger] Self::sp_g2_neg(b))
            == 0u64 by {
            lemma_mod_self_0(M61 as int);
            if b == 0 {
                lemma_small_mod(0, m);
            } else {
                lemma_small_mod((M61 - b) as nat, m);
            }
        }
    }

    proof fn gt_monoid_laws() {
        let m = M61 as int;
        assert forall|x: u64, y: u64| x < M61 && y < M61 implies #[trigger] Self::sp_gt_mul(x, y)
            == Self::sp_gt_mul(y, x) by {}
        assert forall|x: u64, y: u64, z: u64|
            x < M61 && y < M61 && z < M61 implies Self::sp_gt_mul(Self::sp_gt_mul(x, y), z)
            == Self::sp_gt_mul(x, Self::sp_gt_mul(y, z)) by {
            lemma_small_mod(x as nat, M61 as nat);
            lemma_small_mod(z as nat, M61 as nat);
            lemma_add_mod_noop((x + y) as int, z as int, m);
            lemma_add_mod_noop(x as int, (y + z) as int, m);
        }
        assert forall|x: u64| x < M61 implies #[trigger] Self::sp_gt_mul(x, Self::sp_gt_one())
            == x by {
            lemma_small_mod(x as nat, M61 as nat);
        }
    }

    proof fn pairing_add_left(a1: u64, a2: u64, b: u64) {
        let m = M61 as int;
        let s = (a1 + a2) as int;
        lemma_mul_mod_noop_left(s, b as int, m);
        lemma_mul_is_distributive_add_other_way(b as int, a1 as int, a2 as int);
        lemma_add_mod_noop((a1 as int) * (b as int), (a2 as int) * (b as int), m);
    }

    proof fn pairing_add_right(a: u64, b1: u64, b2: u64) {
        let m = M61 as int;
        let s = (b1 + b2) as int;
        lemma_mul_mod_noop_right(a as int, s, m);
        lemma_mul_is_distributive_add(a as int, b1 as int, b2 as int);
        lemma_add_mod_noop((a as int) * (b1 as int), (a as int) * (b2 as int), m);
    }

    fn pairing(a: &u64, b: &u64) -> (r: u64) {
        proof {
            lemma_mul_upper_bound(
                *a as int,
                0xffff_ffff_ffff_ffff,
                *b as int,
                0xffff_ffff_ffff_ffff,
            );
        }
        let p: u128 = (*a as u128) * (*b as u128);
        let r: u64 = (p % (M61 as u128)) as u64;
        proof {
            lemma_mod_bound(p as int, M61 as int);
        }
        r
    }

    fn g1_add(a: &u64, b: &u64) -> (r: u64) {
        let s: u64 = *a + *b;
        if s >= M61 {
            proof {
                lemma_mod_sub_multiples_vanish(s as int, M61 as int);
                lemma_small_mod((s - M61) as nat, M61 as nat);
            }
            s - M61
        } else {
            proof {
                lemma_small_mod(s as nat, M61 as nat);
            }
            s
        }
    }

    fn g1_scale(a: &u64, k: &u64) -> (r: u64) {
        proof {
            lemma_mul_upper_bound(
                *a as int,
                0xffff_ffff_ffff_ffff,
                *k as int,
                0xffff_ffff_ffff_ffff,
            );
        }
        let p: u128 = (*a as u128) * (*k as u128);
        let r: u64 = (p % (M61 as u128)) as u64;
        proof {
            lemma_mod_bound(p as int, M61 as int);
        }
        r
    }

    fn g2_neg(b: &u64) -> (r: u64) {
        if *b == 0 {
            proof {
                lemma_mod_self_0(M61 as int);
            }
            0
        } else {
            proof {
                lemma_small_mod((M61 - *b) as nat, M61 as nat);
            }
            M61 - *b
        }
    }

    fn gt_mul(x: &u64, y: &u64) -> (r: u64) {
        let s: u64 = *x + *y;
        if s >= M61 {
            proof {
                lemma_mod_sub_multiples_vanish(s as int, M61 as int);
                lemma_small_mod((s - M61) as nat, M61 as nat);
            }
            s - M61
        } else {
            proof {
                lemma_small_mod(s as nat, M61 as nat);
            }
            s
        }
    }

    fn gt_eq(x: &u64, y: &u64) -> (r: bool) {
        *x == *y
    }

    fn g1_dup(a: &u64) -> (r: u64) {
        *a
    }

    fn g2_dup(b: &u64) -> (r: u64) {
        *b
    }
}

} // verus!
