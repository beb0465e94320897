//! Fixed-width unsigned integers: a sequence of 64-bit limbs in
//! little-endian order, with carry-aware addition and subtraction,
//! comparison, bit access and shifts.
//!
//! A value is interpreted through [`limbs_value`]: the sum of each limb
//! scaled by the matching power of two.  Every operation's contract is
//! stated over that interpretation.  The width (limb count) is chosen by
//! the caller and never changes across an operation; no operation carries
//! a modulus.

use vstd::prelude::*;

use vstd::arithmetic::div_mod::*;
use vstd::arithmetic::mul::*;
use vstd::arithmetic::power2::*;

verus! {

/// One limb's worth of counting: 2^64, as a u128.
pub const LIMB_BASE: u128 = 0x1_0000_0000_0000_0000;

pub struct BigInt {
    pub limbs: Vec<u64>,
}

/// The number denoted by a little-endian limb sequence.
pub open spec fn limbs_value(s: Seq<u64>) -> nat
    decreases s.len(),
{
    if s.len() == 0 {
        0
    } else {
        limbs_value(s.drop_last()) + (s.last() as nat) * pow2((64 * (s.len() - 1)) as nat)
    }
}

pub proof fn lemma_value_push(s: Seq<u64>, x: u64)
    ensures
        limbs_value(s.push(x)) == limbs_value(s) + (x as nat) * pow2((64 * s.len()) as nat),
{
    assert(s.push(x).drop_last() =~= s);
    assert(s.push(x).last() == x);
}

pub proof fn lemma_value_bound(s: Seq<u64>)
    ensures
        limbs_value(s) < pow2((64 * s.len()) as nat),
    decreases s.len(),
{
    if s.len() == 0 {
        assert(pow2(0) == 1) by {
            lemma2_to64();
        }
    } else {
        let p: nat = pow2((64 * (s.len() - 1)) as nat);
        lemma_value_bound(s.drop_last());
        lemma2_to64();
        lemma_pow2_adds(64, (64 * (s.len() - 1)) as nat);
        assert((s.last() as nat) * p <= 0xffff_ffff_ffff_ffff * p) by {
            lemma_mul_inequality(s.last() as int, 0xffff_ffff_ffff_ffff, p as int);
        }
        assert(limbs_value(s) < pow2(64) * p);
    }
}

pub proof fn lemma_value_take_succ(s: Seq<u64>, i: int)
    requires
        0 <= i < s.len(),
    ensures
        limbs_value(s.take(i + 1)) == limbs_value(s.take(i)) + (s[i] as nat) * pow2(
            (64 * i) as nat,
        ),
{
    assert(s.take(i + 1).drop_last() =~= s.take(i));
    assert(s.take(i + 1).last() == s[i]);
}

pub proof fn lemma_value_split(s: Seq<u64>, q: int)
    requires
        0 <= q <= s.len(),
    ensures
        limbs_value(s) == limbs_value(s.take(q)) + pow2((64 * q) as nat) * limbs_value(s.skip(q)),
    decreases s.len(),
{
    if s.len() == q {
        assert(s.take(q) =~= s);
        assert(s.skip(q) =~= Seq::<u64>::empty());
    } else {
        let dl = s.drop_last();
        lemma_value_split(dl, q);
        assert(dl.take(q) =~= s.take(q));
        assert(dl.skip(q) =~= s.skip(q).drop_last());
        let pq: nat = pow2((64 * q) as nat);
        let tail = s.skip(q);
        assert(tail.last() == s.last());
        assert(tail.len() == s.len() - q);
        // the top limb contributes the same amount whether counted from the
        // whole sequence or from the suffix
        assert(pow2((64 * (s.len() - 1)) as nat) == pq * pow2((64 * (tail.len() - 1)) as nat)) by {
            lemma_pow2_adds((64 * q) as nat, (64 * (tail.len() - 1)) as nat);
        }
        assert(pq * limbs_value(tail) == pq * limbs_value(tail.drop_last()) + (s.last() as nat) * (
        pq * pow2((64 * (tail.len() - 1)) as nat))) by (nonlinear_arith)
            requires
                limbs_value(tail) == limbs_value(tail.drop_last()) + (s.last() as nat) * pow2(
                    (64 * (tail.len() - 1)) as nat,
                ),
        ;
    }
}

pub proof fn lemma_value_unfold_low(s: Seq<u64>)
    requires
        s.len() > 0,
    ensures
        limbs_value(s) == s[0] + pow2(64) * limbs_value(s.skip(1)),
{
    lemma_value_split(s, 1);
    assert(s.take(1).len() == 1);
    assert(s.take(1).drop_last() =~= Seq::<u64>::empty());
    assert(s.take(1).last() == s[0]);
    assert(limbs_value(Seq::<u64>::empty()) == 0);
    assert(pow2(0) == 1) by {
        lemma2_to64();
    }
    assert(limbs_value(s.take(1).drop_last()) == 0);
    assert(pow2((64 * (s.take(1).len() - 1)) as nat) == 1);
    assert((s.take(1).last() as nat) * pow2((64 * (s.take(1).len() - 1)) as nat) == s[0]);
    assert(limbs_value(s.take(1)) == s[0]);
}

pub proof fn lemma_value_inj(s: Seq<u64>, t: Seq<u64>)
    requires
        s.len() == t.len(),
        limbs_value(s) == limbs_value(t),
    ensures
        s == t,
    decreases s.len(),
{
    if s.len() == 0 {
        assert(s =~= t);
    } else {
        let p: int = pow2((64 * (s.len() - 1)) as nat) as int;
        lemma_pow2_pos((64 * (s.len() - 1)) as nat);
        lemma_value_bound(s.drop_last());
        lemma_value_bound(t.drop_last());
        lemma_fundamental_div_mod_converse(
            limbs_value(s) as int,
            p,
            s.last() as int,
            limbs_value(s.drop_last()) as int,
        );
        lemma_fundamental_div_mod_converse(
            limbs_value(t) as int,
            p,
            t.last() as int,
            limbs_value(t.drop_last()) as int,
        );
        lemma_value_inj(s.drop_last(), t.drop_last());
        assert forall|i: int| 0 <= i < s.len() - 1 implies s[i] == #[trigger] t[i] by {
            assert(s[i] == s.drop_last()[i]);
            assert(t[i] == t.drop_last()[i]);
        }
        assert(s[s.len() - 1] == t[t.len() - 1]);
        assert(s =~= t);
    }
}

pub proof fn lemma_value_zero(s: Seq<u64>)
    ensures
        (limbs_value(s) == 0) <==> (forall|i: int| 0 <= i < s.len() ==> s[i] == 0),
    decreases s.len(),
{
    if s.len() > 0 {
        lemma_value_zero(s.drop_last());
        lemma_pow2_pos((64 * (s.len() - 1)) as nat);
        if s.last() != 0 {
            assert((s.last() as nat) * pow2((64 * (s.len() - 1)) as nat) > 0) by (nonlinear_arith)
                requires
                    s.last() as nat >= 1,
                    pow2((64 * (s.len() - 1)) as nat) >= 1,
            ;
        }
        if limbs_value(s) == 0 {
            assert(s.last() == 0);
            assert(forall|i: int| 0 <= i < s.len() - 1 ==> #[trigger] s.drop_last()[i] == 0);
            assert forall|i: int| 0 <= i < s.len() implies s[i] == 0 by {
                if i < s.len() - 1 {
                    assert(s[i] == s.drop_last()[i]);
                } else {
                    assert(s[i] == s.last());
                }
            }
        }
        if forall|i: int| 0 <= i < s.len() ==> s[i] == 0 {
            assert(forall|i: int| 0 <= i < s.len() - 1 ==> #[trigger] s.drop_last()[i] == s[i]);
            assert(s.last() == 0);
        }
    }
}

impl BigInt {
    /// Fixed width: exactly `n` limbs.
    pub open spec fn wf(&self, n: nat) -> bool {
        self.limbs@.len() == n
    }

    /// The non-negative number this integer denotes; always below
    /// 2^(64·width).
    pub open spec fn value(&self) -> nat {
        limbs_value(self.limbs@)
    }

    pub fn zero(n: usize) -> (r: BigInt)
        ensures
            r.wf(n as nat),
            r.value() == 0,
    {
        let mut limbs: Vec<u64> = Vec::new();
        for i in 0..n
            invariant
                limbs@.len() == i,
                limbs_value(limbs@) == 0,
        {
            let ghost s = limbs@;
            limbs.push(0u64);
            proof {
                lemma_value_push(s, 0u64);
            }
        }
        BigInt { limbs }
    }

    pub fn from_u64(x: u64, n: usize) -> (r: BigInt)
        requires
            n >= 1,
        ensures
            r.wf(n as nat),
            r.value() == x,
    {
        let mut limbs: Vec<u64> = Vec::new();
        let ghost e = limbs@;
        limbs.push(x);
        proof {
            assert(e =~= Seq::<u64>::empty());
            assert(limbs_value(e) == 0);
            lemma_value_push(e, x);
            lemma2_to64();
            assert(pow2((64 * e.len()) as nat) == 1);
            assert((x as nat) * pow2((64 * e.len()) as nat) == x) by (nonlinear_arith)
                requires
                    pow2((64 * e.len()) as nat) == 1,
            ;
            assert(limbs_value(limbs@) == x);
        }
        for i in 1..n
            invariant
                limbs@.len() == i,
                limbs_value(limbs@) == x,
        {
            let ghost s = limbs@;
            limbs.push(0u64);
            proof {
                lemma_value_push(s, 0u64);
            }
        }
        BigInt { limbs }
    }

    /// A fresh copy with the same limbs.
    pub fn dup(&self) -> (r: BigInt)
        ensures
            r.limbs@ == self.limbs@,
    {
        let n = self.limbs.len();
        let mut limbs: Vec<u64> = Vec::new();
        for i in 0..n
            invariant
                n == self.limbs@.len(),
                limbs@ == self.limbs@.take(i as int),
        {
            limbs.push(self.limbs[i]);
            proof {
                assert(limbs@ =~= self.limbs@.take(i + 1));
            }
        }
        proof {
            assert(self.limbs@.take(n as int) =~= self.limbs@);
        }
        BigInt { limbs }
    }

    /// Addition with a carry flag: the result plus the weighted carry is
    /// exactly the sum of the operands; nothing wraps silently and nothing
    /// panics.
    pub fn add_with_carry(&self, other: &BigInt) -> (r: (BigInt, bool))
        requires
            self.limbs@.len() == other.limbs@.len(),
        ensures
            r.0.limbs@.len() == self.limbs@.len(),
            r.0.value() + (if r.1 {
                pow2((64 * self.limbs@.len()) as nat)
            } else {
                0
            }) == self.value() + other.value(),
    {
        let n = self.limbs.len();
        let mut out: Vec<u64> = Vec::new();
        let mut carry: u64 = 0;
        proof {
            lemma2_to64();
        }
        for i in 0..n
            invariant
                n == self.limbs@.len(),
                n == other.limbs@.len(),
                out@.len() == i,
                carry <= 1,
                limbs_value(out@) + (carry as nat) * pow2((64 * i) as nat) == limbs_value(
                    self.limbs@.take(i as int),
                ) + limbs_value(other.limbs@.take(i as int)),
                pow2(64) == LIMB_BASE,
        {
            let a: u64 = self.limbs[i];
            let b: u64 = other.limbs[i];
            let s: u128 = a as u128 + b as u128 + carry as u128;
            let lo: u64 = (s % LIMB_BASE) as u64;
            let c2: u64 = (s / LIMB_BASE) as u64;
            let ghost outg = out@;
            let ghost carryg = carry;
            out.push(lo);
            carry = c2;
            proof {
                lemma_fundamental_div_mod(s as int, LIMB_BASE as int);
                lemma_value_push(outg, lo);
                lemma_value_take_succ(self.limbs@, i as int);
                lemma_value_take_succ(other.limbs@, i as int);
                lemma_pow2_adds(64, (64 * i) as nat);
                assert(limbs_value(out@) + (carry as nat) * pow2((64 * (i + 1)) as nat)
                    == limbs_value(self.limbs@.take(i + 1)) + limbs_value(
                    other.limbs@.take(i + 1),
                )) by (nonlinear_arith)
                    requires
                        limbs_value(out@) == limbs_value(outg) + (lo as nat) * pow2(
                            (64 * i) as nat,
                        ),
                        limbs_value(outg) + (carryg as nat) * pow2((64 * i) as nat) == limbs_value(
                            self.limbs@.take(i as int),
                        ) + limbs_value(other.limbs@.take(i as int)),
                        limbs_value(self.limbs@.take(i + 1)) == limbs_value(
                            self.limbs@.take(i as int),
                        ) + (a as nat) * pow2((64 * i) as nat),
                        limbs_value(other.limbs@.take(i + 1)) == limbs_value(
                            other.limbs@.take(i as int),
                        ) + (b as nat) * pow2((64 * i) as nat),
                        lo + (carry as int) * (LIMB_BASE as int) == a + b + carryg,
                        pow2((64 * (i + 1)) as nat) == pow2(64) * pow2((64 * i) as nat),
                        pow2(64) == LIMB_BASE,
                ;
            }
        }
        proof {
            assert(self.limbs@.take(n as int) =~= self.limbs@);
            assert(other.limbs@.take(n as int) =~= other.limbs@);
        }
        (BigInt { limbs: out }, carry == 1)
    }

    /// Subtraction with a borrow flag: over the integers, the result equals
    /// the difference plus the weighted borrow; the borrow is set exactly
    /// when the subtrahend exceeds this value.
    pub fn sub_with_borrow(&self, other: &BigInt) -> (r: (BigInt, bool))
        requires
            self.limbs@.len() == other.limbs@.len(),
        ensures
            r.0.limbs@.len() == self.limbs@.len(),
            r.0.value() == self.value() - other.value() + (if r.1 {
                pow2((64 * self.limbs@.len()) as nat)
            } else {
                0
            }),
            r.1 == (self.value() < other.value()),
    {
        let n = self.limbs.len();
        let mut out: Vec<u64> = Vec::new();
        let mut borrow: u64 = 0;
        proof {
            lemma2_to64();
        }
        for i in 0..n
            invariant
                n == self.limbs@.len(),
                n == other.limbs@.len(),
                out@.len() == i,
                borrow <= 1,
                limbs_value(out@) == limbs_value(self.limbs@.take(i as int)) - limbs_value(
                    other.limbs@.take(i as int),
                ) + (borrow as nat) * pow2((64 * i) as nat),
                pow2(64) == LIMB_BASE,
        {
            let a: u64 = self.limbs[i];
            let b: u64 = other.limbs[i];
            let s: u128 = LIMB_BASE + a as u128 - b as u128 - borrow as u128;
            let lo: u64 = (s % LIMB_BASE) as u64;
            let nb: u64 = 1 - (s / LIMB_BASE) as u64;
            let ghost outg = out@;
            let ghost borrowg = borrow;
            out.push(lo);
            borrow = nb;
            proof {
                lemma_fundamental_div_mod(s as int, LIMB_BASE as int);
                lemma_value_push(outg, lo);
                lemma_value_take_succ(self.limbs@, i as int);
                lemma_value_take_succ(other.limbs@, i as int);
                lemma_pow2_adds(64, (64 * i) as nat);
                assert(limbs_value(out@) == limbs_value(self.limbs@.take(i + 1)) - limbs_value(
                    other.limbs@.take(i + 1),
                ) + (borrow as nat) * pow2((64 * (i + 1)) as nat)) by (nonlinear_arith)
                    requires
                        limbs_value(out@) == limbs_value(outg) + (lo as nat) * pow2(
                            (64 * i) as nat,
                        ),
                        limbs_value(outg) == limbs_value(self.limbs@.take(i as int)) - limbs_value(
                            other.limbs@.take(i as int),
                        ) + (borrowg as nat) * pow2((64 * i) as nat),
                        limbs_value(self.limbs@.take(i + 1)) == limbs_value(
                            self.limbs@.take(i as int),
                        ) + (a as nat) * pow2((64 * i) as nat),
                        limbs_value(other.limbs@.take(i + 1)) == limbs_value(
                            other.limbs@.take(i as int),
                        ) + (b as nat) * pow2((64 * i) as nat),
                        lo == a - b - borrowg + (borrow as int) * (LIMB_BASE as int),
                        pow2((64 * (i + 1)) as nat) == pow2(64) * pow2((64 * i) as nat),
                        pow2(64) == LIMB_BASE,
                ;
            }
        }
        proof {
            assert(self.limbs@.take(n as int) =~= self.limbs@);
            assert(other.limbs@.take(n as int) =~= other.limbs@);
            lemma_value_bound(out@);
            lemma_value_bound(self.limbs@);
            lemma_value_bound(other.limbs@);
        }
        (BigInt { limbs: out }, borrow == 1)
    }

    /// Strict comparison of denoted values.
    pub fn lt(&self, other: &BigInt) -> (r: bool)
        requires
            self.limbs@.len() == other.limbs@.len(),
        ensures
            r == (self.value() < other.value()),
    {
        let (_, borrow) = self.sub_with_borrow(other);
        borrow
    }

    /// Equality of denoted values (equivalently, of limb sequences).
    pub fn eq_val(&self, other: &BigInt) -> (r: bool)
        requires
            self.limbs@.len() == other.limbs@.len(),
        ensures
            r == (self.value() == other.value()),
    {
        let n = self.limbs.len();
        for i in 0..n
            invariant
                n == self.limbs@.len(),
                n == other.limbs@.len(),
                forall|j: int| 0 <= j < i ==> self.limbs@[j] == other.limbs@[j],
        {
            if self.limbs[i] != other.limbs[i] {
                proof {
                    if self.value() == other.value() {
                        lemma_value_inj(self.limbs@, other.limbs@);
                    }
                }
                return false;
            }
        }
        proof {
            assert(self.limbs@ =~= other.limbs@);
        }
        true
    }

    pub fn is_zero(&self) -> (r: bool)
        ensures
            r == (self.value() == 0),
    {
        let n = self.limbs.len();
        for i in 0..n
            invariant
                n == self.limbs@.len(),
                forall|j: int| 0 <= j < i ==> self.limbs@[j] == 0,
        {
            if self.limbs[i] != 0 {
                proof {
                    lemma_value_zero(self.limbs@);
                }
                return false;
            }
        }
        proof {
            lemma_value_zero(self.limbs@);
        }
        true
    }

    /// The bit at position `i` of the denoted value.
    pub fn get_bit(&self, i: usize) -> (r: bool)
        requires
            i < 64 * self.limbs@.len(),
        ensures
            r == ((self.value() / pow2(i as nat)) % 2 == 1),
    {
        let q = i / 64;
        let k = i % 64;
        let x: u64 = self.limbs[q];
        let bit: u64 = (x >> (k as u64)) & 1;
        proof {
            lemma_bit_extract(self.limbs@, i as int);
            vstd::bits::lemma_u64_shr_is_div(x, k as u64);
            assert((x >> (k as u64)) & 1 == (x >> (k as u64)) % 2) by (bit_vector);
        }
        bit == 1
    }

    /// Halving: drops the lowest bit.
    pub fn shr1(&self) -> (r: BigInt)
        ensures
            r.limbs@.len() == self.limbs@.len(),
            r.value() == self.value() / 2,
    {
        let n = self.limbs.len();
        let mut out: Vec<u64> = Vec::new();
        for i in 0..n
            invariant
                n == self.limbs@.len(),
                out@.len() == i,
                forall|j: int|
                    0 <= j < i ==> out@[j] == self.limbs@[j] / 2 + (if j + 1 < n {
                        (self.limbs@[j + 1] % 2) * 0x8000_0000_0000_0000
                    } else {
                        0
                    }),
        {
            let lo: u64 = self.limbs[i] / 2;
            let hi: u64 = if i + 1 < n {
                (self.limbs[i + 1] % 2) * 0x8000_0000_0000_0000
            } else {
                0
            };
            out.push(lo + hi);
        }
        proof {
            lemma_shr1_value(self.limbs@, out@);
        }
        BigInt { limbs: out }
    }

    /// Right shift by an arbitrary count: divides by 2^k.
    pub fn shr(&self, k: usize) -> (r: BigInt)
        ensures
            r.limbs@.len() == self.limbs@.len(),
            r.value() == self.value() / pow2(k as nat),
    {
        let mut cur = self.dup();
        proof {
            lemma2_to64();
            assert(self.value() / pow2(0) == self.value()) by {
                lemma_div_basics(self.value() as int);
            }
        }
        for i in 0..k
            invariant
                cur.limbs@.len() == self.limbs@.len(),
                cur.value() == self.value() / pow2(i as nat),
        {
            cur = cur.shr1();
            proof {
                lemma_pow2_adds(i as nat, 1);
                lemma2_to64();
                lemma_pow2_pos(i as nat);
                lemma_div_denominator(self.value() as int, pow2(i as nat) as int, 2);
            }
        }
        cur
    }

    /// Left shift by an arbitrary count: multiplies by 2^k, truncated to the
    /// fixed width.
    pub fn shl(&self, k: usize) -> (r: BigInt)
        ensures
            r.limbs@.len() == self.limbs@.len(),
            r.value() == (self.value() * pow2(k as nat)) % pow2((64 * self.limbs@.len()) as nat),
    {
        let ghost width: nat = (64 * self.limbs@.len()) as nat;
        let mut cur = self.dup();
        proof {
            lemma_pow2_pos(width);
            lemma_value_bound(self.limbs@);
            lemma2_to64();
            assert(self.value() * pow2(0) == self.value());
            lemma_small_mod(self.value(), pow2(width));
        }
        for i in 0..k
            invariant
                cur.limbs@.len() == self.limbs@.len(),
                cur.value() == (self.value() * pow2(i as nat)) % pow2(
                    (64 * self.limbs@.len()) as nat,
                ),
        {
            let ghost prev: nat = cur.value();
            let (doubled, carry) = cur.add_with_carry(&cur);
            cur = doubled;
            proof {
                let p: nat = pow2((64 * self.limbs@.len()) as nat);
                lemma_pow2_pos((64 * self.limbs@.len()) as nat);
                lemma_value_bound(cur.limbs@);
                // doubling modulo the width bound
                assert(cur.value() == (2 * prev) % p) by {
                    if carry {
                        lemma_mod_sub_multiples_vanish(2 * prev as int, p as int);
                        lemma_small_mod(cur.value(), p);
                    } else {
                        lemma_small_mod(cur.value(), p);
                    }
                }
                lemma_pow2_adds(i as nat, 1);
                lemma2_to64();
                assert((2 * ((self.value() * pow2(i as nat)) % p)) % p == (2 * (self.value()
                    * pow2(i as nat))) % p) by {
                    lemma_mul_mod_noop_right(2, (self.value() * pow2(i as nat)) as int, p as int);
                }
                assert(2 * (self.value() * pow2(i as nat)) == self.value() * pow2((i + 1) as nat))
                    by (nonlinear_arith)
                    requires
                        pow2((i + 1) as nat) == pow2(i as nat) * 2,
                ;
            }
        }
        cur
    }
    /// The bit length of the denoted value: the highest set bit's position
    /// plus one, and zero for zero.
    pub fn num_bits(&self) -> (r: usize)
        requires
            self.limbs@.len() <= 0x100_0000,
        ensures
            r as nat == nat_bits(self.value()),
    {
        let n = self.limbs.len();
        let mut i = n;
        while i > 0
            invariant
                i <= n,
                n == self.limbs@.len(),
                n <= 0x100_0000,
                forall|j: int| i <= j < n ==> self.limbs@[j] == 0,
            decreases i,
        {
            let limb: u64 = self.limbs[i - 1];
            if limb != 0 {
                let mut x: u64 = limb;
                let mut c: usize = 0;
                proof {
                    lemma2_to64();
                    lemma_nat_bits_le(limb as nat, 64);
                }
                while x > 0
                    invariant
                        c + nat_bits(x as nat) == nat_bits(limb as nat),
                        nat_bits(limb as nat) <= 64,
                        c <= 64,
                    decreases x,
                {
                    x = x / 2;
                    c = c + 1;
                }
                proof {
                    let s = self.limbs@;
                    let q = i - 1;
                    let pq: nat = pow2((64 * q) as nat);
                    lemma_pow2_pos((64 * q) as nat);
                    // limbs above position q are zero, so the value is the
                    // low part topped by this limb
                    lemma_value_split(s, i as int);
                    lemma_value_zero(s.skip(i as int));
                    assert forall|j: int| 0 <= j < s.skip(i as int).len() implies #[trigger] s.skip(
                        i as int,
                    )[j] == 0 by {
                        assert(s.skip(i as int)[j] == s[j + i]);
                        assert(s[j + i] == 0);
                    }
                    assert(limbs_value(s.skip(i as int)) == 0);
                    assert(pow2((64 * i) as nat) * limbs_value(s.skip(i as int)) == 0);
                    assert(self.value() == limbs_value(s.take(i as int)));
                    lemma_value_take_succ(s, q);
                    lemma_value_bound(s.take(q));
                    lemma_nat_bits_bounds(limb as nat);
                    let cb: nat = nat_bits(limb as nat);
                    // sandwich the value between the two enclosing powers
                    // of two at this limb position
                    assert(pow2((cb - 1) as nat) * pq <= (limb as nat) * pq) by {
                        lemma_mul_inequality(
                            pow2((cb - 1) as nat) as int,
                            limb as int,
                            pq as int,
                        );
                    }
                    assert((limb as nat + 1) * pq <= pow2(cb) * pq) by {
                        lemma_mul_inequality(
                            (limb as nat + 1) as int,
                            pow2(cb) as int,
                            pq as int,
                        );
                    }
                    assert((limb as nat + 1) * pq == (limb as nat) * pq + pq) by (nonlinear_arith);
                    lemma_pow2_adds((cb - 1) as nat, (64 * q) as nat);
                    lemma_pow2_adds(cb, (64 * q) as nat);
                    assert(pow2(((cb - 1) + 64 * q) as nat) <= self.value() < pow2(
                        (cb + 64 * q) as nat,
                    ));
                    lemma_nat_bits_unique(self.value(), (cb + 64 * q) as nat);
                }
                return 64 * (i - 1) + c;
            }
            i = i - 1;
        }
        proof {
            lemma_value_zero(self.limbs@);
        }
        0
    }
}

/// The bit length of a number: zero for zero, otherwise the position of the
/// highest set bit plus one.
pub open spec fn nat_bits(v: nat) -> nat
    decreases v,
{
    if v == 0 {
        0
    } else {
        (1 + nat_bits(v / 2)) as nat
    }
}

pub proof fn lemma_nat_bits_bounds(v: nat)
    requires
        v > 0,
    ensures
        nat_bits(v) >= 1,
        pow2((nat_bits(v) - 1) as nat) <= v < pow2(nat_bits(v)),
    decreases v,
{
    lemma2_to64();
    if v == 1 {
    } else {
        lemma_nat_bits_bounds(v / 2);
        let b = nat_bits(v / 2);
        lemma_pow2_adds(1, (b - 1) as nat);
        lemma_pow2_adds(1, b);
        lemma_fundamental_div_mod(v as int, 2);
    }
}

pub proof fn lemma_nat_bits_le(v: nat, k: nat)
    requires
        v < pow2(k),
    ensures
        nat_bits(v) <= k,
{
    if v > 0 {
        lemma_nat_bits_bounds(v);
        if nat_bits(v) > k {
            lemma_pow2_pos((nat_bits(v) - 1) as nat);
            if k < nat_bits(v) - 1 {
                lemma_pow2_strictly_increases(k, (nat_bits(v) - 1) as nat);
            }
        }
    }
}

/// The bit length is determined by the two enclosing powers of two.
pub proof fn lemma_nat_bits_unique(v: nat, b: nat)
    requires
        b >= 1,
        pow2((b - 1) as nat) <= v < pow2(b),
    ensures
        nat_bits(v) == b,
{
    lemma_pow2_pos((b - 1) as nat);
    lemma_nat_bits_bounds(v);
    let nb = nat_bits(v);
    if nb < b {
        if nb < b - 1 {
            lemma_pow2_strictly_increases(nb, (b - 1) as nat);
        }
    }
    if nb > b {
        if b < nb - 1 {
            lemma_pow2_strictly_increases(b, (nb - 1) as nat);
        }
    }
}

/// Each output limb holds its input limb halved plus the following limb's
/// dropped bit at the top; together that halves the denoted value.
proof fn lemma_shr1_value(s: Seq<u64>, t: Seq<u64>)
    requires
        t.len() == s.len(),
        forall|j: int|
            0 <= j < s.len() ==> t[j] == s[j] / 2 + (if j + 1 < s.len() {
                (s[j + 1] % 2) * 0x8000_0000_0000_0000
            } else {
                0
            }),
    ensures
        limbs_value(t) == limbs_value(s) / 2,
    decreases s.len(),
{
    lemma2_to64();
    if s.len() == 0 {
    } else {
        let ss = s.skip(1);
        let ts = t.skip(1);
        assert(forall|j: int|
            0 <= j < ss.len() ==> ts[j] == ss[j] / 2 + (if j + 1 < ss.len() {
                (ss[j + 1] % 2) * 0x8000_0000_0000_0000
            } else {
                0
            })) by {
            assert(forall|j: int| 0 <= j < ss.len() ==> ss[j] == s[j + 1] && ts[j] == t[j + 1]);
        }
        lemma_shr1_value(ss, ts);
        lemma_value_unfold_low(s);
        lemma_value_unfold_low(t);
        let v: nat = limbs_value(ss);
        // the denoted value halves limb-wise: the low limb is halved and
        // receives the next limb's parity bit at position 63
        assert(limbs_value(s) / 2 == s[0] / 2 + 0x8000_0000_0000_0000 * v) by {
            assert(limbs_value(s) == s[0] + pow2(64) * v);
            assert(pow2(64) * v == 2 * (0x8000_0000_0000_0000 * v)) by (nonlinear_arith)
                requires
                    pow2(64) == 2 * 0x8000_0000_0000_0000,
            ;
            lemma_hoist_over_denominator(s[0] as int, (0x8000_0000_0000_0000 * v) as int, 2);
        }
        if s.len() == 1 {
            assert(ss =~= Seq::<u64>::empty());
        } else {
            assert(ss[0] == s[1]);
            assert(v % 2 == s[1] % 2) by {
                lemma_value_unfold_low(ss);
                assert(v == s[1] + pow2(64) * limbs_value(ss.skip(1)));
                assert(pow2(64) * limbs_value(ss.skip(1)) == 2 * (0x8000_0000_0000_0000
                    * limbs_value(ss.skip(1)))) by (nonlinear_arith)
                    requires
                        pow2(64) == 2 * 0x8000_0000_0000_0000,
                ;
                lemma_mod_multiples_vanish(
                    (0x8000_0000_0000_0000 * limbs_value(ss.skip(1))) as int,
                    s[1] as int,
                    2,
                );
            }
            assert(t[0] == s[0] / 2 + (s[1] % 2) * 0x8000_0000_0000_0000);
            lemma_fundamental_div_mod(v as int, 2);
            assert(0x8000_0000_0000_0000 * v == 0x8000_0000_0000_0000 * (s[1] % 2) + pow2(64) * (v
                / 2)) by (nonlinear_arith)
                requires
                    v == 2 * (v / 2) + s[1] % 2,
                    pow2(64) == 2 * 0x8000_0000_0000_0000,
            ;
        }
    }
}

/// Bit `i` of the denoted value is bit `i % 64` of limb `i / 64`.
proof fn lemma_bit_extract(s: Seq<u64>, i: int)
    requires
        0 <= i < 64 * s.len(),
    ensures
        (limbs_value(s) / pow2(i as nat)) % 2 == (s[i / 64] as nat / pow2((i % 64) as nat)) % 2,
{
    let q = i / 64;
    let k = i % 64;
    lemma_fundamental_div_mod(i, 64);
    let x: nat = s[q] as nat;
    lemma_pow2_pos((64 * q) as nat);
    lemma_pow2_pos(k as nat);
    lemma_pow2_pos((63 - k) as nat);
    // peel whole limbs below position i
    lemma_value_split(s, q);
    lemma_value_bound(s.take(q));
    assert(limbs_value(s) / pow2((64 * q) as nat) == limbs_value(s.skip(q))) by {
        lemma_fundamental_div_mod_converse(
            limbs_value(s) as int,
            pow2((64 * q) as nat) as int,
            limbs_value(s.skip(q)) as int,
            limbs_value(s.take(q)) as int,
        );
    }
    assert(limbs_value(s) / pow2(i as nat) == limbs_value(s.skip(q)) / pow2(k as nat)) by {
        lemma_pow2_adds((64 * q) as nat, k as nat);
        lemma_div_denominator(
            limbs_value(s) as int,
            pow2((64 * q) as nat) as int,
            pow2(k as nat) as int,
        );
    }
    // within the limb: higher limbs only contribute even amounts after the
    // shift by k <= 63 bits
    let tail = s.skip(q);
    assert(tail.len() > 0);
    lemma_value_unfold_low(tail);
    let rest: nat = limbs_value(tail.skip(1));
    assert(tail[0] == s[q]);
    assert(pow2(64) == pow2(k as nat) * (2 * pow2((63 - k) as nat))) by {
        lemma_pow2_adds(k as nat, (64 - k) as nat);
        lemma_pow2_adds(1, (63 - k) as nat);
        lemma2_to64();
    }
    assert(pow2(64) * rest == pow2(k as nat) * (2 * (pow2((63 - k) as nat) * rest)))
        by (nonlinear_arith)
        requires
            pow2(64) == pow2(k as nat) * (2 * pow2((63 - k) as nat)),
    ;
    assert(limbs_value(tail) / pow2(k as nat) == x / pow2(k as nat) + 2 * (pow2((63 - k) as nat)
        * rest)) by {
        lemma_hoist_over_denominator(
            x as int,
            (2 * (pow2((63 - k) as nat) * rest)) as int,
            pow2(k as nat),
        );
        assert(limbs_value(tail) == x + pow2(k as nat) * (2 * (pow2((63 - k) as nat) * rest)));
    }
    lemma_mod_multiples_vanish(
        (pow2((63 - k) as nat) * rest) as int,
        (x / pow2(k as nat)) as int,
        2,
    );
}

} // verus!
