//! Canonical byte encoding of prime-field elements: fixed-width
//! little-endian, eight bytes per limb.
//!
//! Encoding is total on field elements; decoding accepts exactly the byte
//! strings of the right length that denote a value below the modulus, and
//! rejects everything else wholesale.

use vstd::prelude::*;

use vstd::arithmetic::div_mod::*;
use vstd::arithmetic::power2::*;

use crate::bigint::BigInt;
use crate::bigint::lemma_value_bound;
use crate::bigint::lemma_value_push;
use crate::bigint::limbs_value;
use crate::field::Field;
use crate::fp::Fp;
use crate::fp::FpParams;

verus! {

/// The little-endian bytes, `l` of them, of `v` (modulo 2^(8l)).
pub open spec fn le_bytes(v: nat, l: nat) -> Seq<u8>
    decreases l,
{
    if l == 0 {
        Seq::empty()
    } else {
        seq![(v % 256) as u8].add(le_bytes(v / 256, (l - 1) as nat))
    }
}

pub proof fn lemma_le_bytes_len(v: nat, l: nat)
    ensures
        le_bytes(v, l).len() == l,
    decreases l,
{
    if l > 0 {
        lemma_le_bytes_len(v / 256, (l - 1) as nat);
    }
}

/// Byte `j` of the encoding reads the matching eight bits of the value.
pub proof fn lemma_le_bytes_index(v: nat, l: nat, j: int)
    requires
        0 <= j < l,
    ensures
        le_bytes(v, l)[j] == ((v / pow2((8 * j) as nat)) % 256) as u8,
    decreases l,
{
    lemma_le_bytes_len(v / 256, (l - 1) as nat);
    if j == 0 {
        lemma2_to64();
        assert(v / pow2(0) == v) by {
            lemma_div_basics(v as int);
        }
    } else {
        lemma_le_bytes_index(v / 256, (l - 1) as nat, j - 1);
        assert((v / 256) / pow2((8 * (j - 1)) as nat) == v / pow2((8 * j) as nat)) by {
            lemma2_to64();
            lemma_pow2_pos((8 * (j - 1)) as nat);
            lemma_pow2_adds(8, (8 * (j - 1)) as nat);
            lemma_div_denominator(v as int, 256, pow2((8 * (j - 1)) as nat) as int);
        }
    }
}

/// Two values below 2^(8l) with the same `l`-byte encoding are equal.
pub proof fn lemma_le_bytes_inj(v1: nat, v2: nat, l: nat)
    requires
        v1 < pow2((8 * l) as nat),
        v2 < pow2((8 * l) as nat),
        le_bytes(v1, l) == le_bytes(v2, l),
    ensures
        v1 == v2,
    decreases l,
{
    if l == 0 {
        assert(pow2(0) == 1) by {
            lemma2_to64();
        }
    } else {
        lemma2_to64();
        assert(le_bytes(v1, l)[0] == (v1 % 256) as u8);
        assert(le_bytes(v2, l)[0] == (v2 % 256) as u8);
        assert(v1 % 256 == v2 % 256);
        assert(le_bytes(v1, l).skip(1) =~= le_bytes(v1 / 256, (l - 1) as nat)) by {
            lemma_le_bytes_len(v1 / 256, (l - 1) as nat);
        }
        assert(le_bytes(v2, l).skip(1) =~= le_bytes(v2 / 256, (l - 1) as nat)) by {
            lemma_le_bytes_len(v2 / 256, (l - 1) as nat);
        }
        assert(v1 / 256 < pow2((8 * (l - 1)) as nat)) by {
            lemma_pow2_adds(8, (8 * (l - 1)) as nat);
            lemma_pow2_pos((8 * (l - 1)) as nat);
            lemma_multiply_divide_lt(v1 as int, 256, pow2((8 * (l - 1)) as nat) as int);
        }
        assert(v2 / 256 < pow2((8 * (l - 1)) as nat)) by {
            lemma_pow2_adds(8, (8 * (l - 1)) as nat);
            lemma_pow2_pos((8 * (l - 1)) as nat);
            lemma_multiply_divide_lt(v2 as int, 256, pow2((8 * (l - 1)) as nat) as int);
        }
        lemma_le_bytes_inj(v1 / 256, v2 / 256, (l - 1) as nat);
        lemma_fundamental_div_mod(v1 as int, 256);
        lemma_fundamental_div_mod(v2 as int, 256);
    }
}

/// Byte `8q + k` of a limb sequence's value reads bits `8k..8k+8` of
/// limb `q`.
proof fn lemma_byte_extract(s: Seq<u64>, q: int, k: nat)
    requires
        0 <= q < s.len(),
        k <= 56,
    ensures
        (limbs_value(s) / pow2((64 * q + k) as nat)) % 256 == ((s[q] as nat) / pow2(k)) % 256,
{
    let x: nat = s[q] as nat;
    lemma_pow2_pos((64 * q) as nat);
    lemma_pow2_pos(k);
    lemma_pow2_pos((56 - k) as nat);
    lemma2_to64();
    crate::bigint::lemma_value_split(s, q);
    lemma_value_bound(s.take(q));
    assert(limbs_value(s) / pow2((64 * q) as nat) == limbs_value(s.skip(q))) by {
        lemma_fundamental_div_mod_converse(
            limbs_value(s) as int,
            pow2((64 * q) as nat) as int,
            limbs_value(s.skip(q)) as int,
            limbs_value(s.take(q)) as int,
        );
    }
    assert(limbs_value(s) / pow2((64 * q + k) as nat) == limbs_value(s.skip(q)) / pow2(k)) by {
        lemma_pow2_adds((64 * q) as nat, k);
        lemma_div_denominator(limbs_value(s) as int, pow2((64 * q) as nat) as int, pow2(k) as int);
    }
    let tail = s.skip(q);
    crate::bigint::lemma_value_unfold_low(tail);
    let rest: nat = limbs_value(tail.skip(1));
    assert(tail[0] == s[q]);
    assert(pow2(64) == pow2(k) * (256 * pow2((56 - k) as nat))) by {
        lemma_pow2_adds(k, (64 - k) as nat);
        lemma_pow2_adds(8, (56 - k) as nat);
    }
    assert(pow2(64) * rest == pow2(k) * (256 * (pow2((56 - k) as nat) * rest)))
        by (nonlinear_arith)
        requires
            pow2(64) == pow2(k) * (256 * pow2((56 - k) as nat)),
    ;
    assert(limbs_value(tail) / pow2(k) == x / pow2(k) + 256 * (pow2((56 - k) as nat) * rest)) by {
        lemma_hoist_over_denominator(
            x as int,
            (256 * (pow2((56 - k) as nat) * rest)) as int,
            pow2(k),
        );
        assert(limbs_value(tail) == x + pow2(k) * (256 * (pow2((56 - k) as nat) * rest)));
    }
    lemma_mod_multiples_vanish(
        (pow2((56 - k) as nat) * rest) as int,
        (x / pow2(k)) as int,
        256,
    );
}

impl<P: FpParams> Fp<P> {
    /// The canonical encoding: the element's representative in fixed-width
    /// little-endian bytes, eight per limb.
    pub fn to_bytes(&self) -> (r: Vec<u8>)
        requires
            self.wf(),
        ensures
            r@ == le_bytes(self@, 8 * P::limbs()),
    {
        proof {
            P::lemma_facts();
        }
        let n = P::limb_count();
        let total: usize = 8 * n;
        let mut out: Vec<u8> = Vec::new();
        proof {
            lemma_le_bytes_len(self@, 0);
            assert(out@ =~= le_bytes(self@, 0));
        }
        for j in 0..total
            invariant
                self.wf(),
                total == 8 * P::limbs(),
                out@ == le_bytes(self@, j as nat),
                out@.len() == j,
        {
            let q = j / 8;
            let k = j % 8;
            let limb: u64 = self.repr.limbs[q];
            let byte: u8 = ((limb >> ((8 * k) as u64)) % 256) as u8;
            let ghost prev = out@;
            out.push(byte);
            proof {
                P::lemma_facts();
                vstd::bits::lemma_u64_shr_is_div(limb, (8 * k) as u64);
                lemma_fundamental_div_mod(j as int, 8);
                lemma_byte_extract(self.repr.limbs@, q as int, (8 * k) as nat);
                assert(byte as nat == (self@ / pow2((8 * j) as nat)) % 256);
                lemma_le_bytes_snoc(self@, j as nat);
                lemma_le_bytes_len(self@, j as nat);
                assert(out@ =~= le_bytes(self@, (j + 1) as nat));
            }
        }
        out
    }

    /// Decode a canonical encoding; rejects any byte string of the wrong
    /// length and any value at or above the modulus, accepting exactly the
    /// encodings of field elements.
    pub fn from_bytes(b: &[u8]) -> (r: Option<Fp<P>>)
        ensures
            r matches Some(x) ==> x.wf() && le_bytes(x@, 8 * P::limbs()) == b@,
            r is None ==> forall|v: nat|
                v < P::modulus() ==> #[trigger] le_bytes(v, 8 * P::limbs()) != b@,
    {
        proof {
            P::lemma_facts();
        }
        let n = P::limb_count();
        let total: usize = 8 * n;
        if b.len() != total {
            proof {
                assert forall|v: nat| v < P::modulus() implies #[trigger] le_bytes(
                    v,
                    8 * P::limbs(),
                ) != b@ by {
                    lemma_le_bytes_len(v, 8 * P::limbs());
                }
            }
            return None;
        }
        let mut limbs: Vec<u64> = Vec::new();
        for i in 0..n
            invariant
                total == 8 * P::limbs(),
                n == P::limbs(),
                b@.len() == total,
                limbs@.len() == i,
                forall|j: int|
                    0 <= j < 8 * i ==> (limbs_value(limbs@) / pow2((8 * j) as nat)) % 256 == (
                    #[trigger] b@[j]) as nat,
        {
            let mut limb: u64 = 0;
            proof {
                lemma2_to64();
            }
            for k in 0..8
                invariant
                    b@.len() == total,
                    total == 8 * P::limbs(),
                    n == P::limbs(),
                    i < n,
                    limb < pow2((8 * k) as nat),
                    forall|kk: int|
                        0 <= kk < k ==> ((limb as nat) / pow2((8 * kk) as nat)) % 256 == (
                        #[trigger] b@[8 * i + kk]) as nat,
            {
                let byte: u8 = b[8 * i + k];
                let ghost prevl: nat = limb as nat;
                let sh: u64 = (8 * k) as u64;
                proof {
                    lemma2_to64();
                    lemma_pow2_pos((8 * k) as nat);
                    lemma_pow2_adds((8 * k) as nat, 8);
                    if 8 * k + 8 < 64 {
                        lemma_pow2_strictly_increases((8 * k + 8) as nat, 64);
                    }
                    assert((byte as u64) * pow2((8 * k) as nat) < pow2((8 * k + 8) as nat))
                        by (nonlinear_arith)
                        requires
                            byte as u64 <= 255,
                            pow2((8 * k) as nat) >= 1,
                            pow2((8 * k + 8) as nat) == pow2((8 * k) as nat) * 256,
                    ;
                    assert(sh as nat == (8 * k) as nat);
                    assert((byte as u64) * pow2(sh as nat) <= 0xffff_ffff_ffff_ffff);
                    vstd::bits::lemma_u64_shl_is_mul(byte as u64, sh);
                }
                let shifted: u64 = (byte as u64) << sh;
                proof {
                    lemma_pow2_adds((8 * k) as nat, 8);
                    assert(prevl + (byte as nat) * pow2((8 * k) as nat) < pow2(((8 * k) + 8) as nat)) by {
                        lemma_decode_limb_step(prevl, byte, (8 * k) as nat);
                    }
                    if 8 * k + 8 < 64 {
                        lemma_pow2_strictly_increases((8 * k + 8) as nat, 64);
                    }
                }
                limb = limb + shifted;
                proof {
                    lemma_decode_limb_step(prevl, byte, (8 * k) as nat);
                    assert forall|kk: int|
                        0 <= kk < k + 1 implies ((limb as nat) / pow2((8 * kk) as nat)) % 256 == (
                        #[trigger] b@[8 * i + kk]) as nat by {
                        if kk < k {
                            lemma_decode_limb_keeps(prevl, byte as nat, (8 * k) as nat, (8 * kk) as nat);
                        }
                    }
                }
            }
            let ghost prev = limbs@;
            limbs.push(limb);
            proof {
                lemma_value_push(prev, limb);
                lemma_value_bound(prev);
                assert forall|j: int|
                    0 <= j < 8 * (i + 1) implies (limbs_value(limbs@) / pow2((8 * j) as nat)) % 256
                    == (#[trigger] b@[j]) as nat by {
                    if j >= 8 * i {
                        lemma_byte_extract(limbs@, i as int, (8 * (j - 8 * i)) as nat);
                        assert(8 * j == 64 * (i as int) + 8 * (j - 8 * i));
                        assert(((limb as nat) / pow2((8 * (j - 8 * i)) as nat)) % 256 == (b@[8 * (
                        i as int) + (j - 8 * i)]) as nat);
                        assert(b@[8 * (i as int) + (j - 8 * i)] == b@[j]);
                    } else {
                        lemma_byte_extract(prev, j / 8, (8 * (j % 8)) as nat);
                        lemma_byte_extract(limbs@, j / 8, (8 * (j % 8)) as nat);
                        lemma_fundamental_div_mod(j, 8);
                        assert(limbs@[j / 8] == prev[j / 8]);
                    }
                }
            }
        }
        let repr = BigInt { limbs };
        let mrepr = P::modulus_repr();
        proof {
            lemma_value_bound(repr.limbs@);
            lemma_le_bytes_len(repr.value(), 8 * P::limbs());
            assert forall|j: int| 0 <= j < 8 * P::limbs() implies le_bytes(
                repr.value(),
                8 * P::limbs(),
            )[j] == b@[j] by {
                lemma_le_bytes_index(repr.value(), 8 * P::limbs(), j);
            }
            assert(le_bytes(repr.value(), 8 * P::limbs()) =~= b@);
            assert(64 * P::limbs() == 8 * (8 * P::limbs()));
            assert forall|v: nat|
                v < pow2((8 * (8 * P::limbs())) as nat) && #[trigger] le_bytes(v, 8 * P::limbs())
                    == b@ implies v == repr.value() by {
                lemma_le_bytes_inj(v, repr.value(), 8 * P::limbs());
            }
        }
        if repr.lt(&mrepr) {
            Some(Fp { repr, marker: core::marker::PhantomData })
        } else {
            None
        }
    }
}

/// Adding a fresh byte at bit position `k` sets bits `k..k+8` of the limb.
proof fn lemma_decode_limb_step(prev: nat, byte: u8, k: nat)
    requires
        prev < pow2(k),
    ensures
        (((prev + (byte as nat) * pow2(k)) as nat) / pow2(k)) % 256 == byte as nat,
        prev + (byte as nat) * pow2(k) < pow2((k + 8) as nat),
{
    lemma_pow2_pos(k);
    lemma2_to64();
    lemma_fundamental_div_mod_converse(
        (prev + (byte as nat) * pow2(k)) as int,
        pow2(k) as int,
        byte as int,
        prev as int,
    );
    lemma_small_mod(byte as nat, 256);
    lemma_pow2_adds(k, 8);
    assert(prev + (byte as nat) * pow2(k) < 256 * pow2(k)) by (nonlinear_arith)
        requires
            prev < pow2(k),
            byte as nat <= 255,
            pow2(k) >= 1,
    ;
}

/// Adding a byte at a higher position leaves the lower bytes unchanged.
proof fn lemma_decode_limb_keeps(prev: nat, byte: nat, k: nat, kk: nat)
    requires
        kk + 8 <= k,
    ensures
        (((prev + byte * pow2(k)) as nat) / pow2(kk)) % 256 == (prev / pow2(kk)) % 256,
{
    lemma_pow2_pos(kk);
    lemma_pow2_pos((k - kk) as nat);
    lemma_pow2_pos((k - kk - 8) as nat);
    lemma2_to64();
    assert(pow2(k) == pow2(kk) * (256 * pow2((k - kk - 8) as nat))) by {
        lemma_pow2_adds(kk, (k - kk) as nat);
        lemma_pow2_adds(8, (k - kk - 8) as nat);
    }
    assert(byte * pow2(k) == pow2(kk) * (256 * (byte * pow2((k - kk - 8) as nat))))
        by (nonlinear_arith)
        requires
            pow2(k) == pow2(kk) * (256 * pow2((k - kk - 8) as nat)),
    ;
    assert((prev + byte * pow2(k)) / pow2(kk) == prev / pow2(kk) + 256 * (byte * pow2(
        (k - kk - 8) as nat,
    ))) by {
        lemma_hoist_over_denominator(
            prev as int,
            (256 * (byte * pow2((k - kk - 8) as nat))) as int,
            pow2(kk),
        );
    }
    lemma_mod_multiples_vanish(
        (byte * pow2((k - kk - 8) as nat)) as int,
        ((prev / pow2(kk))) as int,
        256,
    );
}

/// The `l+1`-byte encoding extends the `l`-byte encoding by the next byte.
pub proof fn lemma_le_bytes_snoc(v: nat, l: nat)
    ensures
        le_bytes(v, l + 1) == le_bytes(v, l).push(((v / pow2((8 * l) as nat)) % 256) as u8),
    decreases l,
{
    lemma_le_bytes_len(v, l + 1);
    lemma_le_bytes_len(v, l);
    assert forall|j: int| 0 <= j < l + 1 implies #[trigger] le_bytes(v, l + 1)[j] == le_bytes(
        v,
        l,
    ).push(((v / pow2((8 * l) as nat)) % 256) as u8)[j] by {
        lemma_le_bytes_index(v, l + 1, j);
        if j < l {
            lemma_le_bytes_index(v, l, j);
        }
    }
    assert(le_bytes(v, l + 1) =~= le_bytes(v, l).push(((v / pow2((8 * l) as nat)) % 256) as u8));
}

} // verus!
