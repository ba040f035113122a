//! The Fiat-Shamir transcript: a byte log of everything absorbed so far,
//! from which each random challenge is derived deterministically by hashing.

use vstd::prelude::*;
use sha2::Digest;
use crate::field::{Fe, FIELD_MODULUS, fe_vals, modulus};
use vstd::arithmetic::power2::{pow2, lemma_pow2_adds, lemma2_to64};
use vstd::arithmetic::div_mod::{lemma_small_mod, lemma_mod_twice};

verus! {

/// The SHA-256 digest of a byte sequence, named but not spelled out: it is a
/// pure function of the input bytes alone.
pub uninterp spec fn sha256_of(s: Seq<u8>) -> Seq<u8>;

/// Relies on sha2::Sha256: the 32-byte SHA-256 digest of the input, a pure
/// function of the input bytes.
#[verifier::external_body]
fn sha256_digest(bytes: &Vec<u8>) -> (r: Vec<u8>)
    ensures
        r@ == sha256_of(bytes@),
        r@.len() == 32,
{
    sha2::Sha256::digest(bytes.as_slice()).to_vec()
}

/// The `n` little-endian base-256 digits of `x`.
pub open spec fn le_bytes(x: nat, n: nat) -> Seq<u8>
    decreases n,
{
    if n == 0 {
        Seq::empty()
    } else {
        seq![(x % 256) as u8] + le_bytes(x / 256, (n - 1) as nat)
    }
}

/// The byte serialization of a sequence of field values: eight little-endian
/// bytes for each value, in order.
pub open spec fn fes_to_bytes(s: Seq<nat>) -> Seq<u8>
    decreases s.len(),
{
    if s.len() == 0 {
        Seq::empty()
    } else {
        fes_to_bytes(s.drop_last()) + le_bytes(s.last(), 8)
    }
}

/// The value of a little-endian byte sequence.
pub open spec fn le_val(bs: Seq<u8>) -> nat
    decreases bs.len(),
{
    if bs.len() == 0 {
        0
    } else {
        (bs[0] + 256 * le_val(bs.drop_first())) as nat
    }
}

/// The challenge derived from a transcript state: the first eight digest
/// bytes read as a little-endian integer, reduced into the field.
pub open spec fn challenge_of(ts: Seq<u8>) -> nat {
    le_val(sha256_of(ts).take(8)) % modulus()
}

/// The transcript state after one challenge has been drawn: the digest is
/// absorbed back, so later challenges differ.
pub open spec fn ts_after_challenge(ts: Seq<u8>) -> Seq<u8> {
    ts + sha256_of(ts)
}

/// Serializes field elements for transcript absorption.
pub fn fe_vec_to_bytes(v: &Vec<Fe>) -> (r: Vec<u8>)
    ensures
        r@ == fes_to_bytes(fe_vals(v@)),
{
    let mut out: Vec<u8> = Vec::new();
    let mut i: usize = 0;
    while i < v.len()
        invariant
            i <= v.len(),
            out@ == fes_to_bytes(fe_vals(v@).take(i as int)),
        decreases v.len() - i,
    {
        let mut x = v[i].to_u64();
        let ghost x0 = x as nat;
        let ghost before = out@;
        let mut k: usize = 0;
        while k < 8
            invariant
                k <= 8,
                before + le_bytes(x0, 8) == out@ + le_bytes(x as nat, (8 - k) as nat),
            decreases 8 - k,
        {
            proof {
                assert(le_bytes(x as nat, (8 - k) as nat) == seq![(x as nat % 256) as u8]
                    + le_bytes(x as nat / 256, (8 - k - 1) as nat));
                assert(out@ + le_bytes(x as nat, (8 - k) as nat) == (out@ + seq![(x as nat % 256)
                    as u8]) + le_bytes(x as nat / 256, (8 - k - 1) as nat)) by {
                    assert(out@ + (seq![(x as nat % 256) as u8] + le_bytes(
                        x as nat / 256,
                        (8 - k - 1) as nat,
                    )) =~= (out@ + seq![(x as nat % 256) as u8]) + le_bytes(
                        x as nat / 256,
                        (8 - k - 1) as nat,
                    ));
                }
            }
            out.push((x % 256) as u8);
            proof {
                assert(out@ =~= out@.drop_last() + seq![(x as nat % 256) as u8]);
            }
            x = x / 256;
            k += 1;
        }
        proof {
            assert(le_bytes(x as nat, 0) =~= Seq::<u8>::empty());
            assert(out@ + Seq::<u8>::empty() =~= out@);
            assert(out@ == before + le_bytes(x0, 8));
            assert(fe_vals(v@).take(i + 1).drop_last() =~= fe_vals(v@).take(i as int));
            assert(fe_vals(v@).take(i + 1).last() == x0);
        }
        i += 1;
    }
    proof {
        assert(fe_vals(v@).take(v@.len() as int) =~= fe_vals(v@));
    }
    out
}

/// A little-endian byte value is bounded by the corresponding power of two.
proof fn lemma_le_val_bound(bs: Seq<u8>)
    ensures
        le_val(bs) < pow2(8 * bs.len()),
    decreases bs.len(),
{
    if bs.len() == 0 {
        lemma2_to64();
    } else {
        lemma_le_val_bound(bs.drop_first());
        lemma_pow2_adds(8, 8 * (bs.len() - 1) as nat);
        lemma2_to64();
        assert(8 * bs.len() == 8 + 8 * (bs.len() - 1) as nat);
        assert(bs[0] + 256 * le_val(bs.drop_first()) < 256 * pow2(8 * (bs.len() - 1) as nat));
    }
}

/// The deterministic randomness oracle: absorbs bytes, and derives each
/// challenge from the hash of everything absorbed so far.
pub struct Transcript {
    state: Vec<u8>,
}

impl View for Transcript {
    type V = Seq<u8>;

    closed spec fn view(&self) -> Seq<u8> {
        self.state@
    }
}

impl Transcript {
    /// A fresh transcript with nothing absorbed.
    pub fn new() -> (r: Transcript)
        ensures
            r@ == Seq::<u8>::empty(),
    {
        let r = Transcript { state: Vec::new() };
        proof {
            assert(r@ =~= Seq::<u8>::empty());
        }
        r
    }

    /// Absorbs bytes into the running state.
    pub fn append(&mut self, bytes: &Vec<u8>)
        ensures
            final(self)@ == old(self)@ + bytes@,
    {
        let mut i: usize = 0;
        while i < bytes.len()
            invariant
                i <= bytes.len(),
                self@ == old(self)@ + bytes@.take(i as int),
            decreases bytes.len() - i,
        {
            self.state.push(bytes[i]);
            proof {
                assert(old(self)@ + bytes@.take(i + 1) =~= (old(self)@ + bytes@.take(
                    i as int,
                )).push(bytes@[i as int]));
            }
            i += 1;
        }
        proof {
            assert(bytes@.take(bytes@.len() as int) =~= bytes@);
        }
    }

    /// Derives one challenge: a pure function of everything absorbed so far,
    /// which is itself absorbed so that the next challenge differs.
    pub fn get_random_challenge(&mut self) -> (r: Fe)
        ensures
            r@ == challenge_of(old(self)@),
            final(self)@ == ts_after_challenge(old(self)@),
    {
        let mut digest = sha256_digest(&self.state);
        let ghost d8 = digest@.take(8);
        let mut acc: u128 = 0;
        let mut i: usize = 8;
        proof {
            assert(d8.skip(8) =~= Seq::<u8>::empty());
            lemma2_to64();
        }
        while i > 0
            invariant
                i <= 8,
                digest@.len() == 32,
                d8 == digest@.take(8),
                acc as nat == le_val(d8.skip(i as int)),
                acc < pow2(8 * (8 - i) as nat),
            decreases i,
        {
            proof {
                lemma_pow2_adds(8 * (8 - i) as nat, 8);
                lemma2_to64();
                assert(acc * 256 + 255 < pow2(8 * (8 - i) as nat) * 256) by (nonlinear_arith)
                    requires
                        acc < pow2(8 * (8 - i) as nat),
                ;
                assert(pow2(8 * (8 - i) as nat) * 256 == pow2(8 * (8 - i) as nat) * pow2(8));
                assert(8 * (8 - i) as nat + 8 == 8 * (8 - (i - 1)) as nat);
                assert(pow2(8 * (8 - (i - 1)) as nat) <= pow2(64)) by {
                    if (8 * (8 - (i - 1)) as nat) < 64 {
                        vstd::arithmetic::power2::lemma_pow2_strictly_increases(
                            8 * (8 - (i - 1)) as nat,
                            64,
                        );
                    }
                }
                assert(d8.skip(i - 1)[0] == d8[i - 1]);
                assert(d8.skip(i - 1).drop_first() =~= d8.skip(i as int));
                assert(d8[i - 1] == digest@[i - 1]);
            }
            i -= 1;
            acc = acc * 256 + digest[i] as u128;
        }
        let c = (acc % (FIELD_MODULUS as u128)) as u64;
        let r = Fe::new(c);
        proof {
            assert(d8.skip(0) =~= d8);
            lemma_mod_twice(acc as int, FIELD_MODULUS as int);
            assert(r@ == le_val(sha256_of(old(self)@).take(8)) % modulus());
        }
        let ghost dview = digest@;
        self.state.append(&mut digest);
        proof {
            assert(final(self)@ == old(self)@ + dview);
        }
        r
    }
}

} // verus!
