//! Little-endian base-128 unsigned varints: seven data bits per byte, the
//! high bit marking continuation.  Encoding and decoding are done by the
//! `unsigned-varint` crate through the two trusted wrappers below; their
//! contracts are stated over the spec functions of this module.

use vstd::prelude::*;
use vstd::arithmetic::power2::pow2;

verus! {

/// The minimal base-128 encoding of `n`, least significant group first.
pub open spec fn varint_enc(n: nat) -> Seq<u8>
    decreases n,
{
    if n < 128 {
        seq![n as u8]
    } else {
        seq![((n % 128) + 128) as u8] + varint_enc(n / 128)
    }
}

/// The position of the first byte without a continuation bit, if any.
pub open spec fn varint_end(s: Seq<u8>) -> Option<int>
    decreases s.len(),
{
    if s.len() == 0 {
        None
    } else if s[0] < 128 {
        Some(0)
    } else {
        match varint_end(s.skip(1)) {
            Some(e) => Some(e + 1),
            None => None,
        }
    }
}

/// The value of the first `n` bytes of `s` read as base-128 data groups.
pub open spec fn leb_value(s: Seq<u8>, n: nat) -> int
    decreases n,
{
    if n == 0 || s.len() == 0 {
        0
    } else {
        (s[0] as int % 128) + 128 * leb_value(s.skip(1), (n - 1) as nat)
    }
}

/// What a 64-bit varint read returns on a byte stream: the decoded value and
/// the bytes consumed, or nothing when the stream ends inside the varint,
/// runs past ten bytes, or ends in a redundant zero byte.  A tenth byte
/// contributes only the bit that fits below position 64.
pub open spec fn vint_at(s: Seq<u8>) -> Option<(nat, int)> {
    match varint_end(s) {
        Some(e) => if e <= 9 && !(s[e] == 0 && e > 0) {
            Some(((leb_value(s, (e + 1) as nat) % 0x1_0000_0000_0000_0000) as nat, e + 1))
        } else {
            None
        },
        None => None,
    }
}

/// Failure kinds of the varint reader.
#[derive(Clone, Copy, Debug, PartialEq, Eq, Structural)]
pub enum VarintError {
    Insufficient,
    Overflow,
    NotMinimal,
}

/// Relies on unsigned_varint::decode::usize (the 64-bit build): little-endian
/// base-128 with at most ten bytes; a buffer ending inside a varint is
/// insufficient, a continuation bit on the tenth byte is an overflow, and a
/// final zero byte after the first is not minimal.  Returns the value and the
/// length of the remaining suffix.
#[verifier::external_body]
pub(crate) fn varint_decode_at(buf: &[u8], start: usize) -> (r: Result<
    (usize, usize),
    VarintError,
>)
    requires
        start <= buf@.len(),
        usize::MAX == u64::MAX,
    ensures
        ({
            let s = buf@.skip(start as int);
            match r {
                Ok((v, rem)) => {
                    &&& rem <= s.len()
                    &&& vint_at(s) == Some((v as nat, s.len() - rem))
                },
                Err(VarintError::Insufficient) => varint_end(s) is None && s.len() <= 9,
                Err(VarintError::Overflow) => (varint_end(s) is None && s.len() > 9) || (
                varint_end(s) matches Some(e) && e > 9),
                Err(VarintError::NotMinimal) => varint_end(s) matches Some(e) && 0 < e <= 9
                    && s[e] == 0,
            }
        }),
{
    match unsigned_varint::decode::usize(&buf[start..]) {
        Ok((v, rest)) => Ok((v, rest.len())),
        Err(unsigned_varint::decode::Error::Insufficient) => Err(VarintError::Insufficient),
        Err(unsigned_varint::decode::Error::Overflow) => Err(VarintError::Overflow),
        Err(_) => Err(VarintError::NotMinimal),
    }
}

/// Relies on unsigned_varint::encode::usize: emits exactly the minimal
/// base-128 encoding of its argument.
#[verifier::external_body]
pub(crate) fn varint_encode_usize(n: usize) -> (r: Vec<u8>)
    ensures
        r@ == varint_enc(n as nat),
{
    let mut buf = unsigned_varint::encode::usize_buffer();
    unsigned_varint::encode::usize(n, &mut buf).to_vec()
}

/// A minimal encoding is between one and `k` bytes when its value is below
/// 128^k (stated through powers of two: 128^k == 2^(7k)).
proof fn lemma_varint_enc_len_rec(n: nat, k: nat)
    requires
        1 <= k,
        n < pow2(7 * k),
    ensures
        1 <= varint_enc(n).len() <= k,
    decreases k,
{
    if n < 128 {
    } else {
        assert(7 * k == 7 + 7 * (k - 1));
        vstd::arithmetic::power2::lemma_pow2_adds(7, (7 * (k - 1)) as nat);
        vstd::arithmetic::power2::lemma2_to64();
        assert(pow2(7 * k) == 128 * pow2((7 * (k - 1)) as nat));
        assert(n / 128 < pow2((7 * (k - 1)) as nat)) by (nonlinear_arith)
            requires
                n < 128 * pow2((7 * (k - 1)) as nat),
        ;
        assert(k >= 2) by {
            if k == 1 {
                assert(pow2(7) == 128) by {
                    vstd::arithmetic::power2::lemma2_to64();
                }
            }
        }
        lemma_varint_enc_len_rec(n / 128, (k - 1) as nat);
    }
}

/// A 64-bit value encodes to at most ten bytes.
pub proof fn lemma_varint_enc_len(n: nat)
    requires
        n <= u64::MAX,
    ensures
        1 <= varint_enc(n).len() <= 10,
{
    vstd::arithmetic::power2::lemma2_to64();
    vstd::arithmetic::power2::lemma2_to64_rest();
    vstd::arithmetic::power2::lemma_pow2_strictly_increases(64, 70);
    lemma_varint_enc_len_rec(n, 10);
}

/// An encoding always holds at least one byte.
proof fn lemma_varint_enc_nonempty(n: nat)
    ensures
        varint_enc(n).len() >= 1,
{
}

/// Decoding recovers what encoding wrote, for any trailing bytes: the first
/// clear continuation bit sits on the encoding's last byte, the base-128
/// value of those bytes is the encoded number, and the last byte is zero
/// only for the one-byte encoding of zero.
pub proof fn lemma_varint_roundtrip(n: nat, rest: Seq<u8>)
    ensures
        ({
            let enc = varint_enc(n);
            let s = enc + rest;
            &&& varint_end(s) == Some(enc.len() - 1)
            &&& leb_value(s, enc.len()) == n
            &&& (s[enc.len() - 1] == 0 ==> enc.len() == 1)
        }),
    decreases n,
{
    let enc = varint_enc(n);
    let s = enc + rest;
    if n < 128 {
        assert(s[0] == n as u8);
        assert(s.skip(1) =~= rest);
        assert(enc.len() == 1);
        assert(leb_value(s, 1) == s[0] as int % 128 + 128 * leb_value(s.skip(1), 0));
        assert(leb_value(s.skip(1), 0) == 0);
        assert(s[0] as int % 128 == n);
    } else {
        let tail = varint_enc(n / 128) + rest;
        let sub = varint_enc(n / 128);
        assert(s.skip(1) =~= tail);
        assert(s[0] == ((n % 128) + 128) as u8);
        lemma_varint_roundtrip(n / 128, rest);
        lemma_varint_enc_nonempty(n / 128);
        assert(enc.len() == 1 + sub.len());
        assert(varint_end(tail) == Some(sub.len() - 1));
        assert(varint_end(s) == Some(enc.len() - 1));
        assert(leb_value(tail, sub.len()) == n / 128);
        assert(s[0] as int % 128 == n % 128);
        assert(leb_value(s, enc.len()) == (n % 128) + 128 * (n / 128));
        assert((n % 128) + 128 * (n / 128) == n) by {
            vstd::arithmetic::div_mod::lemma_fundamental_div_mod(n as int, 128);
        }
        assert(tail[sub.len() - 1] == s[enc.len() - 1]);
        if s[enc.len() - 1] == 0 {
            // by induction the inner encoding is the single byte n / 128,
            // which cannot be zero since n is at least 128
            assert(sub.len() == 1);
            if n / 128 >= 128 {
                lemma_varint_enc_nonempty((n / 128) / 128);
                assert(sub.len() >= 2);
            }
            assert(sub[0] == (n / 128) as u8);
            assert(tail[0] == (n / 128) as u8);
            assert(n / 128 >= 1);
            assert(false);
        }
    }
}

/// The decoder spec accepts a minimal 64-bit encoding wherever it stands.
pub proof fn lemma_vint_at_enc(n: nat, rest: Seq<u8>)
    requires
        n <= u64::MAX,
    ensures
        vint_at(varint_enc(n) + rest) == Some((n, varint_enc(n).len() as int)),
{
    lemma_varint_enc_len(n);
    lemma_varint_roundtrip(n, rest);
    let enc = varint_enc(n);
    let s = enc + rest;
    let e = enc.len() - 1;
    if s[e] == 0 && e > 0 {
        assert(false);
    }
    assert(leb_value(s, (e + 1) as nat) == n);
    assert(n % 0x1_0000_0000_0000_0000 == n);
}

} // verus!
