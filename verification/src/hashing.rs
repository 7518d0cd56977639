//! Content hashing for the idempotency guard.

use vstd::prelude::*;
use sha2::Digest;
use vstd::string::StringSliceAdditionalSpecFns;
use crate::text::{digit_char, is_lower_hex_char};

verus! {

/// The SHA-256 digest of a byte sequence.  The algorithm itself is not
/// restated here; the digest is a function of its input alone, the same in
/// every process and on every machine.
pub uninterp spec fn sha256_of(bytes: Seq<u8>) -> Seq<u8>;

/// Relies on `sha2::Sha256::digest`: the 32-byte SHA-256 digest of the
/// input.
#[verifier::external_body]
pub fn sha256(bytes: &[u8]) -> (r: Vec<u8>)
    ensures
        r@ == sha256_of(bytes@),
        r@.len() == 32,
{
    sha2::Sha256::digest(bytes).to_vec()
}

/// The lowercase hexadecimal digit of a value below sixteen.
pub open spec fn hex_char(d: nat) -> char
    recommends
        d < 16,
{
    if d < 10 {
        digit_char(d)
    } else {
        ('a' as u32 + (d - 10) as u32) as char
    }
}

/// The lowercase hexadecimal rendering of a byte sequence, two digits per
/// byte, high nibble first.
pub open spec fn to_hex_lower(bytes: Seq<u8>) -> Seq<char>
    decreases bytes.len(),
{
    if bytes.len() == 0 {
        Seq::empty()
    } else {
        to_hex_lower(bytes.drop_last()).push(hex_char((bytes.last() / 16) as nat)).push(
            hex_char((bytes.last() % 16) as nat),
        )
    }
}

/// The lowercase hexadecimal SHA-256 digest of a string's UTF-8 bytes.
pub open spec fn sha256_hex_of(s: Seq<char>) -> Seq<char> {
    to_hex_lower(sha256_of(vstd::utf8::encode_utf8(s)))
}

pub proof fn lemma_to_hex_lower_shape(bytes: Seq<u8>)
    ensures
        to_hex_lower(bytes).len() == 2 * bytes.len(),
        forall|i: int|
            0 <= i < to_hex_lower(bytes).len() ==> is_lower_hex_char(
                #[trigger] to_hex_lower(bytes)[i],
            ),
    decreases bytes.len(),
{
    if bytes.len() > 0 {
        lemma_to_hex_lower_shape(bytes.drop_last());
    }
}

/// The SHA-256 digest of the string's bytes, rendered as 64 lowercase
/// hexadecimal digits.
pub fn sha256_hex(s: &str) -> (r: String)
    ensures
        r@ == sha256_hex_of(s@),
        r@.len() == 64,
{
    let digest = sha256(s.as_bytes());
    let ghost dg = digest@;
    let mut out: Vec<char> = Vec::new();
    let mut i: usize = 0;
    proof {
        assert(dg.take(0) =~= Seq::<u8>::empty());
    }
    while i < digest.len()
        invariant
            i <= digest@.len(),
            digest@ == dg,
            out@ == to_hex_lower(dg.take(i as int)),
        decreases digest@.len() - i,
    {
        let b = digest[i];
        let hi: u8 = b / 16;
        let lo: u8 = b % 16;
        let hc: char = if hi < 10 {
            (('0' as u8) + hi) as char
        } else {
            (('a' as u8) + (hi - 10)) as char
        };
        let lc: char = if lo < 10 {
            (('0' as u8) + lo) as char
        } else {
            (('a' as u8) + (lo - 10)) as char
        };
        proof {
            assert(hc == hex_char((dg[i as int] / 16) as nat));
            assert(lc == hex_char((dg[i as int] % 16) as nat));
            let t = dg.take(i + 1);
            assert(t.drop_last() =~= dg.take(i as int));
            assert(t.last() == dg[i as int]);
        }
        out.push(hc);
        out.push(lc);
        i = i + 1;
    }
    proof {
        assert(dg.take(dg.len() as int) =~= dg);
        lemma_to_hex_lower_shape(dg);
    }
    crate::polyfill::chars_to_string(&out)
}

} // verus!
