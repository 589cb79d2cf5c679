//! Credential token material: random generation, digesting, base64 framing.
//!
//! A credential handed to a caller is the string `base64(prefix) "." base64(secret)`.
//! The store keeps the prefix and the SHA-256 digest of the secret; the secret
//! itself is never persisted.  The outside calls (randomness, SHA-256, base64)
//! stand behind trusted wrappers; everything else here is verified.

use vstd::prelude::*;

use base64::Engine;
use rand::Rng;
use sha2::Digest;

verus! {

/// The SHA-256 digest of a byte string, named but not written out: the digest
/// function is computed only by the outside crate.
pub uninterp spec fn sha256_of(b: Seq<u8>) -> Seq<u8>;

/// The standard (RFC 4648, padded) base64 encoding of a byte string, named but
/// not written out: the encoding is computed only by the outside crate.
pub uninterp spec fn base64_of(b: Seq<u8>) -> Seq<char>;

/// Number of random bytes in the public lookup prefix of a credential.
pub const PREFIX_LEN: usize = 6;

/// Number of random bytes in the secret part of a credential.
pub const SECRET_LEN: usize = 48;

/// Holds when no character of `s` is the `'.'` separator.
pub open spec fn dot_free(s: Seq<char>) -> bool {
    forall|i: int| 0 <= i < s.len() ==> s[i] != '.'
}

/// Holds when `s` is the wire form of a credential with prefix bytes `p` and
/// secret bytes `k`: the two base64 parts joined by a single `'.'`, both parts
/// non-empty and free of the separator.
pub open spec fn token_shape(s: Seq<char>, p: Seq<u8>, k: Seq<u8>) -> bool {
    &&& s == base64_of(p) + seq!['.'] + base64_of(k)
    &&& dot_free(base64_of(p))
    &&& dot_free(base64_of(k))
    &&& base64_of(p).len() > 0
    &&& base64_of(k).len() > 0
}

/// Relies on sha2::Sha256 through the Digest trait: the digest is a function
/// of the input bytes alone, and a SHA-256 digest is exactly 32 bytes long.
#[verifier::external_body]
pub(crate) fn hash(bytes: &[u8]) -> (r: Vec<u8>)
    ensures
        r@ == sha256_of(bytes@),
        r@.len() == 32,
{
    sha2::Sha256::digest(bytes).to_vec()
}

/// Relies on base64's STANDARD engine for encoding: the output is a function
/// of the input bytes alone, is drawn from the standard alphabet (which does
/// not contain '.'), has the padded length 4 * ceil(n / 3), and decoding
/// inverts it, so no two inputs share an encoding.
#[verifier::external_body]
pub(crate) fn b64_encode(bytes: &[u8]) -> (r: String)
    ensures
        r@ == base64_of(bytes@),
        r@.len() == ((bytes@.len() + 2) / 3) * 4,
        dot_free(r@),
        forall|b2: Seq<u8>| base64_of(b2) == r@ ==> b2 == bytes@,
{
    base64::engine::general_purpose::STANDARD.encode(bytes)
}

/// Relies on base64's STANDARD engine for decoding: it accepts exactly the
/// canonical padded encodings (no trailing bits, padding required) and inverts
/// encoding, returning the unique preimage of its input.
#[verifier::external_body]
pub(crate) fn b64_decode(s: &str) -> (r: Option<Vec<u8>>)
    ensures
        r is Some ==> base64_of(r->0@) == s@,
        forall|b: Seq<u8>| base64_of(b) == s@ ==> r is Some && r->0@ == b,
{
    base64::engine::general_purpose::STANDARD.decode(s).ok()
}

/// Relies on rand::rng (the thread-local CSPRNG) to fill the buffer; nothing
/// is assumed of the drawn bytes beyond the length of the buffer.
#[verifier::external_body]
pub(crate) fn random_bytes(n: usize) -> (r: Vec<u8>)
    ensures
        r@.len() == n,
{
    let mut buf = vec![0u8; n];
    rand::rng().fill_bytes(&mut buf);
    buf
}

/// Compares two byte strings without an early exit on the first differing
/// byte: the whole slices are always walked, so the running time does not
/// depend on where they differ.
pub fn ct_eq(a: &[u8], b: &[u8]) -> (r: bool)
    ensures
        r == (a@ == b@),
{
    if a.len() != b.len() {
        return false;
    }
    let mut diff: u8 = 0;
    let mut i: usize = 0;
    while i < a.len()
        invariant
            a@.len() == b@.len(),
            i <= a@.len(),
            (diff == 0) <==> (forall|j: int| 0 <= j < i ==> a@[j] == b@[j]),
        decreases a@.len() - i,
    {
        let x = a[i] ^ b[i];
        proof {
            let ai = a@[i as int];
            let bi = b@[i as int];
            assert((ai ^ bi) == 0 <==> ai == bi) by (bit_vector);
            let d = diff;
            assert((d | (ai ^ bi)) == 0 <==> d == 0 && (ai ^ bi) == 0) by (bit_vector);
        }
        diff = diff | x;
        i = i + 1;
    }
    proof {
        if forall|j: int| 0 <= j < a@.len() ==> a@[j] == b@[j] {
            assert(a@ =~= b@);
        }
    }
    diff == 0
}

/// In a well-shaped token the characters before the separator spell the
/// prefix part, the character between spells the separator, and the
/// characters after spell the secret part.
pub proof fn lemma_token_parts(s: Seq<char>, p: Seq<u8>, k: Seq<u8>)
    requires
        token_shape(s, p, k),
    ensures
        s.len() == base64_of(p).len() + 1 + base64_of(k).len(),
        forall|j: int|
            0 <= j < base64_of(p).len() ==> #[trigger] s[j] == base64_of(p)[j] && s[j] != '.',
        s[base64_of(p).len() as int] == '.',
        forall|j: int|
            base64_of(p).len() < j < s.len() ==> #[trigger] s[j] == base64_of(k)[j - base64_of(
                p,
            ).len() - 1] && s[j] != '.',
        s.subrange(0, base64_of(p).len() as int) == base64_of(p),
        s.subrange(base64_of(p).len() as int + 1, s.len() as int) == base64_of(k),
{
    let a = base64_of(p);
    let b = base64_of(k);
    let d = seq!['.'];
    assert(s == (a + d) + b);
    assert(s.len() == a.len() + 1 + b.len());
    assert forall|j: int| 0 <= j < a.len() implies #[trigger] s[j] == a[j] && s[j] != '.' by {
        assert(s[j] == (a + d)[j]);
        assert((a + d)[j] == a[j]);
    }
    assert(s[a.len() as int] == (a + d)[a.len() as int]);
    assert(s[a.len() as int] == '.');
    assert forall|j: int| a.len() < j < s.len() implies #[trigger] s[j] == b[j - a.len() - 1] && s[j]
        != '.' by {
        assert(s[j] == b[j - (a + d).len()]);
    }
    assert(s.subrange(0, a.len() as int) =~= a);
    assert(s.subrange(a.len() as int + 1, s.len() as int) =~= b);
}

/// The first separator of a well-shaped token stands exactly after the
/// prefix part.
pub proof fn lemma_first_dot(s: Seq<char>, p: Seq<u8>, k: Seq<u8>, dot: int)
    requires
        token_shape(s, p, k),
        0 <= dot < s.len(),
        s[dot] == '.',
        forall|j: int| 0 <= j < dot ==> s[j] != '.',
    ensures
        dot == base64_of(p).len(),
{
    lemma_token_parts(s, p, k);
    let l = base64_of(p).len() as int;
    if dot < l {
        assert(s[dot] != '.');
    } else if dot > l {
        assert(s[l] == '.');
    }
}

/// Builds the wire form of a credential from its prefix and secret bytes.
pub fn build_token(prefix: &[u8], key: &[u8]) -> (t: String)
    requires
        prefix@.len() > 0,
        key@.len() > 0,
    ensures
        t@ == base64_of(prefix@) + seq!['.'] + base64_of(key@),
        token_shape(t@, prefix@, key@),
{
    let mut t = b64_encode(prefix);
    let tail = b64_encode(key);
    proof {
        reveal_strlit(".");
        assert("."@ =~= seq!['.']);
    }
    t.append(".");
    t.append(tail.as_str());
    t
}

} // verus!
