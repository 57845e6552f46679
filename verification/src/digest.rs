//! Content digests: parsing, computing and verifying.
//!
//! A digest names content as `sha256:<64 lower-case hex digits>`. Every
//! blob and manifest body fetched from a registry is re-hashed and held
//! against the digest that was requested or announced; a mismatch is fatal
//! and the content is discarded.

use vstd::prelude::*;

use crate::errors::Error;
use crate::util::bytes_eq;

verus! {

/// The algorithms a digest prefix can name.
#[derive(Debug)]
pub enum DigestAlgorithm {
    Sha256,
}

/// An algorithm-prefixed content hash, held as its algorithm and the raw
/// bytes of its lower-case hex digits.
#[derive(Debug)]
pub struct Digest {
    pub algorithm: DigestAlgorithm,
    pub hex: Vec<u8>,
}

/// What the SHA-256 function maps a byte string to.
pub uninterp spec fn sha256_of(bytes: Seq<u8>) -> Seq<u8>;

/// Relies on sha2's `Sha256`: the 32-byte digest is a function of the
/// input bytes alone.
#[verifier::external_body]
fn sha256(bytes: &Vec<u8>) -> (h: Vec<u8>)
    ensures
        h@ == sha256_of(bytes@),
        h@.len() == 32,
{
    <sha2::Sha256 as sha2::Digest>::digest(bytes.as_slice()).to_vec()
}

/// Is this byte a lower-case hex digit?
pub open spec fn is_lower_hex(b: u8) -> bool {
    (48 <= b <= 57) || (97 <= b <= 102)
}

/// The lower-case hex digit for a value below sixteen.
pub open spec fn hex_digit(n: u8) -> u8 {
    if n < 10 {
        (48 + n) as u8
    } else {
        (87 + n) as u8
    }
}

/// The lower-case hex encoding of a byte string, high nibble first.
pub open spec fn hex_of(s: Seq<u8>) -> Seq<u8> {
    Seq::new(
        2 * s.len(),
        |i: int|
            if i % 2 == 0 {
                hex_digit(s[i / 2] >> 4)
            } else {
                hex_digit(s[i / 2] & 15)
            },
    )
}

proof fn lemma_hex_of_digits(s: Seq<u8>)
    ensures
        forall|i: int| 0 <= i < hex_of(s).len() ==> is_lower_hex(#[trigger] hex_of(s)[i]),
{
    assert forall|i: int| 0 <= i < hex_of(s).len() implies is_lower_hex(#[trigger] hex_of(s)[i]) by {
        let b = s[i / 2];
        assert((b >> 4) < 16 && (b & 15) < 16) by (bit_vector);
    }
}

fn hex_digit_exec(n: u8) -> (r: u8)
    requires
        n < 16,
    ensures
        r == hex_digit(n),
{
    if n < 10 {
        48 + n
    } else {
        87 + n
    }
}

/// Encode a byte string as lower-case hex.
pub fn hex_lower(bytes: &Vec<u8>) -> (r: Vec<u8>)
    requires
        bytes@.len() < 0x8000_0000_0000_0000,
    ensures
        r@ == hex_of(bytes@),
{
    let n: usize = bytes.len();
    let mut r: Vec<u8> = Vec::new();
    let mut i: usize = 0;
    while i < n
        invariant
            0 <= i <= n == bytes@.len(),
            n < 0x8000_0000_0000_0000,
            r@.len() == 2 * i,
            forall|j: int| 0 <= j < 2 * i ==> r@[j] == hex_of(bytes@)[j],
        decreases n - i,
    {
        let b = bytes[i];
        proof {
            assert((b >> 4) < 16 && (b & 15) < 16) by (bit_vector);
        }
        r.push(hex_digit_exec(b >> 4));
        r.push(hex_digit_exec(b & 15));
        i = i + 1;
    }
    proof {
        assert(r@ =~= hex_of(bytes@));
    }
    r
}

/// The bytes of the `sha256:` digest prefix.
pub open spec fn sha256_prefix() -> Seq<u8> {
    seq![115u8, 104u8, 97u8, 50u8, 53u8, 54u8, 58u8]
}

/// Is this byte string a well-formed sha256 digest reference?
pub open spec fn valid_digest_str(s: Seq<u8>) -> bool {
    s.len() == 71 && s.subrange(0, 7) == sha256_prefix() && (forall|i: int|
        7 <= i < 71 ==> is_lower_hex(s[i]))
}

/// A well-formed digest value: 64 lower-case hex digits.
pub open spec fn digest_wf(d: Digest) -> bool {
    d.hex@.len() == 64 && (forall|i: int| 0 <= i < 64 ==> is_lower_hex(d.hex@[i]))
}

/// Parse an algorithm-prefixed digest reference such as
/// `sha256:<64 hex digits>`; anything else is a protocol error.
pub fn parse_digest(s: &Vec<u8>) -> (r: Result<Digest, Error>)
    ensures
        (r is Ok) == valid_digest_str(s@),
        r is Ok ==> (r.unwrap().algorithm is Sha256 && r.unwrap().hex@ == s@.subrange(7, 71)
            && digest_wf(r.unwrap())),
        r is Err ==> (r matches Err(Error::Protocol(_))),
{
    if s.len() != 71 {
        return Err(Error::Protocol(String::from_str("digest reference is malformed")));
    }
    let mut pre: Vec<u8> = Vec::new();
    pre.push(115);
    pre.push(104);
    pre.push(97);
    pre.push(50);
    pre.push(53);
    pre.push(54);
    pre.push(58);
    proof {
        assert(pre@ =~= sha256_prefix());
    }
    let head = crate::util::subvec(s, 0, 7);
    if !bytes_eq(&head, &pre) {
        proof {
            assert(head@ == s@.subrange(0, 7));
        }
        return Err(Error::Protocol(String::from_str("digest reference is malformed")));
    }
    let mut i: usize = 7;
    while i < 71
        invariant
            7 <= i <= 71,
            s@.len() == 71,
            forall|j: int| 7 <= j < i ==> is_lower_hex(s@[j]),
        decreases 71 - i,
    {
        let b = s[i];
        if !((48 <= b && b <= 57) || (97 <= b && b <= 102)) {
            return Err(Error::Protocol(String::from_str("digest reference is malformed")));
        }
        i = i + 1;
    }
    let hex = crate::util::subvec(s, 7, 71);
    proof {
        assert(forall|j: int| 0 <= j < 64 ==> hex@[j] == s@[j + 7]);
    }
    Ok(Digest { algorithm: DigestAlgorithm::Sha256, hex })
}

/// The digest of given content under its declared algorithm.
pub fn compute_digest(content: &Vec<u8>) -> (d: Digest)
    ensures
        d.algorithm is Sha256,
        d.hex@ == hex_of(sha256_of(content@)),
        digest_wf(d),
{
    let h = sha256(content);
    let hex = hex_lower(&h);
    proof {
        lemma_hex_of_digits(h@);
    }
    Digest { algorithm: DigestAlgorithm::Sha256, hex }
}

/// Verify fetched content against the digest it was requested under.
///
/// Succeeds exactly when re-hashing the content with the digest's declared
/// algorithm reproduces the digest; any discrepancy is a fatal
/// `DigestMismatch` carrying both hex forms.
pub fn verify_content(content: &Vec<u8>, digest: &Digest) -> (r: Result<(), Error>)
    ensures
        (r is Ok) == (hex_of(sha256_of(content@)) == digest.hex@),
        r is Err ==> (r matches Err(Error::DigestMismatch { expected, computed }) && expected@
            == digest.hex@ && computed@ == hex_of(sha256_of(content@))),
{
    let h = sha256(content);
    let computed = hex_lower(&h);
    if bytes_eq(&computed, &digest.hex) {
        Ok(())
    } else {
        let expected = crate::util::subvec(&digest.hex, 0, digest.hex.len());
        proof {
            assert(expected@ =~= digest.hex@);
        }
        Err(Error::DigestMismatch { expected, computed })
    }
}

/// A blob paired with the digest it was held against. The fields are
/// plain data: only `accept` certifies anything, and it returns a value
/// exactly when `blob_wf` holds of it — when the content re-hashes to
/// the digest. A `VerifiedBlob` built directly from its fields carries
/// no such guarantee, so content meant for the renderer must come
/// through `accept`.
pub struct VerifiedBlob {
    pub digest: Digest,
    pub content: Vec<u8>,
}

/// A verified blob's invariant: its content re-hashes to its digest.
pub open spec fn blob_wf(b: VerifiedBlob) -> bool {
    hex_of(sha256_of(b.content@)) == b.digest.hex@
}

impl VerifiedBlob {
    /// Accept content only if it matches `digest`.
    pub fn accept(content: Vec<u8>, digest: Digest) -> (r: Result<VerifiedBlob, Error>)
        ensures
            (r is Ok) == (hex_of(sha256_of(content@)) == digest.hex@),
            r is Ok ==> (blob_wf(r.unwrap()) && r.unwrap().content@ == content@
                && r.unwrap().digest.hex@ == digest.hex@),
            r is Err ==> (r matches Err(Error::DigestMismatch { .. })),
    {
        match verify_content(&content, &digest) {
            Ok(()) => Ok(VerifiedBlob { digest, content }),
            Err(e) => Err(e),
        }
    }
}

proof fn lemma_hex_digit_inj(a: u8, b: u8)
    requires
        a < 16,
        b < 16,
        hex_digit(a) == hex_digit(b),
    ensures
        a == b,
{
}

/// Re-hashing law: the hex encoding pins the hash down exactly, so content
/// accepted by `verify_content` re-hashes to the very digest requested,
/// byte for byte.
pub proof fn lemma_hex_of_injective(a: Seq<u8>, b: Seq<u8>)
    requires
        hex_of(a) == hex_of(b),
    ensures
        a == b,
{
    assert(hex_of(a).len() == 2 * a.len());
    assert(hex_of(b).len() == 2 * b.len());
    assert(a.len() == b.len());
    assert forall|i: int| 0 <= i < a.len() implies a[i] == b[i] by {
        let x = a[i];
        let y = b[i];
        assert(hex_of(a)[2 * i] == hex_digit(x >> 4));
        assert(hex_of(b)[2 * i] == hex_digit(y >> 4));
        assert(hex_of(a)[2 * i + 1] == hex_digit(x & 15));
        assert(hex_of(b)[2 * i + 1] == hex_digit(y & 15));
        assert((x >> 4) < 16 && (y >> 4) < 16 && (x & 15) < 16 && (y & 15) < 16) by (bit_vector);
        lemma_hex_digit_inj(x >> 4, y >> 4);
        lemma_hex_digit_inj(x & 15, y & 15);
        assert(x >> 4 == y >> 4 && x & 15 == y & 15 ==> x == y) by (bit_vector);
    }
    assert(a =~= b);
}

} // verus!
