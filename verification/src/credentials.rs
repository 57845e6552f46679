//! Decoding of locally stored registry credentials.
//!
//! A docker-style credential store maps a registry index key to a base64
//! encoding of `user:pass`. The caller hands the store in as plain
//! `(index, auth)` pairs; this module resolves the special docker.io index
//! aliases, decodes the base64 entry, and splits it on the first colon,
//! treating an empty side as an absent credential.

use vstd::prelude::*;

use crate::errors::Error;
use crate::util::subvec;

verus! {

/// What the standard base64 alphabet decodes a string to, if anything.
pub uninterp spec fn base64_decode_of(s: Seq<char>) -> Option<Seq<u8>>;

/// Relies on base64's `Engine::decode` with the `STANDARD` engine: the
/// result is a function of the input characters alone, and decoding fails
/// exactly on input that is not well-formed padded base64.
#[verifier::external_body]
fn base64_decode(s: &str) -> (r: Option<Vec<u8>>)
    ensures
        (r is Some) == (base64_decode_of(s@) is Some),
        r is Some ==> r.unwrap()@ == base64_decode_of(s@).unwrap(),
{
    base64::Engine::decode(&base64::engine::general_purpose::STANDARD, s).ok()
}

/// Relies on `String::from_utf8`: it succeeds exactly on valid UTF-8 and
/// yields the sequence of decoded scalar values.
#[verifier::external_body]
fn utf8_to_string(bytes: Vec<u8>) -> (r: Option<String>)
    ensures
        (r is Some) == vstd::utf8::valid_utf8(bytes@),
        r is Some ==> r.unwrap()@ == vstd::utf8::decode_utf8(bytes@),
{
    String::from_utf8(bytes).ok()
}

/// The index key under which credentials are actually stored: both
/// docker.io aliases map to the canonical v1 index URL, anything else is
/// taken as given.
pub open spec fn resolve_index_spec(index: Seq<char>) -> Seq<char> {
    if index == "docker.io"@ || index == "registry-1.docker.io"@ {
        "https://index.docker.io/v1/"@
    } else {
        index
    }
}

/// Resolve the docker.io special-casing of index keys.
pub fn resolve_index(index: &str) -> (r: String)
    ensures
        r@ == resolve_index_spec(index@),
{
    let owned: String = index.to_owned();
    if owned == String::from_str("docker.io") || owned == String::from_str("registry-1.docker.io") {
        String::from_str("https://index.docker.io/v1/")
    } else {
        owned
    }
}

/// Index of the first colon byte in `s`, or `s.len()` if there is none.
pub open spec fn first_colon(s: Seq<u8>) -> int
    decreases s.len(),
{
    if s.len() == 0 {
        0
    } else if s[0] == 58 {
        0
    } else {
        1 + first_colon(s.subrange(1, s.len() as int))
    }
}

proof fn lemma_first_colon_unique(s: Seq<u8>, i: int)
    requires
        0 <= i <= s.len(),
        forall|j: int| 0 <= j < i ==> s[j] != 58,
        i < s.len() ==> s[i] == 58,
    ensures
        first_colon(s) == i,
    decreases s.len(),
{
    if s.len() == 0 {
    } else if i == 0 {
    } else {
        let t = s.subrange(1, s.len() as int);
        assert forall|j: int| 0 <= j < i - 1 implies t[j] != 58 by {
            assert(t[j] == s[j + 1]);
        }
        assert(i - 1 < t.len() ==> t[i - 1] == s[i]);
        lemma_first_colon_unique(t, i - 1);
    }
}

/// How a decoded `user:pass` byte string splits into the two optional
/// credentials: no colon at all yields neither, and an empty side of the
/// first colon is absent — a bare `:` therefore yields neither side.
pub open spec fn split_credentials_spec(s: Seq<u8>) -> (Option<Seq<char>>, Option<Seq<char>>) {
    let i = first_colon(s);
    if i == s.len() {
        (None, None)
    } else {
        let u = s.subrange(0, i);
        let p = s.subrange(i + 1, s.len() as int);
        if u.len() == 0 && p.len() == 0 {
            (None, None)
        } else if u.len() == 0 {
            (None, Some(vstd::utf8::decode_utf8(p)))
        } else if p.len() == 0 {
            (Some(vstd::utf8::decode_utf8(u)), None)
        } else {
            (Some(vstd::utf8::decode_utf8(u)), Some(vstd::utf8::decode_utf8(p)))
        }
    }
}

/// True when a decoded credential entry can be turned into strings: the
/// whole entry must be valid UTF-8, and so must each side of the first
/// colon when one is present.
pub open spec fn credentials_decodable(s: Seq<u8>) -> bool {
    let i = first_colon(s);
    vstd::utf8::valid_utf8(s) && (i < s.len() ==> vstd::utf8::valid_utf8(s.subrange(0, i))
        && vstd::utf8::valid_utf8(s.subrange(i + 1, s.len() as int)))
}

/// Does an optional string carry exactly this optional character sequence?
pub open spec fn opt_str_is(x: Option<String>, s: Option<Seq<char>>) -> bool {
    match x {
        Option::Some(v) => s is Some && v@ == s.unwrap(),
        Option::None => s is None,
    }
}

/// Split a base64-decoded credential entry on its first colon.
///
/// Follows the docker config convention: `user:pass` yields both sides,
/// `:pass` only a password, `user:` only a user, and an entry without any
/// colon — or a bare `:` — yields neither.
pub fn credentials_from_bytes(bytes: &Vec<u8>) -> (r: Result<(Option<String>, Option<String>), Error>)
    ensures
        (r is Ok) == credentials_decodable(bytes@),
        r is Ok ==> opt_str_is(r.unwrap().0, split_credentials_spec(bytes@).0),
        r is Ok ==> opt_str_is(r.unwrap().1, split_credentials_spec(bytes@).1),
        r is Err ==> (r matches Err(Error::Auth(_))),
{
    let whole = utf8_to_string(bytes.clone());
    if whole.is_none() {
        return Err(Error::Auth(String::from_str("credential entry is not valid utf-8")));
    }
    let n: usize = bytes.len();
    let mut i: usize = 0;
    while i < n && bytes[i] != 58
        invariant
            0 <= i <= n == bytes@.len(),
            forall|j: int| 0 <= j < i ==> bytes@[j] != 58,
        decreases n - i,
    {
        i = i + 1;
    }
    proof {
        lemma_first_colon_unique(bytes@, i as int);
    }
    if i == n {
        return Ok((None, None));
    }
    let u_is_empty = i == 0;
    let p_is_empty = i + 1 == n;
    let u_bytes = subvec(bytes, 0, i);
    let p_bytes = subvec(bytes, i + 1, n);
    let u_str = utf8_to_string(u_bytes);
    let p_str = utf8_to_string(p_bytes);
    match (u_str, p_str) {
        (Some(u), Some(p)) => {
            if u_is_empty && p_is_empty {
                Ok((None, None))
            } else if u_is_empty {
                Ok((None, Some(p)))
            } else if p_is_empty {
                Ok((Some(u), None))
            } else {
                Ok((Some(u), Some(p)))
            }
        },
        _ => Err(Error::Auth(String::from_str("credential entry is not valid utf-8"))),
    }
}

/// The auth entry stored under the resolved `key`: stored index keys are
/// canonicalized the same way the queried index is, so an entry keyed
/// under either docker.io alias is found whichever alias is asked for.
/// The first matching pair wins.
pub open spec fn lookup_auth(auths: Seq<(String, String)>, key: Seq<char>) -> Option<Seq<char>>
    decreases auths.len(),
{
    if auths.len() == 0 {
        None
    } else if resolve_index_spec(auths[0].0@) == key {
        Some(auths[0].1@)
    } else {
        lookup_auth(auths.subrange(1, auths.len() as int), key)
    }
}

/// The three ways a credential lookup can come out.
pub ghost enum CredOutcome {
    MissingEntry,
    Undecodable,
    Creds(Option<Seq<char>>, Option<Seq<char>>),
}

/// The whole credential-decoding pipeline as one mathematical function:
/// resolve the index, look the entry up, decode its base64, split on the
/// first colon.
pub open spec fn credentials_outcome(auths: Seq<(String, String)>, index: Seq<char>) -> CredOutcome {
    match lookup_auth(auths, resolve_index_spec(index)) {
        Option::None => CredOutcome::MissingEntry,
        Option::Some(a) => match base64_decode_of(a) {
            Option::None => CredOutcome::Undecodable,
            Option::Some(bytes) => if credentials_decodable(bytes) {
                CredOutcome::Creds(split_credentials_spec(bytes).0, split_credentials_spec(bytes).1)
            } else {
                CredOutcome::Undecodable
            },
        },
    }
}

/// Get registry credentials from a decoded credential store.
///
/// The store is handed in as `(index, auth)` pairs, exactly as they stood
/// under `auths` in the configuration file; `index` is the registry the
/// caller wants to talk to. Both the queried index and the stored keys are
/// canonicalized, so the docker.io aliases find each other's entries.
/// Returns the optional username and password, an `AuthInfoMissing` error
/// naming the resolved index when the store has no entry for it, and an
/// `Auth` error when the entry cannot be decoded.
pub fn get_credentials(auths: &Vec<(String, String)>, index: &str) -> (r: Result<
    (Option<String>, Option<String>),
    Error,
>)
    ensures
        (match credentials_outcome(auths@, index@) {
            CredOutcome::MissingEntry => (r matches Err(Error::AuthInfoMissing(m))
                && m@ == resolve_index_spec(index@)),
            CredOutcome::Undecodable => (r matches Err(Error::Auth(_))),
            CredOutcome::Creds(u, p) => (r matches Ok(c) && opt_str_is(c.0, u) && opt_str_is(
                c.1,
                p,
            )),
        }),
{
    let real_index = resolve_index(index);
    let n: usize = auths.len();
    proof {
        assert(auths@.subrange(0, n as int) =~= auths@);
    }
    let mut i: usize = 0;
    while i < n
        invariant
            0 <= i <= n == auths@.len(),
            real_index@ == resolve_index_spec(index@),
            lookup_auth(auths@, real_index@) == lookup_auth(
                auths@.subrange(i as int, n as int),
                real_index@,
            ),
            forall|j: int| 0 <= j < i ==> resolve_index_spec(auths@[j].0@) != real_index@,
        decreases n - i,
    {
        proof {
            assert(auths@.subrange(i as int, n as int).len() == n - i);
            assert(auths@.subrange(i as int, n as int)[0] == auths@[i as int]);
            assert(auths@.subrange(i as int, n as int).subrange(1, (n - i) as int) =~= auths@
                .subrange(i as int + 1, n as int));
        }
        if resolve_index(auths[i].0.as_str()) == real_index {
            let auth = &auths[i].1;
            let decoded = base64_decode(auth.as_str());
            match decoded {
                Some(bytes) => {
                    let creds = credentials_from_bytes(&bytes)?;
                    return Ok(creds);
                },
                None => {
                    return Err(
                        Error::Auth(String::from_str("credential entry is not valid base64")),
                    );
                },
            }
        }
        i = i + 1;
    }
    proof {
        assert(auths@.subrange(n as int, n as int).len() == 0);
    }
    Err(Error::AuthInfoMissing(real_index))
}

} // verus!
