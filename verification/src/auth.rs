//! Bearer-token negotiation state: a cache of tokens keyed by the exact
//! scope-set they were granted for, with a single-flight discipline.
//!
//! The cache itself decides, for each request, whether a still-valid
//! cached token is reused, whether a fetch for the same scope-set is
//! already outstanding and the caller should wait for its outcome, or
//! whether the caller is the one to issue the token-endpoint request. The
//! network round trip itself is the embedding application's concern: it
//! performs the fetch this module told it to start, then reports the
//! outcome back with `complete` or `abandon`.

use vstd::prelude::*;

verus! {

/// A bearer token as granted: the opaque token string and the instant
/// (in seconds) at which it expires.
pub struct CachedToken {
    pub scope: String,
    pub token: String,
    pub expiry: u64,
}

/// The token cache plus the set of scope-sets with an outstanding fetch.
pub struct TokenCache {
    pub entries: Vec<CachedToken>,
    pub inflight: Vec<String>,
}

/// The latest grant recorded for a scope-set: its token and expiry.
pub open spec fn cache_lookup(es: Seq<CachedToken>, scope: Seq<char>) -> Option<(Seq<char>, int)>
    decreases es.len(),
{
    if es.len() == 0 {
        None
    } else if es.last().scope@ == scope {
        Some((es.last().token@, es.last().expiry as int))
    } else {
        cache_lookup(es.drop_last(), scope)
    }
}

/// Is a fetch for this scope-set outstanding?
pub open spec fn inflight_spec(fl: Seq<String>, scope: Seq<char>) -> bool
    decreases fl.len(),
{
    if fl.len() == 0 {
        false
    } else {
        fl.last()@ == scope || inflight_spec(fl.drop_last(), scope)
    }
}

/// Is a cached token for this scope-set still usable at `now`, with a
/// safety margin before its expiry?
pub open spec fn token_fresh(c: TokenCache, scope: Seq<char>, now: int, margin: int) -> bool {
    match cache_lookup(c.entries@, scope) {
        Option::Some(te) => te.1 > now + margin,
        Option::None => false,
    }
}

/// What a request needing a token for some scope-set is told to do.
#[derive(Debug)]
pub enum TokenAction {
    UseCached(String),
    Wait,
    StartFetch,
}

/// The decision `acquire` makes, as a function of the cache state.
pub ghost enum TokenDecision {
    Cached,
    Waiting,
    Fetching,
}

/// The single-flight decision rule: a fresh cached token is reused; an
/// outstanding fetch for the same scope-set is awaited; only otherwise is
/// a fetch started.
pub open spec fn acquire_decision(c: TokenCache, scope: Seq<char>, now: int, margin: int)
    -> TokenDecision {
    if token_fresh(c, scope, now, margin) {
        TokenDecision::Cached
    } else if inflight_spec(c.inflight@, scope) {
        TokenDecision::Waiting
    } else {
        TokenDecision::Fetching
    }
}

impl TokenCache {
    /// A cache with nothing stored and nothing outstanding.
    pub fn new() -> (c: TokenCache)
        ensures
            c.entries@.len() == 0,
            c.inflight@.len() == 0,
    {
        TokenCache { entries: Vec::new(), inflight: Vec::new() }
    }

    fn lookup_entry(&self, scope: &String) -> (r: Option<(String, u64)>)
        ensures
            (r is Some) == (cache_lookup(self.entries@, scope@) is Some),
            r matches Some(te) ==> cache_lookup(self.entries@, scope@) == Some(
                (te.0@, te.1 as int),
            ),
    {
        let mut i: usize = self.entries.len();
        proof {
            assert(self.entries@.subrange(0, self.entries@.len() as int) =~= self.entries@);
        }
        while i > 0
            invariant
                0 <= i <= self.entries@.len(),
                cache_lookup(self.entries@, scope@) == cache_lookup(
                    self.entries@.subrange(0, i as int),
                    scope@,
                ),
            decreases i,
        {
            i = i - 1;
            let ghost prefix = self.entries@.subrange(0, i + 1);
            proof {
                assert(prefix.drop_last() =~= self.entries@.subrange(0, i as int));
                assert(prefix.last() == self.entries@[i as int]);
            }
            if self.entries[i].scope == *scope {
                let token = self.entries[i].token.clone();
                let expiry = self.entries[i].expiry;
                return Some((token, expiry));
            }
        }
        proof {
            assert(self.entries@.subrange(0, 0) =~= Seq::<CachedToken>::empty());
        }
        None
    }

    fn is_inflight(&self, scope: &String) -> (r: bool)
        ensures
            r == inflight_spec(self.inflight@, scope@),
    {
        let mut i: usize = self.inflight.len();
        proof {
            assert(self.inflight@.subrange(0, self.inflight@.len() as int) =~= self.inflight@);
        }
        while i > 0
            invariant
                0 <= i <= self.inflight@.len(),
                inflight_spec(self.inflight@, scope@) == inflight_spec(
                    self.inflight@.subrange(0, i as int),
                    scope@,
                ),
            decreases i,
        {
            i = i - 1;
            let ghost prefix = self.inflight@.subrange(0, i + 1);
            proof {
                assert(prefix.drop_last() =~= self.inflight@.subrange(0, i as int));
                assert(prefix.last() == self.inflight@[i as int]);
            }
            if self.inflight[i] == *scope {
                return true;
            }
        }
        proof {
            assert(self.inflight@.subrange(0, 0) =~= Seq::<String>::empty());
        }
        false
    }

    /// Decide how a request needing a token for `scope` proceeds at `now`.
    ///
    /// Exactly one caller is told to fetch: the decision `StartFetch`
    /// records the scope-set as outstanding, so that every further caller
    /// is told to wait until `complete` or `abandon` resolves it.
    pub fn acquire(&mut self, scope: &String, now: u64, margin: u64) -> (a: TokenAction)
        ensures
            acquire_decision(*old(self), scope@, now as int, margin as int) is Cached ==> (a
                matches TokenAction::UseCached(t) && cache_lookup(old(self).entries@, scope@)
                matches Some(te) && t@ == te.0 && *final(self) == *old(self)),
            acquire_decision(*old(self), scope@, now as int, margin as int) is Waiting ==> (a
                is Wait && *final(self) == *old(self)),
            acquire_decision(*old(self), scope@, now as int, margin as int) is Fetching ==> (a
                is StartFetch && final(self).entries == old(self).entries && inflight_spec(
                final(self).inflight@,
                scope@,
            ) && (forall|s: Seq<char>|
                s != scope@ ==> inflight_spec(final(self).inflight@, s) == inflight_spec(
                    old(self).inflight@,
                    s,
                ))),
    {
        match self.lookup_entry(scope) {
            Some((token, expiry)) => {
                if expiry > now && expiry - now > margin {
                    return TokenAction::UseCached(token);
                }
            },
            None => {},
        }
        if self.is_inflight(scope) {
            return TokenAction::Wait;
        }
        let ghost fl = self.inflight@;
        self.inflight.push(scope.clone());
        proof {
            assert(self.inflight@.drop_last() =~= fl);
        }
        TokenAction::StartFetch
    }

    /// Record the outcome of the fetch this cache told a caller to start:
    /// the new grant replaces any earlier one for the scope-set, and the
    /// scope-set is no longer outstanding.
    pub fn complete(&mut self, scope: &String, token: String, expiry: u64)
        ensures
            cache_lookup(final(self).entries@, scope@) == Some((token@, expiry as int)),
            forall|s: Seq<char>|
                s != scope@ ==> cache_lookup(final(self).entries@, s) == cache_lookup(
                    old(self).entries@,
                    s,
                ),
            !inflight_spec(final(self).inflight@, scope@),
            forall|s: Seq<char>|
                s != scope@ ==> inflight_spec(final(self).inflight@, s) == inflight_spec(
                    old(self).inflight@,
                    s,
                ),
    {
        let ghost es = self.entries@;
        self.entries.push(CachedToken { scope: scope.clone(), token, expiry });
        proof {
            assert(self.entries@.drop_last() =~= es);
        }
        self.abandon(scope);
    }

    /// Drop the outstanding mark for a scope-set whose fetch failed; the
    /// failure is propagated to the waiters by the caller, and the next
    /// request for the scope-set will be told to fetch again.
    pub fn abandon(&mut self, scope: &String)
        ensures
            final(self).entries == old(self).entries,
            !inflight_spec(final(self).inflight@, scope@),
            forall|s: Seq<char>|
                s != scope@ ==> inflight_spec(final(self).inflight@, s) == inflight_spec(
                    old(self).inflight@,
                    s,
                ),
    {
        let ghost fl = self.inflight@;
        let mut out: Vec<String> = Vec::new();
        let mut i: usize = 0;
        proof {
            assert(fl.subrange(0, 0) =~= Seq::<String>::empty());
        }
        while i < self.inflight.len()
            invariant
                0 <= i <= self.inflight@.len(),
                fl == self.inflight@,
                !inflight_spec(out@, scope@),
                forall|s: Seq<char>|
                    s != scope@ ==> inflight_spec(out@, s) == inflight_spec(
                        fl.subrange(0, i as int),
                        s,
                    ),
            decreases self.inflight@.len() - i,
        {
            let ghost prefix = fl.subrange(0, i + 1);
            proof {
                assert(prefix.drop_last() =~= fl.subrange(0, i as int));
                assert(prefix.last() == fl[i as int]);
            }
            let ghost pre_out = out@;
            let kept = !(self.inflight[i] == *scope);
            if kept {
                out.push(self.inflight[i].clone());
                proof {
                    assert(out@.drop_last() =~= pre_out);
                    assert(out@.last()@ == fl[i as int]@);
                }
            }
            proof {
                assert forall|s: Seq<char>|
                    s != scope@ implies inflight_spec(out@, s) == inflight_spec(
                    prefix,
                    s,
                ) by {
                    if kept {
                        assert(inflight_spec(out@, s) == (out@.last()@ == s || inflight_spec(
                            pre_out,
                            s,
                        )));
                    } else {
                        assert(fl[i as int]@ == scope@);
                    }
                    assert(inflight_spec(prefix, s) == (fl[i as int]@ == s || inflight_spec(
                        fl.subrange(0, i as int),
                        s,
                    )));
                }
            }
            i = i + 1;
        }
        proof {
            assert(fl.subrange(0, fl.len() as int) =~= fl);
        }
        self.inflight = out;
    }
}

/// The schemes a `WWW-Authenticate` challenge can demand.
#[derive(PartialEq, Eq, Structural, Clone, Copy, Debug)]
pub enum ChallengeScheme {
    Bearer,
    Basic,
}

/// A parsed authentication challenge: the scheme, and the quoted
/// parameters the token endpoint needs.
#[derive(Debug)]
pub struct Challenge {
    pub scheme: ChallengeScheme,
    pub realm: Option<Vec<u8>>,
    pub service: Option<Vec<u8>>,
    pub scope: Option<Vec<u8>>,
}

/// Index of the first double quote in `s`, or `s.len()` if there is none.
pub open spec fn first_quote(s: Seq<u8>) -> int
    decreases s.len(),
{
    if s.len() == 0 {
        0
    } else if s[0] == 34 {
        0
    } else {
        1 + first_quote(s.drop_first())
    }
}

proof fn lemma_first_quote_unique(s: Seq<u8>, i: int)
    requires
        0 <= i <= s.len(),
        forall|j: int| 0 <= j < i ==> s[j] != 34,
        i < s.len() ==> s[i] == 34,
    ensures
        first_quote(s) == i,
    decreases s.len(),
{
    if s.len() == 0 {
    } else if i == 0 {
    } else {
        let t = s.drop_first();
        assert forall|j: int| 0 <= j < i - 1 implies t[j] != 34 by {
            assert(t[j] == s[j + 1]);
        }
        assert(i - 1 < t.len() ==> t[i - 1] == s[i]);
        lemma_first_quote_unique(t, i - 1);
    }
}

/// The value of the first `<pat>`-prefixed quoted parameter in `s`: the
/// bytes between the end of the first occurrence of `pat` and the next
/// double quote, if both are there.
pub open spec fn extract_param(s: Seq<u8>, pat: Seq<u8>) -> Option<Seq<u8>>
    decreases s.len(),
{
    if s.len() < pat.len() || s.len() == 0 {
        None
    } else if s.subrange(0, pat.len() as int) == pat {
        let rest = s.subrange(pat.len() as int, s.len() as int);
        if first_quote(rest) < rest.len() {
            Some(rest.subrange(0, first_quote(rest)))
        } else {
            None
        }
    } else {
        extract_param(s.drop_first(), pat)
    }
}

/// Find a quoted parameter such as `realm="..."` in a challenge header.
fn find_param(s: &Vec<u8>, pat: &Vec<u8>) -> (r: Option<Vec<u8>>)
    requires
        pat@.len() > 0,
    ensures
        (r is Some) == (extract_param(s@, pat@) is Some),
        r matches Some(v) ==> extract_param(s@, pat@) == Some(v@),
{
    let n: usize = s.len();
    let m: usize = pat.len();
    let mut i: usize = 0;
    proof {
        assert(s@.subrange(0, n as int) =~= s@);
    }
    if m > n {
        proof {
            assert(s@.subrange(0, n as int).len() < pat@.len());
        }
        return None;
    }
    let bound: usize = n - m;
    while i <= bound
        invariant
            0 <= i <= bound + 1,
            bound == n - m,
            n == s@.len(),
            m == pat@.len(),
            0 < m,
            extract_param(s@, pat@) == extract_param(s@.subrange(i as int, n as int), pat@),
        decreases bound + 1 - i,
    {
        let ghost tail = s@.subrange(i as int, n as int);
        let head = crate::util::subvec(s, i, i + m);
        proof {
            assert(head@ =~= tail.subrange(0, m as int));
        }
        if crate::util::bytes_eq(&head, pat) {
            let ghost rest = tail.subrange(m as int, tail.len() as int);
            let mut j: usize = i + m;
            while j < n && s[j] != 34
                invariant
                    i + m <= j <= n == s@.len(),
                    rest == s@.subrange(i + m, n as int),
                    forall|k: int| i + m <= k < j ==> s@[k] != 34,
                decreases n - j,
            {
                j = j + 1;
            }
            proof {
                assert forall|k: int| 0 <= k < j - (i + m) implies rest[k] != 34 by {
                    assert(rest[k] == s@[k + i + m]);
                }
                assert(j - (i + m) < rest.len() ==> rest[j - (i + m)] == s@[j as int]);
                lemma_first_quote_unique(rest, j - (i + m));
            }
            if j == n {
                return None;
            }
            let v = crate::util::subvec(s, i + m, j);
            proof {
                assert(v@ =~= rest.subrange(0, first_quote(rest)));
            }
            return Some(v);
        }
        proof {
            assert(tail.drop_first() =~= s@.subrange(i + 1, n as int));
        }
        i = i + 1;
    }
    proof {
        let ghost tail = s@.subrange(i as int, n as int);
        assert(tail.len() < pat@.len());
    }
    None
}

fn ascii_vec_bearer() -> (v: Vec<u8>)
    ensures
        v@ == "Bearer "@.map_values(|c: char| c as u8),
{
    let mut v: Vec<u8> = Vec::new();
    v.push(66);
    v.push(101);
    v.push(97);
    v.push(114);
    v.push(101);
    v.push(114);
    v.push(32);
    proof {
        reveal_strlit("Bearer ");
        assert(v@ =~= "Bearer "@.map_values(|c: char| c as u8));
    }
    v
}

fn ascii_vec_basic() -> (v: Vec<u8>)
    ensures
        v@ == "Basic"@.map_values(|c: char| c as u8),
{
    let mut v: Vec<u8> = Vec::new();
    v.push(66);
    v.push(97);
    v.push(115);
    v.push(105);
    v.push(99);
    proof {
        reveal_strlit("Basic");
        assert(v@ =~= "Basic"@.map_values(|c: char| c as u8));
    }
    v
}

fn ascii_param(name: &str) -> (v: Vec<u8>)
    requires
        name@ == "realm=\""@ || name@ == "service=\""@ || name@ == "scope=\""@,
    ensures
        v@ == name@.map_values(|c: char| c as u8),
{
    let bytes = name.as_bytes();
    let mut v: Vec<u8> = Vec::new();
    let mut i: usize = 0;
    proof {
        reveal_strlit("realm=\"");
        reveal_strlit("service=\"");
        reveal_strlit("scope=\"");
        vstd::string::is_ascii_spec_bytes(name);
        assert(name.is_ascii());
        assert(bytes@ =~= name@.map_values(|c: char| c as u8));
    }
    while i < bytes.len()
        invariant
            0 <= i <= bytes@.len(),
            v@ == bytes@.subrange(0, i as int),
        decreases bytes@.len() - i,
    {
        v.push(bytes[i]);
        proof {
            assert(v@ =~= bytes@.subrange(0, i + 1));
        }
        i = i + 1;
    }
    proof {
        assert(bytes@.subrange(0, bytes@.len() as int) =~= bytes@);
    }
    v
}

/// The byte form of a parameter pattern such as `realm="`.
pub open spec fn param_pat(name: Seq<char>) -> Seq<u8> {
    name.map_values(|c: char| c as u8)
}

/// The scheme a challenge header demands, by its leading word.
pub open spec fn challenge_scheme_of(s: Seq<u8>) -> Option<ChallengeScheme> {
    if s.len() >= 7 && s.subrange(0, 7) == param_pat("Bearer "@) {
        Some(ChallengeScheme::Bearer)
    } else if s.len() >= 5 && s.subrange(0, 5) == param_pat("Basic"@) {
        Some(ChallengeScheme::Basic)
    } else {
        None
    }
}

/// Parse a `WWW-Authenticate` challenge header.
///
/// `Bearer` challenges carry the realm to ask for a token, and optionally
/// the service and scope to ask it for; `Basic` challenges carry at most
/// a realm. A header with any other scheme is an unparsable challenge,
/// reported as an authentication error.
pub fn parse_challenge(header: &Vec<u8>) -> (r: Result<Challenge, crate::errors::Error>)
    ensures
        (r is Ok) == (challenge_scheme_of(header@) is Some),
        r matches Ok(c) ==> {
            &&& Some(c.scheme) == challenge_scheme_of(header@)
            &&& ((c.realm is Some) == (extract_param(header@, param_pat("realm=\""@)) is Some))
            &&& (c.realm matches Some(v) ==> extract_param(header@, param_pat("realm=\""@))
                == Some(v@))
            &&& ((c.service is Some) == (c.scheme is Bearer && extract_param(
                header@,
                param_pat("service=\""@),
            ) is Some))
            &&& (c.service matches Some(v) ==> extract_param(header@, param_pat("service=\""@))
                == Some(v@))
            &&& ((c.scope is Some) == (c.scheme is Bearer && extract_param(
                header@,
                param_pat("scope=\""@),
            ) is Some))
            &&& (c.scope matches Some(v) ==> extract_param(header@, param_pat("scope=\""@)) == Some(
                v@,
            ))
        },
        r is Err ==> (r matches Err(crate::errors::Error::Auth(_))),
{
    let bearer = ascii_vec_bearer();
    let basic = ascii_vec_basic();
    let scheme = if header.len() >= 7 && {
        let head = crate::util::subvec(header, 0, 7);
        crate::util::bytes_eq(&head, &bearer)
    } {
        proof {
            reveal_strlit("Bearer ");
        }
        Some(ChallengeScheme::Bearer)
    } else if header.len() >= 5 && {
        let head = crate::util::subvec(header, 0, 5);
        crate::util::bytes_eq(&head, &basic)
    } {
        proof {
            reveal_strlit("Bearer ");
            reveal_strlit("Basic");
        }
        Some(ChallengeScheme::Basic)
    } else {
        proof {
            reveal_strlit("Bearer ");
            reveal_strlit("Basic");
        }
        None
    };
    match scheme {
        None => Err(
            crate::errors::Error::Auth(
                String::from_str("challenge demands an unsupported scheme"),
            ),
        ),
        Some(ChallengeScheme::Basic) => {
            proof {
                reveal_strlit("realm=\"");
            }
            let realm = find_param(header, &ascii_param("realm=\""));
            Ok(Challenge { scheme: ChallengeScheme::Basic, realm, service: None, scope: None })
        },
        Some(ChallengeScheme::Bearer) => {
            proof {
                reveal_strlit("realm=\"");
                reveal_strlit("service=\"");
                reveal_strlit("scope=\"");
            }
            let realm = find_param(header, &ascii_param("realm=\""));
            let service = find_param(header, &ascii_param("service=\""));
            let scope = find_param(header, &ascii_param("scope=\""));
            Ok(Challenge { scheme: ChallengeScheme::Bearer, realm, service, scope })
        },
    }
}

/// The login scope asking to pull one repository:
/// `repository:<name>:pull`.
pub fn pull_scope(repository: &str) -> (r: String)
    ensures
        r@ == "repository:"@ + repository@ + ":pull"@,
{
    let mut s = String::from_str("repository:");
    s.append(repository);
    s.append(":pull");
    proof {
        assert(s@ =~= "repository:"@ + repository@ + ":pull"@);
    }
    s
}

/// The token-endpoint URL for a challenge:
/// `<realm>?service=<service>&scope=<scope>`.
pub fn token_url(realm: &str, service: &str, scope: &str) -> (r: String)
    ensures
        r@ == realm@ + "?service="@ + service@ + "&scope="@ + scope@,
{
    let mut s = String::new();
    s.append(realm);
    s.append("?service=");
    s.append(service);
    s.append("&scope=");
    s.append(scope);
    proof {
        assert(s@ =~= realm@ + "?service="@ + service@ + "&scope="@ + scope@);
    }
    s
}

/// Single-flight law, first caller: with no fresh token and no fetch
/// outstanding for the scope-set, the decision is to fetch.
pub proof fn lemma_first_caller_fetches(c: TokenCache, scope: Seq<char>, now: int, margin: int)
    requires
        !token_fresh(c, scope, now, margin),
        !inflight_spec(c.inflight@, scope),
    ensures
        acquire_decision(c, scope, now, margin) is Fetching,
{
}

/// Single-flight law, every other caller: while a fetch for the scope-set
/// is outstanding and no fresh token has appeared, every further request
/// for that scope-set is told to wait — no second fetch is started.
pub proof fn lemma_single_flight_waits(c: TokenCache, scope: Seq<char>, now: int, margin: int)
    requires
        inflight_spec(c.inflight@, scope),
        !token_fresh(c, scope, now, margin),
    ensures
        acquire_decision(c, scope, now, margin) is Waiting,
{
}

/// Single-flight law, any number of waiters: however many requests for
/// the scope-set arrive while its one fetch is outstanding, each is told
/// to wait, and a waiting request leaves the cache unchanged — so the
/// whole group causes exactly the one fetch.
pub proof fn lemma_n_waiters(c: TokenCache, scope: Seq<char>, asks: Seq<(int, int)>)
    requires
        inflight_spec(c.inflight@, scope),
        forall|i: int| 0 <= i < asks.len() ==> !token_fresh(c, scope, asks[i].0, asks[i].1),
    ensures
        forall|i: int|
            0 <= i < asks.len() ==> acquire_decision(c, scope, asks[i].0, asks[i].1) is Waiting,
{
}

/// Single-flight law, after completion: once the one fetch completes,
/// every request for the scope-set within the token's validity window is
/// handed that very token.
pub proof fn lemma_waiters_share_token(
    c: TokenCache,
    scope: Seq<char>,
    token: Seq<char>,
    expiry: int,
    now: int,
    margin: int,
)
    requires
        cache_lookup(c.entries@, scope) == Some((token, expiry)),
        expiry > now + margin,
    ensures
        acquire_decision(c, scope, now, margin) is Cached,
        cache_lookup(c.entries@, scope) matches Some(te) && te.0 == token,
{
}

} // verus!
