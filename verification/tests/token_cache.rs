//! Single-flight behaviour of the bearer-token cache.

use docker_registry::auth::{TokenAction, TokenCache};

const SCOPE: &str = "repository:library/alpine:pull";

#[test]
fn uncached_scope_starts_exactly_one_fetch() {
    let mut cache = TokenCache::new();
    let scope = SCOPE.to_string();
    // The first request needing the uncached scope-set is told to fetch.
    assert!(matches!(cache.acquire(&scope, 1000, 60), TokenAction::StartFetch));
    // Every further concurrent request for the same scope-set is told to
    // wait for that one fetch: no second token-endpoint call is made.
    assert!(matches!(cache.acquire(&scope, 1000, 60), TokenAction::Wait));
    assert!(matches!(cache.acquire(&scope, 1001, 60), TokenAction::Wait));
    assert!(matches!(cache.acquire(&scope, 1002, 60), TokenAction::Wait));
    // Once the fetch completes, all waiters are handed the same token.
    cache.complete(&scope, "tok-1".to_string(), 5000);
    for _ in 0..3 {
        match cache.acquire(&scope, 1003, 60) {
            TokenAction::UseCached(t) => assert_eq!(t, "tok-1"),
            other => panic!("expected the cached token, got {other:?}"),
        }
    }
}

#[test]
fn distinct_scope_sets_fetch_independently() {
    let mut cache = TokenCache::new();
    let pull = "repository:library/alpine:pull".to_string();
    let push = "repository:library/alpine:push".to_string();
    assert!(matches!(cache.acquire(&pull, 0, 0), TokenAction::StartFetch));
    // A different scope-set is not blocked by the outstanding fetch.
    assert!(matches!(cache.acquire(&push, 0, 0), TokenAction::StartFetch));
    assert!(matches!(cache.acquire(&pull, 0, 0), TokenAction::Wait));
    assert!(matches!(cache.acquire(&push, 0, 0), TokenAction::Wait));
}

#[test]
fn expired_token_is_not_reused() {
    let mut cache = TokenCache::new();
    let scope = SCOPE.to_string();
    assert!(matches!(cache.acquire(&scope, 100, 10), TokenAction::StartFetch));
    cache.complete(&scope, "tok-1".to_string(), 200);
    // Within the window, minus the safety margin, the token is reused.
    assert!(matches!(cache.acquire(&scope, 150, 10), TokenAction::UseCached(_)));
    // Within the margin of expiry it is not.
    assert!(matches!(cache.acquire(&scope, 195, 10), TokenAction::StartFetch));
}

#[test]
fn refresh_replaces_the_cached_token() {
    let mut cache = TokenCache::new();
    let scope = SCOPE.to_string();
    assert!(matches!(cache.acquire(&scope, 0, 0), TokenAction::StartFetch));
    cache.complete(&scope, "tok-1".to_string(), 100);
    assert!(matches!(cache.acquire(&scope, 200, 0), TokenAction::StartFetch));
    cache.complete(&scope, "tok-2".to_string(), 300);
    match cache.acquire(&scope, 200, 0) {
        TokenAction::UseCached(t) => assert_eq!(t, "tok-2"),
        other => panic!("expected the refreshed token, got {other:?}"),
    }
}

#[test]
fn abandoned_fetch_lets_the_next_caller_retry() {
    let mut cache = TokenCache::new();
    let scope = SCOPE.to_string();
    assert!(matches!(cache.acquire(&scope, 0, 0), TokenAction::StartFetch));
    assert!(matches!(cache.acquire(&scope, 0, 0), TokenAction::Wait));
    // The fetch fails; the failure is propagated to the waiters and the
    // scope-set is no longer outstanding.
    cache.abandon(&scope);
    assert!(matches!(cache.acquire(&scope, 0, 0), TokenAction::StartFetch));
}
