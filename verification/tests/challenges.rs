//! Parsing of WWW-Authenticate challenges and token-request building.

use docker_registry::auth::{parse_challenge, pull_scope, token_url, ChallengeScheme};
use docker_registry::errors::Error;

#[test]
fn bearer_challenge_yields_realm_service_and_scope() {
    let header = br#"Bearer realm="https://auth.docker.io/token",service="registry.docker.io",scope="repository:library/alpine:pull""#.to_vec();
    let c = parse_challenge(&header).unwrap();
    assert_eq!(c.scheme, ChallengeScheme::Bearer);
    assert_eq!(c.realm.unwrap(), b"https://auth.docker.io/token".to_vec());
    assert_eq!(c.service.unwrap(), b"registry.docker.io".to_vec());
    assert_eq!(c.scope.unwrap(), b"repository:library/alpine:pull".to_vec());
}

#[test]
fn bearer_challenge_params_may_be_absent() {
    let header = br#"Bearer realm="https://auth.example.com/token""#.to_vec();
    let c = parse_challenge(&header).unwrap();
    assert_eq!(c.scheme, ChallengeScheme::Bearer);
    assert_eq!(c.realm.unwrap(), b"https://auth.example.com/token".to_vec());
    assert!(c.service.is_none());
    assert!(c.scope.is_none());
}

#[test]
fn basic_challenge_yields_realm_only() {
    let header = br#"Basic realm="registry""#.to_vec();
    let c = parse_challenge(&header).unwrap();
    assert_eq!(c.scheme, ChallengeScheme::Basic);
    assert_eq!(c.realm.unwrap(), b"registry".to_vec());
    assert!(c.service.is_none());
    assert!(c.scope.is_none());
}

#[test]
fn unknown_scheme_is_an_auth_error() {
    let header = b"Digest realm=\"x\"".to_vec();
    assert!(matches!(parse_challenge(&header).unwrap_err(), Error::Auth(_)));
}

#[test]
fn token_request_values_are_assembled_verbatim() {
    assert_eq!(pull_scope("library/alpine"), "repository:library/alpine:pull");
    assert_eq!(
        token_url(
            "https://auth.docker.io/token",
            "registry.docker.io",
            "repository:library/alpine:pull"
        ),
        "https://auth.docker.io/token?service=registry.docker.io&scope=repository:library/alpine:pull"
    );
}
