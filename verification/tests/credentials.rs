//! Credential decoding against docker-style stores.

use base64::Engine;
use docker_registry::credentials::get_credentials;
use docker_registry::errors::Error;
use docker_registry::fetch::{backoff_ms, should_retry};

fn b64(s: &str) -> String {
    base64::engine::general_purpose::STANDARD.encode(s.as_bytes())
}

fn store(index: &str, auth: String) -> Vec<(String, String)> {
    vec![(index.to_string(), auth)]
}

#[test]
fn docker_io_alias_resolves_to_v1_index() {
    let auths = store("https://index.docker.io/v1/", b64("alice:secret"));
    let creds = get_credentials(&auths, "docker.io").unwrap();
    assert_eq!(creds, (Some("alice".to_string()), Some("secret".to_string())));
    let creds = get_credentials(&auths, "registry-1.docker.io").unwrap();
    assert_eq!(creds, (Some("alice".to_string()), Some("secret".to_string())));
}

#[test]
fn plain_index_is_looked_up_as_given() {
    let auths = store("quay.io", b64("bob:hunter2"));
    let creds = get_credentials(&auths, "quay.io").unwrap();
    assert_eq!(creds, (Some("bob".to_string()), Some("hunter2".to_string())));
}

#[test]
fn empty_user_side_yields_absent_username() {
    let auths = store("quay.io", b64(":secret"));
    let creds = get_credentials(&auths, "quay.io").unwrap();
    assert_eq!(creds, (None, Some("secret".to_string())));
}

#[test]
fn empty_password_side_yields_absent_password() {
    let auths = store("quay.io", b64("alice:"));
    let creds = get_credentials(&auths, "quay.io").unwrap();
    assert_eq!(creds, (Some("alice".to_string()), None));
}

#[test]
fn entry_without_colon_yields_neither() {
    let auths = store("quay.io", b64("tokenonly"));
    let creds = get_credentials(&auths, "quay.io").unwrap();
    assert_eq!(creds, (None, None));
}

#[test]
fn absent_index_entry_is_auth_info_missing() {
    let auths = store("quay.io", b64("alice:secret"));
    let err = get_credentials(&auths, "ghcr.io").unwrap_err();
    match err {
        Error::AuthInfoMissing(index) => assert_eq!(index, "ghcr.io"),
        other => panic!("expected AuthInfoMissing, got {other:?}"),
    }
    // The docker.io alias is resolved before the lookup, so the error
    // names the canonical index.
    let err = get_credentials(&auths, "docker.io").unwrap_err();
    match err {
        Error::AuthInfoMissing(index) => assert_eq!(index, "https://index.docker.io/v1/"),
        other => panic!("expected AuthInfoMissing, got {other:?}"),
    }
}

#[test]
fn malformed_base64_is_an_auth_error() {
    let auths = store("quay.io", "%%%not-base64%%%".to_string());
    let err = get_credentials(&auths, "quay.io").unwrap_err();
    assert!(matches!(err, Error::Auth(_)));
}

#[test]
fn non_utf8_entry_is_an_auth_error() {
    let auths = store(
        "quay.io",
        base64::engine::general_purpose::STANDARD.encode([0xff, 0xfe, 0x3a, 0x80]),
    );
    let err = get_credentials(&auths, "quay.io").unwrap_err();
    assert!(matches!(err, Error::Auth(_)));
}

#[test]
fn first_colon_splits_the_entry() {
    let auths = store("quay.io", b64("alice:se:cr:et"));
    let creds = get_credentials(&auths, "quay.io").unwrap();
    assert_eq!(creds, (Some("alice".to_string()), Some("se:cr:et".to_string())));
}

#[test]
fn only_transient_io_failures_are_retryable() {
    assert!(Error::TransientIo("connection reset".to_string()).is_retryable());
    assert!(!Error::FatalIo("disk full".to_string()).is_retryable());
    assert!(!Error::UnsupportedVersion.is_retryable());
    assert!(!Error::DigestMismatch { expected: vec![], computed: vec![] }.is_retryable());
    assert!(!Error::PathTraversal(vec![]).is_retryable());
}

#[test]
fn retry_budget_and_backoff() {
    let transient = Error::TransientIo("timeout".to_string());
    assert!(should_retry(&transient, 0, 3));
    assert!(should_retry(&transient, 2, 3));
    assert!(!should_retry(&transient, 3, 3));
    let fatal = Error::DigestMismatch { expected: vec![], computed: vec![] };
    assert!(!should_retry(&fatal, 0, 3));
    assert_eq!(backoff_ms(0, 100), 100);
    assert_eq!(backoff_ms(1, 100), 200);
    assert_eq!(backoff_ms(3, 100), 800);
    assert_eq!(backoff_ms(9, 100), 6400);
}

#[test]
fn cross_alias_lookup_finds_the_entry() {
    // The store may be keyed under either docker.io alias or under the
    // canonical v1 index; a query under any alias finds it.
    let keyed_registry_1 = store("registry-1.docker.io", b64("alice:secret"));
    let creds = get_credentials(&keyed_registry_1, "docker.io").unwrap();
    assert_eq!(creds, (Some("alice".to_string()), Some("secret".to_string())));
    let keyed_docker_io = store("docker.io", b64("alice:secret"));
    let creds = get_credentials(&keyed_docker_io, "registry-1.docker.io").unwrap();
    assert_eq!(creds, (Some("alice".to_string()), Some("secret".to_string())));
    let creds = get_credentials(&keyed_docker_io, "https://index.docker.io/v1/").unwrap();
    assert_eq!(creds, (Some("alice".to_string()), Some("secret".to_string())));
    // A non-alias key is still compared as given.
    let err = get_credentials(&keyed_docker_io, "quay.io").unwrap_err();
    assert!(matches!(err, Error::AuthInfoMissing(_)));
}

#[test]
fn bare_colon_yields_neither_side() {
    let auths = store("quay.io", b64(":"));
    let creds = get_credentials(&auths, "quay.io").unwrap();
    assert_eq!(creds, (None, None));
}
