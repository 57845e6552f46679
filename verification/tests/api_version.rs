//! The v2 capability probe against a mock route table.

use docker_registry::v2::{is_v2_supported_status, v2_probe_path, Client};

/// A miniature registry: a fixed routing table from (method, path) to a
/// status; anything unrouted is a 404.
fn mock_status(routes: &[(&str, &str, u16)], method: &str, path: &str) -> u16 {
    for (m, p, status) in routes {
        if *m == method && *p == path {
            return *status;
        }
    }
    404
}

#[test]
fn test_version_check_status_ok() {
    let routes = [("GET", "/v2/", 200u16)];
    let status = mock_status(&routes, "GET", v2_probe_path().as_str());
    assert_eq!(is_v2_supported_status(status), true);
}

#[test]
fn test_version_check_status_no_auth() {
    let routes = [("GET", "/v2/", 401u16)];
    let status = mock_status(&routes, "GET", v2_probe_path().as_str());
    assert_eq!(is_v2_supported_status(status), true);
}

#[test]
fn test_version_check_status_not_found() {
    let routes = [("GET", "/v2/", 404u16)];
    let status = mock_status(&routes, "GET", v2_probe_path().as_str());
    assert_eq!(is_v2_supported_status(status), false);
}

#[test]
fn test_version_check_status_forbidden() {
    let routes = [("GET", "/v2/", 403u16)];
    let status = mock_status(&routes, "GET", v2_probe_path().as_str());
    assert_eq!(is_v2_supported_status(status), false);
}

#[test]
fn test_version_check_no_header() {
    // No version header accompanies the response: the probe still
    // resolves purely from the status code.
    let routes = [("GET", "/v2/", 403u16)];
    let status = mock_status(&routes, "GET", v2_probe_path().as_str());
    assert_eq!(is_v2_supported_status(status), false);
}

#[test]
fn test_version_check_trailing_slash() {
    // The route is registered at `/v2` without the trailing slash; the
    // probe asks for `/v2/`, misses it, and resolves to unsupported.
    let routes = [("GET", "/v2", 200u16)];
    let status = mock_status(&routes, "GET", v2_probe_path().as_str());
    assert_eq!(is_v2_supported_status(status), false);
}

#[test]
fn ensure_v2_registry_errors_on_unsupported() {
    let client = Client::configure()
        .registry("registry.example.com")
        .insecure_registry(true)
        .username(None)
        .password(None)
        .build()
        .unwrap();
    assert!(client.ensure_v2_registry(200).is_ok());
    assert!(client.ensure_v2_registry(401).is_ok());
    assert!(matches!(
        client.ensure_v2_registry(404),
        Err(docker_registry::errors::Error::UnsupportedVersion)
    ));
}

#[test]
fn client_build_rejects_empty_host() {
    let built = Client::configure().build();
    assert!(matches!(built, Err(docker_registry::errors::Error::Config(_))));
}

#[test]
fn client_base_url_follows_insecure_flag() {
    let secure = Client::configure().registry("quay.io").build().unwrap();
    assert_eq!(secure.base_url(), "https://quay.io");
    let insecure = Client::configure().registry("localhost:5000").insecure_registry(true).build().unwrap();
    assert_eq!(insecure.base_url(), "http://localhost:5000");
}

#[test]
fn endpoint_paths_are_assembled_verbatim() {
    assert_eq!(
        docker_registry::v2::manifest_path("library/alpine", "latest"),
        "/v2/library/alpine/manifests/latest"
    );
    assert_eq!(
        docker_registry::v2::blob_path("library/alpine", "sha256:abc"),
        "/v2/library/alpine/blobs/sha256:abc"
    );
}
