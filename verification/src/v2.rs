//! The registry client: endpoint configuration and the v2 capability
//! probe. The embedding application issues the HTTP requests; this module
//! builds the values to send and decides what the answers mean.

use vstd::prelude::*;

use crate::errors::Error;

verus! {

/// The default User-Agent identity offered to registries.
pub fn default_user_agent() -> (r: String)
    ensures
        r@ == "clowdhaus/docker-registry/0.0"@,
{
    String::from_str("clowdhaus/docker-registry/0.0")
}

/// Builder for a `Client`.
pub struct Config {
    pub registry: String,
    pub insecure_registry: bool,
    pub username: Option<String>,
    pub password: Option<String>,
    pub user_agent: String,
}

/// An immutable, configured registry client.
pub struct Client {
    pub registry: String,
    pub insecure_registry: bool,
    pub username: Option<String>,
    pub password: Option<String>,
    pub user_agent: String,
}

impl Config {
    /// Set the registry host to talk to.
    pub fn registry(self, host: &str) -> (r: Config)
        ensures
            r.registry@ == host@,
            r.insecure_registry == self.insecure_registry,
            r.username == self.username,
            r.password == self.password,
            r.user_agent == self.user_agent,
    {
        Config { registry: host.to_owned(), ..self }
    }

    /// Permit plaintext and self-signed registries.
    pub fn insecure_registry(self, insecure: bool) -> (r: Config)
        ensures
            r.insecure_registry == insecure,
            r.registry == self.registry,
            r.username == self.username,
            r.password == self.password,
            r.user_agent == self.user_agent,
    {
        Config { insecure_registry: insecure, ..self }
    }

    /// Set the optional username offered on challenges.
    pub fn username(self, username: Option<String>) -> (r: Config)
        ensures
            r.username == username,
            r.registry == self.registry,
            r.insecure_registry == self.insecure_registry,
            r.password == self.password,
            r.user_agent == self.user_agent,
    {
        Config { username, ..self }
    }

    /// Set the optional password offered on challenges.
    pub fn password(self, password: Option<String>) -> (r: Config)
        ensures
            r.password == password,
            r.registry == self.registry,
            r.insecure_registry == self.insecure_registry,
            r.username == self.username,
            r.user_agent == self.user_agent,
    {
        Config { password, ..self }
    }

    /// Set the optional credentials offered on challenges.
    pub fn credentials(self, username: Option<String>, password: Option<String>) -> (r: Config)
        ensures
            r.username == username,
            r.password == password,
            r.registry == self.registry,
            r.insecure_registry == self.insecure_registry,
            r.user_agent == self.user_agent,
    {
        Config { username, password, ..self }
    }

    /// Set the User-Agent string sent with every request.
    pub fn user_agent(self, agent: String) -> (r: Config)
        ensures
            r.user_agent == agent,
            r.registry == self.registry,
            r.insecure_registry == self.insecure_registry,
            r.username == self.username,
            r.password == self.password,
    {
        Config { user_agent: agent, ..self }
    }

    /// Validate the configuration and yield the immutable client: a
    /// client needs a non-empty registry host, and fails with a
    /// configuration error without one.
    pub fn build(self) -> (r: Result<Client, Error>)
        ensures
            (r is Ok) == (self.registry@.len() > 0),
            r matches Ok(c) ==> (c.registry == self.registry && c.insecure_registry
                == self.insecure_registry && c.username == self.username && c.password
                == self.password && c.user_agent == self.user_agent),
            r is Err ==> (r matches Err(Error::Config(_))),
    {
        if self.registry.as_str().is_empty() {
            return Err(Error::Config(String::from_str("registry host must not be empty")));
        }
        Ok(
            Client {
                registry: self.registry,
                insecure_registry: self.insecure_registry,
                username: self.username,
                password: self.password,
                user_agent: self.user_agent,
            },
        )
    }
}

/// The exact path of the v2 capability probe; the trailing slash is part
/// of the route, and `/v2` without it is a different path.
pub fn v2_probe_path() -> (r: String)
    ensures
        r@ == "/v2/"@,
{
    String::from_str("/v2/")
}

/// Interpret the HTTP status of the `GET /v2/` capability probe.
///
/// A 200 means the registry speaks v2; a 401 means it speaks v2 but wants
/// authorization, which alone is not an error. Everything else — 403 and
/// 404 included, deliberately — counts as unsupported, whatever headers
/// came with it.
pub fn is_v2_supported_status(status: u16) -> (supported: bool)
    ensures
        supported == (status == 200 || status == 401),
{
    status == 200 || status == 401
}

/// The path of the manifests endpoint for a repository and reference.
pub fn manifest_path(name: &str, reference: &str) -> (r: String)
    ensures
        r@ == "/v2/"@ + name@ + "/manifests/"@ + reference@,
{
    let mut s = String::from_str("/v2/");
    s.append(name);
    s.append("/manifests/");
    s.append(reference);
    proof {
        assert(s@ =~= "/v2/"@ + name@ + "/manifests/"@ + reference@);
    }
    s
}

/// The path of the blobs endpoint for a repository and digest.
pub fn blob_path(name: &str, digest: &str) -> (r: String)
    ensures
        r@ == "/v2/"@ + name@ + "/blobs/"@ + digest@,
{
    let mut s = String::from_str("/v2/");
    s.append(name);
    s.append("/blobs/");
    s.append(digest);
    proof {
        assert(s@ =~= "/v2/"@ + name@ + "/blobs/"@ + digest@);
    }
    s
}

impl Client {
    /// Start configuring a client, with no credentials, TLS required, and
    /// the default User-Agent.
    pub fn configure() -> (r: Config)
        ensures
            r.registry@.len() == 0,
            !r.insecure_registry,
            r.username is None,
            r.password is None,
            r.user_agent@ == "clowdhaus/docker-registry/0.0"@,
    {
        Config {
            registry: String::new(),
            insecure_registry: false,
            username: None,
            password: None,
            user_agent: default_user_agent(),
        }
    }

    /// The scheme and host every request path is appended to.
    pub fn base_url(&self) -> (r: String)
        ensures
            r@ == (if self.insecure_registry {
                "http://"@
            } else {
                "https://"@
            }) + self.registry@,
    {
        let mut s = if self.insecure_registry {
            String::from_str("http://")
        } else {
            String::from_str("https://")
        };
        s.append(self.registry.as_str());
        s
    }

    /// Decide the outcome of the capability probe, failing with an
    /// unsupported-version error when the status says the registry does
    /// not speak v2.
    pub fn ensure_v2_registry(&self, probe_status: u16) -> (r: Result<(), Error>)
        ensures
            (r is Ok) == (probe_status == 200 || probe_status == 401),
            r is Err ==> (r matches Err(Error::UnsupportedVersion)),
    {
        if is_v2_supported_status(probe_status) {
            Ok(())
        } else {
            Err(Error::UnsupportedVersion)
        }
    }
}

} // verus!
