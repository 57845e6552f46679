//! Client-side logic for the container-registry distribution HTTP API (v2).
//!
//! The crate holds the decision-making core of a registry client: probing
//! for v2 support, decoding stored credentials, a single-flight bearer
//! token cache, resolving manifests to an ordered list of layer digests,
//! verifying blob content against its declared digest, and merging
//! tar-style layers into a filesystem tree with whiteout and
//! opaque-directory semantics. Network and disk I/O are left to the
//! embedding application, which hands plain values in and out.

pub mod auth;
pub mod credentials;
pub mod digest;
pub mod errors;
pub mod fetch;
pub mod manifest;
pub mod mediatypes;
pub mod render;
pub mod util;
pub mod v2;
