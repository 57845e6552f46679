//! Manifests: the ordered layer list, platform selection on an index, and
//! integrity of the manifest body itself.

use vstd::prelude::*;

use crate::digest::{parse_digest, verify_content};
use crate::errors::Error;
use crate::mediatypes::MediaType;

verus! {

/// One layer as a manifest references it.
pub struct LayerDescriptor {
    pub digest: String,
    pub media_type: String,
    pub size: u64,
}

/// The wire name of a foreign (non-filesystem) layer.
pub open spec fn foreign_layer_name() -> Seq<char> {
    "application/vnd.docker.image.rootfs.foreign.diff.tar.gzip"@
}

/// Is this layer a foreign layer, excluded from filesystem rendering on
/// request?
pub open spec fn is_foreign(l: LayerDescriptor) -> bool {
    l.media_type@ == foreign_layer_name()
}

/// A resolved, platform-concrete manifest: its media type tag and its
/// layers, bottom (base) first.
pub struct Manifest {
    pub media_type: MediaType,
    pub layers: Vec<LayerDescriptor>,
}

/// The digests of a layer sequence, in manifest order, optionally without
/// the foreign layers.
pub open spec fn digests_spec(ls: Seq<LayerDescriptor>, exclude_foreign: bool) -> Seq<Seq<char>>
    decreases ls.len(),
{
    if ls.len() == 0 {
        Seq::empty()
    } else {
        let rest = digests_spec(ls.drop_last(), exclude_foreign);
        if exclude_foreign && is_foreign(ls.last()) {
            rest
        } else {
            rest.push(ls.last().digest@)
        }
    }
}

impl Manifest {
    /// The ordered list of layer digests, exactly as the resolved manifest
    /// lists them; with `exclude_foreign` the foreign layers are left out
    /// and the order of the rest is kept.
    pub fn layers_digests(&self, exclude_foreign: bool) -> (r: Vec<String>)
        ensures
            r.deep_view() == digests_spec(self.layers@, exclude_foreign),
    {
        let foreign = String::from_str(
            "application/vnd.docker.image.rootfs.foreign.diff.tar.gzip",
        );
        let n: usize = self.layers.len();
        let mut r: Vec<String> = Vec::new();
        let mut i: usize = 0;
        proof {
            assert(self.layers@.subrange(0, 0) =~= Seq::<LayerDescriptor>::empty());
            assert(r.deep_view() =~= Seq::<Seq<char>>::empty());
        }
        while i < n
            invariant
                0 <= i <= n == self.layers@.len(),
                foreign@ == foreign_layer_name(),
                r.deep_view() == digests_spec(self.layers@.subrange(0, i as int), exclude_foreign),
            decreases n - i,
        {
            let ghost prefix = self.layers@.subrange(0, i + 1);
            proof {
                assert(prefix.drop_last() =~= self.layers@.subrange(0, i as int));
                assert(prefix.last() == self.layers@[i as int]);
            }
            let skip = exclude_foreign && self.layers[i].media_type == foreign;
            if !skip {
                let ghost pre = r.deep_view();
                r.push(self.layers[i].digest.clone());
                proof {
                    assert(r.deep_view() =~~= pre.push(self.layers@[i as int].digest@));
                }
            }
            i = i + 1;
        }
        proof {
            assert(self.layers@.subrange(0, n as int) =~= self.layers@);
        }
        r
    }
}

/// One platform-specific entry of an image index or manifest list.
pub struct PlatformEntry {
    pub digest: String,
    pub architecture: String,
    pub os: String,
}

/// Does an index entry match the target platform?
pub open spec fn platform_matches(e: PlatformEntry, arch: Seq<char>, os: Seq<char>) -> bool {
    e.architecture@ == arch && e.os@ == os
}

/// Pick the first entry of a multi-platform index that matches the target
/// platform; the concrete manifest it names is then fetched in exactly one
/// further round trip.
pub fn select_platform(entries: &Vec<PlatformEntry>, arch: &String, os: &String) -> (r: Option<
    usize,
>)
    ensures
        r matches Some(i) ==> (i < entries@.len() && platform_matches(entries@[i as int], arch@, os@)
            && (forall|j: int| 0 <= j < i ==> !platform_matches(entries@[j], arch@, os@))),
        r is None ==> (forall|j: int|
            0 <= j < entries@.len() ==> !platform_matches(entries@[j], arch@, os@)),
{
    let n: usize = entries.len();
    let mut i: usize = 0;
    while i < n
        invariant
            0 <= i <= n == entries@.len(),
            forall|j: int| 0 <= j < i ==> !platform_matches(entries@[j], arch@, os@),
        decreases n - i,
    {
        if entries[i].architecture == *arch && entries[i].os == *os {
            return Some(i);
        }
        i = i + 1;
    }
    None
}

/// Check a manifest body against the content digest the registry
/// announced in its response header, before the manifest is exposed.
///
/// Succeeds exactly when the header parses as a digest reference and
/// re-hashing the raw body reproduces it; a malformed header is a protocol
/// error, a mismatching body a fatal `DigestMismatch`.
pub fn verify_manifest_body(body: &Vec<u8>, announced: &Vec<u8>) -> (r: Result<(), Error>)
    ensures
        (r is Ok) == (crate::digest::valid_digest_str(announced@) && crate::digest::hex_of(
            crate::digest::sha256_of(body@),
        ) == announced@.subrange(7, 71)),
        !crate::digest::valid_digest_str(announced@) ==> (r matches Err(Error::Protocol(_))),
        crate::digest::valid_digest_str(announced@) && r is Err ==> (r matches Err(
            Error::DigestMismatch { .. },
        )),
{
    let d = parse_digest(announced)?;
    verify_content(body, &d)
}

} // verus!
