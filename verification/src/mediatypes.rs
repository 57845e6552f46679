//! The finite set of manifest media types the client understands.

use vstd::prelude::*;

verus! {

/// The manifest flavours a registry can answer with: an OCI image index,
/// a single-architecture v2 manifest, the legacy manifest list, and the
/// legacy signed schema-1 manifest.
#[derive(PartialEq, Eq, Structural, Clone, Copy, Debug)]
pub enum MediaType {
    ImageIndex,
    ManifestV2S2,
    ManifestList,
    ManifestV2S1Signed,
}

/// The wire name of each media type.
pub open spec fn media_type_name(mt: MediaType) -> Seq<char> {
    match mt {
        MediaType::ImageIndex => "application/vnd.oci.image.index.v1+json"@,
        MediaType::ManifestV2S2 => "application/vnd.docker.distribution.manifest.v2+json"@,
        MediaType::ManifestList => "application/vnd.docker.distribution.manifest.list.v2+json"@,
        MediaType::ManifestV2S1Signed => "application/vnd.docker.distribution.manifest.v1+prettyjws"@,
    }
}

/// Which media type a wire name denotes, if any.
pub open spec fn media_type_of_name(s: Seq<char>) -> Option<MediaType> {
    if s == media_type_name(MediaType::ImageIndex) {
        Some(MediaType::ImageIndex)
    } else if s == media_type_name(MediaType::ManifestV2S2) {
        Some(MediaType::ManifestV2S2)
    } else if s == media_type_name(MediaType::ManifestList) {
        Some(MediaType::ManifestList)
    } else if s == media_type_name(MediaType::ManifestV2S1Signed) {
        Some(MediaType::ManifestV2S1Signed)
    } else {
        None
    }
}

impl MediaType {
    /// The wire name, for `Accept` headers and comparisons.
    pub fn to_str(&self) -> (r: String)
        ensures
            r@ == media_type_name(*self),
    {
        match self {
            MediaType::ImageIndex => String::from_str("application/vnd.oci.image.index.v1+json"),
            MediaType::ManifestV2S2 => String::from_str(
                "application/vnd.docker.distribution.manifest.v2+json",
            ),
            MediaType::ManifestList => String::from_str(
                "application/vnd.docker.distribution.manifest.list.v2+json",
            ),
            MediaType::ManifestV2S1Signed => String::from_str(
                "application/vnd.docker.distribution.manifest.v1+prettyjws",
            ),
        }
    }

    /// Decode a wire name, once, into the tagged union; unknown names are
    /// refused.
    pub fn from_str_name(s: &str) -> (r: Option<MediaType>)
        ensures
            r == media_type_of_name(s@),
    {
        let owned: String = s.to_owned();
        if owned == MediaType::ImageIndex.to_str() {
            Some(MediaType::ImageIndex)
        } else if owned == MediaType::ManifestV2S2.to_str() {
            Some(MediaType::ManifestV2S2)
        } else if owned == MediaType::ManifestList.to_str() {
            Some(MediaType::ManifestList)
        } else if owned == MediaType::ManifestV2S1Signed.to_str() {
            Some(MediaType::ManifestV2S1Signed)
        } else {
            None
        }
    }
}

/// The media types offered to the registry, in descending preference:
/// index first, then the single-architecture manifest, then the legacy
/// list, then the legacy signed schema.
pub fn accept_media_types() -> (r: Vec<MediaType>)
    ensures
        r@.len() == 4,
        r@[0] == MediaType::ImageIndex,
        r@[1] == MediaType::ManifestV2S2,
        r@[2] == MediaType::ManifestList,
        r@[3] == MediaType::ManifestV2S1Signed,
{
    let mut r: Vec<MediaType> = Vec::new();
    r.push(MediaType::ImageIndex);
    r.push(MediaType::ManifestV2S2);
    r.push(MediaType::ManifestList);
    r.push(MediaType::ManifestV2S1Signed);
    r
}

/// Round trip law: every media type's wire name decodes back to it.
pub proof fn lemma_media_type_roundtrip(mt: MediaType)
    ensures
        media_type_of_name(media_type_name(mt)) == Some(mt),
{
    reveal_strlit("application/vnd.oci.image.index.v1+json");
    reveal_strlit("application/vnd.docker.distribution.manifest.v2+json");
    reveal_strlit("application/vnd.docker.distribution.manifest.list.v2+json");
    reveal_strlit("application/vnd.docker.distribution.manifest.v1+prettyjws");
    let a = media_type_name(MediaType::ImageIndex);
    let b = media_type_name(MediaType::ManifestV2S2);
    let c = media_type_name(MediaType::ManifestList);
    let d = media_type_name(MediaType::ManifestV2S1Signed);
    assert(a.len() == 39);
    assert(b.len() == 52);
    assert(c.len() == 57);
    assert(d.len() == 57);
    assert(c[45] == 'l' && d[45] == 'v');
    assert(c != d);
}

} // verus!
