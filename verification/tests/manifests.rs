//! Manifest layer ordering, platform selection and media types.

use docker_registry::manifest::{
    select_platform, verify_manifest_body, LayerDescriptor, Manifest, PlatformEntry,
};
use docker_registry::mediatypes::{accept_media_types, MediaType};

const FOREIGN: &str = "application/vnd.docker.image.rootfs.foreign.diff.tar.gzip";
const TAR_GZIP: &str = "application/vnd.docker.image.rootfs.diff.tar.gzip";

fn layer(digest: &str, media_type: &str) -> LayerDescriptor {
    LayerDescriptor { digest: digest.to_string(), media_type: media_type.to_string(), size: 42 }
}

#[test]
fn layers_digests_preserves_manifest_order() {
    let manifest = Manifest {
        media_type: MediaType::ManifestV2S2,
        layers: vec![
            layer("sha256:aaa", TAR_GZIP),
            layer("sha256:bbb", TAR_GZIP),
            layer("sha256:ccc", TAR_GZIP),
        ],
    };
    let digests = manifest.layers_digests(false);
    assert_eq!(digests, vec!["sha256:aaa", "sha256:bbb", "sha256:ccc"]);
}

#[test]
fn layers_digests_can_exclude_foreign_layers() {
    let manifest = Manifest {
        media_type: MediaType::ManifestV2S2,
        layers: vec![
            layer("sha256:aaa", TAR_GZIP),
            layer("sha256:fff", FOREIGN),
            layer("sha256:ccc", TAR_GZIP),
        ],
    };
    assert_eq!(manifest.layers_digests(true), vec!["sha256:aaa", "sha256:ccc"]);
    assert_eq!(
        manifest.layers_digests(false),
        vec!["sha256:aaa", "sha256:fff", "sha256:ccc"]
    );
}

#[test]
fn select_platform_takes_the_first_match() {
    let entries = vec![
        PlatformEntry {
            digest: "sha256:arm".to_string(),
            architecture: "arm64".to_string(),
            os: "linux".to_string(),
        },
        PlatformEntry {
            digest: "sha256:amd-1".to_string(),
            architecture: "amd64".to_string(),
            os: "linux".to_string(),
        },
        PlatformEntry {
            digest: "sha256:amd-2".to_string(),
            architecture: "amd64".to_string(),
            os: "linux".to_string(),
        },
    ];
    let arch = "amd64".to_string();
    let os = "linux".to_string();
    assert_eq!(select_platform(&entries, &arch, &os), Some(1));
    let windows = "windows".to_string();
    assert_eq!(select_platform(&entries, &arch, &windows), None);
}

#[test]
fn media_type_names_round_trip() {
    for mt in [
        MediaType::ImageIndex,
        MediaType::ManifestV2S2,
        MediaType::ManifestList,
        MediaType::ManifestV2S1Signed,
    ] {
        let name = mt.to_str();
        assert_eq!(MediaType::from_str_name(name.as_str()), Some(mt));
    }
    assert_eq!(MediaType::from_str_name("text/plain"), None);
}

#[test]
fn accept_header_order_is_descending_preference() {
    let accepted = accept_media_types();
    assert_eq!(
        accepted,
        vec![
            MediaType::ImageIndex,
            MediaType::ManifestV2S2,
            MediaType::ManifestList,
            MediaType::ManifestV2S1Signed,
        ]
    );
}

#[test]
fn manifest_body_is_held_against_the_announced_digest() {
    let body = b"{\"schemaVersion\":2}".to_vec();
    let announced = docker_registry::digest::compute_digest(&body);
    let mut header = b"sha256:".to_vec();
    header.extend_from_slice(&announced.hex);
    assert!(verify_manifest_body(&body, &header).is_ok());

    let tampered = b"{\"schemaVersion\":3}".to_vec();
    let err = verify_manifest_body(&tampered, &header).unwrap_err();
    assert!(matches!(err, docker_registry::errors::Error::DigestMismatch { .. }));

    let garbled = b"not-a-digest".to_vec();
    let err = verify_manifest_body(&body, &garbled).unwrap_err();
    assert!(matches!(err, docker_registry::errors::Error::Protocol(_)));
}
