use rregistry::descriptor::{Descriptor, Manifest};
use rregistry::manifest::RegistryError;
use std::collections::HashMap;

fn annotations(pairs: &[(&str, &str)]) -> HashMap<String, String> {
    let mut out = HashMap::new();
    for (k, v) in pairs {
        out.insert(k.to_string(), v.to_string());
    }
    out
}

fn descriptor(digest: &str, size: i64, urls: &[&str], pairs: &[(&str, &str)]) -> Descriptor {
    Descriptor {
        media_type: "application/vnd.oci.image.layer.v1.tar".to_string(),
        digest: digest.to_string(),
        size,
        urls: urls.iter().map(|u| u.to_string()).collect(),
        annotations: annotations(pairs),
    }
}

fn round_trip(manifest: &Manifest) -> Result<Manifest, RegistryError> {
    Manifest::from_redis_value(&Some(manifest.write_redis_args().unwrap()))
}

#[test]
fn a_full_manifest_survives_encoding() {
    let manifest = Manifest {
        schema_version: 2,
        media_type: "application/vnd.oci.image.manifest.v1+json".to_string(),
        config: descriptor("sha256:config", 7023, &["http://a", "https://b"], &[("k", "v")]),
        layers: vec![
            descriptor("sha256:base", 32654, &[], &[]),
            descriptor("sha256:top", i64::MAX, &["https://c"], &[("x", "1"), ("y", ""), ("", "z")]),
        ],
        annotations: annotations(&[("org.example.created", "today"), ("caf\u{e9}", "\u{1f600}")]),
    };
    assert_eq!(round_trip(&manifest), Ok(manifest));
}

#[test]
fn a_manifest_with_a_digest_and_nothing_else_survives_encoding() {
    let manifest = Manifest {
        schema_version: 2,
        media_type: String::new(),
        config: Descriptor {
            media_type: String::new(),
            digest: "sha256:abc".to_string(),
            size: 0,
            urls: vec![],
            annotations: HashMap::new(),
        },
        layers: vec![],
        annotations: HashMap::new(),
    };
    let bytes = manifest.write_redis_args();
    assert!(bytes.is_some());
    let back = Manifest::from_redis_value(&bytes).unwrap();
    assert_eq!(back.schema_version, 2);
    assert_eq!(back.media_type, "");
    assert_eq!(back.config.media_type, "");
    assert_eq!(back.config.digest, "sha256:abc");
    assert_eq!(back.config.size, 0);
    assert!(back.config.urls.is_empty());
    assert!(back.config.annotations.is_empty());
    assert!(back.layers.is_empty());
    assert!(back.annotations.is_empty());
    assert_eq!(back, manifest);
}

#[test]
fn an_empty_manifest_survives_encoding() {
    let manifest = Manifest {
        schema_version: 0,
        media_type: String::new(),
        config: descriptor("", 0, &[], &[]),
        layers: vec![],
        annotations: HashMap::new(),
    };
    assert_eq!(round_trip(&manifest), Ok(manifest));
}

#[test]
fn the_largest_schema_version_survives_encoding() {
    let manifest = Manifest {
        schema_version: usize::MAX,
        media_type: "m".to_string(),
        config: descriptor("sha256:c", i64::MIN, &[], &[]),
        layers: vec![descriptor("sha256:l", -1, &[""], &[])],
        annotations: HashMap::new(),
    };
    assert_eq!(round_trip(&manifest), Ok(manifest));
}

#[test]
fn fields_are_written_in_order_with_fixed_width_lengths() {
    let manifest = Manifest {
        schema_version: 1,
        media_type: "a".to_string(),
        config: Descriptor {
            media_type: String::new(),
            digest: "d".to_string(),
            size: -1,
            urls: vec!["u".to_string()],
            annotations: HashMap::new(),
        },
        layers: vec![],
        annotations: annotations(&[("k", "v")]),
    };
    let mut expected: Vec<u8> = Vec::new();
    expected.extend_from_slice(&1u64.to_le_bytes());
    expected.extend_from_slice(&1u64.to_le_bytes());
    expected.push(b'a');
    expected.extend_from_slice(&0u64.to_le_bytes());
    expected.extend_from_slice(&1u64.to_le_bytes());
    expected.push(b'd');
    expected.extend_from_slice(&[0xff; 8]);
    expected.extend_from_slice(&1u64.to_le_bytes());
    expected.extend_from_slice(&1u64.to_le_bytes());
    expected.push(b'u');
    expected.extend_from_slice(&0u64.to_le_bytes());
    expected.extend_from_slice(&0u64.to_le_bytes());
    expected.extend_from_slice(&1u64.to_le_bytes());
    expected.extend_from_slice(&1u64.to_le_bytes());
    expected.push(b'k');
    expected.extend_from_slice(&1u64.to_le_bytes());
    expected.push(b'v');
    assert_eq!(manifest.write_redis_args(), Some(expected.clone()));
    assert_eq!(Manifest::from_redis_value(&Some(expected)), Ok(manifest));
}

#[test]
fn an_absent_value_is_not_found() {
    assert_eq!(Manifest::from_redis_value(&None), Err(RegistryError::NotFound));
}

#[test]
fn bytes_that_are_no_manifest_are_a_decode_error() {
    assert_eq!(Manifest::from_redis_value(&Some(vec![])), Err(RegistryError::DecodeError));
    assert_eq!(Manifest::from_redis_value(&Some(vec![1, 2, 3])), Err(RegistryError::DecodeError));
    let mut truncated = descriptor_manifest().write_redis_args().unwrap();
    truncated.pop();
    assert_eq!(Manifest::from_redis_value(&Some(truncated)), Err(RegistryError::DecodeError));
    let mut not_text: Vec<u8> = Vec::new();
    not_text.extend_from_slice(&1u64.to_le_bytes());
    not_text.extend_from_slice(&1u64.to_le_bytes());
    not_text.push(0xff);
    not_text.extend_from_slice(&[0u8; 64]);
    assert_eq!(Manifest::from_redis_value(&Some(not_text)), Err(RegistryError::DecodeError));
    let huge = vec![0xffu8; 64];
    assert_eq!(Manifest::from_redis_value(&Some(huge)), Err(RegistryError::DecodeError));
}

fn descriptor_manifest() -> Manifest {
    Manifest {
        schema_version: 2,
        media_type: "m".to_string(),
        config: descriptor("sha256:c", 1, &[], &[]),
        layers: vec![],
        annotations: HashMap::new(),
    }
}

#[test]
fn parts_hold_the_fields_in_order() {
    let d = descriptor("sha256:c", 5, &["u1", "u2"], &[("k", "v")]);
    let parts = d.to_parts();
    assert_eq!(parts.0, d.media_type);
    assert_eq!(parts.1, "sha256:c");
    assert_eq!(parts.2, 5);
    assert_eq!(parts.3, vec!["u1".to_string(), "u2".to_string()]);
    assert_eq!(parts.4, d.annotations);
    assert_eq!(Descriptor::from_parts(&parts), d);
    let m = Manifest {
        schema_version: 9,
        media_type: "m".to_string(),
        config: d.clone(),
        layers: vec![d.clone(), descriptor("sha256:l", 6, &[], &[])],
        annotations: annotations(&[("a", "b")]),
    };
    let parts = m.to_parts();
    assert_eq!(parts.0, 9);
    assert_eq!(parts.3.len(), 2);
    assert_eq!(parts.3[1].1, "sha256:l");
    assert_eq!(Manifest::from_parts(&parts), Some(m.clone()));
}
