use rregistry::backend::{Backend, BackendError};
use rregistry::descriptor::{Blob, Descriptor, Manifest};
use rregistry::manifest::{
    check_manifest, delete, delete_alias, delete_alias_key, delete_manifest, from_backend,
    generate_alias_key, generate_manifest_key, get_manifest, is_valid_request, manifest,
    manifest_exist, remove_tag_relation_from_digest, search_alias_and_delete_it, RegistryError,
    Status, MAX_ALIAS_DEPTH,
};
use rregistry::memory::MemoryStore;
use rregistry::v2;
use std::collections::HashMap;

const DEFAULT_DIGEST: &str = "sha256:default_digest";

fn encode(value: &Manifest) -> Vec<u8> {
    value.write_redis_args().unwrap()
}

fn add_manifest(name: &str, reference: &str, value: &Manifest, store: &mut MemoryStore) {
    let key = format!("manifest::{}::{}", name, reference);
    let alias_key = format!("manifest::{}::{}::alias", name, value.config.digest);
    store.set(&key, encode(value)).unwrap();
    store.set_add(&alias_key, reference).unwrap();
}

fn generate_manifest_body(digest: &str) -> Manifest {
    Manifest {
        schema_version: 1,
        media_type: "random media type".to_string(),
        config: Descriptor {
            media_type: "application/vnd.oci.image.config.v1+json".to_string(),
            digest: digest.to_string(),
            size: 0,
            urls: vec!["http://random1".to_string(), "https://random2".to_string()],
            annotations: HashMap::new(),
        },
        layers: vec![Descriptor {
            media_type: "application/vnd.oci.image.layer.v1.tar".to_string(),
            digest: "random digest".to_string(),
            size: 0,
            urls: vec![],
            annotations: HashMap::new(),
        }],
        annotations: HashMap::new(),
    }
}

#[test]
fn a_blob_holds_bytes_under_a_digest() {
    let blob = Blob { digest: DEFAULT_DIGEST.to_string(), bytes: vec![1, 2, 3] };
    assert_eq!(blob.clone(), blob);
    assert_eq!(blob.bytes.len(), 3);
}

#[test]
fn implements_oci_v2() {
    assert_eq!(v2(), Status::Success);
    assert_eq!(v2().code(), 200);
}

#[test]
fn manifest_doesnt_exist() {
    let mut store = MemoryStore::new();
    let status = check_manifest("test", "dont_exist", &mut store);
    assert_eq!(status, Status::NotFound);
    assert_eq!(status.code(), 404);
}

#[test]
fn manifest_does_exist() {
    let mut store = MemoryStore::new();
    let manifest = generate_manifest_body(DEFAULT_DIGEST);
    add_manifest("test", "exists", &manifest, &mut store);
    let status = check_manifest("test", "exists", &mut store);
    assert_eq!(status, Status::Success);
    assert_eq!(status.code(), 200);
}

#[test]
fn manifest_does_exist_by_digest() {
    let mut store = MemoryStore::new();
    let manifest = generate_manifest_body(DEFAULT_DIGEST);
    add_manifest("test", "exists", &manifest, &mut store);
    let status = check_manifest("test", DEFAULT_DIGEST, &mut store);
    assert_eq!(status, Status::Success);
}

#[test]
fn manifest_can_be_downloaded() {
    let mut store = MemoryStore::new();
    let manifest = generate_manifest_body(DEFAULT_DIGEST);
    add_manifest("test", "exists", &manifest, &mut store);
    let response = get_manifest("test", "exists", &mut store);
    assert_eq!(response, Ok(Some(manifest)));
}

#[test]
fn manifest_can_be_downloaded_by_digest() {
    let mut store = MemoryStore::new();
    let manifest = generate_manifest_body(DEFAULT_DIGEST);
    add_manifest("test", "exists", &manifest, &mut store);
    let response = get_manifest("test", DEFAULT_DIGEST, &mut store);
    assert_eq!(response, Ok(Some(manifest)));
}

#[test]
fn manifest_that_doesnt_exists_cant_be_deleted_by_tag() {
    let mut store = MemoryStore::new();
    let status = delete_manifest("test", "dont_exist", &mut store);
    assert_eq!(status, Status::NotFound);
}

#[test]
fn manifest_that_doesnt_exists_cant_be_deleted_by_digest() {
    let mut store = MemoryStore::new();
    let status = delete_manifest("test", "sha256:encoded_sha", &mut store);
    assert_eq!(status, Status::NotFound);
}

#[test]
fn manifest_can_be_deleted_by_tag() {
    let mut store = MemoryStore::new();
    let manifest = generate_manifest_body(DEFAULT_DIGEST);
    add_manifest("test", "exists", &manifest, &mut store);
    let status = delete_manifest("test", "exists", &mut store);
    assert_eq!(status, Status::Accepted);
    assert_eq!(status.code(), 202);
}

#[test]
fn manifest_can_be_deleted_by_digest() {
    let mut store = MemoryStore::new();
    let manifest = generate_manifest_body(DEFAULT_DIGEST);
    add_manifest("test", "exists", &manifest, &mut store);
    let status = delete_manifest("test", DEFAULT_DIGEST, &mut store);
    assert_eq!(status, Status::Accepted);
}

#[test]
fn keys_have_the_documented_shape() {
    assert_eq!(generate_manifest_key("test", "exists"), "manifest::test::exists");
    assert_eq!(
        generate_alias_key("library/alpine", "sha256:abc"),
        "manifest::library/alpine::sha256:abc::alias"
    );
    assert_eq!(generate_manifest_key("", ""), "manifest::::");
}

#[test]
fn keys_of_different_requests_differ() {
    let requests = [
        ("test", "exists"),
        ("test", "alias"),
        ("test", "sha256:abc"),
        ("test/a", "exists"),
        ("a", "b"),
        ("a/b", "c"),
        ("a", "b.c"),
        ("a.b", "c"),
    ];
    for (i, (name, reference)) in requests.iter().enumerate() {
        assert!(is_valid_request(name, reference));
        for (j, (other_name, other_reference)) in requests.iter().enumerate() {
            let same = generate_manifest_key(name, reference)
                == generate_manifest_key(other_name, other_reference);
            assert_eq!(same, i == j);
            for digest in ["", "exists", "sha256:abc", "a::b"] {
                assert_ne!(
                    generate_alias_key(other_name, digest),
                    generate_manifest_key(name, reference)
                );
            }
        }
    }
}

#[test]
fn lone_digest_is_found_and_deleted_once() {
    let mut store = MemoryStore::new();
    let body = generate_manifest_body("sha256:other");
    store.set("manifest::test::sha256:abc", encode(&body)).unwrap();
    assert_eq!(manifest_exist("test", "sha256:abc", &mut store), Ok(true));
    assert_eq!(manifest("test", "sha256:abc", &mut store), Ok(body));
    assert_eq!(delete("test", "sha256:abc", &mut store), Ok(1));
    assert_eq!(manifest_exist("test", "sha256:abc", &mut store), Ok(false));
    assert_eq!(store.len(), 0);
}

#[test]
fn deleting_the_only_tag_keeps_the_digest() {
    let mut store = MemoryStore::new();
    let body = generate_manifest_body(DEFAULT_DIGEST);
    store.set("manifest::test::sha256:default_digest", encode(&body)).unwrap();
    add_manifest("test", "latest", &body, &mut store);
    assert_eq!(delete("test", "latest", &mut store), Ok(1));
    assert_eq!(
        store.set_members("manifest::test::sha256:default_digest::alias"),
        Ok(Vec::<String>::new())
    );
    assert_eq!(store.key_exists("manifest::test::sha256:default_digest::alias"), Ok(false));
    assert_eq!(manifest("test", DEFAULT_DIGEST, &mut store), Ok(body));
    assert_eq!(delete("test", DEFAULT_DIGEST, &mut store), Ok(1));
    assert_eq!(manifest_exist("test", DEFAULT_DIGEST, &mut store), Ok(false));
    assert_eq!(manifest_exist("test", "latest", &mut store), Ok(false));
}

#[test]
fn deleting_a_digest_removes_every_tag() {
    let mut store = MemoryStore::new();
    let body = generate_manifest_body(DEFAULT_DIGEST);
    store.set("manifest::test::sha256:default_digest", encode(&body)).unwrap();
    add_manifest("test", "t1", &body, &mut store);
    add_manifest("test", "t2", &body, &mut store);
    assert_eq!(store.len(), 4);
    assert_eq!(delete("test", DEFAULT_DIGEST, &mut store), Ok(4));
    assert_eq!(manifest_exist("test", "t1", &mut store), Ok(false));
    assert_eq!(manifest_exist("test", "t2", &mut store), Ok(false));
    assert_eq!(manifest_exist("test", DEFAULT_DIGEST, &mut store), Ok(false));
    assert_eq!(store.len(), 0);
}

#[test]
fn deleting_a_digest_known_by_its_tags_alone() {
    let mut store = MemoryStore::new();
    let body = generate_manifest_body(DEFAULT_DIGEST);
    add_manifest("test", "t1", &body, &mut store);
    add_manifest("test", "t2", &body, &mut store);
    assert_eq!(delete("test", DEFAULT_DIGEST, &mut store), Ok(3));
    assert_eq!(store.len(), 0);
}

#[test]
fn deleting_a_tag_leaves_its_sibling() {
    let mut store = MemoryStore::new();
    let body = generate_manifest_body(DEFAULT_DIGEST);
    store.set("manifest::test::sha256:default_digest", encode(&body)).unwrap();
    add_manifest("test", "t1", &body, &mut store);
    add_manifest("test", "t2", &body, &mut store);
    assert_eq!(delete("test", "t1", &mut store), Ok(1));
    assert_eq!(manifest_exist("test", "t1", &mut store), Ok(false));
    assert_eq!(manifest_exist("test", "t2", &mut store), Ok(true));
    assert_eq!(manifest("test", "t2", &mut store), Ok(body));
    assert_eq!(
        store.set_members("manifest::test::sha256:default_digest::alias"),
        Ok(vec!["t2".to_string()])
    );
}

#[test]
fn invalid_requests_never_reach_the_store() {
    let mut store = MemoryStore::new();
    let body = generate_manifest_body(DEFAULT_DIGEST);
    add_manifest("test", "exists", &body, &mut store);
    let before = store.calls();
    assert_eq!(before, 2);
    for reference in ["", "Sha256:A:b", "a:b:c", ":abc", "has space", "sha256:"] {
        assert!(!is_valid_request("test", reference));
        assert_eq!(manifest_exist("test", reference, &mut store), Ok(false));
        assert_eq!(delete("test", reference, &mut store), Ok(0));
        assert_eq!(manifest("test", reference, &mut store), Err(RegistryError::InvalidReference));
        assert_eq!(check_manifest("test", reference, &mut store), Status::NotFound);
        assert_eq!(get_manifest("test", reference, &mut store), Ok(None));
        assert_eq!(delete_manifest("test", reference, &mut store), Status::NotFound);
    }
    assert_eq!(manifest_exist("Test", "exists", &mut store), Ok(false));
    assert_eq!(delete("", "exists", &mut store), Ok(0));
    assert_eq!(store.calls(), before);
    assert_eq!(store.len(), 2);
}

#[test]
fn existence_asks_the_store_twice() {
    let mut store = MemoryStore::new();
    assert_eq!(manifest_exist("test", "exists", &mut store), Ok(false));
    assert_eq!(store.calls(), 2);
}

#[test]
fn second_delete_counts_nothing() {
    let mut store = MemoryStore::new();
    let body = generate_manifest_body(DEFAULT_DIGEST);
    add_manifest("test", "exists", &body, &mut store);
    assert_eq!(delete("test", "exists", &mut store), Ok(1));
    assert_eq!(delete("test", "exists", &mut store), Ok(0));
    add_manifest("test", "exists", &body, &mut store);
    assert_eq!(delete("test", DEFAULT_DIGEST, &mut store), Ok(2));
    assert_eq!(delete("test", DEFAULT_DIGEST, &mut store), Ok(0));
}

#[test]
fn a_tag_outside_its_alias_set_counts_nothing() {
    let mut store = MemoryStore::new();
    let body = generate_manifest_body(DEFAULT_DIGEST);
    store.set("manifest::test::lonely", encode(&body)).unwrap();
    assert_eq!(delete("test", "lonely", &mut store), Ok(0));
    assert_eq!(store.len(), 0);
}

#[test]
fn an_alias_set_alone_counts_as_existing() {
    let mut store = MemoryStore::new();
    store.set_add("manifest::test::sha256:abc::alias", "gone").unwrap();
    assert_eq!(manifest_exist("test", "sha256:abc", &mut store), Ok(true));
    assert_eq!(manifest("test", "sha256:abc", &mut store), Err(RegistryError::NotFound));
    assert_eq!(get_manifest("test", "sha256:abc", &mut store), Ok(None));
}

#[test]
fn stale_aliases_are_skipped() {
    let mut store = MemoryStore::new();
    let body = generate_manifest_body("sha256:abc");
    store.set_add("manifest::test::sha256:abc::alias", "gone").unwrap();
    store.set_add("manifest::test::sha256:abc::alias", "Not A Tag").unwrap();
    store.set_add("manifest::test::sha256:abc::alias", "live").unwrap();
    store.set("manifest::test::live", encode(&body)).unwrap();
    assert_eq!(manifest("test", "sha256:abc", &mut store), Ok(body));
}

fn chain(store: &mut MemoryStore, links: usize) {
    for i in 0..links {
        let key = format!("manifest::test::hop{}::alias", i);
        store.set_add(&key, &format!("hop{}", i + 1)).unwrap();
    }
}

#[test]
fn lookup_follows_eight_aliases_and_no_more() {
    assert_eq!(MAX_ALIAS_DEPTH, 8);
    let body = generate_manifest_body(DEFAULT_DIGEST);
    let mut store = MemoryStore::new();
    chain(&mut store, 8);
    store.set("manifest::test::hop8", encode(&body)).unwrap();
    assert_eq!(manifest("test", "hop0", &mut store), Ok(body.clone()));
    let mut longer = MemoryStore::new();
    chain(&mut longer, 9);
    longer.set("manifest::test::hop9", encode(&body)).unwrap();
    assert_eq!(manifest("test", "hop0", &mut longer), Err(RegistryError::NotFound));
}

#[test]
fn lookup_ends_on_a_loop_of_aliases() {
    let mut store = MemoryStore::new();
    store.set_add("manifest::test::a::alias", "b").unwrap();
    store.set_add("manifest::test::b::alias", "a").unwrap();
    assert_eq!(manifest("test", "a", &mut store), Err(RegistryError::NotFound));
}

#[test]
fn an_unreachable_store_is_an_error() {
    let mut store = MemoryStore::new();
    let body = generate_manifest_body(DEFAULT_DIGEST);
    add_manifest("test", "exists", &body, &mut store);
    store.set_online(false);
    assert_eq!(store.key_exists("manifest::test::exists"), Err(BackendError::Unavailable));
    assert_eq!(
        manifest_exist("test", "exists", &mut store),
        Err(RegistryError::BackendUnavailable)
    );
    assert_eq!(manifest("test", "exists", &mut store), Err(RegistryError::BackendUnavailable));
    assert_eq!(delete("test", "exists", &mut store), Err(RegistryError::BackendUnavailable));
    assert_eq!(check_manifest("test", "exists", &mut store), Status::InternalServerError);
    assert_eq!(
        get_manifest("test", "exists", &mut store),
        Err(RegistryError::BackendUnavailable)
    );
    assert_eq!(delete_manifest("test", "exists", &mut store), Status::InternalServerError);
    assert_eq!(Status::InternalServerError.code(), 500);
    assert_eq!(
        search_alias_and_delete_it("test", "exists", &mut store),
        Err(RegistryError::BackendUnavailable)
    );
    assert_eq!(
        delete_alias("test", &mut store, vec!["exists".to_string()]),
        Err(RegistryError::BackendUnavailable)
    );
    assert_eq!(delete_alias("test", &mut store, vec![]), Ok(0));
    store.set_online(true);
    assert_eq!(store.len(), 2);
    assert_eq!(manifest_exist("test", "exists", &mut store), Ok(true));
}

#[test]
fn garbled_bytes_are_a_decode_error() {
    let mut store = MemoryStore::new();
    store.set("manifest::test::broken", vec![1, 2, 3]).unwrap();
    assert_eq!(store.get("manifest::test::broken"), Ok(Some(vec![1, 2, 3])));
    assert_eq!(manifest_exist("test", "broken", &mut store), Ok(true));
    assert_eq!(manifest("test", "broken", &mut store), Err(RegistryError::DecodeError));
    assert_eq!(get_manifest("test", "broken", &mut store), Err(RegistryError::DecodeError));
    assert_eq!(delete("test", "broken", &mut store), Err(RegistryError::DecodeError));
    assert_eq!(store.len(), 0);
    store.set("manifest::test::broken", vec![]).unwrap();
    assert_eq!(delete_manifest("test", "broken", &mut store), Status::InternalServerError);
    assert_eq!(from_backend(BackendError::Unavailable), RegistryError::BackendUnavailable);
}

#[test]
fn garbled_bytes_under_a_digest_stop_the_cascade() {
    let mut store = MemoryStore::new();
    let body = generate_manifest_body(DEFAULT_DIGEST);
    add_manifest("test", "t1", &body, &mut store);
    store.set("manifest::test::sha256:default_digest", vec![0xff]).unwrap();
    assert_eq!(delete("test", DEFAULT_DIGEST, &mut store), Err(RegistryError::DecodeError));
    assert_eq!(store.key_exists("manifest::test::sha256:default_digest"), Ok(false));
    assert_eq!(manifest_exist("test", "t1", &mut store), Ok(true));
    assert_eq!(delete("test", DEFAULT_DIGEST, &mut store), Ok(2));
}

#[test]
fn sweeping_counts_each_key_once() {
    let mut store = MemoryStore::new();
    let body = generate_manifest_body(DEFAULT_DIGEST);
    add_manifest("test", "t1", &body, &mut store);
    store.set_add("manifest::test::sha256:default_digest::alias", "t3").unwrap();
    assert_eq!(
        delete_alias("test", &mut store, vec!["t1".to_string(), "t1".to_string(), "t9".to_string()]),
        Ok(1)
    );
    assert_eq!(
        delete_alias_key(&mut store, &"manifest::test::sha256:default_digest::alias".to_string()),
        Ok(1)
    );
    assert_eq!(delete_alias_key(&mut store, &"manifest::test::nothing".to_string()), Ok(0));
    assert_eq!(store.len(), 0);
}

#[test]
fn untagging_counts_membership() {
    let mut store = MemoryStore::new();
    let body = generate_manifest_body(DEFAULT_DIGEST);
    add_manifest("test", "t1", &body, &mut store);
    add_manifest("test", "t2", &body, &mut store);
    assert_eq!(
        remove_tag_relation_from_digest("test", "t1", &mut store, body.clone()),
        Ok(1)
    );
    assert_eq!(
        remove_tag_relation_from_digest("test", "t1", &mut store, body.clone()),
        Ok(0)
    );
    assert_eq!(remove_tag_relation_from_digest("test", "t2", &mut store, body), Ok(1));
    assert_eq!(store.key_exists("manifest::test::sha256:default_digest::alias"), Ok(false));
}

#[test]
fn the_store_keeps_what_it_is_given() {
    let mut store = MemoryStore::new();
    assert_eq!(store.calls(), 0);
    store.set("k", vec![7, 8, 9]).unwrap();
    assert_eq!(store.get("k"), Ok(Some(vec![7, 8, 9])));
    store.set("k", vec![]).unwrap();
    assert_eq!(store.len(), 1);
    assert_eq!(store.get_and_delete("k"), Ok(Some(vec![])));
    assert_eq!(store.get("k"), Ok(None));
    assert_eq!(store.get_and_delete("k"), Ok(None));
    store.set_add("s", "a").unwrap();
    store.set_add("s", "a").unwrap();
    store.set_add("s", "b").unwrap();
    assert_eq!(store.set_members("s"), Ok(vec!["a".to_string(), "b".to_string()]));
    assert_eq!(store.get("s"), Ok(None));
    assert_eq!(store.get_and_delete("s"), Ok(None));
    assert_eq!(store.key_exists("s"), Ok(true));
    assert_eq!(store.set_remove("s", "c"), Ok(false));
    assert_eq!(store.set_remove("s", "a"), Ok(true));
    assert_eq!(store.set_remove("s", "b"), Ok(true));
    assert_eq!(store.key_exists("s"), Ok(false));
    assert_eq!(store.delete("s"), Ok(false));
    store.set_add("s", "a").unwrap();
    assert_eq!(store.delete("s"), Ok(true));
    assert_eq!(store.set_members("s"), Ok(vec![]));
    store.set("k", vec![1]).unwrap();
    store.set_add("k", "a").unwrap();
    assert_eq!(store.get("k"), Ok(Some(vec![1])));
    assert_eq!(store.set_remove("k", "a"), Ok(false));
    assert_eq!(store.calls(), 25);
}
