use regex::Regex;
use rregistry::manifest::{is_manifest_name_valid, is_valid_request};
use rregistry::tags::{is_accepted_digest, is_reference_valid, is_tag_name_valid};

fn samples() -> Vec<String> {
    let mut out: Vec<String> = vec![
        "", "a", "A", "_", "-", ".", "/", ":", "+", "=", "latest", "v1.0.0", "_hidden", "-dash",
        ".dot", "a-b", "a--b", "a.b_c-d", "a..b", "a/b", "a//b", "/a", "a/", "a/b/c", "a-/b",
        "a/-b", "library/alpine", "my.repo/sub_dir/img-1", "Upper/case", "sha256:abc",
        "sha256:", ":abc", "sha256:a:b", "sha256+b64:QUJD=", "sha256++b64:abc", "+sha:abc",
        "sha+:abc", "SHA256:abc", "sha256:ABC_def-0=", "sha256:abc def", "sha256:abc\n",
        "tag\n", "a b", "caf\u{e9}", "\u{e9}", "sha256:\u{e9}", "a_b", "a__b", "a_", "0", "0.1",
        "a+b", "a+b:c", "test", "exists", "dont_exist", "sha256:default_digest",
        "sha256:encoded_sha", "a.b:c", "a-b:c", "a_b:c", "a/b:c", "a::b",
    ]
    .into_iter()
    .map(String::from)
    .collect();
    out.push("a".repeat(127));
    out.push("a".repeat(128));
    out.push("a".repeat(129));
    out.push(format!("_{}", "-".repeat(127)));
    out.push(format!("_{}", ".".repeat(128)));
    out
}

#[test]
fn tag_grammar_agrees_with_its_pattern() {
    let pattern = Regex::new(r"^[a-zA-Z0-9_][a-zA-Z0-9._-]{0,127}$").unwrap();
    for s in samples() {
        assert_eq!(is_tag_name_valid(&s), pattern.is_match(&s), "{:?}", s);
    }
}

#[test]
fn digest_grammar_agrees_with_its_pattern() {
    let pattern = Regex::new(r"^[a-z0-9]+([+._-][a-z0-9]+)*:[a-zA-Z0-9=_-]+$").unwrap();
    for s in samples() {
        assert_eq!(is_accepted_digest(&s), pattern.is_match(&s), "{:?}", s);
    }
}

#[test]
fn name_grammar_agrees_with_its_pattern() {
    let pattern =
        Regex::new(r"^[a-z0-9]+([._-][a-z0-9]+)*(/[a-z0-9]+([._-][a-z0-9]+)*)*$").unwrap();
    for s in samples() {
        assert_eq!(is_manifest_name_valid(&s), pattern.is_match(&s), "{:?}", s);
    }
}

#[test]
fn tags_are_one_to_128_characters() {
    assert!(!is_tag_name_valid(""));
    assert!(is_tag_name_valid("a"));
    assert!(is_tag_name_valid(&"a".repeat(128)));
    assert!(!is_tag_name_valid(&"a".repeat(129)));
    assert!(is_tag_name_valid("_"));
    assert!(!is_tag_name_valid("."));
    assert!(!is_tag_name_valid("-a"));
    assert!(is_tag_name_valid("A.b_c-D"));
    assert!(!is_tag_name_valid("a:b"));
}

#[test]
fn digests_have_an_algorithm_and_an_encoded_part() {
    assert!(is_accepted_digest("sha256:default_digest"));
    assert!(is_accepted_digest("sha512+b64.x_y-z:AbC=_-"));
    assert!(!is_accepted_digest("sha256"));
    assert!(!is_accepted_digest("sha256:"));
    assert!(!is_accepted_digest(":abc"));
    assert!(!is_accepted_digest("Sha256:abc"));
    assert!(!is_accepted_digest("sha256:a:b"));
    assert!(!is_accepted_digest("sha256.:abc"));
    assert!(!is_accepted_digest("sha..256:abc"));
    assert!(!is_accepted_digest(""));
}

#[test]
fn names_are_lowercase_path_segments() {
    assert!(is_manifest_name_valid("test"));
    assert!(is_manifest_name_valid("library/alpine"));
    assert!(is_manifest_name_valid("a.b/c_d/e-f/0"));
    assert!(!is_manifest_name_valid(""));
    assert!(!is_manifest_name_valid("Test"));
    assert!(!is_manifest_name_valid("/test"));
    assert!(!is_manifest_name_valid("test/"));
    assert!(!is_manifest_name_valid("a//b"));
    assert!(!is_manifest_name_valid("a+b"));
    assert!(!is_manifest_name_valid("a._b"));
}

#[test]
fn a_request_needs_a_name_and_a_tag_or_a_digest() {
    assert!(is_valid_request("test", "exists"));
    assert!(is_valid_request("test", "sha256:default_digest"));
    assert!(!is_valid_request("Test", "exists"));
    assert!(!is_valid_request("test", ""));
    assert!(!is_valid_request("test", "Sha256:a:b"));
    assert!(is_reference_valid("UPPER"));
    assert!(!is_reference_valid("UPPER:abc"));
    for s in samples() {
        assert!(!(is_tag_name_valid(&s) && is_accepted_digest(&s)), "{:?}", s);
    }
}
