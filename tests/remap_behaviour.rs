use image_remap::{canonicalize, remap, remap_images, ImageRef};

fn pairs(items: &[(&str, &str)]) -> Vec<(String, String)> {
    items.iter().map(|(a, b)| (a.to_string(), b.to_string())).collect()
}

#[test]
fn serialize_writes_canonical_form() {
    assert_eq!(ImageRef::parse("alpine:3.10").to_string(), "docker.io/library/alpine:3.10");
    assert_eq!(ImageRef::parse("gcr.io/fake_image").to_string(), "gcr.io/fake_image:latest");
    assert_eq!(
        ImageRef::parse("quay.io/fake_project/fake_image@fake_hash").to_string(),
        "quay.io/fake_project/fake_image@fake_hash"
    );
}

#[test]
fn serialize_without_registry_tag_or_digest() {
    let r = ImageRef { registry: None, image: "foo/bar".into(), tag: None, hash: None };
    assert_eq!(r.to_string(), "foo/bar");
    let r = ImageRef {
        registry: Some("example.com".into()),
        image: "foo".into(),
        tag: Some("1".into()),
        hash: Some("sha256:abc".into()),
    };
    assert_eq!(r.to_string(), "example.com/foo:1");
}

#[test]
fn parse_empty_input() {
    assert_eq!(
        ImageRef::parse(""),
        ImageRef {
            registry: Some("docker.io".into()),
            image: "library/".into(),
            tag: Some("latest".into()),
            hash: None
        }
    );
    assert_eq!(canonicalize(""), "docker.io/library/:latest");
}

#[test]
fn parse_explicit_default_registry_adds_namespace() {
    assert_eq!(
        ImageRef::parse("docker.io/alpine"),
        ImageRef {
            registry: Some("docker.io".into()),
            image: "library/alpine".into(),
            tag: Some("latest".into()),
            hash: None
        }
    );
}

#[test]
fn parse_tag_keeps_later_colons() {
    let r = ImageRef::parse("localhost/foo:a:b");
    assert_eq!(r.image, "foo");
    assert_eq!(r.tag, Some("a:b".to_string()));
}

#[test]
fn parse_round_trip_is_stable() {
    for s in [
        "",
        "alpine",
        "alpine:3.10",
        "docker.io/alpine",
        "gcr.io/fake_image",
        "foo@bar/baz",
        "fake_project/fake_image@sha256:",
        "example.com:1234/foo/bar/baz:qux",
        "localhost/foo/bar:baz",
        "a/b/c",
        "x:y/z",
    ] {
        let once = ImageRef::parse(s);
        assert_eq!(ImageRef::parse(&once.to_string()), once, "input {:?}", s);
    }
}

#[test]
fn canonicalize_fills_defaults() {
    assert_eq!(canonicalize("nginx"), "docker.io/library/nginx:latest");
    assert_eq!(canonicalize("localhost/foo"), "localhost/foo:latest");
}

#[test]
fn remap_first_match_wins() {
    let m = pairs(&[("quay.io", "quay.mirror.io"), ("quay.io", "other.io")]);
    assert_eq!(
        remap("quay.io/prometheus/node-exporter:v0.18.1", &m),
        "quay.mirror.io/prometheus/node-exporter:v0.18.1"
    );
}

#[test]
fn remap_follows_mapping_order() {
    let m = pairs(&[("k8s.gcr.io", "k8s.mirror.io"), ("gcr.io", "gcr.mirror.io")]);
    assert_eq!(remap("k8s.gcr.io/pause:3.2", &m), "k8s.mirror.io/pause:3.2");
    let m = pairs(&[("gcr.io", "gcr.mirror.io"), ("k8s.gcr.io", "k8s.mirror.io")]);
    assert_eq!(remap("gcr.io/pause", &m), "gcr.mirror.io/pause:latest");
}

#[test]
fn remap_no_match_returns_canonical() {
    let m = pairs(&[("quay.io", "quay.mirror.io")]);
    assert_eq!(remap("alpine", &m), "docker.io/library/alpine:latest");
    assert_eq!(remap("alpine", &Vec::new()), "docker.io/library/alpine:latest");
}

#[test]
fn remap_default_registry() {
    let m = pairs(&[("docker.io", "hub.mirror.io")]);
    assert_eq!(remap("alpine:3.10", &m), "hub.mirror.io/library/alpine:3.10");
}

#[test]
fn remap_replaces_every_occurrence() {
    let m = pairs(&[("quay.io", "mirror.io")]);
    assert_eq!(remap("quay.io/quay.io/app:quay.io", &m), "mirror.io/mirror.io/app:mirror.io");
}

#[test]
fn remap_empty_source_matches_everywhere() {
    let m = pairs(&[("", "-")]);
    assert_eq!(remap("localhost/a", &m), "localhost/a:latest".replace("", "-"));
}

#[test]
fn remap_images_keeps_missing_images() {
    let m = pairs(&[("gcr.io", "gcr.mirror.io")]);
    let images = vec![Some("gcr.io/app:1".to_string()), None, Some("busybox".to_string())];
    assert_eq!(
        remap_images(&images, &m),
        vec![
            Some("gcr.mirror.io/app:1".to_string()),
            None,
            Some("docker.io/library/busybox:latest".to_string()),
        ]
    );
}
