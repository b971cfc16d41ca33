use oci_lock::update::{apply_update, latest_image, update_definition, ImageDefinition};
use oci_lock::version::{Error, GitDescribeVersion};

fn definition(tag: &str) -> ImageDefinition {
    ImageDefinition {
        image: "123456789.dkr.ecr.us-east-1.amazonaws.com/a/b".to_string(),
        tag: tag.to_string(),
        digest: "sha256:old".to_string(),
        platforms: vec!["linux/amd64".to_string(), "linux/arm64".to_string()],
    }
}

fn listing(pairs: &[(&str, &str)]) -> Vec<(String, String)> {
    pairs.iter().map(|(t, d)| (t.to_string(), d.to_string())).collect()
}

fn registry() -> Vec<(String, String)> {
    listing(&[
        ("1.0.0", "sha256:a"),
        ("1.1.0", "sha256:b"),
        ("1.1.0-2-gdeadbe", "sha256:c"),
        ("latest", "sha256:d"),
    ])
}

#[test]
fn releases_only_selects_latest_release() {
    let (d, updated) = update_definition(definition("1.0.0"), &registry(), false).unwrap();
    assert!(updated);
    assert_eq!(d.tag, "1.1.0");
    assert_eq!(d.digest, "sha256:b");
    assert_eq!(d.image, "123456789.dkr.ecr.us-east-1.amazonaws.com/a/b");
    assert_eq!(d.platforms, vec!["linux/amd64", "linux/arm64"]);
}

#[test]
fn snapshots_allowed_selects_snapshot() {
    let (d, updated) = update_definition(definition("1.0.0"), &registry(), true).unwrap();
    assert!(updated);
    assert_eq!(d.tag, "1.1.0-2-gdeadbe");
    assert_eq!(d.digest, "sha256:c");
}

#[test]
fn same_version_leaves_entry_unchanged() {
    let items = listing(&[("1.0.0", "sha256:new")]);
    let (d, updated) = update_definition(definition("1.0.0"), &items, false).unwrap();
    assert!(!updated);
    assert_eq!(d.tag, "1.0.0");
    assert_eq!(d.digest, "sha256:old");
}

#[test]
fn older_remote_leaves_entry_unchanged() {
    let (d, updated) = update_definition(definition("2.0.0"), &registry(), true).unwrap();
    assert!(!updated);
    assert_eq!(d.tag, "2.0.0");
}

#[test]
fn no_candidate_leaves_entry_unchanged() {
    let items = listing(&[("latest", "sha256:x"), ("1.2.3-1-gabc", "sha256:y")]);
    assert!(latest_image(&items, false).is_none());
    let (d, updated) = update_definition(definition("not a version"), &items, false).unwrap();
    assert!(!updated);
    assert_eq!(d.tag, "not a version");
}

#[test]
fn malformed_locked_tag_is_an_error() {
    let r = update_definition(definition("stable"), &registry(), false);
    assert_eq!(r.err(), Some(Error::InvalidVersionString));
}

#[test]
fn latest_image_reports_digest() {
    let (v, dg) = latest_image(&registry(), false).unwrap();
    assert_eq!(v.to_string(), "1.1.0");
    assert_eq!(dg, "sha256:b");
    assert!(latest_image(&Vec::new(), true).is_none());
}

#[test]
fn equal_rank_takes_last_listed() {
    let items = listing(&[("1.0.0", "sha256:first"), ("v1.0.0", "sha256:second")]);
    let (_, dg) = latest_image(&items, false).unwrap();
    assert_eq!(dg, "sha256:second");
}

#[test]
fn apply_update_without_latest_keeps_entry() {
    let (d, updated) = apply_update(definition("bad"), None).unwrap();
    assert!(!updated);
    assert_eq!(d.digest, "sha256:old");
    let newer = GitDescribeVersion::from_str("3.0.0-5-gfeed").unwrap();
    let (e, updated) = apply_update(definition("3.0.0"), Some((newer, "sha256:z".to_string()))).unwrap();
    assert!(updated);
    assert_eq!(e.tag, "3.0.0-5-gfeed");
    assert_eq!(e.digest, "sha256:z");
}
