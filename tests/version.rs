use oci_lock::version::{Error, GitDescribeVersion};

fn parse(s: &str) -> GitDescribeVersion {
    GitDescribeVersion::from_str(s).unwrap()
}

#[test]
fn parse_tag() {
    let a = GitDescribeVersion::from_str("1.2.3").unwrap();
    assert_eq!(a.major, 1);
    assert_eq!(a.minor, 2);
    assert_eq!(a.patch, 3);
    assert_eq!(a.distance, 0);
    assert_eq!(a.commitish, None);
}

#[test]
fn parse_snapshot() {
    let a = GitDescribeVersion::from_str("1.2.3-4-gabc123").unwrap();
    assert_eq!(a.major, 1);
    assert_eq!(a.minor, 2);
    assert_eq!(a.patch, 3);
    assert_eq!(a.distance, 4);
    assert_eq!(a.commitish.unwrap(), "abc123");
}

#[test]
fn check_sort_order() {
    let a = GitDescribeVersion::from_str("1.2.3").unwrap();
    let b = GitDescribeVersion::from_str("1.2.4").unwrap();
    let c = GitDescribeVersion::from_str("1.2.4-1-gabcdef").unwrap();
    let d = GitDescribeVersion::from_str("1.3.0").unwrap();

    let truth = vec![&a, &b, &c, &d];

    let mut v = vec![&c, &b, &d, &a];
    v.sort();

    assert_eq!(truth, v, "test derived sort is correct");
}

#[test]
fn precedes_orders_by_numbers_then_distance() {
    assert!(parse("1.2.3").precedes(&parse("1.2.4")));
    assert!(!parse("1.2.4").precedes(&parse("1.2.3")));
    assert!(parse("1.2.4").precedes(&parse("1.2.4-1-gabc")));
    assert!(parse("1.2.4-1-gabc").precedes(&parse("1.3.0")));
    assert!(parse("1.9.9").precedes(&parse("2.0.0")));
    assert!(parse("1.2.10").precedes(&parse("1.2.11")));
    assert!(!parse("1.2.3").precedes(&parse("1.2.3")));
}

#[test]
fn commit_plays_no_part_in_precedes() {
    let a = parse("1.2.3-4-gaaa");
    let b = parse("1.2.3-4-gbbb");
    assert!(!a.precedes(&b));
    assert!(!b.precedes(&a));
}

#[test]
fn precedes_sorts_listing() {
    let tags = ["1.2.4-1-gabcdef", "1.2.4", "1.3.0", "1.2.3"];
    let mut v: Vec<GitDescribeVersion> = tags.iter().map(|t| parse(t)).collect();
    let mut i = 1;
    while i < v.len() {
        let mut j = i;
        while j > 0 && v[j].precedes(&v[j - 1]) {
            v.swap(j, j - 1);
            j -= 1;
        }
        i += 1;
    }
    let out: Vec<String> = v.iter().map(|x| x.to_string()).collect();
    assert_eq!(out, vec!["1.2.3", "1.2.4", "1.2.4-1-gabcdef", "1.3.0"]);
}

#[test]
fn canonical_text_round_trips() {
    assert_eq!(parse("1.2.3").to_string(), "1.2.3");
    assert_eq!(parse("1.2.3-4-gabc123").to_string(), "1.2.3-4-gabc123");
    assert_eq!(parse("0.0.0").to_string(), "0.0.0");
    assert_eq!(parse("4294967295.10.200").to_string(), "4294967295.10.200");
    assert_eq!(parse("10.20.30-400-gDEADbeef9").to_string(), "10.20.30-400-gDEADbeef9");
}

#[test]
fn non_canonical_text_is_normalised() {
    assert_eq!(parse("01.02.003").to_string(), "1.2.3");
    assert_eq!(parse("1.2.3-0-gabc").to_string(), "1.2.3");
}

#[test]
fn release_classification() {
    assert!(parse("1.2.3").is_release());
    assert!(!parse("1.2.3-4-gabc123").is_release());
}

#[test]
fn tag_without_numbers_is_rejected() {
    assert_eq!(GitDescribeVersion::from_str("latest"), Err(Error::InvalidVersionString));
    assert_eq!(GitDescribeVersion::from_str(""), Err(Error::InvalidVersionString));
    assert_eq!(GitDescribeVersion::from_str("1.2"), Err(Error::InvalidVersionString));
    assert_eq!(GitDescribeVersion::from_str("1..3"), Err(Error::InvalidVersionString));
}

#[test]
fn number_too_large_is_rejected() {
    assert_eq!(
        GitDescribeVersion::from_str("4294967296.0.0"),
        Err(Error::InvalidVersionString)
    );
    assert_eq!(
        GitDescribeVersion::from_str("1.2.3-4294967296-gabc"),
        Err(Error::InvalidVersionString)
    );
}

#[test]
fn match_is_searched_for() {
    let v = parse("v1.2.3-rc");
    assert_eq!((v.major, v.minor, v.patch, v.distance), (1, 2, 3, 0));
    assert_eq!(v.commitish, None);
    let w = parse("x.1.2.x 3.4.5-6-gab_");
    assert_eq!((w.major, w.minor, w.patch, w.distance), (3, 4, 5, 6));
    assert_eq!(w.commitish.unwrap(), "ab");
}

#[test]
fn incomplete_suffix_is_ignored() {
    let v = parse("1.2.3-4");
    assert_eq!(v.distance, 0);
    assert_eq!(v.commitish, None);
    let w = parse("1.2.3-4-g");
    assert_eq!(w.distance, 0);
    assert!(w.is_release());
}
