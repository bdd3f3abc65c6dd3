use nomad_vmonitor::version::{RawTag, Version};
use std::cmp::Ordering;

fn v(t: &str) -> Version {
    RawTag::new(t).parse_version().unwrap()
}

#[test]
fn partial_tag_is_not_fully_qualified() {
    let one = v("1");
    assert_eq!(one, Version::Semantic { major: 1, minor: None, patch: None });
    assert!(!one.fully_qualified());
    assert!(!v("1.2").fully_qualified());
    assert!(v("1.2.3").fully_qualified());
    assert!(v("latest").fully_qualified());
}

#[test]
fn leading_v_and_plain_tags_agree() {
    assert_eq!(v("1.2.3"), v("v1.2.3"));
}

#[test]
fn non_numeric_components_count_as_absent() {
    assert_eq!(v("1.2.rc1"), Version::Semantic { major: 1, minor: Some(2), patch: None });
    assert_eq!(v("1.x.3"), Version::Semantic { major: 1, minor: None, patch: Some(3) });
    assert_eq!(v("+7"), Version::Semantic { major: 7, minor: None, patch: None });
}

#[test]
fn unparsable_major_is_an_error() {
    assert_eq!(RawTag::new("alpine").parse_version(), Err(()));
    assert_eq!(RawTag::new("").parse_version(), Err(()));
    assert_eq!(RawTag::new("Latest").parse_version(), Err(()));
    assert_eq!(RawTag::new("18446744073709551616").parse_version(), Err(()));
    assert_eq!(
        RawTag::new("18446744073709551615").parse_version(),
        Ok(Version::Semantic { major: usize::MAX, minor: None, patch: None })
    );
}

#[test]
fn order_of_versions() {
    assert_eq!(v("latest").compare(&v("0.0.0")), Ordering::Less);
    assert_eq!(v("1.2.3").compare(&v("1.3.0")), Ordering::Less);
    assert_eq!(v("2.0.0").compare(&v("1.9.9")), Ordering::Greater);
    assert_eq!(v("1.2").compare(&v("1.2.0")), Ordering::Less);
    assert_eq!(v("1").compare(&v("1.0")), Ordering::Less);
    assert_eq!(v("1.2.3").compare(&v("v1.2.3")), Ordering::Equal);
    assert_eq!(v("latest").compare(&v("latest")), Ordering::Equal);
    assert!(v("1.10.0") > v("1.9.0"));
    assert_eq!(v("1.10.0").partial_cmp(&v("1.9.0")), Some(Ordering::Greater));
}

#[test]
fn order_is_transitive_and_antisymmetric_on_samples() {
    let all: Vec<Version> = ["latest", "1", "1.0", "1.0.0", "1.0.1", "1.1", "2.0.0", "1.x.3"]
        .iter()
        .map(|t| v(t))
        .collect();
    for a in &all {
        for b in &all {
            assert_eq!(a.compare(b), b.compare(a).reverse());
            assert_eq!(a.compare(b) == Ordering::Equal, a == b);
            for c in &all {
                if a.compare(b) != Ordering::Greater && b.compare(c) != Ordering::Greater {
                    assert_ne!(a.compare(c), Ordering::Greater);
                }
            }
        }
    }
}

#[test]
fn render_versions() {
    assert_eq!(v("v1.2.3").render(), "1.2.3");
    assert_eq!(v("1.20").render(), "1.20");
    assert_eq!(v("10").render(), "10");
    assert_eq!(v("latest").render(), "latest");
    assert_eq!(v("1.x.3").render(), "1");
    assert_eq!(
        Version::Semantic { major: 0, minor: Some(105), patch: Some(7) }.render(),
        "0.105.7"
    );
}
