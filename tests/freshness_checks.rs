use nomad_vmonitor::reconcile::finish_lookup;
use nomad_vmonitor::registry::GetTagsError;
use nomad_vmonitor::freshness::{freshness, newest_version, resolve, UpdatedVersion};
use nomad_vmonitor::version::{RawTag, Version};

fn tags(ts: &[&str]) -> Vec<String> {
    ts.iter().map(|t| t.to_string()).collect()
}

#[test]
fn newer_release_is_out_of_date() {
    let current = RawTag::new("1.2.3").parse_version().unwrap();
    let r = resolve(&current, &tags(&["1.2.3", "1.3.0", "1.2"]));
    assert_eq!(
        r,
        Some(UpdatedVersion::OutOfDate { current: "1.2.3".to_string(), newest: "1.3.0".to_string() })
    );
}

#[test]
fn partial_tags_are_not_candidates() {
    let n = newest_version(&tags(&["1.2.3", "2", "2.1", "latest-alpine", "v1.2.4"]));
    assert_eq!(n, Some(Version::Semantic { major: 1, minor: Some(2), patch: Some(4) }));
    assert_eq!(newest_version(&tags(&["2", "2.1", "alpine"])), None);
    assert_eq!(newest_version(&tags(&[])), None);
}

#[test]
fn newest_release_is_up_to_date() {
    let current = RawTag::new("v2.0.0").parse_version().unwrap();
    let r = resolve(&current, &tags(&["1.9.9", "2.0.0", "2.0"]));
    assert_eq!(r, Some(UpdatedVersion::UpToDate { version: "2.0.0".to_string() }));
}

#[test]
fn no_candidate_is_indeterminate() {
    let current = RawTag::new("1.2.3").parse_version().unwrap();
    assert_eq!(resolve(&current, &tags(&["1", "1.2", "edge"])), None);
}

#[test]
fn floating_tag_is_a_candidate() {
    let n = newest_version(&tags(&["latest"]));
    assert_eq!(n, Some(Version::Latest));
    let current = Version::Semantic { major: 1, minor: None, patch: None };
    assert_eq!(
        freshness(&current, &Version::Latest),
        UpdatedVersion::UpToDate { version: "1".to_string() }
    );
}

#[test]
fn gauge_values_of_outcomes() {
    let up = UpdatedVersion::UpToDate { version: "1.0.0".to_string() };
    let out = UpdatedVersion::OutOfDate { current: "1.0.0".to_string(), newest: "1.1.0".to_string() };
    assert_eq!(up.gauge_levels(), (1, 0));
    assert_eq!(out.gauge_levels(), (0, 1));
    assert_eq!(up.version_labels(), ("1.0.0".to_string(), "1.0.0".to_string()));
    assert_eq!(out.version_labels(), ("1.0.0".to_string(), "1.1.0".to_string()));
}

#[test]
fn failed_lookup_is_skipped() {
    let current = RawTag::new("1.2.3").parse_version().unwrap();
    assert_eq!(finish_lookup(&current, &Err(GetTagsError::FailedAuth)), None);
    assert_eq!(
        finish_lookup(&current, &Ok(tags(&["1.2.3", "1.3.0", "1.2"]))),
        Some(UpdatedVersion::OutOfDate { current: "1.2.3".to_string(), newest: "1.3.0".to_string() })
    );
}
