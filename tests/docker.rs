use nomad_vmonitor::image::Image;
use nomad_vmonitor::version::{RawTag, Version};

#[test]
fn parse_image() {
    assert_eq!(
        Ok(Image {
            registry: "registry.hub.docker.com".to_string(),
            namespace: Some("user".to_string()),
            name: "test".to_string(),
            tag: RawTag::new("version"),
        }),
        Image::parse("user/test:version".to_string()),
    );

    assert_eq!(
        Ok(Image {
            registry: "registry.hub.docker.com".to_string(),
            namespace: None,
            name: "test".to_string(),
            tag: RawTag::new("version"),
        }),
        Image::parse("test:version".to_string()),
    );

    assert_eq!(
        Ok(Image {
            registry: "test.com".to_string(),
            namespace: Some("user".to_string()),
            name: "test".to_string(),
            tag: RawTag::new("version"),
        }),
        Image::parse("test.com/user/test:version".to_string()),
    );
}

#[test]
fn tag_latest() {
    let tag = RawTag::new("latest");
    let version = tag.parse_version().expect("Valid Version");

    assert_eq!(Version::Latest, version);
}

#[test]
fn tag_semantic() {
    let tag = RawTag::new("1.2.3");
    let version = tag.parse_version().expect("Valid Version");

    assert_eq!(
        Version::Semantic {
            major: 1,
            minor: Some(2),
            patch: Some(3)
        },
        version
    );
}

#[test]
fn tag_semantic_with_leading_v() {
    let tag = RawTag::new("v1.2.3");
    let version = tag.parse_version().expect("Valid Version");

    assert_eq!(
        Version::Semantic {
            major: 1,
            minor: Some(2),
            patch: Some(3)
        },
        version
    );
}
