use nomad_vmonitor::image::Image;
use nomad_vmonitor::version::RawTag;

#[test]
fn image_without_tag_is_latest() {
    let img = Image::parse("nginx".to_string()).unwrap();
    assert_eq!(img.registry, "registry.hub.docker.com");
    assert_eq!(img.namespace, None);
    assert_eq!(img.name, "nginx");
    assert_eq!(img.tag, RawTag::new("latest"));
}

#[test]
fn image_with_template_variable_is_rejected() {
    let raw = "user/app:${VERSION}".to_string();
    assert_eq!(Image::parse(raw.clone()), Err(raw));
    assert_eq!(Image::parse("$VAR".to_string()), Err("$VAR".to_string()));
}

#[test]
fn image_with_three_segments_is_rejected() {
    let raw = "a/b/c:1.0.0".to_string();
    assert_eq!(Image::parse(raw.clone()), Err(raw));
    let raw = "host.io/a/b/c:1.0.0".to_string();
    assert_eq!(Image::parse(raw.clone()), Err(raw));
}

#[test]
fn image_with_only_a_host_is_rejected() {
    let raw = "test.com:version".to_string();
    assert_eq!(Image::parse(raw.clone()), Err(raw));
}

#[test]
fn image_tag_follows_last_colon() {
    let img = Image::parse("host.io:5000/team/app:1.4.2".to_string()).unwrap();
    assert_eq!(img.registry, "host.io:5000");
    assert_eq!(img.namespace, Some("team".to_string()));
    assert_eq!(img.name, "app");
    assert_eq!(img.tag.as_str(), "1.4.2");
}

#[test]
fn image_round_trip_of_fields() {
    let img = Image::parse("ghcr.io/org/tool:v2.0.1".to_string()).unwrap();
    let text = format!(
        "{}/{}/{}:{}",
        img.registry,
        img.namespace.clone().unwrap(),
        img.name,
        img.tag.as_str()
    );
    assert_eq!(text, "ghcr.io/org/tool:v2.0.1");
    assert_eq!(Image::parse(text), Ok(img));
}

#[test]
fn rebuilt_text_parses_to_same_image() {
    for raw in ["nginx", "user/test:version", "host.io:5000/team/app:1.4.2", "ghcr.io/tool:v1"] {
        let img = Image::parse(raw.to_string()).unwrap();
        let text = format!(
            "{}/{}{}:{}",
            img.registry,
            img.namespace.clone().map_or(String::new(), |n| n + "/"),
            img.name,
            img.tag.as_str()
        );
        assert_eq!(Image::parse(text), Ok(img));
    }
}
