use rfshare::update::{
    is_newer, parse_version, parse_version_from_json, release_url, update_for, user_agent,
    version_in_response, version_label, VERSION,
};

#[test]
fn versions_are_read() {
    assert_eq!(parse_version("v1.2.3"), Some((1, 2, 3)));
    assert_eq!(parse_version("0.17.1-beta.2"), Some((0, 17, 1)));
    assert_eq!(parse_version("vv1.2.3"), Some((1, 2, 3)));
    assert_eq!(parse_version("1.2"), None);
    assert_eq!(parse_version("1.2.x"), None);
    assert_eq!(parse_version("1.2.3.4"), None);
    assert_eq!(parse_version("4294967296.0.0"), None);
}

#[test]
fn newer_versions() {
    assert!(is_newer("v0.17.2", "v0.17.1"));
    assert!(is_newer("v0.18.0", "v0.17.9"));
    assert!(is_newer("1.0.0", "v0.99.99"));
    assert!(!is_newer("v0.17.1", "v0.17.1"));
    assert!(!is_newer("v0.17.0", "v0.17.1"));
    assert!(!is_newer("v0.9.0", "v0.10.0"));
    assert!(!is_newer("latest", "v0.17.1"));
    assert!(!is_newer("v0.18.0", "unknown"));
}

#[test]
fn no_version_is_newer_than_itself_and_the_order_is_transitive() {
    let all = ["v0.1.0", "v0.1.1", "v0.2.0", "v1.0.0", "v1.0.10", "bad"];
    for a in all {
        assert!(!is_newer(a, a));
        for b in all {
            for c in all {
                if is_newer(a, b) && is_newer(b, c) {
                    assert!(is_newer(a, c));
                }
            }
        }
    }
}

#[test]
fn the_tag_is_found_in_an_answer() {
    let body = "{\"url\":\"x\",\"tag_name\":\"v0.18.0\",\"name\":\"y\"}";
    assert_eq!(parse_version_from_json(body), Some("v0.18.0".to_string()));
    assert_eq!(parse_version_from_json("{\"tag_name\":\"0.18.0\"}"), None);
    assert_eq!(parse_version_from_json("{\"tag_name\":\"v0.18.0"), None);
    assert_eq!(parse_version_from_json("{}"), None);
    assert_eq!(version_in_response(200, Some(body)), Some("v0.18.0".to_string()));
    assert_eq!(version_in_response(404, Some(body)), None);
    assert_eq!(version_in_response(200, None), None);
}

#[test]
fn only_newer_releases_are_offered() {
    assert_eq!(
        update_for(Some("v9.0.0".to_string()), &version_label()),
        Some("v9.0.0".to_string())
    );
    assert_eq!(update_for(Some("v0.0.1".to_string()), &version_label()), None);
    assert_eq!(update_for(None, &version_label()), None);
}

#[test]
fn what_is_asked_for_releases() {
    assert_eq!(VERSION, "0.17.1");
    assert_eq!(version_label(), "v0.17.1");
    assert_eq!(user_agent(), "rfshare/0.17.1");
    assert_eq!(release_url(), "https://api.github.com/repos/imrany/rfshare/releases/latest");
}
