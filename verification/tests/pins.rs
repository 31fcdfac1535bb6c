use roteiro::pins::{
    detect, detect_among, image_basename, image_candidates, norm_url, read_images, repo_basename,
    submodule_pin, url_matches_hub, ImageRef, SpokePin, Submodule,
};
use serde_json::Value;

#[test]
fn url_matches_hub_by_origin_or_basename() {
    assert!(url_matches_hub(
        "https://github.com/acme/app.git",
        "anything",
        Some("https://github.com/acme/app")
    ));
    // No origin match, but the repo basename equals the hub project name.
    assert!(url_matches_hub("git@github.com:acme/app.git", "app", None));
    assert!(!url_matches_hub(
        "git@github.com:acme/other.git",
        "app",
        None
    ));
}

#[test]
fn image_basename_strips_registry_and_org() {
    assert_eq!(image_basename("registry.io/acme/app"), "app");
    assert_eq!(image_basename("app"), "app");
}

fn object(members: &[(&str, &str)]) -> Value {
    let mut map = serde_json::Map::new();
    for (k, v) in members {
        map.insert((*k).to_owned(), Value::String((*v).to_owned()));
    }
    Value::Object(map)
}

fn pin(p: Option<SpokePin>) -> Option<(String, String)> {
    p.map(|p| (p.rev, p.via))
}

#[test]
fn metadata_gives_its_string_members_only() {
    let mut map = serde_json::Map::new();
    map.insert("url".to_owned(), Value::String("u".to_owned()));
    map.insert("sha".to_owned(), Value::Number(7.into()));
    let s = Submodule::read(&Value::Object(map));
    assert_eq!(s.url.as_deref(), Some("u"));
    assert_eq!(s.sha, None, "a number is no text");
    assert_eq!(s.path, None, "and neither is a member that is not there");
    let none = ImageRef::read(&Value::Array(vec![Value::String("image".to_owned())]));
    assert_eq!((none.image, none.tag), (None, None));
}

#[test]
fn a_submodule_pins_its_commit_before_any_image() {
    let subs = vec![
        object(&[("url", "https://h/acme/other.git"), ("sha", "aaaa")]),
        object(&[("url", "https://h/acme/app")]),
        object(&[
            ("url", "https://h/acme/app/"),
            ("sha", "cafe"),
            ("path", "vendor/app"),
        ]),
    ];
    let images = vec![object(&[("image", "reg/acme/app"), ("tag", "1.2")])];
    let revs = vec!["1.2".to_owned()];
    assert_eq!(
        pin(detect(&subs, &images, "app", None, &revs)),
        Some(("cafe".to_owned(), "submodule vendor/app".to_owned()))
    );
    // Without a path the pin says so.
    let bare = vec![object(&[("url", "x/app"), ("sha", "1")])];
    assert_eq!(
        pin(detect(&bare, &images, "app", None, &revs)),
        Some(("1".to_owned(), "submodule ?".to_owned()))
    );
}

#[test]
fn an_image_tag_is_tried_as_it_is_and_then_with_a_v() {
    let images = vec![
        object(&[("image", "reg/acme/web"), ("tag", "9")]),
        object(&[("image", "reg/acme/app"), ("tag", "1.2")]),
    ];
    let none: Vec<Value> = Vec::new();
    let both = vec!["v1.2".to_owned(), "1.2".to_owned()];
    assert_eq!(
        pin(detect(&none, &images, "app", None, &both)),
        Some(("1.2".to_owned(), "image reg/acme/app:1.2".to_owned()))
    );
    let versioned = vec!["v1.2".to_owned()];
    assert_eq!(
        pin(detect(&none, &images, "app", None, &versioned)),
        Some(("v1.2".to_owned(), "image reg/acme/app:1.2".to_owned()))
    );
    assert!(detect(&none, &images, "app", None, &Vec::new()).is_none());
    let read = read_images(&images);
    let tried: Vec<String> = image_candidates(&read, "app")
        .into_iter()
        .map(|c| c.rev)
        .collect();
    assert_eq!(tried, vec!["1.2".to_owned(), "v1.2".to_owned()]);
}

#[test]
fn urls_compare_without_their_endings_and_case() {
    assert_eq!(norm_url("https://H/Acme/App.git/"), "https://h/acme/app");
    assert_eq!(norm_url("x.git.git"), "x");
    assert_eq!(repo_basename("git@host:acme/app.git"), "app");
    assert_eq!(repo_basename("https://h/acme/app"), "app");
    assert_eq!(repo_basename("git@host:app"), "app");
}

#[test]
fn a_pin_by_origin_needs_a_commit() {
    let subs = vec![Submodule {
        url: Some("https://h/acme/app".to_owned()),
        sha: None,
        path: None,
    }];
    assert!(submodule_pin(&subs, "hub", Some("https://h/acme/app")).is_none());
    assert!(detect_among(&subs, &Vec::new(), "hub", None, &Vec::new()).is_none());
}
