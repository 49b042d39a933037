use pixpull::address::{
    locate, location_of, part_file_for, percent_decode, stable_hash, url_basename, UrlParts,
};
use std::collections::hash_map::DefaultHasher;
use std::hash::{Hash, Hasher};

fn parts(segments: &[&str]) -> UrlParts {
    UrlParts {
        host: Some("a.example".to_string()),
        segments: Some(segments.iter().map(|s| s.to_string()).collect()),
    }
}

#[test]
fn location_of_a_url() {
    let l = locate("https://cdn.example/img/abc%20123.jpg?size=2#top").unwrap();
    assert_eq!(l.host, "cdn.example");
    assert_eq!(l.basename.as_deref(), Some("abc 123.jpg"));
    let l = locate("http://CDN.example/").unwrap();
    assert_eq!(l.host, "cdn.example");
    assert_eq!(l.basename, None);
}

#[test]
fn unusable_urls_say_why() {
    assert_eq!(
        locate("no url").unwrap_err(),
        "invalid URL: relative URL without a base"
    );
    assert_eq!(locate("data:image/png;base64,AA").unwrap_err(), "URL has no host");
    assert_eq!(
        location_of(Err("boom".to_string())).unwrap_err(),
        "invalid URL: boom"
    );
}

#[test]
fn basename_is_decoded_and_clean() {
    assert_eq!(url_basename(&parts(&["x", "a%2Fb.png"])).as_deref(), Some("a_b.png"));
    assert_eq!(url_basename(&parts(&["x", ""])), None);
    assert_eq!(url_basename(&parts(&["..."])), None);
    assert_eq!(url_basename(&parts(&["%2e%2e"])), None);
    assert_eq!(
        url_basename(&UrlParts { host: None, segments: None }),
        None
    );
}

#[test]
fn percent_decoding() {
    assert_eq!(percent_decode("a%41%7a"), "aAz");
    assert_eq!(percent_decode("100%"), "100%");
    assert_eq!(percent_decode("%zz%4"), "%zz%4");
    assert_eq!(percent_decode("%C3%A9"), "\u{e9}");
}

#[test]
fn part_file_is_named_by_the_hash_of_the_url() {
    let url = "https://a.example/1.jpg";
    let mut h = DefaultHasher::new();
    url.hash(&mut h);
    let hash = h.finish();
    assert_eq!(stable_hash(url), hash);
    assert_eq!(part_file_for(url), format!(".{:016x}.part", hash));
    assert_ne!(part_file_for(url), part_file_for("https://a.example/2.jpg"));
}
