use pixpull::cookies::{
    build_cookie_header, parse_cookie_string, parse_netscape_jar, parse_netscape_jar_at, Cookie,
};

#[test]
fn parses_cookie_string() {
    let cs = parse_cookie_string("session=abc123; theme=dark").unwrap();
    assert_eq!(cs.len(), 2);
    assert_eq!(cs[0].name, "session");
    assert_eq!(cs[1].value, "dark");
}

#[test]
fn parses_netscape_jar() {
    let content = "# Netscape HTTP Cookie File\n\
        .example.com\tTRUE\t/\tFALSE\t9999999999\tsid\txyz\n\
        .example.com\tTRUE\t/\tFALSE\t1\texpired\tgone\n\
        #HttpOnly_.other.com\tTRUE\t/\tTRUE\t9999999999\ttok\tabc\n";
    let cookies = parse_netscape_jar_from_str(content);
    assert_eq!(cookies.len(), 2);
    assert!(cookies.iter().any(|c| c.name == "sid" && c.value == "xyz"));
    assert!(cookies.iter().all(|c| c.name != "expired"));
}

#[test]
fn host_matching() {
    let jar = parse_cookie_string("a=1").unwrap();
    let header = build_cookie_header(&jar, &[], "img.example.com");
    assert_eq!(header.as_deref(), Some("a=1"));

    let jar = parse_netscape_jar_from_str(
        ".example.com\tTRUE\t/\tFALSE\t9999999999\tsid\txyz\n",
    );
    let header = build_cookie_header(&[], &jar, "cdn.example.com").unwrap();
    assert!(header.contains("sid=xyz"));
    let header = build_cookie_header(&[], &jar, "other.org");
    assert!(header.is_none());
}

fn parse_netscape_jar_from_str(s: &str) -> Vec<Cookie> {
    parse_netscape_jar(s).unwrap()
}

#[test]
fn malformed_cookie_pair_is_named() {
    let err = parse_cookie_string("a=1;  broken ; b=2").unwrap_err();
    assert_eq!(err.pair, "broken");
    let cs = parse_cookie_string(" a = 1=2 ;; ").unwrap();
    assert_eq!(cs.len(), 1);
    assert_eq!(cs[0].name, "a");
    assert_eq!(cs[0].value, "1=2");
    assert!(parse_cookie_string("").unwrap().is_empty());
}

#[test]
fn short_jar_line_is_an_error() {
    let err = parse_netscape_jar("# ok\n\n.example.com\tTRUE\t/\n").unwrap_err();
    assert_eq!(err.line, 3);
    assert_eq!(err.columns, 3);
}

#[test]
fn jar_columns_may_be_spaced() {
    let jar = parse_netscape_jar_from_str(".example.com TRUE / FALSE 0 sid xyz");
    assert_eq!(jar.len(), 1);
    assert_eq!(jar[0].name, "sid");
    assert_eq!(jar[0].value, "xyz");
    assert_eq!(jar[0].path.as_deref(), Some("/"));
}

#[test]
fn cookie_expires_at_its_time() {
    let line = "example.com\tTRUE\t/\tFALSE\t100\ta\tb";
    assert_eq!(parse_netscape_jar_at(line, 100).unwrap().len(), 1);
    assert_eq!(parse_netscape_jar_at(line, 101).unwrap().len(), 0);
    let session = "example.com\tTRUE\t/\tFALSE\t0\ta\tb";
    assert_eq!(parse_netscape_jar_at(session, u64::MAX).unwrap().len(), 1);
    let past = "example.com\tTRUE\t/\tFALSE\t-5\ta\tb";
    assert_eq!(parse_netscape_jar_at(past, 0).unwrap().len(), 0);
}

#[test]
fn http_only_marker_is_no_part_of_the_domain() {
    let jar = parse_netscape_jar_from_str(
        "#HttpOnly_.other.com\tTRUE\t/\tTRUE\t9999999999\ttok\tabc\n",
    );
    assert_eq!(jar[0].domain.as_deref(), Some(".other.com"));
    assert_eq!(
        build_cookie_header(&[], &jar, "img.other.com").as_deref(),
        Some("tok=abc")
    );
}

#[test]
fn cookies_go_to_their_hosts_only() {
    let mut c = parse_cookie_string("a=1").unwrap().remove(0);
    assert!(c.matches_host("anything.org"));
    c.domain = Some(".example.com".to_string());
    assert!(c.matches_host("example.com"));
    assert!(c.matches_host("cdn.example.com"));
    assert!(!c.matches_host("badexample.com"));
    assert!(!c.matches_host("example.com.evil.org"));
    let raw = parse_cookie_string("x=1; y=2").unwrap();
    assert_eq!(
        build_cookie_header(&raw, &[c], "cdn.example.com").as_deref(),
        Some("x=1; y=2; a=1")
    );
}

#[test]
fn cookie_string_reads_back_from_its_header() {
    for s in ["session=abc; theme=dark", " a = 1=2 ;; =x;y= ", "k=\u{a0}v w\u{a0};z=1"] {
        let cs = parse_cookie_string(s).unwrap();
        for host in ["", "img.example.com"] {
            let header = build_cookie_header(&cs, &[], host).unwrap();
            let again = parse_cookie_string(&header).unwrap();
            assert_eq!(again.len(), cs.len());
            for (a, b) in again.iter().zip(&cs) {
                assert_eq!((&a.name, &a.value), (&b.name, &b.value));
            }
        }
    }
}
