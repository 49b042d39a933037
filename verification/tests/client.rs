use pixpull::args::{browser_ua, Args};
use pixpull::client::{
    built_client, load_cookies, request_headers, ClientError, ClientFactory, ClientSettings, PrepareError,
    DEFAULT_UA,
};

fn args() -> Args {
    Args::default()
}

#[test]
fn client_settings_follow_the_args() {
    let s = ClientSettings::new(&args());
    assert_eq!((s.timeout_secs, s.connect_timeout_secs), (60, 15));
    assert_eq!(s.redirects, 10);
    assert!(s.tcp_nodelay && !s.http1_only && !s.accept_invalid_certs);
    assert_eq!(s.proxy, None);
    let mut a = args();
    a.timeout_secs = 0;
    a.connect_timeout_secs = 0;
    a.http1 = true;
    a.insecure = true;
    a.proxy = Some("http://127.0.0.1:8080".to_string());
    let s = ClientSettings::new(&a);
    assert_eq!((s.timeout_secs, s.connect_timeout_secs), (1, 1));
    assert!(s.http1_only && s.accept_invalid_certs);
    assert_eq!(s.proxy.as_deref(), Some("http://127.0.0.1:8080"));
}

#[test]
fn request_has_the_common_headers() {
    let h = request_headers("UA/1", &Some("https://r.example/".to_string()), &vec![]).unwrap();
    assert_eq!(h.len(), 4);
    assert_eq!(h["user-agent"], "UA/1");
    assert_eq!(
        h["accept"],
        "image/avif,image/webp,image/apng,image/svg+xml,image/*,*/*;q=0.8"
    );
    assert_eq!(h["accept-language"], "en-US,en;q=0.9");
    assert_eq!(h["referer"], "https://r.example/");
}

#[test]
fn later_header_takes_the_place_of_an_earlier_one() {
    let lines = vec![
        "X-A: 1".to_string(),
        "ACCEPT : text/plain".to_string(),
        "x-a:  2 ".to_string(),
    ];
    let h = request_headers("UA/1", &None, &lines).unwrap();
    assert_eq!(h.len(), 4);
    assert_eq!(h["x-a"], "2");
    assert_eq!(h["accept"], "text/plain");
}

#[test]
fn unusable_headers_say_why() {
    match request_headers("bad\nagent", &None, &vec![]) {
        Err(PrepareError::UserAgent { error }) => {
            assert_eq!(error, "failed to parse header value")
        }
        other => panic!("{:?}", other),
    }
    match request_headers("ok", &Some("bad\u{7f}".to_string()), &vec![]) {
        Err(PrepareError::Referer { referer, error }) => {
            assert_eq!(referer, "bad\u{7f}");
            assert_eq!(error, "failed to parse header value");
        }
        other => panic!("{:?}", other),
    }
    match request_headers("ok", &None, &vec!["nothing".to_string()]) {
        Err(PrepareError::Shape { header }) => assert_eq!(header, "nothing"),
        other => panic!("{:?}", other),
    }
    match request_headers("ok", &None, &vec![" two words : x".to_string()]) {
        Err(PrepareError::Name { name, error }) => {
            assert_eq!(name, " two words ");
            assert_eq!(error, "invalid HTTP header name");
        }
        other => panic!("{:?}", other),
    }
    match request_headers("ok", &None, &vec!["X-A: b\u{1}".to_string()]) {
        Err(PrepareError::Value { name, error }) => {
            assert_eq!(name, "x-a");
            assert_eq!(error, "failed to parse header value");
        }
        other => panic!("{:?}", other),
    }
    let many: Vec<String> = (0..40_000).map(|i| format!("x-{}: 1", i)).collect();
    assert!(matches!(request_headers("ok", &None, &many), Err(PrepareError::TooMany)));
    let enough: Vec<String> = (0..6_550).map(|i| format!("x-{}: 1", i)).collect();
    assert_eq!(request_headers("ok", &None, &enough).unwrap().len(), 6_553);
}

#[test]
fn non_ascii_values_are_utf8() {
    let h = request_headers("\u{e9}", &None, &vec![]).unwrap();
    assert_eq!(h["user-agent"].as_bytes(), "\u{e9}".as_bytes());
}

#[test]
fn agents_rotate() {
    let mut a = args();
    a.ua_rotate = true;
    let mut f = ClientFactory::new(a, None).unwrap();
    for i in 0..13 {
        let (h, _) = f.prepare("a.example").unwrap();
        assert_eq!(h["user-agent"], browser_ua(i % 6));
    }
}

#[test]
fn agent_is_the_set_one_or_the_default() {
    let mut f = ClientFactory::new(args(), None).unwrap();
    assert_eq!(f.prepare("h").unwrap().0["user-agent"], DEFAULT_UA);
    let mut a = args();
    a.user_agent = Some("Mine/2".to_string());
    let mut f = ClientFactory::new(a, None).unwrap();
    assert_eq!(f.prepare("h").unwrap().0["user-agent"], "Mine/2");
    assert_eq!(f.prepare("h").unwrap().0["user-agent"], "Mine/2");
    let _ = f.client().get("http://a.example/");
}

#[test]
fn cookies_are_prepared_by_host() {
    let mut a = args();
    a.cookie = Some("s=1".to_string());
    let jar = ".example.com\tTRUE\t/\tFALSE\t0\tsid\txyz".to_string();
    let mut f = ClientFactory::new(a, Some(Ok(jar))).unwrap();
    let (_, c) = f.prepare("cdn.example.com").unwrap();
    assert_eq!(c.as_deref(), Some("s=1; sid=xyz"));
    let (_, c) = f.prepare("other.org").unwrap();
    assert_eq!(c.as_deref(), Some("s=1"));
    let mut f = ClientFactory::new(args(), None).unwrap();
    assert_eq!(f.prepare("other.org").unwrap().1, None);
}

#[test]
fn unusable_cookies_and_proxies_say_why() {
    let mut a = args();
    a.cookie = Some("nope".to_string());
    match load_cookies(&a, Some(Err("no file".to_string())), 0) {
        Err(ClientError::Cookie(e)) => assert_eq!(e.pair, "nope"),
        other => panic!("{:?}", other),
    }
    match load_cookies(&args(), Some(Err("no file".to_string())), 0) {
        Err(ClientError::ReadJar(e)) => assert_eq!(e, "no file"),
        other => panic!("{:?}", other),
    }
    match load_cookies(&args(), Some(Ok("short line".to_string())), 0) {
        Err(ClientError::Jar(e)) => assert_eq!((e.line, e.columns), (1, 1)),
        other => panic!("{:?}", other),
    }
    let mut a = args();
    a.proxy = Some("http://[".to_string());
    a.http1 = true;
    match ClientFactory::new(a, None) {
        Err(ClientError::Proxy { url, error }) => {
            assert_eq!(url, "http://[");
            assert_eq!(error, "builder error");
        }
        _ => panic!("a proxy without a host"),
    }
}

#[test]
fn client_errors_are_told_in_words() {
    let text = |a: &Args, jar| load_cookies(a, jar, 0).unwrap_err().text("jar.txt");
    let mut a = args();
    a.cookie = Some("no\"pe".to_string());
    assert_eq!(text(&a, None), "malformed cookie pair: \"no\\\"pe\"");
    assert_eq!(
        text(&args(), Some(Err("gone".to_string()))),
        "failed to read cookie jar jar.txt: gone"
    );
    assert_eq!(
        text(&args(), Some(Ok("\na b".to_string()))),
        "cookie jar jar.txt line 2: expected 7 tab-separated columns, got 1"
    );
    let proxy = ClientError::Proxy { url: "x".to_string(), error: "bad".to_string() };
    assert_eq!(proxy.text(""), "invalid proxy URL \"x\": bad");
    let build = ClientError::Build("no TLS".to_string());
    assert_eq!(build.text(""), "failed to build HTTP client: no TLS");
}

#[test]
fn request_errors_are_told_in_words() {
    let text = |ua: &str, referer: Option<&str>, line: &str| {
        let lines = if line.is_empty() { vec![] } else { vec![line.to_string()] };
        request_headers(ua, &referer.map(|r| r.to_string()), &lines).unwrap_err().text()
    };
    assert_eq!(text("\n", None, ""), "invalid user agent: failed to parse header value");
    assert_eq!(
        text("ok", Some("a\nb"), ""),
        "invalid referer \"a\\nb\": failed to parse header value"
    );
    assert_eq!(text("ok", None, "X"), "header must be \"Name: value\", got \"X\"");
    assert_eq!(text("ok", None, ": v"), "invalid header name \"\": invalid HTTP header name");
    assert_eq!(
        text("ok", None, "X-Y: \u{0}"),
        "invalid header value for x-y: failed to parse header value"
    );
    assert_eq!(PrepareError::TooMany.text(), "too many headers");
}

#[test]
fn usable_proxies_are_taken() {
    for url in ["http://127.0.0.1:8080", "127.0.0.1:8080", "https://proxy.example"] {
        let mut a = args();
        a.proxy = Some(url.to_string());
        assert!(ClientFactory::new(a, None).is_ok(), "{}", url);
    }
}

#[test]
fn client_that_cannot_be_built_says_why() {
    match built_client(Err("no TLS".to_string())) {
        Err(ClientError::Build(error)) => assert_eq!(error, "no TLS"),
        other => panic!("{:?}", other),
    }
    assert!(built_client(Ok(reqwest::Client::new())).is_ok());
}

#[test]
fn agent_follows_from_the_number_of_requests() {
    let mut a = args();
    a.ua_rotate = true;
    a.user_agent = Some("Mine/2".to_string());
    let mut f = ClientFactory::new(a, None).unwrap();
    for k in 0..20 {
        assert_eq!(f.next_ua(), browser_ua(k % 6));
    }
    let mut f = ClientFactory::new(args(), None).unwrap();
    assert_eq!(f.next_ua(), DEFAULT_UA);
    assert_eq!(f.next_ua(), DEFAULT_UA);
}
