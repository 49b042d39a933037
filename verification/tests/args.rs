use pixpull::args::{browser_ua, parse_input_file, Args, BROWSER_UA_COUNT};

#[test]
fn parses_out_lines_from_input_file() {
    let content = "https://a.example/1.jpg\n  out=img_0001.jpg\n# comment line\n\
        https://a.example/2.jpg\nout=img_0002.jpg\nhttps://a.example/3.jpg\n";
    let inputs = parse_input_file(content);

    assert_eq!(inputs.len(), 3);
    assert_eq!(inputs[0].url, "https://a.example/1.jpg");
    assert_eq!(inputs[0].out.as_deref(), Some("img_0001.jpg"));
    assert_eq!(inputs[1].url, "https://a.example/2.jpg");
    assert_eq!(inputs[1].out.as_deref(), Some("img_0002.jpg"));
    assert_eq!(inputs[2].url, "https://a.example/3.jpg");
    assert_eq!(inputs[2].out, None);
}

#[test]
fn out_line_before_any_url_is_ignored() {
    let inputs = parse_input_file("out=a.jpg\r\n\r\nhttps://a.example/1.jpg\r\n");
    assert_eq!(inputs.len(), 1);
    assert_eq!(inputs[0].url, "https://a.example/1.jpg");
    assert_eq!(inputs[0].out, None);
    assert!(parse_input_file("").is_empty());
}

#[test]
fn last_out_line_counts() {
    let inputs = parse_input_file("u\nout=a\n\n# between\n\tout= b c \n");
    assert_eq!(inputs[0].out.as_deref(), Some("b c"));
}

#[test]
fn urls_come_before_those_of_the_input_file() {
    let mut args = Args::default();
    args.urls = vec!["https://x.example/0.png".to_string()];
    assert_eq!(args.all_inputs(Some("https://a.example/1.jpg")).len(), 1);
    args.input = Some("urls.txt".to_string());
    let inputs = args.all_inputs(Some("https://a.example/1.jpg\nout=one.jpg\n"));
    assert_eq!(inputs.len(), 2);
    assert_eq!(inputs[0].url, "https://x.example/0.png");
    assert_eq!(inputs[0].out, None);
    assert_eq!(inputs[1].out.as_deref(), Some("one.jpg"));
    assert_eq!(args.all_inputs(None).len(), 1);
}

#[test]
fn settings_have_their_defaults() {
    let args = Args::default();
    assert_eq!(args.output, ".");
    assert_eq!(args.concurrency, 4);
    assert_eq!(args.split, 1);
    assert_eq!(args.retries, 5);
    assert_eq!(args.timeout_secs, 60);
    assert_eq!(args.connect_timeout_secs, 15);
    assert_eq!(args.start_index, 1);
}

#[test]
fn browser_agents_differ() {
    for i in 0..BROWSER_UA_COUNT {
        assert!(browser_ua(i).starts_with("Mozilla/5.0 ("));
        for k in 0..i {
            assert_ne!(browser_ua(i), browser_ua(k));
        }
    }
}
