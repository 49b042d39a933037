use pixpull::args::Args;
use pixpull::config::{apply_to_args, fill_in, Config, Given};

fn config() -> Config {
    let mut cfg = Config::default();
    cfg.download.output = Some("pics".to_string());
    cfg.download.concurrency = Some(8);
    cfg.download.delay_ms = Some(250);
    cfg.download.retries = Some(9);
    cfg.download.resume = Some(false);
    cfg.download.validate = Some(false);
    cfg.download.overwrite = Some(true);
    cfg.download.split = Some(16);
    cfg.download.log = Some("run.log".to_string());
    cfg.http.user_agent = Some("TestAgent/1.0".to_string());
    cfg.http.ua_rotate = Some(true);
    cfg.http.insecure = Some(false);
    cfg.http.headers = vec!["X-Requested-With: XMLHttpRequest".to_string()];
    cfg
}

#[test]
fn config_fills_in_what_is_not_set() {
    let mut args = Args::default();
    apply_to_args(&mut args, &config());
    assert_eq!(args.output, "pics");
    assert_eq!(args.concurrency, 8);
    assert_eq!(args.delay_ms, 250);
    assert_eq!(args.retries, 9);
    assert!(args.no_resume && args.no_validate && args.overwrite && args.ua_rotate);
    assert!(!args.insecure && !args.http1);
    assert_eq!(args.split, 16);
    assert_eq!(args.log.as_deref(), Some("run.log"));
    assert_eq!(args.user_agent.as_deref(), Some("TestAgent/1.0"));
    assert_eq!(args.header, vec!["X-Requested-With: XMLHttpRequest"]);
    assert_eq!(args.timeout_secs, 60);
    assert_eq!(args.proxy, None);
}

#[test]
fn command_line_wins_over_config() {
    let mut args = Args::default();
    args.output = "here".to_string();
    args.concurrency = 2;
    args.delay_ms = 1;
    args.retries = 0;
    args.split = 3;
    args.log = Some("mine.log".to_string());
    args.user_agent = Some("Mine/1.0".to_string());
    args.header = vec!["A: b".to_string()];
    apply_to_args(&mut args, &config());
    assert_eq!(args.output, "here");
    assert_eq!(args.concurrency, 2);
    assert_eq!(args.delay_ms, 1);
    assert_eq!(args.retries, 0);
    assert_eq!(args.split, 3);
    assert_eq!(args.log.as_deref(), Some("mine.log"));
    assert_eq!(args.user_agent.as_deref(), Some("Mine/1.0"));
    assert_eq!(args.header, vec!["X-Requested-With: XMLHttpRequest", "A: b"]);
}

#[test]
fn every_spelling_of_the_current_directory_is_the_default() {
    for path in [".", "./", ".//", "./.", "././/."] {
        let mut args = Args::default();
        args.output = path.to_string();
        apply_to_args(&mut args, &config());
        assert_eq!(args.output, "pics", "{}", path);
    }
    for path in ["", "..", "./a", "/.", ".a", "a/."] {
        let mut args = Args::default();
        args.output = path.to_string();
        apply_to_args(&mut args, &config());
        assert_eq!(args.output, path);
    }
}

#[test]
fn empty_config_changes_nothing() {
    let mut args = Args::default();
    args.header = vec!["A: b".to_string()];
    apply_to_args(&mut args, &Config::default());
    assert_eq!(format!("{:?}", args.header), "[\"A: b\"]");
    assert_eq!(args.concurrency, 4);
    assert_eq!(args.output, ".");
}

#[test]
fn given_default_wins_over_config() {
    let mut args = Args::default();
    let mut given = Given::of(&args);
    assert!(!given.concurrency && !given.output && !given.split);
    given.concurrency = true;
    given.output = true;
    fill_in(&mut args, &given, &config());
    assert_eq!(args.concurrency, 4);
    assert_eq!(args.output, ".");
    assert_eq!(args.split, 16);
    assert!(Given::of(&args).split);
}
