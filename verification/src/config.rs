//! Config values. CLI flags always win over them.

use vstd::prelude::*;

use crate::args::{
    Args, DEFAULT_CONCURRENCY, DEFAULT_CONNECT_TIMEOUT_SECS, DEFAULT_RETRIES, DEFAULT_SPLIT,
    DEFAULT_START_INDEX, DEFAULT_TIMEOUT_SECS,
};
use crate::text::{chars_of, pieces_of, split, texts, views, CharClass};

verus! {

/// The values of a config file.
#[derive(Debug)]
pub struct Config {
    pub download: DownloadSection,
    pub http: HttpSection,
}

/// The values of the section on downloads.
#[derive(Debug)]
pub struct DownloadSection {
    pub output: Option<String>,
    pub concurrency: Option<usize>,
    pub delay_ms: Option<u64>,
    pub retries: Option<u32>,
    pub timeout_secs: Option<u64>,
    pub connect_timeout_secs: Option<u64>,
    pub resume: Option<bool>,
    pub overwrite: Option<bool>,
    pub max_size: Option<u64>,
    pub validate: Option<bool>,
    pub filename: Option<String>,
    pub start_index: Option<u32>,
    pub retry_on_http_errors: Option<bool>,
    pub split: Option<usize>,
    pub max_download_limit: Option<u64>,
    pub max_overall_download_limit: Option<u64>,
    pub max_file_not_found: Option<u32>,
    pub max_total_connections: Option<usize>,
    pub log: Option<String>,
}

/// The values of the section on HTTP.
#[derive(Debug)]
pub struct HttpSection {
    pub user_agent: Option<String>,
    pub ua_rotate: Option<bool>,
    pub http1: Option<bool>,
    pub insecure: Option<bool>,
    pub referer: Option<String>,
    pub proxy: Option<String>,
    pub cookie: Option<String>,
    pub cookie_jar: Option<String>,
    /// Extra headers as "Name: value" strings.
    pub headers: Vec<String>,
}

impl DownloadSection {
    /// Whether the section holds no values.
    pub open spec fn is_blank(self) -> bool {
        &&& self.output is None
        &&& self.concurrency is None
        &&& self.delay_ms is None
        &&& self.retries is None
        &&& self.timeout_secs is None
        &&& self.connect_timeout_secs is None
        &&& self.resume is None
        &&& self.overwrite is None
        &&& self.max_size is None
        &&& self.validate is None
        &&& self.filename is None
        &&& self.start_index is None
        &&& self.retry_on_http_errors is None
        &&& self.split is None
        &&& self.max_download_limit is None
        &&& self.max_overall_download_limit is None
        &&& self.max_file_not_found is None
        &&& self.max_total_connections is None
        &&& self.log is None
    }
}

impl HttpSection {
    /// Whether the section holds no values.
    pub open spec fn is_blank(self) -> bool {
        &&& self.user_agent is None
        &&& self.ua_rotate is None
        &&& self.http1 is None
        &&& self.insecure is None
        &&& self.referer is None
        &&& self.proxy is None
        &&& self.cookie is None
        &&& self.cookie_jar is None
        &&& self.headers@.len() == 0
    }
}

impl Default for Config {
    /// A config without values.
    fn default() -> (r: Config)
        ensures
            r.download.is_blank(),
            r.http.is_blank(),
    {
        Config { download: DownloadSection::default(), http: HttpSection::default() }
    }
}

impl Default for DownloadSection {
    /// A section without values.
    fn default() -> (r: DownloadSection)
        ensures
            r.is_blank(),
    {
        DownloadSection {
            output: None,
            concurrency: None,
            delay_ms: None,
            retries: None,
            timeout_secs: None,
            connect_timeout_secs: None,
            resume: None,
            overwrite: None,
            max_size: None,
            validate: None,
            filename: None,
            start_index: None,
            retry_on_http_errors: None,
            split: None,
            max_download_limit: None,
            max_overall_download_limit: None,
            max_file_not_found: None,
            max_total_connections: None,
            log: None,
        }
    }
}

impl Default for HttpSection {
    /// A section without values.
    fn default() -> (r: HttpSection)
        ensures
            r.is_blank(),
    {
        HttpSection {
            user_agent: None,
            ua_rotate: None,
            http1: None,
            insecure: None,
            referer: None,
            proxy: None,
            cookie: None,
            cookie_jar: None,
            headers: Vec::new(),
        }
    }
}

// ---------------------------------------------------------------------------
// Filling in
// ---------------------------------------------------------------------------

/// What a setting becomes: the config value where there is one and the setting was
/// not given on the command line, else what it is.
pub open spec fn filled_in<T>(current: T, given: bool, value: Option<T>) -> T {
    if !given && value is Some {
        value->0
    } else {
        current
    }
}

/// What an optional setting becomes: the config value where it is not set.
pub open spec fn filled_if_unset(current: Option<String>, value: Option<String>) -> Option<
    String,
> {
    if current is None {
        value
    } else {
        current
    }
}

/// What a flag becomes: raised where the config value is the one that raises it.
pub open spec fn raised(current: bool, value: Option<bool>, by: bool) -> bool {
    current || value == Some(by)
}

/// Whether a path is the current directory: a dot, and after it nothing but
/// slashes and further dots between them.
pub open spec fn is_current_dir(path: Seq<char>) -> bool {
    let pieces = split(path, CharClass::Slash);
    &&& pieces[0] == seq!['.']
    &&& forall|i: int|
        1 <= i < pieces.len() ==> (#[trigger] pieces[i]).len() == 0 || pieces[i] == seq!['.']
}

/// Whether a path is the current directory.
fn names_current_dir(path: &str) -> (r: bool)
    ensures
        r == is_current_dir(path@),
{
    let v = chars_of(path);
    let pieces = pieces_of(&v, CharClass::Slash);
    proof {
        crate::text::lemma_split_nonempty(path@, CharClass::Slash);
        assert(views(pieces@).len() == pieces@.len());
        assert(views(pieces@)[0] == pieces@[0]@);
    }
    if pieces[0].len() != 1 || pieces[0][0] != '.' {
        assert(pieces@[0]@ != seq!['.']) by {
            assert(seq!['.'].len() == 1 && seq!['.'][0] == '.');
        }
        return false;
    }
    assert(pieces@[0]@ =~= seq!['.']);
    let mut i: usize = 1;
    while i < pieces.len()
        invariant
            1 <= i <= pieces@.len(),
            views(pieces@) == split(path@, CharClass::Slash),
            views(pieces@)[0] == seq!['.'],
            forall|k: int|
                1 <= k < i ==> (#[trigger] views(pieces@)[k]).len() == 0 || views(pieces@)[k]
                    == seq!['.'],
        decreases pieces@.len() - i,
    {
        assert(views(pieces@)[i as int] == pieces@[i as int]@);
        if pieces[i].len() > 1 || (pieces[i].len() == 1 && pieces[i][0] != '.') {
            assert(pieces@[i as int]@ != seq!['.']) by {
                assert(seq!['.'].len() == 1 && seq!['.'][0] == '.');
            }
            return false;
        }
        if pieces[i].len() == 1 {
            assert(pieces@[i as int]@ =~= seq!['.']);
        }
        i = i + 1;
    }
    true
}

/// What a number becomes.
fn fill_usize(current: usize, given: bool, value: Option<usize>) -> (r: usize)
    ensures
        r == filled_in(current, given, value),
{
    match value {
        Some(v) if !given => v,
        _ => current,
    }
}

/// What a number becomes.
fn fill_u64(current: u64, given: bool, value: Option<u64>) -> (r: u64)
    ensures
        r == filled_in(current, given, value),
{
    match value {
        Some(v) if !given => v,
        _ => current,
    }
}

/// What a number becomes.
fn fill_u32(current: u32, given: bool, value: Option<u32>) -> (r: u32)
    ensures
        r == filled_in(current, given, value),
{
    match value {
        Some(v) if !given => v,
        _ => current,
    }
}

/// What a flag becomes.
fn raise(current: bool, value: Option<bool>, by: bool) -> (r: bool)
    ensures
        r == raised(current, value, by),
{
    match value {
        Some(v) => current || v == by,
        None => current,
    }
}

/// What the output directory becomes.
fn fill_output(current: &String, given: bool, value: &Option<String>) -> (r: String)
    ensures
        r == filled_in(*current, given, *value),
{
    match value {
        Some(v) if !given => v.clone(),
        _ => current.clone(),
    }
}

/// What an optional setting becomes.
fn fill_if_unset(current: &Option<String>, value: &Option<String>) -> (r: Option<String>)
    ensures
        r == filled_if_unset(*current, *value),
{
    match (current, value) {
        (Some(c), _) => Some(c.clone()),
        (None, Some(v)) => Some(v.clone()),
        (None, None) => None,
    }
}

/// The headers of the config file, then those of the command line.
fn merged(first: &Vec<String>, second: &Vec<String>) -> (r: Vec<String>)
    ensures
        texts(r@) == texts(first@) + texts(second@),
{
    let mut r: Vec<String> = Vec::new();
    let ghost all = texts(first@) + texts(second@);
    let mut i: usize = 0;
    assert(texts(r@) =~= all.take(0));
    while i < first.len()
        invariant
            i <= first@.len(),
            all == texts(first@) + texts(second@),
            texts(r@) == all.take(i as int),
        decreases first@.len() - i,
    {
        let ghost earlier = r@;
        let s = first[i].clone();
        r.push(s);
        assert(texts(r@) =~= texts(earlier).push(s@));
        assert(all.take(i + 1) =~= all.take(i as int).push(all[i as int]));
        i = i + 1;
    }
    let mut k: usize = 0;
    while k < second.len()
        invariant
            k <= second@.len(),
            i == first@.len(),
            all == texts(first@) + texts(second@),
            texts(r@) == all.take(i + k),
        decreases second@.len() - k,
    {
        let ghost earlier = r@;
        let s = second[k].clone();
        r.push(s);
        assert(texts(r@) =~= texts(earlier).push(s@));
        assert(all.take(i + k + 1) =~= all.take(i + k).push(all[i + k]));
        k = k + 1;
    }
    assert(all.take(i + k) =~= all);
    r
}

/// Which of the settings that have a default were given on the command line.
#[derive(Debug, Clone, Copy)]
pub struct Given {
    pub output: bool,
    pub concurrency: bool,
    pub delay_ms: bool,
    pub retries: bool,
    pub timeout_secs: bool,
    pub connect_timeout_secs: bool,
    pub max_size: bool,
    pub start_index: bool,
    pub split: bool,
    pub max_download_limit: bool,
    pub max_overall_download_limit: bool,
    pub max_file_not_found: bool,
    pub max_total_connections: bool,
}

impl Given {
    /// The settings that do not have their defaults, and so must have been given.
    pub open spec fn by_value(args: Args) -> Given {
        Given {
            output: !is_current_dir(args.output@),
            concurrency: args.concurrency != DEFAULT_CONCURRENCY,
            delay_ms: args.delay_ms != 0,
            retries: args.retries != DEFAULT_RETRIES,
            timeout_secs: args.timeout_secs != DEFAULT_TIMEOUT_SECS,
            connect_timeout_secs: args.connect_timeout_secs != DEFAULT_CONNECT_TIMEOUT_SECS,
            max_size: args.max_size != 0,
            start_index: args.start_index != DEFAULT_START_INDEX,
            split: args.split != DEFAULT_SPLIT,
            max_download_limit: args.max_download_limit != 0,
            max_overall_download_limit: args.max_overall_download_limit != 0,
            max_file_not_found: args.max_file_not_found != 0,
            max_total_connections: args.max_total_connections != 0,
        }
    }

    /// The settings that do not have their defaults.
    pub fn of(args: &Args) -> (r: Given)
        ensures
            r == Given::by_value(*args),
    {
        Given {
            output: !names_current_dir(args.output.as_str()),
            concurrency: args.concurrency != DEFAULT_CONCURRENCY,
            delay_ms: args.delay_ms != 0,
            retries: args.retries != DEFAULT_RETRIES,
            timeout_secs: args.timeout_secs != DEFAULT_TIMEOUT_SECS,
            connect_timeout_secs: args.connect_timeout_secs != DEFAULT_CONNECT_TIMEOUT_SECS,
            max_size: args.max_size != 0,
            start_index: args.start_index != DEFAULT_START_INDEX,
            split: args.split != DEFAULT_SPLIT,
            max_download_limit: args.max_download_limit != 0,
            max_overall_download_limit: args.max_overall_download_limit != 0,
            max_file_not_found: args.max_file_not_found != 0,
            max_total_connections: args.max_total_connections != 0,
        }
    }
}

/// Whether settings are others with the config values filled in.
pub open spec fn is_filled_in(before: Args, given: Given, cfg: Config, after: Args) -> bool {
    &&& after.urls == before.urls
    &&& after.input == before.input
    &&& after.config == before.config
    &&& after.quiet == before.quiet
    &&& after.output == filled_in(before.output, given.output, cfg.download.output)
    &&& after.concurrency == filled_in(
        before.concurrency,
        given.concurrency,
        cfg.download.concurrency,
    )
    &&& after.delay_ms == filled_in(before.delay_ms, given.delay_ms, cfg.download.delay_ms)
    &&& after.retries == filled_in(before.retries, given.retries, cfg.download.retries)
    &&& after.timeout_secs == filled_in(
        before.timeout_secs,
        given.timeout_secs,
        cfg.download.timeout_secs,
    )
    &&& after.connect_timeout_secs == filled_in(
        before.connect_timeout_secs,
        given.connect_timeout_secs,
        cfg.download.connect_timeout_secs,
    )
    &&& after.max_size == filled_in(before.max_size, given.max_size, cfg.download.max_size)
    &&& after.start_index == filled_in(
        before.start_index,
        given.start_index,
        cfg.download.start_index,
    )
    &&& after.split == filled_in(before.split, given.split, cfg.download.split)
    &&& after.max_download_limit == filled_in(
        before.max_download_limit,
        given.max_download_limit,
        cfg.download.max_download_limit,
    )
    &&& after.max_overall_download_limit == filled_in(
        before.max_overall_download_limit,
        given.max_overall_download_limit,
        cfg.download.max_overall_download_limit,
    )
    &&& after.max_file_not_found == filled_in(
        before.max_file_not_found,
        given.max_file_not_found,
        cfg.download.max_file_not_found,
    )
    &&& after.max_total_connections == filled_in(
        before.max_total_connections,
        given.max_total_connections,
        cfg.download.max_total_connections,
    )
    &&& after.filename == filled_if_unset(before.filename, cfg.download.filename)
    &&& after.log == filled_if_unset(before.log, cfg.download.log)
    &&& after.user_agent == filled_if_unset(before.user_agent, cfg.http.user_agent)
    &&& after.referer == filled_if_unset(before.referer, cfg.http.referer)
    &&& after.proxy == filled_if_unset(before.proxy, cfg.http.proxy)
    &&& after.cookie == filled_if_unset(before.cookie, cfg.http.cookie)
    &&& after.cookie_jar == filled_if_unset(before.cookie_jar, cfg.http.cookie_jar)
    &&& after.no_resume == raised(before.no_resume, cfg.download.resume, false)
    &&& after.overwrite == raised(before.overwrite, cfg.download.overwrite, true)
    &&& after.no_validate == raised(before.no_validate, cfg.download.validate, false)
    &&& after.retry_on_http_errors == raised(before.retry_on_http_errors, cfg.download.retry_on_http_errors, true)
    &&& after.http1 == raised(before.http1, cfg.http.http1, true)
    &&& after.insecure == raised(before.insecure, cfg.http.insecure, true)
    &&& after.ua_rotate == raised(before.ua_rotate, cfg.http.ua_rotate, true)
    &&& texts(after.header@) == texts(cfg.http.headers@) + texts(before.header@)
}

/// Apply config values to the parsed CLI args. CLI wins: only the settings that were
/// not given are filled in.
pub fn fill_in(args: &mut Args, given: &Given, cfg: &Config)
    ensures
        is_filled_in(*old(args), *given, *cfg, *final(args)),
{
    let d = &cfg.download;
    let h = &cfg.http;

    args.output = fill_output(&args.output, given.output, &d.output);
    args.concurrency = fill_usize(args.concurrency, given.concurrency, d.concurrency);
    args.delay_ms = fill_u64(args.delay_ms, given.delay_ms, d.delay_ms);
    args.retries = fill_u32(args.retries, given.retries, d.retries);
    args.timeout_secs = fill_u64(args.timeout_secs, given.timeout_secs, d.timeout_secs);
    args.connect_timeout_secs = fill_u64(
        args.connect_timeout_secs,
        given.connect_timeout_secs,
        d.connect_timeout_secs,
    );
    args.max_size = fill_u64(args.max_size, given.max_size, d.max_size);
    args.start_index = fill_u32(args.start_index, given.start_index, d.start_index);
    args.split = fill_usize(args.split, given.split, d.split);
    args.max_download_limit = fill_u64(
        args.max_download_limit,
        given.max_download_limit,
        d.max_download_limit,
    );
    args.max_overall_download_limit = fill_u64(
        args.max_overall_download_limit,
        given.max_overall_download_limit,
        d.max_overall_download_limit,
    );
    args.max_file_not_found = fill_u32(
        args.max_file_not_found,
        given.max_file_not_found,
        d.max_file_not_found,
    );
    args.max_total_connections = fill_usize(
        args.max_total_connections,
        given.max_total_connections,
        d.max_total_connections,
    );
    args.filename = fill_if_unset(&args.filename, &d.filename);
    args.log = fill_if_unset(&args.log, &d.log);
    args.user_agent = fill_if_unset(&args.user_agent, &h.user_agent);
    args.referer = fill_if_unset(&args.referer, &h.referer);
    args.proxy = fill_if_unset(&args.proxy, &h.proxy);
    args.cookie = fill_if_unset(&args.cookie, &h.cookie);
    args.cookie_jar = fill_if_unset(&args.cookie_jar, &h.cookie_jar);
    args.no_resume = raise(args.no_resume, d.resume, false);
    args.overwrite = raise(args.overwrite, d.overwrite, true);
    args.no_validate = raise(args.no_validate, d.validate, false);
    args.retry_on_http_errors = raise(args.retry_on_http_errors, d.retry_on_http_errors, true);
    args.http1 = raise(args.http1, h.http1, true);
    args.insecure = raise(args.insecure, h.insecure, true);
    args.ua_rotate = raise(args.ua_rotate, h.ua_rotate, true);
    // Config headers are merged in (CLI headers take precedence by order).
    args.header = merged(&h.headers, &args.header);
}

/// Apply config values to the parsed CLI args, where only their values are known: a
/// setting counts as given where it does not have its default.
pub fn apply_to_args(args: &mut Args, cfg: &Config)
    ensures
        is_filled_in(*old(args), Given::by_value(*old(args)), *cfg, *final(args)),
{
    let given = Given::of(args);
    fill_in(args, &given, cfg);
}

/// CLI flags always win over config values: what was given on the command line stays
/// as it is, and the extra headers of the command line come after all others.
pub proof fn law_command_line_wins(before: Args, given: Given, cfg: Config, after: Args)
    requires
        is_filled_in(before, given, cfg, after),
    ensures
        after.urls == before.urls && after.input == before.input && after.quiet == before.quiet,
        given.output ==> after.output == before.output,
        given.concurrency ==> after.concurrency == before.concurrency,
        given.delay_ms ==> after.delay_ms == before.delay_ms,
        given.retries ==> after.retries == before.retries,
        given.timeout_secs ==> after.timeout_secs == before.timeout_secs,
        given.connect_timeout_secs ==> after.connect_timeout_secs == before.connect_timeout_secs,
        given.max_size ==> after.max_size == before.max_size,
        given.start_index ==> after.start_index == before.start_index,
        given.split ==> after.split == before.split,
        given.max_download_limit ==> after.max_download_limit == before.max_download_limit,
        given.max_overall_download_limit ==> after.max_overall_download_limit == before.max_overall_download_limit,
        given.max_file_not_found ==> after.max_file_not_found == before.max_file_not_found,
        given.max_total_connections ==> after.max_total_connections == before.max_total_connections,
        before.filename is Some ==> after.filename == before.filename,
        before.log is Some ==> after.log == before.log,
        before.user_agent is Some ==> after.user_agent == before.user_agent,
        before.referer is Some ==> after.referer == before.referer,
        before.proxy is Some ==> after.proxy == before.proxy,
        before.cookie is Some ==> after.cookie == before.cookie,
        before.cookie_jar is Some ==> after.cookie_jar == before.cookie_jar,
        before.no_resume ==> after.no_resume,
        before.overwrite ==> after.overwrite,
        before.no_validate ==> after.no_validate,
        before.retry_on_http_errors ==> after.retry_on_http_errors,
        before.http1 ==> after.http1,
        before.insecure ==> after.insecure,
        before.ua_rotate ==> after.ua_rotate,
        texts(before.header@).is_suffix_of(texts(after.header@)),
{
    let all = texts(after.header@);
    let from = cfg.http.headers@.len() as int;
    assert(all.subrange(from, all.len() as int) =~= texts(before.header@));
}

/// Config values count where nothing was given on the command line.
pub proof fn law_config_fills_the_rest(before: Args, given: Given, cfg: Config, after: Args)
    requires
        is_filled_in(before, given, cfg, after),
    ensures
        !given.output && cfg.download.output is Some ==> after.output == cfg.download.output->0,
        !given.concurrency && cfg.download.concurrency is Some ==> after.concurrency
            == cfg.download.concurrency->0,
        !given.delay_ms && cfg.download.delay_ms is Some ==> after.delay_ms
            == cfg.download.delay_ms->0,
        !given.retries && cfg.download.retries is Some ==> after.retries == cfg.download.retries->0,
        !given.timeout_secs && cfg.download.timeout_secs is Some ==> after.timeout_secs
            == cfg.download.timeout_secs->0,
        !given.connect_timeout_secs && cfg.download.connect_timeout_secs is Some ==> after.connect_timeout_secs
            == cfg.download.connect_timeout_secs->0,
        !given.max_size && cfg.download.max_size is Some ==> after.max_size
            == cfg.download.max_size->0,
        !given.start_index && cfg.download.start_index is Some ==> after.start_index
            == cfg.download.start_index->0,
        !given.split && cfg.download.split is Some ==> after.split == cfg.download.split->0,
        !given.max_download_limit && cfg.download.max_download_limit is Some ==> after.max_download_limit
            == cfg.download.max_download_limit->0,
        !given.max_overall_download_limit && cfg.download.max_overall_download_limit is Some ==> after.max_overall_download_limit
            == cfg.download.max_overall_download_limit->0,
        !given.max_file_not_found && cfg.download.max_file_not_found is Some ==> after.max_file_not_found
            == cfg.download.max_file_not_found->0,
        !given.max_total_connections && cfg.download.max_total_connections is Some ==> after.max_total_connections
            == cfg.download.max_total_connections->0,
        before.filename is None ==> after.filename == cfg.download.filename,
        before.log is None ==> after.log == cfg.download.log,
        before.user_agent is None ==> after.user_agent == cfg.http.user_agent,
        before.referer is None ==> after.referer == cfg.http.referer,
        before.proxy is None ==> after.proxy == cfg.http.proxy,
        before.cookie is None ==> after.cookie == cfg.http.cookie,
        before.cookie_jar is None ==> after.cookie_jar == cfg.http.cookie_jar,
        texts(cfg.http.headers@).is_prefix_of(texts(after.header@)),
{
    let all = texts(after.header@);
    assert(all.subrange(0, cfg.http.headers@.len() as int) =~= texts(cfg.http.headers@));
}

/// Config values raise the flags that they are for, and lower none. Resuming and
/// validating are switched off by `false`, everything else is switched on by `true`.
pub proof fn law_config_raises_flags(before: Args, given: Given, cfg: Config, after: Args)
    requires
        is_filled_in(before, given, cfg, after),
    ensures
        after.no_resume <==> before.no_resume || cfg.download.resume == Some(false),
        after.overwrite <==> before.overwrite || cfg.download.overwrite == Some(true),
        after.no_validate <==> before.no_validate || cfg.download.validate == Some(false),
        after.retry_on_http_errors <==> before.retry_on_http_errors
            || cfg.download.retry_on_http_errors == Some(true),
        after.http1 <==> before.http1 || cfg.http.http1 == Some(true),
        after.insecure <==> before.insecure || cfg.http.insecure == Some(true),
        after.ua_rotate <==> before.ua_rotate || cfg.http.ua_rotate == Some(true),
{
}

/// What a config file does not mention stays as it is, and the extra headers are those of
/// the file and those of the command line, all of them and no others.
pub proof fn law_config_changes_nothing_else(before: Args, given: Given, cfg: Config, after: Args)
    requires
        is_filled_in(before, given, cfg, after),
    ensures
        after.config == before.config,
        cfg.download.output is None ==> after.output == before.output,
        cfg.download.concurrency is None ==> after.concurrency == before.concurrency,
        cfg.download.delay_ms is None ==> after.delay_ms == before.delay_ms,
        cfg.download.retries is None ==> after.retries == before.retries,
        cfg.download.timeout_secs is None ==> after.timeout_secs == before.timeout_secs,
        cfg.download.connect_timeout_secs is None ==> after.connect_timeout_secs
            == before.connect_timeout_secs,
        cfg.download.max_size is None ==> after.max_size == before.max_size,
        cfg.download.start_index is None ==> after.start_index == before.start_index,
        cfg.download.split is None ==> after.split == before.split,
        cfg.download.max_download_limit is None ==> after.max_download_limit
            == before.max_download_limit,
        cfg.download.max_overall_download_limit is None ==> after.max_overall_download_limit
            == before.max_overall_download_limit,
        cfg.download.max_file_not_found is None ==> after.max_file_not_found
            == before.max_file_not_found,
        cfg.download.max_total_connections is None ==> after.max_total_connections
            == before.max_total_connections,
        after.header@.len() == cfg.http.headers@.len() + before.header@.len(),
        forall|i: int|
            0 <= i < cfg.http.headers@.len() ==> (#[trigger] after.header@[i])@
                == cfg.http.headers@[i]@,
        forall|i: int|
            cfg.http.headers@.len() <= i < after.header@.len() ==> (#[trigger] after.header@[i])@
                == before.header@[i - cfg.http.headers@.len()]@,
{
    let all = texts(after.header@);
    assert(all.len() == after.header@.len());
    assert forall|i: int| 0 <= i < after.header@.len() implies (#[trigger] after.header@[i])@
        == all[i] by {}
}

/// Where only the values are known, a setting counts as given if and only if it does not
/// have its default.
pub proof fn law_default_counts_as_not_given(args: Args)
    ensures
        ({
            let given = Given::by_value(args);
            &&& given.concurrency <==> args.concurrency != 4
            &&& given.delay_ms <==> args.delay_ms != 0
            &&& given.retries <==> args.retries != 5
            &&& given.timeout_secs <==> args.timeout_secs != 60
            &&& given.connect_timeout_secs <==> args.connect_timeout_secs != 15
            &&& given.max_size <==> args.max_size != 0
            &&& given.start_index <==> args.start_index != 1
            &&& given.split <==> args.split != 1
            &&& given.max_download_limit <==> args.max_download_limit != 0
            &&& given.max_overall_download_limit <==> args.max_overall_download_limit != 0
            &&& given.max_file_not_found <==> args.max_file_not_found != 0
            &&& given.max_total_connections <==> args.max_total_connections != 0
            &&& args.output@ == "."@ ==> !given.output
            &&& !given.output <==> args.output@.len() > 0 && args.output@[0] == '.' && forall|
                i: int,
            |
                #![trigger args.output@[i]]
                0 < i < args.output@.len() ==> args.output@[i] == '/' || (args.output@[i] == '.'
                    && args.output@[i - 1] == '/')
        }),
{
    reveal_strlit(".");
    lemma_current_dir(args.output@);
}

/// The current directory, character by character.
proof fn lemma_current_dir(path: Seq<char>)
    ensures
        is_current_dir(path) <==> path.len() > 0 && path[0] == '.' && forall|i: int|
            #![trigger path[i]]
            0 < i < path.len() ==> path[i] == '/' || (path[i] == '.' && path[i - 1] == '/'),
        path.len() > 0 && path.last() != '/' ==> split(path, CharClass::Slash).last().len() > 0
            && split(path, CharClass::Slash).last().last() == path.last(),
        path.len() > 0 && path.last() == '/' ==> split(path, CharClass::Slash).last().len() == 0,
        path.len() == 0 ==> split(path, CharClass::Slash).last().len() == 0,
        split(path, CharClass::Slash).last().len() == 1 ==> path.len() == 1 || path[path.len() - 2]
            == '/',
        path.len() == 1 && path[0] != '/' ==> split(path, CharClass::Slash).last().len() == 1,
        path.len() >= 2 && path.last() != '/' && path[path.len() - 2] == '/' ==> split(
            path,
            CharClass::Slash,
        ).last().len() == 1,
    decreases path.len(),
{
    let pieces = split(path, CharClass::Slash);
    crate::text::lemma_split_nonempty(path, CharClass::Slash);
    if path.len() == 0 {
        assert(pieces[0] =~= Seq::empty());
        assert(seq!['.'].len() == 1);
    } else {
        let shorter = path.drop_last();
        let before = split(shorter, CharClass::Slash);
        crate::text::lemma_split_nonempty(shorter, CharClass::Slash);
        lemma_current_dir(shorter);
        let c = path.last();
        assert(forall|i: int| 0 <= i < shorter.len() ==> shorter[i] == path[i]);
        let dot = seq!['.'];
        assert(dot.len() == 1 && dot[0] == '.');
        if c == '/' {
            assert(pieces == before.push(Seq::empty()));
            assert(forall|k: int| 0 <= k < before.len() ==> pieces[k] == before[k]);
            assert(before.len() >= 1);
            if is_current_dir(path) {
                assert forall|k: int| 1 <= k < before.len() implies (#[trigger] before[k]).len()
                    == 0 || before[k] == dot by {
                    assert(pieces[k] == before[k]);
                }
                assert(is_current_dir(shorter));
            }
            if is_current_dir(shorter) {
                assert forall|k: int| 1 <= k < pieces.len() implies (#[trigger] pieces[k]).len()
                    == 0 || pieces[k] == dot by {
                    if k < before.len() {
                        assert(pieces[k] == before[k]);
                    }
                }
                assert(is_current_dir(path));
            }
        } else {
            let longer = before.last().push(c);
            assert(pieces == before.drop_last().push(longer));
            assert(pieces.len() == before.len());
            assert(forall|k: int| 0 <= k < pieces.len() - 1 ==> pieces[k] == before[k]);
            let n = pieces.len() - 1;
            assert(pieces[n] == longer);
            assert(longer.last() == c);
            if is_current_dir(path) {
                // The last piece is a dot, so that nothing stood there before.
                assert(longer == dot);
                assert(longer[0] == '.' && longer.len() == 1);
                assert(before.last().len() == 0);
                if path.len() > 1 {
                    assert(shorter.last() == '/');
                    lemma_slash_splits(shorter);
                    assert(before[n].len() == 0);
                    assert forall|k: int| 1 <= k < before.len() implies (#[trigger] before[k]).len()
                        == 0 || before[k] == dot by {
                        if k < n {
                            assert(pieces[k] == before[k]);
                        }
                    }
                    assert(before[0] == pieces[0]);
                    assert(is_current_dir(shorter));
                }
            }
            if path.len() > 0 && path[0] == '.' && (forall|i: int| #![trigger path[i]]
                0 < i < path.len() ==> path[i] == '/' || (path[i] == '.' && path[i - 1] == '/')) {
                if path.len() == 1 {
                    assert(shorter =~= Seq::empty());
                    assert(before.len() == 1);
                    assert(before[0].len() == 0);
                    assert(longer =~= dot);
                    assert(is_current_dir(path));
                } else {
                    assert(path[path.len() - 1] == '.');
                    assert(path[path.len() - 2] == '/');
                    assert(shorter.last() == '/');
                    assert(before.last().len() == 0);
                    assert(longer =~= dot);
                    assert forall|i: int| #![trigger shorter[i]]
                        0 < i < shorter.len() implies shorter[i] == '/' || (shorter[i] == '.'
                        && shorter[i - 1] == '/') by {
                        assert(path[i] == shorter[i]);
                    }
                    assert(is_current_dir(shorter));
                    lemma_slash_splits(shorter);
                    assert(n > 0);
                    assert forall|k: int| 1 <= k < pieces.len() implies (#[trigger] pieces[k]).len()
                        == 0 || pieces[k] == dot by {
                        if k < n {
                            assert(pieces[k] == before[k]);
                        }
                    }
                    assert(pieces[0] == before[0]);
                    assert(is_current_dir(path));
                }
            }
        }
    }
}

/// A path that ends in a slash has two pieces at least.
proof fn lemma_slash_splits(path: Seq<char>)
    requires
        path.len() > 0,
        path.last() == '/',
    ensures
        split(path, CharClass::Slash).len() >= 2,
{
    crate::text::lemma_split_nonempty(path.drop_last(), CharClass::Slash);
}

/// What is given on the command line wins, and the rest comes from the config file.
pub proof fn law_fill_in_respects_command_line(given: Given, cfg: Config)
    ensures
        forall|args: &mut Args| #[trigger]
            call_ensures(fill_in, (args, &given, &cfg), ()) ==> is_filled_in(
                *args,
                given,
                cfg,
                *final(args),
            ),
        forall|args: &mut Args| #[trigger]
            call_ensures(fill_in, (args, &given, &cfg), ()) ==> {
                let after = *final(args);
                &&& after.urls == (*args).urls
                &&& given.concurrency ==> after.concurrency == (*args).concurrency
                &&& !given.concurrency && cfg.download.concurrency is Some ==> after.concurrency
                    == cfg.download.concurrency->0
            },
        forall|args: &mut Args| #[trigger]
            call_ensures(apply_to_args, (args, &cfg), ()) ==> is_filled_in(
                *args,
                Given::by_value(*args),
                cfg,
                *final(args),
            ),
{
}

} // verus!
