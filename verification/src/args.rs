//! The settings of a run, and the URLs that it is to download.

use vstd::prelude::*;

use crate::text::{
    chars_of, join_all, law_joined_pieces_split, lemma_trim_bare, pieces_of, slice_chars, split,
    starts_with, text_of, trim, trimmed, views, CharClass,
};

verus! {

/// The settings of a run.
#[derive(Debug, Clone)]
pub struct Args {
    /// Image URLs to download (one or more)
    pub urls: Vec<String>,
    /// Read URLs from a file (one per line, '#' starts a comment)
    pub input: Option<String>,
    /// Output directory (created if missing)
    pub output: String,
    /// Number of parallel downloads
    pub concurrency: usize,
    /// Segmented download: parallel Range requests per file (like aria2c -x).
    /// Files below the 1 MiB split threshold are downloaded in one stream.
    pub split: usize,
    /// Force HTTP/1.1 instead of negotiating HTTP/2 (some CDNs throttle h2)
    pub http1: bool,
    /// Skip TLS certificate verification (self-signed / broken certs)
    pub insecure: bool,
    /// Per-file download speed cap in KiB/s (0 = unlimited, aria2c semantics)
    pub max_download_limit: u64,
    /// Global download speed cap across all files in KiB/s (0 = unlimited)
    pub max_overall_download_limit: u64,
    /// Stop the whole run after N consecutive 404s (0 = never stop)
    pub max_file_not_found: u32,
    /// Cap on total concurrent connections (concurrency x split). 0 = no cap.
    /// Split is reduced as needed to respect the cap.
    pub max_total_connections: usize,
    /// Append a machine-readable run log to FILE
    pub log: Option<String>,
    /// TOML config file (CLI flags override it)
    pub config: Option<String>,
    /// Minimum delay in ms between request starts (rate limiting)
    pub delay_ms: u64,
    /// Max retry attempts per file (retries on 408/429/5xx/timeouts/network errors)
    pub retries: u32,
    /// Per-request timeout in seconds
    pub timeout_secs: u64,
    /// Connection timeout in seconds
    pub connect_timeout_secs: u64,
    /// User-Agent header value
    pub user_agent: Option<String>,
    /// Rotate through a built-in list of browser User-Agents
    pub ua_rotate: bool,
    /// Extra header, format "Name: value" (repeatable)
    pub header: Vec<String>,
    /// Referer header value
    pub referer: Option<String>,
    /// Raw Cookie header value, e.g. "session=abc; theme=dark"
    pub cookie: Option<String>,
    /// Netscape-format cookie jar file (same format as curl -b)
    pub cookie_jar: Option<String>,
    /// Proxy URL, e.g. http://127.0.0.1:8080
    pub proxy: Option<String>,
    /// Disable resume of partially downloaded files (.part files)
    pub no_resume: bool,
    /// Re-download files that already exist (default: skip them)
    pub overwrite: bool,
    /// Retry on HTTP 403/404 too (some CDNs reject intermittently)
    pub retry_on_http_errors: bool,
    /// Skip files larger than this many bytes (0 = no limit)
    pub max_size: u64,
    /// Filename template: {n} = index, {n:04} = zero-padded, {ext} = detected
    /// extension. Default: URL basename (sanitized).
    pub filename: Option<String>,
    /// Starting index for {n} in the filename template
    pub start_index: u32,
    /// Disable magic-byte image validation (default: on)
    pub no_validate: bool,
    /// Only print failures and the final summary
    pub quiet: bool,
}

// The values that the settings have where nobody set them.
pub const DEFAULT_OUTPUT: &'static str = ".";

pub const DEFAULT_CONCURRENCY: usize = 4;

pub const DEFAULT_SPLIT: usize = 1;

pub const DEFAULT_RETRIES: u32 = 5;

pub const DEFAULT_TIMEOUT_SECS: u64 = 60;

pub const DEFAULT_CONNECT_TIMEOUT_SECS: u64 = 15;

pub const DEFAULT_START_INDEX: u32 = 1;

impl Default for Args {
    /// The settings where nobody set anything.
    fn default() -> (r: Args)
        ensures
            r.urls@.len() == 0 && r.input is None && r.output@ == DEFAULT_OUTPUT@,
            r.concurrency == DEFAULT_CONCURRENCY && r.split == DEFAULT_SPLIT,
            !r.http1 && !r.insecure,
            r.max_download_limit == 0 && r.max_overall_download_limit == 0,
            r.max_file_not_found == 0 && r.max_total_connections == 0,
            r.log is None && r.config is None,
            r.delay_ms == 0 && r.retries == DEFAULT_RETRIES,
            r.timeout_secs == DEFAULT_TIMEOUT_SECS,
            r.connect_timeout_secs == DEFAULT_CONNECT_TIMEOUT_SECS,
            r.user_agent is None && !r.ua_rotate && r.header@.len() == 0,
            r.referer is None && r.cookie is None && r.cookie_jar is None && r.proxy is None,
            !r.no_resume && !r.overwrite && !r.retry_on_http_errors,
            r.max_size == 0 && r.filename is None && r.start_index == DEFAULT_START_INDEX,
            !r.no_validate && !r.quiet,
            r.output@ == "."@ && r.concurrency == 4 && r.split == 1 && r.retries == 5,
            r.timeout_secs == 60 && r.connect_timeout_secs == 15 && r.start_index == 1,
    {
        Args {
            urls: Vec::new(),
            input: None,
            output: DEFAULT_OUTPUT.to_string(),
            concurrency: DEFAULT_CONCURRENCY,
            split: DEFAULT_SPLIT,
            http1: false,
            insecure: false,
            max_download_limit: 0,
            max_overall_download_limit: 0,
            max_file_not_found: 0,
            max_total_connections: 0,
            log: None,
            config: None,
            delay_ms: 0,
            retries: DEFAULT_RETRIES,
            timeout_secs: DEFAULT_TIMEOUT_SECS,
            connect_timeout_secs: DEFAULT_CONNECT_TIMEOUT_SECS,
            user_agent: None,
            ua_rotate: false,
            header: Vec::new(),
            referer: None,
            cookie: None,
            cookie_jar: None,
            proxy: None,
            no_resume: false,
            overwrite: false,
            retry_on_http_errors: false,
            max_size: 0,
            filename: None,
            start_index: DEFAULT_START_INDEX,
            no_validate: false,
            quiet: false,
        }
    }
}

// ---------------------------------------------------------------------------
// Input URLs
// ---------------------------------------------------------------------------

/// One URL from the command line or input file, with an optional `out=`
/// filename (aria2c input-file format).
#[derive(Debug, Clone)]
pub struct InputUrl {
    pub url: String,
    pub out: Option<String>,
}

/// A URL with its output filename, as text.
pub struct InputUrlView {
    pub url: Seq<char>,
    pub out: Option<Seq<char>>,
}

impl View for InputUrl {
    type V = InputUrlView;

    open spec fn view(&self) -> InputUrlView {
        InputUrlView {
            url: self.url@,
            out: match self.out {
                Some(o) => Some(o@),
                None => None,
            },
        }
    }
}

/// The URLs of a list, as text.
pub open spec fn input_views(v: Seq<InputUrl>) -> Seq<InputUrlView> {
    v.map_values(|u: InputUrl| u@)
}

/// A URL without an output filename of its own.
pub open spec fn bare_url(url: Seq<char>) -> InputUrlView {
    InputUrlView { url, out: None }
}

/// Whether a line of an input file says nothing.
pub open spec fn is_input_comment(line: Seq<char>) -> bool {
    line.len() == 0 || line[0] == '#'
}

/// The URLs of an input file. Blank lines and comments are left out. An
/// `out=` line names the output file of the URL before it, if there is one;
/// the last such line counts. Every other line is a URL.
pub open spec fn read_inputs(lines: Seq<Seq<char>>) -> Seq<InputUrlView>
    decreases lines.len(),
{
    if lines.len() == 0 {
        Seq::empty()
    } else {
        let before = read_inputs(lines.drop_last());
        let line = trim(lines.last(), CharClass::Space);
        if is_input_comment(line) {
            before
        } else if "out="@.is_prefix_of(line) {
            if before.len() == 0 {
                before
            } else {
                before.drop_last().push(
                    InputUrlView {
                        url: before.last().url,
                        out: Some(trim(line.skip(4), CharClass::Space)),
                    },
                )
            }
        } else {
            before.push(bare_url(line))
        }
    }
}

/// Parse the content of an aria2c-style input file into URLs with their
/// `out=` filenames.
pub fn parse_input_file(content: &str) -> (r: Vec<InputUrl>)
    ensures
        input_views(r@) == read_inputs(split(content@, CharClass::LineFeed)),
{
    let v = chars_of(content);
    let lines = pieces_of(&v, CharClass::LineFeed);
    let ghost all = views(lines@);
    let mut out: Vec<InputUrl> = Vec::new();
    let mut i: usize = 0;
    assert(all.take(0) =~= Seq::empty());
    assert(input_views(out@) =~= Seq::empty());
    while i < lines.len()
        invariant
            i <= lines@.len(),
            all == views(lines@),
            all == split(content@, CharClass::LineFeed),
            input_views(out@) == read_inputs(all.take(i as int)),
        decreases lines@.len() - i,
    {
        assert(all.take(i + 1).drop_last() =~= all.take(i as int));
        assert(all.take(i + 1).last() == lines@[i as int]@);
        let ghost before = input_views(out@);
        let ghost earlier = out@;
        let line = trimmed(&lines[i], CharClass::Space);
        if line.len() > 0 && line[0] != '#' {
            if starts_with(&line, "out=") {
                proof {
                    reveal_strlit("out=");
                }
                let len: usize = line.len();
                let tail = slice_chars(&line, 4, len);
                assert(tail@ =~= line@.skip(4));
                let name = trimmed(&tail, CharClass::Space);
                if let Some(last) = out.pop() {
                    assert(last@ == before.last());
                    let named = InputUrl { url: last.url, out: Some(text_of(&name)) };
                    out.push(named);
                    assert(input_views(out@) =~= before.drop_last().push(named@));
                }
            } else {
                let fresh = InputUrl { url: text_of(&line), out: None };
                out.push(fresh);
                assert(input_views(out@) =~= before.push(fresh@));
            }
        }
        i = i + 1;
    }
    assert(all.take(i as int) =~= all);
    out
}

impl Args {
    /// The URLs of the run: those given one by one, then those of the input
    /// file, where one is set and can be read.
    pub open spec fn inputs(self, content: Option<Seq<char>>) -> Seq<InputUrlView> {
        self.urls@.map_values(|u: String| bare_url(u@)) + match (self.input, content) {
            (Some(_), Some(text)) => read_inputs(split(text, CharClass::LineFeed)),
            _ => Seq::empty(),
        }
    }

    /// All URLs from positional args plus the input file (if any), in order,
    /// with per-URL `out=` filenames applied. Matches aria2c's input format:
    /// an `out=...` line (indented or not) following a URL sets that URL's
    /// output filename. `{n}`/`{ext}` placeholders are resolved later.
    /// `content` is what the input file holds, `None` if it cannot be read.
    pub fn all_inputs(&self, content: Option<&str>) -> (r: Vec<InputUrl>)
        ensures
            input_views(r@) == self.inputs(
                match content {
                    Some(text) => Some(text@),
                    None => None,
                },
            ),
    {
        let mut out: Vec<InputUrl> = Vec::new();
        let ghost bare = self.urls@.map_values(|u: String| bare_url(u@));
        let mut i: usize = 0;
        assert(input_views(out@) =~= bare.take(0));
        while i < self.urls.len()
            invariant
                i <= self.urls@.len(),
                bare == self.urls@.map_values(|u: String| bare_url(u@)),
                input_views(out@) == bare.take(i as int),
            decreases self.urls@.len() - i,
        {
            let ghost earlier = out@;
            let fresh = InputUrl { url: self.urls[i].clone(), out: None };
            out.push(fresh);
            assert(input_views(out@) =~= input_views(earlier).push(fresh@));
            assert(bare.take(i + 1) =~= bare.take(i as int).push(bare[i as int]));
            i = i + 1;
        }
        assert(bare.take(i as int) =~= bare);
        if self.input.is_some() {
            if let Some(text) = content {
                let mut more = parse_input_file(text);
                let ghost first = out@;
                let ghost second = more@;
                out.append(&mut more);
                assert(input_views(out@) =~= input_views(first) + input_views(second));
                return out;
            }
        }
        assert(bare + Seq::empty() =~= bare);
        out
    }
}

// ---------------------------------------------------------------------------
// User agents
// ---------------------------------------------------------------------------

/// How many browser User-Agents there are to rotate through.
pub const BROWSER_UA_COUNT: usize = 6;

/// The browser User-Agents that a run rotates through.
pub open spec fn browser_ua_text(i: int) -> Seq<char> {
    if i == 0 {
        "Mozilla/5.0 (Windows NT 10.0; Win64; x64) AppleWebKit/537.36 (KHTML, like Gecko) Chrome/142.0.0.0 Safari/537.36"@
    } else if i == 1 {
        "Mozilla/5.0 (Windows NT 10.0; Win64; x64) AppleWebKit/537.36 (KHTML, like Gecko) Chrome/141.0.0.0 Safari/537.36"@
    } else if i == 2 {
        "Mozilla/5.0 (Macintosh; Intel Mac OS X 10_15_7) AppleWebKit/537.36 (KHTML, like Gecko) Chrome/142.0.0.0 Safari/537.36"@
    } else if i == 3 {
        "Mozilla/5.0 (Windows NT 10.0; Win64; x64; rv:137.0) Gecko/20100101 Firefox/137.0"@
    } else if i == 4 {
        "Mozilla/5.0 (Macintosh; Intel Mac OS X 10_15_7) AppleWebKit/605.1.15 (KHTML, like Gecko) Version/18.4 Safari/605.1.15"@
    } else {
        "Mozilla/5.0 (X11; Linux x86_64) AppleWebKit/537.36 (KHTML, like Gecko) Chrome/142.0.0.0 Safari/537.36"@
    }
}

/// One of the browser User-Agents used for --ua-rotate.
pub fn browser_ua(i: usize) -> (r: &'static str)
    requires
        i < BROWSER_UA_COUNT,
    ensures
        r@ == browser_ua_text(i as int),
{
    if i == 0 {
        "Mozilla/5.0 (Windows NT 10.0; Win64; x64) AppleWebKit/537.36 (KHTML, like Gecko) Chrome/142.0.0.0 Safari/537.36"
    } else if i == 1 {
        "Mozilla/5.0 (Windows NT 10.0; Win64; x64) AppleWebKit/537.36 (KHTML, like Gecko) Chrome/141.0.0.0 Safari/537.36"
    } else if i == 2 {
        "Mozilla/5.0 (Macintosh; Intel Mac OS X 10_15_7) AppleWebKit/537.36 (KHTML, like Gecko) Chrome/142.0.0.0 Safari/537.36"
    } else if i == 3 {
        "Mozilla/5.0 (Windows NT 10.0; Win64; x64; rv:137.0) Gecko/20100101 Firefox/137.0"
    } else if i == 4 {
        "Mozilla/5.0 (Macintosh; Intel Mac OS X 10_15_7) AppleWebKit/605.1.15 (KHTML, like Gecko) Version/18.4 Safari/605.1.15"
    } else {
        "Mozilla/5.0 (X11; Linux x86_64) AppleWebKit/537.36 (KHTML, like Gecko) Chrome/142.0.0.0 Safari/537.36"
    }
}

// ---------------------------------------------------------------------------
// Laws of the input file
// ---------------------------------------------------------------------------

/// An `out=` line under a URL, indented or not, names the output file of that URL.
pub proof fn law_out_line_names_url_above(
    lines: Seq<Seq<char>>,
    url: Seq<char>,
    out: Seq<char>,
)
    requires
        !is_input_comment(trim(url, CharClass::Space)),
        !"out="@.is_prefix_of(trim(url, CharClass::Space)),
        "out="@.is_prefix_of(trim(out, CharClass::Space)),
    ensures
        read_inputs(lines.push(url).push(out)) == read_inputs(lines).push(
            InputUrlView {
                url: trim(url, CharClass::Space),
                out: Some(trim(trim(out, CharClass::Space).skip(4), CharClass::Space)),
            },
        ),
{
    reveal_strlit("out=");
    let with_url = lines.push(url);
    let all = with_url.push(out);
    assert(with_url.drop_last() =~= lines);
    assert(all.drop_last() =~= with_url);
    assert("out="@[0] == 'o');
    assert(trim(out, CharClass::Space)[0] == 'o') by {
        assert("out="@ =~= trim(out, CharClass::Space).subrange(0, 4));
    }
    assert(read_inputs(with_url) == read_inputs(lines).push(bare_url(trim(url, CharClass::Space))));
    assert(read_inputs(with_url).drop_last() =~= read_inputs(lines));
}

/// Blank lines and comments change nothing, wherever they stand.
pub proof fn law_comments_are_ignored(
    before: Seq<Seq<char>>,
    line: Seq<char>,
    after: Seq<Seq<char>>,
)
    requires
        is_input_comment(trim(line, CharClass::Space)),
    ensures
        read_inputs(before.push(line) + after) == read_inputs(before + after),
    decreases after.len(),
{
    if after.len() == 0 {
        assert(before.push(line) + after =~= before.push(line));
        assert(before + after =~= before);
        assert(before.push(line).drop_last() =~= before);
    } else {
        law_comments_are_ignored(before, line, after.drop_last());
        assert((before.push(line) + after).drop_last() =~= before.push(line) + after.drop_last());
        assert((before + after).drop_last() =~= before + after.drop_last());
    }
}

/// Every URL given on the command line is an input, in its place and without an output
/// name of its own. Those of the input file follow, where one is set and can be read;
/// otherwise there are no others.
pub proof fn law_every_given_url_is_an_input(args: Args, content: Option<Seq<char>>)
    ensures
        ({
            let inputs = args.inputs(content);
            let given = args.urls@.len();
            &&& inputs.len() >= given
            &&& forall|i: int|
                0 <= i < given ==> (#[trigger] inputs[i]) == (InputUrlView {
                    url: args.urls@[i]@,
                    out: None,
                })
            &&& args.input is None || content is None ==> inputs.len() == given
            &&& args.input is Some && content is Some ==> inputs.skip(given as int) == read_inputs(
                split(content->0, CharClass::LineFeed),
            )
        }),
{
    let given = args.urls@.len() as int;
    if args.input is Some && content is Some {
        let listed = read_inputs(split(content->0, CharClass::LineFeed));
        assert(args.inputs(content).skip(given) =~= listed);
    }
}

/// What a line of an input file does to the list so far, by what is left of it without
/// the blanks around it. Nothing, where that is empty or begins with `#`. An `out=` line
/// names the output file of the last URL, and does nothing where there is none. Every
/// other line is a URL, and comes last.
pub proof fn law_line_of_input_file(lines: Seq<Seq<char>>, line: Seq<char>)
    ensures
        ({
            let before = read_inputs(lines);
            let after = read_inputs(lines.push(line));
            let text = trim(line, CharClass::Space);
            let names = text.len() >= 4 && text[0] == 'o' && text[1] == 'u' && text[2] == 't'
                && text[3] == '=';
            &&& text.len() == 0 ==> after == before
            &&& text.len() > 0 && text[0] == '#' ==> after == before
            &&& text.len() > 0 && text[0] != '#' && !names ==> after == before.push(
                InputUrlView { url: text, out: None },
            )
            &&& names && before.len() == 0 ==> after.len() == 0
            &&& names && before.len() > 0 ==> after == before.update(
                before.len() - 1,
                InputUrlView {
                    url: before.last().url,
                    out: Some(trim(text.skip(4), CharClass::Space)),
                },
            )
        }),
{
    reveal_strlit("out=");
    let before = read_inputs(lines);
    let text = trim(line, CharClass::Space);
    assert(lines.push(line).drop_last() =~= lines);
    let word = "out="@;
    assert(word.len() == 4 && word[0] == 'o' && word[1] == 'u' && word[2] == 't' && word[3] == '=');
    if text.len() >= 4 {
        let head = text.subrange(0, 4);
        assert(head[0] == text[0] && head[1] == text[1] && head[2] == text[2] && head[3]
            == text[3]);
        if text[0] == 'o' && text[1] == 'u' && text[2] == 't' && text[3] == '=' {
            assert(head =~= word);
            if before.len() > 0 {
                let named = InputUrlView {
                    url: before.last().url,
                    out: Some(trim(text.skip(4), CharClass::Space)),
                };
                assert(before.drop_last().push(named) =~= before.update(before.len() - 1, named));
            }
        }
    }
}

/// A list of URLs, one on each line, gives these URLs in their order.
pub proof fn law_url_list_is_read(urls: Seq<Seq<char>>)
    requires
        urls.len() > 0,
        forall|i: int| #![trigger urls[i]]
            0 <= i < urls.len() ==> {
                &&& urls[i].len() > 0
                &&& urls[i][0] != '#'
                &&& !CharClass::Space.holds(urls[i][0])
                &&& !CharClass::Space.holds(urls[i].last())
                &&& !(urls[i].len() >= 4 && urls[i][0] == 'o' && urls[i][1] == 'u' && urls[i][2]
                    == 't' && urls[i][3] == '=')
            },
        forall|i: int, k: int|
            0 <= i < urls.len() && 0 <= k < urls[i].len() ==> #[trigger] urls[i][k] != '\n',
    ensures
        ({
            let inputs = read_inputs(
                split(join_all(urls, seq!['\n']), CharClass::LineFeed),
            );
            &&& inputs.len() == urls.len()
            &&& forall|i: int|
                0 <= i < urls.len() ==> (#[trigger] inputs[i]) == (InputUrlView {
                    url: urls[i],
                    out: None,
                })
        }),
{
    law_joined_pieces_split(urls, CharClass::LineFeed, '\n');
    lemma_urls_are_read(urls);
}

/// Lines that are URLs and nothing else are read one for one.
proof fn lemma_urls_are_read(urls: Seq<Seq<char>>)
    requires
        forall|i: int| #![trigger urls[i]]
            0 <= i < urls.len() ==> {
                &&& urls[i].len() > 0
                &&& urls[i][0] != '#'
                &&& !CharClass::Space.holds(urls[i][0])
                &&& !CharClass::Space.holds(urls[i].last())
                &&& !(urls[i].len() >= 4 && urls[i][0] == 'o' && urls[i][1] == 'u' && urls[i][2]
                    == 't' && urls[i][3] == '=')
            },
    ensures
        read_inputs(urls).len() == urls.len(),
        forall|i: int|
            0 <= i < urls.len() ==> (#[trigger] read_inputs(urls)[i]) == (InputUrlView {
                url: urls[i],
                out: None,
            }),
    decreases urls.len(),
{
    if urls.len() > 0 {
        let before = urls.drop_last();
        let last = urls[urls.len() - 1];
        assert forall|i: int| #![trigger before[i]] 0 <= i < before.len() implies before[i]
            == urls[i] by {}
        lemma_urls_are_read(before);
        lemma_trim_bare(last, CharClass::Space);
        law_line_of_input_file(before, last);
        assert(before.push(last) =~= urls);
    }
}

/// The URLs of a list are told in the same order, one for one, with all that is known of
/// them.
pub proof fn law_input_views(v: Seq<InputUrl>)
    ensures
        input_views(v).len() == v.len(),
        forall|i: int| #![trigger input_views(v)[i]]
            0 <= i < v.len() ==> {
                &&& input_views(v)[i].url == v[i].url@
                &&& input_views(v)[i].out is Some <==> v[i].out is Some
                &&& v[i].out is Some ==> input_views(v)[i].out == Some(v[i].out->0@)
            },
{
}

/// The browser User-Agents are six different ones, each in the form that browsers use.
pub proof fn law_user_agents_differ(i: int, j: int)
    requires
        0 <= i < j < 6,
    ensures
        browser_ua_text(i) != browser_ua_text(j),
        browser_ua_text(i).subrange(0, 13) == "Mozilla/5.0 ("@,
        browser_ua_text(j).subrange(0, 13) == "Mozilla/5.0 ("@,
        BROWSER_UA_COUNT == 6,
{
    reveal_strlit("Mozilla/5.0 (Windows NT 10.0; Win64; x64) AppleWebKit/537.36 (KHTML, like Gecko) Chrome/142.0.0.0 Safari/537.36");
    reveal_strlit("Mozilla/5.0 (Windows NT 10.0; Win64; x64) AppleWebKit/537.36 (KHTML, like Gecko) Chrome/141.0.0.0 Safari/537.36");
    reveal_strlit("Mozilla/5.0 (Macintosh; Intel Mac OS X 10_15_7) AppleWebKit/537.36 (KHTML, like Gecko) Chrome/142.0.0.0 Safari/537.36");
    reveal_strlit("Mozilla/5.0 (Windows NT 10.0; Win64; x64; rv:137.0) Gecko/20100101 Firefox/137.0");
    reveal_strlit("Mozilla/5.0 (Macintosh; Intel Mac OS X 10_15_7) AppleWebKit/605.1.15 (KHTML, like Gecko) Version/18.4 Safari/605.1.15");
    reveal_strlit("Mozilla/5.0 (X11; Linux x86_64) AppleWebKit/537.36 (KHTML, like Gecko) Chrome/142.0.0.0 Safari/537.36");
    assert(browser_ua_text(0)[90] == '2');
    assert(browser_ua_text(1)[90] == '1');
    assert(browser_ua_text(2)[60] == '5');
    assert(browser_ua_text(4)[60] == '6');
    assert(browser_ua_text(0).len() == 111 && browser_ua_text(1).len() == 111);
    assert(browser_ua_text(2).len() == 117 && browser_ua_text(4).len() == 117);
    assert(browser_ua_text(3).len() == 80 && browser_ua_text(5).len() == 101);
    assert(i == 0 || i == 1 || i == 2 || i == 3 || i == 4);
    assert(j == 1 || j == 2 || j == 3 || j == 4 || j == 5);
    reveal_strlit("Mozilla/5.0 (");
    assert(browser_ua_text(i).subrange(0, 13) =~= "Mozilla/5.0 ("@);
    assert(browser_ua_text(j).subrange(0, 13) =~= "Mozilla/5.0 ("@);
}

/// The URLs of a run, as they come out: every one that was given on the command line, in
/// its place, and then those that the input file lists by itself.
pub proof fn law_all_inputs_holds_every_url(
    args: Args,
    content: Option<&str>,
    r: Vec<InputUrl>,
    listed: Vec<InputUrl>,
)
    requires
        call_ensures(Args::all_inputs, (&args, content), r),
        content matches Some(text) ==> call_ensures(parse_input_file, (text,), listed),
    ensures
        r@.len() >= args.urls@.len(),
        forall|i: int| #![trigger r@[i]]
            0 <= i < args.urls@.len() ==> r@[i].url@ == args.urls@[i]@ && r@[i].out is None,
        args.input is None || content is None ==> r@.len() == args.urls@.len(),
        args.input is Some && content is Some ==> r@.len() == args.urls@.len() + listed@.len(),
        args.input is Some && content is Some ==> forall|i: int| #![trigger listed@[i]]
            0 <= i < listed@.len() ==> r@[args.urls@.len() + i]@ == listed@[i]@,
{
    let text = match content {
        Some(text) => Some(text@),
        None => None,
    };
    law_every_given_url_is_an_input(args, text);
    law_input_views(r@);
    law_input_views(listed@);
    let inputs = args.inputs(text);
    assert forall|i: int| #![trigger r@[i]] 0 <= i < args.urls@.len() implies r@[i].url@
        == args.urls@[i]@ && r@[i].out is None by {
        assert(input_views(r@)[i] == inputs[i]);
    }
    if args.input is Some && content is Some {
        let given = args.urls@.len() as int;
        assert forall|i: int| #![trigger listed@[i]] 0 <= i < listed@.len() implies r@[given + i]@
            == listed@[i]@ by {
            assert(inputs.skip(given)[i] == inputs[given + i]);
            assert(input_views(r@)[given + i] == r@[given + i]@);
            assert(input_views(listed@)[i] == listed@[i]@);
        }
    }
}

} // verus!
