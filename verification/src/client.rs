//! HTTP client construction: anti-bot headers, UA rotation, proxy, cookies.
//!
//! One shared `reqwest::Client` is built once and reused for every request so
//! connections are pooled (keep-alive, HTTP/2 multiplexing) instead of paying
//! a fresh TCP+TLS handshake per file. Per-request differences (User-Agent
//! rotation, per-host cookies) are applied via request headers.

use reqwest::header::HeaderMap;
use std::time::Duration;

use vstd::prelude::*;
use vstd::utf8::{encode_utf8, is_ascii_chars, is_ascii_chars_encode_utf8};

use crate::args::{browser_ua, browser_ua_text, Args, BROWSER_UA_COUNT};
use crate::clock::{secs_of, unix_nanos};
use crate::cookies::{
    build_cookie_header, cookie_views, header_pairs, is_jar_reading, is_live_entry,
    law_cookie_views, law_every_live_entry_counts, parse_cookie_string, parse_netscape_jar_at,
    read_jar, read_pairs, Cookie, CookieError, CookieView, JarError,
};
use crate::failure::{quote, quoted_text};
use crate::headers::{
    header_entries, header_name, header_value, is_header_name, is_header_value,
    lemma_plain_name, no_headers, set_header, HEADER_ROOM,
};
use crate::numbers::{decimal, lower, push_decimal};
use crate::text::{
    chars_of, halves_of, join_all, law_split_once_cuts_at_first, split, split_once, text_of, texts,
    trim, trimmed, CharClass,
};

verus! {

/// The client that makes the requests.
#[verifier::external_type_specification]
#[verifier::external_body]
pub struct ExClient(reqwest::Client);

/// The client, while it is being set up.
#[verifier::external_type_specification]
#[verifier::external_body]
pub struct ExClientBuilder(reqwest::ClientBuilder);

// ---------------------------------------------------------------------------
// The client
// ---------------------------------------------------------------------------

/// How many redirects a request follows.
pub const MAX_REDIRECTS: usize = 10;

/// How the client is set up.
#[derive(Debug)]
pub struct ClientSettings {
    pub timeout_secs: u64,
    pub connect_timeout_secs: u64,
    pub redirects: usize,
    pub tcp_nodelay: bool,
    pub http1_only: bool,
    pub accept_invalid_certs: bool,
    pub proxy: Option<String>,
}

/// How a client is set up, as text and numbers.
pub struct SetUp {
    pub timeout_secs: u64,
    pub connect_timeout_secs: u64,
    pub redirects: usize,
    pub tcp_nodelay: bool,
    pub http1_only: bool,
    pub accept_invalid_certs: bool,
    pub proxy: Option<Seq<char>>,
}

impl View for ClientSettings {
    type V = SetUp;

    open spec fn view(&self) -> SetUp {
        SetUp {
            timeout_secs: self.timeout_secs,
            connect_timeout_secs: self.connect_timeout_secs,
            redirects: self.redirects,
            tcp_nodelay: self.tcp_nodelay,
            http1_only: self.http1_only,
            accept_invalid_certs: self.accept_invalid_certs,
            proxy: opt_text(self.proxy),
        }
    }
}

/// A text that may be missing.
pub open spec fn opt_text(s: Option<String>) -> Option<Seq<char>> {
    match s {
        Some(t) => Some(t@),
        None => None,
    }
}

/// At least one second.
pub open spec fn one_or_more(secs: u64) -> u64 {
    if secs == 0 {
        1
    } else {
        secs
    }
}

impl ClientSettings {
    /// The set-up that the settings of a run ask for.
    pub open spec fn asked_by(args: Args) -> ClientSettings {
        ClientSettings {
            timeout_secs: one_or_more(args.timeout_secs),
            connect_timeout_secs: one_or_more(args.connect_timeout_secs),
            redirects: MAX_REDIRECTS,
            tcp_nodelay: true,
            http1_only: args.http1,
            accept_invalid_certs: args.insecure,
            proxy: args.proxy,
        }
    }

    /// The set-up that the settings of a run ask for.
    pub fn new(args: &Args) -> (r: ClientSettings)
        ensures
            r == ClientSettings::asked_by(*args),
    {
        ClientSettings {
            timeout_secs: if args.timeout_secs == 0 {
                1
            } else {
                args.timeout_secs
            },
            connect_timeout_secs: if args.connect_timeout_secs == 0 {
                1
            } else {
                args.connect_timeout_secs
            },
            redirects: MAX_REDIRECTS,
            tcp_nodelay: true,
            http1_only: args.http1,
            accept_invalid_certs: args.insecure,
            proxy: match &args.proxy {
                Some(url) => Some(url.clone()),
                None => None,
            },
        }
    }
}

/// What a builder has been told so far.
pub uninterp spec fn builder_set_up(builder: reqwest::ClientBuilder) -> SetUp;

/// What a client was told when it was built.
pub uninterp spec fn client_set_up(client: reqwest::Client) -> SetUp;

/// `Client::builder`, with `timeout`, `connect_timeout`, `redirect` (limited to a
/// number), `tcp_nodelay` and `danger_accept_invalid_certs` applied. The builder has
/// been told these values, no restriction to HTTP/1 and no proxy.
#[verifier::external_body]
fn start_client(
    timeout_secs: u64,
    connect_timeout_secs: u64,
    redirects: usize,
    tcp_nodelay: bool,
    accept_invalid_certs: bool,
) -> (r: reqwest::ClientBuilder)
    ensures
        builder_set_up(r) == (SetUp {
            timeout_secs,
            connect_timeout_secs,
            redirects,
            tcp_nodelay,
            http1_only: false,
            accept_invalid_certs,
            proxy: None,
        }),
{
    reqwest::Client::builder()
        .timeout(Duration::from_secs(timeout_secs))
        .connect_timeout(Duration::from_secs(connect_timeout_secs))
        .redirect(reqwest::redirect::Policy::limited(redirects))
        .tcp_nodelay(tcp_nodelay)
        .danger_accept_invalid_certs(accept_invalid_certs)
}

/// `ClientBuilder::http1_only`. The builder has been told to keep to HTTP/1, and
/// nothing else has changed.
#[verifier::external_body]
fn only_http1(builder: reqwest::ClientBuilder) -> (r: reqwest::ClientBuilder)
    ensures
        builder_set_up(r) == (SetUp { http1_only: true, ..builder_set_up(builder) }),
{
    builder.http1_only()
}

/// Whether a text is the URL of a proxy.
pub uninterp spec fn is_proxy_url(url: Seq<char>) -> bool;

/// `ClientBuilder::proxy`, with `Proxy::all` of a URL, on a builder that has no proxy
/// yet. Which texts are URLs of proxies is not spelt out; it depends on the text
/// alone. The error's text is fixed. The builder has been told the proxy, and nothing
/// else has changed.
#[verifier::external_body]
fn through_proxy(builder: reqwest::ClientBuilder, url: &str) -> (r: Result<
    reqwest::ClientBuilder,
    String,
>)
    requires
        builder_set_up(builder).proxy is None,
    ensures
        r is Ok <==> is_proxy_url(url@),
        r is Ok ==> builder_set_up(r->Ok_0) == (SetUp {
            proxy: Some(url@),
            ..builder_set_up(builder)
        }),
        r is Err ==> r->Err_0@ == "builder error"@,
{
    match reqwest::Proxy::all(url) {
        Ok(proxy) => Ok(builder.proxy(proxy)),
        Err(e) => Err(e.to_string()),
    }
}

/// `ClientBuilder::build`. The client has the set-up that the builder was told. When a
/// client can be built is not claimed: that rests on the machine; an error carries its
/// text.
#[verifier::external_body]
fn finish_client(builder: reqwest::ClientBuilder) -> (r: Result<reqwest::Client, String>)
    ensures
        r is Ok ==> client_set_up(r->Ok_0) == builder_set_up(builder),
{
    match builder.build() {
        Ok(client) => Ok(client),
        Err(e) => Err(e.to_string()),
    }
}

/// Why there is no client.
#[derive(Debug)]
pub enum ClientError {
    /// The cookie string is malformed.
    Cookie(CookieError),
    /// The cookie jar could not be read; the text says why.
    ReadJar(String),
    /// The cookie jar is malformed.
    Jar(JarError),
    /// The proxy URL is of no use; the text says why.
    Proxy { url: String, error: String },
    /// The client could not be built; the text says why.
    Build(String),
}

impl ClientError {
    /// What the user reads. `jar` is the path of the cookie jar.
    pub open spec fn message(self, jar: Seq<char>) -> Seq<char> {
        match self {
            ClientError::Cookie(e) => "malformed cookie pair: "@ + quoted_text(e.pair@),
            ClientError::ReadJar(e) => "failed to read cookie jar "@ + jar + ": "@ + e@,
            ClientError::Jar(e) => "cookie jar "@ + jar + " line "@ + decimal(e.line as nat)
                + ": expected 7 tab-separated columns, got "@ + decimal(e.columns as nat),
            ClientError::Proxy { url, error } => "invalid proxy URL "@ + quoted_text(url@) + ": "@
                + error@,
            ClientError::Build(e) => "failed to build HTTP client: "@ + e@,
        }
    }

    /// What the user reads. `jar` is the path of the cookie jar.
    pub fn text(&self, jar: &str) -> (r: String)
        ensures
            r@ == self.message(jar@),
    {
        match self {
            ClientError::Cookie(e) => {
                let mut r = "malformed cookie pair: ".to_string();
                r.append(quote(e.pair.as_str()).as_str());
                r
            },
            ClientError::ReadJar(e) => {
                let mut r = "failed to read cookie jar ".to_string();
                r.append(jar);
                r.append(": ");
                r.append(e.as_str());
                r
            },
            ClientError::Jar(e) => {
                let mut r = "cookie jar ".to_string();
                r.append(jar);
                r.append(" line ");
                push_decimal(&mut r, e.line as u64);
                r.append(": expected 7 tab-separated columns, got ");
                push_decimal(&mut r, e.columns as u64);
                r
            },
            ClientError::Proxy { url, error } => {
                let mut r = "invalid proxy URL ".to_string();
                r.append(quote(url.as_str()).as_str());
                r.append(": ");
                r.append(error.as_str());
                r
            },
            ClientError::Build(e) => {
                let mut r = "failed to build HTTP client: ".to_string();
                r.append(e.as_str());
                r
            },
        }
    }
}

/// Whether the proxy that is asked for, if any, is one.
pub open spec fn has_usable_proxy(proxy: Option<String>) -> bool {
    proxy matches Some(url) ==> is_proxy_url(url@)
}

/// Whether an error says that the proxy which is asked for is none.
pub open spec fn is_proxy_error(e: ClientError, proxy: Option<String>) -> bool {
    e matches ClientError::Proxy { url, error } && proxy == Some(url) && error@
        == "builder error"@
}

/// What comes of an attempt to build a client.
pub fn built_client(built: Result<reqwest::Client, String>) -> (r: Result<
    reqwest::Client,
    ClientError,
>)
    ensures
        match built {
            Ok(client) => r == Ok::<reqwest::Client, ClientError>(client),
            Err(error) => r == Err::<reqwest::Client, ClientError>(ClientError::Build(error)),
        },
{
    match built {
        Ok(client) => Ok(client),
        Err(error) => Err(ClientError::Build(error)),
    }
}

/// A client with the given set-up. A proxy URL that is none is refused; otherwise there
/// is a client unless it cannot be built.
fn build_client(settings: &ClientSettings) -> (r: Result<reqwest::Client, ClientError>)
    ensures
        !has_usable_proxy(settings.proxy) ==> (r matches Err(e) && is_proxy_error(
            e,
            settings.proxy,
        )),
        has_usable_proxy(settings.proxy) ==> (r matches Err(e) ==> e is Build),
        r is Ok ==> client_set_up(r->Ok_0) == settings@,
{
    let mut builder = start_client(
        settings.timeout_secs,
        settings.connect_timeout_secs,
        settings.redirects,
        settings.tcp_nodelay,
        settings.accept_invalid_certs,
    );
    if settings.http1_only {
        builder = only_http1(builder);
    }
    if let Some(url) = &settings.proxy {
        builder = match through_proxy(builder, url.as_str()) {
            Ok(b) => b,
            Err(error) => return Err(ClientError::Proxy { url: url.clone(), error }),
        };
    }
    built_client(finish_client(builder))
}

// ---------------------------------------------------------------------------
// Cookies
// ---------------------------------------------------------------------------

/// The cookies that the settings of a run spell out.
pub open spec fn raw_cookies(args: Args) -> Result<Seq<CookieView>, Seq<char>> {
    match args.cookie {
        Some(s) => read_pairs(split(s@, CharClass::Semicolon)),
        None => Ok(Seq::empty()),
    }
}

/// Whether cookies are those of a run at a moment: those spelt out, and those of
/// the jar, where there is one. A malformed cookie string comes before whatever is
/// wrong with the jar.
pub open spec fn are_cookies(
    r: Result<(Vec<Cookie>, Vec<Cookie>), ClientError>,
    args: Args,
    jar: Option<Result<String, String>>,
    now: u64,
) -> bool {
    match raw_cookies(args) {
        Err(pair) => r matches Err(ClientError::Cookie(e)) && e.pair@ == pair,
        Ok(raw) => match jar {
            None => r matches Ok((v, j)) && cookie_views(v@) == raw && j@.len() == 0,
            Some(Err(why)) => r == Err::<(Vec<Cookie>, Vec<Cookie>), ClientError>(
                ClientError::ReadJar(why),
            ),
            Some(Ok(content)) => match r {
                Ok((v, j)) => cookie_views(v@) == raw && is_jar_reading(Ok(j), content@, now),
                Err(ClientError::Jar(e)) => is_jar_reading(Err(e), content@, now),
                _ => false,
            },
        },
    }
}

/// The cookies of a run at a moment. `jar` is what the jar file holds, or why it
/// cannot be read; `None` where no jar is set.
pub fn load_cookies(args: &Args, jar: Option<Result<String, String>>, now: u64) -> (r: Result<
    (Vec<Cookie>, Vec<Cookie>),
    ClientError,
>)
    ensures
        are_cookies(r, *args, jar, now),
{
    let raw: Vec<Cookie> = match &args.cookie {
        Some(s) => match parse_cookie_string(s.as_str()) {
            Ok(v) => v,
            Err(e) => return Err(ClientError::Cookie(e)),
        },
        None => Vec::new(),
    };
    assert(cookie_views(Seq::empty()) =~= Seq::empty());
    match jar {
        None => Ok((raw, Vec::new())),
        Some(Err(why)) => Err(ClientError::ReadJar(why)),
        Some(Ok(content)) => match parse_netscape_jar_at(content.as_str(), now) {
            Ok(cookies) => Ok((raw, cookies)),
            Err(e) => Err(ClientError::Jar(e)),
        },
    }
}

// ---------------------------------------------------------------------------
// Headers
// ---------------------------------------------------------------------------

/// The User-Agent where none is set.
pub const DEFAULT_UA: &'static str = "Mozilla/5.0 (Windows NT 10.0; Win64; x64) AppleWebKit/537.36 (KHTML, like Gecko) Chrome/142.0.0.0 Safari/537.36";

/// The kinds of content that a request accepts.
pub const ACCEPT: &'static str = "image/avif,image/webp,image/apng,image/svg+xml,image/*,*/*;q=0.8";

/// The languages that a request accepts.
pub const ACCEPT_LANGUAGE: &'static str = "en-US,en;q=0.9";

/// Why a request could not be put together.
#[derive(Debug)]
pub enum PrepareError {
    /// The User-Agent cannot be the value of a header.
    UserAgent { error: String },
    /// The referer cannot be the value of a header.
    Referer { referer: String, error: String },
    /// An extra header has no colon.
    Shape { header: String },
    /// The name of an extra header cannot be one.
    Name { name: String, error: String },
    /// The value of an extra header cannot be one.
    Value { name: String, error: String },
    /// There are more headers than a request can hold.
    TooMany,
}

impl PrepareError {
    /// What the user reads.
    pub open spec fn message(self) -> Seq<char> {
        match self {
            PrepareError::UserAgent { error } => "invalid user agent: "@ + error@,
            PrepareError::Referer { referer, error } => "invalid referer "@ + quoted_text(
                referer@,
            ) + ": "@ + error@,
            PrepareError::Shape { header } => "header must be \"Name: value\", got "@
                + quoted_text(header@),
            PrepareError::Name { name, error } => "invalid header name "@ + quoted_text(name@)
                + ": "@ + error@,
            PrepareError::Value { name, error } => "invalid header value for "@ + name@ + ": "@
                + error@,
            PrepareError::TooMany => "too many headers"@,
        }
    }

    /// What the user reads.
    pub fn text(&self) -> (r: String)
        ensures
            r@ == self.message(),
    {
        match self {
            PrepareError::UserAgent { error } => {
                let mut r = "invalid user agent: ".to_string();
                r.append(error.as_str());
                r
            },
            PrepareError::Referer { referer, error } => {
                let mut r = "invalid referer ".to_string();
                r.append(quote(referer.as_str()).as_str());
                r.append(": ");
                r.append(error.as_str());
                r
            },
            PrepareError::Shape { header } => {
                let mut r = "header must be \"Name: value\", got ".to_string();
                r.append(quote(header.as_str()).as_str());
                r
            },
            PrepareError::Name { name, error } => {
                let mut r = "invalid header name ".to_string();
                r.append(quote(name.as_str()).as_str());
                r.append(": ");
                r.append(error.as_str());
                r
            },
            PrepareError::Value { name, error } => {
                let mut r = "invalid header value for ".to_string();
                r.append(name.as_str());
                r.append(": ");
                r.append(error.as_str());
                r
            },
            PrepareError::TooMany => "too many headers".to_string(),
        }
    }
}

/// Why a request could not be put together, as text.
pub enum PrepareErrorView {
    UserAgent { error: Seq<char> },
    Referer { referer: Seq<char>, error: Seq<char> },
    Shape { header: Seq<char> },
    Name { name: Seq<char>, error: Seq<char> },
    Value { name: Seq<char>, error: Seq<char> },
    TooMany,
}

impl View for PrepareError {
    type V = PrepareErrorView;

    open spec fn view(&self) -> PrepareErrorView {
        match *self {
            PrepareError::UserAgent { error } => PrepareErrorView::UserAgent { error: error@ },
            PrepareError::Referer { referer, error } => PrepareErrorView::Referer {
                referer: referer@,
                error: error@,
            },
            PrepareError::Shape { header } => PrepareErrorView::Shape { header: header@ },
            PrepareError::Name { name, error } => PrepareErrorView::Name {
                name: name@,
                error: error@,
            },
            PrepareError::Value { name, error } => PrepareErrorView::Value {
                name: name@,
                error: error@,
            },
            PrepareError::TooMany => PrepareErrorView::TooMany,
        }
    }
}

/// What the HTTP crate says of a text that cannot be the value of a header.
pub open spec fn no_value() -> Seq<char> {
    "failed to parse header value"@
}

/// What the HTTP crate says of a text that cannot be the name of a header.
pub open spec fn no_name() -> Seq<char> {
    "invalid HTTP header name"@
}

/// The headers that every request has, and the referer where one is set.
pub open spec fn common_headers(ua: Seq<char>, referer: Option<Seq<char>>) -> Result<
    Map<Seq<char>, Seq<u8>>,
    PrepareErrorView,
> {
    let common = Map::<Seq<char>, Seq<u8>>::empty().insert("user-agent"@, encode_utf8(ua)).insert(
        "accept"@,
        encode_utf8(ACCEPT@),
    ).insert("accept-language"@, encode_utf8(ACCEPT_LANGUAGE@));
    if !is_header_value(encode_utf8(ua)) {
        Err(PrepareErrorView::UserAgent { error: no_value() })
    } else {
        match referer {
            None => Ok(common),
            Some(r) => if is_header_value(encode_utf8(r)) {
                Ok(common.insert("referer"@, encode_utf8(r)))
            } else {
                Err(PrepareErrorView::Referer { referer: r, error: no_value() })
            },
        }
    }
}

/// The headers with an extra one, which takes the place of one of its name.
pub open spec fn with_header(entries: Map<Seq<char>, Seq<u8>>, line: Seq<char>) -> Result<
    Map<Seq<char>, Seq<u8>>,
    PrepareErrorView,
> {
    match split_once(line, ':') {
        None => Err(PrepareErrorView::Shape { header: line }),
        Some((before, after)) => {
            let name = trim(before, CharClass::Space);
            let value = encode_utf8(trim(after, CharClass::Space));
            if !is_header_name(name) {
                Err(PrepareErrorView::Name { name: before, error: no_name() })
            } else if !is_header_value(value) {
                Err(PrepareErrorView::Value { name: lower(name), error: no_value() })
            } else {
                Ok(entries.insert(lower(name), value))
            }
        },
    }
}

/// The headers with extra ones, in order.
pub open spec fn with_headers(
    start: Result<Map<Seq<char>, Seq<u8>>, PrepareErrorView>,
    lines: Seq<Seq<char>>,
) -> Result<Map<Seq<char>, Seq<u8>>, PrepareErrorView>
    decreases lines.len(),
{
    if lines.len() == 0 {
        start
    } else {
        match with_headers(start, lines.drop_last()) {
            Ok(entries) => with_header(entries, lines.last()),
            Err(e) => Err(e),
        }
    }
}

/// A mistake is not made good by what follows.
proof fn lemma_headers_error(
    start: Result<Map<Seq<char>, Seq<u8>>, PrepareErrorView>,
    lines: Seq<Seq<char>>,
    k: int,
)
    requires
        0 <= k <= lines.len(),
        with_headers(start, lines.take(k)) is Err,
    ensures
        with_headers(start, lines) == with_headers(start, lines.take(k)),
    decreases lines.len() - k,
{
    if k < lines.len() {
        assert(lines.take(k + 1).drop_last() =~= lines.take(k));
        lemma_headers_error(start, lines, k + 1);
    } else {
        assert(lines.take(k) =~= lines);
    }
}

/// Visible ASCII can be the value of a header.
proof fn lemma_visible_value(s: Seq<char>)
    requires
        forall|i: int| 0 <= i < s.len() ==> ' ' <= #[trigger] s[i] <= '~',
    ensures
        is_header_value(encode_utf8(s)),
{
    assert(is_ascii_chars(s));
    is_ascii_chars_encode_utf8(s);
}

/// The value of a header that is known to be one.
fn known_value(text: &str) -> (r: Vec<u8>)
    requires
        is_header_value(encode_utf8(text@)),
    ensures
        r@ == encode_utf8(text@),
{
    match header_value(text) {
        Ok(value) => value,
        Err(_) => Vec::new(),
    }
}

/// The headers that every request has, and the referer where one is set.
fn start_headers(ua: &str, referer: &Option<String>) -> (r: Result<HeaderMap, PrepareError>)
    ensures
        match r {
            Ok(headers) => {
                &&& common_headers(ua@, opt_text(*referer)) == Ok::<
                    Map<Seq<char>, Seq<u8>>,
                    PrepareErrorView,
                >(header_entries(headers))
                &&& header_entries(headers).dom().finite()
                &&& header_entries(headers).dom().len() <= 4
            },
            Err(e) => {
                &&& common_headers(ua@, opt_text(*referer)) == Err::<
                    Map<Seq<char>, Seq<u8>>,
                    PrepareErrorView,
                >(e@)
                &&& e !is TooMany
            },
        },
{
    proof {
        reveal_strlit("user-agent");
        reveal_strlit("accept");
        reveal_strlit("accept-language");
        reveal_strlit("referer");
        lemma_plain_name("user-agent"@);
        lemma_plain_name("accept"@);
        lemma_plain_name("accept-language"@);
        lemma_plain_name("referer"@);
        reveal_strlit("image/avif,image/webp,image/apng,image/svg+xml,image/*,*/*;q=0.8");
        lemma_visible_value(ACCEPT@);
        reveal_strlit("en-US,en;q=0.9");
        lemma_visible_value(ACCEPT_LANGUAGE@);
    }
    let mut headers = no_headers();
    assert(header_entries(headers) =~= Map::<Seq<char>, Seq<u8>>::empty());
    let agent = match header_value(ua) {
        Ok(value) => value,
        Err(error) => return Err(PrepareError::UserAgent { error }),
    };
    let accept = known_value(ACCEPT);
    let language = known_value(ACCEPT_LANGUAGE);
    set_header(&mut headers, "user-agent", &agent);
    set_header(&mut headers, "accept", &accept);
    set_header(&mut headers, "accept-language", &language);
    if let Some(url) = referer {
        let value = match header_value(url.as_str()) {
            Ok(value) => value,
            Err(error) => return Err(PrepareError::Referer { referer: url.clone(), error }),
        };
        set_header(&mut headers, "referer", &value);
    }
    Ok(headers)
}

/// What a request holds: the headers that every request has, the referer where one
/// is set, and the extra ones. Each extra header takes the place of one of its
/// name.
pub open spec fn request_entries(
    ua: Seq<char>,
    referer: Option<Seq<char>>,
    lines: Seq<Seq<char>>,
) -> Result<Map<Seq<char>, Seq<u8>>, PrepareErrorView> {
    with_headers(common_headers(ua, referer), lines)
}

/// The headers of a request.
pub fn request_headers(ua: &str, referer: &Option<String>, lines: &Vec<String>) -> (r: Result<
    HeaderMap,
    PrepareError,
>)
    ensures
        match r {
            Ok(headers) => request_entries(ua@, opt_text(*referer), texts(lines@)) == Ok::<
                Map<Seq<char>, Seq<u8>>,
                PrepareErrorView,
            >(header_entries(headers)),
            Err(PrepareError::TooMany) => lines@.len() + 4 > HEADER_ROOM,
            Err(e) => request_entries(ua@, opt_text(*referer), texts(lines@)) == Err::<
                Map<Seq<char>, Seq<u8>>,
                PrepareErrorView,
            >(e@),
        },
{
    let ghost start = common_headers(ua@, opt_text(*referer));
    let ghost all = texts(lines@);
    let mut headers = match start_headers(ua, referer) {
        Ok(headers) => headers,
        Err(e) => {
            assert(all.take(0) =~= Seq::empty());
            proof {
                lemma_headers_error(start, all, 0);
            }
            return Err(e);
        },
    };
    let mut i: usize = 0;
    assert(all.take(0) =~= Seq::empty());
    while i < lines.len()
        invariant
            i <= lines@.len(),
            all == texts(lines@),
            start == common_headers(ua@, opt_text(*referer)),
            with_headers(start, all.take(i as int)) == Ok::<
                Map<Seq<char>, Seq<u8>>,
                PrepareErrorView,
            >(header_entries(headers)),
            header_entries(headers).dom().finite(),
            header_entries(headers).dom().len() <= 4 + i,
        decreases lines@.len() - i,
    {
        assert(all.take(i + 1).drop_last() =~= all.take(i as int));
        assert(all.take(i + 1).last() == lines@[i as int]@);
        let line = chars_of(lines[i].as_str());
        let (before, after) = match halves_of(&line, ':') {
            Some(halves) => halves,
            None => {
                proof {
                    lemma_headers_error(start, all, i + 1);
                }
                return Err(PrepareError::Shape { header: lines[i].clone() });
            },
        };
        let name_part = text_of(&trimmed(&before, CharClass::Space));
        let value_part = text_of(&trimmed(&after, CharClass::Space));
        let name = match header_name(name_part.as_str()) {
            Ok(name) => name,
            Err(error) => {
                proof {
                    lemma_headers_error(start, all, i + 1);
                }
                return Err(PrepareError::Name { name: text_of(&before), error });
            },
        };
        let value = match header_value(value_part.as_str()) {
            Ok(value) => value,
            Err(error) => {
                proof {
                    lemma_headers_error(start, all, i + 1);
                }
                return Err(PrepareError::Value { name, error });
            },
        };
        if !set_header(&mut headers, name_part.as_str(), &value) {
            return Err(PrepareError::TooMany);
        }
        i = i + 1;
    }
    assert(all.take(i as int) =~= all);
    Ok(headers)
}

// ---------------------------------------------------------------------------
// The factory
// ---------------------------------------------------------------------------

/// Shared client state.
pub struct ClientFactory {
    args: Args,
    client: reqwest::Client,
    jar_cookies: Vec<Cookie>,
    raw_cookies: Vec<Cookie>,
    ua_index: usize,
}

impl ClientFactory {
    /// The settings of the run.
    pub closed spec fn args(self) -> Args {
        self.args
    }

    /// The cookies of the jar.
    pub closed spec fn jar(self) -> Seq<CookieView> {
        cookie_views(self.jar_cookies@)
    }

    /// The cookies that are spelt out.
    pub closed spec fn raw(self) -> Seq<CookieView> {
        cookie_views(self.raw_cookies@)
    }

    /// Which of the browser User-Agents is next.
    pub closed spec fn turn(self) -> int {
        self.ua_index as int
    }

    /// Whether the next User-Agent is one of the list.
    pub open spec fn wf(self) -> bool {
        0 <= self.turn() < BROWSER_UA_COUNT
    }

    /// Set up the client of a run, as of now. `jar` is what the cookie jar file
    /// holds, or why it cannot be read; `None` where no jar is set.
    pub fn new(args: Args, jar: Option<Result<String, String>>) -> (r: Result<
        ClientFactory,
        ClientError,
    >)
        ensures
            exists|now: u64, loaded: Result<(Vec<Cookie>, Vec<Cookie>), ClientError>|
                #![trigger are_cookies(loaded, args, jar, now)]
                {
                    &&& are_cookies(loaded, args, jar, now)
                    &&& match (loaded, r) {
                        (Err(e), _) => r == Err::<ClientFactory, ClientError>(e),
                        (Ok((raw, jar)), Ok(f)) => {
                            &&& has_usable_proxy(args.proxy)
                            &&& f.wf()
                            &&& f.turn() == 0
                            &&& f.args() == args
                            &&& client_set_up(f.shared_client()) == ClientSettings::asked_by(args)@
                            &&& f.raw() == cookie_views(raw@)
                            &&& f.jar() == cookie_views(jar@)
                        },
                        (Ok(_), Err(e)) => if has_usable_proxy(args.proxy) {
                            e is Build
                        } else {
                            is_proxy_error(e, args.proxy)
                        },
                    }
                },
    {
        let now: u64 = secs_of(unix_nanos());
        let loaded = load_cookies(&args, jar, now);
        assert(are_cookies(loaded, args, jar, now));
        let (raw, cookies) = match loaded {
            Ok(both) => both,
            Err(e) => return Err(e),
        };
        let settings = ClientSettings::new(&args);
        let client = match build_client(&settings) {
            Ok(client) => client,
            Err(e) => return Err(e),
        };
        Ok(
            ClientFactory {
                args,
                client,
                jar_cookies: cookies,
                raw_cookies: raw,
                ua_index: 0,
            },
        )
    }

    /// The client that all requests share.
    pub closed spec fn shared_client(self) -> reqwest::Client {
        self.client
    }

    /// The client that all requests share.
    pub fn client(&self) -> (r: &reqwest::Client)
        ensures
            *r == self.shared_client(),
    {
        &self.client
    }

    /// The User-Agent of the next request.
    pub open spec fn agent(self) -> Seq<char> {
        if self.args().ua_rotate {
            browser_ua_text(self.turn())
        } else {
            match self.args().user_agent {
                Some(ua) => ua@,
                None => DEFAULT_UA@,
            }
        }
    }

    /// Whether the factory is `before` after a request: the next one takes the next
    /// User-Agent of the list, and the first comes after the last.
    pub open spec fn follows(self, before: ClientFactory) -> bool {
        &&& self.wf()
        &&& self.args() == before.args()
        &&& self.raw() == before.raw()
        &&& self.jar() == before.jar()
        &&& self.shared_client() == before.shared_client()
        &&& self.turn() == if before.args().ua_rotate {
            (before.turn() + 1) % BROWSER_UA_COUNT as int
        } else {
            before.turn()
        }
    }

    /// Next User-Agent for this request (rotates if --ua-rotate).
    pub fn next_ua(&mut self) -> (r: String)
        requires
            old(self).wf(),
        ensures
            r@ == old(self).agent(),
            final(self).follows(*old(self)),
    {
        if self.args.ua_rotate {
            let i: usize = self.ua_index;
            self.ua_index = if i + 1 == BROWSER_UA_COUNT {
                0
            } else {
                i + 1
            };
            browser_ua(i).to_string()
        } else {
            match &self.args.user_agent {
                Some(ua) => ua.clone(),
                None => DEFAULT_UA.to_string(),
            }
        }
    }

    /// Build the headers for one request to `host`: static anti-bot headers,
    /// this request's User-Agent, and a per-host `Cookie` header.
    pub fn prepare(&mut self, host: &str) -> (r: Result<(HeaderMap, Option<String>), PrepareError>)
        requires
            old(self).wf(),
        ensures
            final(self).follows(*old(self)),
            match r {
                Ok((headers, cookie)) => {
                    &&& request_entries(
                        old(self).agent(),
                        opt_text(old(self).args().referer),
                        texts(old(self).args().header@),
                    ) == Ok::<Map<Seq<char>, Seq<u8>>, PrepareErrorView>(header_entries(headers))
                    &&& ({
                        let list = header_pairs(old(self).raw(), old(self).jar(), host@);
                        if list.len() == 0 {
                            cookie is None
                        } else {
                            cookie matches Some(h) && h@ == join_all(list, "; "@)
                        }
                    })
                },
                Err(PrepareError::TooMany) => old(self).args().header@.len() + 4 > HEADER_ROOM,
                Err(e) => request_entries(
                    old(self).agent(),
                    opt_text(old(self).args().referer),
                    texts(old(self).args().header@),
                ) == Err::<Map<Seq<char>, Seq<u8>>, PrepareErrorView>(e@),
            },
    {
        let ua = self.next_ua();
        let headers = match request_headers(ua.as_str(), &self.args.referer, &self.args.header) {
            Ok(headers) => headers,
            Err(e) => return Err(e),
        };
        let cookie = build_cookie_header(
            self.raw_cookies.as_slice(),
            self.jar_cookies.as_slice(),
            host,
        );
        Ok((headers, cookie))
    }
}

/// Whether factories are one and the same, from request to request.
pub open spec fn is_request_run(run: Seq<ClientFactory>) -> bool
    decreases run.len(),
{
    run.len() <= 1 || (is_request_run(run.drop_last()) && run.last().follows(
        run[run.len() - 2],
    ))
}

/// With rotation on, request after request takes the next browser User-Agent, so
/// that any six requests in a row take all six. The client stays the same.
pub proof fn law_agents_rotate(run: Seq<ClientFactory>, i: int)
    requires
        is_request_run(run),
        0 <= i < run.len(),
        run[0].wf(),
        run[0].args().ua_rotate,
    ensures
        run[i].agent() == browser_ua_text((run[0].turn() + i) % BROWSER_UA_COUNT as int),
        run[i].shared_client() == run[0].shared_client(),
{
    lemma_turns(run, i);
}

/// The User-Agent of a request on a new factory, by how many requests came before it:
/// with rotation on, they go through the list again and again, even where a
/// User-Agent is set; otherwise it is always the one that is set, or the default.
pub proof fn law_agent_of_request(run: Seq<ClientFactory>, k: int)
    requires
        is_request_run(run),
        0 <= k < run.len(),
        run[0].wf(),
        run[0].turn() == 0,
    ensures
        run[0].args().ua_rotate ==> run[k].agent() == browser_ua_text(
            k % BROWSER_UA_COUNT as int,
        ),
        !run[0].args().ua_rotate ==> run[k].agent() == match run[0].args().user_agent {
            Some(ua) => ua@,
            None => DEFAULT_UA@,
        },
        run[0].args().ua_rotate ==> run[k].agent() == browser_ua_text(k % 6),
        !run[0].args().ua_rotate && run[0].args().user_agent is None ==> run[k].agent()
            == browser_ua_text(0),
{
    if run[0].args().ua_rotate {
        law_agents_rotate(run, k);
    } else {
        lemma_same_args(run, k);
    }
}

/// The settings stay the same from request to request.
proof fn lemma_same_args(run: Seq<ClientFactory>, k: int)
    requires
        is_request_run(run),
        0 <= k < run.len(),
    ensures
        run[k].args() == run[0].args(),
    decreases run.len(),
{
    if run.len() > 1 {
        let shorter = run.drop_last();
        if k < run.len() - 1 {
            lemma_same_args(shorter, k);
            assert(shorter[k] == run[k]);
        } else {
            lemma_same_args(shorter, k - 1);
            assert(shorter[k - 1] == run[k - 1]);
        }
    }
}

/// How the turns follow on one another.
proof fn lemma_turns(run: Seq<ClientFactory>, i: int)
    requires
        is_request_run(run),
        0 <= i < run.len(),
        run[0].wf(),
        run[0].args().ua_rotate,
    ensures
        run[i].turn() == (run[0].turn() + i) % BROWSER_UA_COUNT as int,
        run[i].args() == run[0].args(),
        run[i].shared_client() == run[0].shared_client(),
    decreases run.len(),
{
    if run.len() > 1 {
        let shorter = run.drop_last();
        if i < run.len() - 1 {
            lemma_turns(shorter, i);
            assert(shorter[i] == run[i]);
        } else {
            lemma_turns(shorter, i - 1);
            assert(shorter[i - 1] == run[i - 1]);
        }
    }
}

/// The name of an extra header, in lower case.
pub open spec fn line_name(line: Seq<char>) -> Seq<char> {
    match split_once(line, ':') {
        Some((before, after)) => lower(trim(before, CharClass::Space)),
        None => Seq::empty(),
    }
}

/// The value of an extra header.
pub open spec fn line_value(line: Seq<char>) -> Seq<u8> {
    match split_once(line, ':') {
        Some((before, after)) => encode_utf8(trim(after, CharClass::Space)),
        None => Seq::empty(),
    }
}

/// An extra header takes the place of what came before it under its name, be it a
/// common header or an earlier extra one: the last of a name is the one that is
/// sent.
pub proof fn law_last_header_wins(
    ua: Seq<char>,
    referer: Option<Seq<char>>,
    lines: Seq<Seq<char>>,
    i: int,
)
    requires
        request_entries(ua, referer, lines) is Ok,
        0 <= i < lines.len(),
        forall|j: int|
            i < j < lines.len() ==> line_name(#[trigger] lines[j]) != line_name(lines[i]),
    ensures
        ({
            let entries = request_entries(ua, referer, lines)->Ok_0;
            &&& entries.contains_key(line_name(lines[i]))
            &&& entries[line_name(lines[i])] == line_value(lines[i])
        }),
    decreases lines.len(),
{
    let before = lines.drop_last();
    if i < before.len() {
        assert forall|j: int| i < j < before.len() implies line_name(#[trigger] before[j])
            != line_name(before[i]) by {
            assert(before[j] == lines[j]);
        }
        law_last_header_wins(ua, referer, before, i);
        assert(line_name(lines[lines.len() - 1]) != line_name(lines[i]));
    }
}

/// The client is set up as the settings of a run say: with their timeouts, of at least one
/// second each, for ten redirects, without delay on its sockets, and with the protocol,
/// the checks of certificates and the proxy that they ask for.
pub proof fn law_client_follows_settings(args: Args)
    ensures
        ({
            let set_up = ClientSettings::asked_by(args)@;
            &&& args.timeout_secs >= 1 ==> set_up.timeout_secs == args.timeout_secs
            &&& args.timeout_secs == 0 ==> set_up.timeout_secs == 1
            &&& args.connect_timeout_secs >= 1 ==> set_up.connect_timeout_secs
                == args.connect_timeout_secs
            &&& args.connect_timeout_secs == 0 ==> set_up.connect_timeout_secs == 1
            &&& set_up.redirects == 10
            &&& set_up.tcp_nodelay
            &&& set_up.http1_only == args.http1
            &&& set_up.accept_invalid_certs == args.insecure
            &&& args.proxy is None ==> set_up.proxy is None
            &&& args.proxy matches Some(url) ==> set_up.proxy == Some(url@)
        }),
{
}

/// The cookies of a run are those that it spells out and those of its jar. What is wrong
/// with either is told, first what is wrong with those that are spelt out.
pub proof fn law_cookies_of_run(
    r: Result<(Vec<Cookie>, Vec<Cookie>), ClientError>,
    args: Args,
    jar: Option<Result<String, String>>,
    now: u64,
)
    requires
        are_cookies(r, args, jar, now),
    ensures
        args.cookie is None && jar is None ==> r is Ok && r->Ok_0.0@.len() == 0
            && r->Ok_0.1@.len() == 0,
        r matches Ok((raw, kept)) ==> {
            &&& args.cookie is None ==> raw@.len() == 0
            &&& args.cookie matches Some(s) ==> read_pairs(split(s@, CharClass::Semicolon)) == Ok::<
                Seq<CookieView>,
                Seq<char>,
            >(cookie_views(raw@))
            &&& jar is None ==> kept@.len() == 0
            &&& jar matches Some(content) ==> content is Ok && read_jar(
                split(content->Ok_0@, CharClass::LineFeed),
                now,
            ) == Ok::<Seq<CookieView>, (nat, nat)>(cookie_views(kept@))
        },
        args.cookie matches Some(s) ==> (read_pairs(split(s@, CharClass::Semicolon)) matches Err(
            pair,
        ) ==> (r matches Err(ClientError::Cookie(e)) && e.pair@ == pair)),
        args.cookie is None ==> (jar matches Some(Err(why)) ==> r is Err && r->Err_0
            == ClientError::ReadJar(why)),
        args.cookie is None ==> (jar matches Some(Ok(content)) ==> {
            let kept = read_jar(split(content@, CharClass::LineFeed), now);
            &&& r is Ok <==> kept is Ok
            &&& r is Err ==> r->Err_0 is Jar
        }),
{
    if args.cookie is None && r is Ok {
        assert(cookie_views(r->Ok_0.0@).len() == r->Ok_0.0@.len());
    }
}

/// What every request holds: its User-Agent, the kinds of content and the languages that
/// it accepts, the referer where one is set, and nothing else. A User-Agent or a referer
/// that cannot be the value of a header is refused.
pub proof fn law_common_headers_are_sent(ua: Seq<char>, referer: Option<Seq<char>>)
    ensures
        ({
            let r = request_entries(ua, referer, Seq::empty());
            let fits = referer matches Some(url) ==> is_header_value(encode_utf8(url));
            &&& is_header_value(encode_utf8(ua)) && fits <==> r is Ok
            &&& !is_header_value(encode_utf8(ua)) ==> r->Err_0 == (PrepareErrorView::UserAgent {
                error: "failed to parse header value"@,
            })
            &&& is_header_value(encode_utf8(ua)) && !fits ==> r->Err_0 == (
            PrepareErrorView::Referer {
                referer: referer->0,
                error: "failed to parse header value"@,
            })
            &&& r is Ok ==> {
                let entries = r->Ok_0;
                &&& entries.contains_key("user-agent"@) && entries["user-agent"@] == encode_utf8(ua)
                &&& entries.contains_key("accept"@) && entries["accept"@] == encode_utf8(
                    "image/avif,image/webp,image/apng,image/svg+xml,image/*,*/*;q=0.8"@,
                )
                &&& entries.contains_key("accept-language"@) && entries["accept-language"@]
                    == encode_utf8("en-US,en;q=0.9"@)
                &&& entries.contains_key("referer"@) <==> referer is Some
                &&& referer matches Some(url) ==> entries["referer"@] == encode_utf8(url)
                &&& forall|name: Seq<char>| #[trigger]
                    entries.contains_key(name) ==> name == "user-agent"@ || name == "accept"@
                        || name == "accept-language"@ || name == "referer"@
            }
        }),
{
    reveal_strlit("user-agent");
    reveal_strlit("accept");
    reveal_strlit("accept-language");
    reveal_strlit("referer");
    assert("user-agent"@.len() == 10);
    assert("accept"@.len() == 6);
    assert("accept-language"@.len() == 15);
    assert("referer"@.len() == 7);
}

/// What an extra header does: what stands before its first colon is its name, whatever the
/// case of its letters, and what follows is its value, both without the blanks around
/// them. It takes the place of what the name had, and touches no other. A line without a
/// colon, and what cannot be a name or a value, is refused.
pub proof fn law_extra_header_is_sent(
    start: Result<Map<Seq<char>, Seq<u8>>, PrepareErrorView>,
    lines: Seq<Seq<char>>,
    before: Seq<char>,
    after: Seq<char>,
)
    requires
        with_headers(start, lines) is Ok,
        forall|i: int| 0 <= i < before.len() ==> #[trigger] before[i] != ':',
    ensures
        ({
            let entries = with_headers(start, lines)->Ok_0;
            let name = trim(before, CharClass::Space);
            let value = encode_utf8(trim(after, CharClass::Space));
            let r = with_headers(start, lines.push(before.push(':') + after));
            &&& r is Ok <==> is_header_name(name) && is_header_value(value)
            &&& r is Ok ==> r->Ok_0 == entries.insert(lower(name), value)
            &&& !is_header_name(name) ==> r->Err_0 == (PrepareErrorView::Name {
                name: before,
                error: "invalid HTTP header name"@,
            })
            &&& is_header_name(name) && !is_header_value(value) ==> r->Err_0 == (
            PrepareErrorView::Value { name: lower(name), error: "failed to parse header value"@ })
            &&& with_headers(start, lines.push(before)) == Err::<
                Map<Seq<char>, Seq<u8>>,
                PrepareErrorView,
            >(PrepareErrorView::Shape { header: before })
        }),
{
    law_split_once_cuts_at_first(before, ':', after);
    let line = before.push(':') + after;
    assert(lines.push(line).drop_last() =~= lines);
    assert(lines.push(before).drop_last() =~= lines);
}

/// Once a header cannot be sent, neither can the request, whatever follows.
pub proof fn law_bad_header_spoils_request(
    start: Result<Map<Seq<char>, Seq<u8>>, PrepareErrorView>,
    lines: Seq<Seq<char>>,
    line: Seq<char>,
)
    requires
        with_headers(start, lines) is Err,
    ensures
        with_headers(start, lines.push(line)) == with_headers(start, lines),
{
    assert(lines.push(line).drop_last() =~= lines);
}

/// From request to request the settings, the cookies and the client stay the same.
pub proof fn law_factory_stays(before: ClientFactory, after: ClientFactory)
    requires
        after.follows(before),
    ensures
        after.args() == before.args(),
        after.raw() == before.raw(),
        after.jar() == before.jar(),
        after.shared_client() == before.shared_client(),
        0 <= after.turn() < 6,
{
}

/// What the user reads where there is no client.
pub proof fn law_client_error_tells_cause(
    e: ClientError,
    jar: Seq<char>,
)
    ensures
        match e {
            ClientError::Cookie(c) => e.message(jar) == "malformed cookie pair: "@ + quoted_text(
                c.pair@,
            ),
            ClientError::ReadJar(why) => e.message(jar) == "failed to read cookie jar "@ + jar
                + ": "@ + why@,
            ClientError::Jar(j) => e.message(jar) == "cookie jar "@ + jar + " line "@ + decimal(
                j.line as nat,
            ) + ": expected 7 tab-separated columns, got "@ + decimal(j.columns as nat),
            ClientError::Proxy { url, error } => e.message(jar) == "invalid proxy URL "@
                + quoted_text(url@) + ": "@ + error@,
            ClientError::Build(why) => e.message(jar) == "failed to build HTTP client: "@ + why@,
        },
{
}

/// The set-up that is asked for, as it comes out.
pub proof fn law_settings_are_asked_for(args: Args, r: ClientSettings)
    requires
        call_ensures(ClientSettings::new, (&args,), r),
    ensures
        r.timeout_secs >= 1 && (args.timeout_secs >= 1 ==> r.timeout_secs == args.timeout_secs),
        r.connect_timeout_secs >= 1 && (args.connect_timeout_secs >= 1 ==> r.connect_timeout_secs
            == args.connect_timeout_secs),
        r.redirects == 10 && r.tcp_nodelay,
        r.http1_only == args.http1 && r.accept_invalid_certs == args.insecure,
        r.proxy == args.proxy,
{
}

/// A request without extra headers carries its User-Agent and what it accepts, and the
/// referer if and only if one is set.
pub proof fn law_request_carries_common_headers(
    ua: &str,
    referer: Option<String>,
    lines: Vec<String>,
    r: Result<HeaderMap, PrepareError>,
)
    requires
        call_ensures(request_headers, (ua, &referer, &lines), r),
        lines@.len() == 0,
    ensures
        r matches Ok(headers) ==> {
            let entries = header_entries(headers);
            &&& entries.contains_key("user-agent"@) && entries["user-agent"@] == encode_utf8(ua@)
            &&& entries.contains_key("accept"@) && entries["accept"@] == encode_utf8(
                "image/avif,image/webp,image/apng,image/svg+xml,image/*,*/*;q=0.8"@,
            )
            &&& entries.contains_key("accept-language"@) && entries["accept-language"@]
                == encode_utf8("en-US,en;q=0.9"@)
            &&& entries.contains_key("referer"@) <==> referer is Some
            &&& referer matches Some(url) ==> entries["referer"@] == encode_utf8(url@)
        },
        r is Ok <==> is_header_value(encode_utf8(ua@)) && (referer matches Some(url)
            ==> is_header_value(encode_utf8(url@))),
{
    law_common_headers_are_sent(ua@, opt_text(referer));
    assert(texts(lines@) =~= Seq::empty());
}

/// What the user reads where a request could not be put together.
pub proof fn law_prepare_error_tells_cause(e: PrepareError)
    ensures
        match e {
            PrepareError::UserAgent { error } => e.message() == "invalid user agent: "@ + error@,
            PrepareError::Referer { referer, error } => e.message() == "invalid referer "@
                + quoted_text(referer@) + ": "@ + error@,
            PrepareError::Shape { header } => e.message()
                == "header must be \"Name: value\", got "@ + quoted_text(header@),
            PrepareError::Name { name, error } => e.message() == "invalid header name "@
                + quoted_text(name@) + ": "@ + error@,
            PrepareError::Value { name, error } => e.message() == "invalid header value for "@
                + name@ + ": "@ + error@,
            PrepareError::TooMany => e.message() == "too many headers"@,
        },
{
}

/// No proxy is a usable one, and a proxy is usable if and only if its URL is that of a
/// proxy. The error for one that is not names it.
pub proof fn law_proxy_must_be_one(proxy: Option<String>, e: ClientError)
    ensures
        has_usable_proxy(None),
        proxy matches Some(url) ==> (has_usable_proxy(proxy) <==> is_proxy_url(url@)),
        is_proxy_error(e, proxy) ==> e is Proxy && proxy is Some && e->url@ == proxy->0@
            && e->Proxy_error@ == "builder error"@,
{
}

/// The cookies of a run, as they come out: none where none are set, and never those of a
/// jar that could not be read.
pub proof fn law_loaded_cookies(
    args: Args,
    jar: Option<Result<String, String>>,
    now: u64,
    r: Result<(Vec<Cookie>, Vec<Cookie>), ClientError>,
)
    requires
        call_ensures(load_cookies, (&args, jar, now), r),
    ensures
        args.cookie is None && jar is None ==> r is Ok && r->Ok_0.0@.len() == 0
            && r->Ok_0.1@.len() == 0,
        jar is None && r is Err ==> r->Err_0 is Cookie,
        jar matches Some(Err(why)) ==> r is Err && (r->Err_0 is Cookie || r->Err_0
            == ClientError::ReadJar(why)),
        r is Ok && jar is Some ==> jar->0 is Ok && r->Ok_0.1@.len() == split(
            jar->0->Ok_0@,
            CharClass::LineFeed,
        ).filter(|raw: Seq<char>| is_live_entry(raw, now)).len(),
{
    law_cookies_of_run(r, args, jar, now);
    if r is Ok && jar is Some {
        law_every_live_entry_counts(split(jar->0->Ok_0@, CharClass::LineFeed), now);
        law_cookie_views(r->Ok_0.1@);
    }
}

/// Texts and errors are told as they are.
pub proof fn law_client_views(settings: ClientSettings, e: PrepareError, text: Option<String>)
    ensures
        settings@.timeout_secs == settings.timeout_secs,
        settings@.connect_timeout_secs == settings.connect_timeout_secs,
        settings@.redirects == settings.redirects,
        settings@.tcp_nodelay == settings.tcp_nodelay,
        settings@.http1_only == settings.http1_only,
        settings@.accept_invalid_certs == settings.accept_invalid_certs,
        settings@.proxy == opt_text(settings.proxy),
        text is None <==> opt_text(text) is None,
        text matches Some(s) ==> opt_text(text) == Some(s@),
        match e {
            PrepareError::UserAgent { error } => e@ == (PrepareErrorView::UserAgent {
                error: error@,
            }),
            PrepareError::Referer { referer, error } => e@ == (PrepareErrorView::Referer {
                referer: referer@,
                error: error@,
            }),
            PrepareError::Shape { header } => e@ == (PrepareErrorView::Shape { header: header@ }),
            PrepareError::Name { name, error } => e@ == (PrepareErrorView::Name {
                name: name@,
                error: error@,
            }),
            PrepareError::Value { name, error } => e@ == (PrepareErrorView::Value {
                name: name@,
                error: error@,
            }),
            PrepareError::TooMany => e@ is TooMany,
        },
{
}

/// The User-Agent of a request is the one whose turn it is, or the one that is set, or the
/// default; and the next request finds the factory as it was, but for the turn.
pub proof fn law_next_ua_takes_turns(r: String)
    ensures
        forall|factory: &mut ClientFactory| #[trigger]
            call_ensures(ClientFactory::next_ua, (factory,), r) ==> r@ == (*factory).agent() && (
            *final(factory)).follows(*factory),
        forall|factory: &mut ClientFactory|
            (*factory).wf() && (*factory).args().ua_rotate && #[trigger] call_ensures(
                ClientFactory::next_ua,
                (factory,),
                r,
            ) ==> r@ == browser_ua_text((*factory).turn()) && (*final(factory)).turn() == if (
            *factory).turn() == 5 {
                0
            } else {
                (*factory).turn() + 1
            },
        forall|factory: &mut ClientFactory|
            !(*factory).args().ua_rotate && #[trigger] call_ensures(
                ClientFactory::next_ua,
                (factory,),
                r,
            ) ==> ((*factory).args().user_agent matches Some(ua) ==> r@ == ua@),
{
}

} // verus!
