//! Cookie support: raw `Cookie: ...` strings and Netscape-format cookie jars
//! (the same format curl/aria2c use with `-b`/`--load-cookies`).

use vstd::prelude::*;

use crate::clock::{secs_of, unix_nanos};
use crate::numbers::{parse_signed, read_signed};
use crate::text::{
    chars_of, ends_with, first_index, halves_of, is_bare, join_all, law_joined_pieces_split,
    law_split_once_cuts_at_first, lemma_first_index, lemma_join_push, lemma_split_pieces,
    lemma_split_push, lemma_split_whole, lemma_trim, lemma_trim_bare, pieces_of, same_chars,
    slice_chars, split, split_once, starts_with, text_of, trim, trim_start, trimmed, trimmed_start,
    views, words, words_of, CharClass,
};

verus! {

/// One parsed cookie from a Netscape jar.
#[derive(Debug, Clone)]
pub struct Cookie {
    pub name: String,
    pub value: String,
    pub path: Option<String>,
    pub domain: Option<String>,
}

/// A cookie, as text.
pub struct CookieView {
    pub name: Seq<char>,
    pub value: Seq<char>,
    pub path: Option<Seq<char>>,
    pub domain: Option<Seq<char>>,
}

impl View for Cookie {
    type V = CookieView;

    open spec fn view(&self) -> CookieView {
        CookieView {
            name: self.name@,
            value: self.value@,
            path: match self.path {
                Some(p) => Some(p@),
                None => None,
            },
            domain: match self.domain {
                Some(d) => Some(d@),
                None => None,
            },
        }
    }
}

/// The cookies of a list, as text.
pub open spec fn cookie_views(v: Seq<Cookie>) -> Seq<CookieView> {
    v.map_values(|c: Cookie| c@)
}

/// Whether a host is the domain or one of its subdomains. A dot that the
/// domain starts with does not count.
pub open spec fn in_domain(host: Seq<char>, domain: Seq<char>) -> bool {
    let d = trim_start(domain, CharClass::Dot);
    host == d || (seq!['.'] + d).is_suffix_of(host)
}

impl CookieView {
    /// Whether the cookie applies to a host: it is bound to no domain, or the
    /// host belongs to its domain.
    pub open spec fn applies_to(self, host: Seq<char>) -> bool {
        match self.domain {
            None => true,
            Some(d) => in_domain(host, d),
        }
    }

    /// The pair that the cookie puts into a header.
    pub open spec fn pair(self) -> Seq<char> {
        self.name + "="@ + self.value
    }
}

impl Cookie {
    /// Does this cookie apply to the given URL's host?
    pub fn matches_host(&self, host: &str) -> (r: bool)
        ensures
            r == self@.applies_to(host@),
    {
        match &self.domain {
            None => true,
            Some(d) => {
                let h = chars_of(host);
                let all = chars_of(d.as_str());
                let bare = trimmed_start(&all, CharClass::Dot);
                if same_chars(&h, &bare) {
                    return true;
                }
                let mut dotted: Vec<char> = Vec::new();
                dotted.push('.');
                let mut i: usize = 0;
                assert(dotted@ =~= seq!['.'] + bare@.take(0));
                while i < bare.len()
                    invariant
                        i <= bare@.len(),
                        dotted@ == seq!['.'] + bare@.take(i as int),
                    decreases bare@.len() - i,
                {
                    dotted.push(bare[i]);
                    assert(seq!['.'] + bare@.take(i + 1) =~= (seq!['.'] + bare@.take(
                        i as int,
                    )).push(bare@[i as int]));
                    i = i + 1;
                }
                assert(bare@.take(i as int) =~= bare@);
                ends_with(&h, &dotted)
            },
        }
    }
}

// ---------------------------------------------------------------------------
// Cookie strings
// ---------------------------------------------------------------------------

/// What one piece of a cookie string adds: nothing where it is blank, a cookie
/// where it holds a name, an equals sign and a value; else the piece is
/// malformed.
pub open spec fn read_pair(piece: Seq<char>) -> Result<Option<CookieView>, Seq<char>> {
    let part = trim(piece, CharClass::Space);
    if part.len() == 0 {
        Ok(None)
    } else {
        match split_once(part, '=') {
            Some((name, value)) => Ok(
                Some(
                    CookieView {
                        name: trim(name, CharClass::Space),
                        value: trim(value, CharClass::Space),
                        path: None,
                        domain: None,
                    },
                ),
            ),
            None => Err(part),
        }
    }
}

/// The cookies that the pieces spell, or the first malformed piece.
pub open spec fn read_pairs(pieces: Seq<Seq<char>>) -> Result<Seq<CookieView>, Seq<char>>
    decreases pieces.len(),
{
    if pieces.len() == 0 {
        Ok(Seq::empty())
    } else {
        match read_pairs(pieces.drop_last()) {
            Ok(cookies) => match read_pair(pieces.last()) {
                Ok(Some(c)) => Ok(cookies.push(c)),
                Ok(None) => Ok(cookies),
                Err(e) => Err(e),
            },
            Err(e) => Err(e),
        }
    }
}

/// A malformed piece spoils the whole list.
proof fn lemma_read_pairs_error(pieces: Seq<Seq<char>>, k: int)
    requires
        0 <= k <= pieces.len(),
        read_pairs(pieces.take(k)) is Err,
    ensures
        read_pairs(pieces) == read_pairs(pieces.take(k)),
    decreases pieces.len() - k,
{
    if k < pieces.len() {
        assert(pieces.take(k + 1).drop_last() =~= pieces.take(k));
        lemma_read_pairs_error(pieces, k + 1);
    } else {
        assert(pieces.take(k) =~= pieces);
    }
}

/// The error for a piece of a cookie string without an equals sign.
#[derive(Debug)]
pub struct CookieError {
    /// The malformed piece, without the blanks around it.
    pub pair: String,
}

/// Parse a raw `Cookie:` header value (e.g. `session=abc; theme=dark`).
pub fn parse_cookie_string(s: &str) -> (r: Result<Vec<Cookie>, CookieError>)
    ensures
        match read_pairs(split(s@, CharClass::Semicolon)) {
            Ok(cookies) => r matches Ok(v) && cookie_views(v@) == cookies,
            Err(pair) => r matches Err(e) && e.pair@ == pair,
        },
{
    let v = chars_of(s);
    let pieces = pieces_of(&v, CharClass::Semicolon);
    let ghost all = views(pieces@);
    let mut out: Vec<Cookie> = Vec::new();
    let mut i: usize = 0;
    assert(all.take(0) =~= Seq::empty());
    assert(cookie_views(out@) =~= Seq::empty());
    while i < pieces.len()
        invariant
            i <= pieces@.len(),
            all == views(pieces@),
            all == split(s@, CharClass::Semicolon),
            read_pairs(all.take(i as int)) == Ok::<Seq<CookieView>, Seq<char>>(
                cookie_views(out@),
            ),
        decreases pieces@.len() - i,
    {
        assert(all.take(i + 1).drop_last() =~= all.take(i as int));
        assert(all.take(i + 1).last() == pieces@[i as int]@);
        let part = trimmed(&pieces[i], CharClass::Space);
        if part.len() > 0 {
            match halves_of(&part, '=') {
                Some((name, value)) => {
                    let name = trimmed(&name, CharClass::Space);
                    let value = trimmed(&value, CharClass::Space);
                    let ghost earlier = out@;
                    let cookie = Cookie {
                        name: text_of(&name),
                        value: text_of(&value),
                        path: None,
                        domain: None,
                    };
                    out.push(cookie);
                    assert(cookie_views(out@) =~= cookie_views(earlier).push(cookie@));
                },
                None => {
                    proof {
                        lemma_read_pairs_error(all, i + 1);
                    }
                    return Err(CookieError { pair: text_of(&part) });
                },
            }
        }
        i = i + 1;
    }
    assert(all.take(i as int) =~= all);
    Ok(out)
}

// ---------------------------------------------------------------------------
// Cookie jars
// ---------------------------------------------------------------------------

/// How many columns an entry of a jar has.
pub const JAR_COLUMNS: usize = 7;

/// Whether a line of a jar says nothing: it is blank, or a comment. What
/// follows the marker `#HttpOnly_` is an entry and no comment.
pub open spec fn is_jar_comment(line: Seq<char>) -> bool {
    line.len() == 0 || (line[0] == '#' && !"#HttpOnly_"@.is_prefix_of(line))
}

/// The columns of an entry: what tabs separate, or, where that is too little,
/// what white space separates.
pub open spec fn jar_columns(line: Seq<char>) -> Seq<Seq<char>> {
    if split(line, CharClass::Tab).len() >= JAR_COLUMNS {
        split(line, CharClass::Tab)
    } else {
        words(line)
    }
}

/// A domain column without the marker for cookies that scripts cannot read.
pub open spec fn jar_domain(column: Seq<char>) -> Seq<char> {
    if "#HttpOnly_"@.is_prefix_of(column) {
        column.skip("#HttpOnly_"@.len() as int)
    } else {
        column
    }
}

/// The cookie of an entry, unless it has expired at the time `now`. A session
/// cookie, whose expiry is zero or no number, never expires.
pub open spec fn jar_cookie(columns: Seq<Seq<char>>, now: u64) -> Option<CookieView> {
    let expiry = match parse_signed(columns[4]) {
        Some(t) => t,
        None => 0,
    };
    if expiry != 0 && expiry < now {
        None
    } else {
        Some(
            CookieView {
                name: columns[5],
                value: columns[6],
                path: Some(columns[2]),
                domain: Some(jar_domain(columns[0])),
            },
        )
    }
}

/// What a line of a jar adds: nothing, a cookie, or, where it has too few
/// columns, the error with the number of columns that tabs separate.
pub open spec fn read_jar_line(raw: Seq<char>, now: u64) -> Result<Option<CookieView>, nat> {
    let line = trim(raw, CharClass::Space);
    if is_jar_comment(line) {
        Ok(None)
    } else if jar_columns(line).len() < JAR_COLUMNS {
        Err(split(line, CharClass::Tab).len())
    } else {
        Ok(jar_cookie(jar_columns(line), now))
    }
}

/// The cookies of a jar, or the number of the first bad line, counted from
/// one, and of its columns.
pub open spec fn read_jar(lines: Seq<Seq<char>>, now: u64) -> Result<Seq<CookieView>, (nat, nat)>
    decreases lines.len(),
{
    if lines.len() == 0 {
        Ok(Seq::empty())
    } else {
        match read_jar(lines.drop_last(), now) {
            Ok(cookies) => match read_jar_line(lines.last(), now) {
                Ok(Some(c)) => Ok(cookies.push(c)),
                Ok(None) => Ok(cookies),
                Err(columns) => Err((lines.len(), columns)),
            },
            Err(e) => Err(e),
        }
    }
}

/// A bad line spoils the whole jar.
proof fn lemma_read_jar_error(lines: Seq<Seq<char>>, now: u64, k: int)
    requires
        0 <= k <= lines.len(),
        read_jar(lines.take(k), now) is Err,
    ensures
        read_jar(lines, now) == read_jar(lines.take(k), now),
    decreases lines.len() - k,
{
    if k < lines.len() {
        assert(lines.take(k + 1).drop_last() =~= lines.take(k));
        lemma_read_jar_error(lines, now, k + 1);
    } else {
        assert(lines.take(k) =~= lines);
    }
}

/// The error for a line of a jar with too few columns.
#[derive(Debug)]
pub struct JarError {
    /// The number of the line, counted from one.
    pub line: usize,
    /// How many columns the line has, separated by tabs.
    pub columns: usize,
}

/// The cookie of an entry, unless it has expired.
fn parse_netscape_cols(cols: &Vec<Vec<char>>, now: u64) -> (r: Option<Cookie>)
    requires
        cols@.len() >= JAR_COLUMNS,
    ensures
        match jar_cookie(views(cols@), now) {
            Some(c) => r matches Some(cookie) && cookie@ == c,
            None => r is None,
        },
{
    let expiry: i64 = match read_signed(&cols[4]) {
        Some(t) => t,
        None => 0,
    };
    // Drop expired cookies (expiry == 0 means session cookie, keep it).
    if expiry < 0 || (expiry > 0 && (expiry as u64) < now) {
        return None;
    }
    let marker = chars_of("#HttpOnly_");
    let domain = if starts_with(&cols[0], "#HttpOnly_") {
        let len: usize = cols[0].len();
        let d = slice_chars(&cols[0], marker.len(), len);
        assert(d@ =~= cols@[0]@.skip(marker@.len() as int));
        text_of(&d)
    } else {
        text_of(&cols[0])
    };
    Some(
        Cookie {
            name: text_of(&cols[5]),
            value: text_of(&cols[6]),
            path: Some(text_of(&cols[2])),
            domain: Some(domain),
        },
    )
}

/// Whether a result is what a jar holds at a moment.
pub open spec fn is_jar_reading(
    r: Result<Vec<Cookie>, JarError>,
    content: Seq<char>,
    now: u64,
) -> bool {
    match read_jar(split(content, CharClass::LineFeed), now) {
        Ok(cookies) => r matches Ok(v) && cookie_views(v@) == cookies,
        Err((line, columns)) => r matches Err(e) && e.line == line && e.columns == columns,
    }
}

/// Parse the content of a Netscape-format cookie jar, as of the time `now` in
/// seconds since the epoch. Lines starting with `#` are comments (except
/// `#HttpOnly_`, which is a real entry marker). Column layout: domain,
/// include_subdomains, path, secure, expiry_epoch, name, value.
pub fn parse_netscape_jar_at(content: &str, now: u64) -> (r: Result<Vec<Cookie>, JarError>)
    ensures
        is_jar_reading(r, content@, now),
{
    let v = chars_of(content);
    let lines = pieces_of(&v, CharClass::LineFeed);
    let ghost all = views(lines@);
    let mut out: Vec<Cookie> = Vec::new();
    let mut i: usize = 0;
    assert(all.take(0) =~= Seq::empty());
    assert(cookie_views(out@) =~= Seq::empty());
    while i < lines.len()
        invariant
            i <= lines@.len(),
            all == views(lines@),
            all == split(content@, CharClass::LineFeed),
            read_jar(all.take(i as int), now) == Ok::<Seq<CookieView>, (nat, nat)>(
                cookie_views(out@),
            ),
        decreases lines@.len() - i,
    {
        assert(all.take(i + 1).drop_last() =~= all.take(i as int));
        assert(all.take(i + 1).last() == lines@[i as int]@);
        let line = trimmed(&lines[i], CharClass::Space);
        if line.len() > 0 && (line[0] != '#' || starts_with(&line, "#HttpOnly_")) {
            let tabbed = pieces_of(&line, CharClass::Tab);
            let columns: usize = tabbed.len();
            assert(views(tabbed@).len() == columns);
            let cols = if columns < JAR_COLUMNS {
                // Some jars separate with spaces; try that before giving up.
                words_of(&line)
            } else {
                tabbed
            };
            assert(views(cols@) == jar_columns(line@));
            assert(views(cols@).len() == cols@.len());
            if cols.len() < JAR_COLUMNS {
                proof {
                    lemma_read_jar_error(all, now, i + 1);
                }
                return Err(JarError { line: i + 1, columns });
            }
            let ghost earlier = out@;
            if let Some(cookie) = parse_netscape_cols(&cols, now) {
                out.push(cookie);
                assert(cookie_views(out@) =~= cookie_views(earlier).push(cookie@));
            }
        }
        i = i + 1;
    }
    assert(all.take(i as int) =~= all);
    Ok(out)
}

/// Parse the content of a Netscape-format cookie jar, as of now.
pub fn parse_netscape_jar(content: &str) -> (r: Result<Vec<Cookie>, JarError>)
    ensures
        exists|now: u64| is_jar_reading(r, content@, now),
{
    let now: u64 = secs_of(unix_nanos());
    parse_netscape_jar_at(content, now)
}

// ---------------------------------------------------------------------------
// Cookie headers
// ---------------------------------------------------------------------------

/// The pairs that cookies put into a header.
pub open spec fn pairs(cookies: Seq<CookieView>) -> Seq<Seq<char>> {
    cookies.map_values(|c: CookieView| c.pair())
}

/// The cookies that apply to a host.
pub open spec fn applying(cookies: Seq<CookieView>, host: Seq<char>) -> Seq<CookieView> {
    cookies.filter(|c: CookieView| c.applies_to(host))
}

/// The pairs of a `Cookie:` header: all raw cookies, then those of the jar
/// that apply to the host, each in their order.
pub open spec fn header_pairs(
    raw: Seq<CookieView>,
    jar: Seq<CookieView>,
    host: Seq<char>,
) -> Seq<Seq<char>> {
    pairs(raw) + pairs(applying(jar, host))
}

/// Appends the pair of a cookie to a header that holds `count` pairs.
fn push_pair(out: &mut String, count: usize, c: &Cookie, Ghost(parts): Ghost<Seq<Seq<char>>>)
    requires
        old(out)@ == join_all(parts, "; "@),
        count > 0 <==> parts.len() > 0,
    ensures
        final(out)@ == join_all(parts.push(c@.pair()), "; "@),
{
    if count > 0 {
        out.append("; ");
    }
    out.append(c.name.as_str());
    out.append("=");
    out.append(c.value.as_str());
    proof {
        lemma_join_push(parts, c@.pair(), "; "@);
        assert(out@ =~= join_all(parts.push(c@.pair()), "; "@));
    }
}

/// Build a `Cookie:` header value from raw string cookies plus jar cookies
/// that match the target host.
pub fn build_cookie_header(raw: &[Cookie], jar: &[Cookie], host: &str) -> (r: Option<String>)
    ensures
        ({
            let list = header_pairs(cookie_views(raw@), cookie_views(jar@), host@);
            if list.len() == 0 {
                r is None
            } else {
                r matches Some(h) && h@ == join_all(list, "; "@)
            }
        }),
{
    let mut out = String::new();
    let mut any: usize = 0;
    let mut i: usize = 0;
    let ghost raws = cookie_views(raw@);
    let ghost jars = cookie_views(jar@);
    assert(pairs(raws.take(0)) =~= Seq::empty());
    while i < raw.len()
        invariant
            i <= raw@.len(),
            raws == cookie_views(raw@),
            out@ == join_all(pairs(raws.take(i as int)), "; "@),
            any > 0 <==> i > 0,
        decreases raw@.len() - i,
    {
        push_pair(&mut out, any, &raw[i], Ghost(pairs(raws.take(i as int))));
        assert(pairs(raws.take(i + 1)) =~= pairs(raws.take(i as int)).push(
            raw@[i as int]@.pair(),
        ));
        any = 1;
        i = i + 1;
    }
    assert(raws.take(i as int) =~= raws);
    let ghost keep = |c: CookieView| c.applies_to(host@);
    let mut k: usize = 0;
    proof {
        reveal(Seq::filter);
        assert(jars.take(0).filter(keep) =~= Seq::empty());
        assert(pairs(raws) + pairs(jars.take(0).filter(keep)) =~= pairs(raws));
    }
    while k < jar.len()
        invariant
            k <= jar@.len(),
            jars == cookie_views(jar@),
            keep == (|c: CookieView| c.applies_to(host@)),
            out@ == join_all(pairs(raws) + pairs(jars.take(k as int).filter(keep)), "; "@),
            any > 0 <==> (pairs(raws) + pairs(jars.take(k as int).filter(keep))).len() > 0,
        decreases jar@.len() - k,
    {
        let ghost before = jars.take(k as int).filter(keep);
        assert(jars.take(k + 1).drop_last() =~= jars.take(k as int));
        assert(jars.take(k + 1).last() == jar@[k as int]@);
        reveal(Seq::filter);
        if jar[k].matches_host(host) {
            push_pair(&mut out, any, &jar[k], Ghost(pairs(raws) + pairs(before)));
            any = 1;
            let ghost c = jar@[k as int]@;
            assert(jars.take(k + 1).filter(keep) =~= before.push(c));
            assert(pairs(raws) + pairs(before.push(c)) =~= (pairs(raws) + pairs(before)).push(
                c.pair(),
            ));
        } else {
            assert(jars.take(k + 1).filter(keep) =~= before);
        }
        k = k + 1;
    }
    assert(jars.take(k as int) =~= jars);
    if any == 0 {
        None
    } else {
        Some(out)
    }
}

// ---------------------------------------------------------------------------
// Laws
// ---------------------------------------------------------------------------

/// Whether a cookie is one that a cookie string can spell.
spec fn is_spelt(c: CookieView) -> bool {
    &&& is_bare(c.name, CharClass::Space)
    &&& is_bare(c.value, CharClass::Space)
    &&& forall|i: int| 0 <= i < c.name.len() ==> #[trigger] c.name[i] != '=' && c.name[i] != ';'
    &&& forall|i: int| 0 <= i < c.value.len() ==> #[trigger] c.value[i] != ';'
    &&& c.path is None
    &&& c.domain is None
}

/// A cookie of a piece without a semicolon is one that a cookie string can spell.
proof fn lemma_read_pair(piece: Seq<char>)
    requires
        forall|i: int| 0 <= i < piece.len() ==> #[trigger] piece[i] != ';',
    ensures
        read_pair(piece) matches Ok(Some(c)) ==> is_spelt(c),
{
    let part = trim(piece, CharClass::Space);
    let from = lemma_trim(piece, CharClass::Space);
    assert forall|i: int| 0 <= i < part.len() implies #[trigger] part[i] != ';' by {
        assert(part[i] == piece[from + i]);
    }
    lemma_first_index(part, '=');
    if let Some(at) = first_index(part, '=') {
        let before = part.take(at);
        let after = part.skip(at + 1);
        let name = trim(before, CharClass::Space);
        let value = trim(after, CharClass::Space);
        let n = lemma_trim(before, CharClass::Space);
        let v = lemma_trim(after, CharClass::Space);
        assert forall|i: int| 0 <= i < name.len() implies #[trigger] name[i] != '=' && name[i]
            != ';' by {
            assert(name[i] == part[n + i]);
        }
        assert forall|i: int| 0 <= i < value.len() implies #[trigger] value[i] != ';' by {
            assert(value[i] == part[at + 1 + v + i]);
        }
    }
}

/// All cookies of pieces without semicolons can be spelt.
proof fn lemma_read_pairs(pieces: Seq<Seq<char>>)
    requires
        forall|i: int, k: int|
            0 <= i < pieces.len() && 0 <= k < pieces[i].len() ==> #[trigger] pieces[i][k] != ';',
    ensures
        read_pairs(pieces) matches Ok(cookies) ==> forall|i: int|
            0 <= i < cookies.len() ==> is_spelt(#[trigger] cookies[i]),
    decreases pieces.len(),
{
    if pieces.len() > 0 {
        let before = pieces.drop_last();
        assert forall|i: int, k: int|
            0 <= i < before.len() && 0 <= k < before[i].len() implies #[trigger] before[i][k]
            != ';' by {
            assert(before[i][k] == pieces[i][k]);
        }
        lemma_read_pairs(before);
        let last = pieces.last();
        assert forall|k: int| 0 <= k < last.len() implies #[trigger] last[k] != ';' by {
            assert(last[k] == pieces[pieces.len() - 1][k]);
        }
        lemma_read_pair(last);
    }
}

/// What a cookie puts into a header reads back, with or without a blank before it.
proof fn lemma_pair_reads_back(c: CookieView)
    requires
        is_spelt(c),
    ensures
        read_pair(c.pair()) == Ok::<Option<CookieView>, Seq<char>>(Some(c)),
        read_pair(seq![' '] + c.pair()) == Ok::<Option<CookieView>, Seq<char>>(Some(c)),
        forall|i: int| 0 <= i < c.pair().len() ==> #[trigger] c.pair()[i] != ';',
{
    reveal_strlit("=");
    let pair = c.pair();
    let n = c.name.len() as int;
    assert(pair[n] == '=');
    assert forall|i: int| 0 <= i < pair.len() implies #[trigger] pair[i] != ';' by {
        if i < n {
            assert(pair[i] == c.name[i]);
        } else if i > n {
            assert(pair[i] == c.value[i - n - 1]);
        }
    }
    if n > 0 {
        assert(pair[0] == c.name[0]);
    }
    if c.value.len() > 0 {
        assert(pair.last() == c.value.last());
    }
    assert(is_bare(pair, CharClass::Space));
    lemma_trim_bare(pair, CharClass::Space);
    let spaced = seq![' '] + pair;
    assert(spaced.drop_first() =~= pair);
    assert(trim_start(spaced, CharClass::Space) == trim_start(pair, CharClass::Space));
    lemma_first_index(pair, '=');
    if let Some(at) = first_index(pair, '=') {
        if at < n {
            assert(pair[at] == c.name[at]);
        }
    }
    assert(first_index(pair, '=') == Some(n));
    assert(pair.take(n) =~= c.name);
    assert(pair.skip(n + 1) =~= c.value);
    lemma_trim_bare(c.name, CharClass::Space);
    lemma_trim_bare(c.value, CharClass::Space);
}

/// A list of cookies reads back from the header that is built of it.
proof fn lemma_pairs_read_back(cookies: Seq<CookieView>)
    requires
        cookies.len() > 0,
        forall|i: int| 0 <= i < cookies.len() ==> is_spelt(#[trigger] cookies[i]),
    ensures
        read_pairs(split(join_all(pairs(cookies), "; "@), CharClass::Semicolon)) == Ok::<
            Seq<CookieView>,
            Seq<char>,
        >(cookies),
    decreases cookies.len(),
{
    reveal_strlit("; ");
    let c = cookies.last();
    assert(is_spelt(cookies[cookies.len() - 1]));
    lemma_pair_reads_back(c);
    let pair = c.pair();
    if cookies.len() == 1 {
        assert(pairs(cookies) =~= seq![pair]);
        lemma_split_whole(pair, CharClass::Semicolon);
        let pieces = seq![pair];
        assert(pieces.drop_last() =~= Seq::empty());
        assert(read_pairs(pieces.drop_last()) == Ok::<Seq<CookieView>, Seq<char>>(Seq::empty()));
        assert(Seq::<CookieView>::empty().push(c) =~= cookies);
    } else {
        let before = cookies.drop_last();
        assert forall|i: int| 0 <= i < before.len() implies is_spelt(#[trigger] before[i]) by {
            assert(before[i] == cookies[i]);
        }
        lemma_pairs_read_back(before);
        let text = join_all(pairs(before), "; "@);
        let spaced = seq![' '] + pair;
        assert(pairs(cookies).drop_last() =~= pairs(before));
        assert(join_all(pairs(cookies), "; "@) =~= text.push(';') + spaced);
        lemma_split_push(text, ';', spaced, CharClass::Semicolon);
        let pieces = split(text, CharClass::Semicolon).push(spaced);
        assert(pieces.drop_last() =~= split(text, CharClass::Semicolon));
        assert(before.push(c) =~= cookies);
    }
}

/// A cookie string reads back from the header that is built of it, whatever the host:
/// the same names and values, in the same order.
pub proof fn law_cookie_string_reads_back(s: Seq<char>, host: Seq<char>)
    ensures
        read_pairs(split(s, CharClass::Semicolon)) matches Ok(cookies) ==> (cookies.len() > 0
            ==> read_pairs(
            split(
                join_all(header_pairs(cookies, Seq::empty(), host), "; "@),
                CharClass::Semicolon,
            ),
        ) == Ok::<Seq<CookieView>, Seq<char>>(cookies)),
{
    lemma_split_pieces(s, CharClass::Semicolon);
    let pieces = split(s, CharClass::Semicolon);
    assert forall|i: int, k: int|
        0 <= i < pieces.len() && 0 <= k < pieces[i].len() implies #[trigger] pieces[i][k]
        != ';' by {
        assert(!CharClass::Semicolon.holds(pieces[i][k]));
    }
    lemma_read_pairs(pieces);
    if let Ok(cookies) = read_pairs(pieces) {
        if cookies.len() > 0 {
            lemma_pairs_read_back(cookies);
            reveal(Seq::filter);
            assert(header_pairs(cookies, Seq::empty(), host) =~= pairs(cookies));
        }
    }
}

/// What a piece of a cookie string adds to the cookies before it, by what is left of it
/// without the blanks around it: nothing, where that is empty; the text before its first
/// equals sign as a name and all that follows as a value. Without an equals sign it
/// spoils the string, and so does the first such piece for all that follow.
pub proof fn law_piece_of_cookie_string(pieces: Seq<Seq<char>>, piece: Seq<char>, at: int)
    ensures
        ({
            let before = read_pairs(pieces);
            let after = read_pairs(pieces.push(piece));
            let text = trim(piece, CharClass::Space);
            &&& read_pairs(Seq::empty()) == Ok::<Seq<CookieView>, Seq<char>>(Seq::empty())
            &&& before is Err ==> after == before
            &&& before is Ok && text.len() == 0 ==> after == before
            &&& before is Ok && text.len() > 0 && (forall|j: int|
                0 <= j < text.len() ==> #[trigger] text[j] != '=') ==> after == Err::<
                Seq<CookieView>,
                Seq<char>,
            >(text)
            &&& before is Ok && 0 <= at < text.len() && text[at] == '=' && (forall|j: int|
                0 <= j < at ==> #[trigger] text[j] != '=') ==> after == Ok::<
                Seq<CookieView>,
                Seq<char>,
            >(
                before->Ok_0.push(
                    CookieView {
                        name: trim(text.subrange(0, at), CharClass::Space),
                        value: trim(
                            text.subrange(at + 1, text.len() as int),
                            CharClass::Space,
                        ),
                        path: None,
                        domain: None,
                    },
                ),
            )
        }),
{
    let text = trim(piece, CharClass::Space);
    assert(pieces.push(piece).drop_last() =~= pieces);
    if forall|j: int| 0 <= j < text.len() ==> #[trigger] text[j] != '=' {
        law_split_once_cuts_at_first(text, '=', Seq::empty());
    }
    if 0 <= at < text.len() && text[at] == '=' && (forall|j: int|
        0 <= j < at ==> #[trigger] text[j] != '=') {
        let name = text.subrange(0, at);
        let value = text.subrange(at + 1, text.len() as int);
        law_split_once_cuts_at_first(name, '=', value);
        assert(name.push('=') + value =~= text);
    }
}

/// Every list of names and values that can be spelt is read from its spelling, in its
/// order and with nothing left out: names without equals signs, names and values without
/// semicolons or blanks around them. Both may be empty.
pub proof fn law_spelt_cookies_are_read(names: Seq<Seq<char>>, values: Seq<Seq<char>>)
    requires
        names.len() == values.len() > 0,
        forall|i: int, k: int|
            0 <= i < names.len() && 0 <= k < names[i].len() ==> #[trigger] names[i][k] != '='
                && names[i][k] != ';',
        forall|i: int, k: int|
            0 <= i < values.len() && 0 <= k < values[i].len() ==> #[trigger] values[i][k] != ';',
        forall|i: int|
            0 <= i < names.len() && (#[trigger] names[i]).len() > 0 ==> !CharClass::Space.holds(
                names[i][0],
            ) && !CharClass::Space.holds(names[i].last()),
        forall|i: int|
            0 <= i < values.len() && (#[trigger] values[i]).len() > 0 ==> !CharClass::Space.holds(
                values[i][0],
            ) && !CharClass::Space.holds(values[i].last()),
    ensures
        read_pairs(
            split(
                join_all(
                    Seq::new(names.len(), |i: int| names[i].push('=') + values[i]),
                    "; "@,
                ),
                CharClass::Semicolon,
            ),
        ) == Ok::<Seq<CookieView>, Seq<char>>(
            Seq::new(
                names.len(),
                |i: int|
                    CookieView { name: names[i], value: values[i], path: None, domain: None },
            ),
        ),
{
    reveal_strlit("=");
    let cookies = Seq::new(
        names.len(),
        |i: int| CookieView { name: names[i], value: values[i], path: None, domain: None },
    );
    assert forall|i: int| 0 <= i < cookies.len() implies is_spelt(#[trigger] cookies[i]) by {
        let c = cookies[i];
        assert(c.name == names[i] && c.value == values[i]);
        assert forall|k: int| 0 <= k < c.name.len() implies #[trigger] c.name[k] != '='
            && c.name[k] != ';' by {
            assert(names[i][k] == c.name[k]);
        }
        assert forall|k: int| 0 <= k < c.value.len() implies #[trigger] c.value[k] != ';' by {
            assert(values[i][k] == c.value[k]);
        }
    }
    lemma_pairs_read_back(cookies);
    let spelt = Seq::new(names.len(), |i: int| names[i].push('=') + values[i]);
    assert forall|i: int| 0 <= i < spelt.len() implies pairs(cookies)[i] == #[trigger] spelt[i] by {
        assert(pairs(cookies)[i] =~= spelt[i]);
    }
    assert(pairs(cookies) =~= spelt);
}

/// An entry of a jar gives a cookie unless its expiry is a number other than zero, and
/// before now. What it gives is made of the columns for domain, path, name and value,
/// whatever the other columns hold; only the marker `#HttpOnly_` before the domain is
/// left out.
pub proof fn law_entry_gives_cookie(columns: Seq<Seq<char>>, now: u64)
    requires
        columns.len() >= 7,
    ensures
        ({
            let expired = parse_signed(columns[4]) matches Some(t) && t != 0 && t < now;
            let marked = columns[0].len() >= 10 && columns[0].subrange(0, 10) == "#HttpOnly_"@;
            &&& jar_cookie(columns, now) is None <==> expired
            &&& !expired ==> jar_cookie(columns, now) == Some(
                CookieView {
                    name: columns[5],
                    value: columns[6],
                    path: Some(columns[2]),
                    domain: Some(
                        if marked {
                            columns[0].skip(10)
                        } else {
                            columns[0]
                        },
                    ),
                },
            )
        }),
{
    reveal_strlit("#HttpOnly_");
}

/// What a line of a jar adds to the cookies before it, by what is left of it without the
/// blanks around it. Nothing, where that is empty or a comment; otherwise it is an entry.
/// Its columns are what tabs separate, or, where these are less than seven, what white
/// space separates; less than seven of these too, and the jar cannot be read. Every
/// entry that has not expired gives one cookie, and one that has expired gives none.
pub proof fn law_line_of_jar(lines: Seq<Seq<char>>, raw: Seq<char>, now: u64)
    ensures
        ({
            let before = read_jar(lines, now);
            let after = read_jar(lines.push(raw), now);
            let line = trim(raw, CharClass::Space);
            let marked = line.len() >= 10 && line.subrange(0, 10) == "#HttpOnly_"@;
            let silent = line.len() == 0 || (line[0] == '#' && !marked);
            let tabbed = split(line, CharClass::Tab);
            let columns = if tabbed.len() >= 7 {
                tabbed
            } else {
                words(line)
            };
            let expired = parse_signed(columns[4]) matches Some(t) && t != 0 && t < now;
            &&& read_jar(Seq::empty(), now) == Ok::<Seq<CookieView>, (nat, nat)>(Seq::empty())
            &&& before is Err ==> after == before
            &&& before is Ok && silent ==> after == before
            &&& before is Ok && !silent && columns.len() < 7 ==> after == Err::<
                Seq<CookieView>,
                (nat, nat),
            >((lines.len() + 1, tabbed.len()))
            &&& before is Ok && !silent && columns.len() >= 7 && expired ==> after == before
            &&& before is Ok && !silent && columns.len() >= 7 && !expired ==> {
                &&& after is Ok
                &&& after->Ok_0.len() == before->Ok_0.len() + 1
                &&& after->Ok_0.drop_last() == before->Ok_0
                &&& after->Ok_0.last().name == columns[5]
                &&& after->Ok_0.last().value == columns[6]
                &&& after->Ok_0.last().path == Some(columns[2])
                &&& after->Ok_0.last().domain == Some(
                    if columns[0].len() >= 10 && columns[0].subrange(0, 10) == "#HttpOnly_"@ {
                        columns[0].skip(10)
                    } else {
                        columns[0]
                    },
                )
            }
        }),
{
    reveal_strlit("#HttpOnly_");
    assert(lines.push(raw).drop_last() =~= lines);
    let line = trim(raw, CharClass::Space);
    if read_jar(lines, now) is Ok && jar_columns(line).len() >= 7 {
        law_entry_gives_cookie(jar_columns(line), now);
        if let Some(c) = jar_cookie(jar_columns(line), now) {
            let before = read_jar(lines, now)->Ok_0;
            assert(before.push(c).drop_last() =~= before);
        }
    }
}

/// Whether a line of a jar is an entry that has not expired.
pub open spec fn is_live_entry(raw: Seq<char>, now: u64) -> bool {
    let line = trim(raw, CharClass::Space);
    let tabbed = split(line, CharClass::Tab);
    let columns = if tabbed.len() >= 7 {
        tabbed
    } else {
        words(line)
    };
    &&& line.len() > 0
    &&& line[0] == '#' ==> line.len() >= 10 && line.subrange(0, 10) == "#HttpOnly_"@
    &&& columns.len() >= 7
    &&& !(parse_signed(columns[4]) matches Some(t) && t != 0 && t < now)
}

/// A jar that can be read holds as many cookies as it has entries that have not expired.
pub proof fn law_every_live_entry_counts(lines: Seq<Seq<char>>, now: u64)
    ensures
        read_jar(lines, now) matches Ok(cookies) ==> cookies.len() == lines.filter(
            |raw: Seq<char>| is_live_entry(raw, now),
        ).len(),
    decreases lines.len(),
{
    reveal(Seq::filter);
    if lines.len() > 0 {
        law_every_live_entry_counts(lines.drop_last(), now);
        law_line_of_jar(lines.drop_last(), lines.last(), now);
        assert(lines.drop_last().push(lines.last()) =~= lines);
    }
}

/// An entry that is written with tabs is read as it was written: one cookie of its name
/// and its value, for its domain, whatever the columns for subdomains and secure
/// transport say.
pub proof fn law_written_entry_is_read(columns: Seq<Seq<char>>, now: u64)
    requires
        columns.len() >= 7,
        forall|i: int, k: int|
            0 <= i < columns.len() && 0 <= k < columns[i].len() ==> #[trigger] columns[i][k]
                != '\t',
        columns[0].len() > 0,
        columns[0][0] != '#',
        !CharClass::Space.holds(columns[0][0]),
        columns.last().len() > 0,
        !CharClass::Space.holds(columns.last().last()),
        parse_signed(columns[4]) matches Some(t) ==> t == 0 || t >= now,
    ensures
        read_jar(seq![join_all(columns, seq!['\t'])], now) == Ok::<Seq<CookieView>, (nat, nat)>(
            seq![
                CookieView {
                    name: columns[5],
                    value: columns[6],
                    path: Some(columns[2]),
                    domain: Some(columns[0]),
                },
            ],
        ),
{
    reveal_strlit("#HttpOnly_");
    let line = join_all(columns, seq!['\t']);
    law_joined_pieces_split(columns, CharClass::Tab, '\t');
    lemma_join_ends(columns, '\t');
    lemma_trim_bare(line, CharClass::Space);
    assert("#HttpOnly_"@[0] == '#');
    assert(!"#HttpOnly_"@.is_prefix_of(columns[0])) by {
        if "#HttpOnly_"@.is_prefix_of(columns[0]) {
            assert(columns[0].subrange(0, 10)[0] == columns[0][0]);
        }
    }
    assert(read_jar(Seq::empty(), now) == Ok::<Seq<CookieView>, (nat, nat)>(Seq::empty()));
    assert(seq![line].drop_last() =~= Seq::empty());
    let cookie = CookieView {
        name: columns[5],
        value: columns[6],
        path: Some(columns[2]),
        domain: Some(columns[0]),
    };
    assert(jar_cookie(columns, now) == Some(cookie));
    assert(Seq::<CookieView>::empty().push(cookie) =~= seq![cookie]);
}

/// A text that is put together begins with the first part and ends with the last.
proof fn lemma_join_ends(parts: Seq<Seq<char>>, sep: char)
    requires
        parts.len() > 0,
        parts[0].len() > 0,
        parts.last().len() > 0,
    ensures
        ({
            let text = join_all(parts, seq![sep]);
            &&& text.len() > 0
            &&& text[0] == parts[0][0]
            &&& text.last() == parts.last().last()
        }),
{
    lemma_join_begins(parts, sep);
}

/// A text that is put together begins with the first part.
proof fn lemma_join_begins(parts: Seq<Seq<char>>, sep: char)
    requires
        parts.len() > 0,
        parts[0].len() > 0,
    ensures
        join_all(parts, seq![sep]).len() > 0,
        join_all(parts, seq![sep])[0] == parts[0][0],
    decreases parts.len(),
{
    if parts.len() > 1 {
        lemma_join_begins(parts.drop_last(), sep);
    }
}

/// A cookie of a domain applies to that host and to the hosts below it, and to no others.
/// Dots that the domain begins with make no difference. A cookie of no domain applies to
/// every host.
pub proof fn law_cookie_keeps_to_its_domain(
    c: CookieView,
    domain: Seq<char>,
    host: Seq<char>,
)
    requires
        domain.len() > 0 ==> domain[0] != '.',
    ensures
        c.domain is None ==> c.applies_to(host),
        c.domain == Some(domain) || c.domain == Some(seq!['.'] + domain) ==> (c.applies_to(host)
            <==> host == domain || (host.len() > domain.len() && host[host.len() - domain.len() - 1]
            == '.' && host.skip(host.len() - domain.len()) == domain)),
{
    let dotted = seq!['.'] + domain;
    assert(dotted.drop_first() =~= domain);
    assert(trim_start(dotted, CharClass::Dot) == trim_start(domain, CharClass::Dot));
    assert(trim_start(domain, CharClass::Dot) == domain);
    if host.len() > domain.len() {
        let n = (host.len() - domain.len() - 1) as int;
        let tail = host.subrange(n, host.len() as int);
        assert(tail[0] == host[n]);
        assert(tail.drop_first() =~= host.skip(n + 1));
        if tail == dotted {
            assert(dotted[0] == '.');
        }
        if host[n] == '.' && host.skip(n + 1) == domain {
            assert(tail =~= dotted);
        }
    }
}

/// What each cookie adds to a header: a raw cookie always its name, an equals sign and its
/// value; a cookie of the jar the same, but only where it applies to the host. Raw ones
/// come first, and all keep their order.
pub proof fn law_header_holds_cookies(
    raw: Seq<CookieView>,
    jar: Seq<CookieView>,
    c: CookieView,
    host: Seq<char>,
)
    ensures
        header_pairs(Seq::empty(), Seq::empty(), host).len() == 0,
        header_pairs(raw.push(c), Seq::empty(), host) == header_pairs(
            raw,
            Seq::empty(),
            host,
        ).push(c.name.push('=') + c.value),
        c.applies_to(host) ==> header_pairs(raw, jar.push(c), host) == header_pairs(
            raw,
            jar,
            host,
        ).push(c.name.push('=') + c.value),
        !c.applies_to(host) ==> header_pairs(raw, jar.push(c), host) == header_pairs(
            raw,
            jar,
            host,
        ),
{
    reveal(Seq::filter);
    reveal_strlit("=");
    assert(c.pair() =~= c.name.push('=') + c.value);
    let none = Seq::<CookieView>::empty();
    assert(header_pairs(raw.push(c), none, host) =~= header_pairs(raw, none, host).push(c.pair()));
    assert(jar.push(c).drop_last() =~= jar);
    let kept = applying(jar, host);
    if c.applies_to(host) {
        assert(applying(jar.push(c), host) =~= kept.push(c));
        assert(header_pairs(raw, jar.push(c), host) =~= header_pairs(raw, jar, host).push(
            c.pair(),
        ));
    } else {
        assert(applying(jar.push(c), host) =~= kept);
    }
}

/// The cookies of a list are told in the same order, one for one, with all that is known
/// of them.
pub proof fn law_cookie_views(v: Seq<Cookie>)
    ensures
        cookie_views(v).len() == v.len(),
        forall|i: int| #![trigger cookie_views(v)[i]]
            0 <= i < v.len() ==> {
                let c = cookie_views(v)[i];
                &&& c.name == v[i].name@
                &&& c.value == v[i].value@
                &&& c.path is Some <==> v[i].path is Some
                &&& v[i].path is Some ==> c.path == Some(v[i].path->0@)
                &&& c.domain is Some <==> v[i].domain is Some
                &&& v[i].domain is Some ==> c.domain == Some(v[i].domain->0@)
            },
{
}

/// A jar gives a cookie for each of its entries that has not expired, and no other: as
/// many as there are such lines.
pub proof fn law_jar_gives_every_cookie(
    content: &str,
    now: u64,
    r: Result<Vec<Cookie>, JarError>,
)
    requires
        call_ensures(parse_netscape_jar_at, (content, now), r),
    ensures
        r matches Ok(cookies) ==> cookies@.len() == split(content@, CharClass::LineFeed).filter(
            |raw: Seq<char>| is_live_entry(raw, now),
        ).len(),
{
    law_every_live_entry_counts(split(content@, CharClass::LineFeed), now);
    if let Ok(cookies) = r {
        law_cookie_views(cookies@);
    }
}

/// An entry that was written with tabs, and that has not expired, is read as one cookie of
/// its name and its value, whatever its other columns say; and the header for the host
/// that it names carries it.
pub proof fn law_written_entry_is_sent(
    content: &str,
    columns: Seq<Seq<char>>,
    now: u64,
    r: Result<Vec<Cookie>, JarError>,
    raw: &[Cookie],
    jar: &[Cookie],
    host: &str,
    header: Option<String>,
)
    requires
        call_ensures(parse_netscape_jar_at, (content, now), r),
        content@ == join_all(columns, seq!['\t']),
        columns.len() >= 7,
        forall|i: int, k: int|
            0 <= i < columns.len() && 0 <= k < columns[i].len() ==> #[trigger] columns[i][k]
                != '\t',
        forall|i: int| 0 <= i < content@.len() ==> #[trigger] content@[i] != '\n',
        columns[0].len() > 0,
        columns[0][0] != '#' && columns[0][0] != '.',
        !CharClass::Space.holds(columns[0][0]),
        columns.last().len() > 0,
        !CharClass::Space.holds(columns.last().last()),
        parse_signed(columns[4]) matches Some(t) ==> t == 0 || t >= now,
        raw@.len() == 0,
        r matches Ok(cookies) ==> jar@ == cookies@,
        host@ == columns[0],
        call_ensures(build_cookie_header, (raw, jar, host), header),
    ensures
        r is Ok && r->Ok_0@.len() == 1,
        r->Ok_0@[0].name@ == columns[5] && r->Ok_0@[0].value@ == columns[6],
        header matches Some(text) && text@ == columns[5].push('=') + columns[6],
{
    let line = content@;
    lemma_split_whole(line, CharClass::LineFeed);
    law_written_entry_is_read(columns, now);
    let cookie = CookieView {
        name: columns[5],
        value: columns[6],
        path: Some(columns[2]),
        domain: Some(columns[0]),
    };
    law_cookie_views(r->Ok_0@);
    assert(cookie_views(r->Ok_0@)[0] == cookie);
    assert(cookie_views(jar@) =~= seq![cookie]);
    law_cookie_keeps_to_its_domain(cookie, columns[0], host@);
    let none = Seq::<CookieView>::empty();
    law_header_holds_cookies(none, none, cookie, host@);
    assert(none.push(cookie) =~= seq![cookie]);
    assert(cookie_views(raw@) =~= none);
    assert(header_pairs(none, none, host@) =~= Seq::empty());
    assert(header_pairs(none, seq![cookie], host@) =~= seq![columns[5].push('=') + columns[6]]);
}

/// What is returned for a jar is what its lines hold at that moment: all its cookies, or
/// the number of the first line that has too few columns, and how many it has.
pub proof fn law_jar_is_read_as_it_stands(
    content: &str,
    now: u64,
    r: Result<Vec<Cookie>, JarError>,
)
    requires
        call_ensures(parse_netscape_jar_at, (content, now), r),
    ensures
        r matches Ok(cookies) ==> read_jar(split(content@, CharClass::LineFeed), now) == Ok::<
            Seq<CookieView>,
            (nat, nat),
        >(cookie_views(cookies@)),
        r matches Err(e) ==> read_jar(split(content@, CharClass::LineFeed), now) == Err::<
            Seq<CookieView>,
            (nat, nat),
        >((e.line as nat, e.columns as nat)),
{
}

/// A cookie string and its header are inverse: what is read of a string of names and
/// values, put into a header for whatever host, is that string.
pub proof fn law_cookie_string_is_sent(
    s: &str,
    names: Seq<Seq<char>>,
    values: Seq<Seq<char>>,
    r: Result<Vec<Cookie>, CookieError>,
    raw: &[Cookie],
    jar: &[Cookie],
    host: &str,
    header: Option<String>,
)
    requires
        call_ensures(parse_cookie_string, (s,), r),
        names.len() == values.len() > 0,
        forall|i: int, k: int|
            0 <= i < names.len() && 0 <= k < names[i].len() ==> #[trigger] names[i][k] != '='
                && names[i][k] != ';',
        forall|i: int, k: int|
            0 <= i < values.len() && 0 <= k < values[i].len() ==> #[trigger] values[i][k] != ';',
        forall|i: int|
            0 <= i < names.len() && (#[trigger] names[i]).len() > 0 ==> !CharClass::Space.holds(
                names[i][0],
            ) && !CharClass::Space.holds(names[i].last()),
        forall|i: int|
            0 <= i < values.len() && (#[trigger] values[i]).len() > 0 ==> !CharClass::Space.holds(
                values[i][0],
            ) && !CharClass::Space.holds(values[i].last()),
        s@ == join_all(Seq::new(names.len(), |i: int| names[i].push('=') + values[i]), "; "@),
        r matches Ok(cookies) ==> raw@ == cookies@,
        jar@.len() == 0,
        call_ensures(build_cookie_header, (raw, jar, host), header),
    ensures
        r is Ok && r->Ok_0@.len() == names.len(),
        forall|i: int| #![trigger r->Ok_0@[i]]
            0 <= i < names.len() ==> r->Ok_0@[i].name@ == names[i] && r->Ok_0@[i].value@
                == values[i],
        header matches Some(text) && text@ == s@,
{
    law_spelt_cookies_are_read(names, values);
    law_cookie_views(r->Ok_0@);
    let cookies = Seq::new(
        names.len(),
        |i: int| CookieView { name: names[i], value: values[i], path: None, domain: None },
    );
    assert(cookie_views(raw@) == cookies);
    assert forall|i: int| #![trigger r->Ok_0@[i]] 0 <= i < names.len() implies r->Ok_0@[i].name@
        == names[i] && r->Ok_0@[i].value@ == values[i] by {
        assert(cookie_views(r->Ok_0@)[i] == cookies[i]);
    }
    reveal(Seq::filter);
    reveal_strlit("=");
    assert(cookie_views(jar@) =~= Seq::empty());
    let spelt = Seq::new(names.len(), |i: int| names[i].push('=') + values[i]);
    assert forall|i: int| 0 <= i < spelt.len() implies pairs(cookies)[i] == #[trigger] spelt[i] by {
        assert(pairs(cookies)[i] =~= spelt[i]);
    }
    assert(header_pairs(cookies, Seq::empty(), host@) =~= spelt);
}

} // verus!
