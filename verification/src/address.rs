//! URLs: what the download engine reads of them, the basename that a URL
//! proposes as a file name, and the hash that names its part file.

use std::collections::hash_map::DefaultHasher;
use std::hash::{Hash, Hasher};
use vstd::prelude::*;
use vstd::std_specs::hash::DefaultHasherAdditionalSpecFns;
use vstd::utf8::{
    decode_utf8, encode_utf8, encode_utf8_decode_utf8, encode_utf8_valid_utf8, is_ascii_chars,
    is_ascii_chars_encode_utf8, valid_utf8,
};

use crate::names::{
    is_clean, law_part_file_is_named, law_sanitized_name_is_safe, law_sanitizing_keeps_the_rest,
    part_file_name, part_name, sanitize, sanitized, MAX_NAME_LEN,
};
use crate::numbers::law_hex_goes_by_digits;
use crate::text::texts;

verus! {

// ---------------------------------------------------------------------------
// Parsing
// ---------------------------------------------------------------------------

/// What the download engine reads of a URL.
#[derive(Debug)]
pub struct UrlParts {
    /// The host, where the URL has one.
    pub host: Option<String>,
    /// The segments of the path, percent-encoded, where the path is made of
    /// segments.
    pub segments: Option<Vec<String>>,
}

/// The host and the path segments of a URL, as text.
pub struct UrlPartsView {
    pub host: Option<Seq<char>>,
    pub segments: Option<Seq<Seq<char>>>,
}

impl View for UrlParts {
    type V = UrlPartsView;

    open spec fn view(&self) -> UrlPartsView {
        UrlPartsView {
            host: match self.host {
                Some(h) => Some(h@),
                None => None,
            },
            segments: match self.segments {
                Some(s) => Some(texts(s@)),
                None => None,
            },
        }
    }
}

/// What `url::Url::parse` makes of a text: the parts of the URL, or the text
/// of the error.
pub uninterp spec fn parsed_url(url: Seq<char>) -> Result<UrlPartsView, Seq<char>>;

/// `url::Url::parse`, the URL taken apart by `host_str` and `path_segments`
/// and the error by its `Display` text. Claims that the outcome depends on the
/// text alone; what a URL is, by the WHATWG standard, is not spelled out.
#[verifier::external_body]
fn parse_url(url: &str) -> (r: Result<UrlParts, String>)
    ensures
        match r {
            Ok(parts) => parsed_url(url@) == Ok::<UrlPartsView, Seq<char>>(parts@),
            Err(e) => parsed_url(url@) == Err::<UrlPartsView, Seq<char>>(e@),
        },
{
    match url::Url::parse(url) {
        Ok(u) => Ok(
            UrlParts {
                host: u.host_str().map(|h| h.to_string()),
                segments: u.path_segments().map(|s| s.map(|p| p.to_string()).collect()),
            },
        ),
        Err(e) => Err(e.to_string()),
    }
}

// ---------------------------------------------------------------------------
// Percent-decoding
// ---------------------------------------------------------------------------

/// The value of a hexadecimal digit, in capital or small letters.
pub open spec fn hex_value(b: u8) -> Option<u8> {
    if 0x30 <= b <= 0x39 {
        Some((b - 0x30) as u8)
    } else if 0x41 <= b <= 0x46 {
        Some((b - 0x37) as u8)
    } else if 0x61 <= b <= 0x66 {
        Some((b - 0x57) as u8)
    } else {
        None
    }
}

/// Whether the bytes start with a percent sign and two hexadecimal digits.
pub open spec fn is_escape(s: Seq<u8>) -> bool {
    s.len() >= 3 && s[0] == 0x25 && hex_value(s[1]) is Some && hex_value(s[2]) is Some
}

/// The bytes with each escape replaced by the byte that it stands for.
pub open spec fn unescaped(s: Seq<u8>) -> Seq<u8>
    decreases s.len(),
{
    if s.len() == 0 {
        Seq::empty()
    } else if is_escape(s) {
        seq![(hex_value(s[1])->0 * 16 + hex_value(s[2])->0) as u8] + unescaped(s.skip(3))
    } else {
        seq![s[0]] + unescaped(s.skip(1))
    }
}

/// The text with its escapes decoded; a text whose escapes do not spell UTF-8
/// stays as it is.
pub open spec fn percent_decoded(s: Seq<char>) -> Seq<char> {
    let bytes = unescaped(encode_utf8(s));
    if valid_utf8(bytes) {
        decode_utf8(bytes)
    } else {
        s
    }
}

/// The error of `String::from_utf8`.
#[verifier::external_type_specification]
#[verifier::external_body]
pub struct ExFromUtf8Error(std::string::FromUtf8Error);

/// `String::from_utf8`: the text that the bytes spell, if and only if they are
/// valid UTF-8.
pub assume_specification[ String::from_utf8 ](vec: Vec<u8>) -> (r: Result<
    String,
    std::string::FromUtf8Error,
>)
    ensures
        r is Ok == valid_utf8(vec@),
        r matches Ok(s) ==> s@ == decode_utf8(vec@),
;

/// The value of a hexadecimal digit.
fn read_hex(b: u8) -> (r: Option<u8>)
    ensures
        r == hex_value(b),
        r matches Some(v) ==> v < 16,
{
    if 0x30 <= b && b <= 0x39 {
        Some(b - 0x30)
    } else if 0x41 <= b && b <= 0x46 {
        Some(b - 0x37)
    } else if 0x61 <= b && b <= 0x66 {
        Some(b - 0x57)
    } else {
        None
    }
}

/// Decodes the percent escapes of a path segment.
pub fn percent_decode(s: &str) -> (r: String)
    ensures
        r@ == percent_decoded(s@),
{
    let bytes = s.as_bytes();
    let len: usize = bytes.len();
    let mut out: Vec<u8> = Vec::new();
    let mut i: usize = 0;
    assert(bytes@.skip(0) =~= bytes@);
    while i < len
        invariant
            i <= len == bytes@.len(),
            out@ + unescaped(bytes@.skip(i as int)) == unescaped(bytes@),
        decreases len - i,
    {
        let ghost rest = bytes@.skip(i as int);
        let ghost before = out@;
        let mut value: Option<u8> = None;
        if bytes[i] == 0x25 && len - i >= 3 {
            if let Some(high) = read_hex(bytes[i + 1]) {
                if let Some(low) = read_hex(bytes[i + 2]) {
                    value = Some(high * 16 + low);
                }
            }
        }
        assert(rest[0] == bytes@[i as int]);
        match value {
            Some(b) => {
                assert(rest[1] == bytes@[i + 1] && rest[2] == bytes@[i + 2]);
                assert(is_escape(rest));
                out.push(b);
                assert(bytes@.skip(i + 3) =~= rest.skip(3));
                assert(out@ + unescaped(rest.skip(3)) =~= before + unescaped(rest));
                i = i + 3;
            },
            None => {
                assert(rest.len() >= 3 ==> rest[1] == bytes@[i + 1] && rest[2] == bytes@[i + 2]);
                assert(!is_escape(rest));
                out.push(bytes[i]);
                assert(bytes@.skip(i + 1) =~= rest.skip(1));
                assert(out@ + unescaped(rest.skip(1)) =~= before + unescaped(rest));
                i = i + 1;
            },
        }
    }
    assert(bytes@.skip(i as int) =~= Seq::empty());
    assert(out@ =~= unescaped(bytes@));
    match String::from_utf8(out) {
        Ok(text) => text,
        Err(_) => s.to_owned(),
    }
}

// ---------------------------------------------------------------------------
// Basename
// ---------------------------------------------------------------------------

/// The file name that a URL proposes: its last path segment, decoded and
/// sanitized, unless nothing is left of it.
pub open spec fn basename(parts: UrlPartsView) -> Option<Seq<char>> {
    match parts.segments {
        Some(s) => if s.len() > 0 && s.last().len() > 0 && sanitized(
            percent_decoded(s.last()),
        ).len() > 0 {
            Some(sanitized(percent_decoded(s.last())))
        } else {
            None
        },
        None => None,
    }
}

/// Extract a sane basename from a URL path (percent-decoded).
pub fn url_basename(parts: &UrlParts) -> (r: Option<String>)
    ensures
        r is Some == basename(parts@) is Some,
        r matches Some(base) ==> basename(parts@) == Some(base@),
{
    match &parts.segments {
        Some(segments) => {
            let len: usize = segments.len();
            if len == 0 {
                return None;
            }
            let last = segments[len - 1].as_str();
            assert(texts(segments@).last() == last@);
            if last.is_empty() {
                return None;
            }
            let decoded = percent_decode(last);
            let base = sanitize(decoded.as_str());
            if base.as_str().is_empty() {
                None
            } else {
                Some(base)
            }
        },
        None => None,
    }
}

/// Where a URL points to, as far as a download needs it.
#[derive(Debug)]
pub struct Location {
    pub host: String,
    pub basename: Option<String>,
}

/// The location in a parsed URL, or what is wrong with the URL.
pub open spec fn location_spec(parsed: Result<UrlPartsView, Seq<char>>) -> Result<
    (Seq<char>, Option<Seq<char>>),
    Seq<char>,
> {
    match parsed {
        Ok(parts) => match parts.host {
            Some(host) => Ok((host, basename(parts))),
            None => Err("URL has no host"@),
        },
        Err(e) => Err("invalid URL: "@ + e),
    }
}

impl Location {
    /// Host and basename, as text.
    pub open spec fn parts(self) -> (Seq<char>, Option<Seq<char>>) {
        (
            self.host@,
            match self.basename {
                Some(b) => Some(b@),
                None => None,
            },
        )
    }
}

/// The location in a parsed URL, or what is wrong with the URL: it does not
/// parse, or it has no host.
pub fn location_of(parsed: Result<UrlParts, String>) -> (r: Result<Location, String>)
    ensures
        match location_spec(
            match parsed {
                Ok(parts) => Ok(parts@),
                Err(e) => Err(e@),
            },
        ) {
            Ok(l) => r matches Ok(location) && location.parts() == l,
            Err(e) => r matches Err(detail) && detail@ == e,
        },
{
    match parsed {
        Ok(parts) => {
            let base = url_basename(&parts);
            match parts.host {
                Some(host) => Ok(Location { host, basename: base }),
                None => Err("URL has no host".to_string()),
            }
        },
        Err(e) => {
            let mut detail = String::new();
            detail.append("invalid URL: ");
            detail.append(e.as_str());
            assert(detail@ =~= "invalid URL: "@ + e@);
            Err(detail)
        },
    }
}

/// The location that a URL points to, or what is wrong with the URL.
pub fn locate(url: &str) -> (r: Result<Location, String>)
    ensures
        match location_spec(parsed_url(url@)) {
            Ok(l) => r matches Ok(location) && location.parts() == l,
            Err(e) => r matches Err(detail) && detail@ == e,
        },
{
    location_of(parse_url(url))
}

// ---------------------------------------------------------------------------
// Part file
// ---------------------------------------------------------------------------

/// What `str::hash` writes to a hasher for a text.
pub uninterp spec fn str_hash_writes(s: Seq<char>) -> Seq<Seq<u8>>;

/// `str::hash` on a `DefaultHasher`. Claims that what it writes depends on the
/// text alone; how the text is laid out in bytes is not spelled out.
#[verifier::external_body]
fn hash_str(s: &str, state: &mut DefaultHasher)
    ensures
        final(state)@ == old(state)@ + str_hash_writes(s@),
{
    s.hash(state);
}

/// The hash of a text.
pub open spec fn text_hash(s: Seq<char>) -> u64 {
    DefaultHasher::spec_finish(str_hash_writes(s))
}

/// A stable, content-addressed-ish hash for .part naming.
pub fn stable_hash(s: &str) -> (r: u64)
    ensures
        r == text_hash(s@),
{
    let mut h = DefaultHasher::new();
    hash_str(s, &mut h);
    assert(h@ =~= str_hash_writes(s@));
    h.finish()
}

/// The name of the part file for a URL.
pub fn part_file_for(url: &str) -> (r: String)
    ensures
        r@ == part_name(text_hash(url@)),
{
    part_file_name(stable_hash(url))
}

/// A basename is no path: it holds no separator and no other forbidden character, it
/// is not empty, and it does not begin with a dot.
pub proof fn law_basename_is_clean(parts: UrlPartsView)
    ensures
        basename(parts) matches Some(base) ==> is_clean(base) && 0 < base.len() <= MAX_NAME_LEN
            && base[0] != '.',
{
    if let Some(segments) = parts.segments {
        law_sanitized_name_is_safe(percent_decoded(segments.last()));
    }
}

/// A percent sign and two hexadecimal digits, in capital or small letters, stand for one
/// byte. Every other byte stands for itself, a percent sign without two such digits too.
pub proof fn law_escape_stands_for_byte(high: u8, low: u8, rest: Seq<u8>, s: Seq<u8>)
    requires
        high < 16,
        low < 16,
    ensures
        ({
            let small = |d: u8| (if d < 10 { 0x30 + d } else { 0x61 + d - 10 }) as u8;
            let capital = |d: u8| (if d < 10 { 0x30 + d } else { 0x41 + d - 10 }) as u8;
            let byte = seq![(high * 16 + low) as u8];
            &&& unescaped(seq![0x25u8, small(high), small(low)] + rest) == byte + unescaped(rest)
            &&& unescaped(seq![0x25u8, capital(high), capital(low)] + rest) == byte + unescaped(
                rest,
            )
            &&& unescaped(seq![0x25u8, capital(high), small(low)] + rest) == byte + unescaped(rest)
            &&& unescaped(seq![0x25u8, small(high), capital(low)] + rest) == byte + unescaped(rest)
        }),
        s.len() > 0 && s[0] != 0x25 ==> unescaped(s) == seq![s[0]] + unescaped(s.skip(1)),
        s.len() > 0 && s.len() < 3 ==> unescaped(s) == seq![s[0]] + unescaped(s.skip(1)),
        s.len() >= 3 && (exists|i: int|
            1 <= i <= 2 && !(0x30 <= #[trigger] s[i] <= 0x39 || 0x41 <= s[i] <= 0x46 || 0x61 <= s[i]
                <= 0x66)) ==> unescaped(s) == seq![s[0]] + unescaped(s.skip(1)),
        unescaped(Seq::empty()).len() == 0,
{
    let small_high = (if high < 10 { 0x30 + high } else { 0x61 + high - 10 }) as u8;
    let small_low = (if low < 10 { 0x30 + low } else { 0x61 + low - 10 }) as u8;
    let capital_high = (if high < 10 { 0x30 + high } else { 0x41 + high - 10 }) as u8;
    let capital_low = (if low < 10 { 0x30 + low } else { 0x41 + low - 10 }) as u8;
    lemma_unescaped(small_high, small_low, rest);
    lemma_unescaped(capital_high, capital_low, rest);
    lemma_unescaped(capital_high, small_low, rest);
    lemma_unescaped(small_high, capital_low, rest);
}

/// An escape is read as a whole.
proof fn lemma_unescaped(a: u8, b: u8, rest: Seq<u8>)
    requires
        hex_value(a) is Some,
        hex_value(b) is Some,
    ensures
        unescaped(seq![0x25u8, a, b] + rest) == seq![
            (hex_value(a)->0 * 16 + hex_value(b)->0) as u8,
        ] + unescaped(rest),
{
    let s = seq![0x25u8, a, b] + rest;
    assert(s[0] == 0x25 && s[1] == a && s[2] == b);
    assert(s.skip(3) =~= rest);
}

/// A digit of an escape.
pub open spec fn escape_digit(d: int) -> char {
    if d < 10 {
        (48 + d) as char
    } else {
        (65 + d - 10) as char
    }
}

/// Bytes, each spelt as an escape.
pub open spec fn escaped(bytes: Seq<u8>) -> Seq<char>
    decreases bytes.len(),
{
    if bytes.len() == 0 {
        Seq::empty()
    } else {
        seq!['%', escape_digit(bytes[0] as int / 16), escape_digit(bytes[0] as int % 16)] + escaped(
            bytes.skip(1),
        )
    }
}

/// What the escapes spell, as bytes.
spec fn escaped_bytes(bytes: Seq<u8>) -> Seq<u8>
    decreases bytes.len(),
{
    if bytes.len() == 0 {
        Seq::empty()
    } else {
        seq![
            0x25u8,
            escape_digit(bytes[0] as int / 16) as u8,
            escape_digit(bytes[0] as int % 16) as u8,
        ] + escaped_bytes(bytes.skip(1))
    }
}

/// Every text can be spelt in escapes, and is read back from them.
pub proof fn law_escaped_text_reads_back(text: Seq<char>)
    ensures
        percent_decoded(escaped(encode_utf8(text))) == text,
{
    let bytes = encode_utf8(text);
    let spelt = escaped(bytes);
    lemma_escaped(bytes);
    is_ascii_chars_encode_utf8(spelt);
    assert(encode_utf8(spelt) =~= escaped_bytes(bytes));
    encode_utf8_valid_utf8(text);
    encode_utf8_decode_utf8(text);
}

/// Escapes are plain text, and stand for the bytes that they spell.
proof fn lemma_escaped(bytes: Seq<u8>)
    ensures
        is_ascii_chars(escaped(bytes)),
        escaped(bytes).len() == escaped_bytes(bytes).len(),
        forall|i: int|
            0 <= i < escaped(bytes).len() ==> #[trigger] escaped(bytes)[i] as u8 == escaped_bytes(
                bytes,
            )[i],
        unescaped(escaped_bytes(bytes)) == bytes,
    decreases bytes.len(),
{
    if bytes.len() > 0 {
        let rest = bytes.skip(1);
        lemma_escaped(rest);
        let high = escape_digit(bytes[0] as int / 16);
        let low = escape_digit(bytes[0] as int % 16);
        lemma_unescaped(high as u8, low as u8, escaped_bytes(rest));
        assert(hex_value(high as u8)->0 * 16 + hex_value(low as u8)->0 == bytes[0]);
        assert(seq![bytes[0]] + rest =~= bytes);
        let lead = seq!['%', high, low];
        let lead_bytes = seq![0x25u8, high as u8, low as u8];
        assert(escaped(bytes) == lead + escaped(rest));
        assert(escaped_bytes(bytes) == lead_bytes + escaped_bytes(rest));
        assert forall|i: int| 0 <= i < escaped(bytes).len() implies #[trigger] escaped(bytes)[i]
            as u8 == escaped_bytes(bytes)[i] && '\0' <= escaped(bytes)[i] <= '\u{7f}' by {
            if i < 3 {
                assert(lead[i] as u8 == lead_bytes[i]);
                assert(escaped(bytes)[i] == lead[i]);
                assert(escaped_bytes(bytes)[i] == lead_bytes[i]);
            } else {
                assert(escaped(bytes)[i] == escaped(rest)[i - 3]);
                assert(escaped_bytes(bytes)[i] == escaped_bytes(rest)[i - 3]);
            }
        }
    } else {
        assert(bytes =~= Seq::empty());
    }
}

/// Plain text without a percent sign stays as it is.
pub proof fn law_plain_text_stays(text: Seq<char>)
    requires
        forall|i: int| 0 <= i < text.len() ==> #[trigger] text[i] <= '~' && text[i] != '%',
    ensures
        percent_decoded(text) == text,
{
    assert forall|i: int| 0 <= i < text.len() implies '\0' <= #[trigger] text[i] <= '\u{7f}' by {
        lemma_char_is_no_less(text[i]);
    }
    is_ascii_chars_encode_utf8(text);
    let bytes = encode_utf8(text);
    assert forall|i: int| 0 <= i < bytes.len() implies #[trigger] bytes[i] != 0x25 by {
        assert(text[i] as u8 == bytes[i]);
    }
    lemma_unescaped_plain(bytes);
    encode_utf8_valid_utf8(text);
    encode_utf8_decode_utf8(text);
}

/// No character comes before the first.
proof fn lemma_char_is_no_less(c: char)
    ensures
        '\0' <= c,
{
}

/// Bytes without a percent sign stay as they are.
proof fn lemma_unescaped_plain(s: Seq<u8>)
    requires
        forall|i: int| 0 <= i < s.len() ==> #[trigger] s[i] != 0x25,
    ensures
        unescaped(s) == s,
    decreases s.len(),
{
    if s.len() > 0 {
        let rest = s.skip(1);
        assert forall|i: int| 0 <= i < rest.len() implies #[trigger] rest[i] != 0x25 by {
            assert(rest[i] == s[i + 1]);
        }
        assert(s[0] != 0x25);
        lemma_unescaped_plain(rest);
        assert(seq![s[0]] + rest =~= s);
    } else {
        assert(s =~= Seq::empty());
    }
}

/// The file name that a URL proposes is its last path segment, decoded and sanitized. It
/// proposes none if and only if it has no such segment, or nothing is left of it.
pub proof fn law_basename_is_last_segment(parts: UrlPartsView)
    ensures
        parts.segments is None ==> basename(parts) is None,
        parts.segments matches Some(s) ==> (s.len() == 0 || s[s.len() - 1].len() == 0 ==> basename(
            parts,
        ) is None),
        parts.segments matches Some(s) ==> (s.len() > 0 && s[s.len() - 1].len() > 0 ==> {
            let name = sanitized(percent_decoded(s[s.len() - 1]));
            &&& name.len() == 0 ==> basename(parts) is None
            &&& name.len() > 0 ==> basename(parts) == Some(name)
        }),
{
}

/// A URL can be downloaded if and only if it parses and has a host; else it is told what
/// is missing.
pub proof fn law_url_needs_host(parts: UrlPartsView, why: Seq<char>)
    ensures
        parts.host matches Some(host) ==> location_spec(Ok(parts)) == Ok::<
            (Seq<char>, Option<Seq<char>>),
            Seq<char>,
        >((host, basename(parts))),
        parts.host is None ==> location_spec(Ok(parts)) == Err::<
            (Seq<char>, Option<Seq<char>>),
            Seq<char>,
        >("URL has no host"@),
        location_spec(Err(why)) == Err::<(Seq<char>, Option<Seq<char>>), Seq<char>>(
            "invalid URL: "@ + why,
        ),
{
}

/// A path segment in which every byte is escaped comes out as the text that it spells.
pub proof fn law_percent_decode_reads_escapes(s: &str, text: Seq<char>, r: String)
    requires
        call_ensures(percent_decode, (s,), r),
        s@ == escaped(encode_utf8(text)),
    ensures
        r@ == text,
{
    law_escaped_text_reads_back(text);
}

/// A URL with a plain last segment, fit for a file name, proposes that segment.
pub proof fn law_plain_basename_is_kept(parts: UrlParts, r: Option<String>, name: Seq<char>)
    requires
        call_ensures(url_basename, (&parts,), r),
        parts.segments is Some,
        parts.segments->0@.len() > 0,
        name == parts.segments->0@[parts.segments->0@.len() - 1]@,
        0 < name.len() <= 200,
        forall|i: int|
            0 <= i < name.len() ==> 'a' <= #[trigger] name[i] <= 'z' || 'A' <= name[i] <= 'Z' || '0'
                <= name[i] <= '9' || name[i] == '.' || name[i] == '-' || name[i] == '_',
        name[0] != '.' && name.last() != '.',
    ensures
        r is Some && r->0@ == name,
{
    assert forall|i: int| 0 <= i < name.len() implies #[trigger] name[i] <= '~' && name[i]
        != '%' by {}
    law_plain_text_stays(name);
    let from = law_sanitizing_keeps_the_rest(name);
    assert(texts(parts.segments->0@).last() == name);
    if from > 0 {
        assert(name[0] == '.' || name[0] == ' ');
    }
    let clean = sanitized(name);
    if clean.len() < name.len() {
        assert(clean.len() < 200);
        assert(name[name.len() - 1] == '.' || name[name.len() - 1] == ' ');
    }
    assert(clean =~= name);
}

/// The part file of a URL depends on the URL alone.
pub proof fn law_part_file_is_stable(url: &str, a: String, b: String)
    requires
        call_ensures(part_file_for, (url,), a),
        call_ensures(part_file_for, (url,), b),
    ensures
        a@ == b@,
        a@.len() == 22 && a@[0] == '.' && a@.skip(17) == ".part"@,
{
    let hash = text_hash(url@);
    law_part_file_is_named(hash, Seq::empty(), 0);
    law_hex_goes_by_digits(hash as nat, 0, 16);
    reveal_strlit(".part");
    assert(a@.skip(17) =~= ".part"@);
}

/// What is read of a URL is told as it is.
pub proof fn law_url_parts_view(parts: UrlParts, location: Location)
    ensures
        parts.host is None <==> parts@.host is None,
        parts.host matches Some(host) ==> parts@.host == Some(host@),
        parts.segments is None <==> parts@.segments is None,
        parts.segments matches Some(list) ==> parts@.segments is Some && parts@.segments->0.len()
            == list@.len() && forall|i: int|
            0 <= i < list@.len() ==> #[trigger] parts@.segments->0[i] == list@[i]@,
        location.parts().0 == location.host@,
        location.basename is None <==> location.parts().1 is None,
        location.basename matches Some(base) ==> location.parts().1 == Some(base@),
{
}

/// A text whose escapes do not spell UTF-8 stays as it is, escapes and all.
pub proof fn law_broken_escapes_stay(s: &str, r: String)
    requires
        call_ensures(percent_decode, (s,), r),
    ensures
        !valid_utf8(unescaped(encode_utf8(s@))) ==> r@ == s@,
        valid_utf8(unescaped(encode_utf8(s@))) ==> r@ == decode_utf8(unescaped(encode_utf8(s@))),
{
}

} // verus!
