//! Request and response headers, held in the HTTP crate's own map.

use reqwest::header::{HeaderMap, HeaderName, HeaderValue};
use std::time::UNIX_EPOCH;

use vstd::prelude::*;
use vstd::utf8::encode_utf8;

use crate::clock::{unix_nanos, NANOS_PER_SEC};
use crate::numbers::{
    decimal, is_digit, law_decimal_reads_back, lower, parse_unsigned, read_unsigned,
};
use crate::text::{
    find_last, last_index, lemma_last_index, lemma_trim_bare, slice_chars, text_of, trim, trimmed,
    CharClass,
};

verus! {

/// The map of headers.
#[verifier::external_type_specification]
#[verifier::external_body]
#[verifier::reject_recursive_types(T)]
pub struct ExHeaderMap<T>(reqwest::header::HeaderMap<T>);

/// The value of a header.
#[verifier::external_type_specification]
#[verifier::external_body]
pub struct ExHeaderValue(reqwest::header::HeaderValue);

/// What a map of headers holds: the first value of each name, by the name in lower
/// case.
pub uninterp spec fn header_entries(headers: HeaderMap) -> Map<Seq<char>, Seq<u8>>;

/// `HeaderMap::new`. The map holds nothing.
#[verifier::external_body]
pub(crate) fn no_headers() -> (r: HeaderMap)
    ensures
        header_entries(r).dom() == Set::<Seq<char>>::empty(),
{
    HeaderMap::new()
}

/// The longest name that a header can have.
pub const MAX_HEADER_NAME_LEN: usize = 65_535;

/// Whether a header's name may hold a character.
pub open spec fn is_name_char(c: char) -> bool {
    ||| 'a' <= c <= 'z'
    ||| 'A' <= c <= 'Z'
    ||| '0' <= c <= '9'
    ||| c == '!'
    ||| '#' <= c <= '\''
    ||| c == '*'
    ||| c == '+'
    ||| c == '-'
    ||| c == '.'
    ||| '^' <= c <= '`'
    ||| c == '|'
    ||| c == '~'
}

/// Whether a text can be the name of a header.
pub open spec fn is_header_name(s: Seq<char>) -> bool {
    &&& 1 <= s.len() <= MAX_HEADER_NAME_LEN
    &&& forall|i: int| 0 <= i < s.len() ==> is_name_char(#[trigger] s[i])
}

/// `HeaderName::from_bytes`, on the bytes of a text. It takes what
/// `is_header_name` allows and nothing else, and gives the name in lower case.
/// The error's text is fixed.
#[verifier::external_body]
pub(crate) fn header_name(text: &str) -> (r: Result<String, String>)
    ensures
        r is Ok <==> is_header_name(text@),
        r is Ok ==> r->Ok_0@ == lower(text@),
        r is Err ==> r->Err_0@ == "invalid HTTP header name"@,
{
    match HeaderName::from_bytes(text.as_bytes()) {
        Ok(name) => Ok(name.as_str().to_string()),
        Err(e) => Err(e.to_string()),
    }
}

/// Whether a header's value may hold a byte: any but the control codes, and the tab.
pub open spec fn is_value_byte(b: u8) -> bool {
    (b >= 32 && b != 127) || b == 9
}

/// Whether bytes can be the value of a header.
pub open spec fn is_header_value(bytes: Seq<u8>) -> bool {
    forall|i: int| 0 <= i < bytes.len() ==> is_value_byte(#[trigger] bytes[i])
}

/// `HeaderValue::from_str`. It takes a text whose UTF-8 bytes `is_header_value`
/// allows and no other, and the value is those bytes. The error's text is
/// fixed.
#[verifier::external_body]
pub(crate) fn header_value(text: &str) -> (r: Result<Vec<u8>, String>)
    ensures
        r is Ok <==> is_header_value(encode_utf8(text@)),
        r is Ok ==> r->Ok_0@ == encode_utf8(text@),
        r is Err ==> r->Err_0@ == "failed to parse header value"@,
{
    match HeaderValue::from_str(text) {
        Ok(value) => Ok(value.as_bytes().to_vec()),
        Err(e) => Err(e.to_string()),
    }
}

/// How many names a map of headers always has room for.
pub const HEADER_ROOM: usize = 6_554;

/// `HeaderMap::try_insert`. The value takes the place of all values that the name
/// had. The map refuses a name only when it is full; how many names it takes
/// depends on how their hashes fall, but it takes `HEADER_ROOM` of them.
#[verifier::external_body]
pub(crate) fn set_header(headers: &mut HeaderMap, name: &str, value: &Vec<u8>) -> (r: bool)
    requires
        is_header_name(name@),
        is_header_value(value@),
    ensures
        r ==> header_entries(*final(headers)) == header_entries(*old(headers)).insert(
            lower(name@),
            value@,
        ),
        header_entries(*old(headers)).dom().len() < HEADER_ROOM ==> r,
{
    match (HeaderName::from_bytes(name.as_bytes()), HeaderValue::from_bytes(value)) {
        (Ok(name), Ok(value)) => headers.try_insert(name, value).is_ok(),
        _ => false,
    }
}

/// `HeaderMap::get`. The first value of a name, whatever the case that the
/// name is written in.
#[verifier::external_body]
pub(crate) fn get_header(headers: &HeaderMap, name: &str) -> (r: Option<Vec<u8>>)
    requires
        is_header_name(name@),
    ensures
        r is Some <==> header_entries(*headers).contains_key(lower(name@)),
        r is Some ==> r->0@ == header_entries(*headers)[lower(name@)],
{
    match headers.get(name) {
        Some(value) => Some(value.as_bytes().to_vec()),
        None => None,
    }
}

// ---------------------------------------------------------------------------
// Reading headers
// ---------------------------------------------------------------------------

/// Whether a byte is a visible ASCII character, a space or a tab.
pub open spec fn is_visible(b: u8) -> bool {
    32 <= b < 127 || b == 9
}

/// The text of a value, where all of it is visible.
pub open spec fn visible_text(bytes: Seq<u8>) -> Option<Seq<char>> {
    if forall|i: int| 0 <= i < bytes.len() ==> is_visible(#[trigger] bytes[i]) {
        Some(Seq::new(bytes.len(), |i: int| bytes[i] as char))
    } else {
        None
    }
}

/// The text of a header, where it has one.
pub open spec fn header_text(headers: HeaderMap, name: Seq<char>) -> Option<Seq<char>> {
    if header_entries(headers).contains_key(name) {
        visible_text(header_entries(headers)[name])
    } else {
        None
    }
}

/// The text of a header, where it has one.
fn read_header(headers: &HeaderMap, name: &str) -> (r: Option<Vec<char>>)
    requires
        is_header_name(name@),
        lower(name@) == name@,
    ensures
        match header_text(*headers, name@) {
            Some(text) => r matches Some(v) && v@ == text,
            None => r is None,
        },
{
    match get_header(headers, name) {
        Some(bytes) => {
            let mut text: Vec<char> = Vec::new();
            let mut i: usize = 0;
            while i < bytes.len()
                invariant
                    i <= bytes@.len(),
                    text@ == Seq::new(i as nat, |k: int| bytes@[k] as char),
                    forall|k: int| 0 <= k < i ==> is_visible(#[trigger] bytes@[k]),
                    header_text(*headers, name@) == visible_text(bytes@),
                decreases bytes@.len() - i,
            {
                let b = bytes[i];
                if !((32 <= b && b < 127) || b == 9) {
                    assert(!is_visible(bytes@[i as int]));
                    return None;
                }
                text.push(b as char);
                i = i + 1;
                assert(text@ =~= Seq::new(i as nat, |k: int| bytes@[k] as char));
            }
            Some(text)
        },
        None => None,
    }
}

/// A text that is the name of a header, in lower case.
pub proof fn lemma_plain_name(name: Seq<char>)
    requires
        1 <= name.len() <= MAX_HEADER_NAME_LEN,
        forall|i: int|
            0 <= i < name.len() ==> 'a' <= #[trigger] name[i] <= 'z' || name[i] == '-',
    ensures
        is_header_name(name),
        lower(name) == name,
{
    assert(lower(name) =~= name);
}

/// The size that a response says it has.
pub open spec fn declared_size(headers: HeaderMap) -> Option<nat> {
    match header_text(headers, "content-length"@) {
        Some(text) => parse_unsigned(text, u64::MAX as nat),
        None => None,
    }
}

/// The size that a response says it has (`Content-Length`).
pub fn content_length(headers: &HeaderMap) -> (r: Option<u64>)
    ensures
        match declared_size(*headers) {
            Some(n) => r == Some(n as u64) && n <= u64::MAX,
            None => r is None,
        },
{
    proof {
        reveal_strlit("content-length");
        lemma_plain_name("content-length"@);
    }
    match read_header(headers, "content-length") {
        Some(text) => read_unsigned(&text, u64::MAX),
        None => None,
    }
}

/// What stands behind the last slash of a text.
pub open spec fn after_slash(text: Seq<char>) -> Seq<char> {
    match last_index(text, '/') {
        Some(i) => text.skip(i + 1),
        None => text,
    }
}

/// The size of the whole file that a part of it tells, and 0 where it tells none.
pub open spec fn whole_size(headers: HeaderMap) -> nat {
    match header_text(headers, "content-range"@) {
        Some(text) => match parse_unsigned(after_slash(text), u64::MAX as nat) {
            Some(n) => n,
            None => 0,
        },
        None => 0,
    }
}

/// The size of the whole file (`Content-Range`), and 0 where it is not told.
pub fn content_range_total(headers: &HeaderMap) -> (r: u64)
    ensures
        r == whole_size(*headers),
{
    proof {
        reveal_strlit("content-range");
        lemma_plain_name("content-range"@);
    }
    match read_header(headers, "content-range") {
        Some(text) => {
            let len: usize = text.len();
            let from: usize = match find_last(&text, '/') {
                Some(i) => i + 1,
                None => 0,
            };
            let rest = slice_chars(&text, from, len);
            assert(rest@ =~= after_slash(text@));
            match read_unsigned(&rest, u64::MAX) {
                Some(n) => n,
                None => 0,
            }
        },
        None => 0,
    }
}

// ---------------------------------------------------------------------------
// Retry-After
// ---------------------------------------------------------------------------

/// The seconds from the Unix epoch to an HTTP date.
pub uninterp spec fn http_date_secs(text: Seq<char>) -> Option<u64>;

/// `httpdate::parse_http_date`, in seconds since the Unix epoch. Which texts are
/// dates, and which moments they are, is not spelt out; it depends on the text
/// alone. A date before the epoch is none.
#[verifier::external_body]
fn parse_http_date(text: &str) -> (r: Option<u64>)
    ensures
        r == http_date_secs(text@),
{
    match httpdate::parse_http_date(text) {
        Ok(when) => match when.duration_since(UNIX_EPOCH) {
            Ok(since) => Some(since.as_secs()),
            Err(_) => None,
        },
        Err(_) => None,
    }
}

/// The whole seconds from a reading of the clock until a moment, where it is
/// still to come.
pub open spec fn secs_until(when: u64, now: Result<u128, u128>) -> Option<int> {
    let at = when * NANOS_PER_SEC;
    let left = match now {
        Ok(since) => at - since,
        Err(before) => at + before,
    };
    if left < 0 {
        None
    } else if left / (NANOS_PER_SEC as int) > u64::MAX {
        Some(u64::MAX as int)
    } else {
        Some(left / (NANOS_PER_SEC as int))
    }
}

/// The whole seconds until a moment, where it is still to come.
fn wait_until(when: u64, now: Result<u128, u128>) -> (r: Option<u64>)
    ensures
        match secs_until(when, now) {
            Some(n) => r == Some(n as u64) && 0 <= n <= u64::MAX,
            None => r is None,
        },
{
    let at: u128 = when as u128 * NANOS_PER_SEC;
    let left: u128 = match now {
        Ok(since) => {
            if since > at {
                return None;
            }
            at - since
        },
        Err(before) => at.saturating_add(before),
    };
    let secs: u128 = left / NANOS_PER_SEC;
    if secs > u64::MAX as u128 {
        Some(u64::MAX)
    } else {
        Some(secs as u64)
    }
}

/// The seconds that a server asks to wait: a number, or the time until a date.
pub open spec fn wait_of(
    number: Option<nat>,
    date: Option<u64>,
    now: Result<u128, u128>,
) -> Option<int> {
    match (number, date) {
        (Some(n), _) => Some(n as int),
        (None, Some(when)) => secs_until(when, now),
        (None, None) => None,
    }
}

/// The seconds that a response asks to wait, at a moment.
pub open spec fn retry_after(headers: HeaderMap, now: Result<u128, u128>) -> Option<int> {
    match header_text(headers, "retry-after"@) {
        Some(raw) => {
            let text = trim(raw, CharClass::Space);
            wait_of(parse_unsigned(text, u64::MAX as nat), http_date_secs(text), now)
        },
        None => None,
    }
}

/// The seconds that a number or a date asks to wait.
pub fn wait_for(number: Option<u64>, date: Option<u64>, now: Result<u128, u128>) -> (r: Option<
    u64,
>)
    ensures
        match wait_of(
            match number {
                Some(n) => Some(n as nat),
                None => None,
            },
            date,
            now,
        ) {
            Some(n) => r == Some(n as u64) && 0 <= n <= u64::MAX,
            None => r is None,
        },
{
    match (number, date) {
        (Some(n), _) => Some(n),
        (None, Some(when)) => wait_until(when, now),
        (None, None) => None,
    }
}

/// Parse the `Retry-After` header (integer seconds or HTTP-date), at a moment
/// given in nanoseconds since the Unix epoch (`Ok`) or before it (`Err`).
/// Returns `None` when absent or unparseable.
pub fn parse_retry_after_at(headers: &HeaderMap, now: Result<u128, u128>) -> (r: Option<u64>)
    ensures
        match retry_after(*headers, now) {
            Some(n) => r == Some(n as u64) && 0 <= n <= u64::MAX,
            None => r is None,
        },
{
    proof {
        reveal_strlit("retry-after");
        lemma_plain_name("retry-after"@);
    }
    match read_header(headers, "retry-after") {
        Some(raw) => {
            let v = trimmed(&raw, CharClass::Space);
            let text = text_of(&v);
            wait_for(read_unsigned(&v, u64::MAX), parse_http_date(text.as_str()), now)
        },
        None => None,
    }
}

/// Parse the `Retry-After` header, as of now.
pub fn parse_retry_after(headers: &HeaderMap) -> (r: Option<u64>)
    ensures
        exists|now: Result<u128, u128>| #[trigger]
            retry_after(*headers, now) == match r {
                Some(n) => Some(n as int),
                None => None,
            },
{
    let now = unix_nanos();
    parse_retry_after_at(headers, now)
}

// ---------------------------------------------------------------------------
// Laws
// ---------------------------------------------------------------------------

/// The text of a header is the text that its bytes spell in ASCII, where they spell any.
pub proof fn law_header_text_is_ascii(headers: HeaderMap, name: Seq<char>, text: Seq<char>)
    ensures
        !header_entries(headers).contains_key(name) ==> header_text(headers, name) is None,
        header_entries(headers).contains_key(name) && header_entries(headers)[name] == Seq::new(
            text.len(),
            |i: int| text[i] as u8,
        ) && (forall|i: int|
            0 <= i < text.len() ==> ' ' <= #[trigger] text[i] <= '~' || text[i] == '\t')
            ==> header_text(headers, name) == Some(text),
        header_entries(headers).contains_key(name) && (exists|i: int|
            0 <= i < header_entries(headers)[name].len() && (#[trigger] header_entries(
                headers,
            )[name][i] > 126 || (header_entries(headers)[name][i] < 32 && header_entries(
                headers,
            )[name][i] != 9))) ==> header_text(headers, name) is None,
{
    let bytes = Seq::new(text.len(), |i: int| text[i] as u8);
    if header_entries(headers).contains_key(name) && header_entries(headers)[name] == bytes && (
    forall|i: int| 0 <= i < text.len() ==> ' ' <= #[trigger] text[i] <= '~' || text[i] == '\t') {
        assert forall|i: int| 0 <= i < bytes.len() implies is_visible(#[trigger] bytes[i]) by {
            assert(bytes[i] == text[i] as u8);
        }
        assert(Seq::new(bytes.len(), |i: int| bytes[i] as char) =~= text);
    }
    if header_entries(headers).contains_key(name) && exists|i: int|
        0 <= i < header_entries(headers)[name].len() && (#[trigger] header_entries(headers)[name][i]
            > 126 || (header_entries(headers)[name][i] < 32 && header_entries(headers)[name][i]
            != 9)) {
        let i = choose|i: int|
            0 <= i < header_entries(headers)[name].len() && (#[trigger] header_entries(
                headers,
            )[name][i] > 126 || (header_entries(headers)[name][i] < 32 && header_entries(
                headers,
            )[name][i] != 9));
        assert(!is_visible(header_entries(headers)[name][i]));
    }
}

/// The size that a response declares is the number in its `Content-Length`, and none
/// where that is missing or no number.
pub proof fn law_declared_size_is_read(headers: HeaderMap, n: nat)
    requires
        n <= u64::MAX,
    ensures
        header_text(headers, "content-length"@) is None ==> declared_size(headers) is None,
        header_text(headers, "content-length"@) == Some(decimal(n)) ==> declared_size(headers)
            == Some(n),
        header_text(headers, "content-length"@) matches Some(text) ==> (parse_unsigned(
            text,
            0xffff_ffff_ffff_ffff,
        ) is None ==> declared_size(headers) is None),
{
    law_decimal_reads_back(n, u64::MAX as nat);
    assert(u64::MAX as nat == 0xffff_ffff_ffff_ffff);
}

/// The size of the whole file is the number behind the last slash of `Content-Range`,
/// whatever stands before it, and zero where there is none.
pub proof fn law_whole_size_is_read(headers: HeaderMap, range: Seq<char>, n: nat)
    requires
        n <= u64::MAX,
    ensures
        header_text(headers, "content-range"@) is None ==> whole_size(headers) == 0,
        header_text(headers, "content-range"@) == Some(range.push('/') + decimal(n)) ==> whole_size(
            headers,
        ) == n,
        header_text(headers, "content-range"@) == Some(range.push('/').push('*')) ==> whole_size(
            headers,
        ) == 0,
{
    law_decimal_reads_back(n, u64::MAX as nat);
    lemma_behind_slash(range, decimal(n));
    let star = seq!['*'];
    assert(!is_digit(star[0]));
    lemma_behind_slash(range, star);
    assert(range.push('/') + star =~= range.push('/').push('*'));
}

/// What stands behind the last slash.
proof fn lemma_behind_slash(before: Seq<char>, after: Seq<char>)
    requires
        forall|i: int| 0 <= i < after.len() ==> #[trigger] after[i] == '*' || is_digit(after[i]),
    ensures
        after_slash(before.push('/') + after) == after,
{
    let text = before.push('/') + after;
    lemma_last_index(text, '/');
    let n = before.len() as int;
    assert(text[n] == '/');
    let i = last_index(text, '/')->0;
    if i > n {
        assert(text[i] == after[i - n - 1]);
    }
    assert(text.skip(n + 1) =~= after);
}

/// A server that asks to wait so many seconds is understood so, with blanks around the
/// number or without. One that says nothing asks for nothing.
pub proof fn law_retry_after_number_is_read(headers: HeaderMap, n: nat, now: Result<u128, u128>)
    requires
        n <= u64::MAX,
    ensures
        header_text(headers, "retry-after"@) is None ==> retry_after(headers, now) is None,
        header_text(headers, "retry-after"@) matches Some(raw) ==> (trim(raw, CharClass::Space)
            == decimal(n) ==> retry_after(headers, now) == Some(n as int)),
        header_text(headers, "retry-after"@) == Some(decimal(n)) ==> retry_after(headers, now)
            == Some(n as int),
{
    law_decimal_reads_back(n, u64::MAX as nat);
    let digits = decimal(n);
    assert(is_digit(digits[0]) && is_digit(digits[digits.len() - 1]));
    lemma_trim_bare(digits, CharClass::Space);
}

/// A server that asks to wait until a moment is understood so: the wait is the whole
/// seconds until then, and none is asked for where the moment has passed.
pub proof fn law_retry_after_date_is_read(headers: HeaderMap, raw: Seq<char>, since: u128)
    requires
        header_text(headers, "retry-after"@) == Some(raw),
        parse_unsigned(trim(raw, CharClass::Space), 0xffff_ffff_ffff_ffff) is None,
    ensures
        http_date_secs(trim(raw, CharClass::Space)) is None ==> retry_after(
            headers,
            Ok(since),
        ) is None,
        http_date_secs(trim(raw, CharClass::Space)) matches Some(when) ==> {
            let left = when * 1_000_000_000 - since;
            &&& left < 0 ==> retry_after(headers, Ok(since)) is None
            &&& left >= 0 ==> retry_after(headers, Ok(since)) is Some && retry_after(
                headers,
                Ok(since),
            )->0 * 1_000_000_000 <= left < (retry_after(headers, Ok(since))->0 + 1) * 1_000_000_000
        },
{
    assert(u64::MAX as nat == 0xffff_ffff_ffff_ffff);
}

/// A number of seconds goes before a date, and is taken as it is.
pub proof fn law_number_goes_before_date(
    number: Option<u64>,
    date: Option<u64>,
    now: Result<u128, u128>,
    r: Option<u64>,
)
    requires
        call_ensures(wait_for, (number, date, now), r),
    ensures
        number is Some ==> r == number,
        number is None && date is None ==> r is None,
        number is None && date is Some && now is Ok ==> {
            let left = date->0 * 1_000_000_000 - now->Ok_0;
            &&& left < 0 <==> r is None
            &&& r matches Some(secs) ==> secs * 1_000_000_000 <= left < (secs + 1) * 1_000_000_000
        },
        number is None && date is Some && now is Err ==> {
            let left = date->0 * 1_000_000_000 + now->Err_0;
            &&& r is Some
            &&& r->0 * 1_000_000_000 <= left
            &&& left < (r->0 + 1) * 1_000_000_000 || r->0 == u64::MAX
        },
{
}

} // verus!
