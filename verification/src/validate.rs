//! Image format detection and integrity validation by magic bytes.
//!
//! The first bytes of a file tell its format; nothing is decoded. The formats
//! are those that a picture scraper is likely to meet.

use vstd::prelude::*;

use crate::numbers::{hex, lower, push_hex, to_lower};
use crate::text::{
    chars_of, find_last, join_all, last_index, lemma_last_index, same_chars, slice_chars,
};

verus! {

/// A recognised image format.
#[derive(Debug, Clone, Copy, PartialEq, Eq, Structural)]
pub enum Format {
    Jpeg,
    Png,
    Gif,
    Webp,
    Bmp,
    Tiff,
    Avif,
    Heic,
    Svg,
    Ico,
}

impl Format {
    /// The canonical extension, without the leading dot.
    pub open spec fn extension(self) -> Seq<char> {
        match self {
            Format::Jpeg => "jpg"@,
            Format::Png => "png"@,
            Format::Gif => "gif"@,
            Format::Webp => "webp"@,
            Format::Bmp => "bmp"@,
            Format::Tiff => "tif"@,
            Format::Avif => "avif"@,
            Format::Heic => "heic"@,
            Format::Svg => "svg"@,
            Format::Ico => "ico"@,
        }
    }

    /// Whether `ext`, in small letters, is an extension in use for the format.
    pub open spec fn accepts(self, ext: Seq<char>) -> bool {
        match self {
            Format::Jpeg => ext == "jpg"@ || ext == "jpeg"@ || ext == "jpe"@ || ext == "jfif"@,
            Format::Png => ext == "png"@,
            Format::Gif => ext == "gif"@,
            Format::Webp => ext == "webp"@,
            Format::Bmp => ext == "bmp"@ || ext == "dib"@,
            Format::Tiff => ext == "tif"@ || ext == "tiff"@,
            Format::Avif => ext == "avif"@ || ext == "avifs"@,
            Format::Heic => ext == "heic"@ || ext == "heif"@,
            Format::Svg => ext == "svg"@ || ext == "svgz"@,
            Format::Ico => ext == "ico"@ || ext == "cur"@,
        }
    }

    /// Canonical extension, without the leading dot.
    pub fn ext(&self) -> (r: &'static str)
        ensures
            r@ == self.extension(),
    {
        match self {
            Format::Jpeg => "jpg",
            Format::Png => "png",
            Format::Gif => "gif",
            Format::Webp => "webp",
            Format::Bmp => "bmp",
            Format::Tiff => "tif",
            Format::Avif => "avif",
            Format::Heic => "heic",
            Format::Svg => "svg",
            Format::Ico => "ico",
        }
    }
}

// ---------------------------------------------------------------------------
// Detection
// ---------------------------------------------------------------------------

/// Whether `magic` stands in `buf` from the index `at` on.
pub open spec fn has_magic(buf: Seq<u8>, at: int, magic: Seq<u8>) -> bool {
    at + magic.len() <= buf.len() && buf.subrange(at, at + magic.len()) == magic
}

/// The four characters of an ISO media brand that stands for AVIF.
pub open spec fn is_avif_brand(buf: Seq<u8>) -> bool {
    ||| has_magic(buf, 8, seq![0x61u8, 0x76, 0x69, 0x66])  // avif
    ||| has_magic(buf, 8, seq![0x61u8, 0x76, 0x69, 0x73])  // avis
}

/// The four characters of an ISO media brand that stands for HEIC or HEIF.
pub open spec fn is_heic_brand(buf: Seq<u8>) -> bool {
    ||| has_magic(buf, 8, seq![0x68u8, 0x65, 0x69, 0x63])  // heic
    ||| has_magic(buf, 8, seq![0x68u8, 0x65, 0x69, 0x78])  // heix
    ||| has_magic(buf, 8, seq![0x68u8, 0x65, 0x76, 0x63])  // hevc
    ||| has_magic(buf, 8, seq![0x68u8, 0x65, 0x76, 0x78])  // hevx
    ||| has_magic(buf, 8, seq![0x6du8, 0x69, 0x66, 0x31])  // mif1
    ||| has_magic(buf, 8, seq![0x6du8, 0x73, 0x66, 0x31])  // msf1
}

/// The format that the bytes show.
pub open spec fn detected(buf: Seq<u8>) -> Option<Format> {
    if buf.len() < 4 {
        None
    } else if has_magic(buf, 0, seq![0xFFu8, 0xD8, 0xFF]) {
        Some(Format::Jpeg)
    } else if has_magic(buf, 0, seq![0x89u8, 0x50, 0x4E, 0x47, 0x0D, 0x0A, 0x1A, 0x0A]) {
        Some(Format::Png)
    } else if has_magic(buf, 0, seq![0x47u8, 0x49, 0x46, 0x38]) {
        Some(Format::Gif)
    } else if has_magic(buf, 0, seq![0x42u8, 0x4D]) {
        Some(Format::Bmp)
    } else if has_magic(buf, 0, seq![0x52u8, 0x49, 0x46, 0x46]) && has_magic(
        buf,
        8,
        seq![0x57u8, 0x45, 0x42, 0x50],
    ) {
        Some(Format::Webp)
    } else if has_magic(buf, 0, seq![0x49u8, 0x49, 0x2A, 0x00]) || has_magic(
        buf,
        0,
        seq![0x4Du8, 0x4D, 0x00, 0x2A],
    ) {
        Some(Format::Tiff)
    } else if has_magic(buf, 0, seq![0x00u8, 0x00, 0x01, 0x00]) {
        Some(Format::Ico)
    } else if has_magic(buf, 4, seq![0x66u8, 0x74, 0x79, 0x70]) && is_avif_brand(buf) {
        Some(Format::Avif)
    } else if has_magic(buf, 4, seq![0x66u8, 0x74, 0x79, 0x70]) && is_heic_brand(buf) {
        Some(Format::Heic)
    } else if looks_like_svg(buf) {
        Some(Format::Svg)
    } else {
        None
    }
}

/// How many bytes of a file can bear on its format.
pub const SNIFF_LEN: usize = 512;

/// The bytes of a file that can bear on its format.
pub open spec fn sniffed(buf: Seq<u8>) -> Seq<u8> {
    if buf.len() <= SNIFF_LEN {
        buf
    } else {
        buf.take(SNIFF_LEN as int)
    }
}

/// A byte between the byte order mark and the first tag of an SVG file.
pub open spec fn is_blank(b: u8) -> bool {
    b == 0x20 || b == 0x09 || b == 0x0D || b == 0x0A
}

/// `s` without the blanks that it starts with.
pub open spec fn skip_blanks(s: Seq<u8>) -> Seq<u8>
    decreases s.len(),
{
    if s.len() > 0 && is_blank(s[0]) {
        skip_blanks(s.drop_first())
    } else {
        s
    }
}

/// `s` without the UTF-8 byte order mark that it may start with.
pub open spec fn skip_mark(s: Seq<u8>) -> Seq<u8> {
    if has_magic(s, 0, seq![0xEFu8, 0xBB, 0xBF]) {
        s.skip(3)
    } else {
        s
    }
}

/// Whether the tag `<svg` stands at the index `i`, in capital or small letters.
pub open spec fn svg_tag_at(s: Seq<u8>, i: int) -> bool {
    &&& 0 <= i
    &&& i + 4 <= s.len()
    &&& s[i] == 0x3C
    &&& (s[i + 1] == 0x73 || s[i + 1] == 0x53)
    &&& (s[i + 2] == 0x76 || s[i + 2] == 0x56)
    &&& (s[i + 3] == 0x67 || s[i + 3] == 0x47)
}

/// Whether the first bytes are those of an SVG file: a byte order mark and
/// blanks, either or both of which may be missing, then a tag, and the tag
/// `<svg` there or later.
pub open spec fn looks_like_svg(buf: Seq<u8>) -> bool {
    let body = skip_blanks(skip_mark(sniffed(buf)));
    &&& body.len() > 0
    &&& body[0] == 0x3C
    &&& exists|i: int| #[trigger] svg_tag_at(body, i)
}

/// Whether `magic` stands in `buf` from the index `at` on.
fn has_magic_at(buf: &[u8], at: usize, magic: &[u8]) -> (r: bool)
    requires
        at <= 8,
        magic@.len() <= 8,
    ensures
        r == has_magic(buf@, at as int, magic@),
{
    if buf.len() < at + magic.len() {
        return false;
    }
    let mut i: usize = 0;
    while i < magic.len()
        invariant
            i <= magic@.len(),
            at <= 8,
            magic@.len() <= 8,
            at + magic@.len() <= buf@.len(),
            forall|j: int| 0 <= j < i ==> buf@[at + j] == magic@[j],
        decreases magic@.len() - i,
    {
        if buf[at + i] != magic[i] {
            assert(buf@.subrange(at as int, at + magic@.len())[i as int] == buf@[at + i]);
            return false;
        }
        i = i + 1;
    }
    assert(buf@.subrange(at as int, at + magic@.len()) =~= magic@);
    true
}

/// Sniff the image format from a byte buffer. Returns `None` if the bytes do
/// not look like any supported image format.
pub fn detect(buf: &[u8]) -> (r: Option<Format>)
    ensures
        r == detected(buf@),
{
    if buf.len() < 4 {
        return None;
    }
    if has_magic_at(buf, 0, &[0xFFu8, 0xD8, 0xFF]) {
        return Some(Format::Jpeg);
    }
    if has_magic_at(buf, 0, &[0x89u8, 0x50, 0x4E, 0x47, 0x0D, 0x0A, 0x1A, 0x0A]) {
        return Some(Format::Png);
    }
    if has_magic_at(buf, 0, &[0x47u8, 0x49, 0x46, 0x38]) {
        return Some(Format::Gif);
    }
    if has_magic_at(buf, 0, &[0x42u8, 0x4D]) {
        return Some(Format::Bmp);
    }
    if has_magic_at(buf, 0, &[0x52u8, 0x49, 0x46, 0x46]) && has_magic_at(
        buf,
        8,
        &[0x57u8, 0x45, 0x42, 0x50],
    ) {
        return Some(Format::Webp);
    }
    if has_magic_at(buf, 0, &[0x49u8, 0x49, 0x2A, 0x00]) || has_magic_at(
        buf,
        0,
        &[0x4Du8, 0x4D, 0x00, 0x2A],
    ) {
        return Some(Format::Tiff);
    }
    if has_magic_at(buf, 0, &[0x00u8, 0x00, 0x01, 0x00]) {
        return Some(Format::Ico);
    }
    if has_magic_at(buf, 4, &[0x66u8, 0x74, 0x79, 0x70]) {
        if has_magic_at(buf, 8, &[0x61u8, 0x76, 0x69, 0x66]) || has_magic_at(
            buf,
            8,
            &[0x61u8, 0x76, 0x69, 0x73],
        ) {
            return Some(Format::Avif);
        }
        if has_magic_at(buf, 8, &[0x68u8, 0x65, 0x69, 0x63]) || has_magic_at(
            buf,
            8,
            &[0x68u8, 0x65, 0x69, 0x78],
        ) || has_magic_at(buf, 8, &[0x68u8, 0x65, 0x76, 0x63]) || has_magic_at(
            buf,
            8,
            &[0x68u8, 0x65, 0x76, 0x78],
        ) || has_magic_at(buf, 8, &[0x6du8, 0x69, 0x66, 0x31]) || has_magic_at(
            buf,
            8,
            &[0x6du8, 0x73, 0x66, 0x31],
        ) {
            return Some(Format::Heic);
        }
    }
    if is_svg(buf) {
        return Some(Format::Svg);
    }
    None
}

/// Blanks at the start do not bear on what follows them.
proof fn lemma_skip_blanks_at(s: Seq<u8>, k: int)
    requires
        0 <= k <= s.len(),
        forall|i: int| 0 <= i < k ==> is_blank(#[trigger] s[i]),
    ensures
        skip_blanks(s) == skip_blanks(s.skip(k)),
    decreases k,
{
    if k == 0 {
        assert(s.skip(0) =~= s);
    } else {
        assert(is_blank(s[0]));
        let t = s.drop_first();
        assert forall|i: int| 0 <= i < k - 1 implies is_blank(#[trigger] t[i]) by {
            assert(t[i] == s[i + 1]);
        }
        lemma_skip_blanks_at(t, k - 1);
        assert(t.skip(k - 1) =~= s.skip(k));
    }
}

/// Whether the first bytes are those of an SVG file.
fn is_svg(buf: &[u8]) -> (r: bool)
    ensures
        r == looks_like_svg(buf@),
{
    let len: usize = if buf.len() <= SNIFF_LEN {
        buf.len()
    } else {
        SNIFF_LEN
    };
    let ghost head = buf@.take(len as int);
    assert(head =~= sniffed(buf@));
    let mut i: usize = 0;
    if len >= 3 && buf[0] == 0xEF && buf[1] == 0xBB && buf[2] == 0xBF {
        i = 3;
    }
    let from: usize = i;
    let ghost text = skip_mark(head);
    proof {
        if head.len() >= 3 {
            let three = head.subrange(0, 3);
            let mark = seq![0xEFu8, 0xBB, 0xBF];
            assert(three[0] == head[0] && three[1] == head[1] && three[2] == head[2]);
            assert(mark[0] == 0xEF && mark[1] == 0xBB && mark[2] == 0xBF);
            if from == 3 {
                assert(three =~= mark);
            }
        }
        assert(text =~= head.skip(from as int));
    }
    while i < len && (buf[i] == 0x20 || buf[i] == 0x09 || buf[i] == 0x0D || buf[i] == 0x0A)
        invariant
            from <= i <= len <= buf@.len(),
            head == buf@.take(len as int),
            text == head.skip(from as int),
            forall|j: int| 0 <= j < i - from ==> is_blank(#[trigger] text[j]),
        decreases len - i,
    {
        assert(text[i - from] == buf@[i as int]);
        i = i + 1;
    }
    let ghost body = skip_blanks(text);
    proof {
        lemma_skip_blanks_at(text, i - from);
        assert(text.skip(i - from) =~= head.skip(i as int));
        if i < len {
            assert(head.skip(i as int)[0] == buf@[i as int]);
        }
        assert(body =~= head.skip(i as int));
    }
    if i >= len || buf[i] != 0x3C {
        return false;
    }
    let start: usize = i;
    while i + 4 <= len
        invariant
            start <= i <= len <= buf@.len(),
            len <= SNIFF_LEN,
            head == buf@.take(len as int),
            body == head.skip(start as int),
            body == skip_blanks(skip_mark(sniffed(buf@))),
            body.len() > 0 && body[0] == 0x3C,
            forall|j: int| 0 <= j < i - start ==> !svg_tag_at(body, j),
        decreases len - i,
    {
        let ghost k = i - start;
        assert(body[k] == buf@[i as int] && body[k + 1] == buf@[i + 1] && body[k + 2] == buf@[i + 2]
            && body[k + 3] == buf@[i + 3]);
        if buf[i] == 0x3C && (buf[i + 1] == 0x73 || buf[i + 1] == 0x53) && (buf[i + 2] == 0x76
            || buf[i + 2] == 0x56) && (buf[i + 3] == 0x67 || buf[i + 3] == 0x47) {
            assert(svg_tag_at(body, i - start));
            return true;
        }
        assert(!svg_tag_at(body, i - start));
        i = i + 1;
    }
    assert forall|j: int| !(#[trigger] svg_tag_at(body, j)) by {
        if svg_tag_at(body, j) {
            assert(j < i - start);
        }
    }
    false
}

// ---------------------------------------------------------------------------
// Validation
// ---------------------------------------------------------------------------

/// How many bytes the report on an unknown format shows.
pub const PREVIEW_LEN: usize = 32;

/// The bytes in hexadecimal notation, with a blank between any two.
pub open spec fn hex_list(s: Seq<u8>) -> Seq<char>
    decreases s.len(),
{
    if s.len() == 0 {
        Seq::empty()
    } else if s.len() == 1 {
        hex(s[0] as nat, 2)
    } else {
        hex_list(s.drop_last()) + " "@ + hex(s.last() as nat, 2)
    }
}

/// The report on bytes that match no format.
pub open spec fn unknown_format(buf: Seq<u8>) -> Seq<char> {
    let shown = if buf.len() <= PREVIEW_LEN {
        buf
    } else {
        buf.take(PREVIEW_LEN as int)
    };
    "bytes do not match any known image format (first 32 bytes: "@ + hex_list(shown) + ")"@
}

/// Validate that a fully downloaded file is a real image. Returns the detected
/// format, or an error describing why the file is not a valid image.
pub fn validate(buf: &[u8]) -> (r: Result<Format, String>)
    ensures
        match detected(buf@) {
            Some(f) => r == Ok::<Format, String>(f),
            None => r matches Err(e) && e@ == unknown_format(buf@),
        },
{
    match detect(buf) {
        Some(f) => Ok(f),
        None => {
            let len: usize = if buf.len() <= PREVIEW_LEN {
                buf.len()
            } else {
                PREVIEW_LEN
            };
            let mut message = String::new();
            message.append("bytes do not match any known image format (first 32 bytes: ");
            let ghost opening = message@;
            let mut i: usize = 0;
            assert(message@ =~= opening + hex_list(buf@.take(0)));
            while i < len
                invariant
                    i <= len <= buf@.len(),
                    message@ == opening + hex_list(buf@.take(i as int)),
                decreases len - i,
            {
                let ghost before = hex_list(buf@.take(i as int));
                let ghost after = buf@.take(i + 1);
                assert(after.drop_last() =~= buf@.take(i as int));
                assert(after.last() == buf@[i as int]);
                if i > 0 {
                    message.append(" ");
                }
                push_hex(&mut message, buf[i] as u64, 2);
                assert(message@ =~= opening + hex_list(after));
                i = i + 1;
            }
            message.append(")");
            proof {
                assert(buf@.len() <= PREVIEW_LEN ==> buf@.take(len as int) =~= buf@);
                assert(message@ =~= unknown_format(buf@));
            }
            Err(message)
        },
    }
}

// ---------------------------------------------------------------------------
// Extensions
// ---------------------------------------------------------------------------

/// Whether what follows the last dot of the name is an extension in use for
/// the format, in capital or small letters.
pub open spec fn has_extension_of(filename: Seq<char>, format: Format) -> bool {
    match last_index(filename, '.') {
        Some(i) => format.accepts(lower(filename.skip(i + 1))),
        None => false,
    }
}

/// Whether the characters are those of the text.
fn is_text(v: &Vec<char>, text: &str) -> (r: bool)
    ensures
        r == (v@ == text@),
{
    let t = chars_of(text);
    same_chars(v, &t)
}

/// Whether a file extension already present in a URL/filename reasonably
/// matches the sniffed format. Used to avoid appending a duplicate extension.
pub fn extension_matches(filename: &str, format: Format) -> (r: bool)
    ensures
        r == has_extension_of(filename@, format),
{
    let name = chars_of(filename);
    let dot: usize = match find_last(&name, '.') {
        Some(i) => i,
        None => {
            return false;
        },
    };
    let len: usize = name.len();
    let tail = slice_chars(&name, dot + 1, len);
    assert(tail@ =~= filename@.skip(dot + 1));
    let ext = to_lower(&tail);
    match format {
        Format::Jpeg => is_text(&ext, "jpg") || is_text(&ext, "jpeg") || is_text(&ext, "jpe")
            || is_text(&ext, "jfif"),
        Format::Png => is_text(&ext, "png"),
        Format::Gif => is_text(&ext, "gif"),
        Format::Webp => is_text(&ext, "webp"),
        Format::Bmp => is_text(&ext, "bmp") || is_text(&ext, "dib"),
        Format::Tiff => is_text(&ext, "tif") || is_text(&ext, "tiff"),
        Format::Avif => is_text(&ext, "avif") || is_text(&ext, "avifs"),
        Format::Heic => is_text(&ext, "heic") || is_text(&ext, "heif"),
        Format::Svg => is_text(&ext, "svg") || is_text(&ext, "svgz"),
        Format::Ico => is_text(&ext, "ico") || is_text(&ext, "cur"),
    }
}

// ---------------------------------------------------------------------------
// Laws
// ---------------------------------------------------------------------------

/// A byte string stands in a file if and only if it stands in a part of the
/// file that reaches as far.
proof fn lemma_magic_in_head(buf: Seq<u8>, n: int, at: int, magic: Seq<u8>)
    requires
        0 <= at,
        at + magic.len() <= n <= buf.len(),
    ensures
        has_magic(buf.take(n), at, magic) == has_magic(buf, at, magic),
{
    assert(buf.take(n).subrange(at, at + magic.len()) =~= buf.subrange(at, at + magic.len()));
}

/// Magic bytes live at the start of a file: the first 512 bytes tell as much
/// about its format as the whole of it.
pub proof fn law_head_tells_format(file: Seq<u8>, n: int)
    requires
        512 <= n <= file.len(),
    ensures
        detected(file.take(n)) == detected(file),
{
    assert forall|at: int, magic: Seq<u8>|
        0 <= at && at + magic.len() <= n implies #[trigger] has_magic(file.take(n), at, magic)
        == has_magic(file, at, magic) by {
        lemma_magic_in_head(file, n, at, magic);
    }
    assert(sniffed(file.take(n)) =~= sniffed(file));
}

/// The canonical extension of a format is one of those in use for it.
pub proof fn law_canonical_extension_is_accepted(format: Format)
    ensures
        format.accepts(format.extension()),
        lower(format.extension()) == format.extension(),
        dot_free(format.extension()),
{
    reveal_strlit("jpg");
    reveal_strlit("png");
    reveal_strlit("gif");
    reveal_strlit("webp");
    reveal_strlit("bmp");
    reveal_strlit("tif");
    reveal_strlit("avif");
    reveal_strlit("heic");
    reveal_strlit("svg");
    reveal_strlit("ico");
    assert(lower(format.extension()) =~= format.extension());
}

/// Whether no dot occurs in the text.
pub open spec fn dot_free(s: Seq<char>) -> bool {
    forall|i: int| 0 <= i < s.len() ==> s[i] != '.'
}

/// Two bytes in a row.
proof fn lemma_two_bytes(buf: Seq<u8>, at: int, a: u8, b: u8)
    requires
        0 <= at,
    ensures
        has_magic(buf, at, seq![a, b]) <==> buf.len() >= at + 2 && buf[at] == a && buf[at + 1] == b,
{
    let magic = seq![a, b];
    assert(magic[0] == a && magic[1] == b);
    if buf.len() >= at + 2 {
        let part = buf.subrange(at, at + 2);
        assert(part[0] == buf[at] && part[1] == buf[at + 1]);
        if buf[at] == a && buf[at + 1] == b {
            assert(part =~= magic);
        }
    }
}

/// Three bytes in a row.
proof fn lemma_three_bytes(buf: Seq<u8>, at: int, a: u8, b: u8, c: u8)
    requires
        0 <= at,
    ensures
        has_magic(buf, at, seq![a, b, c]) <==> buf.len() >= at + 3 && buf[at] == a && buf[at + 1]
            == b && buf[at + 2] == c,
{
    let magic = seq![a, b, c];
    assert(magic[0] == a && magic[1] == b && magic[2] == c);
    if buf.len() >= at + 3 {
        let part = buf.subrange(at, at + 3);
        assert(part[0] == buf[at] && part[1] == buf[at + 1] && part[2] == buf[at + 2]);
        if buf[at] == a && buf[at + 1] == b && buf[at + 2] == c {
            assert(part =~= magic);
        }
    }
}

/// Four bytes in a row.
proof fn lemma_four_bytes(buf: Seq<u8>, at: int, a: u8, b: u8, c: u8, d: u8)
    requires
        0 <= at,
    ensures
        has_magic(buf, at, seq![a, b, c, d]) <==> buf.len() >= at + 4 && buf[at] == a && buf[at + 1]
            == b && buf[at + 2] == c && buf[at + 3] == d,
{
    let magic = seq![a, b, c, d];
    assert(magic[0] == a && magic[1] == b && magic[2] == c && magic[3] == d);
    if buf.len() >= at + 4 {
        let part = buf.subrange(at, at + 4);
        assert(part[0] == buf[at] && part[1] == buf[at + 1]);
        assert(part[2] == buf[at + 2] && part[3] == buf[at + 3]);
        if buf[at] == a && buf[at + 1] == b && buf[at + 2] == c && buf[at + 3] == d {
            assert(part =~= magic);
        }
    }
}

/// The eight bytes that a PNG file starts with.
proof fn lemma_png_bytes(buf: Seq<u8>)
    ensures
        has_magic(buf, 0, seq![0x89u8, 0x50, 0x4E, 0x47, 0x0D, 0x0A, 0x1A, 0x0A]) <==> (buf.len()
            >= 8 && buf[0] == 0x89 && buf[1] == 0x50 && buf[2] == 0x4E && buf[3] == 0x47 && buf[4]
            == 0x0D && buf[5] == 0x0A && buf[6] == 0x1A && buf[7] == 0x0A),
{
    let magic = seq![0x89u8, 0x50, 0x4E, 0x47, 0x0D, 0x0A, 0x1A, 0x0A];
    assert(magic[0] == 0x89 && magic[1] == 0x50 && magic[2] == 0x4E && magic[3] == 0x47);
    assert(magic[4] == 0x0D && magic[5] == 0x0A && magic[6] == 0x1A && magic[7] == 0x0A);
    if buf.len() >= 8 {
        let part = buf.subrange(0, 8);
        assert(part[0] == buf[0] && part[1] == buf[1] && part[2] == buf[2] && part[3] == buf[3]);
        assert(part[4] == buf[4] && part[5] == buf[5] && part[6] == buf[6] && part[7] == buf[7]);
        if buf[0] == 0x89 && buf[1] == 0x50 && buf[2] == 0x4E && buf[3] == 0x47 && buf[4] == 0x0D
            && buf[5] == 0x0A && buf[6] == 0x1A && buf[7] == 0x0A {
            assert(part =~= magic);
        }
    }
}

/// A file is a JPEG image if and only if it starts with FF D8 FF and goes on, whatever
/// the fourth byte is.
pub proof fn law_jpeg_signature(buf: Seq<u8>)
    ensures
        detected(buf) == Some(Format::Jpeg) <==> buf.len() >= 4 && buf[0] == 0xFF && buf[1] == 0xD8
            && buf[2] == 0xFF,
{
    lemma_three_bytes(buf, 0, 0xFF, 0xD8, 0xFF);
}

/// A file is a PNG image if and only if it starts with 89 `PNG` CR LF 1A LF.
pub proof fn law_png_signature(buf: Seq<u8>)
    ensures
        detected(buf) == Some(Format::Png) <==> (buf.len() >= 8 && buf[0] == 0x89 && buf[1] == 0x50
            && buf[2] == 0x4E && buf[3] == 0x47 && buf[4] == 0x0D && buf[5] == 0x0A && buf[6]
            == 0x1A && buf[7] == 0x0A),
{
    lemma_three_bytes(buf, 0, 0xFF, 0xD8, 0xFF);
    lemma_png_bytes(buf);
}

/// A file is a GIF image if and only if it starts with `GIF8`.
pub proof fn law_gif_signature(buf: Seq<u8>)
    ensures
        detected(buf) == Some(Format::Gif) <==> (buf.len() >= 4 && buf[0] == 0x47 && buf[1] == 0x49
            && buf[2] == 0x46 && buf[3] == 0x38),
{
    law_jpeg_signature(buf);
    law_png_signature(buf);
    lemma_four_bytes(buf, 0, 0x47, 0x49, 0x46, 0x38);
}

/// A file is a BMP image if and only if it starts with `BM` and has four bytes at least.
pub proof fn law_bmp_signature(buf: Seq<u8>)
    ensures
        detected(buf) == Some(Format::Bmp) <==> buf.len() >= 4 && buf[0] == 0x42 && buf[1] == 0x4D,
{
    law_jpeg_signature(buf);
    law_png_signature(buf);
    law_gif_signature(buf);
    lemma_two_bytes(buf, 0, 0x42, 0x4D);
}

/// A file is a WebP image if and only if it starts with `RIFF`, and `WEBP` follows after
/// four bytes that may be any.
pub proof fn law_webp_signature(buf: Seq<u8>)
    ensures
        detected(buf) == Some(Format::Webp) <==> (buf.len() >= 12 && buf[0] == 0x52 && buf[1]
            == 0x49 && buf[2] == 0x46 && buf[3] == 0x46 && buf[8] == 0x57 && buf[9] == 0x45 && buf[10]
            == 0x42 && buf[11] == 0x50),
{
    law_jpeg_signature(buf);
    law_png_signature(buf);
    law_gif_signature(buf);
    law_bmp_signature(buf);
    lemma_four_bytes(buf, 0, 0x52, 0x49, 0x46, 0x46);
    lemma_four_bytes(buf, 8, 0x57, 0x45, 0x42, 0x50);
}

/// A file is a TIFF image if and only if it starts with `II*` and a zero byte, or with
/// `MM`, a zero byte and `*`.
pub proof fn law_tiff_signature(buf: Seq<u8>)
    ensures
        detected(buf) == Some(Format::Tiff) <==> buf.len() >= 4 && ((buf[0] == 0x49 && buf[1]
            == 0x49 && buf[2] == 0x2A && buf[3] == 0) || (buf[0] == 0x4D && buf[1] == 0x4D && buf[2]
            == 0 && buf[3] == 0x2A)),
{
    law_jpeg_signature(buf);
    law_png_signature(buf);
    law_gif_signature(buf);
    law_bmp_signature(buf);
    law_webp_signature(buf);
    lemma_four_bytes(buf, 0, 0x49, 0x49, 0x2A, 0x00);
    lemma_four_bytes(buf, 0, 0x4D, 0x4D, 0x00, 0x2A);
}

/// A file is an ICO image if and only if it starts with 00 00 01 00.
pub proof fn law_ico_signature(buf: Seq<u8>)
    ensures
        detected(buf) == Some(Format::Ico) <==> (buf.len() >= 4 && buf[0] == 0 && buf[1] == 0
            && buf[2] == 1 && buf[3] == 0),
{
    law_jpeg_signature(buf);
    law_png_signature(buf);
    law_gif_signature(buf);
    law_bmp_signature(buf);
    law_webp_signature(buf);
    law_tiff_signature(buf);
    lemma_four_bytes(buf, 0, 0x00, 0x00, 0x01, 0x00);
}

/// A file whose first bytes tell nothing else is an AVIF image if and only if `ftyp`
/// stands behind four bytes that may be any, and then the brand `avif` or `avis`.
pub proof fn law_avif_signature(buf: Seq<u8>)
    ensures
        detected(buf) == Some(Format::Avif) ==> buf.len() >= 12 && buf[4] == 0x66 && buf[5] == 0x74
            && buf[6] == 0x79 && buf[7] == 0x70 && buf[8] == 0x61 && buf[9] == 0x76 && buf[10]
            == 0x69 && (buf[11] == 0x66 || buf[11] == 0x73),
        buf.len() >= 12 && buf[4] == 0x66 && buf[5] == 0x74 && buf[6] == 0x79 && buf[7] == 0x70
            && buf[8] == 0x61 && buf[9] == 0x76 && buf[10] == 0x69 && (buf[11] == 0x66 || buf[11]
            == 0x73) ==> match detected(buf) {
            Some(Format::Avif) | Some(Format::Jpeg) | Some(Format::Gif) | Some(Format::Bmp)
            | Some(Format::Tiff) | Some(Format::Ico) => true,
            _ => false,
        },
{
    lemma_brand_bytes(buf);
    law_jpeg_signature(buf);
    law_png_signature(buf);
    law_gif_signature(buf);
    law_bmp_signature(buf);
    law_webp_signature(buf);
    law_tiff_signature(buf);
    law_ico_signature(buf);
}

/// The brands of ISO media, byte by byte.
proof fn lemma_brand_bytes(buf: Seq<u8>)
    ensures
        has_magic(buf, 4, seq![0x66u8, 0x74, 0x79, 0x70]) <==> (buf.len() >= 8 && buf[4] == 0x66
            && buf[5] == 0x74 && buf[6] == 0x79 && buf[7] == 0x70),
        is_avif_brand(buf) <==> (buf.len() >= 12 && buf[8] == 0x61 && buf[9] == 0x76 && buf[10]
            == 0x69 && (buf[11] == 0x66 || buf[11] == 0x73)),
        is_heic_brand(buf) <==> buf.len() >= 12 && ((buf[8] == 0x68 && buf[9] == 0x65 && buf[10]
            == 0x69 && (buf[11] == 0x63 || buf[11] == 0x78)) || (buf[8] == 0x68 && buf[9] == 0x65
            && buf[10] == 0x76 && (buf[11] == 0x63 || buf[11] == 0x78)) || (buf[8] == 0x6d && (
        buf[9] == 0x69 || buf[9] == 0x73) && buf[10] == 0x66 && buf[11] == 0x31)),
{
    lemma_four_bytes(buf, 4, 0x66, 0x74, 0x79, 0x70);
    lemma_four_bytes(buf, 8, 0x61, 0x76, 0x69, 0x66);
    lemma_four_bytes(buf, 8, 0x61, 0x76, 0x69, 0x73);
    lemma_four_bytes(buf, 8, 0x68, 0x65, 0x69, 0x63);
    lemma_four_bytes(buf, 8, 0x68, 0x65, 0x69, 0x78);
    lemma_four_bytes(buf, 8, 0x68, 0x65, 0x76, 0x63);
    lemma_four_bytes(buf, 8, 0x68, 0x65, 0x76, 0x78);
    lemma_four_bytes(buf, 8, 0x6d, 0x69, 0x66, 0x31);
    lemma_four_bytes(buf, 8, 0x6d, 0x73, 0x66, 0x31);
}

/// A file whose first bytes tell nothing else is a HEIC image if and only if `ftyp`
/// stands behind four bytes that may be any, and then one of the brands `heic`, `heix`,
/// `hevc`, `hevx`, `mif1` and `msf1`.
pub proof fn law_heic_signature(buf: Seq<u8>)
    ensures
        detected(buf) == Some(Format::Heic) ==> buf.len() >= 12 && buf[4] == 0x66 && buf[5] == 0x74
            && buf[6] == 0x79 && buf[7] == 0x70,
        buf.len() >= 12 && buf[4] == 0x66 && buf[5] == 0x74 && buf[6] == 0x79 && buf[7] == 0x70
            ==> (match detected(buf) {
            Some(Format::Jpeg) | Some(Format::Gif) | Some(Format::Bmp) | Some(Format::Tiff)
            | Some(Format::Ico) => true,
            found => found == Some(Format::Heic) <==> ((buf[8] == 0x68 && buf[9] == 0x65 && buf[10]
                == 0x69 && (buf[11] == 0x63 || buf[11] == 0x78)) || (buf[8] == 0x68 && buf[9]
                == 0x65 && buf[10] == 0x76 && (buf[11] == 0x63 || buf[11] == 0x78)) || (buf[8]
                == 0x6d && (buf[9] == 0x69 || buf[9] == 0x73) && buf[10] == 0x66 && buf[11]
                == 0x31)),
        }),
{
    lemma_brand_bytes(buf);
    law_jpeg_signature(buf);
    law_png_signature(buf);
    law_gif_signature(buf);
    law_bmp_signature(buf);
    law_webp_signature(buf);
    law_tiff_signature(buf);
    law_ico_signature(buf);
}

/// What is left of a file behind its byte order mark and blanks.
proof fn lemma_svg_body(buf: Seq<u8>, mark: int, start: int)
    requires
        mark == 0 || mark == 3,
        mark == 3 <==> buf.len() >= 3 && buf[0] == 0xEF && buf[1] == 0xBB && buf[2] == 0xBF,
        mark <= start < buf.len(),
        start < 512,
        forall|i: int|
            mark <= i < start ==> #[trigger] buf[i] == 0x20 || buf[i] == 0x09 || buf[i] == 0x0D
                || buf[i] == 0x0A,
        buf[start] != 0x20 && buf[start] != 0x09 && buf[start] != 0x0D && buf[start] != 0x0A,
    ensures
        ({
            let body = skip_blanks(skip_mark(sniffed(buf)));
            &&& body.len() == sniffed(buf).len() - start
            &&& forall|i: int| 0 <= i < body.len() ==> #[trigger] body[i] == buf[start + i]
        }),
{
    let head = sniffed(buf);
    assert(head.len() == if buf.len() <= 512 {
        buf.len() as int
    } else {
        512
    });
    lemma_three_bytes(head, 0, 0xEF, 0xBB, 0xBF);
    let text = skip_mark(head);
    assert(text =~= head.skip(mark));
    assert forall|i: int| 0 <= i < start - mark implies is_blank(#[trigger] text[i]) by {
        assert(text[i] == buf[mark + i]);
    }
    lemma_skip_blanks_at(text, start - mark);
    let rest = text.skip(start - mark);
    assert(rest[0] == buf[start]);
    assert(skip_blanks(rest) == rest);
    assert forall|i: int| 0 <= i < rest.len() implies #[trigger] rest[i] == buf[start + i] by {}
}

/// A file whose first bytes tell nothing else is an SVG image if and only if, behind a
/// byte order mark and blanks, either or both of which may be missing, the first byte
/// is `<`, and `<svg`, in capital or small letters, stands there or later within the
/// first 512 bytes. Here `mark` is the length of the byte order mark, and `start` the
/// index of the first byte behind it that is no blank.
pub proof fn law_svg_signature(buf: Seq<u8>, mark: int, start: int)
    requires
        buf.len() >= 4,
        mark == 0 || mark == 3,
        mark == 3 <==> buf[0] == 0xEF && buf[1] == 0xBB && buf[2] == 0xBF,
        mark <= start < buf.len(),
        start < 512,
        forall|i: int|
            mark <= i < start ==> #[trigger] buf[i] == 0x20 || buf[i] == 0x09 || buf[i] == 0x0D
                || buf[i] == 0x0A,
        buf[start] != 0x20 && buf[start] != 0x09 && buf[start] != 0x0D && buf[start] != 0x0A,
    ensures
        detected(buf) is None || detected(buf) == Some(Format::Svg) ==> (detected(buf) == Some(
            Format::Svg,
        ) <==> buf[start] == 0x3C && exists|i: int|
            start <= i && i + 4 <= 512 && i + 4 <= buf.len() && #[trigger] buf[i] == 0x3C && (
            buf[i + 1] == 0x73 || buf[i + 1] == 0x53) && (buf[i + 2] == 0x76 || buf[i + 2] == 0x56)
                && (buf[i + 3] == 0x67 || buf[i + 3] == 0x47)),
        buf[start] != 0x3C ==> detected(buf) != Some(Format::Svg),
        mark == 3 || start > 3 ==> match detected(buf) {
            None | Some(Format::Svg) | Some(Format::Avif) | Some(Format::Heic) => true,
            _ => false,
        },
        mark == 0 && buf[start] == 0x3C ==> match detected(buf) {
            None | Some(Format::Svg) | Some(Format::Avif) | Some(Format::Heic) => true,
            _ => false,
        },
{
    lemma_svg_body(buf, mark, start);
    law_jpeg_signature(buf);
    law_png_signature(buf);
    law_gif_signature(buf);
    law_bmp_signature(buf);
    law_webp_signature(buf);
    law_tiff_signature(buf);
    law_ico_signature(buf);
    let body = skip_blanks(skip_mark(sniffed(buf)));
    if looks_like_svg(buf) {
        let k = choose|k: int| #[trigger] svg_tag_at(body, k);
        assert(body[k] == buf[start + k] && body[k + 1] == buf[start + k + 1]);
        assert(body[k + 2] == buf[start + k + 2] && body[k + 3] == buf[start + k + 3]);
        assert(buf[start + k] == 0x3C);
        assert(body[0] == buf[start + 0]);
    }
    if buf[start] == 0x3C && exists|i: int|
        start <= i && i + 4 <= 512 && i + 4 <= buf.len() && #[trigger] buf[i] == 0x3C && (buf[i + 1]
            == 0x73 || buf[i + 1] == 0x53) && (buf[i + 2] == 0x76 || buf[i + 2] == 0x56) && (buf[i
            + 3] == 0x67 || buf[i + 3] == 0x47) {
        let i = choose|i: int|
            start <= i && i + 4 <= 512 && i + 4 <= buf.len() && #[trigger] buf[i] == 0x3C && (buf[i
                + 1] == 0x73 || buf[i + 1] == 0x53) && (buf[i + 2] == 0x76 || buf[i + 2] == 0x56)
                && (buf[i + 3] == 0x67 || buf[i + 3] == 0x47);
        let k = i - start;
        assert(body[0] == buf[start + 0]);
        assert(body[k] == buf[start + k] && body[k + 1] == buf[start + k + 1]);
        assert(body[k + 2] == buf[start + k + 2] && body[k + 3] == buf[start + k + 3]);
        assert(svg_tag_at(body, k));
    }
}

/// Blanks alone show no format, and neither do fewer than four bytes.
pub proof fn law_blank_is_no_image(buf: Seq<u8>)
    ensures
        buf.len() < 4 ==> detected(buf) is None,
        (forall|i: int|
            0 <= i < buf.len() ==> #[trigger] buf[i] == 0x20 || buf[i] == 0x09 || buf[i] == 0x0D
                || buf[i] == 0x0A) ==> detected(buf) is None,
{
    if buf.len() >= 4 && (forall|i: int|
        0 <= i < buf.len() ==> #[trigger] buf[i] == 0x20 || buf[i] == 0x09 || buf[i] == 0x0D
            || buf[i] == 0x0A) {
        assert(is_blank(buf[0]));
        law_jpeg_signature(buf);
        law_png_signature(buf);
        law_gif_signature(buf);
        law_bmp_signature(buf);
        law_webp_signature(buf);
        law_tiff_signature(buf);
        law_ico_signature(buf);
        lemma_brand_bytes(buf);
        assert(is_blank(buf[3]));
        if buf.len() >= 8 {
            assert(is_blank(buf[4]));
        }
        let head = sniffed(buf);
        lemma_three_bytes(head, 0, 0xEF, 0xBB, 0xBF);
        assert(skip_mark(head) == head);
        assert forall|i: int| 0 <= i < head.len() implies is_blank(#[trigger] head[i]) by {
            assert(head[i] == buf[i]);
        }
        lemma_skip_blanks_at(head, head.len() as int);
        assert(head.skip(head.len() as int) =~= Seq::empty());
    }
}

/// The extensions that are in use for a format, in small letters. The first of each is
/// the canonical one.
pub proof fn law_extensions_of_formats(ext: Seq<char>)
    ensures
        Format::Jpeg.accepts(ext) <==> ext == "jpg"@ || ext == "jpeg"@ || ext == "jpe"@ || ext
            == "jfif"@,
        Format::Png.accepts(ext) <==> ext == "png"@,
        Format::Gif.accepts(ext) <==> ext == "gif"@,
        Format::Webp.accepts(ext) <==> ext == "webp"@,
        Format::Bmp.accepts(ext) <==> ext == "bmp"@ || ext == "dib"@,
        Format::Tiff.accepts(ext) <==> ext == "tif"@ || ext == "tiff"@,
        Format::Avif.accepts(ext) <==> ext == "avif"@ || ext == "avifs"@,
        Format::Heic.accepts(ext) <==> ext == "heic"@ || ext == "heif"@,
        Format::Svg.accepts(ext) <==> ext == "svg"@ || ext == "svgz"@,
        Format::Ico.accepts(ext) <==> ext == "ico"@ || ext == "cur"@,
        Format::Jpeg.extension() == "jpg"@ && Format::Png.extension() == "png"@,
        Format::Gif.extension() == "gif"@ && Format::Webp.extension() == "webp"@,
        Format::Bmp.extension() == "bmp"@ && Format::Tiff.extension() == "tif"@,
        Format::Avif.extension() == "avif"@ && Format::Heic.extension() == "heic"@,
        Format::Svg.extension() == "svg"@ && Format::Ico.extension() == "ico"@,
{
}

/// No extension is in use for two formats, so that a name tells at most one.
pub proof fn law_extension_tells_one_format(filename: Seq<char>, f: Format, g: Format)
    ensures
        forall|ext: Seq<char>| f.accepts(ext) && #[trigger] g.accepts(ext) ==> f == g,
        has_extension_of(filename, f) && has_extension_of(filename, g) ==> f == g,
        f.extension() == g.extension() ==> f == g,
{
    reveal_strlit("jpg");
    reveal_strlit("jpeg");
    reveal_strlit("jpe");
    reveal_strlit("jfif");
    reveal_strlit("png");
    reveal_strlit("gif");
    reveal_strlit("webp");
    reveal_strlit("bmp");
    reveal_strlit("dib");
    reveal_strlit("tif");
    reveal_strlit("tiff");
    reveal_strlit("avif");
    reveal_strlit("avifs");
    reveal_strlit("heic");
    reveal_strlit("heif");
    reveal_strlit("svg");
    reveal_strlit("svgz");
    reveal_strlit("ico");
    reveal_strlit("cur");
    assert("jpg"@[0] == 'j' && "jpeg"@[0] == 'j' && "jpe"@[0] == 'j');
    assert("jfif"@[0] == 'j' && "png"@[0] == 'p' && "gif"@[0] == 'g');
    assert("webp"@[0] == 'w' && "bmp"@[0] == 'b' && "dib"@[0] == 'd');
    assert("tif"@[0] == 't' && "tiff"@[0] == 't' && "avif"@[0] == 'a');
    assert("avifs"@[0] == 'a' && "heic"@[0] == 'h' && "heif"@[0] == 'h');
    assert("svg"@[0] == 's' && "svgz"@[0] == 's' && "ico"@[0] == 'i');
    assert("cur"@[0] == 'c');
    assert forall|ext: Seq<char>| f.accepts(ext) && #[trigger] g.accepts(ext) implies f == g by {}
    law_canonical_extension_is_accepted(f);
    law_canonical_extension_is_accepted(g);
}

/// What counts of a name is what stands behind its last dot, in capital or small
/// letters; a name without a dot has no extension.
pub proof fn law_extension_stands_behind_last_dot(stem: Seq<char>, ext: Seq<char>, format: Format)
    requires
        forall|i: int| 0 <= i < ext.len() ==> #[trigger] ext[i] != '.',
    ensures
        has_extension_of(stem.push('.') + ext, format) <==> format.accepts(lower(ext)),
        !has_extension_of(ext, format),
{
    let name = stem.push('.') + ext;
    lemma_last_index(name, '.');
    assert(name[stem.len() as int] == '.');
    let i = last_index(name, '.')->0;
    if i > stem.len() {
        assert(name[i] == ext[i - stem.len() - 1]);
    }
    assert(name.skip(i + 1) =~= ext);
    lemma_last_index(ext, '.');
}

/// Bytes that match no format are shown in the report: the first 32, or all where there
/// are fewer, in hexadecimal notation with a blank between any two.
pub proof fn law_report_shows_bytes(buf: Seq<u8>)
    ensures
        ({
            let n = if buf.len() < 32 {
                buf.len()
            } else {
                32
            };
            unknown_format(buf) == "bytes do not match any known image format (first 32 bytes: "@
                + join_all(Seq::new(n, |i: int| hex(buf[i] as nat, 2)), " "@) + ")"@
        }),
{
    let n = if buf.len() < 32 {
        buf.len()
    } else {
        32
    };
    let shown = buf.take(n as int);
    lemma_hex_list(shown);
    if buf.len() <= 32 {
        assert(shown =~= buf);
    }
    assert(Seq::new(shown.len(), |i: int| hex(shown[i] as nat, 2)) =~= Seq::new(
        n,
        |i: int| hex(buf[i] as nat, 2),
    ));
}

/// Bytes in hexadecimal notation are a list of texts.
proof fn lemma_hex_list(s: Seq<u8>)
    ensures
        hex_list(s) == join_all(Seq::new(s.len(), |i: int| hex(s[i] as nat, 2)), " "@),
    decreases s.len(),
{
    let parts = Seq::new(s.len(), |i: int| hex(s[i] as nat, 2));
    if s.len() > 1 {
        let t = s.drop_last();
        lemma_hex_list(t);
        assert(parts.drop_last() =~= Seq::new(t.len(), |i: int| hex(t[i] as nat, 2)));
    }
}

// ---------------------------------------------------------------------------
// Laws on what the functions return
// ---------------------------------------------------------------------------

/// Whatever follows them, the first bytes decide: what `detect` returns for a buffer of
/// any length, by its first bytes alone.
pub proof fn law_detect_goes_by_first_bytes(buf: &[u8], r: Option<Format>)
    requires
        call_ensures(detect, (buf,), r),
    ensures
        buf@.len() < 4 ==> r is None,
        r == Some(Format::Jpeg) <==> buf@.len() >= 4 && buf@[0] == 0xFF && buf@[1] == 0xD8
            && buf@[2] == 0xFF,
        r == Some(Format::Png) <==> (buf@.len() >= 8 && buf@[0] == 0x89 && buf@[1] == 0x50
            && buf@[2] == 0x4E && buf@[3] == 0x47 && buf@[4] == 0x0D && buf@[5] == 0x0A && buf@[6] == 0x1A
            && buf@[7] == 0x0A),
        r == Some(Format::Gif) <==> (buf@.len() >= 4 && buf@[0] == 0x47 && buf@[1] == 0x49
            && buf@[2] == 0x46 && buf@[3] == 0x38),
        r == Some(Format::Bmp) <==> buf@.len() >= 4 && buf@[0] == 0x42 && buf@[1] == 0x4D,
        r == Some(Format::Webp) <==> (buf@.len() >= 12 && buf@[0] == 0x52 && buf@[1] == 0x49
            && buf@[2] == 0x46 && buf@[3] == 0x46 && buf@[8] == 0x57 && buf@[9] == 0x45 && buf@[10]
            == 0x42 && buf@[11] == 0x50),
        r == Some(Format::Tiff) <==> buf@.len() >= 4 && ((buf@[0] == 0x49 && buf@[1] == 0x49
            && buf@[2] == 0x2A && buf@[3] == 0) || (buf@[0] == 0x4D && buf@[1] == 0x4D && buf@[2]
            == 0 && buf@[3] == 0x2A)),
        r == Some(Format::Ico) <==> (buf@.len() >= 4 && buf@[0] == 0 && buf@[1] == 0 && buf@[2] == 1
            && buf@[3] == 0),
{
    law_jpeg_signature(buf@);
    law_png_signature(buf@);
    law_gif_signature(buf@);
    law_bmp_signature(buf@);
    law_webp_signature(buf@);
    law_tiff_signature(buf@);
    law_ico_signature(buf@);
}

/// A file is valid if and only if a format is detected, and it is valid as that format.
pub proof fn law_valid_is_detected(buf: &[u8], found: Option<Format>, r: Result<Format, String>)
    requires
        call_ensures(detect, (buf,), found),
        call_ensures(validate, (buf,), r),
    ensures
        found is None <==> r is Err,
        found matches Some(format) ==> r == Ok::<Format, String>(format),
{
}

/// The extension of a name matches one format at most, so that a file of one format never
/// passes under the extension of another; and the canonical extension of a format is
/// matched by that format, behind whatever name.
pub proof fn law_name_matches_one_format(
    filename: &str,
    f: Format,
    g: Format,
    with_f: bool,
    with_g: bool,
    ext: &str,
)
    requires
        call_ensures(extension_matches, (filename, f), with_f),
        call_ensures(extension_matches, (filename, g), with_g),
        call_ensures(Format::ext, (&f,), ext),
    ensures
        with_f && with_g ==> f == g,
        (exists|stem: Seq<char>| filename@ == #[trigger] stem.push('.') + ext@) ==> with_f,
{
    law_extension_tells_one_format(filename@, f, g);
    law_canonical_extension_is_accepted(f);
    if exists|stem: Seq<char>| filename@ == #[trigger] stem.push('.') + ext@ {
        let stem = choose|stem: Seq<char>| filename@ == #[trigger] stem.push('.') + ext@;
        law_extension_stands_behind_last_dot(stem, ext@, f);
    }
}

} // verus!
