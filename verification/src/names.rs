//! File names: sanitizing, templates, extensions, and the plan by which the
//! name of a downloaded file is decided.

use vstd::prelude::*;

use crate::numbers::{
    decimal, hex, is_digit, law_decimal_reads_back, lemma_decimal_of_32_bits,
    lemma_hex_tail_is_all, lemma_hex_tells_apart, lower, parse_unsigned, push_decimal, push_hex,
    push_zero_padded, read_unsigned, zero_padded,
};
use crate::text::{
    chars_of, find_first, find_last, first_index, is_control, is_control_code, last_index,
    law_trim_is_exact, lemma_first_index, lemma_last_index, lemma_trim_bare, lemma_trim_end,
    lemma_trim_start, push_chars, same_chars, slice_chars, starts_with, text_of, trim, trim_start,
    trimmed, CharClass,
};
use crate::validate::{
    extension_matches, has_extension_of, law_extension_stands_behind_last_dot,
    law_extension_tells_one_format, Format,
};

verus! {

// ---------------------------------------------------------------------------
// Sanitizing
// ---------------------------------------------------------------------------

/// The longest file name, in characters.
pub const MAX_NAME_LEN: usize = 200;

/// Whether a file name must not hold `c`: a path separator, a character that
/// some file system forbids, or a control code.
pub open spec fn is_forbidden(c: char) -> bool {
    ||| c == '/'
    ||| c == '\\'
    ||| c == ':'
    ||| c == '*'
    ||| c == '?'
    ||| c == '"'
    ||| c == '<'
    ||| c == '>'
    ||| c == '|'
    ||| is_control_code(c)
}

/// `c`, or an underscore in place of a forbidden character.
pub open spec fn clean_char(c: char) -> char {
    if is_forbidden(c) {
        '_'
    } else {
        c
    }
}

/// `s` with every forbidden character replaced.
pub open spec fn cleaned(s: Seq<char>) -> Seq<char> {
    s.map_values(|c: char| clean_char(c))
}

/// At most the first `n` elements.
pub open spec fn at_most(s: Seq<char>, n: nat) -> Seq<char> {
    if s.len() <= n {
        s
    } else {
        s.take(n as int)
    }
}

/// `s` as a file name: forbidden characters replaced, no dots or blanks at
/// either end, cut off after the longest permitted length.
pub open spec fn sanitized(s: Seq<char>) -> Seq<char> {
    at_most(trim(cleaned(s), CharClass::DotOrBlank), MAX_NAME_LEN as nat)
}

/// Remove characters that are illegal or dangerous in filenames.
pub fn sanitize(s: &str) -> (r: String)
    ensures
        r@ == sanitized(s@),
{
    let v = chars_of(s);
    let mut c: Vec<char> = Vec::new();
    let mut i: usize = 0;
    while i < v.len()
        invariant
            i <= v@.len(),
            c@ == cleaned(v@.take(i as int)),
        decreases v@.len() - i,
    {
        let ch = v[i];
        if ch == '/' || ch == '\\' || ch == ':' || ch == '*' || ch == '?' || ch == '"' || ch == '<'
            || ch == '>' || ch == '|' || is_control(ch) {
            c.push('_');
        } else {
            c.push(ch);
        }
        i = i + 1;
        assert(cleaned(v@.take(i as int)) =~= cleaned(v@.take(i - 1)).push(clean_char(v@[i - 1])));
    }
    assert(v@.take(i as int) =~= v@);
    let t = trimmed(&c, CharClass::DotOrBlank);
    if t.len() > MAX_NAME_LEN {
        let head = slice_chars(&t, 0, MAX_NAME_LEN);
        assert(head@ =~= t@.take(MAX_NAME_LEN as int));
        text_of(&head)
    } else {
        text_of(&t)
    }
}

// ---------------------------------------------------------------------------
// Templates
// ---------------------------------------------------------------------------

/// What stands in the file name in place of the placeholder `{expr}`: the
/// detected extension for `ext`, the index for `n`, the index filled up with
/// zeros for `n:` and a width. Any other placeholder stays as it is, and so
/// does `{ext}` where no format is known.
pub open spec fn placeholder(expr: Seq<char>, format: Option<Format>, index: nat) -> Seq<char> {
    if expr == "ext"@ && format is Some {
        format->0.extension()
    } else if expr == "n"@ {
        decimal(index)
    } else if "n:"@.is_prefix_of(expr) {
        zero_padded(
            index,
            match parse_unsigned(expr.skip(2), usize::MAX as nat) {
                Some(width) => width,
                None => 0,
            },
        )
    } else {
        seq!['{'] + expr + seq!['}']
    }
}

/// The template with its placeholders filled in. A brace that nothing closes
/// is an ordinary character.
pub open spec fn filled(t: Seq<char>, format: Option<Format>, index: nat) -> Seq<char>
    decreases t.len(),
{
    if t.len() == 0 {
        Seq::empty()
    } else {
        let close = first_index(t.skip(1), '}');
        proof {
            lemma_first_index(t.skip(1), '}');
        }
        if t[0] == '{' && close is Some {
            placeholder(t.subrange(1, 1 + close->0), format, index) + filled(
                t.skip(close->0 + 2),
                format,
                index,
            )
        } else {
            seq![t[0]] + filled(t.skip(1), format, index)
        }
    }
}

/// The file name that a template gives.
pub open spec fn rendered(t: Seq<char>, format: Option<Format>, index: nat) -> Seq<char> {
    sanitized(filled(t, format, index))
}

/// Appends what stands in place of the placeholder `{expr}`.
fn push_placeholder(out: &mut String, expr: &Vec<char>, format: Option<Format>, index: u32)
    ensures
        final(out)@ == old(out)@ + placeholder(expr@, format, index as nat),
{
    let ext = chars_of("ext");
    let n = chars_of("n");
    if same_chars(expr, &ext) {
        if let Some(f) = format {
            out.append(f.ext());
            return;
        }
    }
    proof {
        reveal_strlit("ext");
        reveal_strlit("n");
        reveal_strlit("n:");
        assert("ext"@[0] == 'e');
        assert("n:"@.len() == 2);
    }
    if same_chars(expr, &n) {
        push_decimal(out, index as u64);
    } else if starts_with(expr, "n:") {
        let len: usize = expr.len();
        let tail = slice_chars(expr, 2, len);
        assert(tail@ =~= expr@.skip(2));
        let width: usize = match read_unsigned(&tail, usize::MAX as u64) {
            Some(w) => w as usize,
            None => 0,
        };
        push_zero_padded(out, index as u64, width);
    } else {
        let ghost before = out@;
        out.push('{');
        push_chars(out, expr);
        out.push('}');
        assert(out@ =~= before + (seq!['{'] + expr@ + seq!['}']));
    }
}

/// Fills in the template, with or without a known format.
pub fn fill_template(tmpl: &str, format: Option<Format>, index: u32) -> (r: String)
    ensures
        r@ == filled(tmpl@, format, index as nat),
{
    let v = chars_of(tmpl);
    let len: usize = v.len();
    let mut out = String::new();
    let mut i: usize = 0;
    assert(v@.skip(0) =~= v@);
    while i < len
        invariant
            i <= len == v@.len(),
            out@ + filled(v@.skip(i as int), format, index as nat) == filled(
                v@,
                format,
                index as nat,
            ),
        decreases len - i,
    {
        let ghost rest = v@.skip(i as int);
        let tail = slice_chars(&v, i + 1, len);
        assert(tail@ =~= rest.skip(1));
        let close = find_first(&tail, '}');
        if v[i] == '{' && close.is_some() {
            let k: usize = close.unwrap();
            let expr = slice_chars(&tail, 0, k);
            assert(expr@ =~= rest.subrange(1, 1 + k));
            let ghost before = out@;
            push_placeholder(&mut out, &expr, format, index);
            assert(v@.skip(i + k + 2) =~= rest.skip(k + 2));
            assert(out@ + filled(rest.skip(k + 2), format, index as nat) =~= before + filled(
                rest,
                format,
                index as nat,
            ));
            i = i + k + 2;
        } else {
            let ghost before = out@;
            out.push(v[i]);
            assert(v@.skip(i + 1) =~= rest.skip(1));
            assert(out@ + filled(rest.skip(1), format, index as nat) =~= before + filled(
                rest,
                format,
                index as nat,
            ));
            i = i + 1;
        }
    }
    assert(v@.skip(i as int) =~= Seq::empty());
    assert(out@ =~= filled(v@, format, index as nat));
    out
}

/// Render a filename template: {n}, {n:04} (any width), {ext}.
pub fn render_template(tmpl: &str, format: Format, index: u32) -> (r: String)
    ensures
        r@ == rendered(tmpl@, Some(format), index as nat),
{
    let out = fill_template(tmpl, Some(format), index);
    sanitize(out.as_str())
}

// ---------------------------------------------------------------------------
// Paths and extensions
// ---------------------------------------------------------------------------

/// The path of the file `name` in the directory `dir`.
pub open spec fn joined(dir: Seq<char>, name: Seq<char>) -> Seq<char> {
    if dir.len() == 0 || dir.last() == '/' {
        dir + name
    } else {
        dir + "/"@ + name
    }
}

/// The path of the file `name` in the directory `dir`.
pub fn join(dir: &str, name: &str) -> (r: String)
    ensures
        r@ == joined(dir@, name@),
{
    let d = chars_of(dir);
    let mut r = String::new();
    push_chars(&mut r, &d);
    assert(r@ =~= dir@);
    if d.len() > 0 && d[d.len() - 1] != '/' {
        r.append("/");
    }
    r.append(name);
    r
}

/// The path without the slashes, and the dots that stand for the same directory, at
/// its end. A lone slash and a lone dot stay.
pub open spec fn main_part(path: Seq<char>) -> Seq<char>
    decreases path.len(),
{
    if path.len() < 2 {
        path
    } else if path.last() == '/' || (path.last() == '.' && path[path.len() - 2] == '/') {
        main_part(path.drop_last())
    } else {
        path
    }
}

/// Where the last component starts in a path: after the last slash.
pub open spec fn name_start(path: Seq<char>) -> int {
    match last_index(path, '/') {
        Some(i) => i + 1,
        None => 0,
    }
}

/// The last component of a path, which slashes and dots may follow.
pub open spec fn last_component(path: Seq<char>) -> Seq<char> {
    main_part(path).skip(name_start(main_part(path)))
}

/// The file name of a path: its last component, unless there is none, or it is the
/// current or the parent directory.
pub open spec fn file_name(path: Seq<char>) -> Option<Seq<char>> {
    let name = last_component(path);
    if name.len() == 0 || name == "."@ || name == ".."@ {
        None
    } else {
        Some(name)
    }
}

/// The path of the directory that a file name stands in.
pub open spec fn parent(path: Seq<char>) -> Seq<char> {
    main_part(main_part(path).take(name_start(main_part(path))))
}

/// The name with the canonical extension of the format in place of its own.
/// A name without an extension gets one, and so does a name whose only dot is
/// its first character.
pub open spec fn fixed_name(name: Seq<char>, format: Format) -> Seq<char> {
    name_stem(name) + "."@ + format.extension()
}

/// The name without its extension.
pub open spec fn name_stem(name: Seq<char>) -> Seq<char> {
    match last_index(name, '.') {
        Some(i) => if i > 0 {
            name.take(i)
        } else {
            name
        },
        None => name,
    }
}

/// The path with the canonical extension of the format on its file name. A path
/// without a file name gets one that is nothing but the extension.
pub open spec fn fixed_path(path: Seq<char>, format: Format) -> Seq<char> {
    match file_name(path) {
        Some(name) => joined(parent(path), fixed_name(name, format)),
        None => joined(path, fixed_name(Seq::empty(), format)),
    }
}

/// How long the main part of a path is.
fn main_len(path: &Vec<char>, to: usize) -> (r: usize)
    requires
        to <= path@.len(),
    ensures
        r <= to,
        path@.take(r as int) == main_part(path@.take(to as int)),
{
    let mut len: usize = to;
    while len >= 2 && (path[len - 1] == '/' || (path[len - 1] == '.' && path[len - 2] == '/'))
        invariant
            len <= to <= path@.len(),
            main_part(path@.take(len as int)) == main_part(path@.take(to as int)),
        decreases len,
    {
        assert(path@.take(len as int).drop_last() =~= path@.take(len - 1));
        len = len - 1;
    }
    len
}

/// Replace the extension of `path` with the canonical one for `format`.
pub fn fix_extension(path: &str, format: Format) -> (r: String)
    ensures
        r@ == fixed_path(path@, format),
{
    let p = chars_of(path);
    let len: usize = p.len();
    assert(p@.take(len as int) =~= p@);
    let end: usize = main_len(&p, len);
    let main = slice_chars(&p, 0, end);
    assert(main@ =~= main_part(path@));
    let start: usize = match find_last(&main, '/') {
        Some(i) => i + 1,
        None => 0,
    };
    let name = slice_chars(&main, start, end);
    assert(name@ =~= last_component(path@));
    proof {
        reveal_strlit(".");
        reveal_strlit("..");
        assert(name@ == "."@ <==> name@.len() == 1 && name@[0] == '.') by {
            assert(name@.len() == 1 && name@[0] == '.' ==> name@ =~= "."@);
        }
        assert(name@ == ".."@ <==> name@.len() == 2 && name@[0] == '.' && name@[1] == '.') by {
            assert(name@.len() == 2 && name@[0] == '.' && name@[1] == '.' ==> name@ =~= ".."@);
        }
    }
    let nameless = name.len() == 0 || (name.len() == 1 && name[0] == '.') || (name.len() == 2
        && name[0] == '.' && name[1] == '.');
    if nameless {
        let mut fresh = String::new();
        fresh.append(".");
        fresh.append(format.ext());
        assert(fresh@ =~= fixed_name(Seq::empty(), format)) by {
            lemma_last_index(Seq::empty(), '.');
        }
        return join(path, fresh.as_str());
    }
    let dir_len: usize = main_len(&main, start);
    let dir = text_of(&slice_chars(&main, 0, dir_len));
    assert(dir@ =~= parent(path@));
    let stem: usize = match find_last(&name, '.') {
        Some(i) => if i > 0 {
            i
        } else {
            name.len()
        },
        None => name.len(),
    };
    let stem_chars = slice_chars(&name, 0, stem);
    assert(stem_chars@ =~= name_stem(name@));
    let mut fixed = text_of(&stem_chars);
    fixed.append(".");
    fixed.append(format.ext());
    join(dir.as_str(), fixed.as_str())
}

// ---------------------------------------------------------------------------
// Name plans
// ---------------------------------------------------------------------------

/// How the final filename is decided.
#[derive(Debug)]
pub enum NamePlan {
    /// User template, rendered once the format is known.
    Template(String),
    /// Fixed name from the URL basename.
    Fixed(String),
    /// No basename available: a numbered name.
    Probe,
}

impl NamePlan {
    /// The template for a URL that has no basename.
    pub open spec fn numbered() -> Seq<char> {
        "image_{n}.{ext}"@
    }

    /// The name that no format and no index can change.
    pub open spec fn known(self) -> Option<Seq<char>> {
        match self {
            NamePlan::Fixed(name) => Some(name@),
            NamePlan::Template(t) => if first_index(t@, '{') is None {
                Some(sanitized(t@))
            } else {
                None
            },
            NamePlan::Probe => None,
        }
    }

    /// The name that the plan gives.
    pub open spec fn resolved(self, format: Option<Format>, index: nat) -> Seq<char> {
        match self {
            NamePlan::Template(t) => rendered(t@, format, index),
            NamePlan::Fixed(name) => name@,
            NamePlan::Probe => rendered(Self::numbered(), format, index),
        }
    }

    /// The final name when it can be known without a request (no `{...}`
    /// placeholders). `None` means we must wait for the format to be detected.
    pub fn known_name(&self) -> (r: Option<String>)
        ensures
            r is Some == self.known() is Some,
            r matches Some(name) ==> self.known() == Some(name@),
    {
        match self {
            NamePlan::Fixed(name) => Some(name.clone()),
            NamePlan::Template(t) => {
                let v = chars_of(t.as_str());
                match find_first(&v, '{') {
                    Some(_) => None,
                    None => Some(sanitize(t.as_str())),
                }
            },
            NamePlan::Probe => None,
        }
    }

    /// The name that the plan gives, once the format is known or known not to
    /// be detectable.
    pub fn resolve(&self, format: Option<Format>, index: u32) -> (r: String)
        ensures
            r@ == self.resolved(format, index as nat),
    {
        match self {
            NamePlan::Template(t) => {
                let out = fill_template(t.as_str(), format, index);
                sanitize(out.as_str())
            },
            NamePlan::Fixed(name) => name.clone(),
            NamePlan::Probe => {
                let out = fill_template("image_{n}.{ext}", format, index);
                sanitize(out.as_str())
            },
        }
    }
}

/// The plan for a URL. A name of its own goes before the template for all
/// files, and that goes before the basename of the URL.
pub fn plan_name(out: Option<String>, template: &Option<String>, basename: Option<String>) -> (r:
    NamePlan)
    ensures
        match (out, *template, basename) {
            (Some(name), _, _) => r == NamePlan::Template(name),
            (None, Some(t), _) => r == NamePlan::Template(t),
            (None, None, Some(base)) => r == NamePlan::Fixed(base),
            (None, None, None) => r == NamePlan::Probe,
        },
{
    match out {
        Some(name) => NamePlan::Template(name),
        None => match template {
            Some(t) => NamePlan::Template(t.clone()),
            None => match basename {
                Some(base) => NamePlan::Fixed(base),
                None => NamePlan::Probe,
            },
        },
    }
}

/// The path of the downloaded file: the name that the plan gives, in the
/// output directory, with the extension corrected where the detected format
/// asks for another one. Where nothing is left of the name, the file is named by
/// its extension alone.
pub open spec fn target_path(
    output: Seq<char>,
    plan: NamePlan,
    format: Option<Format>,
    index: nat,
) -> Seq<char> {
    let name = plan.resolved(format, index);
    let path = joined(output, name);
    match format {
        Some(f) => if has_extension_of(path, f) {
            path
        } else if name.len() == 0 {
            joined(output, fixed_name(name, f))
        } else {
            fixed_path(path, f)
        },
        None => path,
    }
}

/// The path of the downloaded file.
pub fn target(output: &str, plan: &NamePlan, format: Option<Format>, index: u32) -> (r: String)
    ensures
        r@ == target_path(output@, *plan, format, index as nat),
{
    let name = plan.resolve(format, index);
    let path = join(output, name.as_str());
    match format {
        Some(f) => if extension_matches(path.as_str(), f) {
            path
        } else if name.as_str().is_empty() {
            let mut fresh = String::new();
            fresh.append(".");
            fresh.append(f.ext());
            assert(fresh@ =~= fixed_name(name@, f)) by {
                lemma_last_index(name@, '.');
            }
            join(output, fresh.as_str())
        } else {
            fix_extension(path.as_str(), f)
        },
        None => path,
    }
}

// ---------------------------------------------------------------------------
// Part files
// ---------------------------------------------------------------------------

/// The extension of a file that is not complete yet.
pub const PART_SUFFIX: &'static str = ".part";

/// The name of the part file for a URL with the given hash.
pub open spec fn part_name(hash: u64) -> Seq<char> {
    "."@ + hex(hash as nat, 16) + PART_SUFFIX@
}

/// The name of the part file for a URL with the given hash.
pub fn part_file_name(hash: u64) -> (r: String)
    ensures
        r@ == part_name(hash),
{
    let mut r = String::new();
    r.append(".");
    push_hex(&mut r, hash, 16);
    r.append(PART_SUFFIX);
    assert(r@ =~= part_name(hash));
    r
}

/// The path of the file for one segment of a part file.
pub open spec fn segment_name(part: Seq<char>, i: nat) -> Seq<char> {
    part + ".seg"@ + decimal(i)
}

/// The path of the file for one segment of a part file.
pub fn segment_path(part: &str, i: usize) -> (r: String)
    ensures
        r@ == segment_name(part@, i as nat),
{
    let mut r = String::new();
    r.append(part);
    r.append(".seg");
    push_decimal(&mut r, i as u64);
    assert(r@ =~= segment_name(part@, i as nat));
    r
}

// ---------------------------------------------------------------------------
// Laws
// ---------------------------------------------------------------------------

/// Whether the name holds no forbidden character.
pub open spec fn is_clean(name: Seq<char>) -> bool {
    forall|i: int| 0 <= i < name.len() ==> !is_forbidden(#[trigger] name[i])
}

/// A sanitized name holds no forbidden character, does not start with a dot or
/// a blank, and is no longer than permitted.
pub proof fn law_sanitized_name_is_safe(s: Seq<char>)
    ensures
        is_clean(sanitized(s)),
        sanitized(s).len() <= MAX_NAME_LEN,
        sanitized(s).len() > 0 ==> sanitized(s)[0] != '.' && sanitized(s)[0] != ' ',
{
    let c = cleaned(s);
    assert forall|i: int| 0 <= i < c.len() implies !is_forbidden(#[trigger] c[i]) by {
        assert(c[i] == clean_char(s[i]));
    }
    lemma_trim_start(c, CharClass::DotOrBlank);
    lemma_trim_end(trim_start(c, CharClass::DotOrBlank), CharClass::DotOrBlank);
}

/// A name that need not be cut off does not end with a dot or a blank either,
/// and sanitizing it once more changes nothing.
pub proof fn law_sanitizing_is_final(s: Seq<char>)
    requires
        trim(cleaned(s), CharClass::DotOrBlank).len() <= MAX_NAME_LEN,
    ensures
        sanitized(s).len() > 0 ==> sanitized(s).last() != '.' && sanitized(s).last() != ' ',
        sanitized(sanitized(s)) == sanitized(s),
{
    law_sanitized_name_is_safe(s);
    let name = sanitized(s);
    lemma_trim_end(trim_start(cleaned(s), CharClass::DotOrBlank), CharClass::DotOrBlank);
    assert forall|i: int| 0 <= i < name.len() implies cleaned(name)[i] == name[i] by {
        assert(!is_forbidden(name[i]));
    }
    assert(cleaned(name) =~= name);
}

/// A template without braces is filled in by itself.
proof fn lemma_filled_without_braces(t: Seq<char>, format: Option<Format>, index: nat)
    requires
        first_index(t, '{') is None,
    ensures
        filled(t, format, index) == t,
    decreases t.len(),
{
    lemma_first_index(t, '{');
    if t.len() > 0 {
        let rest = t.skip(1);
        lemma_first_index(rest, '{');
        if let Some(i) = first_index(rest, '{') {
            assert(rest[i] == t[i + 1]);
        }
        lemma_filled_without_braces(rest, format, index);
        assert(seq![t[0]] + rest =~= t);
    }
}

/// A name that is known before the download is the name that the download
/// gets, whatever its format and its index.
pub proof fn law_known_name_is_final(plan: NamePlan, format: Option<Format>, index: nat)
    requires
        plan.known() is Some,
    ensures
        plan.resolved(format, index) == plan.known()->0,
{
    if let NamePlan::Template(t) = plan {
        lemma_filled_without_braces(t@, format, index);
    }
}

/// A path to which a dot and the canonical extension were appended has an
/// extension of the format.
proof fn lemma_appended_extension(stem: Seq<char>, format: Format)
    ensures
        has_extension_of(stem + "."@ + format.extension(), format),
{
    crate::validate::law_canonical_extension_is_accepted(format);
    reveal_strlit(".");
    let ext = format.extension();
    let path = stem + "."@ + ext;
    lemma_last_index(path, '.');
    assert(path[stem.len() as int] == '.');
    let i = last_index(path, '.')->0;
    if i > stem.len() {
        assert(path[i] == ext[i - stem.len() - 1]);
    }
    assert(i == stem.len());
    assert(path.skip(i + 1) =~= ext);
}

/// A corrected path has an extension of the format.
pub proof fn law_fixed_path_matches(path: Seq<char>, format: Format)
    ensures
        has_extension_of(fixed_path(path, format), format),
{
    match file_name(path) {
        Some(name) => lemma_joined_extension(parent(path), name, format),
        None => lemma_joined_extension(path, Seq::empty(), format),
    }
}

/// A corrected name has an extension of the format, in whatever directory.
proof fn lemma_joined_extension(dir: Seq<char>, name: Seq<char>, format: Format)
    ensures
        has_extension_of(joined(dir, fixed_name(name, format)), format),
{
    let lead = joined(dir, Seq::empty());
    lemma_appended_extension(lead + name_stem(name), format);
    assert(joined(dir, fixed_name(name, format)) =~= lead + name_stem(name) + "."@
        + format.extension());
}

/// The main part of a path is the beginning of it, has itself as its main part, and
/// ends in no slash but the root.
proof fn lemma_main_part(path: Seq<char>)
    ensures
        main_part(path).is_prefix_of(path),
        main_part(main_part(path)) == main_part(path),
        path.len() > 0 ==> main_part(path).len() > 0,
        main_part(path).len() > 1 ==> main_part(path).last() != '/',
    decreases path.len(),
{
    if path.len() >= 2 && (path.last() == '/' || (path.last() == '.' && path[path.len() - 2]
        == '/')) {
        lemma_main_part(path.drop_last());
    }
}

/// A path that was put together has the directory's main part for its directory, and
/// the name for its file name.
proof fn lemma_joined_parts(dir: Seq<char>, name: Seq<char>)
    requires
        name.len() > 0,
        name != "."@,
        name != ".."@,
        forall|i: int| 0 <= i < name.len() ==> #[trigger] name[i] != '/',
    ensures
        file_name(joined(dir, name)) == Some(name),
        parent(joined(dir, name)) == main_part(dir),
{
    reveal_strlit("/");
    reveal_strlit(".");
    let lead = joined(dir, Seq::empty());
    let path = joined(dir, name);
    assert(path =~= lead + name);
    assert(path.last() == name.last());
    if path.len() >= 2 && name.len() >= 2 {
        assert(path[path.len() - 2] == name[name.len() - 2]);
    }
    if name.len() == 1 {
        if name[0] == '.' {
            assert(name =~= "."@);
        }
    }
    assert(main_part(path) == path);
    lemma_last_index(path, '/');
    let start = name_start(path);
    if let Some(i) = last_index(path, '/') {
        if i >= lead.len() {
            assert(path[i] == name[i - lead.len()]);
        }
    }
    if dir.len() > 0 {
        assert(lead.last() == '/');
        assert(path[lead.len() - 1] == '/');
        assert(start == lead.len());
    } else {
        assert(start == 0);
    }
    assert(path.skip(start) =~= name);
    assert(path.take(start) =~= lead);
    if dir.len() > 0 && dir.last() != '/' {
        assert(lead.drop_last() =~= dir);
        assert(main_part(lead) == main_part(dir));
    } else {
        assert(lead =~= dir);
    }
}

/// Correcting an extension keeps the file in its directory, under its name up to the
/// extension, and correcting it once more changes nothing.
pub proof fn law_fixed_path_stays(path: Seq<char>, format: Format)
    requires
        file_name(path) is Some,
    ensures
        parent(fixed_path(path, format)) == parent(path),
        file_name(fixed_path(path, format)) == Some(fixed_name(file_name(path)->0, format)),
        fixed_path(fixed_path(path, format), format) == fixed_path(path, format),
{
    let main = main_part(path);
    let name = file_name(path)->0;
    lemma_last_index(main, '/');
    assert forall|i: int| 0 <= i < name.len() implies #[trigger] name[i] != '/' by {
        assert(name[i] == main[i + name_start(main)]);
    }
    let fixed = fixed_name(name, format);
    lemma_fixed_name_twice(name, format);
    lemma_joined_parts(parent(path), fixed);
    lemma_main_part(main.take(name_start(main)));
}

/// A corrected name holds no slash where the name held none, is no directory, and is
/// corrected by itself.
proof fn lemma_fixed_name_twice(name: Seq<char>, format: Format)
    requires
        name.len() > 0,
        forall|i: int| 0 <= i < name.len() ==> #[trigger] name[i] != '/',
    ensures
        ({
            let fixed = fixed_name(name, format);
            &&& fixed.len() > 2
            &&& fixed != "."@
            &&& fixed != ".."@
            &&& forall|i: int| 0 <= i < fixed.len() ==> #[trigger] fixed[i] != '/'
            &&& fixed_name(fixed, format) == fixed
        }),
{
    lemma_extension_chars(format);
    reveal_strlit(".");
    reveal_strlit("..");
    let ext = format.extension();
    let fixed = fixed_name(name, format);
    let stem = name_stem(name);
    lemma_last_index(name, '.');
    assert(stem.len() > 0);
    assert forall|i: int| 0 <= i < fixed.len() implies #[trigger] fixed[i] != '/' by {
        if i < stem.len() {
            assert(fixed[i] == name[i]);
        } else if i > stem.len() {
            assert(fixed[i] == ext[i - stem.len() - 1]);
        }
    }
    lemma_last_index(fixed, '.');
    assert(fixed[stem.len() as int] == '.');
    let i = last_index(fixed, '.')->0;
    if i > stem.len() {
        assert(fixed[i] == ext[i - stem.len() - 1]);
    }
    assert(i == stem.len());
    assert(fixed.take(i) =~= stem);
}

/// An extension is a few characters that are allowed in names, none of them a dot.
proof fn lemma_extension_chars(format: Format)
    ensures
        format.extension().len() >= 3,
        forall|i: int|
            0 <= i < format.extension().len() ==> !is_forbidden(
                #[trigger] format.extension()[i],
            ) && format.extension()[i] != '.',
{
    reveal_strlit("jpg");
    reveal_strlit("png");
    reveal_strlit("gif");
    reveal_strlit("webp");
    reveal_strlit("bmp");
    reveal_strlit("tif");
    reveal_strlit("avif");
    reveal_strlit("heic");
    reveal_strlit("svg");
    reveal_strlit("ico");
}

/// A file whose format was detected is stored with an extension of that format.
pub proof fn law_target_has_matching_extension(
    output: Seq<char>,
    plan: NamePlan,
    format: Format,
    index: nat,
)
    ensures
        has_extension_of(target_path(output, plan, Some(format), index), format),
{
    let name = plan.resolved(Some(format), index);
    law_fixed_path_matches(joined(output, name), format);
    lemma_joined_extension(output, name, format);
}

/// A plan whose fixed name holds no forbidden character, and does not begin with a
/// dot.
pub open spec fn plan_is_clean(plan: NamePlan) -> bool {
    plan matches NamePlan::Fixed(name) ==> is_clean(name@) && (name@.len() > 0 ==> name@[0]
        != '.')
}

/// A downloaded file never leaves the output directory: its path is that of a
/// file there, under a name without path separators and other forbidden
/// characters. Where the extension was corrected, the path is put together from the
/// main part of the output directory's path.
pub proof fn law_target_stays_in_output(
    output: Seq<char>,
    plan: NamePlan,
    format: Option<Format>,
    index: nat,
) -> (name: Seq<char>)
    requires
        plan_is_clean(plan),
    ensures
        is_clean(name),
        target_path(output, plan, format, index) == joined(output, name) || target_path(
            output,
            plan,
            format,
            index,
        ) == joined(main_part(output), name),
        format matches Some(f) ==> name == plan.resolved(format, index) || name == fixed_name(
            plan.resolved(format, index),
            f,
        ),
        format is None ==> name == plan.resolved(format, index),
{
    let name = plan.resolved(format, index);
    match plan {
        NamePlan::Template(t) => {
            law_sanitized_name_is_safe(filled(t@, format, index));
        },
        NamePlan::Fixed(_) => {},
        NamePlan::Probe => {
            law_sanitized_name_is_safe(filled(NamePlan::numbered(), format, index));
        },
    }
    match format {
        Some(f) => if has_extension_of(joined(output, name), f) {
            name
        } else {
            lemma_fixed_name_is_clean(name, f);
            if name.len() > 0 {
                reveal_strlit(".");
                reveal_strlit("..");
                assert("."@[0] == '.' && ".."@[0] == '.');
                assert forall|i: int| 0 <= i < name.len() implies #[trigger] name[i] != '/' by {
                    assert(!is_forbidden(name[i]));
                }
                lemma_joined_parts(output, name);
            }
            fixed_name(name, f)
        },
        None => name,
    }
}

/// Correcting the extension of a clean name leaves it clean.
proof fn lemma_fixed_name_is_clean(name: Seq<char>, format: Format)
    requires
        is_clean(name),
    ensures
        is_clean(fixed_name(name, format)),
{
    reveal_strlit(".");
    lemma_extension_chars(format);
    let ext = format.extension();
    lemma_last_index(name, '.');
    let fixed = fixed_name(name, format);
    let n = (fixed.len() - ext.len() - 1) as int;
    assert forall|i: int| 0 <= i < fixed.len() implies !is_forbidden(#[trigger] fixed[i]) by {
        if i < n {
            assert(fixed[i] == name[i]);
        } else if i == n {
            assert(fixed[i] == '.');
        } else {
            assert(fixed[i] == ext[i - n - 1]);
        }
    }
}

/// The segments of a part file are stored in files of different names, none of which
/// is the part file itself.
pub proof fn law_segment_files_are_distinct(part: Seq<char>, i: nat, j: nat)
    ensures
        segment_name(part, i) == segment_name(part, j) ==> i == j,
        segment_name(part, i) != part,
{
    let stem = part + ".seg"@;
    reveal_strlit(".seg");
    let max = if i < j {
        j
    } else {
        i
    };
    law_decimal_reads_back(i, max);
    law_decimal_reads_back(j, max);
    assert(segment_name(part, i).skip(stem.len() as int) =~= decimal(i));
    assert(segment_name(part, j).skip(stem.len() as int) =~= decimal(j));
    assert(segment_name(part, i).len() > part.len());
}

/// URLs with different hashes have different part files.
pub proof fn law_part_files_are_distinct(a: u64, b: u64)
    ensures
        part_name(a) == part_name(b) ==> a == b,
{
    if part_name(a) == part_name(b) {
        reveal_strlit(".");
        lemma_hex_len(a as nat, 16);
        lemma_hex_len(b as nat, 16);
        assert(part_name(a).subrange(1, 17) =~= hex(a as nat, 16));
        assert(part_name(b).subrange(1, 17) =~= hex(b as nat, 16));
        lemma_hex_tells_apart(a as nat, b as nat, 16);
        lemma_hex_tail_is_all(a);
        lemma_hex_tail_is_all(b);
    }
}

/// As many digits as are asked for.
proof fn lemma_hex_len(n: nat, width: nat)
    ensures
        hex(n, width).len() == width,
    decreases width,
{
    if width > 0 {
        lemma_hex_len(n / 16, (width - 1) as nat);
    }
}

/// Sanitizing takes dots and blanks away from the start and the end, puts an underscore
/// in the place of each character that a file name must not hold, cuts the name off
/// after 200 characters, and changes nothing else. What is left stands in the text from
/// the index that is returned on.
pub proof fn law_sanitizing_keeps_the_rest(s: Seq<char>) -> (from: int)
    ensures
        sanitized(s).len() <= 200,
        0 <= from,
        from + sanitized(s).len() <= s.len(),
        forall|i: int| #![trigger sanitized(s)[i]]
            0 <= i < sanitized(s).len() ==> {
                let c = s[from + i];
                sanitized(s)[i] == if c == '/' || c == '\\' || c == ':' || c == '*' || c == '?' || c
                    == '"' || c == '<' || c == '>' || c == '|' || c <= '\u{1f}' || '\u{7f}' <= c
                    <= '\u{9f}' {
                    '_'
                } else {
                    c
                }
            },
        forall|i: int| 0 <= i < from ==> #[trigger] s[i] == '.' || s[i] == ' ',
        sanitized(s).len() < 200 ==> forall|i: int|
            from + sanitized(s).len() <= i < s.len() ==> #[trigger] s[i] == '.' || s[i] == ' ',
        sanitized(s).len() > 0 ==> sanitized(s)[0] != '.' && sanitized(s)[0] != ' ',
        0 < sanitized(s).len() < 200 ==> sanitized(s).last() != '.' && sanitized(s).last() != ' ',
{
    let c = cleaned(s);
    let from = law_trim_is_exact(c, CharClass::DotOrBlank);
    assert forall|i: int| 0 <= i < s.len() implies (#[trigger] s[i] == '.' <==> c[i] == '.') && (
    s[i] == ' ' <==> c[i] == ' ') by {}
    let t = trim(c, CharClass::DotOrBlank);
    assert forall|i: int| 0 <= i < from implies #[trigger] s[i] == '.' || s[i] == ' ' by {
        assert(CharClass::DotOrBlank.holds(c[i]));
    }
    assert forall|i: int| from + t.len() <= i < s.len() implies #[trigger] s[i] == '.' || s[i]
        == ' ' by {
        assert(CharClass::DotOrBlank.holds(c[i]));
    }
    assert forall|i: int| 0 <= i < sanitized(s).len() implies #[trigger] sanitized(s)[i]
        == clean_char(s[from + i]) by {
        assert(t[i] == c[from + i]);
    }
    from
}

/// A name that holds nothing forbidden, has no dots or blanks around it and is not too
/// long stays as it is.
proof fn lemma_sanitized_clean(s: Seq<char>)
    requires
        is_clean(s),
        s.len() <= 200,
        s.len() > 0 ==> s[0] != '.' && s[0] != ' ' && s.last() != '.' && s.last() != ' ',
    ensures
        sanitized(s) == s,
{
    assert forall|i: int| 0 <= i < s.len() implies cleaned(s)[i] == s[i] by {
        assert(!is_forbidden(s[i]));
    }
    assert(cleaned(s) =~= s);
    lemma_trim_bare(s, CharClass::DotOrBlank);
}

/// A template without an opening brace is the name itself, whatever the format and the
/// index.
pub proof fn law_plain_template_is_copied(t: Seq<char>, format: Option<Format>, index: nat)
    requires
        forall|i: int| 0 <= i < t.len() ==> #[trigger] t[i] != '{',
    ensures
        filled(t, format, index) == t,
{
    lemma_first_index(t, '{');
    lemma_filled_without_braces(t, format, index);
}

/// A template without a closing brace is the name itself too.
pub proof fn law_unclosed_brace_is_copied(t: Seq<char>, format: Option<Format>, index: nat)
    requires
        forall|i: int| 0 <= i < t.len() ==> #[trigger] t[i] != '}',
    ensures
        filled(t, format, index) == t,
    decreases t.len(),
{
    if t.len() > 0 {
        let rest = t.skip(1);
        assert forall|i: int| 0 <= i < rest.len() implies #[trigger] rest[i] != '}' by {
            assert(rest[i] == t[i + 1]);
        }
        lemma_first_index(rest, '}');
        law_unclosed_brace_is_copied(rest, format, index);
        assert(seq![t[0]] + rest =~= t);
    }
}

/// What stands for a placeholder. Text before it is copied, and what follows is a template
/// of its own. `{n}` gives the index, `{ext}` the extension of the format, `{n:` with a
/// width the index filled up with zeros, and any other placeholder stays as it is.
pub proof fn law_placeholder_is_filled(
    before: Seq<char>,
    expr: Seq<char>,
    after: Seq<char>,
    format: Format,
    index: nat,
)
    requires
        forall|i: int| 0 <= i < before.len() ==> #[trigger] before[i] != '{',
        forall|i: int| 0 <= i < expr.len() ==> #[trigger] expr[i] != '}',
    ensures
        ({
            let rest = filled(after, Some(format), index);
            let all = filled(
                before + seq!['{'] + expr + seq!['}'] + after,
                Some(format),
                index,
            );
            &&& expr == seq!['n'] ==> all == before + decimal(index) + rest
            &&& expr == seq!['e', 'x', 't'] ==> all == before + format.extension() + rest
            &&& expr.len() >= 2 && expr[0] == 'n' && expr[1] == ':' ==> all == before + zero_padded(
                index,
                match parse_unsigned(expr.skip(2), usize::MAX as nat) {
                    Some(width) => width,
                    None => 0,
                },
            ) + rest
            &&& expr != seq!['n'] && expr != seq!['e', 'x', 't'] && !(expr.len() >= 2 && expr[0]
                == 'n' && expr[1] == ':') ==> all == before + seq!['{'] + expr + seq!['}'] + rest
        }),
{
    reveal_strlit("n");
    reveal_strlit("ext");
    reveal_strlit("n:");
    lemma_filled_at(before, expr, after, Some(format), index);
    assert("n"@ =~= seq!['n']);
    assert("ext"@ =~= seq!['e', 'x', 't']);
    assert("n:"@ =~= seq!['n', ':']);
    let start = "n:"@;
    assert(start.len() == 2 && start[0] == 'n' && start[1] == ':');
    if expr.len() >= 2 {
        let head = expr.subrange(0, 2);
        assert(head[0] == expr[0] && head[1] == expr[1]);
        if expr[0] == 'n' && expr[1] == ':' {
            assert(head =~= start);
        }
    }
    assert(before + (seq!['{'] + expr + seq!['}']) + filled(after, Some(format), index) =~= before
        + seq!['{'] + expr + seq!['}'] + filled(after, Some(format), index));
}

/// Where a placeholder stands in a template.
proof fn lemma_filled_at(
    before: Seq<char>,
    expr: Seq<char>,
    after: Seq<char>,
    format: Option<Format>,
    index: nat,
)
    requires
        forall|i: int| 0 <= i < before.len() ==> #[trigger] before[i] != '{',
        forall|i: int| 0 <= i < expr.len() ==> #[trigger] expr[i] != '}',
    ensures
        filled(before + seq!['{'] + expr + seq!['}'] + after, format, index) == before
            + placeholder(expr, format, index) + filled(after, format, index),
    decreases before.len(),
{
    let t = before + seq!['{'] + expr + seq!['}'] + after;
    if before.len() == 0 {
        let rest = t.skip(1);
        assert(rest =~= expr + seq!['}'] + after);
        assert(t[0] == '{');
        lemma_first_index(rest, '}');
        let n = expr.len() as int;
        assert(rest[n] == '}');
        let close = first_index(rest, '}')->0;
        if close < n {
            assert(rest[close] == expr[close]);
        }
        assert(close == n);
        assert(t.subrange(1, 1 + n) =~= expr);
        assert(t.skip(n + 2) =~= after);
        assert(before + placeholder(expr, format, index) =~= placeholder(expr, format, index));
    } else {
        let shorter = before.skip(1);
        assert forall|i: int| 0 <= i < shorter.len() implies #[trigger] shorter[i] != '{' by {
            assert(shorter[i] == before[i + 1]);
        }
        lemma_filled_at(shorter, expr, after, format, index);
        assert(t[0] == before[0]);
        assert(t.skip(1) =~= shorter + seq!['{'] + expr + seq!['}'] + after);
        assert(seq![before[0]] + (shorter + placeholder(expr, format, index) + filled(
            after,
            format,
            index,
        )) =~= before + placeholder(expr, format, index) + filled(after, format, index));
    }
}

/// The path of a file in a directory is that of the directory, one slash, and the name. A
/// slash at the end of the directory's path is that one; an empty path needs none.
pub proof fn law_joined_path(dir: Seq<char>, name: Seq<char>)
    ensures
        dir.len() > 0 && dir.last() != '/' ==> joined(dir, name) == dir.push('/') + name,
        dir.len() > 0 && dir.last() == '/' ==> joined(dir, name) == dir + name,
        dir.len() == 0 ==> joined(dir, name) == name,
{
    reveal_strlit("/");
    assert(dir + "/"@ + name =~= dir.push('/') + name);
    if dir.len() == 0 {
        assert(dir + name =~= name);
    }
}

/// Whether a path is that of a directory, written without a slash or `/.` at its end.
pub open spec fn is_plain_dir(dir: Seq<char>) -> bool {
    &&& dir.len() > 0
    &&& dir.last() != '/'
    &&& dir.last() == '.' && dir.len() >= 2 ==> dir[dir.len() - 2] != '/'
}

/// Correcting the extension of a file replaces what stands behind the last dot of its
/// name, and nothing else. A name without a dot gets a dot and the extension behind it.
pub proof fn law_only_extension_is_replaced(
    dir: Seq<char>,
    stem: Seq<char>,
    ext: Seq<char>,
    format: Format,
)
    requires
        is_plain_dir(dir),
        stem.len() > 0,
        forall|i: int| 0 <= i < stem.len() ==> #[trigger] stem[i] != '/',
        forall|i: int| 0 <= i < ext.len() ==> #[trigger] ext[i] != '/' && ext[i] != '.',
        ext.len() > 0 || stem[0] != '.',
    ensures
        fixed_path(dir.push('/') + stem.push('.') + ext, format) == dir.push('/') + stem.push('.')
            + format.extension(),
        fixed_path(stem.push('.') + ext, format) == stem.push('.') + format.extension(),
        ext.len() > 0 ==> fixed_path(dir.push('/') + ext, format) == dir.push('/') + ext.push('.')
            + format.extension(),
        ext.len() > 0 ==> fixed_path(ext, format) == ext.push('.') + format.extension(),
{
    reveal_strlit(".");
    reveal_strlit("..");
    reveal_strlit("/");
    let name = stem.push('.') + ext;
    assert(name[stem.len() as int] == '.');
    assert forall|i: int| 0 <= i < name.len() implies #[trigger] name[i] != '/' by {
        if i < stem.len() {
            assert(name[i] == stem[i]);
        } else if i > stem.len() {
            assert(name[i] == ext[i - stem.len() - 1]);
        }
    }
    assert(name[0] == stem[0]);
    assert(name.len() >= 2);
    if name == ".."@ {
        assert(name[0] == '.');
        assert(ext.len() == 0);
    }
    lemma_stem(stem, ext);
    lemma_fixed_in(dir, name, format);
    assert(dir.push('/') + name =~= dir.push('/') + stem.push('.') + ext);
    assert(dir.push('/') + (stem + "."@ + format.extension()) =~= dir.push('/') + stem.push('.')
        + format.extension());
    assert(stem + "."@ + format.extension() =~= stem.push('.') + format.extension());
    if ext.len() > 0 {
        lemma_last_index(ext, '.');
        assert(ext[0] != '.');
        assert("."@[0] == '.' && ".."@[0] == '.');
        lemma_fixed_in(dir, ext, format);
        assert(dir.push('/') + (ext + "."@ + format.extension()) =~= dir.push('/') + ext.push('.')
            + format.extension());
        assert(ext + "."@ + format.extension() =~= ext.push('.') + format.extension());
    }
}

/// The stem of a name is what stands before its last dot.
proof fn lemma_stem(stem: Seq<char>, ext: Seq<char>)
    requires
        stem.len() > 0,
        forall|i: int| 0 <= i < ext.len() ==> #[trigger] ext[i] != '.',
    ensures
        name_stem(stem.push('.') + ext) == stem,
{
    let name = stem.push('.') + ext;
    assert(name[stem.len() as int] == '.');
    lemma_last_index(name, '.');
    let i = last_index(name, '.')->0;
    if i > stem.len() {
        assert(name[i] == ext[i - stem.len() - 1]);
    }
    assert(i == stem.len());
    assert(name.take(i) =~= stem);
}

/// Correcting an extension concerns the name alone.
proof fn lemma_fixed_in(dir: Seq<char>, name: Seq<char>, format: Format)
    requires
        is_plain_dir(dir),
        name.len() > 0,
        name != "."@,
        name != ".."@,
        forall|i: int| 0 <= i < name.len() ==> #[trigger] name[i] != '/',
    ensures
        fixed_path(dir.push('/') + name, format) == dir.push('/') + fixed_name(name, format),
        fixed_path(name, format) == fixed_name(name, format),
{
    let none = Seq::<char>::empty();
    lemma_joined_parts(dir, name);
    lemma_joined_parts(none, name);
    law_joined_path(dir, name);
    law_joined_path(none, name);
    law_joined_path(dir, fixed_name(name, format));
    law_joined_path(none, fixed_name(name, format));
    assert(main_part(dir) == dir);
    assert(main_part(none) == none);
}

/// A downloaded file keeps its name but for a wrong extension: one that is in use for the
/// format stays, and any other gives way to the canonical one. A file of no known format
/// keeps its name as it is.
pub proof fn law_target_keeps_name(
    output: Seq<char>,
    plan: NamePlan,
    stem: Seq<char>,
    ext: Seq<char>,
    format: Format,
    index: nat,
)
    requires
        is_plain_dir(output),
        plan.resolved(Some(format), index) == stem.push('.') + ext,
        stem.len() > 0,
        stem[0] != '.',
        forall|i: int| 0 <= i < stem.len() ==> #[trigger] stem[i] != '/',
        forall|i: int| 0 <= i < ext.len() ==> #[trigger] ext[i] != '/' && ext[i] != '.',
    ensures
        format.accepts(lower(ext)) ==> target_path(output, plan, Some(format), index)
            == output.push('/') + stem.push('.') + ext,
        !format.accepts(lower(ext)) ==> target_path(output, plan, Some(format), index)
            == output.push('/') + stem.push('.') + format.extension(),
        target_path(output, plan, None, index) == output.push('/') + plan.resolved(None, index),
{
    let name = stem.push('.') + ext;
    law_joined_path(output, name);
    law_joined_path(output, plan.resolved(None, index));
    let lead = output.push('/') + stem;
    assert(output.push('/') + name =~= lead.push('.') + ext);
    assert(output.push('/') + name =~= output.push('/') + stem.push('.') + ext);
    law_extension_stands_behind_last_dot(lead, ext, format);
    law_only_extension_is_replaced(output, stem, ext, format);
}

/// No extension in use holds a slash.
proof fn lemma_accepted_has_no_slash(ext: Seq<char>, format: Format, i: int)
    requires
        format.accepts(lower(ext)),
        0 <= i < ext.len(),
    ensures
        ext[i] != '/',
{
    reveal_strlit("jpg");
    reveal_strlit("jpeg");
    reveal_strlit("jpe");
    reveal_strlit("jfif");
    reveal_strlit("png");
    reveal_strlit("gif");
    reveal_strlit("webp");
    reveal_strlit("bmp");
    reveal_strlit("dib");
    reveal_strlit("tif");
    reveal_strlit("tiff");
    reveal_strlit("avif");
    reveal_strlit("avifs");
    reveal_strlit("heic");
    reveal_strlit("heif");
    reveal_strlit("svg");
    reveal_strlit("svgz");
    reveal_strlit("ico");
    reveal_strlit("cur");
    let e = lower(ext);
    assert(e.len() == ext.len());
    if ext[i] == '/' {
        assert(e[i] == '/');
    }
}

/// A directory's path tells nothing of the extension of a file in it.
proof fn lemma_no_extension(dir: Seq<char>, name: Seq<char>, format: Format)
    requires
        forall|i: int| 0 <= i < name.len() ==> #[trigger] name[i] != '.',
    ensures
        !has_extension_of(dir.push('/') + name, format),
{
    let path = dir.push('/') + name;
    lemma_last_index(path, '.');
    if let Some(i) = last_index(path, '.') {
        let n = dir.len() as int;
        assert(path[n] == '/');
        if i > n {
            assert(path[i] == name[i - n - 1]);
        }
        let ext = path.skip(i + 1);
        assert(ext[n - i - 1] == '/');
        if format.accepts(lower(ext)) {
            lemma_accepted_has_no_slash(ext, format, n - i - 1);
        }
    }
}

/// A file whose name has no extension gets the canonical one of its format, whatever the
/// directory. Where nothing is left of its name, it is named by the extension alone.
pub proof fn law_target_gets_extension(
    output: Seq<char>,
    plan: NamePlan,
    format: Format,
    index: nat,
)
    requires
        is_plain_dir(output),
        forall|i: int|
            0 <= i < plan.resolved(Some(format), index).len() ==> #[trigger] plan.resolved(
                Some(format),
                index,
            )[i] != '.' && plan.resolved(Some(format), index)[i] != '/',
    ensures
        target_path(output, plan, Some(format), index) == output.push('/') + plan.resolved(
            Some(format),
            index,
        ).push('.') + format.extension(),
{
    let name = plan.resolved(Some(format), index);
    assert forall|i: int| 0 <= i < name.len() implies #[trigger] name[i] != '/' && name[i]
        != '.' by {}
    law_joined_path(output, name);
    lemma_no_extension(output, name, format);
    if name.len() > 0 {
        law_only_extension_is_replaced(output, seq!['a'], name, format);
    } else {
        reveal_strlit(".");
        lemma_last_index(name, '.');
        law_joined_path(output, fixed_name(name, format));
        assert(output.push('/') + (name + "."@ + format.extension()) =~= output.push('/')
            + name.push('.') + format.extension());
    }
}

/// Slashes, and dots that stand for the same directory, make no difference at the end of a
/// path whose extension is corrected.
pub proof fn law_trailing_slash_is_ignored(path: Seq<char>, format: Format)
    requires
        file_name(path) is Some,
    ensures
        fixed_path(path.push('/'), format) == fixed_path(path, format),
        fixed_path(path.push('/').push('.'), format) == fixed_path(path, format),
{
    lemma_last_index(main_part(path), '/');
    lemma_main_part(path);
    assert(path.len() > 0);
    let slashed = path.push('/');
    let dotted = slashed.push('.');
    assert(slashed.drop_last() =~= path);
    assert(dotted.drop_last() =~= slashed);
    assert(main_part(slashed) == main_part(path));
    assert(dotted[dotted.len() - 2] == '/');
    assert(main_part(dotted) == main_part(slashed));
}

/// A path that names no file gets one that is nothing but the extension: the empty path,
/// and one that ends in the parent directory.
pub proof fn law_nameless_path_gets_extension(dir: Seq<char>, format: Format)
    ensures
        fixed_path(Seq::empty(), format) == seq!['.'] + format.extension(),
        fixed_path(dir.push('/').push('.').push('.'), format) == dir.push('/').push('.').push('.')
            + seq!['/', '.'] + format.extension(),
{
    reveal_strlit(".");
    reveal_strlit("..");
    reveal_strlit("/");
    let none = Seq::<char>::empty();
    lemma_last_index(none, '.');
    lemma_last_index(none, '/');
    assert(fixed_name(none, format) =~= seq!['.'] + format.extension());
    assert(main_part(none) == none);
    assert(last_component(none) =~= none);
    assert(joined(none, fixed_name(none, format)) =~= seq!['.'] + format.extension());
    let path = dir.push('/').push('.').push('.');
    assert(path.last() == '.' && path[path.len() - 2] == '.');
    assert(main_part(path) == path);
    lemma_last_index(path, '/');
    let n = dir.len() as int;
    assert(path[n] == '/' && path[n + 1] == '.' && path[n + 2] == '.');
    assert(name_start(path) == n + 1);
    assert(last_component(path) =~= ".."@);
    assert(joined(path, fixed_name(none, format)) =~= path + seq!['/', '.']
        + format.extension());
}

/// A file is never stored under an extension of another format than its own.
pub proof fn law_target_misleads_nobody(
    output: Seq<char>,
    plan: NamePlan,
    format: Format,
    other: Format,
    index: nat,
)
    requires
        other != format,
    ensures
        !has_extension_of(target_path(output, plan, Some(format), index), other),
{
    law_target_has_matching_extension(output, plan, format, index);
    law_extension_tells_one_format(
        target_path(output, plan, Some(format), index),
        format,
        other,
    );
}

/// What the plans give. A name from the URL stays as it is. A template is filled in and
/// sanitized. Where there is neither, the file is named by its number.
pub proof fn law_plan_gives_name(plan: NamePlan, format: Format, index: nat)
    requires
        index <= u32::MAX,
    ensures
        plan matches NamePlan::Fixed(name) ==> plan.resolved(Some(format), index) == name@
            && plan.known() == Some(name@),
        plan matches NamePlan::Template(t) ==> plan.resolved(Some(format), index) == sanitized(
            filled(t@, Some(format), index),
        ),
        plan matches NamePlan::Template(t) ==> (plan.known() is Some <==> forall|i: int|
            0 <= i < t@.len() ==> #[trigger] t@[i] != '{'),
        plan matches NamePlan::Template(t) ==> (plan.known() is Some ==> plan.known() == Some(
            sanitized(t@),
        )),
        plan is Probe ==> plan.known() is None && plan.resolved(Some(format), index) == "image_"@
            + decimal(index) + "."@ + format.extension(),
        plan matches NamePlan::Fixed(name) ==> plan.resolved(None, index) == name@,
        plan matches NamePlan::Template(t) ==> plan.resolved(None, index) == sanitized(
            filled(t@, None, index),
        ),
        plan is Probe ==> plan.resolved(None, index) == "image_"@ + decimal(index) + ".{ext}"@,
{
    match plan {
        NamePlan::Template(t) => {
            lemma_first_index(t@, '{');
            if let Some(at) = first_index(t@, '{') {
                assert(t@[at] == '{');
            }
        },
        NamePlan::Fixed(_) => {},
        NamePlan::Probe => {
            lemma_numbered(format, index);
            lemma_numbered_without_format(index);
        },
    }
}

/// The name of a numbered file of no known format.
proof fn lemma_numbered_without_format(index: nat)
    requires
        index <= u32::MAX,
    ensures
        rendered(NamePlan::numbered(), None, index) == "image_"@ + decimal(index) + ".{ext}"@,
{
    reveal_strlit("image_{n}.{ext}");
    reveal_strlit("image_");
    reveal_strlit(".{ext}");
    reveal_strlit("n");
    reveal_strlit("ext");
    reveal_strlit("n:");
    let none = Seq::<char>::empty();
    let t = NamePlan::numbered();
    let tail = seq!['.'] + seq!['{'] + seq!['e', 'x', 't'] + seq!['}'] + none;
    assert(t =~= "image_"@ + seq!['{'] + seq!['n'] + seq!['}'] + tail);
    assert("n"@ =~= seq!['n']);
    assert("ext"@ =~= seq!['e', 'x', 't']);
    assert("ext"@.len() == 3 && "n"@.len() == 1);
    lemma_filled_at("image_"@, seq!['n'], tail, None, index);
    law_placeholder_without_format(seq!['.'], seq!['e', 'x', 't'], none, Format::Png, index);
    assert(filled(none, None, index) =~= none);
    assert(tail =~= ".{ext}"@);
    let digits = decimal(index);
    let name = "image_"@ + digits + ".{ext}"@;
    assert(filled(t, None, index) =~= name);
    lemma_decimal_of_32_bits(index);
    law_decimal_reads_back(index, index);
    let n = digits.len() as int;
    assert forall|i: int| 0 <= i < name.len() implies !is_forbidden(#[trigger] name[i]) by {
        if i < 6 {
            assert(name[i] == "image_"@[i]);
        } else if i < 6 + n {
            assert(name[i] == digits[i - 6]);
            assert(is_digit(digits[i - 6]));
        } else {
            assert(name[i] == ".{ext}"@[i - 6 - n]);
        }
    }
    assert(name[0] == 'i');
    assert(name.last() == '}');
    lemma_sanitized_clean(name);
}

/// The name of a numbered file.
proof fn lemma_numbered(format: Format, index: nat)
    requires
        index <= u32::MAX,
    ensures
        rendered(NamePlan::numbered(), Some(format), index) == "image_"@ + decimal(index) + "."@
            + format.extension(),
{
    reveal_strlit("image_{n}.{ext}");
    reveal_strlit("image_");
    reveal_strlit(".");
    let none = Seq::<char>::empty();
    let t = NamePlan::numbered();
    let tail = "."@ + seq!['{'] + seq!['e', 'x', 't'] + seq!['}'] + none;
    assert(t =~= "image_"@ + seq!['{'] + seq!['n'] + seq!['}'] + tail);
    law_placeholder_is_filled("image_"@, seq!['n'], tail, format, index);
    law_placeholder_is_filled("."@, seq!['e', 'x', 't'], none, format, index);
    assert(filled(none, Some(format), index) =~= none);
    let name = "image_"@ + decimal(index) + "."@ + format.extension();
    assert(filled(t, Some(format), index) =~= name);
    lemma_extension_chars(format);
    lemma_extension_is_short(format);
    lemma_decimal_of_32_bits(index);
    law_decimal_reads_back(index, index);
    let digits = decimal(index);
    let ext = format.extension();
    let n = digits.len() as int;
    assert forall|i: int| 0 <= i < name.len() implies !is_forbidden(#[trigger] name[i]) by {
        if i < 6 {
            assert(name[i] == "image_"@[i]);
        } else if i < 6 + n {
            assert(name[i] == digits[i - 6]);
            assert(is_digit(digits[i - 6]));
        } else if i == 6 + n {
            assert(name[i] == '.');
        } else {
            assert(name[i] == ext[i - 7 - n]);
        }
    }
    assert(name[0] == 'i');
    assert(name.last() == ext.last());
    assert(ext[ext.len() - 1] != '.' && ext[ext.len() - 1] != ' ');
    lemma_sanitized_clean(name);
}

/// An extension is short, and has no blank at its end.
proof fn lemma_extension_is_short(format: Format)
    ensures
        3 <= format.extension().len() <= 4,
        format.extension().last() != ' ',
{
    reveal_strlit("jpg");
    reveal_strlit("png");
    reveal_strlit("gif");
    reveal_strlit("webp");
    reveal_strlit("bmp");
    reveal_strlit("tif");
    reveal_strlit("avif");
    reveal_strlit("heic");
    reveal_strlit("svg");
    reveal_strlit("ico");
}

/// The part file of a URL is hidden, and named by sixteen hexadecimal digits of the URL's
/// hash; its segments are numbered.
pub proof fn law_part_file_is_named(hash: u64, part: Seq<char>, i: nat)
    ensures
        part_name(hash) == seq!['.'] + hex(hash as nat, 16) + ".part"@,
        segment_name(part, i) == part + ".seg"@ + decimal(i),
{
    reveal_strlit(".");
    assert("."@ =~= seq!['.']);
}

/// A name of its own goes before the template for all files, and that goes before the
/// basename of the URL.
pub proof fn law_own_name_goes_first(
    out: Option<String>,
    template: Option<String>,
    basename: Option<String>,
    plan: NamePlan,
)
    requires
        call_ensures(plan_name, (out, &template, basename), plan),
    ensures
        out matches Some(name) ==> plan == NamePlan::Template(name),
        out is None ==> (template matches Some(t) ==> plan == NamePlan::Template(t)),
        out is None && template is None ==> (basename matches Some(base) ==> plan
            == NamePlan::Fixed(base)),
        out is None && template is None && basename is None ==> plan == NamePlan::Probe,
{
}

/// A file name that comes out of sanitizing is safe: no path separator, nothing that some
/// file system forbids, no control code, no dot or blank at its start, and 200 characters
/// at most. A name that is safe already, and does not end in a dot or a blank, comes out
/// as it is.
pub proof fn law_sanitize_gives_safe_name(s: &str, r: String)
    requires
        call_ensures(sanitize, (s,), r),
    ensures
        r@.len() <= 200,
        r@.len() > 0 ==> r@[0] != '.' && r@[0] != ' ',
        forall|i: int| #![trigger r@[i]]
            0 <= i < r@.len() ==> {
                let c = r@[i];
                &&& c != '/' && c != '\\' && c != ':' && c != '*' && c != '?' && c != '"'
                &&& c != '<' && c != '>' && c != '|'
                &&& ' ' <= c
                &&& !('\u{7f}' <= c <= '\u{9f}')
            },
        s@.len() <= 200 && (s@.len() > 0 ==> s@[0] != '.' && s@[0] != ' ' && s@.last() != '.'
            && s@.last() != ' ') && (forall|i: int| #![trigger s@[i]]
            0 <= i < s@.len() ==> {
                let c = s@[i];
                &&& c != '/' && c != '\\' && c != ':' && c != '*' && c != '?' && c != '"'
                &&& c != '<' && c != '>' && c != '|'
                &&& ' ' <= c
                &&& !('\u{7f}' <= c <= '\u{9f}')
            }) ==> r@ == s@,
{
    law_sanitized_name_is_safe(s@);
    assert forall|i: int| #![trigger r@[i]] 0 <= i < r@.len() implies {
        let c = r@[i];
        &&& c != '/' && c != '\\' && c != ':' && c != '*' && c != '?' && c != '"'
        &&& c != '<' && c != '>' && c != '|'
        &&& ' ' <= c
        &&& !('\u{7f}' <= c <= '\u{9f}')
    } by {
        assert(!is_forbidden(sanitized(s@)[i]));
    }
    if s@.len() <= 200 && (s@.len() > 0 ==> s@[0] != '.' && s@[0] != ' ' && s@.last() != '.'
        && s@.last() != ' ') && (forall|i: int| #![trigger s@[i]]
        0 <= i < s@.len() ==> {
            let c = s@[i];
            &&& c != '/' && c != '\\' && c != ':' && c != '*' && c != '?' && c != '"'
            &&& c != '<' && c != '>' && c != '|'
            &&& ' ' <= c
            &&& !('\u{7f}' <= c <= '\u{9f}')
        }) {
        assert forall|i: int| 0 <= i < s@.len() implies !is_forbidden(#[trigger] s@[i]) by {}
        lemma_sanitized_clean(s@);
    }
}

/// A name that is told before the download is the name that it gets.
pub proof fn law_told_name_is_final(
    plan: NamePlan,
    told: Option<String>,
    format: Option<Format>,
    index: u32,
    name: String,
)
    requires
        call_ensures(NamePlan::known_name, (&plan,), told),
        call_ensures(NamePlan::resolve, (&plan, format, index), name),
    ensures
        told matches Some(known) ==> known@ == name@,
{
    if told is Some {
        law_known_name_is_final(plan, format, index as nat);
    }
}

/// The path under which a file is stored matches its format, and no other.
pub proof fn law_stored_name_tells_format(
    output: &str,
    plan: NamePlan,
    format: Format,
    index: u32,
    path: String,
    stored: &str,
    other: Format,
    matched: bool,
)
    requires
        call_ensures(target, (output, &plan, Some(format), index), path),
        stored@ == path@,
        call_ensures(extension_matches, (stored, other), matched),
    ensures
        matched <==> other == format,
{
    law_target_has_matching_extension(output@, plan, format, index as nat);
    law_extension_tells_one_format(path@, format, other);
}

/// Correcting the extension of a file leaves its directory and its name up to the last dot
/// alone.
pub proof fn law_fix_extension_keeps_the_rest(
    path: &str,
    dir: Seq<char>,
    stem: Seq<char>,
    ext: Seq<char>,
    format: Format,
    fixed: String,
    canonical: &str,
)
    requires
        call_ensures(fix_extension, (path, format), fixed),
        call_ensures(Format::ext, (&format,), canonical),
        path@ == dir.push('/') + stem.push('.') + ext,
        is_plain_dir(dir),
        stem.len() > 0,
        forall|i: int| 0 <= i < stem.len() ==> #[trigger] stem[i] != '/',
        forall|i: int| 0 <= i < ext.len() ==> #[trigger] ext[i] != '/' && ext[i] != '.',
        ext.len() > 0 || stem[0] != '.',
    ensures
        fixed@ == dir.push('/') + stem.push('.') + canonical@,
{
    law_only_extension_is_replaced(dir, stem, ext, format);
}

/// A template with a number and an extension gives a name with both filled in, in front
/// of which the text before the number stands as it is.
pub proof fn law_template_numbers_files(
    tmpl: &str,
    lead: Seq<char>,
    format: Format,
    index: u32,
    r: String,
)
    requires
        call_ensures(fill_template, (tmpl, Some(format), index), r),
        tmpl@ == lead + seq!['{', 'n', '}', '.', '{', 'e', 'x', 't', '}'],
        forall|i: int| 0 <= i < lead.len() ==> #[trigger] lead[i] != '{',
    ensures
        r@ == lead + decimal(index as nat) + seq!['.'] + format.extension(),
{
    let none = Seq::<char>::empty();
    let tail = seq!['.'] + seq!['{'] + seq!['e', 'x', 't'] + seq!['}'] + none;
    assert(tmpl@ =~= lead + seq!['{'] + seq!['n'] + seq!['}'] + tail);
    law_placeholder_is_filled(lead, seq!['n'], tail, format, index as nat);
    law_placeholder_is_filled(seq!['.'], seq!['e', 'x', 't'], none, format, index as nat);
    assert(filled(none, Some(format), index as nat) =~= none);
    assert(r@ =~= lead + decimal(index as nat) + seq!['.'] + format.extension());
}

/// Part files of different hashes, and files of different segments, never share a path.
pub proof fn law_files_do_not_collide(
    a: u64,
    b: u64,
    file_a: String,
    file_b: String,
    part: &str,
    i: usize,
    j: usize,
    segment_i: String,
    segment_j: String,
)
    requires
        call_ensures(part_file_name, (a,), file_a),
        call_ensures(part_file_name, (b,), file_b),
        call_ensures(segment_path, (part, i), segment_i),
        call_ensures(segment_path, (part, j), segment_j),
    ensures
        file_a@ == file_b@ ==> a == b,
        segment_i@ == segment_j@ ==> i == j,
        segment_i@ != part@,
{
    law_part_files_are_distinct(a, b);
    law_segment_files_are_distinct(part@, i as nat, j as nat);
}

/// Without a known format the extension stays a placeholder, and everything else is filled
/// in as with one.
pub proof fn law_placeholder_without_format(
    before: Seq<char>,
    expr: Seq<char>,
    after: Seq<char>,
    format: Format,
    index: nat,
)
    requires
        forall|i: int| 0 <= i < before.len() ==> #[trigger] before[i] != '{',
        forall|i: int| 0 <= i < expr.len() ==> #[trigger] expr[i] != '}',
    ensures
        ({
            let t = before + seq!['{'] + expr + seq!['}'];
            &&& expr == seq!['e', 'x', 't'] ==> filled(t + after, None, index) == t + filled(
                after,
                None,
                index,
            )
            &&& expr != seq!['e', 'x', 't'] ==> filled(t, None, index) == filled(
                t,
                Some(format),
                index,
            )
        }),
{
    reveal_strlit("ext");
    reveal_strlit("n");
    reveal_strlit("n:");
    assert("ext"@ =~= seq!['e', 'x', 't']);
    assert("n"@.len() == 1 && "n:"@.len() == 2);
    let none = Seq::<char>::empty();
    lemma_filled_at(before, expr, after, None, index);
    lemma_filled_at(before, expr, none, None, index);
    lemma_filled_at(before, expr, none, Some(format), index);
    let t = before + seq!['{'] + expr + seq!['}'];
    assert(t + none =~= t);
    assert(filled(none, None, index) =~= none);
    assert(filled(none, Some(format), index) =~= none);
    if expr == seq!['e', 'x', 't'] {
        assert("n:"@[0] == 'n');
        if "n:"@.is_prefix_of(expr) {
            assert(expr.subrange(0, 2)[0] == 'e');
        }
        assert(before + (seq!['{'] + expr + seq!['}']) + filled(after, None, index) =~= t + filled(
            after,
            None,
            index,
        ));
    }
}

/// A slash at the end of the output directory's path makes no difference.
pub proof fn law_slash_behind_output_is_ignored(
    output: Seq<char>,
    plan: NamePlan,
    format: Option<Format>,
    index: nat,
)
    requires
        output.len() > 0,
        output.last() != '/',
    ensures
        target_path(output.push('/'), plan, format, index) == target_path(
            output,
            plan,
            format,
            index,
        ),
{
    let name = plan.resolved(format, index);
    law_joined_path(output, name);
    law_joined_path(output.push('/'), name);
    if let Some(f) = format {
        law_joined_path(output, fixed_name(name, f));
        law_joined_path(output.push('/'), fixed_name(name, f));
    }
}

} // verus!
