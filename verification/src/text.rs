//! Text primitives: trimming, splitting, searching and joining, each stated over
//! sequences of characters.

use vstd::prelude::*;

verus! {

/// `String::push`: appends the given character at the end of the string.
pub assume_specification[ String::push ](s: &mut String, c: char)
    ensures
        final(s)@ == old(s)@.push(c),
;

// ---------------------------------------------------------------------------
// Character classes
// ---------------------------------------------------------------------------

/// The characters with the Unicode property `White_Space`.
pub open spec fn is_white_space(c: char) -> bool {
    ||| '\u{9}' <= c <= '\u{d}'
    ||| c == ' '
    ||| c == '\u{85}'
    ||| c == '\u{a0}'
    ||| c == '\u{1680}'
    ||| '\u{2000}' <= c <= '\u{200a}'
    ||| c == '\u{2028}'
    ||| c == '\u{2029}'
    ||| c == '\u{202f}'
    ||| c == '\u{205f}'
    ||| c == '\u{3000}'
}

/// The characters of the Unicode general category `Cc` (control codes).
pub open spec fn is_control_code(c: char) -> bool {
    c <= '\u{1f}' || '\u{7f}' <= c <= '\u{9f}'
}

/// A set of characters that trimming and splitting work with.
#[derive(Clone, Copy, PartialEq, Eq, Debug)]
pub enum CharClass {
    /// White space, as Unicode defines it.
    Space,
    /// The full stop.
    Dot,
    /// The full stop and the blank.
    DotOrBlank,
    /// The line feed.
    LineFeed,
    /// The horizontal tab.
    Tab,
    /// The semicolon.
    Semicolon,
    /// The slash.
    Slash,
}

impl CharClass {
    /// Whether `c` belongs to the class.
    pub open spec fn holds(self, c: char) -> bool {
        match self {
            CharClass::Space => is_white_space(c),
            CharClass::Dot => c == '.',
            CharClass::DotOrBlank => c == '.' || c == ' ',
            CharClass::LineFeed => c == '\n',
            CharClass::Tab => c == '\t',
            CharClass::Semicolon => c == ';',
            CharClass::Slash => c == '/',
        }
    }

    /// Whether `c` belongs to the class.
    pub fn contains(self, c: char) -> (b: bool)
        ensures
            b == self.holds(c),
    {
        match self {
            CharClass::Space => {
                ('\u{9}' <= c && c <= '\u{d}') || c == ' ' || c == '\u{85}' || c == '\u{a0}' || c
                    == '\u{1680}' || ('\u{2000}' <= c && c <= '\u{200a}') || c == '\u{2028}' || c
                    == '\u{2029}' || c == '\u{202f}' || c == '\u{205f}' || c == '\u{3000}'
            },
            CharClass::Dot => c == '.',
            CharClass::DotOrBlank => c == '.' || c == ' ',
            CharClass::LineFeed => c == '\n',
            CharClass::Tab => c == '\t',
            CharClass::Semicolon => c == ';',
            CharClass::Slash => c == '/',
        }
    }
}

/// Whether `c` is a control code.
pub fn is_control(c: char) -> (b: bool)
    ensures
        b == is_control_code(c),
{
    c <= '\u{1f}' || ('\u{7f}' <= c && c <= '\u{9f}')
}

// ---------------------------------------------------------------------------
// Strings and vectors of characters
// ---------------------------------------------------------------------------

/// The characters of a string, in order.
pub fn chars_of(s: &str) -> (v: Vec<char>)
    ensures
        v@ == s@,
{
    let mut v: Vec<char> = Vec::new();
    for c in it: s.chars()
        invariant
            v@ == it.seq().take(it.index()),
            it.seq() == s@,
    {
        v.push(c);
        assert(it.seq().take(it.index() + 1) =~= it.seq().take(it.index()).push(c));
    }
    assert(v@ =~= s@);
    v
}

/// Appends the characters of `v` to `out`.
pub fn push_chars(out: &mut String, v: &Vec<char>)
    ensures
        final(out)@ == old(out)@ + v@,
{
    let mut i: usize = 0;
    assert(out@ =~= old(out)@ + v@.take(0));
    while i < v.len()
        invariant
            i <= v@.len(),
            out@ == old(out)@ + v@.take(i as int),
        decreases v@.len() - i,
    {
        out.push(v[i]);
        assert(old(out)@ + v@.take(i + 1) =~= (old(out)@ + v@.take(i as int)).push(v@[i as int]));
        i = i + 1;
    }
    assert(v@.take(i as int) =~= v@);
}

/// The string with the given characters.
pub fn text_of(v: &Vec<char>) -> (s: String)
    ensures
        s@ == v@,
{
    let mut s = String::new();
    push_chars(&mut s, v);
    assert(s@ =~= v@);
    s
}

/// A copy of the characters `v[from..to]`.
pub fn slice_chars(v: &Vec<char>, from: usize, to: usize) -> (r: Vec<char>)
    requires
        from <= to <= v@.len(),
    ensures
        r@ == v@.subrange(from as int, to as int),
{
    let mut r: Vec<char> = Vec::new();
    let mut i: usize = from;
    while i < to
        invariant
            from <= i <= to <= v@.len(),
            r@ == v@.subrange(from as int, i as int),
        decreases to - i,
    {
        r.push(v[i]);
        i = i + 1;
        assert(v@.subrange(from as int, i as int) =~= v@.subrange(from as int, i - 1).push(v@[i - 1]));
    }
    r
}

/// Whether two vectors hold the same characters.
pub fn same_chars(a: &Vec<char>, b: &Vec<char>) -> (r: bool)
    ensures
        r == (a@ == b@),
{
    if a.len() != b.len() {
        return false;
    }
    let mut i: usize = 0;
    while i < a.len()
        invariant
            i <= a@.len() == b@.len(),
            forall|j: int| 0 <= j < i ==> a@[j] == b@[j],
        decreases a@.len() - i,
    {
        if a[i] != b[i] {
            return false;
        }
        i = i + 1;
    }
    assert(a@ =~= b@);
    true
}

// ---------------------------------------------------------------------------
// Trimming
// ---------------------------------------------------------------------------

/// `s` without the characters of the class that it starts with.
pub open spec fn trim_start(s: Seq<char>, class: CharClass) -> Seq<char>
    decreases s.len(),
{
    if s.len() > 0 && class.holds(s[0]) {
        trim_start(s.drop_first(), class)
    } else {
        s
    }
}

/// `s` without the characters of the class that it ends with.
pub open spec fn trim_end(s: Seq<char>, class: CharClass) -> Seq<char>
    decreases s.len(),
{
    if s.len() > 0 && class.holds(s.last()) {
        trim_end(s.drop_last(), class)
    } else {
        s
    }
}

/// `s` without leading and trailing characters of the class.
pub open spec fn trim(s: Seq<char>, class: CharClass) -> Seq<char> {
    trim_end(trim_start(s, class), class)
}

/// Cutting off any number of leading class characters leaves the trimmed text alone.
proof fn lemma_trim_start_at(s: Seq<char>, class: CharClass, k: int)
    requires
        0 <= k <= s.len(),
        forall|i: int| 0 <= i < k ==> class.holds(#[trigger] s[i]),
    ensures
        trim_start(s, class) == trim_start(s.skip(k), class),
    decreases k,
{
    if k == 0 {
        assert(s.skip(0) =~= s);
    } else {
        assert(class.holds(s[0]));
        let t = s.drop_first();
        assert forall|i: int| 0 <= i < k - 1 implies class.holds(#[trigger] t[i]) by {
            assert(t[i] == s[i + 1]);
        }
        lemma_trim_start_at(t, class, k - 1);
        assert(t.skip(k - 1) =~= s.skip(k));
    }
}

/// Cutting off any number of trailing class characters leaves the trimmed text alone.
proof fn lemma_trim_end_at(s: Seq<char>, class: CharClass, k: int)
    requires
        0 <= k <= s.len(),
        forall|i: int| k <= i < s.len() ==> class.holds(#[trigger] s[i]),
    ensures
        trim_end(s, class) == trim_end(s.take(k), class),
    decreases s.len() - k,
{
    if k == s.len() {
        assert(s.take(k) =~= s);
    } else {
        assert(class.holds(s[s.len() - 1]));
        let t = s.drop_last();
        assert forall|i: int| k <= i < t.len() implies class.holds(#[trigger] t[i]) by {
            assert(t[i] == s[i]);
        }
        lemma_trim_end_at(t, class, k);
        assert(t.take(k) =~= s.take(k));
    }
}

/// What trimming the start leaves: a suffix, which does not start with the class.
pub proof fn lemma_trim_start(s: Seq<char>, class: CharClass)
    ensures
        trim_start(s, class).len() <= s.len(),
        trim_start(s, class) == s.skip(s.len() - trim_start(s, class).len()),
        trim_start(s, class).len() > 0 ==> !class.holds(trim_start(s, class)[0]),
    decreases s.len(),
{
    if s.len() > 0 && class.holds(s[0]) {
        let t = s.drop_first();
        lemma_trim_start(t, class);
        assert(t.skip(t.len() - trim_start(t, class).len()) =~= s.skip(
            s.len() - trim_start(t, class).len(),
        ));
    } else {
        assert(s.skip(0) =~= s);
    }
}

/// What trimming the end leaves: a prefix, which does not end with the class.
pub proof fn lemma_trim_end(s: Seq<char>, class: CharClass)
    ensures
        trim_end(s, class).len() <= s.len(),
        trim_end(s, class) == s.take(trim_end(s, class).len() as int),
        trim_end(s, class).len() > 0 ==> !class.holds(trim_end(s, class).last()),
    decreases s.len(),
{
    if s.len() > 0 && class.holds(s.last()) {
        let t = s.drop_last();
        lemma_trim_end(t, class);
        assert(t.take(trim_end(t, class).len() as int) =~= s.take(trim_end(t, class).len() as int));
    } else {
        assert(s.take(s.len() as int) =~= s);
    }
}

/// Removes the leading characters of the class.
pub fn trimmed_start(v: &Vec<char>, class: CharClass) -> (r: Vec<char>)
    ensures
        r@ == trim_start(v@, class),
{
    let mut i: usize = 0;
    while i < v.len() && class.contains(v[i])
        invariant
            i <= v@.len(),
            forall|j: int| 0 <= j < i ==> class.holds(#[trigger] v@[j]),
        decreases v@.len() - i,
    {
        i = i + 1;
    }
    proof {
        lemma_trim_start_at(v@, class, i as int);
        assert(v@.skip(i as int) =~= v@.subrange(i as int, v@.len() as int));
    }
    slice_chars(v, i, v.len())
}

/// Removes the trailing characters of the class.
pub fn trimmed_end(v: &Vec<char>, class: CharClass) -> (r: Vec<char>)
    ensures
        r@ == trim_end(v@, class),
{
    let mut n: usize = v.len();
    while n > 0 && class.contains(v[n - 1])
        invariant
            n <= v@.len(),
            forall|j: int| n <= j < v@.len() ==> class.holds(#[trigger] v@[j]),
        decreases n,
    {
        n = n - 1;
    }
    proof {
        lemma_trim_end_at(v@, class, n as int);
        assert(v@.take(n as int) =~= v@.subrange(0, n as int));
    }
    slice_chars(v, 0, n)
}

/// Removes leading and trailing characters of the class.
pub fn trimmed(v: &Vec<char>, class: CharClass) -> (r: Vec<char>)
    ensures
        r@ == trim(v@, class),
{
    let t = trimmed_start(v, class);
    trimmed_end(&t, class)
}

// ---------------------------------------------------------------------------
// Searching
// ---------------------------------------------------------------------------

/// The index of the first `c` in `s`.
pub open spec fn first_index(s: Seq<char>, c: char) -> Option<int>
    decreases s.len(),
{
    if s.len() == 0 {
        None
    } else {
        match first_index(s.drop_last(), c) {
            Some(i) => Some(i),
            None => if s.last() == c {
                Some(s.len() - 1)
            } else {
                None
            },
        }
    }
}

/// The index of the last `c` in `s`.
pub open spec fn last_index(s: Seq<char>, c: char) -> Option<int>
    decreases s.len(),
{
    if s.len() == 0 {
        None
    } else if s.last() == c {
        Some(s.len() - 1)
    } else {
        last_index(s.drop_last(), c)
    }
}

/// `first_index` is where `c` occurs for the first time, if it occurs.
pub proof fn lemma_first_index(s: Seq<char>, c: char)
    ensures
        match first_index(s, c) {
            Some(i) => 0 <= i < s.len() && s[i] == c && forall|j: int| 0 <= j < i ==> s[j] != c,
            None => forall|j: int| 0 <= j < s.len() ==> s[j] != c,
        },
    decreases s.len(),
{
    if s.len() > 0 {
        let t = s.drop_last();
        lemma_first_index(t, c);
        assert(forall|j: int| 0 <= j < t.len() ==> t[j] == s[j]);
    }
}

/// `last_index` is where `c` occurs for the last time, if it occurs.
pub proof fn lemma_last_index(s: Seq<char>, c: char)
    ensures
        match last_index(s, c) {
            Some(i) => 0 <= i < s.len() && s[i] == c && forall|j: int|
                i < j < s.len() ==> s[j] != c,
            None => forall|j: int| 0 <= j < s.len() ==> s[j] != c,
        },
    decreases s.len(),
{
    if s.len() > 0 && s.last() != c {
        let t = s.drop_last();
        lemma_last_index(t, c);
        assert(forall|j: int| 0 <= j < t.len() ==> t[j] == s[j]);
    }
}

/// Where `c` occurs for the first time.
pub fn find_first(v: &Vec<char>, c: char) -> (r: Option<usize>)
    ensures
        r is Some == first_index(v@, c) is Some,
        r matches Some(i) ==> first_index(v@, c) == Some(i as int) && i < v@.len(),
{
    let mut i: usize = 0;
    while i < v.len()
        invariant
            i <= v@.len(),
            forall|j: int| 0 <= j < i ==> v@[j] != c,
        decreases v@.len() - i,
    {
        if v[i] == c {
            proof {
                lemma_first_index(v@, c);
            }
            return Some(i);
        }
        i = i + 1;
    }
    proof {
        lemma_first_index(v@, c);
    }
    None
}

/// Where `c` occurs for the last time.
pub fn find_last(v: &Vec<char>, c: char) -> (r: Option<usize>)
    ensures
        r is Some == last_index(v@, c) is Some,
        r matches Some(i) ==> last_index(v@, c) == Some(i as int) && i < v@.len(),
{
    let mut i: usize = v.len();
    while i > 0
        invariant
            i <= v@.len(),
            forall|j: int| i <= j < v@.len() ==> v@[j] != c,
        decreases i,
    {
        i = i - 1;
        if v[i] == c {
            proof {
                lemma_last_index(v@, c);
            }
            return Some(i);
        }
    }
    proof {
        lemma_last_index(v@, c);
    }
    None
}

/// Whether `v` starts with the text `prefix`.
pub fn starts_with(v: &Vec<char>, prefix: &str) -> (r: bool)
    ensures
        r == prefix@.is_prefix_of(v@),
{
    let p = chars_of(prefix);
    if v.len() < p.len() {
        return false;
    }
    let head = slice_chars(v, 0, p.len());
    same_chars(&head, &p)
}

/// Whether `v` ends with the characters `suffix`.
pub fn ends_with(v: &Vec<char>, suffix: &Vec<char>) -> (r: bool)
    ensures
        r == suffix@.is_suffix_of(v@),
{
    if v.len() < suffix.len() {
        return false;
    }
    let tail = slice_chars(v, v.len() - suffix.len(), v.len());
    same_chars(&tail, suffix)
}

// ---------------------------------------------------------------------------
// Splitting
// ---------------------------------------------------------------------------

/// The pieces of `s` between the characters of the class: such a character
/// opens a new piece, every other one extends the piece it stands in.
pub open spec fn split(s: Seq<char>, class: CharClass) -> Seq<Seq<char>>
    decreases s.len(),
{
    if s.len() == 0 {
        seq![Seq::empty()]
    } else {
        let pieces = split(s.drop_last(), class);
        if class.holds(s.last()) {
            pieces.push(Seq::empty())
        } else {
            pieces.drop_last().push(pieces.last().push(s.last()))
        }
    }
}

/// The pieces of `s` that hold something.
pub open spec fn words(s: Seq<char>) -> Seq<Seq<char>> {
    split(s, CharClass::Space).filter(|p: Seq<char>| p.len() > 0)
}

/// The characters of each vector.
pub open spec fn views(v: Seq<Vec<char>>) -> Seq<Seq<char>> {
    v.map_values(|p: Vec<char>| p@)
}

/// The characters of each string.
pub open spec fn texts(v: Seq<String>) -> Seq<Seq<char>> {
    v.map_values(|p: String| p@)
}

/// There is always at least one piece.
pub proof fn lemma_split_nonempty(s: Seq<char>, class: CharClass)
    ensures
        split(s, class).len() > 0,
    decreases s.len(),
{
    if s.len() > 0 {
        lemma_split_nonempty(s.drop_last(), class);
    }
}

/// Splits at every character of the class.
pub fn pieces_of(v: &Vec<char>, class: CharClass) -> (r: Vec<Vec<char>>)
    ensures
        views(r@) == split(v@, class),
{
    let mut done: Vec<Vec<char>> = Vec::new();
    let mut piece: Vec<char> = Vec::new();
    let mut i: usize = 0;
    assert(views(done@).push(piece@) =~= split(v@.take(0), class));
    while i < v.len()
        invariant
            i <= v@.len(),
            views(done@).push(piece@) == split(v@.take(i as int), class),
        decreases v@.len() - i,
    {
        let c = v[i];
        let ghost before = split(v@.take(i as int), class);
        let ghost earlier = done@;
        let ghost current = piece@;
        assert(before.drop_last() =~= views(earlier));
        assert(before.last() == current);
        assert(v@.take(i + 1).drop_last() =~= v@.take(i as int));
        assert(v@.take(i + 1).last() == c);
        if class.contains(c) {
            done.push(piece);
            piece = Vec::new();
            assert(views(done@) =~= views(earlier).push(current));
        } else {
            piece.push(c);
        }
        i = i + 1;
    }
    let ghost earlier = done@;
    let ghost current = piece@;
    done.push(piece);
    assert(views(done@) =~= views(earlier).push(current));
    assert(v@.take(i as int) =~= v@);
    done
}

/// Splits into words: the nonempty pieces between white space.
pub fn words_of(v: &Vec<char>) -> (r: Vec<Vec<char>>)
    ensures
        views(r@) == words(v@),
{
    let pieces = pieces_of(v, CharClass::Space);
    let ghost all = views(pieces@);
    let ghost keep = |p: Seq<char>| p.len() > 0;
    let mut r: Vec<Vec<char>> = Vec::new();
    let mut i: usize = 0;
    proof {
        reveal(Seq::filter);
        assert(all.take(0).filter(keep) =~= Seq::empty());
        assert(views(r@) =~= Seq::empty());
    }
    while i < pieces.len()
        invariant
            i <= pieces@.len(),
            all == views(pieces@),
            keep == (|p: Seq<char>| p.len() > 0),
            views(r@) == all.take(i as int).filter(keep),
        decreases pieces@.len() - i,
    {
        let ghost earlier = r@;
        assert(all.take(i + 1).drop_last() =~= all.take(i as int));
        assert(all.take(i + 1).last() == pieces@[i as int]@);
        reveal(Seq::filter);
        if pieces[i].len() > 0 {
            let piece = slice_chars(&pieces[i], 0, pieces[i].len());
            assert(piece@ =~= pieces@[i as int]@);
            r.push(piece);
            assert(views(r@) =~= views(earlier).push(piece@));
        }
        i = i + 1;
    }
    assert(all.take(i as int) =~= all);
    r
}

// ---------------------------------------------------------------------------
// Pairs and lists
// ---------------------------------------------------------------------------

/// What stands before and after the first `c`, where it occurs.
pub open spec fn split_once(s: Seq<char>, c: char) -> Option<(Seq<char>, Seq<char>)> {
    match first_index(s, c) {
        Some(i) => Some((s.take(i), s.skip(i + 1))),
        None => None,
    }
}

/// Splits at the first `c`.
pub fn halves_of(v: &Vec<char>, c: char) -> (r: Option<(Vec<char>, Vec<char>)>)
    ensures
        match r {
            Some((a, b)) => split_once(v@, c) == Some((a@, b@)),
            None => split_once(v@, c) is None,
        },
{
    match find_first(v, c) {
        Some(i) => {
            let len: usize = v.len();
            let a = slice_chars(v, 0, i);
            let b = slice_chars(v, i + 1, len);
            assert(a@ =~= v@.take(i as int));
            assert(b@ =~= v@.skip(i + 1));
            Some((a, b))
        },
        None => None,
    }
}

/// The texts, one after the other, with `sep` between any two.
pub open spec fn join_all(parts: Seq<Seq<char>>, sep: Seq<char>) -> Seq<char>
    decreases parts.len(),
{
    if parts.len() == 0 {
        Seq::empty()
    } else if parts.len() == 1 {
        parts[0]
    } else {
        join_all(parts.drop_last(), sep) + sep + parts.last()
    }
}

/// What adding a text to a list does to its concatenation.
pub proof fn lemma_join_push(parts: Seq<Seq<char>>, part: Seq<char>, sep: Seq<char>)
    ensures
        join_all(parts.push(part), sep) == if parts.len() == 0 {
            part
        } else {
            join_all(parts, sep) + sep + part
        },
{
    assert(parts.push(part).drop_last() =~= parts);
}

/// Whether a text neither begins nor ends with the class.
pub open spec fn is_bare(s: Seq<char>, class: CharClass) -> bool {
    s.len() > 0 ==> !class.holds(s[0]) && !class.holds(s.last())
}

/// What trimming leaves neither begins nor ends with the class, and stands in the text
/// as it is, from the index that is returned on.
pub proof fn lemma_trim(s: Seq<char>, class: CharClass) -> (from: int)
    ensures
        is_bare(trim(s, class), class),
        0 <= from,
        from + trim(s, class).len() <= s.len(),
        trim(s, class) == s.subrange(from, from + trim(s, class).len()),
{
    let t = trim_start(s, class);
    lemma_trim_start(s, class);
    lemma_trim_end(t, class);
    let from = s.len() - t.len();
    assert(trim(s, class) =~= s.subrange(from, from + trim(s, class).len()));
    from
}

/// Trimming takes nothing away from a text that neither begins nor ends with the
/// class.
pub proof fn lemma_trim_bare(s: Seq<char>, class: CharClass)
    requires
        is_bare(s, class),
    ensures
        trim(s, class) == s,
{
}

/// No piece holds a character of the class.
pub proof fn lemma_split_pieces(s: Seq<char>, class: CharClass)
    ensures
        forall|i: int, k: int|
            0 <= i < split(s, class).len() && 0 <= k < split(s, class)[i].len() ==> !class.holds(
                #[trigger] split(s, class)[i][k],
            ),
    decreases s.len(),
{
    if s.len() > 0 {
        lemma_split_pieces(s.drop_last(), class);
        lemma_split_nonempty(s.drop_last(), class);
    }
}

/// A text without a character of the class is its only piece.
pub proof fn lemma_split_whole(s: Seq<char>, class: CharClass)
    requires
        forall|i: int| 0 <= i < s.len() ==> !class.holds(#[trigger] s[i]),
    ensures
        split(s, class) == seq![s],
    decreases s.len(),
{
    if s.len() > 0 {
        lemma_split_whole(s.drop_last(), class);
        assert(s.drop_last().push(s.last()) =~= s);
        assert(seq![s.drop_last()].drop_last().push(s) =~= seq![s]);
    } else {
        assert(s =~= Seq::empty());
    }
}

/// What follows a character of the class, and holds no other, is a piece of its own.
pub proof fn lemma_split_push(s: Seq<char>, c: char, piece: Seq<char>, class: CharClass)
    requires
        class.holds(c),
        forall|i: int| 0 <= i < piece.len() ==> !class.holds(#[trigger] piece[i]),
    ensures
        split(s.push(c) + piece, class) == split(s, class).push(piece),
    decreases piece.len(),
{
    let all = s.push(c) + piece;
    if piece.len() == 0 {
        assert(all =~= s.push(c));
        assert(all.drop_last() =~= s);
        assert(piece =~= Seq::empty());
    } else {
        let shorter = piece.drop_last();
        lemma_split_push(s, c, shorter, class);
        assert(all.drop_last() =~= s.push(c) + shorter);
        assert(shorter.push(piece.last()) =~= piece);
        let before = split(s, class).push(shorter);
        assert(before.drop_last().push(piece) =~= split(s, class).push(piece));
    }
}

// ---------------------------------------------------------------------------
// Laws
// ---------------------------------------------------------------------------

/// Which characters the classes hold. Of ASCII, white space is the blank and the five
/// codes from the tab to the carriage return; of the rest, what Unicode says.
pub proof fn law_char_classes(c: char)
    ensures
        CharClass::Dot.holds(c) <==> c == '.',
        CharClass::DotOrBlank.holds(c) <==> c == '.' || c == ' ',
        CharClass::LineFeed.holds(c) <==> c == '\n',
        CharClass::Tab.holds(c) <==> c == '\t',
        CharClass::Semicolon.holds(c) <==> c == ';',
        CharClass::Slash.holds(c) <==> c == '/',
        c <= '~' ==> (CharClass::Space.holds(c) <==> c == ' ' || '\t' <= c <= '\r'),
        c > '~' ==> (CharClass::Space.holds(c) <==> c == '\u{85}' || c == '\u{a0}' || c
            == '\u{1680}' || '\u{2000}' <= c <= '\u{200a}' || c == '\u{2028}' || c == '\u{2029}'
            || c == '\u{202f}' || c == '\u{205f}' || c == '\u{3000}'),
{
}

/// Trimming takes away what belongs to the class at either end, and nothing else: what
/// is left stands in the text from the index that is returned on, what stands before
/// and after it belongs to the class, and its own first and last character do not.
pub proof fn law_trim_is_exact(s: Seq<char>, class: CharClass) -> (from: int)
    ensures
        0 <= from,
        from + trim(s, class).len() <= s.len(),
        forall|i: int|
            0 <= i < trim(s, class).len() ==> #[trigger] trim(s, class)[i] == s[from + i],
        forall|i: int| 0 <= i < from ==> class.holds(#[trigger] s[i]),
        forall|i: int|
            from + trim(s, class).len() <= i < s.len() ==> class.holds(#[trigger] s[i]),
        trim(s, class).len() > 0 ==> !class.holds(trim(s, class)[0]) && !class.holds(
            trim(s, class).last(),
        ),
{
    let t = trim_start(s, class);
    lemma_trim_start(s, class);
    lemma_trim_start_cut(s, class);
    lemma_trim_end(t, class);
    lemma_trim_end_cut(t, class);
    let from = s.len() - t.len();
    assert forall|i: int| from + trim(s, class).len() <= i < s.len() implies class.holds(
        #[trigger] s[i],
    ) by {
        assert(s[i] == t[i - from]);
    }
    from
}

/// What trimming the start takes away belongs to the class.
proof fn lemma_trim_start_cut(s: Seq<char>, class: CharClass)
    ensures
        forall|i: int|
            0 <= i < s.len() - trim_start(s, class).len() ==> class.holds(#[trigger] s[i]),
    decreases s.len(),
{
    if s.len() > 0 && class.holds(s[0]) {
        let t = s.drop_first();
        lemma_trim_start_cut(t, class);
        assert forall|i: int| 0 <= i < s.len() - trim_start(s, class).len() implies class.holds(
            #[trigger] s[i],
        ) by {
            if i > 0 {
                assert(s[i] == t[i - 1]);
            }
        }
    }
}

/// What trimming the end takes away belongs to the class.
proof fn lemma_trim_end_cut(s: Seq<char>, class: CharClass)
    ensures
        forall|i: int| trim_end(s, class).len() <= i < s.len() ==> class.holds(#[trigger] s[i]),
    decreases s.len(),
{
    if s.len() > 0 && class.holds(s.last()) {
        let t = s.drop_last();
        lemma_trim_end_cut(t, class);
        assert forall|i: int| trim_end(s, class).len() <= i < s.len() implies class.holds(
            #[trigger] s[i],
        ) by {
            if i < t.len() {
                assert(s[i] == t[i]);
            }
        }
    }
}

/// The pieces of a text, with the separator between any two, are the text.
pub proof fn law_split_joins_back(s: Seq<char>, class: CharClass, sep: char)
    requires
        forall|c: char| class.holds(c) <==> c == sep,
    ensures
        join_all(split(s, class), seq![sep]) == s,
    decreases s.len(),
{
    if s.len() == 0 {
        assert(split(s, class)[0] =~= s);
    } else {
        let t = s.drop_last();
        let pieces = split(t, class);
        law_split_joins_back(t, class, sep);
        lemma_split_nonempty(t, class);
        if class.holds(s.last()) {
            lemma_join_push(pieces, Seq::empty(), seq![sep]);
            assert(t + seq![sep] + Seq::empty() =~= s);
        } else {
            let before = pieces.drop_last();
            let longer = pieces.last().push(s.last());
            assert(before.push(pieces.last()) =~= pieces);
            lemma_join_push(before, pieces.last(), seq![sep]);
            lemma_join_push(before, longer, seq![sep]);
            assert(join_all(before.push(longer), seq![sep]) =~= t.push(s.last()));
            assert(t.push(s.last()) =~= s);
        }
    }
}

/// Pieces that do not hold the separator are told apart again: those of the text that
/// they make, with the separator between any two, are these pieces.
pub proof fn law_joined_pieces_split(pieces: Seq<Seq<char>>, class: CharClass, sep: char)
    requires
        pieces.len() > 0,
        class.holds(sep),
        forall|i: int, k: int|
            0 <= i < pieces.len() && 0 <= k < pieces[i].len() ==> !class.holds(
                #[trigger] pieces[i][k],
            ),
    ensures
        split(join_all(pieces, seq![sep]), class) == pieces,
    decreases pieces.len(),
{
    let last = pieces.last();
    assert forall|k: int| 0 <= k < last.len() implies !class.holds(#[trigger] last[k]) by {
        assert(last[k] == pieces[pieces.len() - 1][k]);
    }
    if pieces.len() == 1 {
        lemma_split_whole(last, class);
        assert(seq![last] =~= pieces);
    } else {
        let before = pieces.drop_last();
        assert forall|i: int, k: int|
            0 <= i < before.len() && 0 <= k < before[i].len() implies !class.holds(
            #[trigger] before[i][k],
        ) by {
            assert(before[i][k] == pieces[i][k]);
        }
        law_joined_pieces_split(before, class, sep);
        let text = join_all(before, seq![sep]);
        assert(join_all(pieces, seq![sep]) =~= text.push(sep) + last);
        lemma_split_push(text, sep, last, class);
        assert(before.push(last) =~= pieces);
    }
}

/// Words with a white space character between any two are told apart again.
pub proof fn law_words_are_told_apart(list: Seq<Seq<char>>, sep: char)
    requires
        list.len() > 0,
        CharClass::Space.holds(sep),
        forall|i: int| 0 <= i < list.len() ==> (#[trigger] list[i]).len() > 0,
        forall|i: int, k: int|
            0 <= i < list.len() && 0 <= k < list[i].len() ==> !CharClass::Space.holds(
                #[trigger] list[i][k],
            ),
    ensures
        words(join_all(list, seq![sep])) == list,
{
    law_joined_pieces_split(list, CharClass::Space, sep);
    lemma_all_kept(list);
}

/// Nothing is left out where every piece holds something.
proof fn lemma_all_kept(list: Seq<Seq<char>>)
    requires
        forall|i: int| 0 <= i < list.len() ==> (#[trigger] list[i]).len() > 0,
    ensures
        list.filter(|p: Seq<char>| p.len() > 0) == list,
    decreases list.len(),
{
    reveal(Seq::filter);
    if list.len() > 0 {
        let before = list.drop_last();
        assert forall|i: int| 0 <= i < before.len() implies (#[trigger] before[i]).len() > 0 by {
            assert(before[i] == list[i]);
        }
        lemma_all_kept(before);
        assert(list[list.len() - 1].len() > 0);
        assert(before.push(list.last()) =~= list);
    } else {
        assert(list =~= Seq::empty());
    }
}

/// A text is cut in two at the first separator, and cannot be cut where there is none.
pub proof fn law_split_once_cuts_at_first(before: Seq<char>, c: char, after: Seq<char>)
    requires
        forall|i: int| 0 <= i < before.len() ==> #[trigger] before[i] != c,
    ensures
        split_once(before.push(c) + after, c) == Some((before, after)),
        split_once(before, c) is None,
{
    let s = before.push(c) + after;
    lemma_first_index(s, c);
    lemma_first_index(before, c);
    let n = before.len() as int;
    assert(s[n] == c);
    let at = first_index(s, c)->0;
    if at < n {
        assert(s[at] == before[at]);
    }
    assert(at == n);
    assert(s.take(n) =~= before);
    assert(s.skip(n + 1) =~= after);
}

/// Lists of texts are told in the same order, one for one.
pub proof fn law_views_are_faithful(pieces: Seq<Vec<char>>, strings: Seq<String>)
    ensures
        views(pieces).len() == pieces.len(),
        forall|i: int| 0 <= i < pieces.len() ==> #[trigger] views(pieces)[i] == pieces[i]@,
        texts(strings).len() == strings.len(),
        forall|i: int| 0 <= i < strings.len() ==> #[trigger] texts(strings)[i] == strings[i]@,
{
}

} // verus!
