//! The notation of numbers: decimal and hexadecimal output, decimal input.

use vstd::prelude::*;

verus! {

// ---------------------------------------------------------------------------
// Decimal output
// ---------------------------------------------------------------------------

/// The decimal digit for `d`, a number below ten.
pub open spec fn digit(d: nat) -> char {
    (48 + d) as char
}

/// The decimal notation of `n`, without leading zeros.
pub open spec fn decimal(n: nat) -> Seq<char>
    decreases n,
{
    if n < 10 {
        seq![digit(n)]
    } else {
        decimal(n / 10).push(digit(n % 10))
    }
}

/// `count` zeros.
pub open spec fn zeros(count: int) -> Seq<char> {
    Seq::new(
        if count > 0 {
            count as nat
        } else {
            0
        },
        |i: int| '0',
    )
}

/// The decimal notation of `n`, filled up with zeros on the left to `width`
/// characters; a longer number keeps all of its digits.
pub open spec fn zero_padded(n: nat, width: nat) -> Seq<char> {
    zeros(width - decimal(n).len()) + decimal(n)
}

/// Appends the decimal notation of `n`.
pub fn push_decimal(out: &mut String, n: u64)
    ensures
        final(out)@ == old(out)@ + decimal(n as nat),
    decreases n,
{
    if n >= 10 {
        push_decimal(out, n / 10);
    }
    let c = (48 + (n % 10) as u8) as char;
    let ghost before = out@;
    out.push(c);
    assert(c == digit(n as nat % 10));
    if n >= 10 {
        assert(before.push(c) =~= old(out)@ + decimal(n as nat / 10).push(c));
    } else {
        assert(before.push(c) =~= old(out)@ + seq![c]);
    }
}

/// How many digits `n` has.
pub fn decimal_len(n: u64) -> (len: usize)
    ensures
        len == decimal(n as nat).len(),
        1 <= len <= 20,
{
    let mut rest: u64 = n;
    let mut len: usize = 1;
    let ghost mut power: nat = 1;
    while rest >= 10
        invariant
            decimal(n as nat).len() == decimal(rest as nat).len() + len - 1,
            1 <= len,
            power * rest <= n,
            power >= 1,
            len <= 20 ==> power >= 1 && power == pow10((len - 1) as nat),
            len <= 20,
        decreases rest,
    {
        proof {
            let p = power;
            let q = (rest / 10) as nat;
            assert(p * 10 * q <= p * rest) by (nonlinear_arith)
                requires
                    10 * q <= rest,
            ;
            power = p * 10;
            assert(power == pow10(len as nat));
            if len == 20 {
                assert(pow10(20) == 100_000_000_000_000_000_000) by {
                    reveal_with_fuel(pow10, 21);
                }
                assert(power * q >= power) by (nonlinear_arith)
                    requires
                        q >= 1,
                        power >= 1,
                ;
                assert(false);
            }
        }
        rest = rest / 10;
        len = len + 1;
    }
    len
}

/// The powers of ten.
spec fn pow10(e: nat) -> nat
    decreases e,
{
    if e == 0 {
        1
    } else {
        10 * pow10((e - 1) as nat)
    }
}

/// Appends the decimal notation of `n`, filled up with zeros to `width`.
pub fn push_zero_padded(out: &mut String, n: u64, width: usize)
    ensures
        final(out)@ == old(out)@ + zero_padded(n as nat, width as nat),
{
    let len = decimal_len(n);
    let mut written: usize = len;
    assert(out@ =~= old(out)@ + zeros(0));
    while written < width
        invariant
            len == decimal(n as nat).len(),
            len <= written,
            written <= width || written == len,
            out@ == old(out)@ + zeros(written - len),
        decreases width - written,
    {
        out.push('0');
        written = written + 1;
        assert((old(out)@ + zeros(written - 1 - len)).push('0') =~= old(out)@ + zeros(
            written - len,
        ));
    }
    let ghost before = out@;
    push_decimal(out, n);
    assert(zeros(written - len) =~= zeros(width - len));
    assert(before + decimal(n as nat) =~= old(out)@ + zero_padded(n as nat, width as nat));
}

// ---------------------------------------------------------------------------
// Hexadecimal output
// ---------------------------------------------------------------------------

/// The lower-case hexadecimal digit for `d`, a number below sixteen.
pub open spec fn hex_digit(d: nat) -> char {
    if d < 10 {
        (48 + d) as char
    } else {
        (87 + d) as char
    }
}

/// The last `width` hexadecimal digits of `n`, in lower case.
pub open spec fn hex(n: nat, width: nat) -> Seq<char>
    decreases width,
{
    if width == 0 {
        Seq::empty()
    } else {
        hex(n / 16, (width - 1) as nat).push(hex_digit(n % 16))
    }
}

/// Appends the last `width` hexadecimal digits of `n`.
pub fn push_hex(out: &mut String, n: u64, width: usize)
    ensures
        final(out)@ == old(out)@ + hex(n as nat, width as nat),
    decreases width,
{
    if width > 0 {
        push_hex(out, n / 16, width - 1);
        let d = (n % 16) as u8;
        let c = if d < 10 {
            (48 + d) as char
        } else {
            (87 + d) as char
        };
        let ghost before = out@;
        out.push(c);
        assert(before.push(c) =~= old(out)@ + hex(n as nat / 16, (width - 1) as nat).push(c));
    } else {
        assert(out@ =~= old(out)@ + hex(n as nat, 0));
    }
}

// ---------------------------------------------------------------------------
// Decimal input
// ---------------------------------------------------------------------------

/// Whether `c` is a decimal digit.
pub open spec fn is_digit(c: char) -> bool {
    '0' <= c <= '9'
}

/// Whether `s` is made of one or more decimal digits.
pub open spec fn is_number(s: Seq<char>) -> bool {
    s.len() > 0 && forall|i: int| 0 <= i < s.len() ==> is_digit(#[trigger] s[i])
}

/// The value of a row of digits.
pub open spec fn number_value(s: Seq<char>) -> nat
    decreases s.len(),
{
    if s.len() == 0 {
        0
    } else {
        (number_value(s.drop_last()) * 10 + (s.last() as int - 48)) as nat
    }
}

/// The number that `s` denotes: digits, with a plus sign before them or
/// without; nothing where it exceeds `max`.
pub open spec fn parse_unsigned(s: Seq<char>, max: nat) -> Option<nat> {
    let digits = if s.len() > 0 && s[0] == '+' {
        s.drop_first()
    } else {
        s
    };
    if is_number(digits) && number_value(digits) <= max {
        Some(number_value(digits))
    } else {
        None
    }
}

/// The number that `s` denotes: digits, with a sign before them or without;
/// nothing where it does not fit into 64 bits.
pub open spec fn parse_signed(s: Seq<char>) -> Option<int> {
    if s.len() > 0 && s[0] == '-' {
        let digits = s.drop_first();
        if is_number(digits) && number_value(digits) <= 0x8000_0000_0000_0000 {
            Some(-(number_value(digits) as int))
        } else {
            None
        }
    } else {
        match parse_unsigned(s, i64::MAX as nat) {
            Some(n) => Some(n as int),
            None => None,
        }
    }
}

/// Further digits make a number no smaller.
proof fn lemma_number_value_grows(s: Seq<char>, k: int)
    requires
        0 <= k <= s.len(),
        forall|i: int| 0 <= i < s.len() ==> is_digit(#[trigger] s[i]),
    ensures
        number_value(s.take(k)) <= number_value(s),
    decreases s.len(),
{
    if k == s.len() {
        assert(s.take(k) =~= s);
    } else {
        let t = s.drop_last();
        assert forall|i: int| 0 <= i < t.len() implies is_digit(#[trigger] t[i]) by {
            assert(t[i] == s[i]);
        }
        lemma_number_value_grows(t, k);
        assert(t.take(k) =~= s.take(k));
        assert(is_digit(s[s.len() - 1]));
    }
}

/// The value of the digits from `from` on, where there are any, and where it
/// does not exceed `max`.
fn parse_digits(v: &Vec<char>, from: usize, max: u64) -> (r: Option<u64>)
    requires
        from <= v@.len(),
    ensures
        ({
            let digits = v@.skip(from as int);
            if is_number(digits) && number_value(digits) <= max {
                r == Some(number_value(digits) as u64) && r->0 == number_value(digits)
            } else {
                r is None
            }
        }),
{
    let ghost digits = v@.skip(from as int);
    if from == v.len() {
        return None;
    }
    let mut i: usize = from;
    let mut n: u64 = 0;
    assert(digits.take(0) =~= Seq::empty());
    while i < v.len()
        invariant
            from <= i <= v@.len(),
            digits == v@.skip(from as int),
            forall|j: int| 0 <= j < i - from ==> is_digit(#[trigger] digits[j]),
            n == number_value(digits.take(i - from)),
            n <= max,
        decreases v@.len() - i,
    {
        let c = v[i];
        assert(digits[i - from] == c);
        if c < '0' || c > '9' {
            return None;
        }
        let d = c as u64 - 48;
        let ghost longer = digits.take(i + 1 - from);
        assert(longer.drop_last() =~= digits.take(i - from));
        assert(number_value(longer) == n * 10 + d);
        if n > max / 10 || d > max - n * 10 {
            proof {
                assert(number_value(longer) > max);
                if is_number(digits) {
                    lemma_number_value_grows(digits, i + 1 - from);
                }
            }
            return None;
        }
        n = n * 10 + d;
        i = i + 1;
    }
    assert(digits.take(i - from) =~= digits);
    Some(n)
}

/// Reads an unsigned number that is at most `max`.
pub fn read_unsigned(v: &Vec<char>, max: u64) -> (r: Option<u64>)
    ensures
        r is Some == parse_unsigned(v@, max as nat) is Some,
        r matches Some(n) ==> parse_unsigned(v@, max as nat) == Some(n as nat),
{
    if v.len() > 0 && v[0] == '+' {
        assert(v@.skip(1) =~= v@.drop_first());
        parse_digits(v, 1, max)
    } else {
        assert(v@.skip(0) =~= v@);
        parse_digits(v, 0, max)
    }
}

/// Reads a signed 64-bit number.
pub fn read_signed(v: &Vec<char>) -> (r: Option<i64>)
    ensures
        r is Some == parse_signed(v@) is Some,
        r matches Some(n) ==> parse_signed(v@) == Some(n as int),
{
    if v.len() > 0 && v[0] == '-' {
        assert(v@.skip(1) =~= v@.drop_first());
        match parse_digits(v, 1, 0x8000_0000_0000_0000) {
            Some(n) => {
                if n == 0x8000_0000_0000_0000 {
                    Some(i64::MIN)
                } else {
                    Some(-(n as i64))
                }
            },
            None => None,
        }
    } else {
        match read_unsigned(v, i64::MAX as u64) {
            Some(n) => Some(n as i64),
            None => None,
        }
    }
}

// ---------------------------------------------------------------------------
// Letter case
// ---------------------------------------------------------------------------

/// `c`, an ASCII capital turned into the small letter.
pub open spec fn lower_char(c: char) -> char {
    if 'A' <= c <= 'Z' {
        (c as int + 32) as char
    } else {
        c
    }
}

/// `s` with ASCII capitals turned into small letters.
pub open spec fn lower(s: Seq<char>) -> Seq<char> {
    s.map_values(|c: char| lower_char(c))
}

/// Turns an ASCII capital into the small letter.
pub fn to_lower_char(c: char) -> (r: char)
    ensures
        r == lower_char(c),
{
    if 'A' <= c && c <= 'Z' {
        (c as u8 + 32) as char
    } else {
        c
    }
}

/// Turns ASCII capitals into small letters.
pub fn to_lower(v: &Vec<char>) -> (r: Vec<char>)
    ensures
        r@ == lower(v@),
{
    let mut r: Vec<char> = Vec::new();
    let mut i: usize = 0;
    while i < v.len()
        invariant
            i <= v@.len(),
            r@ == lower(v@.take(i as int)),
        decreases v@.len() - i,
    {
        r.push(to_lower_char(v[i]));
        i = i + 1;
        assert(lower(v@.take(i as int)) =~= lower(v@.take(i - 1)).push(lower_char(v@[i - 1])));
    }
    assert(v@.take(i as int) =~= v@);
    r
}

/// A number reads back from its decimal notation.
pub proof fn law_decimal_reads_back(n: nat, max: nat)
    requires
        n <= max,
    ensures
        is_number(decimal(n)),
        number_value(decimal(n)) == n,
        parse_unsigned(decimal(n), max) == Some(n),
    decreases n,
{
    if n < 10 {
        assert(decimal(n).drop_last() =~= Seq::empty());
        assert(number_value(decimal(n).drop_last()) == 0);
        assert(decimal(n).last() as int == 48 + n);
    } else {
        law_decimal_reads_back(n / 10, max);
        assert(decimal(n).drop_last() =~= decimal(n / 10));
        assert(decimal(n).last() as int == 48 + n % 10);
        assert forall|i: int| 0 <= i < decimal(n).len() implies is_digit(
            #[trigger] decimal(n)[i],
        ) by {
            if i < decimal(n / 10).len() {
                assert(decimal(n)[i] == decimal(n / 10)[i]);
            }
        }
    }
    assert(is_digit(decimal(n)[0]));
}

/// Numbers that are written alike in hexadecimal digits agree in as many digits.
pub proof fn lemma_hex_tells_apart(a: nat, b: nat, width: nat)
    requires
        hex(a, width) == hex(b, width),
    ensures
        hex_tail(a, width) == hex_tail(b, width),
    decreases width,
{
    if width > 0 {
        let w = (width - 1) as nat;
        assert(hex(a, width).drop_last() =~= hex(a / 16, w));
        assert(hex(b, width).drop_last() =~= hex(b / 16, w));
        assert(hex(a, width).last() == hex_digit(a % 16));
        assert(hex(b, width).last() == hex_digit(b % 16));
        lemma_hex_tells_apart(a / 16, b / 16, w);
    }
}

/// The number that the last `width` hexadecimal digits of `n` make.
pub open spec fn hex_tail(n: nat, width: nat) -> nat
    decreases width,
{
    if width == 0 {
        0
    } else {
        hex_tail(n / 16, (width - 1) as nat) * 16 + n % 16
    }
}

/// Sixteen hexadecimal digits make any number of 64 bits.
pub proof fn lemma_hex_tail_is_all(n: u64)
    ensures
        hex_tail(n as nat, 16) == n,
{
    reveal_with_fuel(hex_tail, 17);
}

/// Decimal notation goes digit by digit: a digit behind a number makes ten times the
/// number and the digit.
pub proof fn law_decimal_grows_by_digits(n: nat, d: nat)
    requires
        d < 10,
    ensures
        decimal(d) == seq![(48 + d) as char],
        n > 0 ==> decimal(10 * n + d) == decimal(n).push((48 + d) as char),
        decimal(n).len() >= 1,
        n > 0 ==> decimal(n)[0] != '0',
    decreases n,
{
    assert((10 * n + d) / 10 == n);
    assert((10 * n + d) % 10 == d);
    if n >= 10 {
        law_decimal_grows_by_digits(n / 10, d);
    } else {
        assert(n > 0 ==> ((48 + n) as char) != '0');
    }
}

/// A number that is filled up keeps its digits at the end, has zeros before them, and is
/// as long as was asked for, unless it is longer by itself.
pub proof fn law_padding_is_zeros(n: nat, width: nat)
    ensures
        ({
            let all = zero_padded(n, width);
            let digits = decimal(n);
            &&& all.len() == if width > digits.len() {
                width
            } else {
                digits.len()
            }
            &&& all.skip(all.len() - digits.len()) == digits
            &&& forall|i: int| 0 <= i < all.len() - digits.len() ==> #[trigger] all[i] == '0'
        }),
{
    let all = zero_padded(n, width);
    assert(all.skip(all.len() - decimal(n).len()) =~= decimal(n));
}

/// Hexadecimal notation goes digit by digit, in small letters, and has as many digits as
/// are asked for.
pub proof fn law_hex_goes_by_digits(n: nat, d: nat, width: nat)
    requires
        d < 16,
    ensures
        hex(n, 0).len() == 0,
        d < 10 ==> hex(16 * n + d, width + 1) == hex(n, width).push((48 + d) as char),
        d >= 10 ==> hex(16 * n + d, width + 1) == hex(n, width).push((97 + d - 10) as char),
        hex(n, width).len() == width,
    decreases width,
{
    assert((16 * n + d) / 16 == n);
    assert((16 * n + d) % 16 == d);
    if width > 0 {
        law_hex_goes_by_digits(n / 16, d, (width - 1) as nat);
    }
}

/// Reading a number goes digit by digit too, and stops at the largest that is allowed.
pub proof fn law_digit_extends_number(s: Seq<char>, c: char, max: nat)
    requires
        s.len() > 0,
        forall|i: int| 0 <= i < s.len() ==> '0' <= #[trigger] s[i] <= '9',
        '0' <= c <= '9',
    ensures
        parse_unsigned(seq![c], max) == if c as int - 48 <= max {
            Some((c as int - 48) as nat)
        } else {
            None
        },
        parse_unsigned(s, max) is None ==> parse_unsigned(s.push(c), max) is None,
        parse_unsigned(s, max) matches Some(n) ==> parse_unsigned(s.push(c), max) == if n * 10 + (
        c as int - 48) <= max {
            Some((n * 10 + (c as int - 48)) as nat)
        } else {
            None
        },
{
    assert(seq![c].drop_last() =~= Seq::empty());
    assert(number_value(seq![c].drop_last()) == 0);
    assert forall|i: int| 0 <= i < seq![c].len() implies is_digit(#[trigger] seq![c][i]) by {}
    assert(seq![c][0] == c);
    let t = s.push(c);
    assert(t.drop_last() =~= s);
    assert forall|i: int| 0 <= i < t.len() implies is_digit(#[trigger] t[i]) by {
        if i < s.len() {
            assert(t[i] == s[i]);
        }
    }
    assert forall|i: int| 0 <= i < s.len() implies is_digit(#[trigger] s[i]) by {}
    assert('0' <= s[0] <= '9');
    assert(t[0] == s[0]);
}

/// What is not made of digits is no number, but for a sign before them. Without a digit
/// there is no number.
pub proof fn law_only_digits_are_numbers(s: Seq<char>, max: nat)
    ensures
        parse_unsigned(Seq::empty(), max) is None,
        (exists|i: int|
            0 <= i < s.len() && !('0' <= #[trigger] s[i] <= '9') && (i > 0 || s[i] != '+'))
            ==> parse_unsigned(s, max) is None,
        s.len() > 0 && s[0] != '+' ==> parse_unsigned(seq!['+'] + s, max) == parse_unsigned(s, max),
        parse_unsigned(seq!['+'], max) is None,
        s.len() > 0 && '0' <= s[0] <= '9' ==> parse_signed(s) == match parse_unsigned(
            s,
            0x7fff_ffff_ffff_ffff,
        ) {
            Some(n) => Some(n as int),
            None => None,
        },
        s.len() > 0 && '0' <= s[0] <= '9' ==> parse_signed(seq!['-'] + s) == match parse_unsigned(
            s,
            0x8000_0000_0000_0000,
        ) {
            Some(n) => Some(-(n as int)),
            None => None,
        },
        (exists|i: int|
            0 <= i < s.len() && !('0' <= #[trigger] s[i] <= '9') && (i > 0 || (s[i] != '+' && s[i]
                != '-'))) ==> parse_signed(s) is None,
        parse_signed(Seq::empty()) is None,
        parse_signed(seq!['-']) is None && parse_signed(seq!['+']) is None,
        s.len() > 0 && '0' <= s[0] <= '9' ==> parse_signed(seq!['+'] + s) == parse_signed(s),
{
    if exists|i: int|
        0 <= i < s.len() && !('0' <= #[trigger] s[i] <= '9') && (i > 0 || s[i] != '+') {
        let i = choose|i: int|
            0 <= i < s.len() && !('0' <= #[trigger] s[i] <= '9') && (i > 0 || s[i] != '+');
        assert(!is_digit(s[i]));
        if s[0] == '+' {
            assert(s.drop_first()[i - 1] == s[i]);
        }
    }
    if exists|i: int|
        0 <= i < s.len() && !('0' <= #[trigger] s[i] <= '9') && (i > 0 || (s[i] != '+' && s[i]
            != '-')) {
        let i = choose|i: int|
            0 <= i < s.len() && !('0' <= #[trigger] s[i] <= '9') && (i > 0 || (s[i] != '+' && s[i]
                != '-'));
        assert(!is_digit(s[i]));
        if i > 0 {
            assert(s.drop_first()[i - 1] == s[i]);
        }
    }
    assert((seq!['+'] + s).drop_first() =~= s);
    assert((seq!['-'] + s).drop_first() =~= s);
    assert(seq!['+'].drop_first() =~= Seq::empty());
    assert(seq!['-'].drop_first() =~= Seq::empty());
    assert(seq!['+'][0] == '+' && seq!['-'][0] == '-');
    assert((seq!['+'] + s)[0] == '+');
    assert(i64::MAX as nat == 0x7fff_ffff_ffff_ffff);
}

/// Turning text into small letters turns each ASCII capital into its small letter, and
/// changes nothing else.
pub proof fn law_lower_changes_capitals(s: Seq<char>, i: int)
    requires
        0 <= i < s.len(),
    ensures
        lower(s).len() == s.len(),
        'A' <= s[i] <= 'Z' ==> lower(s)[i] as int == s[i] as int + 32,
        !('A' <= s[i] <= 'Z') ==> lower(s)[i] == s[i],
        lower(lower(s)) == lower(s),
{
    assert(lower(lower(s)) =~= lower(s));
}

/// A number of 32 bits has at most ten digits.
pub proof fn lemma_decimal_of_32_bits(n: nat)
    requires
        n <= u32::MAX,
    ensures
        decimal(n).len() <= 10,
{
    assert(pow10(10) == 10_000_000_000) by {
        reveal_with_fuel(pow10, 11);
    }
    lemma_decimal_len(n, 10);
}

/// A number below a power of ten has no more digits than the power says.
proof fn lemma_decimal_len(n: nat, e: nat)
    requires
        e > 0,
        n < pow10(e),
    ensures
        decimal(n).len() <= e,
    decreases e,
{
    if n >= 10 {
        assert(pow10(1) == 10) by {
            reveal_with_fuel(pow10, 2);
        }
        assert(e > 1);
        lemma_decimal_len(n / 10, (e - 1) as nat);
    }
}

} // verus!
