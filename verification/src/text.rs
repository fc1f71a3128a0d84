//! Character-level helpers shared by the lexer, the parser and the diagnostics:
//! UTF-8 widths and byte offsets, decimal digits, and classification of characters.
use vstd::prelude::*;
use vstd::string::StringSliceAdditionalSpecFns;
use vstd::utf8::*;

verus! {

/// Number of bytes that the UTF-8 encoding of `c` occupies.
pub open spec fn utf8_width(c: char) -> int {
    let u = c as u32;
    if u < 0x80 {
        1
    } else if u < 0x800 {
        2
    } else if u < 0x10000 {
        3
    } else {
        4
    }
}

/// Number of bytes that the UTF-8 encoding of `s` occupies.
pub open spec fn utf8_len(s: Seq<char>) -> int
    decreases s.len(),
{
    if s.len() == 0 {
        0
    } else {
        utf8_len(s.drop_last()) + utf8_width(s.last())
    }
}

/// Byte offset at which the character with index `i` starts in the encoding of `s`.
pub open spec fn byte_offset(s: Seq<char>, i: int) -> int {
    utf8_len(s.take(i))
}

/// The next character starts where this one ends.
pub proof fn lemma_byte_offset_next(s: Seq<char>, i: int)
    requires
        0 <= i < s.len(),
    ensures
        byte_offset(s, i + 1) == byte_offset(s, i) + utf8_width(s[i]),
        byte_offset(s, 0) == 0,
{
    assert(s.take(i + 1).drop_last() =~= s.take(i));
    assert(s.take(0).len() == 0);
}

/// A character takes one byte at least and four at most.
pub proof fn lemma_utf8_len_bounds(s: Seq<char>)
    ensures
        s.len() <= utf8_len(s) <= 4 * s.len(),
    decreases s.len(),
{
    if s.len() > 0 {
        lemma_utf8_len_bounds(s.drop_last());
    }
}

/// A later character starts at a later byte.
pub proof fn lemma_byte_offset_monotone(s: Seq<char>, i: int, j: int)
    requires
        0 <= i <= j <= s.len(),
    ensures
        byte_offset(s, i) + (j - i) <= byte_offset(s, j),
    decreases j - i,
{
    if i < j {
        lemma_byte_offset_monotone(s, i, j - 1);
        lemma_byte_offset_next(s, j - 1);
    }
}

/// The text ends at the byte that its length in bytes gives.
pub proof fn lemma_byte_offset_end(s: Seq<char>)
    ensures
        byte_offset(s, s.len() as int) == utf8_len(s),
{
    assert(s.take(s.len() as int) =~= s);
}

proof fn lemma_encode_concat(a: Seq<char>, b: Seq<char>)
    ensures
        encode_utf8(a + b) == encode_utf8(a) + encode_utf8(b),
    decreases a.len(),
{
    if a.len() == 0 {
        assert(a + b =~= b);
        assert(encode_utf8(a) + encode_utf8(b) =~= encode_utf8(b));
    } else {
        assert((a + b).drop_first() =~= a.drop_first() + b);
        lemma_encode_concat(a.drop_first(), b);
        assert(encode_utf8(a + b) =~= encode_utf8(a) + encode_utf8(b));
    }
}

proof fn lemma_encode_scalar_len(c: char)
    ensures
        encode_scalar(c as u32).len() == utf8_width(c),
{
    char_is_scalar(c);
}

/// `utf8_len` agrees with the length of the encoding that `vstd` defines.
pub proof fn lemma_utf8_len_is_encoding_len(s: Seq<char>)
    ensures
        utf8_len(s) == encode_utf8(s).len(),
    decreases s.len(),
{
    if s.len() > 0 {
        let init = s.drop_last();
        let last = seq![s.last()];
        lemma_utf8_len_is_encoding_len(init);
        assert(s =~= init + last);
        lemma_encode_concat(init, last);
        lemma_encode_scalar_len(s.last());
        assert(last.drop_first() =~= Seq::<char>::empty());
        assert(encode_utf8(last) =~= encode_scalar(s.last() as u32)) by {
            reveal_with_fuel(encode_utf8, 2);
        }
    }
}

/// Number of bytes that the UTF-8 encoding of `c` occupies.
pub fn char_width(c: char) -> (w: usize)
    ensures
        w == utf8_width(c),
{
    let u: u32 = c as u32;
    if u < 0x80 {
        1
    } else if u < 0x800 {
        2
    } else if u < 0x10000 {
        3
    } else {
        4
    }
}

/// The encoding of a part of `s` is the part of the encoding of `s`
/// between the bytes at which the part starts and ends.
pub proof fn lemma_encode_subrange(s: Seq<char>, lo: int, hi: int)
    requires
        0 <= lo <= hi <= s.len(),
    ensures
        0 <= byte_offset(s, lo) <= byte_offset(s, hi) <= encode_utf8(s).len(),
        encode_utf8(s.subrange(lo, hi)) == encode_utf8(s).subrange(byte_offset(s, lo), byte_offset(s, hi)),
{
    let a = s.take(lo);
    let b = s.subrange(lo, hi);
    let c = s.skip(hi);
    assert(s =~= a + b + c);
    assert(s.take(hi) =~= a + b);
    lemma_encode_concat(a + b, c);
    lemma_encode_concat(a, b);
    lemma_utf8_len_is_encoding_len(a);
    lemma_utf8_len_is_encoding_len(a + b);
    lemma_utf8_len_is_encoding_len(s);
    assert(encode_utf8(s).subrange(byte_offset(s, lo), byte_offset(s, hi)) =~= encode_utf8(b));
}

/// Calls `str::get` with the byte range `from..to`, which gives the
/// part of `s` between the two bytes where that part exists, and
/// `None` where the range does not lie on boundaries of characters
/// within `s`.
#[verifier::external_body]
pub(crate) fn bytes_between<'a>(s: &'a str, from: usize, to: usize) -> (r: Option<&'a str>)
    ensures
        r matches Some(t) ==> from <= to <= s.spec_bytes().len() && t.spec_bytes()
            == s.spec_bytes().subrange(from as int, to as int),
{
    s.get(from..to)
}

/// The characters `lo..hi` of `s`, which start at the bytes `from` and
/// `to`.
pub fn char_range<'a>(s: &'a str, lo: usize, hi: usize, from: usize, to: usize) -> (r: &'a str)
    requires
        lo <= hi <= s@.len(),
        from == byte_offset(s@, lo as int),
        to == byte_offset(s@, hi as int),
    ensures
        r@ == s@.subrange(lo as int, hi as int),
{
    match bytes_between(s, from, to) {
        Some(t) => {
            proof {
                lemma_encode_subrange(s@, lo as int, hi as int);
                encode_utf8_decode_utf8(t@);
                encode_utf8_decode_utf8(s@.subrange(lo as int, hi as int));
            }
            t
        },
        None => s.substring_char(lo, hi),
    }
}

/// The characters of `s`, one element each.
pub fn to_chars(s: &str) -> (v: Vec<char>)
    ensures
        v@ == s@,
{
    let mut v: Vec<char> = Vec::new();
    for c in it: s.chars()
        invariant
            v@ == s@.take(it.index() as int),
            it.seq() == s@,
    {
        v.push(c);
    }
    v
}

/// What `char::is_alphanumeric` answers for a character beyond ASCII.
pub uninterp spec fn alphanumeric_beyond_ascii(c: char) -> bool;

/// What `char::is_whitespace` answers for a character beyond ASCII.
pub uninterp spec fn whitespace_beyond_ascii(c: char) -> bool;

/// The characters of ASCII: those below 128.
pub open spec fn is_ascii_char(c: char) -> bool {
    (c as u32) < 128
}

/// What `char::is_alphanumeric` answers for `c`: within ASCII, the
/// letters and the digits.
pub open spec fn is_alphanumeric(c: char) -> bool {
    if is_ascii_char(c) {
        ('0' <= c <= '9') || ('a' <= c <= 'z') || ('A' <= c <= 'Z')
    } else {
        alphanumeric_beyond_ascii(c)
    }
}

/// What `char::is_whitespace` answers for `c`: within ASCII, the blank
/// and the controls from the tabulator to the carriage return.
pub open spec fn is_whitespace(c: char) -> bool {
    if is_ascii_char(c) {
        c == ' ' || ('\u{9}' <= c <= '\u{d}')
    } else {
        whitespace_beyond_ascii(c)
    }
}

/// Calls `char::is_alphanumeric`, which is true of the alphabetic and
/// the numeric characters of Unicode: within ASCII these are the
/// letters and the digits. Beyond ASCII nothing is claimed but that the
/// answer depends on the character alone.
#[verifier::external_body]
pub(crate) fn char_is_alphanumeric(c: char) -> (b: bool)
    ensures
        b == if is_ascii_char(c) {
            ('0' <= c <= '9') || ('a' <= c <= 'z') || ('A' <= c <= 'Z')
        } else {
            alphanumeric_beyond_ascii(c)
        },
{
    c.is_alphanumeric()
}

/// Calls `char::is_whitespace`, which is true of the characters with
/// the Unicode property `White_Space`: within ASCII these are the blank
/// and the controls 9 to 13. Beyond ASCII nothing is claimed but that
/// the answer depends on the character alone.
#[verifier::external_body]
pub(crate) fn char_is_whitespace(c: char) -> (b: bool)
    ensures
        b == if is_ascii_char(c) {
            c == ' ' || ('\u{9}' <= c <= '\u{d}')
        } else {
            whitespace_beyond_ascii(c)
        },
{
    c.is_whitespace()
}

/// True for the ten ASCII digits.
pub open spec fn is_digit(c: char) -> bool {
    '0' <= c <= '9'
}

/// Every character is a digit.
pub open spec fn all_digits(s: Seq<char>) -> bool {
    forall|i: int| 0 <= i < s.len() ==> is_digit(#[trigger] s[i])
}

/// The number that a digit stands for.
pub open spec fn digit_value(c: char) -> int {
    c as int - '0' as int
}

/// The number that a sequence of digits denotes in base ten.
pub open spec fn decimal_value(s: Seq<char>) -> int
    decreases s.len(),
{
    if s.len() == 0 {
        0
    } else {
        decimal_value(s.drop_last()) * 10 + digit_value(s.last())
    }
}

/// What an integer literal denotes: its value where the literal is not
/// empty and the value fits 64 signed bits.
pub open spec fn parse_integer(s: Seq<char>) -> Option<i64> {
    if s.len() > 0 && decimal_value(s) <= i64::MAX {
        Some(decimal_value(s) as i64)
    } else {
        None
    }
}

/// The digits before a place denote no more than all the digits.
pub proof fn lemma_decimal_value_prefix(s: Seq<char>, k: int)
    requires
        all_digits(s),
        0 <= k <= s.len(),
    ensures
        0 <= decimal_value(s.take(k)) <= decimal_value(s),
    decreases s.len() - k,
{
    if k == 0 {
        assert(s.take(0).len() == 0);
        lemma_decimal_value_nonneg(s);
    } else if k < s.len() {
        lemma_decimal_value_prefix(s, k + 1);
        assert(s.take(k + 1).drop_last() =~= s.take(k));
        assert(is_digit(s.take(k + 1).last()));
        lemma_decimal_value_nonneg(s.take(k));
    } else {
        assert(s.take(k) =~= s);
        lemma_decimal_value_nonneg(s);
    }
}

/// Digits denote no negative number.
pub proof fn lemma_decimal_value_nonneg(s: Seq<char>)
    requires
        all_digits(s),
    ensures
        0 <= decimal_value(s),
    decreases s.len(),
{
    if s.len() > 0 {
        lemma_decimal_value_nonneg(s.drop_last());
        assert(is_digit(s.last()));
    }
}

/// Whether `c` is one of the ten ASCII digits.
pub fn is_ascii_digit(c: char) -> (b: bool)
    ensures
        b == is_digit(c),
{
    '0' <= c && c <= '9'
}

/// Whether every character of `chars[lo..hi]` is a digit.
pub fn all_ascii_digits(chars: &Vec<char>, lo: usize, hi: usize) -> (b: bool)
    requires
        lo <= hi <= chars.len(),
    ensures
        b == all_digits(chars@.subrange(lo as int, hi as int)),
{
    let mut i: usize = lo;
    while i < hi
        invariant
            lo <= i <= hi <= chars.len(),
            all_digits(chars@.subrange(lo as int, i as int)),
        decreases hi - i,
    {
        if !is_ascii_digit(chars[i]) {
            assert(!is_digit(chars@.subrange(lo as int, hi as int)[i - lo]));
            return false;
        }
        assert forall|j: int| 0 <= j < i + 1 - lo implies is_digit(
            #[trigger] chars@.subrange(lo as int, i + 1)[j],
        ) by {
            if j < i - lo {
                assert(chars@.subrange(lo as int, i as int)[j] == chars@[lo + j]);
            }
        }
        i += 1;
    }
    true
}

/// Whether `s` reads as a number with a fraction: one digit or more, a
/// point, and the digits after it, of which there may be none.
pub open spec fn is_decimal_literal(s: Seq<char>) -> bool {
    exists|k: int|
        0 < k < s.len() && all_digits(s.take(k)) && #[trigger] s[k] == '.' && all_digits(s.skip(k + 1))
}

/// Whether `chars[lo..hi]` reads as a number with a fraction.
pub fn decimal_literal(chars: &Vec<char>, lo: usize, hi: usize) -> (b: bool)
    requires
        lo <= hi <= chars.len(),
    ensures
        b == is_decimal_literal(chars@.subrange(lo as int, hi as int)),
{
    let ghost s = chars@.subrange(lo as int, hi as int);
    let mut i: usize = lo;
    while i < hi && is_ascii_digit(chars[i])
        invariant
            lo <= i <= hi <= chars.len(),
            s == chars@.subrange(lo as int, hi as int),
            forall|j: int| 0 <= j < i - lo ==> is_digit(#[trigger] s[j]),
        decreases hi - i,
    {
        i += 1;
    }
    let ghost k0 = i - lo;
    proof {
        // A point is no digit: the point of a literal is the first
        // character that is none.
        assert forall|k: int|
            0 < k < s.len() && all_digits(s.take(k)) && #[trigger] s[k] == '.' implies k == k0 by {
            if k < k0 {
                assert(is_digit(s[k]));
            } else if k > k0 {
                assert(s.take(k)[k0] == s[k0]);
                assert(is_digit(s.take(k)[k0]));
            }
        }
    }
    if i == lo || i == hi || chars[i] != '.' {
        return false;
    }
    let mut j: usize = i + 1;
    while j < hi && is_ascii_digit(chars[j])
        invariant
            lo < i < j <= hi <= chars.len(),
            s == chars@.subrange(lo as int, hi as int),
            k0 == i - lo,
            forall|m: int| 0 <= m < j - i - 1 ==> is_digit(#[trigger] s.skip(k0 + 1)[m]),
        decreases hi - j,
    {
        assert(s.skip(k0 + 1)[j - i - 1] == chars@[j as int]);
        j += 1;
    }
    proof {
        if j == hi {
            assert(all_digits(s.take(k0))) by {
                assert forall|m: int| 0 <= m < s.take(k0).len() implies is_digit(
                    #[trigger] s.take(k0)[m],
                ) by {
                    assert(s.take(k0)[m] == s[m]);
                }
            }
            assert(s[k0] == '.');
            assert(all_digits(s.skip(k0 + 1)));
        } else {
            assert(!is_digit(s.skip(k0 + 1)[j - i - 1]));
        }
    }
    j == hi
}

/// The value of the digits `chars[lo..hi]`, unless it exceeds 64 signed bits.
pub fn parse_digits(chars: &Vec<char>, lo: usize, hi: usize) -> (r: Option<i64>)
    requires
        lo <= hi <= chars.len(),
        all_digits(chars@.subrange(lo as int, hi as int)),
    ensures
        r == parse_integer(chars@.subrange(lo as int, hi as int)),
{
    let ghost buf = chars@.subrange(lo as int, hi as int);
    if lo == hi {
        return None;
    }
    let mut acc: i64 = 0;
    let mut i: usize = lo;
    while i < hi
        invariant
            lo <= i <= hi <= chars.len(),
            buf == chars@.subrange(lo as int, hi as int),
            all_digits(buf),
            acc == decimal_value(buf.take(i - lo)),
            0 <= acc,
        decreases hi - i,
    {
        let c = chars[i];
        assert(is_digit(buf[i - lo]));
        let d: i64 = (c as u32 - '0' as u32) as i64;
        proof {
            assert(buf.take(i + 1 - lo).drop_last() =~= buf.take(i - lo));
            assert(buf.take(i + 1 - lo).last() == c);
            lemma_decimal_value_prefix(buf, i + 1 - lo);
        }
        if acc > (i64::MAX - d) / 10 {
            assert(decimal_value(buf.take(i + 1 - lo)) > i64::MAX);
            return None;
        }
        acc = acc * 10 + d;
        i += 1;
    }
    assert(buf.take(hi - lo) =~= buf);
    Some(acc)
}

/// The character for a digit below ten.
pub open spec fn digit_char(d: int) -> char {
    if d == 0 {
        '0'
    } else if d == 1 {
        '1'
    } else if d == 2 {
        '2'
    } else if d == 3 {
        '3'
    } else if d == 4 {
        '4'
    } else if d == 5 {
        '5'
    } else if d == 6 {
        '6'
    } else if d == 7 {
        '7'
    } else if d == 8 {
        '8'
    } else {
        '9'
    }
}

/// The digits of `n` in base ten, without leading zeros.
pub open spec fn decimal(n: nat) -> Seq<char>
    decreases n,
{
    if n < 10 {
        seq![digit_char(n as int)]
    } else {
        decimal(n / 10).push(digit_char((n % 10) as int))
    }
}

/// Different numbers have different digits.
pub proof fn lemma_decimal_injective(a: nat, b: nat)
    requires
        decimal(a) == decimal(b),
    ensures
        a == b,
    decreases a,
{
    if a < 10 && b < 10 {
        assert(decimal(a)[0] == digit_char(a as int));
        assert(decimal(b)[0] == digit_char(b as int));
    } else if a >= 10 && b >= 10 {
        let da = decimal(a / 10);
        let db = decimal(b / 10);
        assert(decimal(a).drop_last() =~= da);
        assert(decimal(b).drop_last() =~= db);
        assert(decimal(a).last() == digit_char((a % 10) as int));
        assert(decimal(b).last() == digit_char((b % 10) as int));
        assert(a % 10 == b % 10);
        lemma_decimal_injective(a / 10, b / 10);
    } else {
        lemma_decimal_len(a);
        lemma_decimal_len(b);
    }
}

/// How many digits a number has: one below ten, two below a hundred,
/// three or more from there on.
pub proof fn lemma_decimal_len(n: nat)
    ensures
        n < 10 ==> decimal(n).len() == 1,
        n >= 10 ==> decimal(n).len() >= 2,
        10 <= n < 100 ==> decimal(n).len() == 2,
        n >= 100 ==> decimal(n).len() >= 3,
    decreases n,
{
    if n >= 10 {
        lemma_decimal_len(n / 10);
    }
}

/// `n` times the character `c`.
pub open spec fn repeat(c: char, n: nat) -> Seq<char> {
    Seq::new(n, |i: int| c)
}

/// Appends `n` times the character that `piece` consists of.
pub fn push_repeat(out: &mut String, piece: &str, n: usize)
    requires
        piece@.len() == 1,
    ensures
        final(out)@ == old(out)@ + repeat(piece@[0], n as nat),
{
    let mut i: usize = 0;
    assert(out@ =~= old(out)@ + repeat(piece@[0], 0));
    while i < n
        invariant
            i <= n,
            piece@.len() == 1,
            out@ == old(out)@ + repeat(piece@[0], i as nat),
        decreases n - i,
    {
        out.append(piece);
        i += 1;
        assert(out@ =~= old(out)@ + repeat(piece@[0], i as nat));
    }
}

fn digit_text(d: usize) -> (s: &'static str)
    requires
        d < 10,
    ensures
        s@ == seq![digit_char(d as int)],
{
    proof {
        reveal_strlit("0");
        reveal_strlit("1");
        reveal_strlit("2");
        reveal_strlit("3");
        reveal_strlit("4");
        reveal_strlit("5");
        reveal_strlit("6");
        reveal_strlit("7");
        reveal_strlit("8");
        reveal_strlit("9");
    }
    let s = if d == 0 {
        "0"
    } else if d == 1 {
        "1"
    } else if d == 2 {
        "2"
    } else if d == 3 {
        "3"
    } else if d == 4 {
        "4"
    } else if d == 5 {
        "5"
    } else if d == 6 {
        "6"
    } else if d == 7 {
        "7"
    } else if d == 8 {
        "8"
    } else {
        "9"
    };
    assert(s@ =~= seq![digit_char(d as int)]);
    s
}

/// Appends the decimal digits of `n` to `out`.
pub fn push_decimal(out: &mut String, n: usize)
    ensures
        final(out)@ == old(out)@ + decimal(n as nat),
    decreases n,
{
    if n < 10 {
        out.append(digit_text(n));
    } else {
        push_decimal(out, n / 10);
        out.append(digit_text(n % 10));
        assert(final(out)@ =~= old(out)@ + decimal(n as nat));
    }
}

} // verus!
