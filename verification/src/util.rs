//! The source line of a token.
use crate::text::{
    byte_offset, char_range, char_width, lemma_byte_offset_end, lemma_byte_offset_monotone,
    lemma_byte_offset_next, lemma_utf8_len_bounds, lemma_utf8_len_is_encoding_len, to_chars,
    utf8_len,
};
use crate::tokeniser::{lines_view, Token};
use crate::Lines;
use vstd::prelude::*;

verus! {

/// Index of the first character of `text`, from the `i`-th on, that
/// starts at byte `byte` or after it; the length of `text` if there is
/// none.
pub open spec fn seek(text: Seq<char>, i: nat, byte: int) -> nat
    decreases text.len() - i,
{
    if i < text.len() && byte_offset(text, i as int) < byte {
        seek(text, i + 1, byte)
    } else {
        i
    }
}

/// The text of line `lno`: the characters that start within the span
/// that the index gives for the line, without the line break at their
/// end. Empty where the index has no such line.
pub open spec fn line_text(text: Seq<char>, lines: Seq<(int, int)>, lno: int) -> Seq<char> {
    if 1 <= lno <= lines.len() {
        let lo = seek(text, 0, lines[lno - 1].0);
        let hi = seek(text, lo, lines[lno - 1].1 + 1);
        if hi > lo && text[hi - 1] == '\n' {
            text.subrange(lo as int, hi - 1)
        } else {
            text.subrange(lo as int, hi as int)
        }
    } else {
        Seq::empty()
    }
}

/// Index of the first character from the `from`-th on that starts after
/// byte `last`, and the byte at which that character starts; `start` is
/// the byte at which the `from`-th starts.
fn seek_past(chars: &Vec<char>, from: usize, start: usize, last: usize, Ghost(total): Ghost<int>) -> (r:
    (usize, usize))
    requires
        from <= chars.len(),
        start == byte_offset(chars@, from as int),
        total == utf8_len(chars@),
        total <= usize::MAX,
    ensures
        r.0 == seek(chars@, from as nat, last + 1),
        from <= r.0 <= chars.len(),
        r.1 == byte_offset(chars@, r.0 as int),
{
    let mut i: usize = from;
    let mut off: usize = start;
    while i < chars.len() && off <= last
        invariant
            from <= i <= chars.len(),
            off == byte_offset(chars@, i as int),
            total == utf8_len(chars@),
            total <= usize::MAX,
            seek(chars@, from as nat, last + 1) == seek(chars@, i as nat, last + 1),
        decreases chars.len() - i,
    {
        proof {
            lemma_byte_offset_next(chars@, i as int);
            lemma_byte_offset_monotone(chars@, i + 1, chars.len() as int);
            lemma_byte_offset_end(chars@);
        }
        off += char_width(chars[i]);
        i += 1;
    }
    (i, off)
}

/// The source line on which `token` stands, without its line break;
/// empty where the line index has no line of the token's number.
pub fn token_line<'src>(input: &'src str, lines: &Lines, token: &Token<'src>) -> (r: &'src str)
    ensures
        r@ == line_text(input@, lines_view(lines@), token.lno as int),
{
    if token.lno < 1 || token.lno > lines.len() {
        let r = input.substring_char(0, 0);
        assert(r@ =~= Seq::<char>::empty());
        return r;
    }
    let span = lines[token.lno - 1];
    let chars = to_chars(input);
    let total = input.as_bytes().len();
    proof {
        lemma_utf8_len_is_encoding_len(input@);
        lemma_byte_offset_next(chars@.push(' '), 0);
        assert(chars@.take(0) =~= chars@.push(' ').take(0));
    }
    let (lo, lo_off) = if span.0 == 0 {
        (0, 0)
    } else {
        seek_past(&chars, 0, 0, span.0 - 1, Ghost(total as int))
    };
    let (hi, hi_off) = seek_past(&chars, lo, lo_off, span.1, Ghost(total as int));
    if hi > lo && chars[hi - 1] == '\n' {
        proof {
            lemma_byte_offset_next(input@, hi - 1);
            lemma_utf8_len_bounds(input@.take(hi - 1));
        }
        char_range(input, lo, hi - 1, lo_off, hi_off - 1)
    } else {
        char_range(input, lo, hi, lo_off, hi_off)
    }
}

} // verus!
