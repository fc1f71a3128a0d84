//! The lexer: from source text to tokens and the line index.
use crate::error::{detailed_error, Error, ErrorView};
use crate::text::{
    all_ascii_digits, all_digits, byte_offset, char_is_alphanumeric, char_is_whitespace, char_width,
    is_alphanumeric, is_ascii_digit, is_digit, is_whitespace, lemma_byte_offset_end,
    lemma_byte_offset_monotone, lemma_byte_offset_next, lemma_utf8_len_is_encoding_len, parse_digits,
    parse_integer, to_chars, utf8_len, utf8_width,
};
use crate::text::{char_range, decimal_literal, is_decimal_literal};
use crate::Lines;
use vstd::prelude::*;
use vstd::string::StringSliceAdditionalSpecFns;

verus! {

/// What a token stands for.
#[derive(Clone, Copy, Debug)]
pub enum TokVal<'src> {
    Name(&'src str),
    String(&'src str),
    Integer(i64),
    /// The text of a number with a fraction: digits, a point, and the
    /// digits after it.
    Float(&'src str),
    Boolean(bool),
    LBrace,
    RBrace,
    LBrack,
    RBrack,
    LBracePct,
    RBracePct,
    LParen,
    RParen,
    Equals,
    Comma,
    Plus,
    Minus,
    Star,
    Dollar,
    At,
    Break,
    Fault,
}

/// The mathematical content of a [`TokVal`].
pub enum TokValView {
    Name(Seq<char>),
    String(Seq<char>),
    Integer(i64),
    Float(Seq<char>),
    Boolean(bool),
    LBrace,
    RBrace,
    LBrack,
    RBrack,
    LBracePct,
    RBracePct,
    LParen,
    RParen,
    Equals,
    Comma,
    Plus,
    Minus,
    Star,
    Dollar,
    At,
    Break,
    Fault,
}

impl<'src> View for TokVal<'src> {
    type V = TokValView;

    open spec fn view(&self) -> TokValView {
        match self {
            TokVal::Name(s) => TokValView::Name(s@),
            TokVal::String(s) => TokValView::String(s@),
            TokVal::Integer(i) => TokValView::Integer(*i),
            TokVal::Float(s) => TokValView::Float(s@),
            TokVal::Boolean(b) => TokValView::Boolean(*b),
            TokVal::LBrace => TokValView::LBrace,
            TokVal::RBrace => TokValView::RBrace,
            TokVal::LBrack => TokValView::LBrack,
            TokVal::RBrack => TokValView::RBrack,
            TokVal::LBracePct => TokValView::LBracePct,
            TokVal::RBracePct => TokValView::RBracePct,
            TokVal::LParen => TokValView::LParen,
            TokVal::RParen => TokValView::RParen,
            TokVal::Equals => TokValView::Equals,
            TokVal::Comma => TokValView::Comma,
            TokVal::Plus => TokValView::Plus,
            TokVal::Minus => TokValView::Minus,
            TokVal::Star => TokValView::Star,
            TokVal::Dollar => TokValView::Dollar,
            TokVal::At => TokValView::At,
            TokVal::Break => TokValView::Break,
            TokVal::Fault => TokValView::Fault,
        }
    }
}

/// A token and where it stands: the byte offsets of its first and last
/// character, the line and the column (both from 1), and its length in
/// characters.
#[derive(Clone, Copy, Debug)]
pub struct Token<'src> {
    pub val: TokVal<'src>,
    pub lptr: usize,
    pub rptr: usize,
    pub lno: usize,
    pub col: usize,
    pub len: usize,
}

/// The mathematical content of a [`Token`].
pub struct TokenView {
    pub val: TokValView,
    pub lptr: int,
    pub rptr: int,
    pub lno: int,
    pub col: int,
    pub len: int,
}

impl<'src> View for Token<'src> {
    type V = TokenView;

    open spec fn view(&self) -> TokenView {
        TokenView {
            val: self.val@,
            lptr: self.lptr as int,
            rptr: self.rptr as int,
            lno: self.lno as int,
            col: self.col as int,
            len: self.len as int,
        }
    }
}

impl<'src> Token<'src> {
    /// A token of the given value at the given place.
    pub fn new(val: TokVal<'src>, lptr: usize, rptr: usize, lno: usize, col: usize, len: usize) -> (t:
        Token<'src>)
        ensures
            t == (Token { val, lptr, rptr, lno, col, len }),
    {
        Token { val, lptr, rptr, lno, col, len }
    }
}

/// The text that formatting a token with `{:?}` gives.
pub uninterp spec fn debug_text(t: TokenView) -> Seq<char>;

/// Formats the token with `{:?}`, that is by the `Debug` impls that are
/// derived for `Token` and `TokVal`: the text names the fields and
/// their values. It depends on nothing but these.
#[verifier::external_body]
pub(crate) fn token_debug(t: &Token) -> (s: String)
    ensures
        s@ == debug_text(t@),
{
    format!("{:?}", t)
}

/// The views of a sequence of tokens, in order.
pub open spec fn tokens_view(toks: Seq<Token<'_>>) -> Seq<TokenView> {
    toks.map_values(|t: Token| t@)
}

/// The views of a sequence of errors, in order.
pub open spec fn errors_view(errs: Seq<Error<'_>>) -> Seq<ErrorView> {
    errs.map_values(|e: Error| e@)
}

/// The line index as pairs of mathematical integers.
pub open spec fn lines_view(lines: Seq<(usize, usize)>) -> Seq<(int, int)> {
    lines.map_values(|l: (usize, usize)| (l.0 as int, l.1 as int))
}

/// The states of the lexer.
#[derive(Clone, Copy, Debug)]
pub enum State {
    /// Between tokens.
    Neutral,
    /// Inside a bareword.
    InBare,
    /// Just after the opening quote of a string.
    StartString,
    /// Inside a string; `escaped` after a backslash.
    InString { escaped: bool },
    /// Inside the digits that follow the `.` of a number.
    InFloat,
    /// After `{`, which may open `{%`.
    SeenBrace,
    /// After `%`, which must be followed by `}`.
    SeenPct,
    /// After a fault that ends the production of tokens.
    Unrecoverable,
}

/// The lexer at some point of the text: what it has produced, and where
/// the current token and the current line began.
pub struct Scan {
    pub mode: State,
    /// The spans of the lines that are closed: the byte offsets of the
    /// first and of the last byte of each.
    pub lines: Seq<(int, int)>,
    pub tokens: Seq<TokenView>,
    pub errors: Seq<ErrorView>,
    /// Byte offset at which the current line starts.
    pub lineptr: int,
    /// Byte offset of the first character of the current token.
    pub lptr: int,
    /// Byte offset of the last character read that is not a line break.
    pub rptr: int,
    /// Index of the character at `lptr`.
    pub lidx: int,
    /// Index of the character at `rptr`.
    pub ridx: int,
    /// Column of the first character of the current token.
    pub lcol: int,
    /// Line of the current character.
    pub lno: int,
    /// Column of the current character.
    pub col: int,
}

/// The lexer before the first character.
pub open spec fn start() -> Scan {
    Scan {
        mode: State::Neutral,
        lines: Seq::empty(),
        tokens: Seq::empty(),
        errors: Seq::empty(),
        lineptr: 0,
        lptr: 0,
        rptr: 0,
        lidx: 0,
        ridx: 0,
        lcol: 1,
        lno: 1,
        col: 1,
    }
}

/// The symbols of one character that need no look-ahead.
pub open spec fn symbol(c: char) -> Option<TokValView> {
    if c == '}' {
        Some(TokValView::RBrace)
    } else if c == '[' {
        Some(TokValView::LBrack)
    } else if c == ']' {
        Some(TokValView::RBrack)
    } else if c == '(' {
        Some(TokValView::LParen)
    } else if c == ')' {
        Some(TokValView::RParen)
    } else if c == '=' {
        Some(TokValView::Equals)
    } else if c == ',' {
        Some(TokValView::Comma)
    } else if c == '+' {
        Some(TokValView::Plus)
    } else if c == '-' {
        Some(TokValView::Minus)
    } else if c == '*' {
        Some(TokValView::Star)
    } else if c == '$' {
        Some(TokValView::Dollar)
    } else if c == '@' {
        Some(TokValView::At)
    } else if c == ';' {
        Some(TokValView::Break)
    } else {
        None
    }
}

/// The characters that a bareword is made of.
pub open spec fn is_word_char(c: char) -> bool {
    is_alphanumeric(c) || c == '_'
}

/// Length in characters of the current token: the columns between its
/// first character and the current one, and 0 where the token began
/// further right on an earlier line.
pub open spec fn span_len(s: Scan) -> int {
    if s.col >= s.lcol {
        s.col - s.lcol
    } else {
        0
    }
}

/// The current token, with the given value and length.
pub open spec fn token_here(s: Scan, val: TokValView, len: int) -> TokenView {
    TokenView { val, lptr: s.lptr, rptr: s.rptr, lno: s.lno, col: s.lcol, len }
}

/// Adds the current token and returns to the neutral state.
pub open spec fn emit(s: Scan, val: TokValView) -> Scan {
    Scan {
        tokens: s.tokens.push(token_here(s, val, span_len(s))),
        mode: State::Neutral,
        ..s
    }
}

/// Adds the current token, a delimiter of two characters, and returns
/// to the neutral state.
pub open spec fn emit_pair(s: Scan, val: TokValView) -> Scan {
    Scan { tokens: s.tokens.push(token_here(s, val, 2)), mode: State::Neutral, ..s }
}

/// Records an error at the current token and moves to `mode`.
pub open spec fn fault(s: Scan, code: u8, msg: Seq<char>, hint: Seq<char>, len: int, mode: State) -> Scan {
    Scan {
        errors: s.errors.push(detailed_error(code, msg, token_here(s, TokValView::Fault, len), hint)),
        mode,
        ..s
    }
}

/// The characters of the current token, its last one included.
pub open spec fn buffer(s: Scan, text: Seq<char>) -> Seq<char> {
    text.subrange(s.lidx, s.ridx + 1)
}

/// What a bareword that is not a number stands for.
pub open spec fn word(buf: Seq<char>) -> TokValView {
    if buf == "true"@ {
        TokValView::Boolean(true)
    } else if buf == "false"@ {
        TokValView::Boolean(false)
    } else {
        TokValView::Name(buf)
    }
}

/// First half of a step: whether the character `c` ends the token that
/// is open, and what that token is.
pub open spec fn close_pending(s: Scan, text: Seq<char>, c: char) -> Scan {
    match s.mode {
        State::InBare => if is_word_char(c) {
            s
        } else if all_digits(buffer(s, text)) {
            if c == '.' {
                Scan { mode: State::InFloat, ..s }
            } else {
                match parse_integer(buffer(s, text)) {
                    Some(v) => emit(s, TokValView::Integer(v)),
                    None => fault(
                        s,
                        100,
                        "Could not parse number as 64-byte signed Integer"@,
                        "This value may be too large"@,
                        span_len(s),
                        State::Neutral,
                    ),
                }
            }
        } else {
            emit(s, word(buffer(s, text)))
        },
        State::InFloat => if is_digit(c) {
            s
        } else if is_decimal_literal(buffer(s, text)) {
            emit(s, TokValView::Float(buffer(s, text)))
        } else {
            fault(
                s,
                101,
                "Could not parse number as 64-byte Float"@,
                "This value may be too large"@,
                span_len(s),
                State::Neutral,
            )
        },
        State::SeenBrace => if c == '%' {
            s
        } else {
            emit(s, TokValView::LBrace)
        },
        _ => s,
    }
}

/// A line break: the `%` that waits for its `}` is a fault; a `Break`
/// token is added, unless a fault has ended the production of tokens;
/// the line's span is closed with the break as its last byte, and the
/// next line begins.
pub open spec fn line_break(s: Scan, off: int) -> Scan {
    let s1 = if s.mode is SeenPct {
        fault(s, 104, "% was followed by a newline"@, "Expected '}'"@, span_len(s), State::Unrecoverable)
    } else {
        s
    };
    let s2 = if s1.mode is Unrecoverable {
        s1
    } else {
        Scan {
            tokens: s1.tokens.push(
                TokenView {
                    val: TokValView::Break,
                    lptr: s1.rptr,
                    rptr: off,
                    lno: s1.lno,
                    col: s1.col,
                    len: 1,
                },
            ),
            ..s1
        }
    };
    Scan { lines: s2.lines.push((s2.lineptr, off)), lno: s2.lno + 1, col: 1, ..s2 }
}

/// Second half of a step, for a character that is not a line break and
/// has been taken into the current token.
pub open spec fn take_char(s: Scan, text: Seq<char>, c: char) -> Scan {
    match s.mode {
        State::Neutral => {
            let s1 = Scan { lptr: s.rptr, lidx: s.ridx, lcol: s.col, ..s };
            match symbol(c) {
                Some(v) => Scan { tokens: s1.tokens.push(token_here(s1, v, 1)), ..s1 },
                None => if c == '{' {
                    Scan { mode: State::SeenBrace, ..s1 }
                } else if c == '%' {
                    Scan { mode: State::SeenPct, ..s1 }
                } else if c == '"' {
                    Scan { mode: State::StartString, ..s1 }
                } else if is_word_char(c) {
                    Scan { mode: State::InBare, ..s1 }
                } else if !is_whitespace(c) {
                    fault(
                        s1,
                        102,
                        "Unexpected Character"@,
                        "This character could not be understood"@,
                        1,
                        State::Unrecoverable,
                    )
                } else {
                    s1
                },
            }
        },
        State::InString { escaped } => if escaped {
            Scan { mode: State::InString { escaped: false }, ..s }
        } else if c == '"' {
            emit(s, TokValView::String(text.subrange(s.lidx, s.ridx)))
        } else if c == '\\' {
            Scan { mode: State::InString { escaped: true }, ..s }
        } else {
            s
        },
        State::SeenBrace => emit_pair(s, TokValView::LBracePct),
        State::SeenPct => if c == '}' {
            emit_pair(s, TokValView::RBracePct)
        } else {
            fault(
                s,
                103,
                "% was not followed by }"@,
                "Unparseable character pair here"@,
                span_len(s),
                State::Unrecoverable,
            )
        },
        _ => s,
    }
}

/// What the character `c`, which has index `idx` and starts at byte
/// `off`, does to the lexer, but for the move to the next column.
pub open spec fn feed(s: Scan, text: Seq<char>, idx: int, off: int, c: char) -> Scan {
    let s0 = if s.col == 1 {
        Scan { lineptr: off, ..s }
    } else {
        s
    };
    let s1 = close_pending(s0, text, c);
    if c == '\n' {
        line_break(s1, off)
    } else {
        let s2 = Scan { rptr: off, ridx: idx, ..s1 };
        let s3 = if s2.mode is StartString {
            Scan { lptr: off, lidx: idx, lcol: s2.col, mode: State::InString { escaped: false }, ..s2 }
        } else {
            s2
        };
        take_char(s3, text, c)
    }
}

/// One step of the lexer: the character `c`, which has index `idx` and
/// starts at byte `off`.
pub open spec fn step(s: Scan, text: Seq<char>, idx: int, off: int, c: char) -> Scan {
    let s1 = feed(s, text, idx, off, c);
    if c == '\n' {
        s1
    } else {
        Scan { col: s1.col + 1, ..s1 }
    }
}

/// The lexer after the first `n` characters of `text`.
pub open spec fn scan_prefix(text: Seq<char>, n: nat) -> Scan
    decreases n,
{
    if n == 0 {
        start()
    } else {
        step(scan_prefix(text, (n - 1) as nat), text, n - 1, byte_offset(text, n - 1), text[n - 1])
    }
}

/// A string that is still open at the end of the text ends there: its
/// token holds the characters from its first to the last of the text.
pub open spec fn flush_string(s: Scan, text: Seq<char>) -> Scan {
    let end = utf8_len(text);
    match s.mode {
        State::StartString => Scan {
            tokens: s.tokens.push(
                TokenView {
                    val: TokValView::String(Seq::empty()),
                    lptr: end,
                    rptr: end,
                    lno: s.lno,
                    col: s.col,
                    len: 0,
                },
            ),
            mode: State::Neutral,
            ..s
        },
        State::InString { escaped } => Scan {
            tokens: s.tokens.push(
                TokenView {
                    val: TokValView::String(text.subrange(s.lidx, text.len() as int)),
                    lptr: s.lptr,
                    rptr: end,
                    lno: s.lno,
                    col: s.lcol,
                    len: span_len(s),
                },
            ),
            mode: State::Neutral,
            ..s
        },
        _ => s,
    }
}

/// The end of the text: a string that is open ends; then a `;` that is
/// not in the text is read past its last character, which closes any
/// other open token and adds a last `Break`; then the span of a last
/// line that no line break has closed is added.
pub open spec fn finish(s: Scan, text: Seq<char>) -> Scan {
    let end = utf8_len(text);
    let s1 = feed(flush_string(s, text), text, text.len() as int, end, ';');
    if s.col == 1 {
        s1
    } else {
        Scan { lines: s1.lines.push((s.lineptr, end - 1)), ..s1 }
    }
}

/// The lexer after the whole of `text`.
pub open spec fn scan(text: Seq<char>) -> Scan {
    finish(scan_prefix(text, text.len()), text)
}

/// The symbols of one character that need no look-ahead.
pub fn unambiguous_symbol<'src>(c: char) -> (r: Option<TokVal<'src>>)
    ensures
        match r {
            Some(v) => symbol(c) == Some(v@),
            None => symbol(c) is None,
        },
{
    match c {
        '}' => Some(TokVal::RBrace),
        '[' => Some(TokVal::LBrack),
        ']' => Some(TokVal::RBrack),
        '(' => Some(TokVal::LParen),
        ')' => Some(TokVal::RParen),
        '=' => Some(TokVal::Equals),
        ',' => Some(TokVal::Comma),
        '+' => Some(TokVal::Plus),
        '-' => Some(TokVal::Minus),
        '*' => Some(TokVal::Star),
        '$' => Some(TokVal::Dollar),
        '@' => Some(TokVal::At),
        ';' => Some(TokVal::Break),
        _ => None,
    }
}

fn word_char(c: char) -> (b: bool)
    ensures
        b == is_word_char(c),
{
    char_is_alphanumeric(c) || c == '_'
}

/// Whether `chars[lo..hi]` spells `true`.
fn spells_true(chars: &Vec<char>, lo: usize, hi: usize) -> (b: bool)
    requires
        lo <= hi <= chars.len(),
    ensures
        b == (chars@.subrange(lo as int, hi as int) == "true"@),
{
    proof {
        reveal_strlit("true");
    }
    let ghost sub = chars@.subrange(lo as int, hi as int);
    let b = hi - lo == 4 && chars[lo] == 't' && chars[lo + 1] == 'r' && chars[lo + 2] == 'u' && chars[lo
        + 3] == 'e';
    proof {
        assert("true"@.len() == 4);
        assert("true"@[0] == 't' && "true"@[1] == 'r' && "true"@[2] == 'u' && "true"@[3] == 'e');
        if b {
            assert(sub =~= "true"@);
        } else if hi - lo == 4 {
            assert(sub[0] == chars@[lo as int] && sub[1] == chars@[lo + 1] && sub[2] == chars@[lo + 2]
                && sub[3] == chars@[lo + 3]);
        }
    }
    b
}

/// Whether `chars[lo..hi]` spells `false`.
fn spells_false(chars: &Vec<char>, lo: usize, hi: usize) -> (b: bool)
    requires
        lo <= hi <= chars.len(),
    ensures
        b == (chars@.subrange(lo as int, hi as int) == "false"@),
{
    proof {
        reveal_strlit("false");
    }
    let ghost sub = chars@.subrange(lo as int, hi as int);
    let b = hi - lo == 5 && chars[lo] == 'f' && chars[lo + 1] == 'a' && chars[lo + 2] == 'l' && chars[lo
        + 3] == 's' && chars[lo + 4] == 'e';
    proof {
        assert("false"@.len() == 5);
        assert("false"@[0] == 'f' && "false"@[1] == 'a' && "false"@[2] == 'l' && "false"@[3] == 's'
            && "false"@[4] == 'e');
        if b {
            assert(sub =~= "false"@);
        } else if hi - lo == 5 {
            assert(sub[0] == chars@[lo as int] && sub[1] == chars@[lo + 1] && sub[2] == chars@[lo + 2]
                && sub[3] == chars@[lo + 3] && sub[4] == chars@[lo + 4]);
        }
    }
    b
}

proof fn lemma_push_token(toks: Seq<Token<'_>>, t: Token<'_>)
    ensures
        tokens_view(toks.push(t)) == tokens_view(toks).push(t@),
{
    assert(tokens_view(toks.push(t)) =~= tokens_view(toks).push(t@));
}

proof fn lemma_push_error(errs: Seq<Error<'_>>, e: Error<'_>)
    ensures
        errors_view(errs.push(e)) == errors_view(errs).push(e@),
{
    assert(errors_view(errs.push(e)) =~= errors_view(errs).push(e@));
}

proof fn lemma_push_line(lines: Seq<(usize, usize)>, l: (usize, usize))
    ensures
        lines_view(lines.push(l)) == lines_view(lines).push((l.0 as int, l.1 as int)),
{
    assert(lines_view(lines.push(l)) =~= lines_view(lines).push((l.0 as int, l.1 as int)));
}

/// The lexer as it runs.
struct Lexer<'src> {
    mode: State,
    lines: Lines,
    toks: Vec<Token<'src>>,
    errors: Vec<Error<'src>>,
    lineptr: usize,
    lptr: usize,
    rptr: usize,
    lidx: usize,
    ridx: usize,
    lcol: usize,
    lno: usize,
    col: usize,
}

impl<'src> View for Lexer<'src> {
    type V = Scan;

    closed spec fn view(&self) -> Scan {
        Scan {
            mode: self.mode,
            lines: lines_view(self.lines@),
            tokens: tokens_view(self.toks@),
            errors: errors_view(self.errors@),
            lineptr: self.lineptr as int,
            lptr: self.lptr as int,
            rptr: self.rptr as int,
            lidx: self.lidx as int,
            ridx: self.ridx as int,
            lcol: self.lcol as int,
            lno: self.lno as int,
            col: self.col as int,
        }
    }
}

impl<'src> Lexer<'src> {
    /// What holds of the lexer when `idx` characters of `text` have
    /// been read: the current token lies within them, and its byte
    /// offsets are those of its first and last character.
    spec fn wf(&self, text: Seq<char>, idx: int) -> bool {
        &&& self.lptr == byte_offset(text, self.lidx as int)
        &&& self.rptr == byte_offset(text, self.ridx as int)
        &&& self.lidx <= self.ridx
        &&& (idx == 0 ==> self.ridx == 0 && (self.mode is Neutral || self.mode is Unrecoverable))
        &&& (idx > 0 ==> self.ridx < idx)
        &&& 1 <= self.col <= idx + 1
        &&& 1 <= self.lno <= idx + 1
    }

    fn new() -> (l: Lexer<'src>)
        ensures
            l@ == start(),
            forall|text: Seq<char>| l.wf(text, 0),
    {
        let l = Lexer {
            mode: State::Neutral,
            lines: Vec::new(),
            toks: Vec::new(),
            errors: Vec::new(),
            lineptr: 0,
            lptr: 0,
            rptr: 0,
            lidx: 0,
            ridx: 0,
            lcol: 1,
            lno: 1,
            col: 1,
        };
        assert(l@.lines =~= Seq::empty());
        assert(l@.tokens =~= Seq::empty());
        assert(l@.errors =~= Seq::empty());
        assert forall|text: Seq<char>| l.wf(text, 0) by {
            assert(text.take(0) =~= Seq::<char>::empty());
        }
        l
    }

    fn span(&self) -> (n: usize)
        ensures
            n == span_len(self@),
    {
        if self.col >= self.lcol {
            self.col - self.lcol
        } else {
            0
        }
    }

    fn here(&self, val: TokVal<'src>, len: usize) -> (t: Token<'src>)
        ensures
            t@ == token_here(self@, val@, len as int),
    {
        Token::new(val, self.lptr, self.rptr, self.lno, self.lcol, len)
    }

    fn emit(&mut self, val: TokVal<'src>)
        ensures
            final(self)@ == emit(old(self)@, val@),
            final(self).same_place(old(self)),
            final(self).mode is Neutral,
    {
        let t = self.here(val, self.span());
        proof {
            lemma_push_token(self.toks@, t);
        }
        self.toks.push(t);
        self.mode = State::Neutral;
    }

    fn emit_pair(&mut self, val: TokVal<'src>)
        ensures
            final(self)@ == emit_pair(old(self)@, val@),
            final(self).same_place(old(self)),
            final(self).mode is Neutral,
    {
        let t = self.here(val, 2);
        proof {
            lemma_push_token(self.toks@, t);
        }
        self.toks.push(t);
        self.mode = State::Neutral;
    }

    /// The positions are those of `other`.
    spec fn same_place(&self, other: &Self) -> bool {
        &&& self.lineptr == other.lineptr
        &&& self.lptr == other.lptr
        &&& self.rptr == other.rptr
        &&& self.lidx == other.lidx
        &&& self.ridx == other.ridx
        &&& self.lcol == other.lcol
        &&& self.lno == other.lno
        &&& self.col == other.col
    }

    fn fault(&mut self, code: u8, msg: &str, hint: &str, len: usize, mode: State)
        ensures
            final(self)@ == fault(old(self)@, code, msg@, hint@, len as int, mode),
            final(self).same_place(old(self)),
            final(self).mode == mode,
    {
        let t = self.here(TokVal::Fault, len);
        let e = Error::detailed(code, String::from_str(msg), t, String::from_str(hint));
        proof {
            lemma_push_error(self.errors@, e);
        }
        self.errors.push(e);
        self.mode = mode;
    }

    /// The characters of the current token, its last one included.
    fn text(&self, input: &'src str, chars: &Vec<char>) -> (buf: &'src str)
        requires
            self.lidx <= self.ridx < input@.len(),
            self.lptr == byte_offset(input@, self.lidx as int),
            self.rptr == byte_offset(input@, self.ridx as int),
            chars@ == input@.push(';'),
            utf8_len(input@) <= usize::MAX,
        ensures
            buf@ == buffer(self@, input@),
    {
        proof {
            lemma_byte_offset_next(input@, self.ridx as int);
            lemma_byte_offset_monotone(input@, self.ridx + 1, input@.len() as int);
            lemma_byte_offset_end(input@);
            assert(chars.len() == input@.len() + 1);
        }
        let end = self.rptr + char_width(chars[self.ridx]);
        char_range(input, self.lidx, self.ridx + 1, self.lptr, end)
    }

    fn close_pending(&mut self, input: &'src str, chars: &Vec<char>, idx: usize, c: char)
        requires
            old(self).wf(input@, idx as int),
            idx <= input@.len(),
            chars@ == input@.push(';'),
            utf8_len(input@) <= usize::MAX,
        ensures
            final(self)@ == close_pending(old(self)@, input@, c),
            final(self).same_place(old(self)),
            final(self).wf(input@, idx as int),
    {
        match self.mode {
            State::InBare => {
                if !word_char(c) {
                    let lo = self.lidx;
                    let hi = self.ridx + 1;
                    assert(chars@.subrange(lo as int, hi as int) =~= buffer(self@, input@));
                    if all_ascii_digits(chars, lo, hi) {
                        if c == '.' {
                            self.mode = State::InFloat;
                        } else {
                            match parse_digits(chars, lo, hi) {
                                Some(v) => {
                                    self.emit(TokVal::Integer(v));
                                },
                                None => {
                                    let len = self.span();
                                    self.fault(
                                        100,
                                        "Could not parse number as 64-byte signed Integer",
                                        "This value may be too large",
                                        len,
                                        State::Neutral,
                                    );
                                },
                            }
                        }
                    } else if spells_true(chars, lo, hi) {
                        self.emit(TokVal::Boolean(true));
                    } else if spells_false(chars, lo, hi) {
                        self.emit(TokVal::Boolean(false));
                    } else {
                        let buf = self.text(input, chars);
                        self.emit(TokVal::Name(buf));
                    }
                }
            },
            State::InFloat => {
                if !is_ascii_digit(c) {
                    assert(chars@.subrange(self.lidx as int, self.ridx + 1) =~= buffer(self@, input@));
                    if decimal_literal(chars, self.lidx, self.ridx + 1) {
                        let buf = self.text(input, chars);
                        self.emit(TokVal::Float(buf));
                    } else {
                        let len = self.span();
                        self.fault(
                            101,
                            "Could not parse number as 64-byte Float",
                            "This value may be too large",
                            len,
                            State::Neutral,
                        );
                    }
                }
            },
            State::SeenBrace => {
                if c != '%' {
                    self.emit(TokVal::LBrace);
                }
            },
            _ => {},
        }
    }

    fn line_break(&mut self, off: usize, Ghost(text): Ghost<Seq<char>>, Ghost(idx): Ghost<int>)
        requires
            old(self).wf(text, idx),
            idx + 1 < usize::MAX,
        ensures
            final(self)@ == line_break(old(self)@, off as int),
            final(self).wf(text, idx + 1),
            final(self).lineptr == old(self).lineptr,
            final(self).col == 1,
    {
        if let State::SeenPct = self.mode {
            let len = self.span();
            self.fault(104, "% was followed by a newline", "Expected '}'", len, State::Unrecoverable);
        }
        if let State::Unrecoverable = self.mode {
        } else {
            let t = Token::new(TokVal::Break, self.rptr, off, self.lno, self.col, 1);
            proof {
                lemma_push_token(self.toks@, t);
            }
            self.toks.push(t);
        }
        proof {
            lemma_push_line(self.lines@, (self.lineptr, off));
        }
        self.lines.push((self.lineptr, off));
        self.lno += 1;
        self.col = 1;
    }

    fn take_char(&mut self, input: &'src str, idx: usize, c: char)
        requires
            old(self).wf(input@, idx + 1),
            old(self).ridx == idx,
            idx <= input@.len(),
        ensures
            final(self)@ == take_char(old(self)@, input@, c),
            final(self).wf(input@, idx + 1),
            final(self).lineptr == old(self).lineptr,
            final(self).col == old(self).col,
    {
        match self.mode {
            State::Neutral => {
                self.lptr = self.rptr;
                self.lidx = self.ridx;
                self.lcol = self.col;
                match unambiguous_symbol(c) {
                    Some(v) => {
                        let t = self.here(v, 1);
                        proof {
                            lemma_push_token(self.toks@, t);
                        }
                        self.toks.push(t);
                    },
                    None => {
                        if c == '{' {
                            self.mode = State::SeenBrace;
                        } else if c == '%' {
                            self.mode = State::SeenPct;
                        } else if c == '"' {
                            self.mode = State::StartString;
                        } else if word_char(c) {
                            self.mode = State::InBare;
                        } else if !char_is_whitespace(c) {
                            self.fault(
                                102,
                                "Unexpected Character",
                                "This character could not be understood",
                                1,
                                State::Unrecoverable,
                            );
                        }
                    },
                }
            },
            State::InString { escaped } => {
                if escaped {
                    self.mode = State::InString { escaped: false };
                } else if c == '"' {
                    let buf = char_range(input, self.lidx, self.ridx, self.lptr, self.rptr);
                    self.emit(TokVal::String(buf));
                } else if c == '\\' {
                    self.mode = State::InString { escaped: true };
                }
            },
            State::SeenBrace => {
                self.emit_pair(TokVal::LBracePct);
            },
            State::SeenPct => {
                if c == '}' {
                    self.emit_pair(TokVal::RBracePct);
                } else {
                    let len = self.span();
                    self.fault(
                        103,
                        "% was not followed by }",
                        "Unparseable character pair here",
                        len,
                        State::Unrecoverable,
                    );
                }
            },
            _ => {},
        }
    }

    /// Ends a string that is still open at the end of the text, which
    /// has `n` characters and `end` bytes.
    fn flush_string(&mut self, input: &'src str, n: usize, end: usize)
        requires
            old(self).wf(input@, n as int),
            n == input@.len(),
            end == utf8_len(input@),
        ensures
            final(self)@ == flush_string(old(self)@, input@),
            final(self).same_place(old(self)),
            final(self).wf(input@, n as int),
    {
        proof {
            lemma_byte_offset_end(input@);
        }
        match self.mode {
            State::StartString => {
                let buf = char_range(input, n, n, end, end);
                assert(buf@ =~= Seq::<char>::empty());
                let t = Token::new(TokVal::String(buf), end, end, self.lno, self.col, 0);
                proof {
                    lemma_push_token(self.toks@, t);
                }
                self.toks.push(t);
                self.mode = State::Neutral;
            },
            State::InString { escaped } => {
                let buf = char_range(input, self.lidx, n, self.lptr, end);
                let t = Token::new(TokVal::String(buf), self.lptr, end, self.lno, self.lcol, self.span());
                proof {
                    lemma_push_token(self.toks@, t);
                }
                self.toks.push(t);
                self.mode = State::Neutral;
            },
            _ => {},
        }
    }

    fn feed(&mut self, input: &'src str, chars: &Vec<char>, idx: usize, off: usize, c: char)
        requires
            old(self).wf(input@, idx as int),
            idx <= input@.len(),
            off == byte_offset(input@, idx as int),
            c == '\n' ==> idx + 1 < usize::MAX,
            chars@ == input@.push(';'),
            utf8_len(input@) <= usize::MAX,
        ensures
            final(self)@ == feed(old(self)@, input@, idx as int, off as int, c),
            final(self).wf(input@, idx + 1),
            c != '\n' ==> final(self).col == old(self).col,
    {
        if self.col == 1 {
            self.lineptr = off;
        }
        self.close_pending(input, chars, idx, c);
        if c == '\n' {
            self.line_break(off, Ghost(input@), Ghost(idx as int));
        } else {
            self.rptr = off;
            self.ridx = idx;
            if let State::StartString = self.mode {
                self.lptr = off;
                self.lidx = idx;
                self.lcol = self.col;
                self.mode = State::InString { escaped: false };
            }
            self.take_char(input, idx, c);
        }
    }
}

/// After a fault that ends the production of tokens, no character adds
/// a token or a further error, and the lexer stays as it is but for the
/// line index and the position.
pub proof fn lemma_unrecoverable_stays(s: Scan, text: Seq<char>, idx: int, off: int, c: char)
    requires
        s.mode is Unrecoverable,
    ensures
        step(s, text, idx, off, c).mode is Unrecoverable,
        step(s, text, idx, off, c).tokens == s.tokens,
        step(s, text, idx, off, c).errors == s.errors,
        finish(s, text).tokens == s.tokens,
        finish(s, text).errors == s.errors,
{
}

/// The spans follow one another without a gap: the first starts at
/// byte 0, each of the others right after the one before it, none is
/// empty, and the last ends just before byte `end`.
pub open spec fn tiles(lines: Seq<(int, int)>, end: int) -> bool
    decreases lines.len(),
{
    if lines.len() == 0 {
        end == 0
    } else {
        let last = lines.last();
        last.0 <= last.1 && last.1 + 1 == end && tiles(lines.drop_last(), last.0)
    }
}

/// The bytes of one span, its last byte included.
pub open spec fn span_bytes(bytes: Seq<u8>, span: (int, int)) -> Seq<u8> {
    bytes.subrange(span.0, span.1 + 1)
}

/// The bytes of the spans, one after the other.
pub open spec fn concat_spans(bytes: Seq<u8>, lines: Seq<(int, int)>) -> Seq<u8>
    decreases lines.len(),
{
    if lines.len() == 0 {
        Seq::empty()
    } else {
        concat_spans(bytes, lines.drop_last()) + span_bytes(bytes, lines.last())
    }
}

/// Spans that follow one another from byte 0 make up the bytes before
/// their end.
pub proof fn lemma_tiles_concat(bytes: Seq<u8>, lines: Seq<(int, int)>, end: int)
    requires
        tiles(lines, end),
        end <= bytes.len(),
    ensures
        0 <= end,
        concat_spans(bytes, lines) == bytes.subrange(0, end),
    decreases lines.len(),
{
    if lines.len() == 0 {
        assert(bytes.subrange(0, 0) =~= Seq::<u8>::empty());
    } else {
        let last = lines.last();
        lemma_tiles_concat(bytes, lines.drop_last(), last.0);
        assert(bytes.subrange(0, last.0) + bytes.subrange(last.0, last.1 + 1) =~= bytes.subrange(0, end));
    }
}

/// What holds of the line index while the lexer runs: the closed spans
/// reach up to the start of the current line, and a line that has a
/// character on it started before the current offset.
pub open spec fn lines_in_step(s: Scan, off: int) -> bool {
    &&& 1 <= s.col
    &&& tiles(s.lines, if s.col == 1 { off } else { s.lineptr })
    &&& (s.col != 1 ==> s.lineptr < off)
}

proof fn lemma_step_lines(s: Scan, text: Seq<char>, idx: int, off: int, c: char)
    requires
        lines_in_step(s, off),
    ensures
        lines_in_step(step(s, text, idx, off, c), off + utf8_width(c)),
{
    let s0 = if s.col == 1 {
        Scan { lineptr: off, ..s }
    } else {
        s
    };
    let s1 = close_pending(s0, text, c);
    assert(s1.lines == s0.lines && s1.lineptr == s0.lineptr && s1.col == s0.col);
    if c == '\n' {
        let s2 = line_break(s1, off);
        assert(s2.lines.drop_last() =~= s1.lines);
    } else {
        let s2 = Scan { rptr: off, ridx: idx, ..s1 };
        let s3 = if s2.mode is StartString {
            Scan { lptr: off, lidx: idx, lcol: s2.col, mode: State::InString { escaped: false }, ..s2 }
        } else {
            s2
        };
        let s4 = take_char(s3, text, c);
        assert(s4.lines == s3.lines && s4.lineptr == s3.lineptr && s4.col == s3.col);
    }
}

proof fn lemma_prefix_lines(text: Seq<char>, n: nat)
    requires
        n <= text.len(),
    ensures
        lines_in_step(scan_prefix(text, n), byte_offset(text, n as int)),
    decreases n,
{
    if n == 0 {
        lemma_byte_offset_next(text.push(' '), 0);
        assert(text.take(0) =~= text.push(' ').take(0));
    } else {
        lemma_prefix_lines(text, (n - 1) as nat);
        lemma_byte_offset_next(text, n - 1);
        lemma_step_lines(
            scan_prefix(text, (n - 1) as nat),
            text,
            n - 1,
            byte_offset(text, n - 1),
            text[n - 1],
        );
    }
}

/// The spans of the line index follow one another from the first byte
/// of the text to its last.
pub proof fn lemma_lines_tile(text: Seq<char>)
    ensures
        tiles(scan(text).lines, utf8_len(text)),
{
    let s = scan_prefix(text, text.len());
    let end = utf8_len(text);
    lemma_prefix_lines(text, text.len());
    lemma_byte_offset_end(text);
    let f = flush_string(s, text);
    let s0 = if f.col == 1 {
        Scan { lineptr: end, ..f }
    } else {
        f
    };
    let s1 = close_pending(s0, text, ';');
    let s2 = Scan { rptr: end, ridx: text.len() as int, ..s1 };
    let s3 = if s2.mode is StartString {
        Scan {
            lptr: end,
            lidx: text.len() as int,
            lcol: s2.col,
            mode: State::InString { escaped: false },
            ..s2
        }
    } else {
        s2
    };
    let s4 = take_char(s3, text, ';');
    assert(s4.lines == s.lines);
    if s.col != 1 {
        assert(scan(text).lines.drop_last() =~= s.lines);
    }
}

/// A fault that ends the production of tokens has left an error.
pub open spec fn fault_recorded(s: Scan) -> bool {
    s.mode is Unrecoverable ==> s.errors.len() > 0
}

proof fn lemma_step_fault(s: Scan, text: Seq<char>, idx: int, off: int, c: char)
    requires
        fault_recorded(s),
    ensures
        fault_recorded(step(s, text, idx, off, c)),
        step(s, text, idx, off, c).errors.len() >= s.errors.len(),
{
}

proof fn lemma_prefix_fault(text: Seq<char>, n: nat)
    ensures
        fault_recorded(scan_prefix(text, n)),
    decreases n,
{
    if n > 0 {
        lemma_prefix_fault(text, (n - 1) as nat);
        lemma_step_fault(
            scan_prefix(text, (n - 1) as nat),
            text,
            n - 1,
            byte_offset(text, n - 1),
            text[n - 1],
        );
    }
}

/// Where the lexer finds no error, the end of the text closes the token
/// that is open and adds a `Break`: the tokens are not empty, and the
/// last of them is a `Break`.
pub proof fn lemma_last_is_break(text: Seq<char>)
    ensures
        scan(text).errors.len() == 0 ==> scan(text).tokens.len() > 0 && scan(text).tokens.last().val
            is Break,
{
    let s = scan_prefix(text, text.len());
    let end = utf8_len(text);
    lemma_prefix_fault(text, text.len());
    let f = flush_string(s, text);
    let s0 = if f.col == 1 {
        Scan { lineptr: end, ..f }
    } else {
        f
    };
    let s1 = close_pending(s0, text, ';');
    let s2 = Scan { rptr: end, ridx: text.len() as int, ..s1 };
    let s4 = take_char(s2, text, ';');
    assert(!(s2.mode is StartString));
    assert(feed(f, text, text.len() as int, end, ';') == s4);
    if scan(text).errors.len() == 0 {
        assert(s1.mode is Neutral);
        assert(symbol(';') == Some(TokValView::Break));
    }
}

/// A token for a number with a fraction holds a text that reads as
/// one: digits, a point, and digits.
pub open spec fn fraction_reads(t: TokenView) -> bool {
    t.val matches TokValView::Float(f) ==> is_decimal_literal(f)
}

/// Every number with a fraction among `toks` reads as one.
pub open spec fn fractions_read(toks: Seq<TokenView>) -> bool {
    forall|i: int| 0 <= i < toks.len() ==> fraction_reads(#[trigger] toks[i])
}

proof fn lemma_feed_fractions(s: Scan, text: Seq<char>, idx: int, off: int, c: char)
    requires
        fractions_read(s.tokens),
    ensures
        fractions_read(feed(s, text, idx, off, c).tokens),
{
    let s0 = if s.col == 1 {
        Scan { lineptr: off, ..s }
    } else {
        s
    };
    let s1 = close_pending(s0, text, c);
    assert(fractions_read(s1.tokens)) by {
        assert forall|i: int| 0 <= i < s1.tokens.len() implies fraction_reads(
            #[trigger] s1.tokens[i],
        ) by {
            if i < s.tokens.len() {
                assert(s1.tokens[i] == s.tokens[i]);
            }
        }
    }
    let r = feed(s, text, idx, off, c);
    assert forall|i: int| 0 <= i < r.tokens.len() implies fraction_reads(#[trigger] r.tokens[i]) by {
        if i < s1.tokens.len() {
            assert(r.tokens[i] == s1.tokens[i]);
        }
    }
}

proof fn lemma_prefix_fractions(text: Seq<char>, n: nat)
    ensures
        fractions_read(scan_prefix(text, n).tokens),
    decreases n,
{
    if n > 0 {
        lemma_prefix_fractions(text, (n - 1) as nat);
        lemma_feed_fractions(
            scan_prefix(text, (n - 1) as nat),
            text,
            n - 1,
            byte_offset(text, n - 1),
            text[n - 1],
        );
    }
}

/// Every token that the lexer gives for a number with a fraction holds
/// a text that reads as one.
pub proof fn lemma_fractions_read(text: Seq<char>)
    ensures
        fractions_read(scan(text).tokens),
{
    let s = scan_prefix(text, text.len());
    let f = flush_string(s, text);
    lemma_prefix_fractions(text, text.len());
    assert(fractions_read(f.tokens)) by {
        assert forall|i: int| 0 <= i < f.tokens.len() implies fraction_reads(#[trigger] f.tokens[i]) by {
            if i < s.tokens.len() {
                assert(f.tokens[i] == s.tokens[i]);
            }
        }
    }
    lemma_feed_fractions(f, text, text.len() as int, utf8_len(text), ';');
}

/// The number of line breaks among the first `n` characters of `text`.
pub open spec fn line_breaks(text: Seq<char>, n: nat) -> nat
    decreases n,
{
    if n == 0 {
        0
    } else if text[n - 1] == '\n' {
        line_breaks(text, (n - 1) as nat) + 1
    } else {
        line_breaks(text, (n - 1) as nat)
    }
}

proof fn lemma_prefix_line_count(text: Seq<char>, n: nat)
    requires
        n <= text.len(),
    ensures
        scan_prefix(text, n).lines.len() == line_breaks(text, n),
        scan_prefix(text, n).col == 1 <==> (n == 0 || text[n - 1] == '\n'),
        scan_prefix(text, n).col >= 1,
    decreases n,
{
    if n > 0 {
        lemma_prefix_line_count(text, (n - 1) as nat);
        let s = scan_prefix(text, (n - 1) as nat);
        let off = byte_offset(text, n - 1);
        let c = text[n - 1];
        let s0 = if s.col == 1 {
            Scan { lineptr: off, ..s }
        } else {
            s
        };
        let s1 = close_pending(s0, text, c);
        assert(s1.lines == s.lines && s1.col == s.col);
        if c != '\n' {
            let s2 = Scan { rptr: off, ridx: n - 1, ..s1 };
            let s3 = if s2.mode is StartString {
                Scan {
                    lptr: off,
                    lidx: n - 1,
                    lcol: s2.col,
                    mode: State::InString { escaped: false },
                    ..s2
                }
            } else {
                s2
            };
            let s4 = take_char(s3, text, c);
            assert(s4.lines == s.lines && s4.col == s.col);
        }
    }
}

/// The line index has one span for every line: one for every line
/// break, and one more for a last line that has characters and no line
/// break after them.
pub proof fn lemma_line_count(text: Seq<char>)
    ensures
        scan(text).lines.len() == line_breaks(text, text.len()) + if text.len() > 0 && text.last()
            != '\n' {
            1nat
        } else {
            0nat
        },
{
    let n = text.len();
    let s = scan_prefix(text, n);
    lemma_prefix_line_count(text, n);
    let end = utf8_len(text);
    let f = flush_string(s, text);
    let s0 = if f.col == 1 {
        Scan { lineptr: end, ..f }
    } else {
        f
    };
    let s1 = close_pending(s0, text, ';');
    let s2 = Scan { rptr: end, ridx: n as int, ..s1 };
    let s3 = if s2.mode is StartString {
        Scan { lptr: end, lidx: n as int, lcol: s2.col, mode: State::InString { escaped: false }, ..s2 }
    } else {
        s2
    };
    let s4 = take_char(s3, text, ';');
    assert(s4.lines == s.lines);
}

/// The spans of the line index, one after the other, are the text:
/// every byte of it lies in one span, in order.
pub proof fn lemma_lines_reconstruct(text: Seq<char>)
    ensures
        concat_spans(vstd::utf8::encode_utf8(text), scan(text).lines) == vstd::utf8::encode_utf8(text),
{
    let bytes = vstd::utf8::encode_utf8(text);
    lemma_lines_tile(text);
    lemma_utf8_len_is_encoding_len(text);
    lemma_tiles_concat(bytes, scan(text).lines, utf8_len(text));
    assert(bytes.subrange(0, bytes.len() as int) =~= bytes);
}

/// Splits `input` into tokens and builds the line index.
///
/// The line index is returned in either case. The tokens are returned
/// where no lexical error was found, and all the errors otherwise.
pub fn tokenise<'src>(input: &'src str) -> (r: (Lines, Result<Vec<Token<'src>>, Vec<Error<'src>>>))
    ensures
        lines_view(r.0@) == scan(input@).lines,
        concat_spans(input.spec_bytes(), lines_view(r.0@)) == input.spec_bytes(),
        match r.1 {
            Ok(toks) => scan(input@).errors.len() == 0 && tokens_view(toks@) == scan(input@).tokens
                && fractions_read(tokens_view(toks@)) && toks@.len() > 0 && toks@.last()@.val is Break,
            Err(errs) => errs@.len() > 0 && errors_view(errs@) == scan(input@).errors,
        },
{
    let mut chars = to_chars(input);
    let n = chars.len();
    chars.push(';');
    let total = input.as_bytes().len();
    proof {
        lemma_utf8_len_is_encoding_len(input@);
        lemma_byte_offset_end(input@);
        lemma_byte_offset_next(input@.push(' '), 0);
        assert(input@.take(0) =~= input@.push(' ').take(0));
    }
    let mut lx = Lexer::new();
    let mut idx: usize = 0;
    let mut off: usize = 0;
    while idx < n
        invariant
            n == input@.len(),
            chars@ == input@.push(';'),
            n + 1 == chars.len(),
            total == utf8_len(input@),
            idx <= n,
            lx.wf(input@, idx as int),
            lx@ == scan_prefix(input@, idx as nat),
            off == byte_offset(input@, idx as int),
        decreases n - idx,
    {
        let c = chars[idx];
        lx.feed(input, &chars, idx, off, c);
        if c != '\n' {
            lx.col += 1;
        }
        proof {
            lemma_byte_offset_next(input@, idx as int);
            lemma_byte_offset_monotone(input@, idx + 1, n as int);
            lemma_byte_offset_end(input@);
        }
        off += char_width(c);
        idx += 1;
    }
    proof {
        lemma_prefix_lines(input@, n as nat);
        lemma_byte_offset_end(input@);
        lemma_lines_reconstruct(input@);
        lemma_fractions_read(input@);
        lemma_last_is_break(input@);
    }
    let pending = lx.col != 1;
    let lineptr = lx.lineptr;
    lx.flush_string(input, n, off);
    lx.feed(input, &chars, n, off, ';');
    if pending {
        proof {
            lemma_push_line(lx.lines@, (lineptr, (off - 1) as usize));
        }
        lx.lines.push((lineptr, off - 1));
    }
    assert(lx@.lines == scan(input@).lines);
    if lx.errors.len() > 0 {
        (lx.lines, Err(lx.errors))
    } else {
        (lx.lines, Ok(lx.toks))
    }
}

} // verus!
