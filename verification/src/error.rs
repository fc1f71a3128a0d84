//! The diagnostic that the lexer and the parser report.
use crate::text::{decimal, lemma_decimal_len, push_decimal, push_repeat, repeat};
use crate::tokeniser::{lines_view, Token, TokenView};
use crate::util::{line_text, token_line};
use crate::Lines;
use vstd::prelude::*;

verus! {

/// A diagnostic: a stable numeric code and a message, and for most faults
/// the offending token with a short hint at the remedy.
#[derive(Debug)]
pub struct Error<'src> {
    pub code: u8,
    pub msg: String,
    pub token: Option<Token<'src>>,
    pub hint: Option<String>,
}

/// The mathematical content of an [`Error`].
pub struct ErrorView {
    pub code: u8,
    pub msg: Seq<char>,
    pub token: Option<TokenView>,
    pub hint: Option<Seq<char>>,
}

impl<'src> View for Error<'src> {
    type V = ErrorView;

    open spec fn view(&self) -> ErrorView {
        ErrorView {
            code: self.code,
            msg: self.msg@,
            token: match self.token {
                Some(t) => Some(t@),
                None => None,
            },
            hint: match self.hint {
                Some(h) => Some(h@),
                None => None,
            },
        }
    }
}

impl<'src> Clone for Error<'src> {
    fn clone(&self) -> (r: Self)
        ensures
            r@ == self@,
    {
        Error {
            code: self.code,
            msg: self.msg.clone(),
            token: self.token,
            hint: match &self.hint {
                Some(h) => Some(h.clone()),
                None => None,
            },
        }
    }
}

/// An error without a source position.
pub open spec fn basic_error(code: u8, msg: Seq<char>) -> ErrorView {
    ErrorView { code, msg, token: None, hint: None }
}

/// An error anchored at a token, with a hint.
pub open spec fn detailed_error(
    code: u8,
    msg: Seq<char>,
    token: TokenView,
    hint: Seq<char>,
) -> ErrorView {
    ErrorView { code, msg, token: Some(token), hint: Some(hint) }
}

/// `s`, and blanks after it up to the width `width`.
pub open spec fn pad_right(s: Seq<char>, width: nat) -> Seq<char> {
    if s.len() >= width {
        s
    } else {
        s + repeat(' ', (width - s.len()) as nat)
    }
}

/// The first line of every rendering: the code and the message.
pub open spec fn render_head(e: ErrorView) -> Seq<char> {
    "[E"@ + decimal(e.code as nat) + "] "@ + e.msg + "\n"@
}

/// The lines that point into the source: the line of the token after
/// its number, carets under the token, and the hint.
pub open spec fn render_pointer(
    t: TokenView,
    hint: Seq<char>,
    text: Seq<char>,
    lines: Seq<(int, int)>,
) -> Seq<char> {
    pad_right(decimal(t.lno as nat), 3) + "| "@ + line_text(text, lines, t.lno) + "\n"@ + repeat(
        ' ',
        (4 + t.col) as nat,
    ) + repeat('^', t.len as nat) + "\n"@ + "Hint: "@ + hint + "\n"@
}

/// The rendering of an error against the source `text` and its line
/// index.
pub open spec fn render_text(e: ErrorView, text: Seq<char>, lines: Seq<(int, int)>) -> Seq<char> {
    match e.token {
        Some(t) => match e.hint {
            Some(h) => render_head(e) + render_pointer(t, h, text, lines),
            None => render_head(e),
        },
        None => render_head(e),
    }
}

impl<'src> Error<'src> {
    /// An error without a source position.
    pub fn basic(code: u8, msg: String) -> (e: Error<'src>)
        ensures
            e@ == basic_error(code, msg@),
    {
        Error { code, msg, token: None, hint: None }
    }

    /// An error anchored at a token, with a hint.
    pub fn detailed(code: u8, msg: String, token: Token<'src>, hint: String) -> (e: Error<'src>)
        ensures
            e@ == detailed_error(code, msg@, token@, hint@),
    {
        Error { code, msg, token: Some(token), hint: Some(hint) }
    }

    /// Renders the error: `[E<code>] <message>`, and for an error with
    /// a token and a hint the source line of the token after its
    /// number, carets under the token, and the hint.
    pub fn render(&self, input: &'src str, lines: &Lines) -> (r: String)
        ensures
            r@ == render_text(self@, input@, lines_view(lines@)),
    {
        proof {
            reveal_strlit(" ");
            reveal_strlit("^");
        }
        let mut out = String::from_str("[E");
        push_decimal(&mut out, self.code as usize);
        out.append("] ");
        out.append(self.msg.as_str());
        out.append("\n");
        assert(out@ =~= render_head(self@));
        if let Some(token) = &self.token {
            if let Some(hint) = &self.hint {
                let ghost head = out@;
                push_decimal(&mut out, token.lno);
                proof {
                    lemma_decimal_len(token.lno as nat);
                }
                if token.lno < 10 {
                    push_repeat(&mut out, " ", 2);
                } else if token.lno < 100 {
                    push_repeat(&mut out, " ", 1);
                }
                assert(out@ =~= head + pad_right(decimal(token.lno as nat), 3));
                out.append("| ");
                out.append(token_line(input, lines, token));
                out.append("\n");
                push_repeat(&mut out, " ", 4);
                push_repeat(&mut out, " ", token.col);
                assert(repeat(' ', 4) + repeat(' ', token.col as nat) =~= repeat(
                    ' ',
                    (4 + token.col) as nat,
                ));
                push_repeat(&mut out, "^", token.len);
                out.append("\n");
                out.append("Hint: ");
                out.append(hint.as_str());
                out.append("\n");
                assert(out@ =~= render_head(self@) + render_pointer(
                    token@,
                    hint@,
                    input@,
                    lines_view(lines@),
                ));
            }
        }
        out
    }
}

/// What a step of the parser gives: a value, or the error that ends the
/// parse.
pub type Result<'src, T> = std::result::Result<T, Error<'src>>;

} // verus!
