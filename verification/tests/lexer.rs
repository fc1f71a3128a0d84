use jacl::error::Error;
use jacl::tokeniser::{tokenise, unambiguous_symbol, TokVal, Token};

fn lex(input: &str) -> Vec<Token<'_>> {
    tokenise(input).1.expect("the text has no lexical error")
}

fn faults(input: &str) -> Vec<Error<'_>> {
    match tokenise(input).1 {
        Ok(_) => panic!("the text has a lexical error"),
        Err(errors) => errors,
    }
}

fn place(t: &Token<'_>) -> (usize, usize, usize, usize, usize) {
    (t.lptr, t.rptr, t.lno, t.col, t.len)
}

fn spans_joined(input: &str) -> String {
    let (lines, _) = tokenise(input);
    let mut out = String::new();
    for (a, b) in lines {
        out.push_str(&input[a..=b]);
    }
    out
}

#[test]
fn lexes_a_binding() {
    let (lines, toks) = tokenise("a = 1;\n");
    let toks = toks.unwrap();
    assert_eq!(lines, vec![(0, 6)]);
    assert_eq!(toks.len(), 6);
    assert!(matches!(toks[0].val, TokVal::Name("a")));
    assert!(matches!(toks[1].val, TokVal::Equals));
    assert!(matches!(toks[2].val, TokVal::Integer(1)));
    assert!(matches!(toks[3].val, TokVal::Break));
    assert!(matches!(toks[4].val, TokVal::Break));
    assert!(matches!(toks[5].val, TokVal::Break));
    assert_eq!(place(&toks[0]), (0, 0, 1, 1, 1));
    assert_eq!(place(&toks[1]), (2, 2, 1, 3, 1));
    assert_eq!(place(&toks[2]), (4, 4, 1, 5, 1));
    assert_eq!(place(&toks[3]), (5, 5, 1, 6, 1));
    assert_eq!(place(&toks[4]), (5, 6, 1, 7, 1));
    assert_eq!(place(&toks[5]), (7, 7, 2, 1, 1));
}

#[test]
fn the_empty_text_is_one_break() {
    let (lines, toks) = tokenise("");
    let toks = toks.unwrap();
    assert!(lines.is_empty());
    assert_eq!(toks.len(), 1);
    assert!(matches!(toks[0].val, TokVal::Break));
    assert_eq!(place(&toks[0]), (0, 0, 1, 1, 1));
}

#[test]
fn symbols_of_one_character() {
    let toks = lex("} [ ] ( ) = , + - * $ @ ;");
    let vals: Vec<TokVal> = toks.iter().map(|t| t.val).collect();
    assert!(matches!(
        vals[..],
        [
            TokVal::RBrace,
            TokVal::LBrack,
            TokVal::RBrack,
            TokVal::LParen,
            TokVal::RParen,
            TokVal::Equals,
            TokVal::Comma,
            TokVal::Plus,
            TokVal::Minus,
            TokVal::Star,
            TokVal::Dollar,
            TokVal::At,
            TokVal::Break,
            TokVal::Break,
        ]
    ));
}

#[test]
fn the_symbol_table() {
    assert!(matches!(unambiguous_symbol('}'), Some(TokVal::RBrace)));
    assert!(matches!(unambiguous_symbol(';'), Some(TokVal::Break)));
    assert!(matches!(unambiguous_symbol('@'), Some(TokVal::At)));
    assert!(unambiguous_symbol('{').is_none());
    assert!(unambiguous_symbol('%').is_none());
    assert!(unambiguous_symbol('a').is_none());
}

#[test]
fn braces_with_and_without_percent() {
    let toks = lex("{ {% %} }");
    assert!(matches!(toks[0].val, TokVal::LBrace));
    assert!(matches!(toks[1].val, TokVal::LBracePct));
    assert!(matches!(toks[2].val, TokVal::RBracePct));
    assert!(matches!(toks[3].val, TokVal::RBrace));
    assert_eq!(place(&toks[0]), (0, 0, 1, 1, 1));
    assert_eq!(place(&toks[1]), (2, 3, 1, 3, 2));
    assert_eq!(place(&toks[2]), (5, 6, 1, 6, 2));
    assert_eq!(place(&toks[3]), (8, 8, 1, 9, 1));
}

#[test]
fn a_brace_at_the_end() {
    let toks = lex("{");
    assert_eq!(toks.len(), 2);
    assert!(matches!(toks[0].val, TokVal::LBrace));
    assert!(matches!(toks[1].val, TokVal::Break));
}

#[test]
fn a_brace_before_a_line_break() {
    let toks = lex("{\n}");
    assert!(matches!(toks[0].val, TokVal::LBrace));
    assert!(matches!(toks[1].val, TokVal::Break));
    assert!(matches!(toks[2].val, TokVal::RBrace));
    assert_eq!(place(&toks[2]), (2, 2, 2, 1, 1));
}

#[test]
fn barewords() {
    let toks = lex("true false truth a_1 1a _ 007");
    assert!(matches!(toks[0].val, TokVal::Boolean(true)));
    assert!(matches!(toks[1].val, TokVal::Boolean(false)));
    assert!(matches!(toks[2].val, TokVal::Name("truth")));
    assert!(matches!(toks[3].val, TokVal::Name("a_1")));
    assert!(matches!(toks[4].val, TokVal::Name("1a")));
    assert!(matches!(toks[5].val, TokVal::Name("_")));
    assert!(matches!(toks[6].val, TokVal::Integer(7)));
    assert_eq!(place(&toks[2]), (11, 15, 1, 12, 5));
}

#[test]
fn the_largest_integer() {
    let toks = lex("9223372036854775807");
    assert!(matches!(toks[0].val, TokVal::Integer(i64::MAX)));
    assert_eq!(place(&toks[0]), (0, 18, 1, 1, 19));
}

#[test]
fn an_integer_that_is_too_large() {
    let errs = faults("x = 9223372036854775808;");
    assert_eq!(errs.len(), 1);
    assert_eq!(errs[0].code, 100);
    assert_eq!(errs[0].msg, "Could not parse number as 64-byte signed Integer");
    assert_eq!(errs[0].hint.as_deref(), Some("This value may be too large"));
    let tok = errs[0].token.unwrap();
    assert!(matches!(tok.val, TokVal::Fault));
    assert_eq!(place(&tok), (4, 22, 1, 5, 19));
}

#[test]
fn all_lexical_errors_are_collected() {
    let errs = faults("99999999999999999999 1 88888888888888888888");
    assert_eq!(errs.len(), 2);
    assert_eq!(errs[0].code, 100);
    assert_eq!(errs[1].code, 100);
    assert_eq!(errs[0].token.unwrap().col, 1);
    assert_eq!(errs[1].token.unwrap().col, 24);
}

#[test]
fn numbers_with_a_fraction() {
    let toks = lex("1.5 10. 0.25");
    assert!(matches!(toks[0].val, TokVal::Float("1.5")));
    assert!(matches!(toks[1].val, TokVal::Float("10.")));
    assert!(matches!(toks[2].val, TokVal::Float("0.25")));
    assert_eq!(place(&toks[0]), (0, 2, 1, 1, 3));
    assert_eq!(place(&toks[1]), (4, 6, 1, 5, 3));
}

#[test]
fn a_second_point_is_not_understood() {
    let errs = faults("1.2.3");
    assert_eq!(errs.len(), 1);
    assert_eq!(errs[0].code, 102);
    assert_eq!(place(&errs[0].token.unwrap()), (3, 3, 1, 4, 1));
}

#[test]
fn strings() {
    let toks = lex("\"a b\" \"\" \"x\\\"y\\\\\"");
    assert!(matches!(toks[0].val, TokVal::String("a b")));
    assert!(matches!(toks[1].val, TokVal::String("")));
    assert!(matches!(toks[2].val, TokVal::String("x\\\"y\\\\")));
    assert_eq!(place(&toks[0]), (1, 4, 1, 2, 3));
    assert_eq!(place(&toks[1]), (7, 7, 1, 8, 0));
}

#[test]
fn a_string_over_two_lines() {
    let (lines, toks) = tokenise("\"abcdef\ng\"");
    let toks = toks.unwrap();
    assert_eq!(lines, vec![(0, 7), (8, 9)]);
    assert!(matches!(toks[0].val, TokVal::Break));
    assert!(matches!(toks[1].val, TokVal::String("abcdef\ng")));
    assert_eq!(place(&toks[1]), (1, 9, 2, 2, 0));
    assert!(matches!(toks[2].val, TokVal::Break));
}

#[test]
fn a_string_that_is_not_closed() {
    let toks = lex("a = \"abc");
    assert_eq!(toks.len(), 4);
    assert!(matches!(toks[0].val, TokVal::Name("a")));
    assert!(matches!(toks[1].val, TokVal::Equals));
    assert!(matches!(toks[2].val, TokVal::String("abc")));
    assert_eq!(place(&toks[2]), (5, 8, 1, 6, 3));
    assert!(matches!(toks[3].val, TokVal::Break));
    assert_eq!(place(&toks[3]), (8, 8, 1, 9, 1));
}

#[test]
fn a_quote_at_the_end() {
    let toks = lex("\"");
    assert_eq!(toks.len(), 2);
    assert!(matches!(toks[0].val, TokVal::String("")));
    assert_eq!(place(&toks[0]), (1, 1, 1, 2, 0));
    assert!(matches!(toks[1].val, TokVal::Break));
    assert_eq!(place(&toks[1]), (1, 1, 1, 2, 1));
    let toks = lex("x \"a\\");
    assert!(matches!(toks[1].val, TokVal::String("a\\")));
    assert!(matches!(toks[2].val, TokVal::Break));
}

#[test]
fn an_open_string_over_two_lines() {
    let (lines, toks) = tokenise("\"ab\ncé");
    let toks = toks.unwrap();
    assert_eq!(lines, vec![(0, 3), (4, 6)]);
    assert_eq!(toks.len(), 3);
    assert!(matches!(toks[0].val, TokVal::Break));
    assert!(matches!(toks[1].val, TokVal::String("ab\ncé")));
    assert_eq!(place(&toks[1]), (1, 7, 2, 2, 1));
    assert!(matches!(toks[2].val, TokVal::Break));
}

#[test]
fn the_last_token_is_a_break() {
    for input in ["", "a", "a = 1", "1.5", "{", "{%", "\"", "\"a", "x \"a\\", "a\n", "true", "a;", "%}", "\"a\nb"] {
        let toks = lex(input);
        assert!(matches!(toks.last().unwrap().val, TokVal::Break), "{:?}", input);
    }
}

#[test]
fn a_character_that_is_not_understood() {
    let errs = faults("a = #;\nb = 2;");
    assert_eq!(errs.len(), 1);
    assert_eq!(errs[0].code, 102);
    assert_eq!(errs[0].msg, "Unexpected Character");
    assert_eq!(errs[0].hint.as_deref(), Some("This character could not be understood"));
    assert_eq!(place(&errs[0].token.unwrap()), (4, 4, 1, 5, 1));
}

#[test]
fn the_line_index_goes_on_after_a_fault() {
    let (lines, toks) = tokenise("#\na\nb");
    assert!(toks.is_err());
    assert_eq!(lines, vec![(0, 1), (2, 3), (4, 4)]);
}

#[test]
fn a_percent_without_its_brace() {
    let errs = faults("% a");
    assert_eq!(errs.len(), 1);
    assert_eq!(errs[0].code, 103);
    assert_eq!(errs[0].msg, "% was not followed by }");
    assert_eq!(errs[0].hint.as_deref(), Some("Unparseable character pair here"));
    assert_eq!(place(&errs[0].token.unwrap()), (0, 1, 1, 1, 1));
}

#[test]
fn a_percent_before_a_line_break() {
    let errs = faults("a %\n}");
    assert_eq!(errs.len(), 1);
    assert_eq!(errs[0].code, 104);
    assert_eq!(errs[0].msg, "% was followed by a newline");
    assert_eq!(errs[0].hint.as_deref(), Some("Expected '}'"));
    assert_eq!(place(&errs[0].token.unwrap()), (2, 2, 1, 3, 1));
}

#[test]
fn a_map_that_ends_on_a_lone_percent() {
    let (lines, toks) = tokenise("{% a = 1; %");
    assert_eq!(lines, vec![(0, 10)]);
    let errs = toks.unwrap_err();
    assert_eq!(errs.len(), 1);
    assert_eq!(errs[0].code, 103);
}

#[test]
fn a_break_for_every_line() {
    let toks = lex("a\n\nb\n");
    let vals: Vec<TokVal> = toks.iter().map(|t| t.val).collect();
    assert!(matches!(
        vals[..],
        [
            TokVal::Name("a"),
            TokVal::Break,
            TokVal::Break,
            TokVal::Name("b"),
            TokVal::Break,
            TokVal::Break,
        ]
    ));
    assert_eq!(toks[3].lno, 3);
    assert_eq!(toks[5].lno, 4);
}

#[test]
fn the_line_index() {
    assert_eq!(tokenise("a\nb").0, vec![(0, 1), (2, 2)]);
    assert_eq!(tokenise("a\n").0, vec![(0, 1)]);
    assert_eq!(tokenise("\n\n").0, vec![(0, 0), (1, 1)]);
    assert_eq!(tokenise("ab").0, vec![(0, 1)]);
    assert_eq!(tokenise("é\nx").0, vec![(0, 2), (3, 3)]);
    assert_eq!(tokenise("x\né").0, vec![(0, 1), (2, 3)]);
}

#[test]
fn the_spans_make_up_the_text() {
    for input in ["", "a", "a\n", "\n", "\n\n", "a = 1;\nb = \"x\ny\";\n\n{% %}", "é = ü\n#\nß", "%\n%"] {
        assert_eq!(spans_joined(input), input);
    }
}

#[test]
fn names_beyond_ascii() {
    let toks = lex("café = 1");
    assert!(matches!(toks[0].val, TokVal::Name("café")));
    assert_eq!(place(&toks[0]), (0, 3, 1, 1, 4));
    assert!(matches!(toks[1].val, TokVal::Equals));
    assert_eq!(place(&toks[1]), (6, 6, 1, 6, 1));
    let toks = lex("数 字");
    assert!(matches!(toks[0].val, TokVal::Name("数")));
    assert!(matches!(toks[1].val, TokVal::Name("字")));
    assert_eq!(place(&toks[1]), (4, 4, 1, 3, 1));
}

#[test]
fn blanks_beyond_ascii() {
    let toks = lex("a\u{a0}\u{3000}\tb");
    assert_eq!(toks.len(), 3);
    assert!(matches!(toks[0].val, TokVal::Name("a")));
    assert!(matches!(toks[1].val, TokVal::Name("b")));
    assert_eq!(toks[1].col, 5);
}

#[test]
fn what_reads_as_a_number_with_a_fraction() {
    let reads = |text: &str| {
        let chars: Vec<char> = text.chars().collect();
        jacl::text::decimal_literal(&chars, 0, chars.len())
    };
    assert!(reads("1.5"));
    assert!(reads("1."));
    assert!(reads("007.250"));
    assert!(!reads(".5"));
    assert!(!reads("15"));
    assert!(!reads("1.5.2"));
    assert!(!reads("1a.5"));
    assert!(!reads("1.5a"));
    assert!(!reads("1\n.5"));
    assert!(!reads(""));
    assert!(!reads("."));
    let chars: Vec<char> = "x1.5y".chars().collect();
    assert!(jacl::text::decimal_literal(&chars, 1, 4));
    assert!(!jacl::text::decimal_literal(&chars, 0, 4));
}

#[test]
fn digits_and_their_value() {
    let chars: Vec<char> = "a0123456789".chars().collect();
    assert!(jacl::text::all_ascii_digits(&chars, 1, 11));
    assert!(!jacl::text::all_ascii_digits(&chars, 0, 11));
    assert!(jacl::text::all_ascii_digits(&chars, 3, 3));
    assert_eq!(jacl::text::parse_digits(&chars, 1, 11), Some(123456789));
    assert_eq!(jacl::text::parse_digits(&chars, 1, 1), None);
    let chars: Vec<char> = "9223372036854775807".chars().collect();
    assert_eq!(jacl::text::parse_digits(&chars, 0, 19), Some(i64::MAX));
    let chars: Vec<char> = "9223372036854775808".chars().collect();
    assert_eq!(jacl::text::parse_digits(&chars, 0, 19), None);
    let chars: Vec<char> = "00000000000000000000000000000000000000012".chars().collect();
    assert_eq!(jacl::text::parse_digits(&chars, 0, chars.len()), Some(12));
}

#[test]
fn widths_and_digits_of_numbers() {
    assert_eq!(jacl::text::char_width('a'), 1);
    assert_eq!(jacl::text::char_width('é'), 2);
    assert_eq!(jacl::text::char_width('数'), 3);
    assert_eq!(jacl::text::char_width('𝄞'), 4);
    for c in ['a', '\u{7f}', '\u{80}', '\u{7ff}', '\u{800}', '\u{ffff}', '\u{10000}', '\u{10ffff}'] {
        assert_eq!(jacl::text::char_width(c), c.len_utf8());
    }
    let mut out = String::from("n=");
    jacl::text::push_decimal(&mut out, 0);
    jacl::text::push_decimal(&mut out, 907);
    jacl::text::push_decimal(&mut out, usize::MAX);
    assert_eq!(out, format!("n=0907{}", usize::MAX));
    jacl::text::push_repeat(&mut out, "-", 3);
    jacl::text::push_repeat(&mut out, "x", 0);
    assert!(out.ends_with("5---"));
    assert_eq!(jacl::text::to_chars("aé数"), ['a', 'é', '数']);
    assert_eq!(jacl::text::char_range("aé数b", 1, 3, 1, 6), "é数");
    assert_eq!(jacl::text::char_range("aé数b", 0, 0, 0, 0), "");
    assert_eq!(jacl::text::char_range("aé数b", 4, 4, 7, 7), "");
}
