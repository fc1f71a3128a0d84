use jacl::error::Error;
use jacl::parser::parse;
use jacl::tokeniser::{tokenise, TokVal, Token};
use jacl::types::{Entries, Props, Struct, Value};

fn read(input: &str) -> Result<Struct, Error<'_>> {
    let (lines, toks) = tokenise(input);
    let toks = toks.expect("the text has no lexical error");
    parse(input, &lines, toks)
}

fn object(s: &Struct) -> (&Entries, &Props) {
    match s {
        Struct::Object { entries, props } => (entries, props),
        _ => panic!("an object was expected"),
    }
}

fn table(s: &Struct) -> &Entries {
    match s {
        Struct::Table { entries } => entries,
        _ => panic!("a table was expected"),
    }
}

fn mapping(s: &Struct) -> &Props {
    match s {
        Struct::Mapping { props } => props,
        _ => panic!("a map was expected"),
    }
}

fn names(entries: &Entries) -> Vec<String> {
    (0..entries.len()).map(|i| entries.get_index(i).unwrap().0.clone()).collect()
}

fn keys(props: &Props) -> Vec<String> {
    props.keys().cloned().collect()
}

fn entry<'a>(entries: &'a Entries, name: &str) -> &'a Struct {
    entries.get(name).expect("the name is known").as_ref().expect("the name is defined")
}

fn tok(val: TokVal<'static>) -> Token<'static> {
    Token::new(val, 0, 0, 1, 1, 1)
}

fn read_tokens(toks: Vec<Token<'static>>) -> Result<Struct, Error<'static>> {
    let lines = Vec::new();
    parse("", &lines, toks)
}

#[test]
fn bindings_and_an_anonymous_structure() {
    let root = read("a = 1;b=\"x\";c={ d = true; };").unwrap();
    let (entries, props) = object(&root);
    assert_eq!(keys(props), ["a", "b", "c"]);
    assert!(matches!(&props["a"], Value::Int(1)));
    assert!(matches!(&props["b"], Value::Str(s) if s == "x"));
    assert!(matches!(&props["c"], Value::Key(s) if s == "#anon0"));
    assert_eq!(names(entries), ["#anon0"]);
    let (inner_entries, inner_props) = object(entry(entries, "#anon0"));
    assert_eq!(inner_entries.len(), 0);
    assert_eq!(keys(inner_props), ["d"]);
    assert!(matches!(&inner_props["d"], Value::Bool(true)));
}

#[test]
fn an_empty_entry_declared_twice() {
    let err = read("x; x;").unwrap_err();
    assert_eq!(err.code, 162);
    assert_eq!(err.msg, "Entry x redefined with no new data");
    assert_eq!(err.hint.as_deref(), Some("Remove this redefinition"));
    let tok = err.token.unwrap();
    assert!(matches!(tok.val, TokVal::Name("x")));
    assert_eq!(tok.col, 4);
}

#[test]
fn a_binding_in_a_table() {
    let err = read("t [\nk = 1;\n]\n").unwrap_err();
    assert_eq!(err.code, 157);
    assert_eq!(err.msg, "Tables cannot contain Bindings");
    assert_eq!(err.hint.as_deref(), Some("Remove this entry"));
    let tok = err.token.unwrap();
    assert!(matches!(tok.val, TokVal::Equals));
    assert_eq!((tok.lno, tok.col), (2, 3));
}

#[test]
fn a_structure_bound_in_a_table() {
    let err = read("[ k = {} ]").unwrap_err();
    assert_eq!(err.code, 157);
    assert!(matches!(err.token.unwrap().val, TokVal::Equals));
}

#[test]
fn a_map_that_is_not_closed() {
    let err = read("{% a = 1;").unwrap_err();
    assert_eq!(err.code, 151);
    assert_eq!(err.msg, "Expected '%}' but found End-of-File");
    assert!(err.token.is_none());
    assert!(err.hint.is_none());
}

#[test]
fn scalar_values() {
    let root = read("k = other\nv = $home\nf = @doc\ns = \"text\"\ni = 42\nx = 2.50\nb = false\n").unwrap();
    let (_, props) = object(&root);
    assert_eq!(keys(props), ["k", "v", "f", "s", "i", "x", "b"]);
    assert!(matches!(&props["k"], Value::Key(s) if s == "other"));
    assert!(matches!(&props["v"], Value::Var(s) if s == "home"));
    assert!(matches!(&props["f"], Value::Foreign(s) if s == "doc"));
    assert!(matches!(&props["s"], Value::Str(s) if s == "text"));
    assert!(matches!(&props["i"], Value::Int(42)));
    assert!(matches!(&props["x"], Value::Float(s) if s == "2.50"));
    assert!(matches!(&props["b"], Value::Bool(false)));
}

#[test]
fn tuples() {
    let root = read("t = (1, \"a\", (true, x), $v)").unwrap();
    let (_, props) = object(&root);
    let Value::Tuple(items) = &props["t"] else { panic!("a tuple was expected") };
    assert_eq!(items.len(), 4);
    assert!(matches!(&items[0], Value::Int(1)));
    assert!(matches!(&items[1], Value::Str(s) if s == "a"));
    let Value::Tuple(inner) = &items[2] else { panic!("a tuple was expected") };
    assert!(matches!(&inner[..], [Value::Bool(true), Value::Key(s)] if s == "x"));
    assert!(matches!(&items[3], Value::Var(s) if s == "v"));
}

#[test]
fn a_tuple_without_a_separator() {
    let err = read("t = (1 2)").unwrap_err();
    assert_eq!(err.code, 164);
    assert_eq!(err.msg, "Invalid syntax inside tuple");
    assert_eq!(err.hint.as_deref(), Some("Expected ',' or ')'"));
    assert!(matches!(err.token.unwrap().val, TokVal::Integer(2)));
}

#[test]
fn a_tuple_without_items() {
    let err = read("t = ()").unwrap_err();
    assert_eq!(err.code, 158);
    assert!(matches!(err.token.unwrap().val, TokVal::RParen));
}

#[test]
fn a_structure_in_a_tuple() {
    let err = read("t = (1, {})").unwrap_err();
    assert_eq!(err.code, 158);
    assert_eq!(err.msg, "Expected Value");
    assert_eq!(err.hint.as_deref(), Some("Make this a value"));
    assert!(matches!(err.token.unwrap().val, TokVal::LBrace));
}

#[test]
fn a_binding_without_a_value() {
    let err = read("a = ;").unwrap_err();
    assert_eq!(err.code, 158);
    assert!(matches!(err.token.unwrap().val, TokVal::Break));
}

#[test]
fn a_variable_without_a_name() {
    let err = read("a = $ 1").unwrap_err();
    assert_eq!(err.code, 150);
    assert_eq!(err.msg, "Expected name");
    let tok = err.token.unwrap();
    assert!(matches!(tok.val, TokVal::Integer(1)));
    assert_eq!(err.hint.unwrap(), format!("Found {:?}", tok));
}

#[test]
fn several_names_for_one_value() {
    let root = read("a, b, c = 7").unwrap();
    let (entries, props) = object(&root);
    assert_eq!(entries.len(), 0);
    assert_eq!(keys(props), ["a", "b", "c"]);
    for name in ["a", "b", "c"] {
        assert!(matches!(&props[name], Value::Int(7)));
    }
}

#[test]
fn several_names_for_one_structure() {
    let root = read("a, b = [ ]").unwrap();
    let (entries, props) = object(&root);
    assert_eq!(names(entries), ["#anon0"]);
    assert_eq!(table(entry(entries, "#anon0")).len(), 0);
    assert!(matches!(&props["a"], Value::Key(s) if s == "#anon0"));
    assert!(matches!(&props["b"], Value::Key(s) if s == "#anon0"));
}

#[test]
fn names_without_a_separator() {
    let err = read("a, b { }").unwrap_err();
    assert_eq!(err.code, 163);
    assert_eq!(err.msg, "Expected '=' or ','");
    assert_eq!(err.hint.as_deref(), Some("Could not parse this token"));
    assert!(matches!(err.token.unwrap().val, TokVal::LBrace));
}

#[test]
fn a_later_binding_replaces_an_earlier_one() {
    let root = read("a = 1\nb = 2\na = 3").unwrap();
    let (_, props) = object(&root);
    assert_eq!(keys(props), ["a", "b"]);
    assert!(matches!(&props["a"], Value::Int(3)));
}

#[test]
fn the_three_kinds_of_structure() {
    let root = read("o { a = 1 }\nt [ i { } ]\nm {% k = \"v\" %}").unwrap();
    let (entries, props) = object(&root);
    assert_eq!(props.len(), 0);
    assert_eq!(names(entries), ["o", "t", "m"]);
    assert!(matches!(&object(entry(entries, "o")).1["a"], Value::Int(1)));
    assert_eq!(names(table(entry(entries, "t"))), ["i"]);
    assert!(matches!(&mapping(entry(entries, "m"))["k"], Value::Str(s) if s == "v"));
}

#[test]
fn structures_without_a_name_are_numbered() {
    let root = read("{ a = 1 }\n[ ]\n{% b = 2 %}\n{ }").unwrap();
    let (entries, _) = object(&root);
    assert_eq!(names(entries), ["#anon0", "#anon1", "#anon2", "#anon3"]);
    assert!(matches!(entry(entries, "#anon0"), Struct::Object { .. }));
    assert!(matches!(entry(entries, "#anon1"), Struct::Table { .. }));
    assert!(matches!(entry(entries, "#anon2"), Struct::Mapping { .. }));
    assert!(matches!(&object(entry(entries, "#anon0")).1["a"], Value::Int(1)));
    assert!(matches!(&mapping(entry(entries, "#anon2"))["b"], Value::Int(2)));
    assert_eq!(object(entry(entries, "#anon3")).1.len(), 0);
}

#[test]
fn twelve_structures_without_a_name() {
    let root = read("t [ {}{}{}{}{}{}{}{}{}{}{}{} ]").unwrap();
    let inner = table(entry(object(&root).0, "t"));
    let expected: Vec<String> = (0..12).map(|i| format!("#anon{}", i)).collect();
    assert_eq!(names(inner), expected);
}

#[test]
fn a_name_counts_for_the_number() {
    let root = read("a { }\n{ }").unwrap();
    assert_eq!(names(object(&root).0), ["a", "#anon1"]);
}

#[test]
fn a_compound_entry() {
    let root = read("a + b + c { x = 1 }").unwrap();
    let (entries, _) = object(&root);
    assert_eq!(names(entries), ["a", "b", "c"]);
    for name in ["a", "b", "c"] {
        assert!(matches!(&object(entry(entries, name)).1["x"], Value::Int(1)));
    }
}

#[test]
fn a_compound_entry_merges_name_by_name() {
    let root = read("a { x = 1 }\na + b { y = 2 }").unwrap();
    let (entries, _) = object(&root);
    assert_eq!(names(entries), ["a", "b"]);
    assert_eq!(keys(object(entry(entries, "a")).1), ["x", "y"]);
    assert_eq!(keys(object(entry(entries, "b")).1), ["y"]);
}

#[test]
fn a_compound_entry_that_ends_early() {
    let err = read("a + ").unwrap_err();
    assert_eq!(err.code, 150);
    assert_eq!(err.msg, "Expected name");
    assert!(matches!(err.token.unwrap().val, TokVal::Break));
}

#[test]
fn a_name_declared_and_defined_later() {
    let root = read("x\ny\nx { a = 1 }").unwrap();
    let (entries, _) = object(&root);
    assert_eq!(names(entries), ["x", "y"]);
    assert!(matches!(&object(entry(entries, "x")).1["a"], Value::Int(1)));
    assert!(matches!(entries.get("y"), Some(None)));
    assert!(entries.get("z").is_none());
}

#[test]
fn a_name_defined_and_declared_later() {
    let err = read("x { }\nx\n").unwrap_err();
    assert_eq!(err.code, 162);
    assert_eq!(err.msg, "Entry x redefined with no new data");
    assert_eq!(err.token.unwrap().lno, 2);
}

#[test]
fn merged_objects() {
    let root = read("o { a = 1; b = 2 }\no { b = 3; c = 4 }").unwrap();
    let (entries, _) = object(&root);
    assert_eq!(names(entries), ["o"]);
    let props = object(entry(entries, "o")).1;
    assert_eq!(keys(props), ["a", "b", "c"]);
    assert!(matches!(&props["a"], Value::Int(1)));
    assert!(matches!(&props["b"], Value::Int(3)));
    assert!(matches!(&props["c"], Value::Int(4)));
}

#[test]
fn the_order_of_merged_objects_counts() {
    let root = read("o { b = 3; c = 4 }\no { a = 1; b = 2 }").unwrap();
    let props = object(entry(object(&root).0, "o")).1;
    assert_eq!(keys(props), ["b", "c", "a"]);
    assert!(matches!(&props["b"], Value::Int(2)));
}

#[test]
fn merged_entries_of_merged_objects() {
    let root = read("o { i { a = 1 }; j [ ] }\no { k {% %}; i { b = 2 }; j [ x { } ] }").unwrap();
    let inner = object(entry(object(&root).0, "o")).0;
    assert_eq!(names(inner), ["i", "j", "k"]);
    assert_eq!(keys(object(entry(inner, "i")).1), ["a", "b"]);
    assert_eq!(names(table(entry(inner, "j"))), ["x"]);
    assert!(matches!(entry(inner, "k"), Struct::Mapping { .. }));
}

#[test]
fn merged_tables() {
    let root = read("t [ a { x = 1 } ]\nt [ b { }; a { y = 2 } ]").unwrap();
    let inner = table(entry(object(&root).0, "t"));
    assert_eq!(names(inner), ["a", "b"]);
    assert_eq!(keys(object(entry(inner, "a")).1), ["x", "y"]);
}

#[test]
fn a_merge_that_declares_what_is_defined() {
    let err = read("o { x { } }\no { x\n }").unwrap_err();
    assert_eq!(err.code, 162);
    assert_eq!(err.msg, "Entry x redefined with no new data");
}

#[test]
fn a_merge_that_defines_what_is_declared() {
    let root = read("o { x\n }\no { x { a = 1 } }").unwrap();
    let inner = object(entry(object(&root).0, "o")).0;
    assert!(matches!(&object(entry(inner, "x")).1["a"], Value::Int(1)));
}

#[test]
fn a_table_defined_again_as_an_object() {
    let err = read("t [ ]\nt { }\n").unwrap_err();
    assert_eq!(err.code, 160);
    assert_eq!(err.msg, "Entry t already defined as Table");
    assert_eq!(err.hint.as_deref(), Some("Make this entry a Table"));
    let tok = err.token.unwrap();
    assert!(matches!(tok.val, TokVal::Break));
    assert_eq!((tok.lno, tok.col), (2, 6));
}

#[test]
fn an_object_defined_again_as_a_table() {
    let err = read("o { }\no [ ]\n").unwrap_err();
    assert_eq!(err.code, 161);
    assert_eq!(err.msg, "Entry o already defined as Object");
    assert_eq!(err.hint.as_deref(), Some("Make this entry an Object"));
}

#[test]
fn an_object_defined_again_as_a_map() {
    let err = read("o { }\no {% %}\n").unwrap_err();
    assert_eq!(err.code, 161);
    assert_eq!(err.msg, "Entry o already defined as Object");
}

#[test]
fn a_map_defined_again() {
    let err = read("m {% a = 1 %}\nm {% a = 1 %}\n").unwrap_err();
    assert_eq!(err.code, 159);
    assert_eq!(err.msg, "Entry m already defined as Map");
    assert_eq!(err.hint.as_deref(), Some("Make this entry a Map"));
    let err = read("m {% %}\nm { }\n").unwrap_err();
    assert_eq!(err.code, 159);
}

#[test]
fn a_conflict_within_a_merge() {
    let err = read("o { i [ ] }\no { i { } }\n").unwrap_err();
    assert_eq!(err.code, 160);
    assert_eq!(err.msg, "Entry i already defined as Table");
}

#[test]
fn a_conflict_without_a_token_to_point_at() {
    let toks = vec![
        tok(TokVal::Name("a")),
        tok(TokVal::LBrace),
        tok(TokVal::RBrace),
        tok(TokVal::Name("a")),
        tok(TokVal::LBrack),
        tok(TokVal::RBrack),
    ];
    let err = read_tokens(toks).unwrap_err();
    assert_eq!(err.code, 154);
    assert_eq!(err.msg, "Unexpected End-of-file");
    assert!(err.token.is_none());
}

#[test]
fn entries_in_a_map() {
    let err = read("{% x { } %}").unwrap_err();
    assert_eq!(err.code, 156);
    assert_eq!(err.msg, "Maps cannot contain Entries");
    assert_eq!(err.hint.as_deref(), Some("Remove this entry"));
    assert!(matches!(err.token.unwrap().val, TokVal::Name("x")));
    assert_eq!(read("{% { } %}").unwrap_err().code, 156);
    assert_eq!(read("{% a + b { } %}").unwrap_err().code, 156);
    assert_eq!(read("{% a\n %}").unwrap_err().code, 156);
    let err = read("{% a = { } %}").unwrap_err();
    assert_eq!(err.code, 156);
    assert!(matches!(err.token.unwrap().val, TokVal::LBrace));
}

#[test]
fn a_name_before_something_else() {
    let err = read("a b").unwrap_err();
    assert_eq!(err.code, 153);
    assert_eq!(err.msg, "Expected Struct");
    let tok = err.token.unwrap();
    assert!(matches!(tok.val, TokVal::Name("b")));
    assert_eq!(err.hint.unwrap(), format!("Found {:?}", tok));
}

#[test]
fn the_hint_shows_the_token() {
    let err = read("a 7").unwrap_err();
    assert_eq!(
        err.hint.as_deref(),
        Some("Found Token { val: Integer(7), lptr: 2, rptr: 2, lno: 1, col: 3, len: 1 }")
    );
}

#[test]
fn a_closing_delimiter_of_the_wrong_kind() {
    let err = read("o { a = 1 ]").unwrap_err();
    assert_eq!(err.code, 150);
    assert_eq!(err.msg, "Expected '}'");
    assert!(matches!(err.token.unwrap().val, TokVal::RBrack));
    assert_eq!(read("t [ }").unwrap_err().msg, "Expected ']'");
    assert_eq!(read("m {% ]").unwrap_err().msg, "Expected '%}'");
}

#[test]
fn structures_that_are_not_closed() {
    assert_eq!(read("o {").unwrap_err().msg, "Expected '}' but found End-of-File");
    assert_eq!(read("t [ a { }").unwrap_err().msg, "Expected ']' but found End-of-File");
    assert_eq!(read("o {").unwrap_err().code, 151);
}

#[test]
fn the_end_where_a_token_is_needed() {
    let err = read_tokens(vec![tok(TokVal::Name("a"))]).unwrap_err();
    assert_eq!((err.code, err.msg.as_str()), (155, "Unexpected End-of-file"));
    let err = read_tokens(vec![tok(TokVal::Name("a")), tok(TokVal::Equals)]).unwrap_err();
    assert_eq!((err.code, err.msg.as_str()), (154, "Unexpected End-of-file"));
    let err = read_tokens(vec![tok(TokVal::Name("a")), tok(TokVal::Equals), tok(TokVal::Dollar)]).unwrap_err();
    assert_eq!((err.code, err.msg.as_str()), (151, "Expected name but found End-of-File"));
    let err = read_tokens(vec![tok(TokVal::Name("a")), tok(TokVal::Equals), tok(TokVal::LParen), tok(TokVal::Integer(1))])
        .unwrap_err();
    assert_eq!(err.code, 154);
    let err = read_tokens(vec![tok(TokVal::Name("a")), tok(TokVal::Plus), tok(TokVal::Name("b"))]).unwrap_err();
    assert_eq!(err.code, 154);
    let err = read_tokens(vec![tok(TokVal::Name("a")), tok(TokVal::Comma), tok(TokVal::Name("b"))]).unwrap_err();
    assert_eq!(err.code, 154);
    let err = read_tokens(vec![tok(TokVal::Name("a")), tok(TokVal::LBrace)]).unwrap_err();
    assert_eq!(err.code, 151);
}

#[test]
fn productions_that_are_not_read_yet() {
    let err = read("a * { }").unwrap_err();
    assert_eq!((err.code, err.msg.as_str()), (1, "Internal Error: Unimplemented"));
    assert!(err.token.is_none());
    let err = read("a $ b").unwrap_err();
    assert_eq!((err.code, err.msg.as_str()), (1, "Internal Error: Unimplemented"));
}

#[test]
fn a_closing_delimiter_that_nothing_opened() {
    let err = read("a = 1; } b = 2").unwrap_err();
    assert_eq!((err.code, err.msg.as_str()), (153, "Expected Struct"));
    let tok = err.token.unwrap();
    assert!(matches!(tok.val, TokVal::RBrace));
    assert_eq!((tok.lno, tok.col), (1, 8));
    assert_eq!(err.hint.unwrap(), format!("Found {:?}", tok));
    let err = read("a = 1\n}\nb = 2").unwrap_err();
    assert_eq!(err.code, 153);
    assert_eq!(err.token.unwrap().lno, 2);
    assert_eq!(read("]").unwrap_err().code, 153);
    assert_eq!(read("o { }\n%}").unwrap_err().code, 153);
    assert_eq!(read("o { } }").unwrap_err().code, 153);
}

#[test]
fn a_name_declared_on_both_sides_of_a_merge() {
    let err = read("a { b; }\na { b; }").unwrap_err();
    assert_eq!((err.code, err.msg.as_str()), (162, "Entry b redefined with no new data"));
    assert_eq!(err.hint.as_deref(), Some("Remove this redefinition"));
    let err = read("t [ x\n ]\nt [ y\n x\n ]").unwrap_err();
    assert_eq!((err.code, err.msg.as_str()), (162, "Entry x redefined with no new data"));
}

#[test]
fn no_tokens_are_an_empty_object() {
    let root = read_tokens(Vec::new()).unwrap();
    let (entries, props) = object(&root);
    assert_eq!((entries.len(), props.len()), (0, 0));
    let root = read("\n\n;;\n").unwrap();
    let (entries, props) = object(&root);
    assert_eq!((entries.len(), props.len()), (0, 0));
}

#[test]
fn items_on_one_line() {
    let root = read("a { } b [ ] c = 1 d = 2").unwrap();
    let (entries, props) = object(&root);
    assert_eq!(names(entries), ["a", "b"]);
    assert_eq!(keys(props), ["c", "d"]);
}

#[test]
fn the_first_error_ends_the_parse() {
    let err = read("a = ;\nt [ k = 1 ]").unwrap_err();
    assert_eq!(err.code, 158);
    assert_eq!(err.token.unwrap().lno, 1);
}

#[test]
fn a_long_text() {
    let mut input = String::new();
    for i in 0..20000 {
        input.push_str(&format!("entry_{} {{ number = {}; text = \"é{}\"; pair = ({}, 0.5) }}\n", i, i, i, i));
    }
    let root = read(&input).unwrap();
    let (entries, props) = object(&root);
    assert_eq!((entries.len(), props.len()), (20000, 0));
    let last = object(entry(entries, "entry_19999")).1;
    assert!(matches!(&last["number"], Value::Int(19999)));
    assert!(matches!(&last["text"], Value::Str(s) if s == "é19999"));
    let (lines, _) = tokenise(&input);
    assert_eq!(lines.len(), 20000);
    assert_eq!(lines[19999].1 + 1, input.len());
}
