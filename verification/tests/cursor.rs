use jacl::grammar::Gate;
use jacl::parser::{
    parse_compound_entry, parse_empty_entry, parse_inner, parse_multiple_binding, parse_rhs, parse_rval,
    parse_single_binding, parse_single_entry, parse_struct, parse_val, Parser, RValue,
};
use jacl::tokeniser::{TokVal, Token};
use jacl::types::{Entries, Props, Struct, Value};

fn tokens(vals: &[TokVal<'static>]) -> Vec<Token<'static>> {
    vals.iter().enumerate().map(|(i, v)| Token::new(*v, i, i, 1, i + 1, 1)).collect()
}

fn empty_object() -> Struct {
    Struct::Object { entries: Entries::new(), props: Props::new() }
}

#[test]
fn the_cursor_looks_ahead() {
    let lines = Vec::new();
    let p = Parser::new("", &lines, tokens(&[TokVal::Name("a"), TokVal::Equals, TokVal::Integer(1)]));
    assert!(matches!(p.cur().unwrap().val, TokVal::Name("a")));
    assert!(matches!(p.cur_expect().unwrap().val, TokVal::Name("a")));
    assert!(matches!(p.peek(0).unwrap().val, TokVal::Name("a")));
    assert!(matches!(p.nxt().unwrap().val, TokVal::Equals));
    assert!(matches!(p.nxt_expect().unwrap().val, TokVal::Equals));
    assert!(matches!(p.peek(2).unwrap().val, TokVal::Integer(1)));
    assert!(matches!(p.peek_expect(2).unwrap().val, TokVal::Integer(1)));
    assert!(p.peek(3).is_none());
    assert!(p.peek(usize::MAX).is_none());
    assert_eq!(p.peek_expect(3).unwrap_err().code, 155);
}

#[test]
fn the_cursor_moves_on() {
    let lines = Vec::new();
    let mut p = Parser::new("", &lines, tokens(&[TokVal::Name("a"), TokVal::Equals, TokVal::Integer(1)]));
    assert!(matches!(p.step().unwrap().val, TokVal::Equals));
    assert!(matches!(p.step_expect().unwrap().val, TokVal::Integer(1)));
    assert!(p.step().is_none());
    assert!(p.cur().is_none());
    assert_eq!(p.cur_expect().unwrap_err().code, 154);
    assert_eq!(p.nxt_expect().unwrap_err().code, 155);
    assert!(p.step().is_none());
    assert!(p.advance(40).is_none());
    assert!(p.peek(0).is_none());
    assert!(p.peek(usize::MAX).is_none());
    let mut p = Parser::new("", &lines, tokens(&[TokVal::Name("a"), TokVal::Equals, TokVal::Integer(1)]));
    assert!(matches!(p.advance(2).unwrap().val, TokVal::Integer(1)));
    assert!(matches!(p.advance(0).unwrap().val, TokVal::Integer(1)));
    assert_eq!(p.advance_expect(1).unwrap_err().code, 154);
    let mut p = Parser::new("", &lines, tokens(&[TokVal::Name("a"), TokVal::Equals]));
    assert!(matches!(p.advance_expect(1).unwrap().val, TokVal::Equals));
    assert_eq!(p.step_expect().unwrap_err().code, 154);
}

#[test]
fn the_cursor_asks_for_a_kind_of_token() {
    let lines = Vec::new();
    let all = [
        (Gate::Name, TokVal::Name("n")),
        (Gate::Equals, TokVal::Equals),
        (Gate::LBrace, TokVal::LBrace),
        (Gate::RBrace, TokVal::RBrace),
        (Gate::LBrack, TokVal::LBrack),
        (Gate::RBrack, TokVal::RBrack),
        (Gate::LBracePct, TokVal::LBracePct),
        (Gate::RBracePct, TokVal::RBracePct),
    ];
    for (i, (gate, _)) in all.iter().enumerate() {
        for (j, (_, val)) in all.iter().enumerate() {
            let mut p = Parser::new("", &lines, tokens(&[*val, TokVal::Break]));
            let r = p.expect(*gate, "this");
            assert_eq!(r.is_ok(), i == j);
            assert!(matches!(p.cur().unwrap().val, TokVal::Break));
            if let Err(e) = r {
                assert_eq!((e.code, e.msg.as_str()), (150, "Expected this"));
                assert_eq!(e.hint.unwrap(), format!("Found {:?}", e.token.unwrap()));
            }
        }
    }
    let mut p = Parser::new("", &lines, Vec::new());
    let e = p.expect(Gate::Name, "a name").unwrap_err();
    assert_eq!((e.code, e.msg.as_str()), (151, "Expected a name but found End-of-File"));
}

#[test]
fn the_cursor_skips_breaks() {
    let lines = Vec::new();
    let mut p = Parser::new("", &lines, tokens(&[TokVal::Break, TokVal::Break, TokVal::Comma, TokVal::Break]));
    p.allow_break();
    assert!(matches!(p.cur().unwrap().val, TokVal::Comma));
    p.allow_break();
    assert!(matches!(p.cur().unwrap().val, TokVal::Comma));
    p.step();
    p.allow_break();
    assert!(p.cur().is_none());
    p.allow_break();
    assert!(p.cur().is_none());
}

#[test]
fn productions_from_the_cursor_on() {
    let lines = Vec::new();
    let mut p = Parser::new(
        "",
        &lines,
        tokens(&[TokVal::Integer(4), TokVal::LBrack, TokVal::RBrack, TokVal::String("s"), TokVal::LBracePct, TokVal::RBracePct]),
    );
    assert!(matches!(parse_val(&mut p), Ok(Value::Int(4))));
    assert!(matches!(parse_rval(&mut p), Ok(RValue::Struct(Struct::Table { .. }))));
    assert!(matches!(parse_rval(&mut p), Ok(RValue::Value(Value::Str(s))) if s == "s"));
    assert!(matches!(parse_struct(&mut p), Ok(Struct::Mapping { .. })));
    assert!(p.cur().is_none());
    assert_eq!(parse_struct(&mut p).unwrap_err().code, 154);
    assert_eq!(parse_val(&mut p).unwrap_err().code, 154);
    assert_eq!(parse_rval(&mut p).unwrap_err().code, 154);
}

#[test]
fn productions_entered_on_the_wrong_token() {
    let lines = Vec::new();
    let mut p = Parser::new("", &lines, tokens(&[TokVal::Integer(1), TokVal::Equals, TokVal::Integer(1)]));
    let mut s = empty_object();
    let e = parse_single_binding(&mut p, &mut s).unwrap_err();
    assert_eq!((e.code, e.msg.as_str()), (1, "Internal Parser Error: TokVal was not Name"));
    let e = parse_single_entry(&mut p, &mut s).unwrap_err();
    assert_eq!((e.code, e.msg.as_str()), (1, "Internal Parser Error: TokVal was not Name"));
    let e = parse_empty_entry(&mut p, &mut s).unwrap_err();
    assert_eq!((e.code, e.msg.as_str()), (1, "Internal Parser Error: TokVal was not Name"));
    assert!(matches!(p.cur().unwrap().val, TokVal::Integer(1)));
}

fn names_of(s: &Struct) -> Vec<String> {
    let entries = match s {
        Struct::Object { entries, .. } => entries,
        Struct::Table { entries } => entries,
        Struct::Mapping { .. } => return Vec::new(),
    };
    (0..entries.len()).map(|i| entries.get_index(i).unwrap().0.clone()).collect()
}

fn props_of(s: &Struct) -> Vec<String> {
    match s {
        Struct::Object { props, .. } => props.keys().cloned().collect(),
        Struct::Mapping { props } => props.keys().cloned().collect(),
        Struct::Table { .. } => Vec::new(),
    }
}

fn object_with(name: &str, held: Option<Struct>, prop: &str) -> Struct {
    let mut entries = Entries::new();
    entries.insert(String::from(name), held);
    let mut props = Props::new();
    props.insert(String::from(prop), Value::Int(1));
    Struct::Object { entries, props }
}

#[test]
fn the_cursor_after_a_token_that_is_not_admitted() {
    let lines = Vec::new();
    let mut p = Parser::new("", &lines, tokens(&[TokVal::Equals, TokVal::Comma]));
    assert_eq!(p.expect(Gate::Name, "name").unwrap_err().code, 150);
    assert!(matches!(p.cur().unwrap().val, TokVal::Comma));
    assert_eq!(p.expect(Gate::Name, "name").unwrap_err().code, 150);
    assert!(p.cur().is_none());
    assert_eq!(p.expect(Gate::Name, "name").unwrap_err().code, 151);
    assert!(p.cur().is_none());
    assert!(p.peek(0).is_none());
}

#[test]
fn the_cursor_moves_on_in_every_case() {
    let lines = Vec::new();
    let mut p = Parser::new("", &lines, tokens(&[TokVal::Equals, TokVal::Comma, TokVal::Break]));
    let mut q = Parser::new("", &lines, tokens(&[TokVal::Equals, TokVal::Comma, TokVal::Break]));
    for moved in 1..6 {
        let r = p.expect(Gate::Equals, "'='");
        assert_eq!(r.is_ok(), moved == 1);
        if moved > 3 {
            assert_eq!(r.unwrap_err().code, 151);
        }
        q.step();
        for n in 0..4 {
            assert_eq!(p.peek(n).is_some(), moved + n < 3);
            assert_eq!(q.peek(n).is_some(), moved + n < 3);
        }
    }
}

#[test]
fn a_binding_that_fails_leaves_the_structure() {
    let lines = Vec::new();
    for rhs in [&[TokVal::Integer(1)][..], &[TokVal::LBrace, TokVal::RBrace][..]] {
        let mut toks = vec![TokVal::Equals];
        toks.extend_from_slice(rhs);
        let mut p = Parser::new("", &lines, tokens(&toks));
        let mut table = Struct::Table { entries: Entries::new() };
        let e = parse_rhs(&mut p, &mut table, vec![String::from("k")]).unwrap_err();
        assert_eq!(e.code, 157);
        assert!(names_of(&table).is_empty());
    }
    let mut p = Parser::new("", &lines, tokens(&[TokVal::Equals, TokVal::LBrace, TokVal::RBrace]));
    let mut map = Struct::Mapping { props: Props::new() };
    let e = parse_rhs(&mut p, &mut map, vec![String::from("k")]).unwrap_err();
    assert_eq!(e.code, 156);
    assert!(props_of(&map).is_empty());
    let mut p = Parser::new("", &lines, tokens(&[TokVal::Equals, TokVal::RParen]));
    let mut object = empty_object();
    assert_eq!(parse_rhs(&mut p, &mut object, vec![String::from("k")]).unwrap_err().code, 158);
    assert!(props_of(&object).is_empty());
    let mut p = Parser::new(
        "",
        &lines,
        tokens(&[TokVal::Name("a"), TokVal::Comma, TokVal::Name("b"), TokVal::Name("c"), TokVal::Equals, TokVal::Integer(3)]),
    );
    let e = parse_multiple_binding(&mut p, &mut object).unwrap_err();
    assert_eq!(e.code, 163);
    assert!(matches!(e.token.unwrap().val, TokVal::Name("c")));
    assert!(props_of(&object).is_empty());
}

#[test]
fn a_declaration_that_fails_leaves_the_structure() {
    let lines = Vec::new();
    let mut p = Parser::new("", &lines, tokens(&[TokVal::Name("x"), TokVal::Break]));
    let mut s = object_with("x", None, "p");
    let e = parse_empty_entry(&mut p, &mut s).unwrap_err();
    assert_eq!(e.code, 162);
    assert!(matches!(e.token.unwrap().val, TokVal::Name("x")));
    assert!(matches!(p.cur().unwrap().val, TokVal::Break));
    assert_eq!(names_of(&s), ["x"]);
    assert_eq!(props_of(&s), ["p"]);
    let mut p = Parser::new("", &lines, tokens(&[TokVal::Name("y"), TokVal::Break]));
    parse_empty_entry(&mut p, &mut s).unwrap();
    assert_eq!(names_of(&s), ["x", "y"]);
    assert!(matches!(p.cur().unwrap().val, TokVal::Break));
    let mut p = Parser::new("", &lines, tokens(&[TokVal::Name("y"), TokVal::Break]));
    let mut map = Struct::Mapping { props: Props::new() };
    assert_eq!(parse_empty_entry(&mut p, &mut map).unwrap_err().code, 156);
    assert!(matches!(p.cur().unwrap().val, TokVal::Name("y")));
}

#[test]
fn an_entry_that_fails_leaves_the_structure() {
    let lines = Vec::new();
    let literal = [TokVal::Name("x"), TokVal::LBrack, TokVal::RBrack, TokVal::Break];
    let mut p = Parser::new("", &lines, tokens(&literal));
    let mut map = Struct::Mapping { props: Props::new() };
    assert_eq!(parse_single_entry(&mut p, &mut map).unwrap_err().code, 156);
    assert!(props_of(&map).is_empty());
    assert!(matches!(p.cur().unwrap().val, TokVal::Name("x")));
    let mut p = Parser::new("", &lines, tokens(&literal));
    let mut s = object_with("x", Some(empty_object()), "p");
    let e = parse_single_entry(&mut p, &mut s).unwrap_err();
    assert_eq!((e.code, e.msg.as_str()), (161, "Entry x already defined as Object"));
    assert_eq!(names_of(&s), ["x"]);
    let Struct::Object { entries, .. } = &s else { panic!("an object was expected") };
    assert!(matches!(entries.get("x"), Some(Some(Struct::Object { .. }))));
    let mut p = Parser::new("", &lines, tokens(&[TokVal::Name("x"), TokVal::Integer(1)]));
    assert_eq!(parse_single_entry(&mut p, &mut s).unwrap_err().code, 153);
    assert_eq!(names_of(&s), ["x"]);
}

#[test]
fn a_merge_that_fails_further_in_leaves_what_it_merged() {
    let lines = Vec::new();
    let mut inner = Entries::new();
    inner.insert(String::from("i"), Some(Struct::Table { entries: Entries::new() }));
    let mut s = Struct::Object { entries: Entries::new(), props: Props::new() };
    if let Struct::Object { entries, .. } = &mut s {
        entries.insert(String::from("o"), Some(Struct::Object { entries: inner, props: Props::new() }));
    }
    let toks = [
        TokVal::Name("o"),
        TokVal::LBrace,
        TokVal::Name("n"),
        TokVal::LBrace,
        TokVal::RBrace,
        TokVal::Name("i"),
        TokVal::LBrace,
        TokVal::RBrace,
        TokVal::Name("k"),
        TokVal::Equals,
        TokVal::Integer(2),
        TokVal::RBrace,
        TokVal::Break,
    ];
    let mut p = Parser::new("", &lines, tokens(&toks));
    let e = parse_single_entry(&mut p, &mut s).unwrap_err();
    assert_eq!((e.code, e.msg.as_str()), (160, "Entry i already defined as Table"));
    assert_eq!(names_of(&s), ["o"]);
    let Struct::Object { entries, .. } = &s else { panic!("an object was expected") };
    let o = entries.get("o").unwrap().as_ref().unwrap();
    assert_eq!(names_of(o), ["i", "n"]);
    assert_eq!(props_of(o), ["k"]);
    let Struct::Object { entries, .. } = o else { panic!("an object was expected") };
    assert!(matches!(entries.get("i"), Some(Some(Struct::Table { .. }))));
}

#[test]
fn a_compound_entry_that_fails_leaves_the_names_before() {
    let lines = Vec::new();
    let toks = [TokVal::Name("a"), TokVal::Plus, TokVal::Name("x"), TokVal::Plus, TokVal::Name("b"), TokVal::LBrack, TokVal::RBrack, TokVal::Break];
    let mut p = Parser::new("", &lines, tokens(&toks));
    let mut s = object_with("x", Some(empty_object()), "p");
    let e = parse_compound_entry(&mut p, &mut s).unwrap_err();
    assert_eq!(e.code, 161);
    assert_eq!(names_of(&s), ["x", "a"]);
    let mut p = Parser::new("", &lines, tokens(&[TokVal::Name("a"), TokVal::Plus, TokVal::Integer(1)]));
    assert_eq!(parse_compound_entry(&mut p, &mut s).unwrap_err().code, 150);
    assert_eq!(names_of(&s), ["x", "a"]);
}

#[test]
fn a_body_that_fails_leaves_the_items_before() {
    let lines = Vec::new();
    let toks = [TokVal::Name("a"), TokVal::Equals, TokVal::Integer(1), TokVal::Break, TokVal::Name("w"), TokVal::Star];
    let mut p = Parser::new("", &lines, tokens(&toks));
    let mut s = empty_object();
    let e = parse_inner(&mut p, &mut s).unwrap_err();
    assert_eq!((e.code, e.msg.as_str()), (1, "Internal Error: Unimplemented"));
    assert_eq!(props_of(&s), ["a"]);
    assert!(names_of(&s).is_empty());
    let mut p = Parser::new("", &lines, tokens(&[TokVal::Break, TokVal::Name("w"), TokVal::Dollar]));
    let mut s = object_with("x", None, "p");
    assert_eq!(parse_inner(&mut p, &mut s).unwrap_err().code, 1);
    assert_eq!((names_of(&s), props_of(&s)), (vec![String::from("x")], vec![String::from("p")]));
}

#[test]
fn where_no_structure_begins_the_cursor_stays() {
    let lines = Vec::new();
    let mut p = Parser::new("", &lines, tokens(&[TokVal::Integer(1), TokVal::LBrace]));
    assert_eq!(parse_struct(&mut p).unwrap_err().code, 153);
    assert!(matches!(p.cur().unwrap().val, TokVal::Integer(1)));
    p.step();
    assert_eq!(parse_struct(&mut p).unwrap_err().code, 151);
}

#[test]
fn a_merge_of_two_kinds_leaves_the_structure() {
    let lines = Vec::new();
    let p = Parser::new("", &lines, tokens(&[TokVal::Break]));
    let mut s = object_with("x", None, "p");
    let e = s.extend(&p, "n", Struct::Table { entries: Entries::new() }).unwrap_err();
    assert_eq!((e.code, e.msg.as_str()), (161, "Entry n already defined as Object"));
    assert_eq!((names_of(&s), props_of(&s)), (vec![String::from("x")], vec![String::from("p")]));
    let mut m = Struct::Mapping { props: Props::new() };
    let e = m.extend(&p, "n", Struct::Mapping { props: Props::new() }).unwrap_err();
    assert_eq!(e.code, 159);
    assert!(matches!(m, Struct::Mapping { .. }));
    let mut other = object_with("x", None, "q");
    let e = s.extend(&p, "n", other.clone()).unwrap_err();
    assert_eq!(e.code, 162);
    assert_eq!(props_of(&s), ["p", "q"]);
    if let Struct::Object { entries, .. } = &mut other {
        *entries = Entries::new();
    }
    s.extend(&p, "n", other).unwrap();
    assert_eq!((names_of(&s), props_of(&s)), (vec![String::from("x")], vec![String::from("p"), String::from("q")]));
}
