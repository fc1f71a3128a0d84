use jacl::types::{Entries, Struct, Value};

fn empty_table() -> Struct {
    Struct::Table { entries: Entries::new() }
}

#[test]
fn entries_keep_the_order_of_insertion() {
    let mut e = Entries::new();
    assert_eq!(e.len(), 0);
    assert!(e.get("a").is_none());
    assert!(e.get_index(0).is_none());
    assert!(e.insert(String::from("b"), None).is_none());
    assert!(e.insert(String::from("a"), Some(empty_table())).is_none());
    assert_eq!(e.len(), 2);
    assert_eq!(e.get_index(0).unwrap().0, "b");
    assert_eq!(e.get_index(1).unwrap().0, "a");
    assert!(e.get_index(2).is_none());
    assert!(matches!(e.get("b"), Some(None)));
    assert!(matches!(e.get("a"), Some(Some(Struct::Table { .. }))));
}

#[test]
fn a_name_that_is_inserted_again_keeps_its_place() {
    let mut e = Entries::new();
    e.insert(String::from("b"), None);
    e.insert(String::from("a"), None);
    let old = e.insert(String::from("b"), Some(empty_table()));
    assert!(matches!(old, Some(None)));
    assert_eq!(e.len(), 2);
    assert_eq!(e.get_index(0).unwrap().0, "b");
    assert!(matches!(e.get_index(0).unwrap().1, Some(Struct::Table { .. })));
    let old = e.insert(String::from("b"), None);
    assert!(matches!(old, Some(Some(Struct::Table { .. }))));
    assert!(matches!(e.get("b"), Some(None)));
}

#[test]
fn a_copy_of_a_value() {
    let v = Value::Tuple(vec![
        Value::Key(String::from("k")),
        Value::Var(String::from("v")),
        Value::Foreign(String::from("f")),
        Value::Str(String::from("s")),
        Value::Int(-3),
        Value::Float(String::from("1.5")),
        Value::Bool(true),
        Value::Tuple(vec![Value::Int(1), Value::Tuple(Vec::new())]),
    ]);
    let Value::Tuple(items) = v.clone() else { panic!("a tuple was expected") };
    assert_eq!(items.len(), 8);
    assert!(matches!(&items[0], Value::Key(s) if s == "k"));
    assert!(matches!(&items[1], Value::Var(s) if s == "v"));
    assert!(matches!(&items[2], Value::Foreign(s) if s == "f"));
    assert!(matches!(&items[3], Value::Str(s) if s == "s"));
    assert!(matches!(&items[4], Value::Int(-3)));
    assert!(matches!(&items[5], Value::Float(s) if s == "1.5"));
    assert!(matches!(&items[6], Value::Bool(true)));
    let Value::Tuple(inner) = &items[7] else { panic!("a tuple was expected") };
    assert!(matches!(&inner[..], [Value::Int(1), Value::Tuple(t)] if t.is_empty()));
}

#[test]
fn a_copy_of_a_structure_is_its_own() {
    let mut entries = Entries::new();
    entries.insert(String::from("t"), Some(empty_table()));
    let mut props = jacl::types::Props::new();
    props.insert(String::from("p"), Value::Int(1));
    let mut original = Struct::Object { entries, props };
    let copy = original.clone();
    if let Struct::Object { entries, props } = &mut original {
        entries.insert(String::from("u"), None);
        props.insert(String::from("p"), Value::Int(2));
    }
    let Struct::Object { entries, props } = &copy else { panic!("an object was expected") };
    assert_eq!(entries.len(), 1);
    assert!(matches!(entries.get("t"), Some(Some(Struct::Table { .. }))));
    assert_eq!(props.len(), 1);
    assert!(matches!(&props["p"], Value::Int(1)));
}
