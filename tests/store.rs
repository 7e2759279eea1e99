use orbtk_core::store::{Entity, Kind, PropertyError, PropertyStore, Value};

fn name(s: &str) -> String {
    String::from(s)
}

fn text(s: &str) -> Vec<char> {
    s.chars().collect()
}

fn read_text(store: &PropertyStore, e: Entity, n: &str) -> Result<Vec<char>, PropertyError> {
    match store.get(e, &name(n), Kind::Text) {
        Ok(Value::Text(t)) => Ok(t.clone()),
        Ok(_) => panic!("not a text value"),
        Err(x) => Err(x),
    }
}

#[test]
fn set_then_get_returns_value() {
    let mut store = PropertyStore::new();
    let e = store.create();
    assert_eq!(e, Entity(0));
    assert_eq!(store.set(e, name("count"), Value::Int(7)), Ok(()));
    match store.get(e, &name("count"), Kind::Int) {
        Ok(Value::Int(7)) => {}
        other => panic!("unexpected {:?}", other),
    }
    assert_eq!(store.set(e, name("count"), Value::Int(-3)), Ok(()));
    match store.get(e, &name("count"), Kind::Int) {
        Ok(Value::Int(-3)) => {}
        other => panic!("unexpected {:?}", other),
    }
}

#[test]
fn alias_reads_source_after_set() {
    let mut store = PropertyStore::new();
    let e1 = store.create();
    let e2 = store.create();
    assert_eq!(store.set(e1, name("text"), Value::Text(text("a"))), Ok(()));
    assert_eq!(store.bind(e2, name("text"), e1, name("text")), Ok(()));
    assert_eq!(store.set(e1, name("text"), Value::Text(text("hello"))), Ok(()));
    assert_eq!(read_text(&store, e2, "text"), Ok(text("hello")));
}

#[test]
fn write_through_alias_reaches_source() {
    let mut store = PropertyStore::new();
    let e1 = store.create();
    let e2 = store.create();
    assert_eq!(store.set(e1, name("mask"), Value::Text(text(""))), Ok(()));
    assert_eq!(store.bind(e2, name("text"), e1, name("mask")), Ok(()));
    assert_eq!(store.set(e2, name("text"), Value::Text(text("**"))), Ok(()));
    assert_eq!(read_text(&store, e1, "mask"), Ok(text("**")));
    assert_eq!(read_text(&store, e2, "text"), Ok(text("**")));
}

#[test]
fn clone_is_detached_from_later_writes() {
    let mut store = PropertyStore::new();
    let e = store.create();
    assert_eq!(store.set(e, name("echo"), Value::Char('*')), Ok(()));
    let copy = store.clone(e, &name("echo"), Kind::Char).unwrap();
    assert_eq!(store.set(e, name("echo"), Value::Char('#')), Ok(()));
    match copy {
        Value::Char('*') => {}
        other => panic!("unexpected {:?}", other),
    }
    match store.get(e, &name("echo"), Kind::Char) {
        Ok(Value::Char('#')) => {}
        other => panic!("unexpected {:?}", other),
    }
}

#[test]
fn removed_source_dangles() {
    let mut store = PropertyStore::new();
    let e1 = store.create();
    let e2 = store.create();
    assert_eq!(store.set(e1, name("font"), Value::Text(text("Roboto"))), Ok(()));
    assert_eq!(store.bind(e2, name("font"), e1, name("font")), Ok(()));
    store.remove(e1);
    assert!(!store.contains(e1));
    assert_eq!(read_text(&store, e2, "font"), Err(PropertyError::DanglingReference));
    assert_eq!(read_text(&store, e1, "font"), Err(PropertyError::DanglingReference));
}

#[test]
fn missing_property_is_not_found() {
    let mut store = PropertyStore::new();
    let e = store.create();
    assert_eq!(read_text(&store, e, "text"), Err(PropertyError::PropertyNotFound));
    let e2 = store.create();
    assert_eq!(store.bind(e2, name("text"), e, name("text")), Ok(()));
    assert_eq!(read_text(&store, e2, "text"), Err(PropertyError::PropertyNotFound));
}

#[test]
fn wrong_kind_is_type_mismatch() {
    let mut store = PropertyStore::new();
    let e = store.create();
    assert_eq!(store.set(e, name("focused"), Value::Bool(true)), Ok(()));
    assert_eq!(read_text(&store, e, "focused"), Err(PropertyError::TypeMismatch));
    assert_eq!(store.set(e, name("focused"), Value::Int(1)), Err(PropertyError::TypeMismatch));
    match store.get(e, &name("focused"), Kind::Bool) {
        Ok(Value::Bool(true)) => {}
        other => panic!("unexpected {:?}", other),
    }
}

#[test]
fn reference_to_later_entity_resolves() {
    let mut store = PropertyStore::new();
    let e1 = store.create();
    let e2 = store.create();
    assert_eq!(store.set(e2, name("text"), Value::Text(text("x"))), Ok(()));
    assert_eq!(store.bind(e1, name("text"), e2, name("text")), Ok(()));
    assert_eq!(read_text(&store, e1, "text"), Ok(text("x")));
    assert_eq!(store.set(e2, name("text"), Value::Text(text("yz"))), Ok(()));
    assert_eq!(read_text(&store, e1, "text"), Ok(text("yz")));
}

#[test]
fn reference_cycle_dangles() {
    let mut store = PropertyStore::new();
    let e1 = store.create();
    let e2 = store.create();
    assert_eq!(store.bind(e1, name("text"), e2, name("text")), Ok(()));
    assert_eq!(store.bind(e2, name("text"), e1, name("text")), Ok(()));
    assert_eq!(read_text(&store, e1, "text"), Err(PropertyError::DanglingReference));
    assert_eq!(store.set(e2, name("text"), Value::Text(text("a"))), Err(PropertyError::DanglingReference));
}

#[test]
fn chain_of_references_resolves() {
    let mut store = PropertyStore::new();
    let e1 = store.create();
    let e2 = store.create();
    let e3 = store.create();
    assert_eq!(store.set(e3, name("mask"), Value::Text(text("**"))), Ok(()));
    assert_eq!(store.bind(e2, name("text"), e3, name("mask")), Ok(()));
    assert_eq!(store.bind(e1, name("shown"), e2, name("text")), Ok(()));
    assert_eq!(read_text(&store, e1, "shown"), Ok(text("**")));
}

#[test]
fn set_on_missing_entity_dangles() {
    let mut store = PropertyStore::new();
    assert_eq!(store.set(Entity(3), name("text"), Value::Bool(false)), Err(PropertyError::DanglingReference));
    assert_eq!(store.bind(Entity(3), name("text"), Entity(0), name("text")), Err(PropertyError::DanglingReference));
    assert_eq!(store.len(), 0);
}

#[test]
fn chain_within_one_entity_resolves() {
    let mut store = PropertyStore::new();
    let e = store.create();
    assert_eq!(store.bind(e, name("a"), e, name("b")), Ok(()));
    assert_eq!(store.bind(e, name("b"), e, name("c")), Ok(()));
    assert_eq!(store.set(e, name("c"), Value::Text(text("v"))), Ok(()));
    assert_eq!(read_text(&store, e, "a"), Ok(text("v")));
}

#[test]
fn alias_through_longer_chain_reads_source() {
    let mut store = PropertyStore::new();
    let e0 = store.create();
    let e1 = store.create();
    assert_eq!(store.bind(e0, name("p"), e0, name("q")), Ok(()));
    assert_eq!(store.bind(e0, name("q"), e0, name("r")), Ok(()));
    assert_eq!(store.set(e0, name("r"), Value::Text(text("old"))), Ok(()));
    assert_eq!(store.bind(e1, name("p"), e0, name("p")), Ok(()));
    assert_eq!(store.set(e0, name("p"), Value::Text(text("new"))), Ok(()));
    assert_eq!(read_text(&store, e1, "p"), Ok(text("new")));
    assert_eq!(read_text(&store, e0, "r"), Ok(text("new")));
}

#[test]
fn names_value_is_copied() {
    let mut store = PropertyStore::new();
    let e = store.create();
    let list = vec![name("text"), name("mask")];
    assert_eq!(store.set(e, name("filter"), Value::Names(list)), Ok(()));
    match store.clone(e, &name("filter"), Kind::Names) {
        Ok(Value::Names(ns)) => assert_eq!(ns, vec![name("text"), name("mask")]),
        other => panic!("unexpected {:?}", other),
    }
    assert_eq!(read_text(&store, e, "filter"), Err(PropertyError::TypeMismatch));
}
