use orbtk_core::password_box::{mask_text, KeyEvent, PasswordAction, PasswordBox, PasswordBoxState};
use orbtk_core::store::{Entity, Kind, PropertyError, PropertyStore, Value};
use orbtk_core::world::World;

fn name(s: &str) -> String {
    String::from(s)
}

fn text(s: &str) -> Vec<char> {
    s.chars().collect()
}

fn read_text(world: &World, e: Entity, n: &str) -> Result<Vec<char>, PropertyError> {
    match world.store.get(e, &name(n), Kind::Text) {
        Ok(Value::Text(t)) => Ok(t.clone()),
        Ok(_) => panic!("not a text value"),
        Err(x) => Err(x),
    }
}

const KEY: KeyEvent = KeyEvent { key: 65, pressed: true };

#[test]
fn mask_text_gives_one_echo_per_character() {
    assert_eq!(mask_text(&text("pw12"), '*'), text("****"));
    assert_eq!(mask_text(&text(""), '*'), text(""));
    assert_eq!(mask_text(&text("héllo"), '#'), text("#####"));
}

#[test]
fn masking_after_key_event() {
    let mut world = World::new();
    let (id, parts) = PasswordBox::new().build(&mut world, None);
    assert_eq!(world.tick(), Ok(()));
    assert_eq!(world.store.set(id, name("text"), Value::Text(text("pw12"))), Ok(()));
    assert_eq!(read_text(&world, id, "mask"), Ok(text("")));
    assert!(!world.dispatch_key_down(id, KEY));
    assert_eq!(world.state(id).unwrap().action, Some(PasswordAction::Key(KEY)));
    assert_eq!(read_text(&world, id, "mask"), Ok(text("")));
    assert_eq!(world.tick(), Ok(()));
    assert_eq!(read_text(&world, id, "mask"), Ok(text("****")));
    assert_eq!(read_text(&world, parts.text_block, "text"), Ok(text("****")));
    assert_eq!(read_text(&world, parts.text_behavior, "text"), Ok(text("pw12")));
}

#[test]
fn key_bubbles_from_child_to_box() {
    let mut world = World::new();
    let (id, parts) = PasswordBox::new().text(text("abc")).build(&mut world, None);
    assert!(!world.dispatch_key_down(parts.cursor, KEY));
    assert_eq!(world.tick(), Ok(()));
    assert_eq!(read_text(&world, id, "mask"), Ok(text("***")));
}

#[test]
fn echo_is_copied_at_init() {
    let mut world = World::new();
    let (id, _) = PasswordBox::new().echo('#').text(text("ab")).build(&mut world, None);
    assert_eq!(world.state(id).unwrap().echo, '*');
    assert_eq!(world.tick(), Ok(()));
    assert_eq!(world.state(id).unwrap().echo, '#');
    assert_eq!(world.store.set(id, name("echo"), Value::Char('x')), Ok(()));
    world.dispatch_key_down(id, KEY);
    assert_eq!(world.tick(), Ok(()));
    assert_eq!(read_text(&world, id, "mask"), Ok(text("##")));
}

#[test]
fn update_without_action_changes_nothing() {
    let mut store = PropertyStore::new();
    let id = store.create();
    assert_eq!(store.set(id, name("text"), Value::Text(text("pw"))), Ok(()));
    assert_eq!(store.set(id, name("mask"), Value::Text(text(""))), Ok(()));
    let mut state = PasswordBoxState::new();
    state.action(PasswordAction::Key(KEY));
    assert_eq!(state.update(&mut store, id), Ok(()));
    assert_eq!(state.action, None);
    assert_eq!(store.set(id, name("text"), Value::Text(text("longer"))), Ok(()));
    assert_eq!(state.update(&mut store, id), Ok(()));
    match store.get(id, &name("mask"), Kind::Text) {
        Ok(Value::Text(t)) => assert_eq!(*t, text("**")),
        other => panic!("unexpected {:?}", other),
    }
}

#[test]
fn mask_without_text_fails() {
    let mut store = PropertyStore::new();
    let id = store.create();
    let mut state = PasswordBoxState::new();
    assert_eq!(state.mask(&mut store, id), Err(PropertyError::PropertyNotFound));
    assert_eq!(store.set(id, name("text"), Value::Int(4)), Ok(()));
    assert_eq!(state.mask(&mut store, id), Err(PropertyError::TypeMismatch));
}

#[test]
fn init_without_echo_fails() {
    let mut world = World::new();
    let id = world.create(None);
    let mut state = PasswordBoxState::new();
    assert_eq!(state.init(&world.store, id), Err(PropertyError::PropertyNotFound));
    assert_eq!(world.store.set(id, name("echo"), Value::Char('+')), Ok(()));
    assert_eq!(state.init(&world.store, id), Ok(()));
    assert_eq!(state.echo, '+');
}

#[test]
fn template_keeps_child_order_through_a_tick() {
    let mut world = World::new();
    let root = world.create(None);
    let (id, parts) = PasswordBox::new().build(&mut world, Some(root));
    assert_eq!(world.tree.children(root).clone(), vec![id]);
    assert_eq!(world.tree.children(id).clone(), vec![parts.text_behavior, parts.container]);
    assert_eq!(world.tree.children(parts.container).clone(), vec![parts.grid]);
    assert_eq!(world.tree.children(parts.grid).clone(), vec![parts.cursor, parts.text_block]);
    assert_eq!(world.tree.parent(parts.text_block), Some(parts.grid));
    assert_eq!(world.tick(), Ok(()));
    assert_eq!(world.tree.children(id).clone(), vec![parts.text_behavior, parts.container]);
    assert_eq!(world.tree.children(parts.grid).clone(), vec![parts.cursor, parts.text_block]);
}

#[test]
fn template_defaults() {
    let mut world = World::new();
    let (id, parts) = PasswordBox::new().build(&mut world, None);
    assert_eq!(read_text(&world, id, "water_mark"), Ok(text("Password")));
    assert_eq!(read_text(&world, parts.text_block, "water_mark"), Ok(text("Password")));
    assert_eq!(read_text(&world, parts.text_block, "font"), Ok(text("Roboto-Regular")));
    match world.store.get(id, &name("echo"), Kind::Char) {
        Ok(Value::Char('*')) => {}
        other => panic!("unexpected {:?}", other),
    }
    match world.store.get(parts.cursor, &name("text_block"), Kind::Entity) {
        Ok(Value::Entity(e)) => assert_eq!(*e, parts.text_block),
        other => panic!("unexpected {:?}", other),
    }
    match world.store.get(parts.grid, &name("clip"), Kind::Bool) {
        Ok(Value::Bool(true)) => {}
        other => panic!("unexpected {:?}", other),
    }
}

#[test]
fn removed_box_leaves_text_block_dangling() {
    let mut world = World::new();
    let (id, parts) = PasswordBox::new().build(&mut world, None);
    world.remove(id);
    assert_eq!(read_text(&world, parts.text_block, "text"), Err(PropertyError::DanglingReference));
    assert!(world.state(id).is_none());
}

#[test]
fn init_after_template_reads_default_echo() {
    let mut world = World::new();
    let (id, _) = PasswordBox::new().build(&mut world, None);
    let mut state = PasswordBoxState::new();
    state.echo = 'x';
    assert_eq!(state.init(&world.store, id), Ok(()));
    assert_eq!(state.echo, '*');
}

#[test]
fn box_text_from_later_entity_is_masked() {
    let mut world = World::new();
    let (id, _) = PasswordBox::new().build(&mut world, None);
    let source = world.create(None);
    world.store.set(source, name("text"), Value::Text(text("secret"))).unwrap();
    let mut state = PasswordBoxState::new();
    // the box's text now refers to the text of an entity created after it
    assert_eq!(world.store.bind(id, name("text"), source, name("text")), Ok(()));
    assert_eq!(state.mask(&mut world.store, id), Ok(()));
    assert_eq!(read_text(&world, id, "mask"), Ok(text("******")));
}

#[test]
fn template_binds_children_to_box() {
    let mut world = World::new();
    let (id, parts) = PasswordBox::new().water_mark(text("PIN")).build(&mut world, None);
    assert_eq!(parts.text_behavior, Entity(id.0 + 1));
    assert_eq!(parts.text_block, Entity(id.0 + 5));
    assert_eq!(world.store.set(id, name("font"), Value::Text(text("Mono"))), Ok(()));
    assert_eq!(read_text(&world, parts.text_block, "font"), Ok(text("Mono")));
    assert_eq!(read_text(&world, parts.text_behavior, "font"), Ok(text("Mono")));
    assert_eq!(read_text(&world, parts.text_block, "water_mark"), Ok(text("PIN")));
    assert_eq!(read_text(&world, parts.container, "border_brush"), Ok(text("transparent")));
    assert_eq!(world.store.set(id, name("mask"), Value::Text(text("***"))), Ok(()));
    assert_eq!(read_text(&world, parts.text_block, "text"), Ok(text("***")));
    match world.store.get(parts.text_behavior, &name("request_focus"), Kind::Bool) {
        Ok(Value::Bool(false)) => {}
        other => panic!("unexpected {:?}", other),
    }
    match world.store.get(parts.text_behavior, &name("target"), Kind::Entity) {
        Ok(Value::Entity(e)) => assert_eq!(*e, id),
        other => panic!("unexpected {:?}", other),
    }
    match world.store.get(id, &name("on_changed_filter"), Kind::Names) {
        Ok(Value::Names(ns)) => assert_eq!(*ns, vec![name("text"), name("mask")]),
        other => panic!("unexpected {:?}", other),
    }
    assert_eq!(world.store.set(id, name("text_selection_start"), Value::Int(2)), Ok(()));
    match world.store.get(parts.cursor, &name("text_selection_start"), Kind::Int) {
        Ok(Value::Int(2)) => {}
        other => panic!("unexpected {:?}", other),
    }
    match world.store.get(parts.text_behavior, &name("text_selection_length"), Kind::Int) {
        Ok(Value::Int(0)) => {}
        other => panic!("unexpected {:?}", other),
    }
    assert_eq!(world.store.set(id, name("focused"), Value::Bool(true)), Ok(()));
    match world.store.get(parts.cursor, &name("focused"), Kind::Bool) {
        Ok(Value::Bool(true)) => {}
        other => panic!("unexpected {:?}", other),
    }
}

#[test]
fn key_dispatch_touches_only_the_action() {
    let mut world = World::new();
    let (a, _) = PasswordBox::new().build(&mut world, None);
    let (b, _) = PasswordBox::new().echo('#').build(&mut world, None);
    assert_eq!(world.tick(), Ok(()));
    assert!(!world.dispatch_key_down(a, KEY));
    assert_eq!(world.state(a).unwrap().action, Some(PasswordAction::Key(KEY)));
    assert_eq!(world.state(a).unwrap().echo, '*');
    assert_eq!(world.state(b).unwrap().action, None);
    assert_eq!(world.state(b).unwrap().echo, '#');
}

#[test]
fn tick_stops_at_failed_init() {
    let mut world = World::new();
    let (id, _) = PasswordBox::new().build(&mut world, None);
    world.store.remove(id);
    assert_eq!(world.tick(), Err(PropertyError::DanglingReference));
}
