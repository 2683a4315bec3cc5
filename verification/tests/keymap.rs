use bazed_core::input_event::Key;
use bazed_core::input_event::KeyInput;
use bazed_core::input_event::Modifiers;
use bazed_core::input_event::RawKey;
use bazed_core::key_combo::Combo;
use bazed_core::key_combo::KeySpec;
use bazed_core::keymap::input_is_printable;
use bazed_core::keymap::Keymap;
use bazed_core::keymap::KeymapNode;
use bazed_core::mapper::InputMapper;
use bazed_core::mapper::KeymapId;
use bazed_core::mapper::MapperError;

fn key(k: &str) -> Combo {
    Combo::new(KeySpec::Raw(k.into()))
}

fn translated_key(k: &str) -> Combo {
    Combo::new(KeySpec::Str(Key(k.to_string())))
}

fn leaf(description: &str, value: u32) -> KeymapNode<u32> {
    KeymapNode::Leaf(description.to_string(), value)
}

fn press(modifiers: Modifiers, key: &str, code: &str) -> KeyInput {
    KeyInput {
        modifiers,
        key: Key(key.to_string()),
        code: code.into(),
    }
}

fn value(node: Option<&KeymapNode<u32>>) -> Option<u32> {
    match node {
        Some(KeymapNode::Leaf(_, value)) => Some(*value),
        _ => None,
    }
}

#[test]
fn raw_combos_need_the_exact_modifiers() {
    let keymap = Keymap::new_from_map(vec![
        (key("h"), leaf("left", 1)),
        (key("r").with_mods(Modifiers::ctrl()), leaf("redo", 2)),
    ]);
    assert_eq!(Some(1), value(keymap.node_at_input(&press(Modifiers::empty(), "h", "h"))));
    assert_eq!(None, value(keymap.node_at_input(&press(Modifiers::ctrl(), "h", "h"))));
    assert_eq!(Some(2), value(keymap.node_at_input(&press(Modifiers::ctrl(), "r", "r"))));
    assert_eq!(None, value(keymap.node_at_input(&press(Modifiers::empty(), "r", "r"))));
}

#[test]
fn translated_combos_may_name_some_of_the_modifiers() {
    let keymap = Keymap::new_from_map(vec![
        (translated_key("$"), leaf("end of line", 1)),
        (translated_key("$").with_mods(Modifiers::ctrl()), leaf("other", 2)),
    ]);
    let shift = Modifiers::shift();
    assert_eq!(Some(1), value(keymap.node_at_input(&press(shift, "$", "4"))));
    // the subset without modifiers is tried first
    let both = Modifiers::shift().union(Modifiers::ctrl());
    assert_eq!(Some(1), value(keymap.node_at_input(&press(both, "$", "4"))));
}

#[test]
fn printable_inputs_fall_back() {
    let keymap = Keymap::new(
        vec![(key("Escape"), leaf("normal mode", 1))],
        Some(leaf("type", 9)),
    );
    assert_eq!(Some(9), value(keymap.node_at_input(&press(Modifiers::empty(), "a", "a"))));
    assert_eq!(Some(9), value(keymap.node_at_input(&press(Modifiers::shift(), "A", "a"))));
    assert_eq!(None, value(keymap.node_at_input(&press(Modifiers::ctrl(), "a", "a"))));
    assert_eq!(None, value(keymap.node_at_input(&press(Modifiers::empty(), "Enter", "Enter"))));
    assert_eq!(
        Some(1),
        value(keymap.node_at_input(&press(Modifiers::empty(), "Escape", "Escape")))
    );
    assert!(input_is_printable(&press(Modifiers::shift(), "A", "a")));
    assert!(!input_is_printable(&press(Modifiers::alt(), "a", "a")));
}

#[test]
fn later_mappings_of_a_combo_count() {
    let keymap = Keymap::new_from_map(vec![(key("x"), leaf("first", 1)), (key("x"), leaf("second", 2))]);
    assert_eq!(Some(2), value(keymap.lookup(&key("x"))));
    assert_eq!(1, keymap.descriptions().len());
    assert_eq!("second", keymap.descriptions()[0].1);
    assert_eq!("second", keymap.lookup(&key("x")).unwrap().description());
}

#[test]
fn merging_prefers_the_other_keymap() {
    let inner_a = Keymap::new_from_map(vec![(key("a"), leaf("a", 1)), (key("b"), leaf("b", 2))]);
    let inner_b = Keymap::new_from_map(vec![(key("b"), leaf("b2", 20)), (key("c"), leaf("c", 30))]);
    let a = Keymap::new(
        vec![
            (key("x"), leaf("x", 100)),
            (key("g"), KeymapNode::Submap("go".to_string(), Box::new(inner_a))),
            (key("l"), leaf("leaf", 5)),
        ],
        Some(leaf("type", 7)),
    );
    let b = Keymap::new_from_map(vec![
        (key("y"), leaf("y", 200)),
        (key("g"), KeymapNode::Submap("goto".to_string(), Box::new(inner_b))),
        (key("l"), leaf("other leaf", 6)),
    ]);
    let merged = a.merge(b);
    assert_eq!(Some(100), value(merged.lookup(&key("x"))));
    assert_eq!(Some(200), value(merged.lookup(&key("y"))));
    assert_eq!(Some(6), value(merged.lookup(&key("l"))));
    let none = Modifiers::empty();
    assert_eq!(Some(7), value(merged.node_at_input(&press(none, "q", "q"))));
    let g = press(none, "g", "g");
    assert_eq!("goto", merged.node_at_input(&g).unwrap().description());
    let path = |second: &str| vec![press(none, "g", "g"), press(none, second, second)];
    assert_eq!(Some(1), value(merged.node_at_path(&path("a"))));
    assert_eq!(Some(20), value(merged.node_at_path(&path("b"))));
    assert_eq!(Some(30), value(merged.node_at_path(&path("c"))));
    assert_eq!(None, value(merged.node_at_path(&path("d"))));
    assert!(merged.node_at_path(&[]).is_none());
    assert!(matches!(
        merged.node_at_path(&[press(none, "g", "g")]),
        Some(KeymapNode::Submap(_, _))
    ));
    // a chain ends early at a leaf
    let long = vec![press(none, "x", "x"), press(none, "a", "a")];
    assert_eq!(Some(100), value(merged.node_at_path(&long)));
}

#[test]
fn mapping_keeps_combos_and_descriptions() {
    let inner = Keymap::new_from_map(vec![(key("a"), leaf("a", 1))]);
    let keymap = Keymap::new(
        vec![
            (key("x"), leaf("x", 10)),
            (key("g"), KeymapNode::Submap("go".to_string(), Box::new(inner))),
        ],
        Some(leaf("type", 3)),
    );
    let doubled = keymap.map(&|v: u32| (v * 2).to_string());
    let none = Modifiers::empty();
    match doubled.lookup(&key("x")) {
        Some(KeymapNode::Leaf(description, value)) => {
            assert_eq!("x", description);
            assert_eq!("20", value);
        }
        _ => panic!("the leaf should stay a leaf"),
    }
    let path = vec![press(none, "g", "g"), press(none, "a", "a")];
    match doubled.node_at_path(&path) {
        Some(KeymapNode::Leaf(_, value)) => assert_eq!("2", value),
        _ => panic!("the submap should stay a submap"),
    }
    match doubled.node_at_input(&press(none, "q", "q")) {
        Some(KeymapNode::Leaf(_, value)) => assert_eq!("6", value),
        _ => panic!("the fallback should stay"),
    }
}

#[test]
fn mapper_follows_chains_of_inputs() {
    let inner = Keymap::new_from_map(vec![(key("g"), leaf("top", 1))]);
    let normal = Keymap::new_from_map(vec![
        (key("g"), KeymapNode::Submap("go".to_string(), Box::new(inner))),
        (key("x"), leaf("delete", 2)),
    ]);
    let insert = Keymap::new(vec![], Some(leaf("type", 3)));
    let id = |s: &str| KeymapId(s.to_string());
    let mut mapper = InputMapper::from_base_keymap(id("normal"), normal);
    let none = Modifiers::empty();
    assert!(matches!(
        mapper.on_input(press(none, "g", "g")),
        Some(KeymapNode::Submap(_, _))
    ));
    assert_eq!(Some(1), value(mapper.on_input(press(none, "g", "g"))));
    // the chain has ended: the next input starts anew
    assert_eq!(Some(2), value(mapper.on_input(press(none, "x", "x"))));
    assert!(mapper.on_input(press(none, "g", "g")).is_some());
    assert!(mapper.on_input(press(none, "q", "q")).is_none());
    assert_eq!(Some(2), value(mapper.on_input(press(none, "x", "x"))));

    assert!(matches!(
        mapper.push_keymap(id("insert")),
        Err(MapperError::KeymapNotRegistered(_))
    ));
    mapper.register_keymap(id("insert"), insert);
    assert!(mapper.push_keymap(id("insert")).is_ok());
    assert!(matches!(
        mapper.push_keymap(id("insert")),
        Err(MapperError::KeymapAlreadyAtTop)
    ));
    assert_eq!(Some(3), value(mapper.on_input(press(none, "x", "x"))));
    // the base keymap is never deactivated
    mapper.deactivate_keymap(id("normal"));
    assert_eq!(Some(3), value(mapper.on_input(press(none, "x", "x"))));
    mapper.deactivate_keymap(id("insert"));
    assert_eq!(Some(2), value(mapper.on_input(press(none, "x", "x"))));
    mapper.deactivate_keymap(id("normal"));
    assert_eq!(Some(2), value(mapper.on_input(press(none, "x", "x"))));
    assert_eq!(RawKey("KeyX".to_string()), RawKey::named("x"));
}
