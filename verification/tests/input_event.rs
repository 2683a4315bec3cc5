use bazed_core::input_event::Key;
use bazed_core::input_event::KeyInput;
use bazed_core::input_event::Modifiers;
use bazed_core::input_event::RawKey;
use bazed_core::key_combo::Combo;
use bazed_core::key_combo::KeyInputParseError;
use bazed_core::key_combo::KeySpec;
use std::str::FromStr;

#[test]
fn test_key_string() {
    let key_string_examples = [
        "a", "A", "b", "B", "å", "é", "ü", "ñ", "@", "%", "$", "*", "0", "1", "2", "あ", "日",
        "中", "一", "二", "三", "ا", "ب", "ة", "ت", "١", "٢", "٣", "а", "б", "в", "г", "±",
        "ʶ", "϶", "൹", "℉",
        "\u{0020}",
        "\u{00a0}",
        "\u{2009}",
        "\u{3000}",
        "\u{00f4}",
        "\u{1e0d}\u{0307}",
    ];
    for key in key_string_examples {
        assert!(
            Key(key.to_string()).is_key_string(),
            "{} should be a key string",
            key
        );
    }
}

#[test]
fn test_named_key_attribute_values() {
    let named_key_attribute_value_examples =
        ["Backspace", "Tab", "Enter", "Escape", "Delete", "F11"];
    for key in named_key_attribute_value_examples {
        assert!(
            Key(key.to_string()).is_named_key_attribute_value(),
            "{} should be a named key attribute value",
            key
        );
    }
}

fn str_combo(modifiers: Modifiers, key: &str) -> Combo {
    Combo::new(KeySpec::Str(Key(key.to_string()))).with_mods(modifiers)
}

fn raw_combo(modifiers: Modifiers, key: &str) -> Combo {
    Combo::new(KeySpec::Raw(key.into())).with_mods(modifiers)
}

#[test]
fn test_parse_combo() {
    assert_eq!(
        str_combo(Modifiers::empty(), "Backspace"),
        "Backspace".parse().unwrap()
    );
    assert_eq!(
        raw_combo(Modifiers::empty(), "Backspace"),
        "<Backspace>".parse().unwrap(),
    );
    assert_eq!(
        raw_combo(Modifiers::ctrl(), "Backspace"),
        "<C-Backspace>".parse().unwrap(),
    );
    assert_eq!(
        raw_combo(
            Modifiers::ctrl().union(Modifiers::shift()).union(Modifiers::alt()),
            "Backspace"
        ),
        "<C-S-A-Backspace>".parse().unwrap(),
    );
    assert_eq!(raw_combo(Modifiers::empty(), "C"), "<C>".parse().unwrap());
}

#[test]
fn parse_combo_rejects_unknown_modifiers() {
    assert_eq!(
        Err(KeyInputParseError::InvalidModifier("X".to_string())),
        Combo::parse("<X-a>")
    );
    assert_eq!(
        Err(KeyInputParseError::InvalidModifier("".to_string())),
        Combo::parse("<-a>")
    );
    assert_eq!(Ok(str_combo(Modifiers::empty(), "<")), Combo::parse("<"));
    assert_eq!(Ok(raw_combo(Modifiers::empty(), "")), Combo::parse("<>"));
    assert_eq!(
        Ok(raw_combo(Modifiers::win(), "Digit1")),
        Combo::parse("<M-1>")
    );
}

#[test]
fn raw_keys_are_named_by_their_codes() {
    assert_eq!(RawKey("KeyA".to_string()), RawKey::alpha("a"));
    assert_eq!(RawKey("Digit7".to_string()), RawKey::num("7"));
    assert_eq!(RawKey("Enter".to_string()), RawKey::key("Enter"));
    assert_eq!(RawKey("KeyQ".to_string()), RawKey::named("q"));
    assert_eq!(RawKey("Digit0".to_string()), RawKey::from("0"));
    assert_eq!(RawKey("$".to_string()), RawKey::from("$"));
    assert_eq!(RawKey("é".to_string()), RawKey::from("é"));
    assert_eq!(RawKey("ab".to_string()), RawKey::from("ab"));
}

#[test]
fn modifiers_from_letters() {
    assert_eq!(Some(Modifiers::ctrl()), Modifiers::from_char('c'));
    assert_eq!(Some(Modifiers::ctrl()), Modifiers::from_char('C'));
    assert_eq!(Some(Modifiers::shift()), Modifiers::from_char('s'));
    assert_eq!(Some(Modifiers::alt()), Modifiers::from_char('A'));
    assert_eq!(Some(Modifiers::win()), Modifiers::from_char('m'));
    assert_eq!(None, Modifiers::from_char('x'));
    assert_eq!(1, Modifiers::ctrl().bits());
    assert_eq!(10, Modifiers::shift().union(Modifiers::win()).bits());
    assert_eq!(5, Modifiers::from_bits_truncate(0xf5).bits());
    assert!(Modifiers::empty().is_empty());
    assert!(Modifiers::ctrl().union(Modifiers::alt()).contains(Modifiers::alt()));
    assert!(!Modifiers::ctrl().contains(Modifiers::alt()));
}

#[test]
fn combos_match_key_inputs() {
    let input = KeyInput {
        modifiers: Modifiers::ctrl().union(Modifiers::shift()),
        key: Key("A".to_string()),
        code: RawKey::alpha("a"),
    };
    // a raw combo needs the exact modifiers
    assert!(Combo::from_keyinput_raw(input.clone()).matches(&input));
    assert!(!raw_combo(Modifiers::ctrl(), "a").matches(&input));
    // a combo by key attribute value needs some of them
    assert!(str_combo(Modifiers::ctrl(), "A").matches(&input));
    assert!(str_combo(Modifiers::empty(), "A").matches(&input));
    assert!(!str_combo(Modifiers::alt(), "A").matches(&input));
    assert!(!str_combo(Modifiers::ctrl(), "B").matches(&input));
    assert!(Combo::from_keyinput_str(input.clone()).matches(&input));
    assert_eq!(
        &KeySpec::Str(Key("A".to_string())),
        Combo::from_keyinput_str(input.clone()).key_spec()
    );
    let modifiers = input.modifiers;
    assert_eq!(modifiers, Combo::from_keyinput_raw(input).modifiers());
    assert_eq!("Enter", Key("Enter".to_string()).as_str());
    assert_eq!(None, Key("Enter".to_string()).as_key_string());
    assert_eq!(
        Some("Enter"),
        Key("Enter".to_string()).as_named_key_attribute_value()
    );
    assert_eq!(Some("a"), Key("a".to_string()).as_key_string());
}

#[test]
fn inputs_and_combos_as_text() {
    assert_eq!("", Modifiers::empty().to_string());
    assert_eq!("S", Modifiers::shift().to_string());
    assert_eq!(
        "C-S-A-W",
        Modifiers::from_bits_truncate(15).to_string()
    );
    assert_eq!("C-W", Modifiers::ctrl().union(Modifiers::win()).to_string());
    assert_eq!("A", KeySpec::Raw(RawKey::alpha("a")).to_string());
    assert_eq!("7", KeySpec::Raw(RawKey::num("7")).to_string());
    assert_eq!("Enter", KeySpec::Str(Key("Enter".to_string())).to_string());
    assert_eq!("x", str_combo(Modifiers::empty(), "x").to_string());
    assert_eq!(
        "<C-S-Backspace>",
        raw_combo(Modifiers::ctrl().union(Modifiers::shift()), "Backspace").to_string()
    );
    let input = KeyInput {
        modifiers: Modifiers::alt(),
        key: Key("å".to_string()),
        code: RawKey::alpha("a"),
    };
    assert_eq!("<A-KeyA>", input.to_string());
    let input = KeyInput {
        modifiers: Modifiers::empty(),
        ..input
    };
    assert_eq!("å", input.to_string());
}

#[test]
fn combos_parse_from_str_as_they_parse() {
    assert_eq!(Combo::parse("<C-x>"), Combo::from_str("<C-x>"));
    assert_eq!(Combo::parse("x"), Combo::from_str("x"));
    assert_eq!(
        Err(KeyInputParseError::InvalidModifier("Q".to_string())),
        Combo::from_str("<Q-x>")
    );
}
