use decklock::keyboard::{Action, Key, Keyboard};

fn key(normal: &'static str, shifted: &'static str) -> Key {
    Key {
        normal,
        shifted,
        width: 1,
    }
}

#[test]
fn alt_uses_supplementary_symbols_when_system_has_only_two_levels() {
    let mut model = Keyboard::default();
    model.set_system_levels("1", vec![("1".into(), false), ("!".into(), false)]);
    let key = Key {
        normal: "1",
        shifted: "!",
        width: 1,
    };
    model.altgr = true;
    assert_eq!(model.label(&key), "¹");
    assert_eq!(model.press(&key), Action::Insert("¹".into()));
    model.set_system_levels(
        "1",
        vec![
            ("1".into(), false),
            ("!".into(), false),
            ("custom".into(), false),
        ],
    );
    model.altgr = true;
    assert_eq!(model.label(&key), "custom");
}

#[test]
fn double_shift_latches_until_next_shift_and_slow_taps_do_not() {
    let mut model = Keyboard::default();
    let shift = Key {
        normal: "Shift",
        shifted: "Shift",
        width: 1,
    };
    let letter = Key {
        normal: "a",
        shifted: "A",
        width: 1,
    };
    let start: u64 = 1_000_000;
    model.press_at(&shift, start);
    model.press_at(&shift, start + 200);
    assert_eq!(model.press(&letter), Action::Insert("A".into()));
    assert_eq!(model.press(&letter), Action::Insert("A".into()));
    model.press_at(&shift, start + 300);
    assert_eq!(model.press(&letter), Action::Insert("a".into()));
    model.press_at(&shift, start + 2000);
    model.press_at(&shift, start + 3000);
    assert_eq!(model.press(&letter), Action::Insert("a".into()));
}

#[test]
fn system_keymap_preserves_literal_symbols_and_dead_keys() {
    let mut model = Keyboard::default();
    let key = Key {
        normal: "~",
        shifted: "^",
        width: 1,
    };
    model.set_system_levels("~", vec![("'".into(), false), ("\"".into(), false)]);
    assert_eq!(model.press(&key), Action::Insert("'".into()));
    model.shift = true;
    assert_eq!(model.press(&key), Action::Insert("\"".into()));
    model.set_system_levels("~", vec![("´".into(), true)]);
    assert_eq!(model.press(&key), Action::Nothing);
    assert_eq!(
        model.press(&Key {
            normal: "e",
            shifted: "E",
            width: 1
        }),
        Action::Insert("é".into())
    );
}

#[test]
fn altgr_makes_symbols_accessible_and_distinguishes_literal_accents() {
    let mut model = Keyboard::default();
    model.press(&key("AltGr", "AltGr"));
    assert_eq!(model.label(&key("q", "Q")), "/");
    assert_eq!(model.press(&key("q", "Q")), Action::Insert("/".into()));
    assert!(!model.altgr);
    model.press(&key("AltGr", "AltGr"));
    assert_eq!(model.press(&key("´", "`")), Action::Insert("´".into()));
    model.press(&key("AltGr", "AltGr"));
    assert_eq!(model.press(&key("ç", "Ç")), Action::Nothing);
    assert_eq!(model.press(&key("a", "A")), Action::Insert("á".into()));
}

#[test]
fn shift_is_one_shot_and_caps_inverts_with_shift() {
    let mut k = Keyboard::default();
    k.press(&key("Shift", "Shift"));
    assert_eq!(k.press(&key("a", "A")), Action::Insert("A".into()));
    assert_eq!(k.press(&key("a", "A")), Action::Insert("a".into()));
    k.press(&key("Caps", "Caps"));
    k.press(&key("Shift", "Shift"));
    assert_eq!(k.press(&key("a", "A")), Action::Insert("a".into()));
}

#[test]
fn accents_compose_or_preserve_both_characters() {
    let mut k = Keyboard::default();
    assert_eq!(k.press(&key("´", "`")), Action::Nothing);
    assert_eq!(k.press(&key("e", "E")), Action::Insert("é".into()));
    k.press(&key("~", "^"));
    assert_eq!(k.press(&key("Space", "Space")), Action::Insert("~".into()));
    k.press(&key("´", "`"));
    assert_eq!(k.press(&key("1", "!")), Action::Insert("´1".into()));
}

#[test]
fn backspace_cancels_pending_accent_without_deleting_password() {
    let mut k = Keyboard::default();
    k.press(&key("´", "`"));
    assert_eq!(k.press(&key("Backspace", "Backspace")), Action::Nothing);
    assert_eq!(k.press(&key("Backspace", "Backspace")), Action::Backspace);
}

#[test]
fn control_keys_ask_for_their_actions() {
    let mut k = Keyboard::default();
    assert_eq!(k.press(&key("Enter", "Enter")), Action::Submit);
    assert_eq!(k.press(&key("Close", "Close")), Action::Close);
    assert_eq!(k.press(&key("Space", "Space")), Action::Insert(" ".into()));
    k.press(&key("Caps", "Caps"));
    assert_eq!(k.label(&key("ç", "Ç")), "Ç");
    assert_eq!(k.label(&key("1", "!")), "1");
}

#[test]
fn the_same_accent_twice_types_it_once() {
    let mut k = Keyboard::default();
    k.press(&key("~", "^"));
    assert_eq!(k.press(&key("~", "^")), Action::Insert("~".into()));
}

#[test]
fn the_layout_has_four_symbol_rows_and_a_control_row() {
    let rows = decklock::keyboard::rows();
    assert_eq!(rows.len(), 5);
    let lines = [
        ("1 2 3 4 5 6 7 8 9 0 - =", "! @ # $ % ¨ & * ( ) _ +"),
        ("q w e r t y u i o p ´ [", "Q W E R T Y U I O P ` {"),
        ("a s d f g h j k l ç ~ ]", "A S D F G H J K L Ç ^ }"),
        (r"z x c v b n m , . ; / \", "Z X C V B N M < > : ? |"),
    ];
    for (row, (normal, shifted)) in rows.iter().zip(lines) {
        assert_eq!(row.len(), 12);
        for (key, (n, s)) in row.iter().zip(normal.split_whitespace().zip(shifted.split_whitespace())) {
            assert_eq!((key.normal, key.shifted, key.width), (n, s, 1));
        }
    }
    let controls: Vec<_> = rows[4].iter().map(|k| (k.normal, k.shifted, k.width)).collect();
    assert_eq!(
        controls,
        vec![
            ("Shift", "Shift", 2),
            ("Caps", "Caps", 1),
            ("'", "\"", 1),
            ("Space", "Space", 4),
            ("Backspace", "Backspace", 2),
            ("Enter", "Enter", 2)
        ]
    );
}
