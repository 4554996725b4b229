use decklock::entry::{edit, Edit};
use decklock::keyboard::{Action, Key, Keyboard};
use decklock::paths::entered_path;

fn text(t: &str, p: usize) -> Edit {
    Edit::Text { text: t.into(), position: p }
}

#[test]
fn typing_goes_in_at_the_cursor_or_over_the_selection() {
    assert_eq!(edit("", 0, None, &Action::Insert("a".into())), text("a", 1));
    assert_eq!(edit("sécret", 2, None, &Action::Insert("XY".into())), text("séXYcret", 4));
    assert_eq!(edit("secret", 1, Some((1, 4)), &Action::Insert("é".into())), text("séet", 2));
}

#[test]
fn backspace_removes_the_selection_or_one_character() {
    assert_eq!(edit("sécret", 2, None, &Action::Backspace), text("scret", 1));
    assert_eq!(edit("secret", 0, None, &Action::Backspace), Edit::Unchanged);
    assert_eq!(edit("secret", 6, Some((0, 6)), &Action::Backspace), text("", 0));
}

#[test]
fn enter_submits_and_other_keys_leave_the_field() {
    assert_eq!(edit("pw", 2, None, &Action::Submit), Edit::Activate);
    assert_eq!(edit("pw", 2, None, &Action::Close), Edit::Unchanged);
    assert_eq!(edit("pw", 2, None, &Action::Nothing), Edit::Unchanged);
}

#[test]
fn control_keys_show_symbols_and_engaged_modifiers() {
    let mut model = Keyboard::default();
    let shift = Key { normal: "Shift", shifted: "Shift", width: 2 };
    let space = Key { normal: "Space", shifted: "Space", width: 4 };
    let q = Key { normal: "q", shifted: "Q", width: 1 };
    assert_eq!(model.caption(&space), "␣");
    assert_eq!(model.caption(&shift), "⇧");
    assert!(!model.engaged(&shift));
    assert_eq!(model.caption(&q), "q");
    model.press_at(&shift, 0);
    assert!(model.engaged(&shift));
    assert_eq!(model.caption(&q), "Q");
    model.press_at(&shift, 100);
    assert_eq!(model.caption(&shift), "⇪");
}

#[test]
fn typed_paths_are_trimmed_and_resolved() {
    assert_eq!(entered_path("   ", "/base"), None);
    assert_eq!(entered_path(" wall.png ", "/base"), Some("/base/wall.png".to_string()));
    assert_eq!(entered_path("/srv/x.mp4", "/base"), Some("/srv/x.mp4".to_string()));
}
