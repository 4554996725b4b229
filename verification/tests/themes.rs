use decklock::themes::{colors, preset_name, Preset};

fn palette() -> Vec<Preset> {
    vec![
        Preset::new(
            "classic".into(),
            "Classic".into(),
            "#000001".into(),
            "#000002".into(),
            "#000003".into(),
            "#000004".into(),
            "#000005".into(),
            "#000006".into(),
        ),
        Preset::new(
            "mocha".into(),
            "Mocha".into(),
            "#111111".into(),
            "#222222".into(),
            "#333333".into(),
            "#444444".into(),
            "#555555".into(),
            "#666666".into(),
        ),
    ]
}

#[test]
fn a_palette_becomes_colour_definitions() {
    let css = colors(&palette(), "mocha", false).unwrap();
    assert_eq!(
        css,
        "@define-color settings_bg #111111;\n@define-color settings_surface #222222;\n\
         @define-color settings_raised #333333;\n@define-color settings_text #444444;\n\
         @define-color settings_muted #555555;\n@define-color accent #666666;\n\
         @define-color foreground #444444;\n"
    );
}

#[test]
fn the_keyboard_gets_its_own_colours_when_asked() {
    let css = colors(&palette(), "classic", true).unwrap();
    assert!(css.ends_with(
        "@define-color keyboard_background #000002;\n@define-color keyboard_dark #000003;\n\
         @define-color keyboard_text #000004;\n@define-color keyboard_hilight #000003;\n\
         @define-color keyboard_pressed #000006;\n"
    ));
    assert!(css.starts_with("@define-color settings_bg #000001;\n"));
}

#[test]
fn unknown_palettes_are_refused() {
    assert_eq!(
        colors(&palette(), "invalid", true),
        Err("Unknown theme preset: invalid".to_string())
    );
    assert!(colors(&Vec::new(), "classic", false).is_err());
}

#[test]
fn palettes_are_named_by_id() {
    assert_eq!(preset_name(&palette(), "mocha"), Some("Mocha".to_string()));
    assert_eq!(preset_name(&palette(), "classic"), Some("Classic".to_string()));
    assert_eq!(preset_name(&palette(), "nord"), None);
}
