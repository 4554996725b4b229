use decklock::library::{import_folder, import_name, Kind};
use decklock::greeter::GreeterState;
use decklock::i18n::{invalid_locale, locale_identifier, select_locale};
use decklock::library::{home_folder, legacy_source, pool, seed, user_dir};
use decklock::preview_stats::rss_kib;
use decklock::shortcut::{config_dir, registered_pid, Registration, OWNED_ELSEWHERE};

#[test]
fn locale_normalization_picks_a_catalog() {
    let none: Vec<Option<String>> = vec![None, None, None];
    assert_eq!(select_locale(Some("pt_BR.UTF-8"), &none), "pt-BR");
    assert_eq!(select_locale(Some("pt_PT@euro"), &none), "pt-BR");
    assert_eq!(select_locale(Some("zz-ZZ"), &none), "zz-ZZ");
    assert_eq!(select_locale(Some("en_GB.UTF-8"), &none), "en-US");
    assert_eq!(select_locale(Some("C"), &none), "en-US");
    assert_eq!(select_locale(Some("POSIX"), &none), "en-US");
    assert_eq!(select_locale(Some("de_DE.UTF-8"), &none), "de-DE");
    assert_eq!(select_locale(None, &none), "en-US");
    let env = vec![Some(String::new()), None, Some("PT_br.UTF-8".to_string())];
    assert_eq!(select_locale(None, &env), "pt-BR");
    let env = vec![None, Some("fr_FR".to_string()), Some("pt_BR".to_string())];
    assert_eq!(select_locale(None, &env), "fr-FR");
}

#[test]
fn locales_must_be_language_identifiers() {
    let none: Vec<Option<String>> = vec![];
    let (selected, id) = locale_identifier(Some("pt_BR.UTF-8"), &none).unwrap();
    assert_eq!(selected, "pt-BR");
    assert_eq!(id, "pt-BR".parse::<unic_langid::LanguageIdentifier>().unwrap());
    assert_eq!(id.language.as_str(), "pt");
    let (_, english) = locale_identifier(Some("en-US"), &none).unwrap();
    assert_ne!(english, id);
    let error = locale_identifier(Some("not a locale!"), &none).unwrap_err();
    assert!(error.starts_with("Invalid locale not a locale!: "));
    assert_eq!(invalid_locale("x", "bad"), "Invalid locale x: bad");
}

#[test]
fn counters_report_process_rss() {
    assert_eq!(rss_kib("Name: test\nVmSize: 200 kB\nVmRSS:\t123 kB\n"), Some(123));
    assert_eq!(rss_kib("VmSize: 200 kB"), None);
    assert_eq!(rss_kib("VmRSS:\nVmRSS: 7 kB\n"), Some(7));
    assert_eq!(rss_kib("VmRSS: x kB"), None);
}

#[test]
fn registration_files_name_live_candidates_only() {
    assert_eq!(registered_pid("1234\n"), Some(1234));
    assert_eq!(registered_pid(" +77 "), Some(77));
    assert_eq!(registered_pid("invalid"), None);
    assert_eq!(registered_pid("0"), None);
    assert_eq!(registered_pid("-5"), None);
    assert_eq!(registered_pid("2147483648"), None);
    let r = Registration::new("/run/deck-lock.pid".into(), "42".into());
    assert_eq!(r.path(), "/run/deck-lock.pid");
    assert!(r.releases(Some("42")));
    assert!(!r.releases(Some("replacement")));
    assert!(!r.releases(None));
    assert!(OWNED_ELSEWHERE.contains("already owns"));
}

#[test]
fn directories_follow_the_xdg_variables() {
    assert_eq!(config_dir(Some("/x".into()), Some("/h".into())), Some("/x".to_string()));
    assert_eq!(config_dir(None, Some("/h".into())), Some("/h/.config".to_string()));
    assert_eq!(config_dir(None, None), None);
    assert_eq!(user_dir(Some("/d".into()), None), "/d/decklock/library");
    assert_eq!(user_dir(None, Some("/h".into())), "/h/.local/share/decklock/library");
    assert_eq!(user_dir(None, None), ".local/share/decklock/library");
    assert_eq!(
        GreeterState::state_file_path(Some("/o".into()), Some("/s".into()), None, "/tmp"),
        "/o"
    );
    assert_eq!(
        GreeterState::state_file_path(None, Some("/s".into()), Some("/h".into()), "/tmp"),
        "/s/decklock/greeter-state.toml"
    );
    assert_eq!(
        GreeterState::state_file_path(None, None, Some("/h".into()), "/tmp"),
        "/h/.local/state/decklock/greeter-state.toml"
    );
    assert_eq!(
        GreeterState::state_file_path(None, None, None, "/tmp"),
        "/tmp/decklock-greeter-state.toml"
    );
}

#[test]
fn greeter_state_remembers_the_last_choice() {
    let mut state = GreeterState::default();
    assert_eq!(state.last_user, None);
    state.select("yan", "hyprland");
    assert_eq!(state.last_user.as_deref(), Some("yan"));
    assert_eq!(state.last_session.as_deref(), Some("hyprland"));
}

#[test]
fn pools_prefer_explicit_then_legacy_then_folders() {
    let bundled = vec!["/usr/share/decklock/media/a.png".to_string()];
    let explicit = Some(vec![vec!["x.png".to_string()], vec!["y.mp4".into(), "z.jpg".into()]]);
    assert_eq!(
        pool(explicit, Some(vec!["l.png".into()]), None, false, bundled.clone()),
        vec!["x.png".to_string(), "y.mp4".into(), "z.jpg".into()]
    );
    assert_eq!(
        pool(None, Some(vec!["l.png".into()]), Some(vec!["h.png".into()]), false, bundled.clone()),
        vec!["l.png".to_string()]
    );
    assert_eq!(
        pool(None, Some(vec![]), Some(vec!["h.png".into()]), true, bundled.clone()),
        vec!["h.png".to_string()]
    );
    assert_eq!(pool(None, None, Some(vec![]), true, bundled.clone()), Vec::<String>::new());
    assert_eq!(pool(None, None, None, false, bundled.clone()), bundled);
    assert_eq!(pool(Some(vec![]), None, None, false, bundled), Vec::<String>::new());
    assert_eq!(
        legacy_source(false, Some("i".into()), None, Some("t".into())),
        Some("t".to_string())
    );
    assert_eq!(
        legacy_source(false, None, Some("b".into()), Some("t".into())),
        Some("b".to_string())
    );
    assert_eq!(legacy_source(true, Some("i".into()), Some("b".into()), None), Some("i".to_string()));
    assert_eq!(home_folder(true), "midias/ocioso");
    assert_eq!(home_folder(false), "midias/bloqueio");
    let _ = seed();
}

#[test]
fn imports_pick_a_folder_and_never_reuse_a_name() {
    assert_eq!(import_folder(Some(Kind::Image)), Ok("images"));
    assert_eq!(import_folder(Some(Kind::Video)), Ok("videos"));
    assert_eq!(
        import_folder(Some(Kind::Procedural)),
        Err("Unsupported media format".to_string())
    );
    assert_eq!(import_folder(None), Err("Unsupported media format".to_string()));
    assert_eq!(import_name("image.png", 0), "image.png");
    assert_eq!(import_name("image.png", 1), "1-image.png");
    assert_eq!(import_name("image.png", 9999), "9999-image.png");
}
