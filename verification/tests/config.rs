use decklock::config::{
    check_pools, check_timing, layout_spacing_ok, media_defaults, resolve_pool, Alignment,
    Arrangement, BAD_IDLE, BAD_SERVICE, BAD_SLIDESHOW, UNKNOWN_ITEM,
};
use decklock::config_cli::{parts, Action, BAD_KEY};
use decklock::paths::{join, resolve};

#[test]
fn defaults_center_a_vertical_layout() {
    assert_eq!(Alignment::default(), Alignment::Center);
    assert_eq!(Arrangement::default(), Arrangement::Vertical);
}

#[test]
fn pools_accept_media_and_known_items_only() {
    let good = Some(vec!["photo.png".to_string(), "procedural:starfield".to_string()]);
    assert_eq!(check_pools(&good, &None), Ok(()));
    let bad = Some(vec!["procedural:unknown".to_string()]);
    assert_eq!(check_pools(&good, &bad), Err(UNKNOWN_ITEM.to_string()));
    assert_eq!(check_pools(&bad, &None), Err("Unknown procedural media ID".to_string()));
}

#[test]
fn intervals_and_service_are_checked_in_order() {
    assert_eq!(check_timing(30, 30, 600, "login"), Ok(()));
    assert_eq!(check_timing(0, 30, 600, "login"), Err(BAD_SLIDESHOW.to_string()));
    assert_eq!(check_timing(30, 86401, 0, "../login"), Err(BAD_SLIDESHOW.to_string()));
    assert_eq!(check_timing(30, 30, 0, "login"), Err(BAD_IDLE.to_string()));
    assert_eq!(check_timing(1, 86400, 86400, "../login"), Err(BAD_SERVICE.to_string()));
    assert_eq!(check_timing(1, 1, 1, ""), Err(BAD_SERVICE.to_string()));
    assert_eq!(check_timing(1, 1, 1, &"a".repeat(65)), Err(BAD_SERVICE.to_string()));
    assert_eq!(check_timing(1, 1, 1, &"a".repeat(64)), Ok(()));
    assert_eq!(check_timing(1, 1, 1, "decklock-test_2"), Ok(()));
}

#[test]
fn layout_spacing_and_padding_have_bounds() {
    assert!(layout_spacing_ok(16, 32));
    assert!(layout_spacing_ok(0, 256));
    assert!(!layout_spacing_ok(129, 0));
    assert!(!layout_spacing_ok(0, -1));
}

#[test]
fn paths_resolve_relative_to_their_file() {
    assert_eq!(join("/home/yan/.config", "decklock"), "/home/yan/.config/decklock");
    assert_eq!(join("/home/yan/", "x"), "/home/yan/x");
    assert_eq!(join("", "x"), "x");
    assert_eq!(join("/a", "/b"), "/b");
    assert_eq!(resolve("/etc/decklock", "wall.png"), "/etc/decklock/wall.png");
    assert_eq!(resolve("/etc/decklock", "/srv/wall.png"), "/srv/wall.png");
    assert_eq!(
        resolve_pool("/cfg", &vec!["a.png".into(), "procedural:matrix".into(), "/abs.mp4".into()]),
        vec!["/cfg/a.png".to_string(), "procedural:matrix".into(), "/abs.mp4".into()]
    );
}

#[test]
fn media_folders_fill_only_unset_backgrounds() {
    assert_eq!(
        media_defaults("/home/u/.config/decklock", None, false, None),
        (
            Some("/home/u/.config/decklock/midias/bloqueio".to_string()),
            Some("/home/u/.config/decklock/midias/ocioso".to_string())
        )
    );
    assert_eq!(
        media_defaults("/c", None, true, Some("custom.mp4".into())),
        (None, Some("custom.mp4".to_string()))
    );
    assert_eq!(
        media_defaults("/c", Some("x.png".into()), false, None),
        (Some("x.png".to_string()), Some("/c/midias/ocioso".to_string()))
    );
}

#[test]
fn dotted_keys_name_nested_settings() {
    assert_eq!(parts("idle_seconds"), Ok(vec!["idle_seconds".to_string()]));
    assert_eq!(
        parts("layout.padding"),
        Ok(vec!["layout".to_string(), "padding".to_string()])
    );
    assert_eq!(parts("layout."), Err(BAD_KEY.to_string()));
    assert_eq!(parts(""), Err(BAD_KEY.to_string()));
    assert_eq!(parts(".x"), Err(BAD_KEY.to_string()));
    let a = Action::Get { key: "pam_service".into() };
    assert_eq!(a.clone(), a);
}

#[test]
fn migrated_items_join_a_pool_once() {
    assert_eq!(
        decklock::config::with_entry(None, "procedural:starfield".into()),
        vec!["procedural:starfield".to_string()]
    );
    assert_eq!(
        decklock::config::with_entry(
            Some(vec!["a.png".into(), "procedural:starfield".into()]),
            "procedural:starfield".into()
        ),
        vec!["a.png".to_string(), "procedural:starfield".into()]
    );
    assert_eq!(
        decklock::config::with_entry(Some(vec!["/m//a.png".into()]), "/m/a.png".into()),
        vec!["/m//a.png".to_string()]
    );
    assert_eq!(
        decklock::config::with_entry(Some(vec!["a.png".into()]), "b.png".into()),
        vec!["a.png".to_string(), "b.png".into()]
    );
    assert!(decklock::paths::same_path_as("/a/./b/", "/a//b"));
    assert!(!decklock::paths::same_path_as("./a", "a"));
}

#[test]
fn nested_layout_edits_start_from_the_theme() {
    let keys = |k: &[&str]| k.iter().map(|s| s.to_string()).collect::<Vec<String>>();
    assert!(decklock::config_cli::needs_theme_layout(&keys(&["layout", "padding"]), false));
    assert!(!decklock::config_cli::needs_theme_layout(&keys(&["layout", "padding"]), true));
    assert!(!decklock::config_cli::needs_theme_layout(&keys(&["layout"]), false));
    assert!(!decklock::config_cli::needs_theme_layout(&keys(&["procedurals", "x"]), false));
}

fn document(text: &str) -> toml::Table {
    toml::from_str(text).unwrap()
}

fn edit(doc: &mut toml::Table, key: &str, command: Action) -> Result<Option<String>, String> {
    let keys = parts(key).unwrap();
    decklock::config_cli::edit_document(doc, &keys, &command)
}

#[test]
fn set_accepts_toml_values_or_plain_strings() {
    assert_eq!(decklock::config_cli::assigned_value("true"), toml::Value::Boolean(true));
    assert_eq!(decklock::config_cli::assigned_value("12"), toml::Value::Integer(12));
    assert_eq!(
        decklock::config_cli::assigned_value("[\"a\", \"b\"]"),
        toml::Value::Array(vec!["a".into(), "b".into()])
    );
    assert_eq!(decklock::config_cli::assigned_value("#b4befe"), toml::Value::String("#b4befe".into()));
    assert_eq!(decklock::config_cli::assigned_value("1\nother = 2"), toml::Value::String("1\nother = 2".into()));

    let mut doc = document("idle_seconds = 30\n[layout]\npadding = 4\n");
    let set = |key: &str, value: &str| Action::Assign { key: key.into(), value: value.into() };
    assert_eq!(edit(&mut doc, "layout.padding", set("layout.padding", "8")), Ok(None));
    assert_eq!(doc["layout"]["padding"].as_integer(), Some(8));
    assert_eq!(doc["idle_seconds"].as_integer(), Some(30));
    assert_eq!(edit(&mut doc, "locale", set("locale", "pt-BR")), Ok(None));
    assert_eq!(doc["locale"].as_str(), Some("pt-BR"));
}

#[test]
fn get_and_unset_answer_for_known_keys_only() {
    let mut doc = document("idle_seconds = 30\n[layout]\npadding = 4\n");
    let get = |key: &str| Action::Get { key: key.into() };
    let unset = |key: &str| Action::Unset { key: key.into() };
    assert_eq!(edit(&mut doc, "layout.padding", get("layout.padding")), Ok(Some("4".into())));
    assert_eq!(
        edit(&mut doc, "layout.margin", get("layout.margin")),
        Err("Key is unset or unknown: layout.margin".into())
    );
    assert_eq!(edit(&mut doc, "idle_seconds", unset("idle_seconds")), Ok(None));
    assert!(doc.get("idle_seconds").is_none());
    assert_eq!(
        edit(&mut doc, "idle_seconds", unset("idle_seconds")),
        Err("Key is unset or unknown: idle_seconds".into())
    );
    assert_eq!(doc["layout"]["padding"].as_integer(), Some(4));
}

#[test]
fn edits_need_an_existing_parent_table() {
    let mut doc = document("idle_seconds = 30\n[layout]\npadding = 4\n");
    let before = doc.clone();
    let set = |key: &str| Action::Assign { key: key.into(), value: "1".into() };
    assert_eq!(
        edit(&mut doc, "missing.key", set("missing.key")),
        Err("Unknown configuration table: missing".into())
    );
    assert_eq!(edit(&mut doc, "idle_seconds.key", set("idle_seconds.key")), Err("Parent key is not a table".into()));
    assert_eq!(
        edit(&mut doc, "idle_seconds.a.b", set("idle_seconds.a.b")),
        Err("Unknown configuration table: a".into())
    );
    assert_eq!(doc, before);
}
