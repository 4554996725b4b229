use decklock::setup::{hypridle_path, lock_configured, lock_step, LockStep};
use decklock::setup::{
    edit_hypridle, format_status, greetd_command, greeter_command, greeter_user_listed,
    hypridle_runs_decklock, SystemReport,
};

fn report() -> SystemReport {
    SystemReport {
        greetd_installed: true,
        greetd_service_active: false,
        greetd_config_path: "/etc/greetd/config.toml".into(),
        greetd_uses_decklock: true,
        current_greetd_cmd: Some("cage -s -- decklock --greeter".into()),
        cage_installed: true,
        greeter_user_exists: true,
        hypridle_installed: true,
        hypridle_config_path: Some("/home/u/.config/hypr/hypridle.conf".into()),
        hypridle_uses_decklock: true,
    }
}

#[test]
fn test_inspect_system_report() {
    let greetd = "[default_session]\ncommand = \"cage -s -- decklock --greeter\"\n";
    let (command, uses) = greetd_command(greetd);
    assert!(uses);
    assert_eq!(command.as_deref(), Some("cage -s -- decklock --greeter"));
    assert!(hypridle_runs_decklock("general { lock_cmd = decklock --lock }\n"));
    let formatted = format_status(&report());
    assert!(formatted.contains("DeckLock [Configured]"));
    assert!(formatted.contains("decklock --lock [Configured]"));
}

#[test]
fn status_names_what_is_missing() {
    let mut r = report();
    r.greetd_uses_decklock = false;
    r.current_greetd_cmd = None;
    r.hypridle_config_path = None;
    r.cage_installed = false;
    let text = format_status(&r);
    assert!(text.starts_with("DeckLock System Integration Status:\n\nLogin (greetd):\n"));
    assert!(text.contains("  current greeter:        None found [Run: sudo decklock setup greeter]\n"));
    assert!(text.contains("  hypridle configuration: Not found [Run: decklock setup lock]\n"));
    assert!(text.contains("Not installed (recommended: sudo pacman -S cage)"));
    assert!(text.contains("  greetd service:         Inactive or not running\n"));
}

#[test]
fn the_last_greetd_command_is_reported() {
    let (command, uses) = greetd_command("command = tuigreet\n[x]\ncommand=\"agreety --cmd sway\"\n");
    assert_eq!(command.as_deref(), Some("agreety --cmd sway"));
    assert!(!uses);
    assert_eq!(greetd_command("vt = 1\n"), (None, false));
}

#[test]
fn test_execute_hypridle_setup() {
    let updated = edit_hypridle("general { lock_cmd = gtklock }\n").unwrap();
    assert_eq!(updated, "general { lock_cmd = decklock --lock }\n");
    assert!(updated.contains("lock_cmd = decklock --lock"));
}

#[test]
fn a_configured_file_is_left_as_it_is() {
    let content = "general {\n    lock_cmd = decklock --lock\n}\n";
    assert_eq!(edit_hypridle(content).unwrap(), content);
}

#[test]
fn lock_lines_are_added_to_the_general_block() {
    let updated = edit_hypridle("general {\n    ignore_dbus_inhibit = false\n}\n").unwrap();
    assert_eq!(
        updated,
        "general {\n    ignore_dbus_inhibit = false\n    lock_cmd = decklock --lock\n    before_sleep_cmd = decklock --lock\n}\n"
    );
    let updated = edit_hypridle("general {\n    before_sleep_cmd = loginctl lock-session\n}").unwrap();
    assert_eq!(
        updated,
        "general {\n    before_sleep_cmd = decklock --lock\n    lock_cmd = decklock --lock\n}"
    );
}

#[test]
fn a_file_without_general_block_gets_one_first() {
    let updated = edit_hypridle("listener {\n}\n").unwrap();
    assert!(updated.starts_with("# Added by decklock setup\ngeneral {\nlock_cmd = decklock --lock\n"));
    assert!(updated.ends_with("}\n\nlistener {\n}\n"));
    assert_eq!(
        edit_hypridle("general { unterminated\n"),
        Err("hypridle general block is not closed".to_string())
    );
}

#[test]
fn the_greeter_runs_decklock_inside_cage() {
    assert_eq!(greeter_command(false), "cage -s -- decklock --greeter --keyboard");
    assert_eq!(greeter_command(true), "cage -s -- decklock --greeter");
    assert!(greeter_user_listed("root:x:0:0::/root:/bin/sh\ngreeter:x:964:964::/:/bin/false\n"));
    assert!(!greeter_user_listed("root:x:0:0::/root:/bin/sh\n"));
}

#[test]
fn lock_setup_plans_before_it_writes() {
    assert_eq!(
        hypridle_path(None, None, Some("/h".into())),
        Some("/h/.config/hypr/hypridle.conf".to_string())
    );
    assert_eq!(hypridle_path(Some("/t".into()), None, None), Some("/t".to_string()));
    assert_eq!(hypridle_path(None, None, None), None);
    let configured = "general {\n    lock_cmd = decklock --lock\n    before_sleep_cmd = decklock --lock\n}\n";
    assert_eq!(
        lock_step("/c/hypridle.conf", Some(configured), "template", false),
        Ok(LockStep::Report(
            "Screen lock in /c/hypridle.conf is already configured for DeckLock".into()
        ))
    );
    match lock_step("/c/h.conf", Some("general { lock_cmd = gtklock }\n"), "t", false) {
        Ok(LockStep::Write { content, existing }) => {
            assert!(existing);
            assert!(content.contains("lock_cmd = decklock --lock"));
        }
        other => panic!("unexpected {other:?}"),
    }
    assert_eq!(
        lock_step("/c/h.conf", None, "TEMPLATE", true),
        Ok(LockStep::Report(
            "Dry-run: would create screen lock config in /c/h.conf\n---\nTEMPLATE".into()
        ))
    );
    assert_eq!(
        lock_step("/c/h.conf", None, "TEMPLATE", false),
        Ok(LockStep::Write { content: "TEMPLATE".into(), existing: false })
    );
    assert_eq!(
        lock_step("/c/h.conf", Some("general {\n"), "t", true),
        Err("hypridle general block is not closed".to_string())
    );
    assert_eq!(lock_configured("/c/h.conf"), "Successfully configured hypridle at /c/h.conf");
}

#[test]
fn greeter_setup_reports_where_it_writes() {
    assert_eq!(decklock::setup::GREETD_CONFIG, "/etc/greetd/config.toml");
    assert_eq!(
        decklock::setup::greeter_dry_run("/tmp/greetd.toml", "[terminal]\nvt = 1\n"),
        "Dry-run: would write to /tmp/greetd.toml\n---\n[terminal]\nvt = 1\n"
    );
    assert_eq!(
        decklock::setup::greeter_configured("/etc/greetd/config.toml"),
        "Successfully configured greetd at /etc/greetd/config.toml"
    );
}

#[test]
fn greetd_setup_keeps_other_settings_and_runs_the_greeter() {
    let fresh = decklock::setup::greetd_config("/tmp/config.toml", "", false).unwrap();
    let fresh: toml::Table = toml::from_str(&fresh).unwrap();
    assert_eq!(fresh["terminal"]["vt"].as_integer(), Some(1));
    assert_eq!(
        fresh["default_session"]["command"].as_str(),
        Some("cage -s -- decklock --greeter --keyboard")
    );
    assert_eq!(fresh["default_session"]["user"].as_str(), Some("greeter"));

    let previous = "old_config = true\n[terminal]\nvt = 7\n[default_session]\ncommand = \"agreety\"\nuser = \"nobody\"\nextra = 3\n";
    let edited = decklock::setup::greetd_config("/tmp/config.toml", previous, true).unwrap();
    let edited: toml::Table = toml::from_str(&edited).unwrap();
    assert_eq!(edited["old_config"].as_bool(), Some(true));
    assert_eq!(edited["terminal"]["vt"].as_integer(), Some(7));
    assert_eq!(edited["default_session"]["command"].as_str(), Some("cage -s -- decklock --greeter"));
    assert_eq!(edited["default_session"]["user"].as_str(), Some("greeter"));
    assert_eq!(edited["default_session"]["extra"].as_integer(), Some(3));
}

#[test]
fn greetd_setup_refuses_what_it_cannot_edit() {
    let bad = decklock::setup::greetd_config("/tmp/config.toml", "not toml = = =", false).unwrap_err();
    assert!(bad.starts_with("Invalid greetd configuration /tmp/config.toml: "));
    assert_eq!(
        decklock::setup::greetd_config("/tmp/c.toml", "terminal = 1\n", false),
        Err("greetd terminal must be a TOML table".to_string())
    );
    assert_eq!(
        decklock::setup::greetd_config("/tmp/c.toml", "default_session = \"x\"\n", false),
        Err("greetd default_session must be a TOML table".to_string())
    );
}

#[test]
fn a_second_lock_setup_changes_nothing() {
    let first = lock_step("/c/h.conf", Some("general { lock_cmd = gtklock }\n"), "t", false);
    let written = match first {
        Ok(LockStep::Write { content, existing: true }) => content,
        other => panic!("unexpected {other:?}"),
    };
    assert_eq!(written, "general { lock_cmd = decklock --lock }\n");
    assert_eq!(
        lock_step("/c/h.conf", Some(&written), "t", false),
        Ok(LockStep::Report("Screen lock in /c/h.conf is already configured for DeckLock".into()))
    );
    let fresh = "general {\n    ignore_dbus_inhibit = false\n}\n";
    let once = match lock_step("/c/h.conf", Some(fresh), "t", false) {
        Ok(LockStep::Write { content, .. }) => content,
        other => panic!("unexpected {other:?}"),
    };
    assert_eq!(
        lock_step("/c/h.conf", Some(&once), "t", false),
        Ok(LockStep::Report("Screen lock in /c/h.conf is already configured for DeckLock".into()))
    );
}

#[test]
fn test_dry_run_greeter_and_lock() {
    let dir = tempfile::tempdir().unwrap();
    let greetd_path = dir.path().join("greetd.toml");
    let hypridle_path = dir.path().join("hypridle.conf");

    let greetd_text = greetd_path.to_string_lossy().into_owned();
    let content = decklock::setup::greetd_config(&greetd_text, "", false).unwrap();
    let out = decklock::setup::greeter_dry_run(&greetd_text, &content);
    assert!(out.contains("Dry-run: would write"));
    assert!(out.contains("cage -s -- decklock --greeter --keyboard"));
    assert!(!greetd_path.exists());

    let template = "general {\n    lock_cmd = decklock --lock\n}\n";
    match lock_step(&hypridle_path.to_string_lossy(), None, template, true) {
        Ok(LockStep::Report(out)) => {
            assert!(out.contains("Dry-run: would"));
            assert!(out.contains("lock_cmd = decklock --lock"));
        }
        other => panic!("unexpected {other:?}"),
    }
    assert!(!hypridle_path.exists());
}

#[test]
fn a_second_lock_setup_of_a_crlf_file_changes_nothing() {
    let first = lock_step("/c/h.conf", Some("general {\r\n  lock_cmd = gtklock\r\n}\r\n"), "t", false);
    let written = match first {
        Ok(LockStep::Write { content, existing: true }) => content,
        other => panic!("unexpected {other:?}"),
    };
    assert_eq!(written, "general {\n  lock_cmd = decklock --lock\n}\n");
    assert_eq!(
        lock_step("/c/h.conf", Some(&written), "t", false),
        Ok(LockStep::Report("Screen lock in /c/h.conf is already configured for DeckLock".into()))
    );
}
