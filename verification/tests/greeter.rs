use decklock::greeter::{
    sessions_in_order, DesktopSession, session_entry_of, user_icon_candidates, users_from_passwd, GreetdResponse, Login, LoginStep, Phase,
};

#[test]
fn test_parse_passwd_users() {
    let users = users_from_passwd(
        "root:x:0:0:root:/root:/bin/bash\n\
         daemon:x:1:1:daemon:/usr/sbin:/usr/sbin/nologin\n\
         yan:x:1000:1000:Yan Vidal,,,:/home/yan:/bin/bash\n\
         guest:x:1001:1001::/home/guest:/usr/bin/zsh\n\
         disabled:x:1002:1002::/home/disabled:/bin/false\n\
         nobody:x:65534:65534:nobody:/nonexistent:/usr/sbin/nologin\n",
    );
    assert_eq!(users.len(), 2);
    assert_eq!(users[0].username, "yan");
    assert_eq!(users[0].display_name, "Yan Vidal");
    assert_eq!(users[0].uid, 1000);
    assert_eq!(users[1].username, "guest");
    assert_eq!(users[1].display_name, "guest");
    assert_eq!(users[1].uid, 1001);
}

#[test]
fn no_desktop_user_offers_the_generic_account() {
    let users = users_from_passwd("# comment\nroot:x:0:0:root:/root:/bin/bash\nshort:x:1000\n");
    assert_eq!(users.len(), 1);
    assert_eq!(users[0].username, "user");
    assert_eq!(users[0].display_name, "User");
    assert_eq!(users[0].uid, 1000);
    assert_eq!(users[0].icon_path, None);
}

#[test]
fn desktop_session_reads_only_the_main_group() {
    let entry = session_entry_of(
        "test",
        "[Desktop Action Other]\nExec=/bin/false\n[Desktop Entry]\nName=Test Session\nExec=/usr/bin/env \"XDG_CURRENT_DESKTOP=Test Session\" /usr/bin/sway\nType=Application\n",
    )
    .unwrap();
    assert_eq!(entry.0, "Test Session");
    assert_eq!(
        entry.1,
        "/usr/bin/env \"XDG_CURRENT_DESKTOP=Test Session\" /usr/bin/sway"
    );
}

#[test]
fn desktop_sessions_without_command_or_with_field_codes_are_skipped() {
    assert_eq!(session_entry_of("a", "[Desktop Entry]\nName=A\n"), None);
    assert_eq!(
        session_entry_of("b", "[Desktop Entry]\nExec=sway %U\n"),
        None
    );
    assert_eq!(
        session_entry_of("c", "[Desktop Entry]\nExec=sway\n"),
        Some(("c".to_string(), "sway".to_string()))
    );
}

fn message(kind: &str, text: &str) -> GreetdResponse {
    GreetdResponse::AuthMessage {
        auth_message_type: kind.into(),
        auth_message: text.into(),
    }
}

#[test]
fn protocol_continues_multiple_prompts_and_rejects_failed_session_start() {
    let mut login = Login::new(&vec!["/usr/bin/sway".into()], "DeckLock-test-42".into()).unwrap();
    let mut prompts = Vec::new();
    let mut answer = |kind: &str, text: &str| {
        prompts.push((kind.to_string(), text.to_string()));
        match kind {
            "info" | "error" => Ok(Some("must-not-send".to_string())),
            "visible" => Ok(Some("123456".to_string())),
            "secret" => Ok(Some("DeckLock-test-42".to_string())),
            _ => panic!("unexpected kind"),
        }
    };
    // create_session answered with an informational message.
    let step = login.respond(message("info", "Policy notice"));
    let LoginStep::Prompt { kind, message: text } = step else {
        panic!("expected a prompt")
    };
    assert_eq!(login.answer(answer(&kind, &text)), LoginStep::Respond(None));
    let step = login.respond(message("visible", "One-time code"));
    let LoginStep::Prompt { kind, message: text } = step else {
        panic!("expected a prompt")
    };
    assert_eq!(
        login.answer(answer(&kind, &text)),
        LoginStep::Respond(Some("123456".into()))
    );
    // The password typed in advance answers the secret prompt directly.
    assert_eq!(
        login.respond(message("secret", "Password")),
        LoginStep::Respond(Some("DeckLock-test-42".into()))
    );
    assert_eq!(login.respond(GreetdResponse::Success), LoginStep::StartSession);
    let result = login.respond(GreetdResponse::Error {
        error_type: "error".into(),
        description: "Session refused".into(),
    });
    assert_eq!(result, LoginStep::Finish(Err("Session refused".into())));
    assert_eq!(prompts[0], ("info".into(), "Policy notice".into()));
    assert_eq!(prompts[1], ("visible".into(), "One-time code".into()));
    assert_eq!(login.phase(), Phase::Over);
}

#[test]
fn protocol_cancels_when_user_aborts_a_prompt() {
    let mut login = Login::new(&vec!["/usr/bin/sway".into()], String::new()).unwrap();
    let step = login.respond(message("visible", "Code"));
    assert!(matches!(step, LoginStep::Prompt { .. }));
    assert_eq!(
        login.answer(Err("Prompt canceled".into())),
        LoginStep::Cancel("Prompt canceled".into())
    );
}

#[test]
fn an_unanswered_secret_prompt_cancels() {
    let mut login = Login::new(&vec!["sway".into()], String::new()).unwrap();
    assert!(matches!(
        login.respond(message("secret", "Password")),
        LoginStep::Prompt { .. }
    ));
    assert_eq!(
        login.answer(Ok(None)),
        LoginStep::Cancel("Authentication prompt was not answered".into())
    );
}

#[test]
fn unknown_messages_and_endless_conversations_cancel() {
    let mut login = Login::new(&vec!["sway".into()], String::new()).unwrap();
    assert_eq!(
        login.respond(message("riddle", "?")),
        LoginStep::Cancel("Unknown greetd authentication message type".into())
    );
    let mut login = Login::new(&vec!["sway".into()], String::new()).unwrap();
    for _ in 0..32 {
        assert!(matches!(login.respond(message("info", "hi")), LoginStep::Prompt { .. }));
        assert_eq!(login.answer(Ok(None)), LoginStep::Respond(None));
    }
    assert_eq!(
        login.respond(message("info", "hi")),
        LoginStep::Cancel("Too many greetd authentication messages".into())
    );
}

#[test]
fn a_session_needs_a_command_and_a_prompt_while_starting_fails() {
    assert_eq!(
        Login::new(&vec![], "x".into()).err(),
        Some("No desktop session was selected".to_string())
    );
    let mut login = Login::new(&vec!["sway".into()], String::new()).unwrap();
    assert_eq!(login.respond(GreetdResponse::Success), LoginStep::StartSession);
    assert_eq!(
        login.respond(message("secret", "again")),
        LoginStep::Finish(Err(
            "Unexpected authentication prompt while starting session".into()
        ))
    );
    let mut login = Login::new(&vec!["sway".into()], String::new()).unwrap();
    assert_eq!(login.respond(GreetdResponse::Success), LoginStep::StartSession);
    assert_eq!(login.respond(GreetdResponse::Success), LoginStep::Finish(Ok(())));
}

#[test]
fn pictures_are_looked_up_per_user_in_order() {
    let passwd = "root:x:0:0:root:/root:/bin/bash\n\
                  yan:x:1000:1000:Yan Vidal,,,:/home/yan:/bin/bash\n\
                  guest:x:1001:1001::/home/guest/:/usr/bin/zsh\n";
    let icons = user_icon_candidates(passwd);
    assert_eq!(icons.len(), users_from_passwd(passwd).len());
    assert_eq!(
        icons[0],
        vec![
            "/home/yan/.face".to_string(),
            "/home/yan/.face.icon".into(),
            "/var/lib/AccountsService/icons/yan".into()
        ]
    );
    assert_eq!(icons[1][0], "/home/guest/.face");
    let fallback = user_icon_candidates("root:x:0:0:root:/root:/bin/bash\n");
    assert_eq!(fallback, vec![Vec::<String>::new()]);
}

fn session(id: &str, name: &str) -> DesktopSession {
    DesktopSession { id: id.into(), name: name.into(), command: vec![format!("/usr/bin/{id}")] }
}

#[test]
fn sessions_are_listed_once_each_in_id_order() {
    let found = vec![
        session("sway", "Sway"),
        session("hyprland", "Hyprland"),
        session("sway", "Sway (second copy)"),
        session("Zeta", "Zeta"),
        session("hyprland-uwsm", "Hyprland (uwsm)"),
        session("ébène", "Ébène"),
    ];
    let listed = sessions_in_order(found);
    let ids: Vec<&str> = listed.iter().map(|s| s.id.as_str()).collect();
    assert_eq!(ids, vec!["Zeta", "hyprland", "hyprland-uwsm", "sway", "ébène"]);
    assert_eq!(listed[3].name, "Sway");
    assert!(sessions_in_order(Vec::new()).is_empty());
}
