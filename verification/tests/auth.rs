use decklock::auth::{
    helper_outcome, preflight, record_notice, reply_for, sanitize_notice, valid_password,
    valid_service, Outcome, Reply, MAX_NOTICE_BYTES, MAX_PASSWORD_BYTES,
};

#[test]
fn rejects_invalid_requests_before_spawning() {
    assert!(!valid_service("../login"));
    assert!(!valid_service(""));
    assert!(valid_service("decklock-test"));
    for password in [vec![], vec![0], vec![b'x'; MAX_PASSWORD_BYTES + 1]] {
        assert!(!valid_password(&password));
        assert_eq!(preflight("login", &password), Ok(false));
    }
    assert_eq!(preflight("login", b"secret"), Ok(true));
    assert_eq!(
        preflight("../login", b"secret"),
        Err("Invalid PAM service name".to_string())
    );
    assert!(!valid_service(&"a".repeat(129)));
    assert!(valid_service(&"a".repeat(128)));
}

#[test]
fn pam_text_reaches_the_caller_with_the_denial() {
    assert_eq!(
        helper_outcome(Some(1), b"The account is locked due to 3 failed logins."),
        Ok(Outcome {
            accepted: false,
            notice: Some("The account is locked due to 3 failed logins.".into()),
        })
    );
}

#[test]
fn helper_text_is_flattened_and_bounded_before_display() {
    let mut raw = b"first\nsecond\ttab\r\x1b[31m  spaced  ".to_vec();
    raw.extend(std::iter::repeat(b'x').take(4000));
    let notice = sanitize_notice(&raw).expect("sanitized text");
    assert!(
        notice.starts_with("first second tab [31m spaced x"),
        "{notice:?}"
    );
    assert!(!notice.contains('\n') && !notice.contains('\t') && !notice.contains('\r'));
    assert!(notice.len() <= MAX_NOTICE_BYTES, "{} bytes", notice.len());
    assert_eq!(notice.len(), MAX_NOTICE_BYTES);
}

#[test]
fn a_silent_helper_reports_no_text() {
    assert_eq!(
        helper_outcome(Some(0), b"   "),
        Ok(Outcome {
            accepted: true,
            notice: None
        })
    );
}

#[test]
fn fake_helper_acceptance_denial_and_crash_are_distinct() {
    for (code, expected) in [(Some(0), Some(true)), (Some(1), Some(false)), (None, None), (Some(2), None)] {
        let result = helper_outcome(code, b"");
        assert_eq!(result.map(|outcome| outcome.accepted).ok(), expected);
    }
    assert_eq!(
        helper_outcome(None, b""),
        Err("Authentication helper failed".to_string())
    );
}

#[test]
fn a_long_word_is_cut_at_a_character_boundary_without_a_trailing_space() {
    let raw = format!("{} {}", "é".repeat(255), "é");
    let notice = sanitize_notice(raw.as_bytes()).unwrap();
    assert_eq!(notice, "é".repeat(255));
    let raw = format!("{} {}", "é".repeat(255), "ab");
    let notice = sanitize_notice(raw.as_bytes()).unwrap();
    assert_eq!(notice, format!("{} a", "é".repeat(255)));
    assert_eq!(sanitize_notice(&[0xff, b'a']).as_deref(), Some("\u{fffd}a"));
}

#[test]
fn conversation_answers_password_and_username_and_rejects_unknown_prompts() {
    assert_eq!(reply_for(1), Reply::Password);
    assert_eq!(reply_for(2), Reply::Username);
    assert_eq!(reply_for(3), Reply::Notice);
    assert_eq!(reply_for(4), Reply::Notice);
    assert_eq!(reply_for(7), Reply::Refuse);
    let mut notices = String::new();
    for style in [3, 4] {
        record_notice(&mut notices, &format!("message {style}"));
    }
    assert_eq!(notices, "message 3 message 4");
    let mut full = "x".repeat(512);
    record_notice(&mut full, "more");
    assert_eq!(full.len(), 512);
}
