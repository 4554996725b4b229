use decklock::faillock::{assess, describe, parse_failures, parse_policy, Advice, Failures, LockoutTexts, Policy};

fn english() -> LockoutTexts {
    LockoutTexts {
        locked_in: "Account locked by failed attempts. Try again in %s.".into(),
        locked: "Account locked by failed attempts.".into(),
        attempt_left: "1 attempt left before the account is locked.".into(),
        attempts_left: "%n attempts left before the account is locked.".into(),
    }
}

#[test]
fn a_countdown_is_rendered_as_minutes_and_seconds() {
    let advice = Advice {
        locked: true,
        locked_for: Some(420),
        ..Default::default()
    };
    assert_eq!(
        describe(&advice, Some(419), &english()).as_deref(),
        Some("Account locked by failed attempts. Try again in 6:59.")
    );
}

#[test]
fn a_long_lockout_keeps_counting_in_minutes_rather_than_hours() {
    let advice = Advice {
        locked: true,
        locked_for: Some(5400),
        ..Default::default()
    };
    assert_eq!(
        describe(&advice, Some(5400), &english()).as_deref(),
        Some("Account locked by failed attempts. Try again in 90:00.")
    );
}

#[test]
fn an_expired_countdown_drops_back_to_the_plain_lockout_notice() {
    let advice = Advice {
        locked: true,
        locked_for: Some(60),
        ..Default::default()
    };
    assert_eq!(
        describe(&advice, Some(0), &english()).as_deref(),
        Some("Account locked by failed attempts.")
    );
}

#[test]
fn a_lockout_without_a_reported_time_still_says_it_is_locked() {
    let advice = Advice {
        locked: true,
        ..Default::default()
    };
    assert_eq!(
        describe(&advice, None, &english()).as_deref(),
        Some("Account locked by failed attempts.")
    );
}

#[test]
fn remaining_attempts_are_announced_while_the_account_still_works() {
    let advice = Advice {
        attempts_left: Some(2),
        ..Default::default()
    };
    assert_eq!(
        describe(&advice, None, &english()).as_deref(),
        Some("2 attempts left before the account is locked.")
    );
}

#[test]
fn a_lockout_replaces_the_remaining_attempts_line() {
    let advice = Advice {
        locked: true,
        locked_for: Some(120),
        attempts_left: Some(0),
        raw: None,
    };
    assert_eq!(
        describe(&advice, Some(120), &english()).as_deref(),
        Some("Account locked by failed attempts. Try again in 2:00.")
    );
}

#[test]
fn a_single_remaining_attempt_uses_the_singular_message() {
    let advice = Advice {
        attempts_left: Some(1),
        ..Default::default()
    };
    assert_eq!(
        describe(&advice, None, &english()).as_deref(),
        Some("1 attempt left before the account is locked.")
    );
}

#[test]
fn no_attempts_left_without_a_reported_lockout_stays_quiet() {
    let advice = Advice {
        attempts_left: Some(0),
        ..Default::default()
    };
    assert_eq!(describe(&advice, None, &english()), None);
}

#[test]
fn unrecognized_module_text_is_shown_as_it_came() {
    let advice = Advice {
        raw: Some("Your password will expire in 2 days.".into()),
        ..Default::default()
    };
    assert_eq!(
        describe(&advice, None, &english()).as_deref(),
        Some("Your password will expire in 2 days.")
    );
}

#[test]
fn nothing_to_say_adds_no_line() {
    assert_eq!(describe(&Advice::default(), None, &english()), None);
}

#[test]
fn many_remaining_attempts_are_written_in_decimal() {
    let advice = Advice {
        attempts_left: Some(12),
        ..Default::default()
    };
    assert_eq!(
        describe(&advice, None, &english()).as_deref(),
        Some("12 attempts left before the account is locked.")
    );
}

#[test]
fn a_countdown_under_ten_seconds_is_zero_padded() {
    let advice = Advice {
        locked: true,
        ..Default::default()
    };
    assert_eq!(
        describe(&advice, Some(65), &english()).as_deref(),
        Some("Account locked by failed attempts. Try again in 1:05.")
    );
}

#[test]
fn policy_reads_documented_keys_and_ignores_the_rest() {
    let config = "# comment\ndeny = 4\nunlock_time=900\nnodelay\naudit\n";
    assert_eq!(parse_policy(config), Policy { deny: Some(4) });
}

#[test]
fn policy_stays_empty_when_the_file_says_nothing_usable() {
    for config in [
        "",
        "# only comments\n",
        "deny\n",
        "deny = many\n",
        "deny = -1\n",
    ] {
        assert_eq!(parse_policy(config), Policy::default(), "{config:?}");
    }
}

#[test]
fn the_last_deny_line_wins_and_comments_are_cut() {
    assert_eq!(parse_policy("deny = 3\ndeny = 7 # later\r\n"), Policy { deny: Some(7) });
    assert_eq!(parse_policy("deny = 3\ndeny = x\n"), Policy { deny: None });
    assert_eq!(parse_policy("  deny=+9  "), Policy { deny: Some(9) });
    assert_eq!(parse_policy("deny = 4294967296\n"), Policy { deny: None });
    assert_eq!(parse_policy("# deny = 5\n"), Policy { deny: None });
}

#[test]
fn failures_count_only_valid_rows() {
    let table = "yan:\n\
         When                Type  Source            Valid\n\
         2026-09-09 08:00:00 TTY   tty2              V\n\
         2026-09-09 08:01:30 TTY   tty2              I\n\
         2026-09-09 08:02:00 TTY   tty2              V\n";
    assert_eq!(parse_failures(table), Some(Failures { valid: 2 }));
}

#[test]
fn failures_report_an_empty_but_well_formed_table() {
    let table = "yan:\nWhen                Type  Source            Valid\n";
    assert_eq!(parse_failures(table), Some(Failures { valid: 0 }));
}

#[test]
fn failures_reject_output_that_is_not_the_expected_table() {
    for table in ["", "faillock: Unknown option\n", "yan:\ngarbage row here\n"] {
        assert_eq!(parse_failures(table), None, "{table:?}");
    }
}

#[test]
fn failures_reject_a_row_with_an_unknown_mark_or_short_date() {
    let header = "When                Type  Source  Valid\n";
    assert_eq!(parse_failures(&format!("{header}2026-09-09 08:00:00 TTY tty2 X\n")), None);
    assert_eq!(parse_failures(&format!("{header}26-09-09 08:00:00 TTY tty2 V\n")), None);
    assert_eq!(parse_failures(&format!("{header}2026-09-09\n")), None);
}

#[test]
fn locked_message_becomes_a_countdown() {
    let advice = assess(
        Some("The account is locked due to 3 failed logins. (7 minutes left to unlock)"),
        &Policy::default(),
        None,
    );
    assert!(advice.locked);
    assert_eq!(advice.locked_for, Some(7 * 60));
    assert_eq!(advice.raw, None);
}

#[test]
fn a_single_remaining_minute_uses_the_singular_message() {
    let advice = assess(
        Some("The account is locked due to 3 failed logins. (1 minute left to unlock)"),
        &Policy::default(),
        None,
    );
    assert_eq!(advice.locked_for, Some(60));
}

#[test]
fn a_lockout_without_a_remaining_time_reports_no_countdown() {
    let advice = assess(
        Some("The account is locked due to 3 failed logins."),
        &Policy::default(),
        None,
    );
    assert!(advice.locked);
    assert_eq!(advice.locked_for, None);
    assert_eq!(advice.raw, None);
}

#[test]
fn attempts_left_need_both_the_threshold_and_the_failures() {
    let failures = Failures { valid: 1 };
    let known = assess(None, &Policy { deny: Some(3) }, Some(&failures));
    assert_eq!(known.attempts_left, Some(2));
    let without_threshold = assess(None, &Policy::default(), Some(&failures));
    assert_eq!(without_threshold.attempts_left, None);
    let without_failures = assess(None, &Policy { deny: Some(3) }, None);
    assert_eq!(without_failures.attempts_left, None);
}

#[test]
fn a_reached_threshold_never_reports_a_negative_countdown_of_attempts() {
    let advice = assess(
        None,
        &Policy { deny: Some(3) },
        Some(&Failures { valid: 5 }),
    );
    assert_eq!(advice.attempts_left, Some(0));
}

#[test]
fn unrecognized_pam_text_is_passed_through_for_display() {
    let advice = assess(
        Some("Your password will expire in 2 days."),
        &Policy::default(),
        None,
    );
    assert_eq!(
        advice.raw.as_deref(),
        Some("Your password will expire in 2 days.")
    );
    assert!(!advice.locked);
    assert_eq!(advice.locked_for, None);
}

#[test]
fn no_pam_text_and_no_policy_says_nothing() {
    assert_eq!(assess(None, &Policy::default(), None), Advice::default());
}

#[test]
fn a_lockout_too_long_to_count_down_is_locked_without_a_countdown() {
    let advice = assess(
        Some("The account is locked due to 3 failed logins. (307445734561825861 minutes left to unlock)"),
        &Policy::default(),
        None,
    );
    assert!(advice.locked);
    assert_eq!(advice.locked_for, None);
    assert_eq!(advice.raw, None);
    let largest = assess(
        Some("The account is locked due to 3 failed logins. (307445734561825860 minutes left to unlock)"),
        &Policy::default(),
        None,
    );
    assert_eq!(largest.locked_for, Some(307445734561825860 * 60));
}
