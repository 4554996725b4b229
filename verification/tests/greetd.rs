use decklock::greetd::{
    cancel_session, create_session, payload_length, post_auth_response, start_session,
    MAX_MESSAGE,
};

#[test]
fn requests_are_compact_json_with_sorted_keys() {
    assert_eq!(
        create_session("locktest"),
        "{\"type\":\"create_session\",\"username\":\"locktest\"}"
    );
    assert_eq!(
        post_auth_response(None),
        "{\"response\":null,\"type\":\"post_auth_message_response\"}"
    );
    assert_eq!(
        post_auth_response(Some("123456")),
        "{\"response\":\"123456\",\"type\":\"post_auth_message_response\"}"
    );
    assert_eq!(
        start_session(&vec!["/usr/bin/sway".to_string()], &vec![]),
        "{\"cmd\":[\"/usr/bin/sway\"],\"env\":[],\"type\":\"start_session\"}"
    );
    assert_eq!(
        start_session(
            &vec!["/usr/bin/env".to_string(), "A=b c".into()],
            &vec!["X=1".to_string(), "Y=2".into()]
        ),
        "{\"cmd\":[\"/usr/bin/env\",\"A=b c\"],\"env\":[\"X=1\",\"Y=2\"],\"type\":\"start_session\"}"
    );
    assert_eq!(cancel_session(), "{\"type\":\"cancel_session\"}");
}

#[test]
fn strings_are_escaped_as_json_does() {
    for text in [
        "plain",
        "quote \" and back\\slash",
        "line\nfeed\ttab\rreturn",
        "\u{8}\u{c}\u{1}\u{1f}\u{7f}",
        "ação ☃ 🦀",
        "",
    ] {
        let want = format!(
            "{{\"type\":\"create_session\",\"username\":{}}}",
            serde_json::to_string(text).unwrap()
        );
        assert_eq!(create_session(text), want, "{text:?}");
    }
}

#[test]
fn oversized_responses_are_refused() {
    assert_eq!(payload_length(17), Ok(17));
    assert_eq!(payload_length(MAX_MESSAGE), Ok(65536));
    assert_eq!(
        payload_length(65537),
        Err("Message too large: 65537 bytes".to_string())
    );
}

#[test]
fn control_characters_are_written_in_lower_case_hex() {
    assert_eq!(
        create_session("a\u{1}\u{1f}\"\\"),
        "{\"type\":\"create_session\",\"username\":\"a\\u0001\\u001f\\\"\\\\\"}"
    );
}
