use decklock::controller::{
    classify, event_fields, take_line, Capture, ControllerEvent, Reaction, Side, MAX_LINE,
};

#[test]
fn parser_rejects_bad_input_and_preserves_touch_release() {
    // The library splits the line and classifies decoded values; the numeric
    // decoding of the value texts (floating point) is the application's.
    let (name, value, second) = event_fields("Event: c LPADTOUCH 0", "c").unwrap();
    assert_eq!((name.as_str(), value.as_str(), second), ("LPADTOUCH", "0", None));
    assert_eq!(
        classify(&name, 0, None),
        Some(ControllerEvent::Button {
            name: "LPADTOUCH".into(),
            pressed: false
        })
    );
    assert!(event_fields("Event: other LPAD 1 2", "c").is_none());
    assert_eq!(
        event_fields("Event: c LPAD nan 2", "c"),
        Some(("LPAD".to_string(), "nan".to_string(), Some("2".to_string())))
    );
    assert_eq!(
        event_fields("Event: c LPAD 9999999 2", "c"),
        Some(("LPAD".to_string(), "9999999".to_string(), Some("2".to_string())))
    );
}

#[test]
fn event_fields_split_an_event_line_of_the_selected_controller() {
    assert_eq!(
        event_fields("Event: test LPAD 12 -34", "test"),
        Some(("LPAD".to_string(), "12".to_string(), Some("-34".to_string())))
    );
    assert_eq!(
        event_fields("Event: test RT 255", "test"),
        Some(("RT".to_string(), "255".to_string(), None))
    );
    assert_eq!(event_fields("Event: test RT", "test"), None);
    assert_eq!(event_fields("Ready.", "test"), None);
    assert_eq!(event_fields("Event: other A 1", "test"), None);
}

#[test]
fn classification_follows_the_kind_of_input() {
    assert_eq!(
        classify("LPAD", 12, Some(-34)),
        Some(ControllerEvent::Pad {
            side: Side::Left,
            x: 12,
            y: -34
        })
    );
    assert_eq!(classify("RPAD", 1, None), None);
    assert_eq!(
        classify("RT", 255, None),
        Some(ControllerEvent::Trigger {
            side: Side::Right,
            value: 255
        })
    );
    assert_eq!(classify("LT", 256, None), None);
    assert_eq!(
        classify("A", 1, None),
        Some(ControllerEvent::Button {
            name: "A".into(),
            pressed: true
        })
    );
    assert_eq!(classify("A", 2, None), None);
    assert_eq!(classify("STEAM", 1, None), None);
}

#[test]
fn capture_follows_the_explicit_lifecycle() {
    let mut c = Capture::new();
    assert!(c.on_line("Controller: test deck 0 None").is_empty());
    assert_eq!(
        c.on_line("Ready."),
        vec![Reaction::Notify(ControllerEvent::Connected)]
    );
    // Never captures on connection.
    assert!(c.before_read().is_empty());
    c.set_active(true);
    assert_eq!(c.before_read(), vec!["Controller: test\n".to_string()]);
    assert!(c.before_read().is_empty());
    let lock = c.on_line("OK.");
    assert_eq!(lock.len(), 1);
    match &lock[0] {
        Reaction::Send(m) => assert!(m.starts_with("Lock: LPAD RPAD")),
        other => panic!("unexpected {other:?}"),
    }
    assert!(c.on_line("OK.").is_empty());
    assert_eq!(
        c.on_line("Event: test LPAD 12 -34"),
        vec![Reaction::Decode("test".into())]
    );
    assert_eq!(c.stop(), Some("Unlock.\n".to_string()));
    c.set_active(false);
    assert_eq!(c.before_read(), vec!["Unlock.\n".to_string()]);
    assert_eq!(c.stop(), None);
}

#[test]
fn refusals_release_the_capture_and_stop_asking() {
    let mut c = Capture::new();
    c.on_line("Controller: deck");
    c.on_line("Ready.");
    c.set_active(true);
    c.before_read();
    c.on_line("OK.");
    c.on_line("OK.");
    let r = c.on_line("Fail: busy");
    assert_eq!(
        r,
        vec![
            Reaction::Send("Unlock.\n".into()),
            Reaction::Notify(ControllerEvent::Error("Fail: busy".into()))
        ]
    );
    assert!(c.before_read().is_empty());
    assert!(c.on_line("Event: deck A 1").is_empty());
}

#[test]
fn a_vanished_controller_is_reported_and_forgotten() {
    let mut c = Capture::new();
    c.on_line("Controller: deck");
    assert_eq!(
        c.on_line("Controller Count: 0"),
        vec![Reaction::Notify(ControllerEvent::Disconnected)]
    );
    c.on_line("Ready.");
    c.set_active(true);
    assert!(c.before_read().is_empty());
    assert_eq!(MAX_LINE, 8192);
}

#[test]
fn lines_are_framed_one_at_a_time_and_bounded() {
    let mut buffer = b"OK.\nEvent: test LP".to_vec();
    assert_eq!(take_line(&mut buffer), Ok(Some("OK.".to_string())));
    assert_eq!(take_line(&mut buffer), Ok(None));
    assert_eq!(buffer, b"Event: test LP".to_vec());
    buffer.extend_from_slice(b"AD 12 -34\n");
    assert_eq!(take_line(&mut buffer), Ok(Some("Event: test LPAD 12 -34".to_string())));
    assert!(buffer.is_empty());
    let mut long = vec![b'x'; MAX_LINE + 1];
    long.push(b'\n');
    assert_eq!(take_line(&mut long), Err("controller protocol line too long".to_string()));
    let mut exact = vec![b'x'; MAX_LINE];
    exact.push(b'\n');
    assert_eq!(take_line(&mut exact).unwrap().map(|l| l.len()), Some(MAX_LINE));
    let mut bad = vec![0xff, b'\n'];
    assert_eq!(take_line(&mut bad), Err("invalid controller UTF-8".to_string()));
}
