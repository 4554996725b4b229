use decklock::session::Session;

#[test]
fn preview_and_unconfirmed_lock_cannot_authenticate_or_unlock() {
    for preview in [true, false] {
        let mut session = Session::new(preview);
        assert_eq!(session.begin_auth(), None);
        assert!(!session.complete_auth(0, true));
    }
    assert!(!Session::new(true).mark_locked());
}

#[test]
fn only_current_success_unlocks_once() {
    let mut session = Session::new(false);
    assert!(session.mark_locked());
    let first = session.begin_auth().unwrap();
    assert!(session.is_authenticating());
    assert_eq!(session.begin_auth(), None);
    assert!(!session.complete_auth(first, false));
    let second = session.begin_auth().unwrap();
    assert!(!session.complete_auth(first, true));
    assert!(session.complete_auth(second, true));
    assert!(!session.complete_auth(second, true));
    assert_eq!(session.begin_auth(), None);
}

#[test]
fn termination_never_authorizes_unlock_even_after_pending_success() {
    let mut session = Session::new(false);
    session.mark_locked();
    let attempt = session.begin_auth().unwrap();
    session.terminate();
    assert!(!session.complete_auth(attempt, true));
    assert!(!session.mark_locked());
    assert_eq!(session.begin_auth(), None);
}

#[test]
fn only_a_current_success_after_confirmed_ownership_can_unlock() {
    // Seven operations, all sequences of length seven, in preview and real mode.
    for preview in [true, false] {
        for encoded in 0..7usize.pow(7) {
            let mut sequence = encoded;
            let mut session = Session::new(preview);
            let (mut confirmed, mut terminated, mut unlocked) = (false, false, false);
            let mut pending = None;
            let mut last_issued = 0;
            for _ in 0..7 {
                let operation = sequence % 7;
                sequence /= 7;
                match operation {
                    0 => {
                        let allowed = !preview && !confirmed && !terminated && !unlocked;
                        assert_eq!(session.mark_locked(), allowed, "sequence {encoded}");
                        confirmed |= allowed;
                    }
                    1 => {
                        let attempt = session.begin_auth();
                        assert_eq!(
                            attempt.is_some(),
                            confirmed && !terminated && !unlocked && pending.is_none(),
                            "sequence {encoded}"
                        );
                        if let Some(id) = attempt {
                            assert!(id > last_issued);
                            last_issued = id;
                            pending = Some(id);
                        }
                    }
                    2..=5 => {
                        let attempt = match operation {
                            2 | 3 => last_issued,
                            4 => last_issued.saturating_sub(1),
                            _ => u64::MAX,
                        };
                        let success = operation != 3;
                        let current =
                            pending == Some(attempt) && confirmed && !terminated && !unlocked;
                        let granted = session.complete_auth(attempt, success);
                        assert_eq!(
                            granted,
                            current && success,
                            "sequence {encoded}, op {operation}"
                        );
                        if current {
                            pending = None;
                            unlocked |= success;
                        }
                    }
                    _ => {
                        session.terminate();
                        terminated = true;
                        pending = None;
                    }
                }
                assert_eq!(
                    session.is_authenticating(),
                    pending.is_some() && !terminated && !unlocked
                );
            }
        }
    }
}

#[test]
fn only_the_pending_attempt_of_a_confirmed_lock_unlocks() {
    let mut preview = Session::new(true);
    assert!(!preview.mark_locked());
    assert_eq!(preview.begin_auth(), None);
    assert!(!preview.complete_auth(1, true));

    let mut s = Session::new(false);
    assert_eq!(s.begin_auth(), None);
    assert!(s.mark_locked());
    assert!(!s.mark_locked());
    assert_eq!(s.begin_auth(), Some(1));
    assert_eq!(s.begin_auth(), None);
    assert!(!s.complete_auth(1, false));
    assert_eq!(s.begin_auth(), Some(2));
    assert!(!s.complete_auth(1, true));
    assert!(s.complete_auth(2, true));
    assert!(!s.complete_auth(2, true));
    assert_eq!(s.begin_auth(), None);

    let mut t = Session::new(false);
    assert!(t.mark_locked());
    assert_eq!(t.begin_auth(), Some(1));
    t.terminate();
    assert!(!t.complete_auth(1, true));
    assert!(!t.mark_locked());
    assert_eq!(t.begin_auth(), None);
}
