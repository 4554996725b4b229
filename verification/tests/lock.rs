use decklock::lock::{Guarantees, Protocol};

#[test]
fn the_wayland_lock_survives_exit_and_isolates_input() {
    assert_eq!(
        Protocol::Wayland.guarantees(),
        Guarantees {
            survives_process_exit: true,
            isolates_input: true
        }
    );
}
