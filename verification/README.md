# DeckLock, verified core

DeckLock is a customizable Wayland lock screen. This crate holds the parts of it
whose behaviour can be stated and proved: every function under `src/` carries a
Verus contract, and the laws the lock screen relies on are proof functions that
Verus checks.

## Layout

- `src/` — the verified library (`decklock`).
  - `session` — who may unlock: only the current successful attempt, once, after
    the lock is confirmed; termination never unlocks.
  - `auth` — which requests reach the PAM helper, what its exit status means, how
    PAM text is flattened and bounded before it is shown.
  - `faillock` — reading `faillock.conf` and the `faillock(8)` table, and the
    lockout and remaining-attempt lines derived from them.
  - `keyboard`, `entry` — the embedded keyboard (levels, dead keys, one-shot and
    latched modifiers) and the password field it edits.
  - `controller` — the sc-controller line framing, protocol and capture state
    machine.
  - `greeter`, `greetd` — accounts and sessions for the greeter, the greetd
    conversation state machine and its JSON requests.
  - `library`, `procedural`, `animation`, `themes` — media kinds, pools and the
    per-lock selection, procedural items and their settings, palettes.
  - `config`, `config_cli`, `i18n`, `paths`, `setup`, `shortcut`, `preview_stats` —
    settings rules, `config get/set/unset` on the TOML document, path composition
    and ordering, locale choice, the greetd and hypridle setup edits, the
    shortcut pid file, process memory.
  - `document` — what a `toml` table holds and the operations the editors use.
  - `text`, `clock` — shared text specifications and the clocks.
- `tests/` — executable tests of the library.
- `app/` — the `decklock` command around the library: file, process, socket and
  PAM access, the serde schemas of its files, and the command line.

The graphical windows (GTK4, the session-lock protocol, media playback) are not
part of this crate.
