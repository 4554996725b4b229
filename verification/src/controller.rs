//! Optional sc-controller Unix protocol client: line framing, event decoding
//! and the capture protocol. Never captures on connection.
use crate::text::{
    chars_of, has_prefix, is, slice, starts, string_of, texts, words, words_of,
};
use vstd::prelude::*;

verus! {

pub const MAX_LINE: usize = 8192;

/// The inputs DeckLock captures while the keyboard is open.
pub const SOURCES: &'static str = "LPAD RPAD LPADTOUCH RPADTOUCH LPADPRESS RPADPRESS LT RT A B X Y C LB RB LGRIP RGRIP LGRIP2 RGRIP2";

#[derive(Debug, Clone, Copy, PartialEq, Eq, Structural)]
pub enum Side {
    Left,
    Right,
}

#[derive(Debug, Clone, PartialEq, Eq)]
pub enum ControllerEvent {
    Connected,
    Disconnected,
    Pad { side: Side, x: i32, y: i32 },
    Button { name: String, pressed: bool },
    Trigger { side: Side, value: i32 },
    Error(String),
}

/// The names of the captured inputs.
pub open spec fn is_source(name: Seq<char>) -> bool {
    words(SOURCES@).contains(name)
}

/// The fields of an `Event:` line for controller `id`: the input name, the
/// first value and the second value, as text.
pub open spec fn event_fields_of(line: Seq<char>, id: Seq<char>) -> Option<(Seq<char>, Seq<char>, Option<Seq<char>>)> {
    if !has_prefix(line, "Event:"@) {
        None
    } else {
        let w = words(line.skip(6));
        if w.len() < 3 || w[0] != id {
            None
        } else {
            Some((w[1], w[2], if w.len() > 3 { Some(w[3]) } else { None }))
        }
    }
}

/// The name, first value and (when present) second value of an `Event:`
/// line from controller `id`. Values are decoded by the caller.
pub fn event_fields(line: &str, id: &str) -> (r: Option<(String, String, Option<String>)>)
    ensures
        match r {
            Some(f) => event_fields_of(line@, id@) == Some((f.0@, f.1@, crate::text::opt_text(f.2))),
            None => event_fields_of(line@, id@) is None,
        },
{
    proof {
        reveal_strlit("Event:");
    }
    let l = chars_of(line);
    if !starts(&l, &chars_of("Event:")) {
        return None;
    }
    let rest = slice(&l, 6, l.len());
    assert(rest@ == line@.skip(6));
    let w = words_of(&rest);
    let ghost ws = words(line@.skip(6));
    if w.len() < 3 {
        return None;
    }
    assert(w@[0]@ == ws[0] && w@[1]@ == ws[1] && w@[2]@ == ws[2]);
    if !crate::text::same(&w[0], &chars_of(id)) {
        return None;
    }
    let second = if w.len() > 3 {
        assert(w@[3]@ == ws[3]);
        Some(string_of(&w[3]))
    } else {
        None
    };
    Some((string_of(&w[1]), string_of(&w[2]), second))
}

/// The event that an input and its decoded values describe: pads carry two
/// coordinates, triggers a value from 0 to 255, buttons 0 (released) or 1.
pub open spec fn classified(name: Seq<char>, value: i32, second: Option<i32>) -> Option<(ControllerEventView)> {
    if name == "LPAD"@ || name == "RPAD"@ {
        match second {
            Some(y) => Some(ControllerEventView::Pad(if name == "LPAD"@ { Side::Left } else { Side::Right }, value, y)),
            None => None,
        }
    } else if (name == "LT"@ || name == "RT"@) && 0 <= value <= 255 {
        Some(ControllerEventView::Trigger(if name == "LT"@ { Side::Left } else { Side::Right }, value))
    } else if is_source(name) && (value == 0 || value == 1) {
        Some(ControllerEventView::Button(name, value == 1))
    } else {
        None
    }
}

/// An event as plain values.
pub enum ControllerEventView {
    Connected,
    Disconnected,
    Pad(Side, i32, i32),
    Button(Seq<char>, bool),
    Trigger(Side, i32),
    Error(Seq<char>),
}

pub open spec fn event_view(e: ControllerEvent) -> ControllerEventView {
    match e {
        ControllerEvent::Connected => ControllerEventView::Connected,
        ControllerEvent::Disconnected => ControllerEventView::Disconnected,
        ControllerEvent::Pad { side, x, y } => ControllerEventView::Pad(side, x, y),
        ControllerEvent::Button { name, pressed } => ControllerEventView::Button(name@, pressed),
        ControllerEvent::Trigger { side, value } => ControllerEventView::Trigger(side, value),
        ControllerEvent::Error(t) => ControllerEventView::Error(t@),
    }
}

fn source_listed(name: &Vec<char>) -> (r: bool)
    ensures
        r == is_source(name@),
{
    let sources = words_of(&chars_of(SOURCES));
    let mut k: usize = 0;
    while k < sources.len()
        invariant
            k <= sources.len(),
            texts(sources@) == words(SOURCES@),
            forall|j: int| 0 <= j < k ==> texts(sources@)[j] != name@,
        decreases sources.len() - k,
    {
        assert(texts(sources@)[k as int] == sources@[k as int]@);
        if crate::text::same(&sources[k], name) {
            assert(words(SOURCES@)[k as int] == name@);
            return true;
        }
        k += 1;
    }
    assert(!words(SOURCES@).contains(name@)) by {
        if words(SOURCES@).contains(name@) {
            let j = choose|j: int| 0 <= j < words(SOURCES@).len() && words(SOURCES@)[j] == name@;
            assert(texts(sources@)[j] != name@);
        }
    }
    false
}

/// The event an input name and its decoded values describe.
pub fn classify(name: &str, value: i32, second: Option<i32>) -> (r: Option<ControllerEvent>)
    ensures
        match r {
            Some(e) => classified(name@, value, second) == Some(event_view(e)),
            None => classified(name@, value, second) is None,
        },
{
    let n = chars_of(name);
    if is(&n, "LPAD") || is(&n, "RPAD") {
        let y = match second {
            Some(y) => y,
            None => return None,
        };
        let side = if is(&n, "LPAD") {
            Side::Left
        } else {
            Side::Right
        };
        return Some(ControllerEvent::Pad { side, x: value, y });
    }
    if (is(&n, "LT") || is(&n, "RT")) && 0 <= value && value <= 255 {
        let side = if is(&n, "LT") {
            Side::Left
        } else {
            Side::Right
        };
        return Some(ControllerEvent::Trigger { side, value });
    }
    if source_listed(&n) && (value == 0 || value == 1) {
        return Some(ControllerEvent::Button { name: string_of(&n), pressed: value == 1 });
    }
    None
}


/// What the client does about one step of the protocol.
#[derive(Debug, Clone, PartialEq, Eq)]
pub enum Reaction {
    /// Write this message to the daemon.
    Send(String),
    /// Tell the interface, dropping the event if its queue is full.
    Notify(ControllerEvent),
    /// The line is an input event of this controller: decode it and deliver
    /// it, closing the connection if the interface cannot keep up.
    Decode(String),
}

pub enum ReactionView {
    Send(Seq<char>),
    Notify(ControllerEventView),
    Decode(Seq<char>),
}

pub open spec fn reaction_view(r: Reaction) -> ReactionView {
    match r {
        Reaction::Send(m) => ReactionView::Send(m@),
        Reaction::Notify(e) => ReactionView::Notify(event_view(e)),
        Reaction::Decode(id) => ReactionView::Decode(id@),
    }
}

pub open spec fn reactions_view(rs: Seq<Reaction>) -> Seq<ReactionView> {
    rs.map_values(|r: Reaction| reaction_view(r))
}

pub open spec fn unlock_message() -> Seq<char> {
    "Unlock.\n"@
}

pub open spec fn select_message(id: Seq<char>) -> Seq<char> {
    "Controller: "@ + id + "\n"@
}

pub open spec fn lock_message() -> Seq<char> {
    "Lock: "@ + SOURCES@ + "\n"@
}

/// The client's view of the capture protocol.
pub struct CaptureView {
    pub controller: Option<Seq<char>>,
    pub ready: bool,
    pub active: bool,
    pub captured: bool,
    pub selecting: bool,
    pub capture_pending: bool,
}

impl CaptureView {
    pub open spec fn initial() -> CaptureView {
        CaptureView {
            controller: None,
            ready: false,
            active: false,
            captured: false,
            selecting: false,
            capture_pending: false,
        }
    }

    /// Before each read: release a capture nobody wants any more, then ask
    /// for the controller when the interface wants input and none is asked.
    pub open spec fn before_read(self) -> (CaptureView, Seq<Seq<char>>) {
        let release = self.captured && !self.active;
        let s1 = if release { CaptureView { captured: false, ..self } } else { self };
        let m1: Seq<Seq<char>> = if release { seq![unlock_message()] } else { seq![] };
        if s1.ready && s1.active && !s1.captured && !s1.selecting && !s1.capture_pending
            && s1.controller is Some {
            (CaptureView { selecting: true, ..s1 }, m1.push(select_message(s1.controller.unwrap())))
        } else {
            (s1, m1)
        }
    }

    /// After one line from the daemon.
    pub open spec fn on_line(self, line: Seq<char>) -> (CaptureView, Seq<ReactionView>) {
        if has_prefix(line, "Controller:"@) {
            let w = words(line.skip(11));
            if self.controller is None && w.len() > 0 {
                (CaptureView { controller: Some(w[0]), ..self }, seq![])
            } else {
                (self, seq![])
            }
        } else if line == "OK."@ && self.selecting {
            if self.active {
                (
                    CaptureView { selecting: false, capture_pending: true, ..self },
                    seq![ReactionView::Send(lock_message())],
                )
            } else {
                (CaptureView { selecting: false, ..self }, seq![])
            }
        } else if line == "OK."@ && self.capture_pending {
            (CaptureView { capture_pending: false, captured: true, ..self }, seq![])
        } else if line == "Ready."@ {
            (
                CaptureView { ready: true, ..self },
                seq![ReactionView::Notify(ControllerEventView::Connected)],
            )
        } else if line == "Controller Count: 0"@ {
            (
                CaptureView { captured: false, controller: None, ..self },
                seq![ReactionView::Notify(ControllerEventView::Disconnected)],
            )
        } else if has_prefix(line, "Fail:"@) || has_prefix(line, "Error:"@) {
            let released: Seq<ReactionView> = if self.captured {
                seq![ReactionView::Send(unlock_message())]
            } else {
                seq![]
            };
            (
                CaptureView {
                    captured: false,
                    active: false,
                    selecting: false,
                    capture_pending: false,
                    ..self
                },
                released.push(ReactionView::Notify(ControllerEventView::Error(line))),
            )
        } else if self.captured && self.controller is Some {
            (self, seq![ReactionView::Decode(self.controller.unwrap())])
        } else {
            (self, seq![])
        }
    }
}

/// The capture protocol of one daemon connection.
pub struct Capture {
    controller: Option<String>,
    ready: bool,
    active: bool,
    captured: bool,
    selecting: bool,
    capture_pending: bool,
}

impl View for Capture {
    type V = CaptureView;

    closed spec fn view(&self) -> CaptureView {
        CaptureView {
            controller: crate::text::opt_text(self.controller),
            ready: self.ready,
            active: self.active,
            captured: self.captured,
            selecting: self.selecting,
            capture_pending: self.capture_pending,
        }
    }
}

fn message(parts: &[&str]) -> (r: String)
    ensures
        r@ == parts@.fold_left(Seq::<char>::empty(), |acc: Seq<char>, p: &str| acc + p@),
{
    let mut out: Vec<char> = Vec::new();
    let mut i: usize = 0;
    assert(parts@.take(0).fold_left(Seq::<char>::empty(), |acc: Seq<char>, p: &str| acc + p@)
        == Seq::<char>::empty());
    while i < parts.len()
        invariant
            i <= parts.len(),
            out@ == parts@.take(i as int).fold_left(
                Seq::<char>::empty(),
                |acc: Seq<char>, p: &str| acc + p@,
            ),
        decreases parts.len() - i,
    {
        crate::text::append(&mut out, &chars_of(parts[i]));
        assert(parts@.take(i + 1).drop_last() == parts@.take(i as int));
        i += 1;
    }
    assert(parts@.take(parts.len() as int) == parts@);
    string_of(&out)
}

impl Capture {
    pub fn new() -> (c: Capture)
        ensures
            c@ == CaptureView::initial(),
    {
        Capture {
            controller: None,
            ready: false,
            active: false,
            captured: false,
            selecting: false,
            capture_pending: false,
        }
    }

    /// The interface wants (or no longer wants) controller input.
    pub fn set_active(&mut self, active: bool)
        ensures
            final(self)@ == (CaptureView { active, ..old(self)@ }),
    {
        self.active = active;
    }

    /// The message to send before the connection closes: a held capture is
    /// always released.
    pub fn stop(&self) -> (r: Option<String>)
        ensures
            crate::text::opt_text(r) == (if self@.captured {
                Some(unlock_message())
            } else {
                None::<Seq<char>>
            }),
    {
        if self.captured {
            Some(string_of(&chars_of("Unlock.\n")))
        } else {
            None
        }
    }

    /// The messages to send before the next read.
    pub fn before_read(&mut self) -> (r: Vec<String>)
        ensures
            (final(self)@, r@.map_values(|m: String| m@)) == old(self)@.before_read(),
    {
        let mut out: Vec<String> = Vec::new();
        if self.captured && !self.active {
            out.push(string_of(&chars_of("Unlock.\n")));
            self.captured = false;
        }
        let ghost first = out@.map_values(|m: String| m@);
        if self.ready && self.active && !self.captured && !self.selecting && !self.capture_pending {
            if let Some(id) = &self.controller {
                let m = message(&[&"Controller: ", id.as_str(), &"\n"]);
                proof {
                    reveal_with_fuel(Seq::fold_left, 4);
                    assert(m@ == select_message(id@));
                }
                out.push(m);
                self.selecting = true;
                assert(out@.map_values(|m: String| m@) =~= first.push(select_message(id@)));
            }
        }
        assert(out@.map_values(|m: String| m@) =~= old(self)@.before_read().1);
        out
    }

    /// The reactions to one line from the daemon.
    pub fn on_line(&mut self, line: &str) -> (r: Vec<Reaction>)
        ensures
            (final(self)@, reactions_view(r@)) == old(self)@.on_line(line@),
    {
        proof {
            reveal_strlit("Controller:");
        }
        let l = chars_of(line);
        let mut out: Vec<Reaction> = Vec::new();
        if starts(&l, &chars_of("Controller:")) {
            let rest = slice(&l, 11, l.len());
            assert(rest@ == line@.skip(11));
            let w = words_of(&rest);
            if self.controller.is_none() && w.len() > 0 {
                assert(w@[0]@ == words(line@.skip(11))[0]);
                self.controller = Some(string_of(&w[0]));
            }
            assert(reactions_view(out@) =~= Seq::<ReactionView>::empty());
            return out;
        }
        if is(&l, "OK.") && self.selecting {
            self.selecting = false;
            if self.active {
                let m = message(&[&"Lock: ", SOURCES, &"\n"]);
                proof {
                    reveal_with_fuel(Seq::fold_left, 4);
                }
                out.push(Reaction::Send(m));
                self.capture_pending = true;
            }
            assert(reactions_view(out@) =~= old(self)@.on_line(line@).1);
            return out;
        }
        if is(&l, "OK.") && self.capture_pending {
            self.capture_pending = false;
            self.captured = true;
            assert(reactions_view(out@) =~= Seq::<ReactionView>::empty());
            return out;
        }
        if is(&l, "Ready.") {
            self.ready = true;
            out.push(Reaction::Notify(ControllerEvent::Connected));
            assert(reactions_view(out@) =~= old(self)@.on_line(line@).1);
            return out;
        }
        if is(&l, "Controller Count: 0") {
            self.captured = false;
            self.controller = None;
            out.push(Reaction::Notify(ControllerEvent::Disconnected));
            assert(reactions_view(out@) =~= old(self)@.on_line(line@).1);
            return out;
        }
        if starts(&l, &chars_of("Fail:")) || starts(&l, &chars_of("Error:")) {
            if self.captured {
                out.push(Reaction::Send(string_of(&chars_of("Unlock.\n"))));
            }
            self.captured = false;
            self.active = false;
            self.selecting = false;
            self.capture_pending = false;
            out.push(Reaction::Notify(ControllerEvent::Error(string_of(&l))));
            assert(reactions_view(out@) =~= old(self)@.on_line(line@).1);
            return out;
        }
        if self.captured {
            if let Some(id) = &self.controller {
                out.push(Reaction::Decode(id.clone()));
            }
        }
        assert(reactions_view(out@) =~= old(self)@.on_line(line@).1);
        out
    }
}

/// The client never asks the daemon for a capture unless the interface wants
/// controller input: a new connection captures nothing, and the only
/// messages that request a capture are sent while active.
pub proof fn law_captures_only_while_active(s: CaptureView, line: Seq<char>)
    ensures
        s.on_line(line).1.contains(ReactionView::Send(lock_message())) ==> s.active,
        s.before_read().1.len() > 0 && s.before_read().1.last() != unlock_message() ==> s.active,
        !CaptureView::initial().before_read().0.selecting,
        CaptureView::initial().before_read().1.len() == 0,
{
    reveal_strlit("Unlock.\n");
    reveal_strlit("Controller: ");
    if s.on_line(line).1.contains(ReactionView::Send(lock_message())) {
        let i = choose|i: int| 0 <= i < s.on_line(line).1.len() && s.on_line(line).1[i] == ReactionView::Send(lock_message());
        if has_prefix(line, "Fail:"@) || has_prefix(line, "Error:"@) {
            reveal_strlit("Lock: ");
            assert(lock_message()[0] != unlock_message()[0]);
        }
    }
}

/// A held capture is always released: when the interface stops wanting
/// input, when the daemon refuses, and when the connection is closed.
pub proof fn law_captures_are_released(s: CaptureView, line: Seq<char>)
    ensures
        s.captured && !s.active ==> s.before_read().1[0] == unlock_message() && !s.before_read().0.captured,
        (has_prefix(line, "Fail:"@) || has_prefix(line, "Error:"@)) && !has_prefix(line, "Controller:"@)
            && line != "OK."@ && line != "Ready."@ && line != "Controller Count: 0"@ ==> {
            &&& !s.on_line(line).0.captured
            &&& !s.on_line(line).0.active
            &&& s.captured ==> s.on_line(line).1[0] == ReactionView::Send(unlock_message())
        },
{
}

/// Input events are only decoded while captured, and only for the selected
/// controller.
pub proof fn law_events_only_while_captured(s: CaptureView, line: Seq<char>, id: Seq<char>)
    ensures
        s.on_line(line).1.contains(ReactionView::Decode(id)) ==> s.captured && s.controller == Some(id),
{
    if s.on_line(line).1.contains(ReactionView::Decode(id)) {
        let i = choose|i: int| 0 <= i < s.on_line(line).1.len() && s.on_line(line).1[i] == ReactionView::Decode(id);
    }
}

/// One thing that happens to a daemon connection: a line from the daemon, the
/// interface wanting (or no longer wanting) input, or the moment before a read.
pub enum CaptureEvent {
    Line(Seq<char>),
    Active(bool),
    Read,
}

/// Whether reactions ask to write something to the daemon.
pub open spec fn writes(rs: Seq<ReactionView>) -> bool {
    exists|i: int| 0 <= i < rs.len() && #[trigger] rs[i] is Send
}

impl CaptureView {
    /// The state and reactions after one event; what `before_read` returns is
    /// written to the daemon.
    pub open spec fn step(self, e: CaptureEvent) -> (CaptureView, Seq<ReactionView>) {
        match e {
            CaptureEvent::Line(line) => self.on_line(line),
            CaptureEvent::Active(active) => (CaptureView { active, ..self }, seq![]),
            CaptureEvent::Read => (
                self.before_read().0,
                self.before_read().1.map_values(|m: Seq<char>| ReactionView::Send(m)),
            ),
        }
    }

    /// The state and all reactions after a sequence of events.
    pub open spec fn run(self, events: Seq<CaptureEvent>) -> (CaptureView, Seq<ReactionView>)
        decreases events.len(),
    {
        if events.len() == 0 {
            (self, seq![])
        } else {
            let first = self.step(events[0]);
            let rest = first.0.run(events.drop_first());
            (rest.0, first.1 + rest.1)
        }
    }

    /// Nothing of the capture protocol has started.
    pub open spec fn idle(self) -> bool {
        !self.active && !self.selecting && !self.capture_pending && !self.captured
    }
}

proof fn lemma_idle_step(s: CaptureView, e: CaptureEvent)
    requires
        s.idle(),
        e != CaptureEvent::Active(true),
    ensures
        s.step(e).0.idle(),
        !writes(s.step(e).1),
{
    let r = s.step(e).1;
    if writes(r) {
        let i = choose|i: int| 0 <= i < r.len() && #[trigger] r[i] is Send;
    }
}

/// No capture on connect: until the interface asks for controller input, the
/// client writes nothing to the daemon, whatever the daemon says.
pub proof fn law_nothing_written_until_active(events: Seq<CaptureEvent>)
    requires
        forall|i: int| 0 <= i < events.len() ==> #[trigger] events[i] != CaptureEvent::Active(true),
    ensures
        !writes(CaptureView::initial().run(events).1),
{
    lemma_idle_run(CaptureView::initial(), events);
}

proof fn lemma_idle_run(s: CaptureView, events: Seq<CaptureEvent>)
    requires
        s.idle(),
        forall|i: int| 0 <= i < events.len() ==> #[trigger] events[i] != CaptureEvent::Active(true),
    ensures
        s.run(events).0.idle(),
        !writes(s.run(events).1),
    decreases events.len(),
{
    if events.len() > 0 {
        assert(events[0] != CaptureEvent::Active(true));
        lemma_idle_step(s, events[0]);
        let rest = events.drop_first();
        assert forall|i: int| 0 <= i < rest.len() implies #[trigger] rest[i] != CaptureEvent::Active(true) by {
            assert(rest[i] == events[i + 1]);
        }
        lemma_idle_run(s.step(events[0]).0, rest);
        let a = s.step(events[0]).1;
        let b = s.step(events[0]).0.run(rest).1;
        if writes(a + b) {
            let i = choose|i: int| 0 <= i < (a + b).len() && #[trigger] (a + b)[i] is Send;
            if i < a.len() {
                assert(a[i] is Send);
            } else {
                assert(b[i - a.len()] is Send);
            }
        }
    }
}

proof fn lemma_capture_step(s: CaptureView, e: CaptureEvent)
    ensures
        s.step(e).0.captured || s.step(e).0.capture_pending ==> s.captured || s.capture_pending
            || s.step(e).1.contains(ReactionView::Send(lock_message())),
{
    let r = s.step(e);
    if (r.0.captured || r.0.capture_pending) && !(s.captured || s.capture_pending) {
        assert(r.1[0] == ReactionView::Send(lock_message()));
    }
}

/// A capture is only ever held after the client asked the daemon for one: a
/// connection that starts without a capture is captured only once a
/// `Lock:` request has been written.
pub proof fn law_captured_only_after_request(s: CaptureView, events: Seq<CaptureEvent>)
    requires
        !s.captured,
        !s.capture_pending,
    ensures
        s.run(events).0.captured ==> s.run(events).1.contains(ReactionView::Send(lock_message())),
{
    lemma_capture_run(s, events);
}

proof fn lemma_capture_run(s: CaptureView, events: Seq<CaptureEvent>)
    ensures
        s.run(events).0.captured || s.run(events).0.capture_pending ==> s.captured || s.capture_pending
            || s.run(events).1.contains(ReactionView::Send(lock_message())),
    decreases events.len(),
{
    if events.len() > 0 {
        let first = s.step(events[0]);
        let rest = events.drop_first();
        lemma_capture_step(s, events[0]);
        lemma_capture_run(first.0, rest);
        let a = first.1;
        let b = first.0.run(rest).1;
        let m = ReactionView::Send(lock_message());
        if a.contains(m) {
            let i = choose|i: int| 0 <= i < a.len() && a[i] == m;
            assert((a + b)[i] == m);
        }
        if b.contains(m) {
            let i = choose|i: int| 0 <= i < b.len() && b[i] == m;
            assert((a + b)[a.len() + i] == m);
        }
    }
}

pub const LINE_TOO_LONG: &'static str = "controller protocol line too long";

pub const BAD_UTF8: &'static str = "invalid controller UTF-8";

/// Where the first newline of received bytes is, if any.
pub open spec fn first_newline(bytes: Seq<u8>) -> Option<int>
    decreases bytes.len(),
{
    if bytes.len() == 0 {
        None
    } else if bytes[0] == 10 {
        Some(0)
    } else {
        match first_newline(bytes.drop_first()) {
            Some(i) => Some(i + 1),
            None => None,
        }
    }
}

proof fn lemma_first_newline(bytes: Seq<u8>, i: int)
    requires
        0 <= i <= bytes.len(),
        forall|j: int| 0 <= j < i ==> bytes[j] != 10,
    ensures
        i < bytes.len() && bytes[i] == 10 ==> first_newline(bytes) == Some(i),
        i == bytes.len() ==> first_newline(bytes) is None,
    decreases i,
{
    if i > 0 {
        lemma_first_newline(bytes.drop_first(), i - 1);
    } else if bytes.len() > 0 {
        assert(bytes[0] == bytes[i]);
    }
}

/// What `std::str::from_utf8` reads from bytes: the text, when they are
/// valid UTF-8.
pub uninterp spec fn utf8_decoded(bytes: Seq<u8>) -> Option<Seq<char>>;

/// `std::str::from_utf8`, the text copied out.
#[verifier::external_body]
fn decode_utf8(bytes: &Vec<u8>) -> (r: Option<String>)
    ensures
        crate::text::opt_text(r) == utf8_decoded(bytes@),
{
    std::str::from_utf8(bytes).ok().map(|s| s.to_string())
}

/// Take the next complete line from the bytes received so far: nothing while
/// no newline has arrived, an error for a line longer than [`MAX_LINE`] or
/// one that is not UTF-8, else the line, which leaves the buffer with its
/// newline.
pub fn take_line(buffer: &mut Vec<u8>) -> (r: Result<Option<String>, String>)
    ensures
        match first_newline(old(buffer)@) {
            None => r matches Ok(None) && final(buffer)@ == old(buffer)@,
            Some(end) => if end > MAX_LINE {
                r matches Err(e) && e@ == LINE_TOO_LONG@
            } else {
                match utf8_decoded(old(buffer)@.take(end)) {
                    None => r matches Err(e) && e@ == BAD_UTF8@,
                    Some(text) => r matches Ok(Some(l)) && l@ == text && final(buffer)@ == old(
                        buffer,
                    )@.skip(end + 1),
                }
            },
        },
{
    let mut end: usize = 0;
    while end < buffer.len() && buffer[end] != 10
        invariant
            end <= buffer.len(),
            forall|j: int| 0 <= j < end ==> buffer@[j] != 10,
        decreases buffer.len() - end,
    {
        end += 1;
    }
    proof {
        lemma_first_newline(buffer@, end as int);
    }
    if end == buffer.len() {
        return Ok(None);
    }
    if end > MAX_LINE {
        return Err(string_of(&chars_of(LINE_TOO_LONG)));
    }
    let mut line: Vec<u8> = Vec::new();
    let mut i: usize = 0;
    while i < end
        invariant
            i <= end,
            end < buffer.len(),
            line@ == buffer@.take(i as int),
        decreases end - i,
    {
        line.push(buffer[i]);
        assert(buffer@.take(i + 1) =~= buffer@.take(i as int).push(buffer@[i as int]));
        i += 1;
    }
    let text = match decode_utf8(&line) {
        Some(t) => t,
        None => return Err(string_of(&chars_of(BAD_UTF8))),
    };
    let mut rest: Vec<u8> = Vec::new();
    let mut k: usize = end + 1;
    while k < buffer.len()
        invariant
            end + 1 <= k <= buffer.len(),
            rest@ == buffer@.subrange(end + 1, k as int),
        decreases buffer.len() - k,
    {
        rest.push(buffer[k]);
        assert(buffer@.subrange(end + 1, k + 1) =~= buffer@.subrange(end + 1, k as int).push(
            buffer@[k as int],
        ));
        k += 1;
    }
    assert(rest@ =~= buffer@.skip(end + 1));
    *buffer = rest;
    Ok(Some(text))
}

/// Each input reports its own side: the left trigger and pad report the left
/// side, the right ones the right side, and a trigger carries its pull as
/// given, from 0 to 255.
pub proof fn law_inputs_report_their_side(value: i32, second: Option<i32>, y: i32)
    ensures
        0 <= value <= 255 ==> classified("LT"@, value, second) == Some(
            ControllerEventView::Trigger(Side::Left, value),
        ),
        0 <= value <= 255 ==> classified("RT"@, value, second) == Some(
            ControllerEventView::Trigger(Side::Right, value),
        ),
        !(0 <= value <= 255) ==> classified("LT"@, value, second) is None && classified(
            "RT"@,
            value,
            second,
        ) is None,
        classified("LPAD"@, value, Some(y)) == Some(ControllerEventView::Pad(Side::Left, value, y)),
        classified("RPAD"@, value, Some(y)) == Some(ControllerEventView::Pad(Side::Right, value, y)),
{
    reveal_strlit("LT");
    reveal_strlit("RT");
    reveal_strlit("LPAD");
    reveal_strlit("RPAD");
    assert("LT"@.len() != "LPAD"@.len() && "LT"@.len() != "RPAD"@.len());
    assert("RT"@.len() != "LPAD"@.len() && "RT"@.len() != "RPAD"@.len());
    assert("LT"@[0] != "RT"@[0]);
    assert("LPAD"@[0] != "RPAD"@[0]);
    if !(0 <= value <= 255) {
        assert(!is_source("LT"@) || !(value == 0 || value == 1));
    }
}

} // verus!
