//! Unlock authorization, independent of widgets, themes and compositor callbacks.
//!
//! A session starts either as a preview, which can never authenticate, or
//! waiting for the compositor to confirm the lock. Only a successful result for
//! the attempt that is currently pending authorizes an unlock, and only once.
use vstd::prelude::*;

verus! {

/// Where a session stands.
#[derive(Debug, Clone, Copy, PartialEq, Eq, Structural)]
pub enum State {
    Preview,
    Waiting,
    Locked,
    Authenticating(u64),
    Unlocked,
    Terminated,
}

/// The abstract state of a [`Session`]: its state and the last attempt number issued.
pub struct SessionView {
    pub state: State,
    pub generation: u64,
}

/// One operation a caller can apply to a session.
pub enum Op {
    MarkLocked,
    BeginAuth,
    CompleteAuth(u64, bool),
    Terminate,
}

impl SessionView {
    pub open spec fn initial(preview: bool) -> SessionView {
        SessionView { state: if preview { State::Preview } else { State::Waiting }, generation: 0 }
    }

    /// `mark_locked` succeeds only while waiting for the compositor.
    pub open spec fn can_mark_locked(self) -> bool {
        self.state == State::Waiting
    }

    pub open spec fn after_mark_locked(self) -> SessionView {
        if self.can_mark_locked() {
            SessionView { state: State::Locked, ..self }
        } else {
            self
        }
    }

    /// `begin_auth` issues a new attempt only when locked, and
    /// while attempt numbers remain.
    pub open spec fn can_begin_auth(self) -> bool {
        self.state == State::Locked && self.generation < u64::MAX
    }

    pub open spec fn after_begin_auth(self) -> SessionView {
        if self.can_begin_auth() {
            SessionView {
                state: State::Authenticating((self.generation + 1) as u64),
                generation: (self.generation + 1) as u64,
            }
        } else {
            self
        }
    }

    /// The result of `attempt` is the current one.
    pub open spec fn is_current(self, attempt: u64) -> bool {
        self.state == State::Authenticating(attempt)
    }

    pub open spec fn after_complete_auth(self, attempt: u64, success: bool) -> SessionView {
        if self.is_current(attempt) {
            SessionView {
                state: if success { State::Unlocked } else { State::Locked },
                ..self
            }
        } else {
            self
        }
    }

    /// `complete_auth` grants the unlock exactly for a current, successful result.
    pub open spec fn grants(self, attempt: u64, success: bool) -> bool {
        self.is_current(attempt) && success
    }

    pub open spec fn after_terminate(self) -> SessionView {
        SessionView { state: State::Terminated, ..self }
    }

    /// The state after one operation.
    pub open spec fn apply(self, op: Op) -> SessionView {
        match op {
            Op::MarkLocked => self.after_mark_locked(),
            Op::BeginAuth => self.after_begin_auth(),
            Op::CompleteAuth(attempt, success) => self.after_complete_auth(attempt, success),
            Op::Terminate => self.after_terminate(),
        }
    }

    /// Whether the operation authorizes an unlock.
    pub open spec fn unlocks(self, op: Op) -> bool {
        match op {
            Op::CompleteAuth(attempt, success) => self.grants(attempt, success),
            _ => false,
        }
    }

    /// The state after a sequence of operations.
    pub open spec fn run(self, ops: Seq<Op>) -> SessionView
        decreases ops.len(),
    {
        if ops.len() == 0 {
            self
        } else {
            self.apply(ops[0]).run(ops.drop_first())
        }
    }

    /// How many operations of the sequence authorize an unlock.
    pub open spec fn unlock_count(self, ops: Seq<Op>) -> nat
        decreases ops.len(),
    {
        if ops.len() == 0 {
            0
        } else {
            (if self.unlocks(ops[0]) { 1nat } else { 0nat }) + self.apply(ops[0]).unlock_count(
                ops.drop_first(),
            )
        }
    }

    /// How many unlocks can still be granted from this state.
    pub open spec fn unlocks_left(self) -> nat {
        match self.state {
            State::Preview | State::Unlocked | State::Terminated => 0,
            _ => 1,
        }
    }
}

pub struct Session {
    state: State,
    generation: u64,
}

impl View for Session {
    type V = SessionView;

    closed spec fn view(&self) -> SessionView {
        SessionView { state: self.state, generation: self.generation }
    }
}

impl Session {
    pub fn new(preview: bool) -> (s: Self)
        ensures
            s@ == SessionView::initial(preview),
    {
        Session {
            state: if preview {
                State::Preview
            } else {
                State::Waiting
            },
            generation: 0,
        }
    }

    /// Called only after the compositor confirms ownership of the session lock.
    pub fn mark_locked(&mut self) -> (r: bool)
        ensures
            r == old(self)@.can_mark_locked(),
            final(self)@ == old(self)@.after_mark_locked(),
    {
        if self.state != State::Waiting {
            return false;
        }
        self.state = State::Locked;
        true
    }

    pub fn begin_auth(&mut self) -> (r: Option<u64>)
        ensures
            r == (if old(self)@.can_begin_auth() {
                Some((old(self)@.generation + 1) as u64)
            } else {
                None::<u64>
            }),
            final(self)@ == old(self)@.after_begin_auth(),
    {
        if self.state != State::Locked {
            return None;
        }
        let next = self.generation.checked_add(1)?;
        self.generation = next;
        self.state = State::Authenticating(next);
        Some(next)
    }

    /// A true return is the sole authorization to request compositor unlock.
    pub fn complete_auth(&mut self, attempt: u64, success: bool) -> (r: bool)
        ensures
            r == old(self)@.grants(attempt, success),
            final(self)@ == old(self)@.after_complete_auth(attempt, success),
    {
        if self.state != State::Authenticating(attempt) {
            return false;
        }
        self.state = if success {
            State::Unlocked
        } else {
            State::Locked
        };
        success
    }

    /// Close, signal and compositor failure invalidate all outstanding attempts.
    pub fn terminate(&mut self)
        ensures
            final(self)@ == old(self)@.after_terminate(),
    {
        self.state = State::Terminated;
    }

    pub fn is_authenticating(&self) -> (r: bool)
        ensures
            r == (self@.state is Authenticating),
    {
        matches!(self.state, State::Authenticating(_))
    }
}

/// A single step never grants more unlocks than the state had left, and a
/// granting step leaves none.
proof fn lemma_step_unlocks(s: SessionView, op: Op)
    ensures
        s.unlocks(op) ==> s.unlocks_left() == 1 && s.apply(op).unlocks_left() == 0,
        s.apply(op).unlocks_left() <= s.unlocks_left(),
{
}

/// Over any sequence of operations, a session authorizes at most as many
/// unlocks as it has left: at most one for a real lock, none for a preview,
/// none once unlocked or terminated.
pub proof fn law_unlocks_are_bounded(s: SessionView, ops: Seq<Op>)
    ensures
        s.unlock_count(ops) <= s.unlocks_left(),
    decreases ops.len(),
{
    if ops.len() > 0 {
        lemma_step_unlocks(s, ops[0]);
        law_unlocks_are_bounded(s.apply(ops[0]), ops.drop_first());
    }
}

/// A preview never authorizes an unlock, whatever happens to it.
pub proof fn law_preview_never_unlocks(ops: Seq<Op>)
    ensures
        SessionView::initial(true).unlock_count(ops) == 0,
{
    law_unlocks_are_bounded(SessionView::initial(true), ops);
}

/// A real lock authorizes at most one unlock over its whole life.
pub proof fn law_lock_unlocks_once(ops: Seq<Op>)
    ensures
        SessionView::initial(false).unlock_count(ops) <= 1,
{
    law_unlocks_are_bounded(SessionView::initial(false), ops);
}

/// Once terminated, a session stays terminated and authorizes nothing.
pub proof fn law_termination_is_final(s: SessionView, ops: Seq<Op>)
    requires
        s.state == State::Terminated,
    ensures
        s.run(ops).state == State::Terminated,
        s.unlock_count(ops) == 0,
    decreases ops.len(),
{
    if ops.len() > 0 {
        law_termination_is_final(s.apply(ops[0]), ops.drop_first());
    }
}

/// Only a compositor-confirmed lock can ever be authenticating: a preview, or
/// a lock still waiting for confirmation, never issues an attempt on its own.
pub proof fn law_no_attempt_before_confirmation(s: SessionView, op: Op)
    requires
        s.state == State::Preview || s.state == State::Waiting,
    ensures
        s.apply(op).state is Authenticating ==> false,
        s.state == State::Preview ==> s.apply(op).state == State::Preview || s.apply(
            op,
        ).state == State::Terminated,
{
}

/// Attempt numbers never repeat: the generation never decreases, and a new
/// attempt is numbered above every earlier one.
pub proof fn law_attempts_increase(s: SessionView, ops: Seq<Op>)
    ensures
        s.run(ops).generation >= s.generation,
        s.can_begin_auth() ==> s.after_begin_auth().generation > s.generation,
    decreases ops.len(),
{
    if ops.len() > 0 {
        law_attempts_increase(s.apply(ops[0]), ops.drop_first());
    }
}

/// Whether the `i`-th operation of `ops`, run from `s`, is a `begin_auth`
/// that issued an attempt.
pub open spec fn issues_at(s: SessionView, ops: Seq<Op>, i: int) -> bool {
    ops[i] is BeginAuth && s.run(ops.take(i)).can_begin_auth()
}

/// The attempt number the `i`-th operation issued, if it issued one.
pub open spec fn issued_at(s: SessionView, ops: Seq<Op>, i: int) -> u64 {
    (s.run(ops.take(i)).generation + 1) as u64
}

/// Attempt `a` is pending after `ops`: it was issued by the latest `begin_auth`
/// that issued anything, and since then no result for it came and nothing
/// terminated the session.
pub open spec fn pending(s: SessionView, ops: Seq<Op>, a: u64) -> bool {
    exists|i: int|
        #![trigger issued_at(s, ops, i)]
        0 <= i < ops.len() && issues_at(s, ops, i) && issued_at(s, ops, i) == a && forall|j: int|
            #![trigger ops[j]]
            i < j < ops.len() ==> !(ops[j] is Terminate) && !(ops[j] matches Op::CompleteAuth(b, _) && b
                == a) && !issues_at(s, ops, j)
}

/// Some `mark_locked` of `ops`, run from `s`, returned true.
pub open spec fn marked(s: SessionView, ops: Seq<Op>) -> bool {
    exists|i: int|
        #![trigger ops.take(i)]
        0 <= i < ops.len() && ops[i] is MarkLocked && s.run(ops.take(i)).can_mark_locked()
}

/// `terminate` was called somewhere in `ops`.
pub open spec fn terminated(ops: Seq<Op>) -> bool {
    exists|i: int| 0 <= i < ops.len() && #[trigger] ops[i] is Terminate
}

/// Some `complete_auth` of `ops`, run from `s`, returned true.
pub open spec fn granted(s: SessionView, ops: Seq<Op>) -> bool {
    exists|i: int|
        #![trigger ops.take(i)]
        0 <= i < ops.len() && s.run(ops.take(i)).unlocks(ops[i])
}

proof fn lemma_run_push(s: SessionView, ops: Seq<Op>, op: Op)
    ensures
        s.run(ops.push(op)) == s.run(ops).apply(op),
    decreases ops.len(),
{
    if ops.len() > 0 {
        assert(ops.push(op).drop_first() =~= ops.drop_first().push(op));
        assert(ops.push(op)[0] == ops[0]);
        lemma_run_push(s.apply(ops[0]), ops.drop_first(), op);
    } else {
        assert(ops.push(op).drop_first() =~= Seq::<Op>::empty());
        assert(s.apply(op).run(Seq::<Op>::empty()) == s.apply(op));
        assert(s.run(ops) == s);
    }
}

proof fn lemma_prefixes(ops: Seq<Op>, op: Op)
    ensures
        forall|i: int| 0 <= i <= ops.len() ==> #[trigger] ops.push(op).take(i) == ops.take(i),
        ops.push(op).take(ops.len() as int) == ops,
{
    assert forall|i: int| 0 <= i <= ops.len() implies #[trigger] ops.push(op).take(i) == ops.take(i) by {
        assert(ops.push(op).take(i) =~= ops.take(i));
    }
    assert(ops.take(ops.len() as int) =~= ops);
}

/// A session's `mark_locked` returns true exactly when it is no preview, no
/// earlier `mark_locked` returned true, and it was never terminated.
pub proof fn law_mark_locked_over_histories(preview: bool, ops: Seq<Op>)
    ensures
        SessionView::initial(preview).run(ops).can_mark_locked() <==> !preview && !marked(
            SessionView::initial(preview),
            ops,
        ) && !terminated(ops),
    decreases ops.len(),
{
    let s = SessionView::initial(preview);
    if ops.len() == 0 {
        return;
    }
    let pre = ops.drop_last();
    let last = ops.last();
    assert(ops == pre.push(last));
    law_mark_locked_over_histories(preview, pre);
    lemma_run_push(s, pre, last);
    lemma_prefixes(pre, last);
    let n = pre.len() as int;
    if marked(s, pre) {
        let i = choose|i: int|
            #![trigger pre.take(i)]
            0 <= i < pre.len() && pre[i] is MarkLocked && s.run(pre.take(i)).can_mark_locked();
        assert(ops.take(i) == pre.take(i));
        assert(ops[i] == pre[i]);
    }
    if terminated(pre) {
        let i = choose|i: int| 0 <= i < pre.len() && #[trigger] pre[i] is Terminate;
        assert(ops[i] == pre[i]);
    }
    if last is MarkLocked && s.run(pre).can_mark_locked() {
        assert(ops.take(n) == pre);
        assert(marked(s, ops));
    }
    if last is Terminate {
        assert(ops[n] is Terminate);
    }
    if marked(s, ops) {
        let i = choose|i: int|
            #![trigger ops.take(i)]
            0 <= i < ops.len() && ops[i] is MarkLocked && s.run(ops.take(i)).can_mark_locked();
        if i < n {
            assert(ops.take(i) == pre.take(i));
            assert(ops[i] == pre[i]);
            assert(marked(s, pre));
        }
    }
    if terminated(ops) {
        let i = choose|i: int| 0 <= i < ops.len() && #[trigger] ops[i] is Terminate;
        if i < n {
            assert(ops[i] == pre[i]);
        }
    }
}

proof fn lemma_prefix_facts(s: SessionView, pre: Seq<Op>, last: Op)
    ensures
        forall|i: int|
            0 <= i < pre.len() ==> #[trigger] issues_at(s, pre.push(last), i) == issues_at(s, pre, i)
                && issued_at(s, pre.push(last), i) == issued_at(s, pre, i) && pre.push(last)[i] == pre[i],
        issues_at(s, pre.push(last), pre.len() as int) == (last is BeginAuth && s.run(pre).can_begin_auth()),
        issued_at(s, pre.push(last), pre.len() as int) == (s.run(pre).generation + 1) as u64,
{
    lemma_prefixes(pre, last);
    assert forall|i: int| 0 <= i < pre.len() implies #[trigger] issues_at(s, pre.push(last), i) == issues_at(
        s,
        pre,
        i,
    ) && issued_at(s, pre.push(last), i) == issued_at(s, pre, i) && pre.push(last)[i] == pre[i] by {
        assert(pre.push(last).take(i) == pre.take(i));
    }
}

/// `complete_auth(a, ok)` returns true exactly when `ok` holds and `a` is
/// pending: the number the latest issuing `begin_auth` returned, with no
/// result for it since and no `terminate`. So a preview, a stale number, a
/// repeated result or any call after `terminate` never unlocks.
pub proof fn law_complete_auth_over_histories(preview: bool, ops: Seq<Op>, a: u64, ok: bool)
    ensures
        SessionView::initial(preview).run(ops).is_current(a) <==> pending(
            SessionView::initial(preview),
            ops,
            a,
        ),
        SessionView::initial(preview).run(ops).grants(a, ok) <==> ok && pending(
            SessionView::initial(preview),
            ops,
            a,
        ),
    decreases ops.len(),
{
    let s = SessionView::initial(preview);
    if ops.len() == 0 {
        return;
    }
    let pre = ops.drop_last();
    let last = ops.last();
    let n = pre.len() as int;
    assert(ops == pre.push(last));
    law_complete_auth_over_histories(preview, pre, a, ok);
    lemma_run_push(s, pre, last);
    lemma_prefix_facts(s, pre, last);
    let r = s.run(pre);
    if issues_at(s, ops, n) {
        if pending(s, ops, a) {
            let i = choose|i: int|
                #![trigger issued_at(s, ops, i)]
                0 <= i < ops.len() && issues_at(s, ops, i) && issued_at(s, ops, i) == a && forall|j: int|
                    #![trigger ops[j]]
                    i < j < ops.len() ==> !(ops[j] is Terminate) && !(ops[j] matches Op::CompleteAuth(b, _)
                        && b == a) && !issues_at(s, ops, j);
            if i < n {
                assert(!issues_at(s, ops, n)) by {
                    assert(ops[n] == last);
                }
            }
        }
        if r.apply(last).is_current(a) {
            assert(issued_at(s, ops, n) == a);
            assert(pending(s, ops, a));
        }
    } else {
        if pending(s, pre, a) && !(last is Terminate) && !(last matches Op::CompleteAuth(b, _) && b == a) {
            let i = choose|i: int|
                #![trigger issued_at(s, pre, i)]
                0 <= i < pre.len() && issues_at(s, pre, i) && issued_at(s, pre, i) == a && forall|j: int|
                    #![trigger pre[j]]
                    i < j < pre.len() ==> !(pre[j] is Terminate) && !(pre[j] matches Op::CompleteAuth(b, _)
                        && b == a) && !issues_at(s, pre, j);
            assert(issues_at(s, ops, i) == issues_at(s, pre, i));
            assert(issued_at(s, ops, i) == a);
            assert forall|j: int| #![trigger ops[j]] i < j < ops.len() implies !(ops[j] is Terminate) && !(
            ops[j] matches Op::CompleteAuth(b, _) && b == a) && !issues_at(s, ops, j) by {
                if j < n {
                    assert(issues_at(s, ops, j) == issues_at(s, pre, j));
                    assert(pre[j] == ops[j]);
                } else {
                    assert(ops[j] == last);
                }
            }
            assert(pending(s, ops, a));
        }
        if pending(s, ops, a) {
            let i = choose|i: int|
                #![trigger issued_at(s, ops, i)]
                0 <= i < ops.len() && issues_at(s, ops, i) && issued_at(s, ops, i) == a && forall|j: int|
                    #![trigger ops[j]]
                    i < j < ops.len() ==> !(ops[j] is Terminate) && !(ops[j] matches Op::CompleteAuth(b, _)
                        && b == a) && !issues_at(s, ops, j);
            assert(i < n);
            assert(issues_at(s, ops, i) == issues_at(s, pre, i));
            assert(issued_at(s, pre, i) == a);
            assert forall|j: int| #![trigger pre[j]] i < j < pre.len() implies !(pre[j] is Terminate) && !(
            pre[j] matches Op::CompleteAuth(b, _) && b == a) && !issues_at(s, pre, j) by {
                assert(issues_at(s, ops, j) == issues_at(s, pre, j));
                assert(ops[j] == pre[j]);
            }
            assert(pending(s, pre, a));
            assert(ops[n] == last);
        }
    }
}

/// How the history facts of `pre` followed by `last` come from those of `pre`.
proof fn lemma_flags_push(s: SessionView, pre: Seq<Op>, last: Op)
    ensures
        marked(s, pre.push(last)) <==> marked(s, pre) || (last is MarkLocked && s.run(pre).can_mark_locked()),
        terminated(pre.push(last)) <==> terminated(pre) || last is Terminate,
        granted(s, pre.push(last)) <==> granted(s, pre) || s.run(pre).unlocks(last),
{
    let ops = pre.push(last);
    let n = pre.len() as int;
    lemma_prefixes(pre, last);
    assert(ops[n] == last);
    if marked(s, pre) {
        let i = choose|i: int|
            #![trigger pre.take(i)]
            0 <= i < pre.len() && pre[i] is MarkLocked && s.run(pre.take(i)).can_mark_locked();
        assert(ops.take(i) == pre.take(i));
        assert(ops[i] == pre[i]);
    }
    if last is MarkLocked && s.run(pre).can_mark_locked() {
        assert(ops.take(n) == pre);
    }
    if marked(s, ops) {
        let i = choose|i: int|
            #![trigger ops.take(i)]
            0 <= i < ops.len() && ops[i] is MarkLocked && s.run(ops.take(i)).can_mark_locked();
        if i < n {
            assert(ops.take(i) == pre.take(i));
            assert(ops[i] == pre[i]);
        }
    }
    if terminated(pre) {
        let i = choose|i: int| 0 <= i < pre.len() && #[trigger] pre[i] is Terminate;
        assert(ops[i] == pre[i]);
    }
    if terminated(ops) {
        let i = choose|i: int| 0 <= i < ops.len() && #[trigger] ops[i] is Terminate;
        if i < n {
            assert(ops[i] == pre[i]);
        }
    }
    if granted(s, pre) {
        let i = choose|i: int| #![trigger pre.take(i)] 0 <= i < pre.len() && s.run(pre.take(i)).unlocks(pre[i]);
        assert(ops.take(i) == pre.take(i));
        assert(ops[i] == pre[i]);
    }
    if s.run(pre).unlocks(last) {
        assert(ops.take(n) == pre);
    }
    if granted(s, ops) {
        let i = choose|i: int| #![trigger ops.take(i)] 0 <= i < ops.len() && s.run(ops.take(i)).unlocks(ops[i]);
        if i < n {
            assert(ops.take(i) == pre.take(i));
            assert(ops[i] == pre[i]);
        }
    }
}

/// What each state of a session says about its history.
proof fn lemma_history_states(preview: bool, ops: Seq<Op>)
    ensures
        ({
            let s = SessionView::initial(preview);
            let r = s.run(ops);
            &&& (r.state == State::Preview || r.state == State::Waiting) ==> !marked(s, ops) && !granted(
                s,
                ops,
            ) && !terminated(ops)
            &&& r.state is Authenticating ==> marked(s, ops) && !terminated(ops) && !granted(s, ops)
            &&& r.state == State::Locked <==> marked(s, ops) && !terminated(ops) && !granted(s, ops)
                && !(r.state is Authenticating)
            &&& forall|i: int|
                0 <= i < ops.len() && #[trigger] issues_at(s, ops, i) ==> issued_at(s, ops, i)
                    <= r.generation
        }),
    decreases ops.len(),
{
    let s = SessionView::initial(preview);
    if ops.len() == 0 {
        return;
    }
    let pre = ops.drop_last();
    let last = ops.last();
    let n = pre.len() as int;
    assert(ops == pre.push(last));
    lemma_history_states(preview, pre);
    lemma_run_push(s, pre, last);
    lemma_flags_push(s, pre, last);
    lemma_prefix_facts(s, pre, last);
    let r = s.run(pre);
    assert(s.run(ops).generation >= r.generation);
    assert forall|i: int| 0 <= i < ops.len() && #[trigger] issues_at(s, ops, i) implies issued_at(s, ops, i)
        <= s.run(ops).generation by {
        if i < n {
            assert(issues_at(s, pre, i));
        }
    }
}

/// `begin_auth` issues an attempt exactly when some `mark_locked` returned
/// true, `terminate` was never called, no `complete_auth` returned true, no
/// attempt is pending, and attempt numbers remain; the number it issues is
/// above every number issued before.
pub proof fn law_begin_auth_over_histories(preview: bool, ops: Seq<Op>)
    ensures
        ({
            let s = SessionView::initial(preview);
            let r = s.run(ops);
            &&& r.state == State::Locked <==> marked(s, ops) && !terminated(ops) && !granted(s, ops) && !(
            exists|a: u64| pending(s, ops, a))
            &&& r.can_begin_auth() <==> marked(s, ops) && !terminated(ops) && !granted(s, ops) && !(
            exists|a: u64| pending(s, ops, a)) && r.generation < u64::MAX
            &&& forall|i: int|
                0 <= i < ops.len() && #[trigger] issues_at(s, ops, i) ==> issued_at(s, ops, i)
                    < r.after_begin_auth().generation || !r.can_begin_auth()
        }),
{
    let s = SessionView::initial(preview);
    let r = s.run(ops);
    lemma_history_states(preview, ops);
    if let State::Authenticating(g) = r.state {
        law_complete_auth_over_histories(preview, ops, g, true);
    }
    if exists|a: u64| pending(s, ops, a) {
        let a = choose|a: u64| pending(s, ops, a);
        law_complete_auth_over_histories(preview, ops, a, true);
    }
}

} // verus!
