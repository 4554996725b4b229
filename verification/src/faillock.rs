//! Best-effort reading of the local pam_faillock policy, for display only.
//!
//! Nothing here authorizes, denies or delays authentication: PAM remains the
//! only authority. Anything unexpected yields `None`, so the lock screen stays
//! silent rather than showing a wrong number.
use crate::text::{
    append, chars_of, contains, decimal, decimal_of, decimal_text, decimal_u64,
    digit_suffix, digit_suffix_start, ends, find, find_in, first_index, has_prefix, has_suffix,
    index_of, is, is_digit, lines, lines_of, opt_text, parse_u32, parse_u32_of, replace_all,
    replaced, slice, split, starts, string_of, texts, trim, trimmed, utf8_len, utf8_len_is, words,
    words_of,
};
use vstd::prelude::*;

verus! {

/// Values read from faillock.conf. Absent fields are never replaced by the
/// module's compiled-in defaults, which cannot be observed.
#[derive(Debug, Default, Clone, Copy, PartialEq, Eq)]
pub struct Policy {
    pub deny: Option<u32>,
}

/// Failures currently counted against the account, as faillock(8) reports them.
#[derive(Debug, Clone, Copy, PartialEq, Eq)]
pub struct Failures {
    pub valid: u32,
}

/// What the lock screen may tell the user. Every field is independent.
#[derive(Debug, Default, Clone, PartialEq, Eq)]
pub struct Advice {
    /// PAM reported the account as locked, whether or not it said for how long.
    pub locked: bool,
    /// Remaining lockout in seconds, when PAM reported one.
    pub locked_for: Option<u64>,
    /// Attempts before the lockout, only when both deny and failures are known.
    pub attempts_left: Option<u32>,
    /// PAM text that was not recognized, shown as it came.
    pub raw: Option<String>,
}

/// The interface texts `describe` chooses from. `locked_in` holds `%s` where
/// the countdown goes, `attempts_left` holds `%n` where the count goes.
#[derive(Debug, Clone)]
pub struct LockoutTexts {
    pub locked_in: String,
    pub locked: String,
    pub attempt_left: String,
    pub attempts_left: String,
}

/// A configuration line without its `#` comment.
pub open spec fn uncommented(line: Seq<char>) -> Seq<char> {
    line.take(first_index(line, '#'))
}

/// The `deny` value a line sets, if the line sets one: `Some(None)` for a
/// `deny` key whose value is not a number.
pub open spec fn deny_setting(line: Seq<char>) -> Option<Option<u32>> {
    let l = trim(uncommented(line));
    let p = first_index(l, '=');
    if p < l.len() && trim(l.take(p)) == "deny"@ {
        Some(parse_u32(trim(l.skip(p + 1))))
    } else {
        None
    }
}

/// The `deny` value of a configuration: the last line that sets it wins.
pub open spec fn deny_in(ls: Seq<Seq<char>>) -> Option<u32>
    decreases ls.len(),
{
    if ls.len() == 0 {
        None
    } else {
        match deny_setting(ls.last()) {
            Some(v) => v,
            None => deny_in(ls.drop_last()),
        }
    }
}

fn deny_setting_of(line: &Vec<char>) -> (r: Option<Option<u32>>)
    ensures
        r == deny_setting(line@),
{
    let cut = index_of(line, '#');
    let l = trimmed(&slice(line, 0, cut));
    let p = index_of(&l, '=');
    if p < l.len() {
        let key = trimmed(&slice(&l, 0, p));
        if is(&key, "deny") {
            let value = trimmed(&slice(&l, p + 1, l.len()));
            assert(l@.subrange(p + 1, l@.len() as int) == l@.skip(p + 1));
            return Some(parse_u32_of(&value));
        }
    }
    None
}

/// Read the documented keys from faillock.conf. Anything else is left unset.
pub fn parse_policy(config: &str) -> (r: Policy)
    ensures
        r.deny == deny_in(lines(config@)),
{
    let text = chars_of(config);
    let ls = lines_of(&text);
    let mut deny: Option<u32> = None;
    let mut k: usize = 0;
    assert(texts(ls@).take(0) == Seq::<Seq<char>>::empty());
    while k < ls.len()
        invariant
            k <= ls.len(),
            deny == deny_in(texts(ls@).take(k as int)),
        decreases ls.len() - k,
    {
        let ghost t = texts(ls@).take(k + 1);
        assert(t.drop_last() == texts(ls@).take(k as int));
        assert(t.last() == ls@[k as int]@);
        match deny_setting_of(&ls[k]) {
            Some(v) => deny = v,
            None => {},
        }
        k += 1;
    }
    assert(texts(ls@).take(ls.len() as int) == texts(ls@));
    Policy { deny }
}

/// The non-empty trimmed lines of a table, in order.
pub open spec fn nonblank(ls: Seq<Seq<char>>) -> Seq<Seq<char>>
    decreases ls.len(),
{
    if ls.len() == 0 {
        Seq::empty()
    } else {
        let p = nonblank(ls.drop_last());
        let l = trim(ls.last());
        if l.len() == 0 {
            p
        } else {
            p.push(l)
        }
    }
}

/// The header row of the faillock(8) table.
pub open spec fn is_header(row: Seq<char>) -> bool {
    has_prefix(row, "When"@) && has_suffix(row, "Valid"@)
}

/// The position of the first header row.
pub open spec fn header_at(rows: Seq<Seq<char>>) -> Option<int>
    decreases rows.len(),
{
    if rows.len() == 0 {
        None
    } else if is_header(rows[0]) {
        Some(0)
    } else {
        match header_at(rows.drop_first()) {
            Some(i) => Some(i + 1),
            None => None,
        }
    }
}

/// What one table row adds to the count: 1 for a valid failure, 0 for an
/// invalid one, `None` for a row of an unexpected shape.
pub open spec fn row_mark(row: Seq<char>) -> Option<nat> {
    let p = first_index(row, ' ');
    if p >= row.len() {
        None
    } else {
        let date = row.take(p);
        let w = words(row.skip(p + 1));
        if utf8_len(date) != 10 || !is_digit(date[0]) {
            None
        } else if w.len() == 0 {
            None
        } else if w.last() == "V"@ {
            Some(1)
        } else if w.last() == "I"@ {
            Some(0)
        } else {
            None
        }
    }
}

/// The number of valid failures in the rows, unless one row is malformed.
pub open spec fn tally(rows: Seq<Seq<char>>) -> Option<nat>
    decreases rows.len(),
{
    if rows.len() == 0 {
        Some(0)
    } else {
        match (row_mark(rows[0]), tally(rows.drop_first())) {
            (Some(a), Some(b)) => Some(a + b),
            _ => None,
        }
    }
}

/// The valid failures counted in the rows before the first malformed one:
/// how high the running count gets.
pub open spec fn counted(rows: Seq<Seq<char>>) -> nat
    decreases rows.len(),
{
    if rows.len() == 0 {
        0
    } else {
        match row_mark(rows[0]) {
            Some(a) => a + counted(rows.drop_first()),
            None => 0,
        }
    }
}

/// The running count of valid failures in a faillock(8) table fits the
/// `u32` counter.
pub open spec fn count_fits(table: Seq<char>) -> bool {
    let rows = nonblank(lines(table));
    match header_at(rows) {
        Some(h) => counted(rows.skip(h + 1)) <= u32::MAX,
        None => true,
    }
}

/// The failures a faillock(8) table reports: the rows after its header.
pub open spec fn failures_in(table: Seq<char>) -> Option<nat> {
    let rows = nonblank(lines(table));
    match header_at(rows) {
        Some(h) => tally(rows.skip(h + 1)),
        None => None,
    }
}

fn row_mark_of(row: &Vec<char>) -> (r: Option<u32>)
    ensures
        r matches Some(m) ==> row_mark(row@) == Some(m as nat),
        r is None ==> row_mark(row@) is None,
{
    let p = index_of(row, ' ');
    if p >= row.len() {
        return None;
    }
    let date = slice(row, 0, p);
    assert(date@ == row@.take(p as int));
    if !utf8_len_is(&date, 10) {
        return None;
    }
    if date.len() == 0 {
        return None;
    }
    if !('0' <= date[0] && date[0] <= '9') {
        return None;
    }
    let rest = slice(row, p + 1, row.len());
    assert(rest@ == row@.skip(p + 1));
    let w = words_of(&rest);
    if w.len() == 0 {
        return None;
    }
    let last = &w[w.len() - 1];
    assert(last@ == texts(w@).last());
    if is(last, "V") {
        Some(1)
    } else if is(last, "I") {
        Some(0)
    } else {
        None
    }
}

proof fn lemma_header_at(rows: Seq<Seq<char>>, i: int)
    requires
        0 <= i <= rows.len(),
        forall|j: int| 0 <= j < i ==> !is_header(#[trigger] rows[j]),
    ensures
        header_at(rows) == (match header_at(rows.skip(i)) {
            Some(k) => Some(k + i),
            None => None::<int>,
        }),
    decreases i,
{
    if i == 0 {
        assert(rows.skip(0) == rows);
    } else {
        assert(!is_header(rows[0]));
        let t = rows.drop_first();
        assert forall|j: int| 0 <= j < i - 1 implies !is_header(#[trigger] t[j]) by {
            assert(t[j] == rows[j + 1]);
        }
        lemma_header_at(t, i - 1);
        assert(t.skip(i - 1) == rows.skip(i));
    }
}

/// Count the failures faillock(8) still considers valid. An unexpected shape
/// means saying nothing rather than guessing.
pub fn parse_failures(table: &str) -> (r: Option<Failures>)
    requires
        count_fits(table@),
    ensures
        r matches Some(f) ==> failures_in(table@) == Some(f.valid as nat),
        r is None ==> failures_in(table@) is None,
{
    let text = chars_of(table);
    let ls = lines_of(&text);
    let mut rows: Vec<Vec<char>> = Vec::new();
    let mut k: usize = 0;
    assert(texts(ls@).take(0) == Seq::<Seq<char>>::empty());
    while k < ls.len()
        invariant
            k <= ls.len(),
            texts(rows@) == nonblank(texts(ls@).take(k as int)),
        decreases ls.len() - k,
    {
        let ghost t = texts(ls@).take(k + 1);
        assert(t.drop_last() == texts(ls@).take(k as int));
        assert(t.last() == ls@[k as int]@);
        let l = trimmed(&ls[k]);
        if l.len() > 0 {
            let ghost before = rows@;
            rows.push(l);
            assert(texts(rows@) =~= texts(before).push(l@));
        }
        k += 1;
    }
    assert(texts(ls@).take(ls.len() as int) == texts(ls@));
    let ghost all = texts(rows@);
    let mut h: usize = 0;
    let mut found = false;
    while h < rows.len() && !found
        invariant
            h <= rows.len(),
            all == texts(rows@),
            forall|j: int| 0 <= j < h ==> !is_header(#[trigger] all[j]),
            found ==> h < rows.len() && is_header(all[h as int]),
        decreases rows.len() - h, if found { 0int } else { 1int },
    {
        let row = &rows[h];
        assert(row@ == all[h as int]);
        if starts(row, &chars_of("When")) && ends(row, &chars_of("Valid")) {
            found = true;
        } else {
            h += 1;
        }
    }
    proof {
        lemma_header_at(all, h as int);
    }
    if h == rows.len() {
        assert(all.skip(h as int).len() == 0);
        return None;
    }
    assert(all.skip(h as int)[0] == all[h as int]);
    assert(is_header(all[h as int]));
    let ghost after = all.skip(h + 1);
    assert(header_at(all) == Some(h as int)) by {
        assert(header_at(all.skip(h as int)) == Some(0int));
    }
    let mut valid: u32 = 0;
    let mut j: usize = h + 1;
    assert(after.skip(0) == after);
    while j < rows.len()
        invariant
            h < j <= rows.len(),
            all == texts(rows@),
            after == all.skip(h + 1),
            failures_in(table@) == tally(after),
            counted(after) <= u32::MAX,
            counted(after) == valid + counted(after.skip(j - h - 1)),
            tally(after) == (match tally(after.skip(j - h - 1)) {
                Some(n) => Some((n + valid) as nat),
                None => None::<nat>,
            }),
        decreases rows.len() - j,
    {
        let ghost rest = after.skip(j - h - 1);
        assert(rest[0] == all[j as int]);
        assert(rest.drop_first() == after.skip(j - h));
        assert(rows@[j as int]@ == all[j as int]);
        match row_mark_of(&rows[j]) {
            Some(m) => {
                valid = valid + m;
            },
            None => {
                return None;
            },
        }
        j += 1;
    }
    assert(after.skip(j - h - 1).len() == 0);
    Some(Failures { valid })
}

/// pam_faillock's own wording for a locked account.
pub open spec fn lockout_phrase() -> Seq<char> {
    "account is locked"@
}

/// The minutes in "(7 minutes left to unlock)": the digits right before the
/// first " minute", when they fit in 64 bits.
pub open spec fn minutes_left(text: Seq<char>) -> Option<nat> {
    match find(text, " minute"@) {
        Some(i) => {
            let d = digit_suffix(text.take(i));
            if d.len() > 0 && decimal(d) <= u64::MAX {
                Some(decimal(d))
            } else {
                None
            }
        },
        None => None,
    }
}

/// Read "(7 minutes left to unlock)", singular included.
fn remaining_minutes(text: &Vec<char>) -> (r: Option<u64>)
    ensures
        r matches Some(m) ==> minutes_left(text@) == Some(m as nat),
        r is None ==> minutes_left(text@) is None,
{
    let at = match find_in(text, &chars_of(" minute")) {
        Some(i) => i,
        None => return None,
    };
    let start = digit_suffix_start(text, at);
    if start == at {
        assert(text@.take(at as int).skip(start as int).len() == 0);
        return None;
    }
    assert(text@.subrange(start as int, at as int) == text@.take(at as int).skip(start as int));
    decimal_u64(text, start, at)
}


/// What a notice and the confirmed local policy let the lock screen say.
pub open spec fn attempts_left_of(policy: Policy, failures: Option<Failures>) -> Option<u32> {
    match (policy.deny, failures) {
        (Some(deny), Some(f)) => Some(if deny >= f.valid { (deny - f.valid) as u32 } else { 0 }),
        _ => None,
    }
}

/// Whether a notice reports a locked account.
pub open spec fn reports_lockout(notice: Option<&str>) -> bool {
    match notice {
        Some(text) => contains(text@, lockout_phrase()),
        None => false,
    }
}

/// The remaining lockout in seconds that a notice reports: its minutes times
/// sixty, or nothing when it gives no minutes or the seconds do not fit in
/// `u64`.
pub open spec fn lockout_seconds(text: Seq<char>) -> Option<u64> {
    match minutes_left(text) {
        Some(m) => if m * 60 <= u64::MAX {
            Some((m * 60) as u64)
        } else {
            None
        },
        None => None,
    }
}

/// Turn what PAM said, plus whatever local policy was confirmed, into text
/// for the lock screen. Display only: nothing here gates an attempt.
pub fn assess(notice: Option<&str>, policy: &Policy, failures: Option<&Failures>) -> (r: Advice)
    ensures
        r.attempts_left == attempts_left_of(
            *policy,
            match failures {
                Some(f) => Some(*f),
                None => None,
            },
        ),
        r.locked == reports_lockout(notice),
        r.locked ==> r.locked_for == lockout_seconds(notice.unwrap()@),
        !r.locked ==> r.locked_for is None,
        opt_text(r.raw) == (match notice {
            Some(text) => if r.locked {
                None
            } else {
                Some(text@)
            },
            None => None::<Seq<char>>,
        }),
{
    let attempts_left = match (policy.deny, failures) {
        (Some(deny), Some(f)) => Some(deny.saturating_sub(f.valid)),
        _ => None,
    };
    let mut advice = Advice { locked: false, locked_for: None, attempts_left, raw: None };
    if let Some(text) = notice {
        let chars = chars_of(text);
        advice.locked = find_in(&chars, &chars_of("account is locked")).is_some();
        if advice.locked {
            advice.locked_for = match remaining_minutes(&chars) {
                Some(m) => m.checked_mul(60),
                None => None,
            };
        } else {
            advice.raw = Some(string_of(&chars));
        }
    }
    advice
}

/// A countdown in seconds as minutes and two-digit seconds, "6:59".
pub open spec fn countdown(seconds: nat) -> Seq<char> {
    let s = seconds % 60;
    decimal_text(seconds / 60) + seq![':'] + if s < 10 {
        seq!['0'] + decimal_text(s)
    } else {
        decimal_text(s)
    }
}

/// The line `describe` shows.
pub open spec fn description(
    locked: bool,
    attempts_left: Option<u32>,
    raw: Option<Seq<char>>,
    remaining: Option<u64>,
    t: LockoutTexts,
) -> Option<Seq<char>> {
    if locked {
        match remaining {
            Some(left) if left > 0 => Some(replace_all(t.locked_in@, "%s"@, countdown(left as nat))),
            _ => Some(t.locked@),
        }
    } else {
        match attempts_left {
            Some(n) => if n == 0 {
                None
            } else if n == 1 {
                Some(t.attempt_left@)
            } else {
                Some(replace_all(t.attempts_left@, "%n"@, decimal_text(n as nat)))
            },
            None => raw,
        }
    }
}

/// One line for the lock screen, or `None` when there is nothing to add to the
/// ordinary failure message. `remaining` is the live countdown in seconds,
/// which the caller decrements; it is ignored unless PAM reported a lockout.
pub fn describe(advice: &Advice, remaining: Option<u64>, strings: &LockoutTexts) -> (r: Option<
    String,
>)
    ensures
        opt_text(r) == description(
            advice.locked,
            advice.attempts_left,
            opt_text(advice.raw),
            remaining,
            *strings,
        ),
{
    proof {
        reveal_strlit("%s");
        reveal_strlit("%n");
    }
    if advice.locked {
        return Some(
            match remaining {
                Some(left) if left > 0 => {
                    let minutes = decimal_of(left / 60);
                    let s = left % 60;
                    let mut clock = minutes;
                    clock.push(':');
                    if s < 10 {
                        clock.push('0');
                    }
                    append(&mut clock, &decimal_of(s));
                    assert(clock@ =~= countdown(left as nat));
                    let text = replaced(&chars_of(&strings.locked_in), &chars_of("%s"), &clock);
                    string_of(&text)
                },
                _ => strings.locked.clone(),
            },
        );
    }
    match advice.attempts_left {
        Some(0) => None,
        Some(1) => Some(strings.attempt_left.clone()),
        Some(left) => {
            let text = replaced(
                &chars_of(&strings.attempts_left),
                &chars_of("%n"),
                &decimal_of(left as u64),
            );
            Some(string_of(&text))
        },
        None => advice.raw.clone(),
    }
}

/// While the account is not reported locked, a known number of remaining
/// attempts decides the line alone, whatever PAM text came with it: nothing
/// at 0, the singular text at 1, the plural text with the number otherwise.
/// PAM's own text is shown only when the number of attempts is unknown.
pub proof fn law_attempts_left_decide_the_line(
    n: u32,
    raw: Option<Seq<char>>,
    other: Option<Seq<char>>,
    remaining: Option<u64>,
    t: LockoutTexts,
)
    ensures
        description(false, Some(n), raw, remaining, t) == description(false, Some(n), other, None, t),
        n == 0 ==> description(false, Some(n), raw, remaining, t) is None,
        n == 1 ==> description(false, Some(n), raw, remaining, t) == Some(t.attempt_left@),
        n >= 2 ==> description(false, Some(n), raw, remaining, t) == Some(
            replace_all(t.attempts_left@, "%n"@, decimal_text(n as nat)),
        ),
        description(false, None, raw, remaining, t) == raw,
{
}

} // verus!
