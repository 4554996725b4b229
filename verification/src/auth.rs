//! Decisions around the PAM helper: which requests may reach it, what its exit
//! status means, and how module text is flattened before it is displayed.
use crate::text::{chars_of, is_space, string_of, utf8_len};
use vstd::prelude::*;

verus! {

pub const MAX_PASSWORD_BYTES: usize = 511;

/// Upper bound for PAM text forwarded to the screen. Modules send short lines.
pub const MAX_NOTICE_BYTES: usize = 512;

/// A PAM service name: 1 to 128 bytes of ASCII letters, digits, `_` and `-`.
pub open spec fn is_service_name(s: Seq<char>) -> bool {
    &&& 0 < s.len() <= 128
    &&& forall|i: int| 0 <= i < s.len() ==> is_name_char(#[trigger] s[i])
}

pub open spec fn is_name_char(c: char) -> bool {
    ('a' <= c <= 'z') || ('A' <= c <= 'Z') || ('0' <= c <= '9') || c == '_' || c == '-'
}

/// Whether `service` names a PAM service rather than a path.
pub fn valid_service(service: &str) -> (r: bool)
    ensures
        r == is_service_name(service@),
{
    let s = chars_of(service);
    if s.len() == 0 || s.len() > 128 {
        // Every accepted character is one byte, so the byte bound is the
        // character bound for names that pass the character check.
        proof {
            if s.len() > 128 {
                assert(!is_service_name(service@));
            }
        }
        return false;
    }
    let mut i: usize = 0;
    while i < s.len()
        invariant
            i <= s.len(),
            s@ == service@,
            forall|k: int| 0 <= k < i ==> is_name_char(#[trigger] s@[k]),
        decreases s.len() - i,
    {
        let c = s[i];
        if !(('a' <= c && c <= 'z') || ('A' <= c && c <= 'Z') || ('0' <= c && c <= '9') || c == '_'
            || c == '-') {
            return false;
        }
        i += 1;
    }
    true
}

/// A password the helper may receive: 1 to 511 bytes, no NUL byte.
pub open spec fn is_password(p: Seq<u8>) -> bool {
    0 < p.len() <= MAX_PASSWORD_BYTES && !p.contains(0u8)
}

pub fn valid_password(password: &[u8]) -> (r: bool)
    ensures
        r == is_password(password@),
{
    if password.len() == 0 || password.len() > MAX_PASSWORD_BYTES {
        return false;
    }
    let mut i: usize = 0;
    while i < password.len()
        invariant
            i <= password.len(),
            forall|k: int| 0 <= k < i ==> password@[k] != 0u8,
        decreases password.len() - i,
    {
        if password[i] == 0 {
            assert(password@.contains(0u8));
            return false;
        }
        i += 1;
    }
    true
}

/// What to do with an authentication request before any helper runs.
pub open spec fn preflight_of(service: Seq<char>, password: Seq<u8>) -> Result<bool, ()> {
    if !is_service_name(service) {
        Err(())
    } else {
        Ok(is_password(password))
    }
}

/// An invalid service is an error; an unusable password is denied without
/// starting the helper (`Ok(false)`); anything else may be sent (`Ok(true)`).
pub fn preflight(service: &str, password: &[u8]) -> (r: Result<bool, String>)
    ensures
        match r {
            Ok(go) => preflight_of(service@, password@) == Ok::<bool, ()>(go),
            Err(e) => preflight_of(service@, password@) is Err && e@ == "Invalid PAM service name"@,
        },
{
    if !valid_service(service) {
        return Err(string_of(&chars_of("Invalid PAM service name")));
    }
    Ok(valid_password(password))
}

/// A finished authentication attempt, plus any text PAM wanted the user to see.
#[derive(Debug, PartialEq, Eq)]
pub struct Outcome {
    pub accepted: bool,
    pub notice: Option<String>,
}

/// `char::is_control`: the Unicode general category Cc.
pub open spec fn is_control(c: char) -> bool {
    (c as u32) <= 0x1F || (0x7F <= (c as u32) && (c as u32) <= 0x9F)
}

/// Characters that separate the words of a notice.
pub open spec fn is_separator(c: char) -> bool {
    is_control(c) || is_space(c)
}

/// The words of `s`, separated by single spaces; a trailing separator leaves
/// one trailing space.
pub open spec fn flatten(s: Seq<char>) -> Seq<char>
    decreases s.len(),
{
    if s.len() == 0 {
        Seq::empty()
    } else {
        let p = flatten(s.drop_last());
        let c = s.last();
        if is_separator(c) {
            if p.len() > 0 && p.last() != ' ' {
                p.push(' ')
            } else {
                p
            }
        } else {
            p.push(c)
        }
    }
}

/// The longest prefix of `t` that fits in `budget` bytes of UTF-8.
pub open spec fn fit(t: Seq<char>, budget: nat) -> Seq<char>
    decreases t.len(),
{
    if utf8_len(t) <= budget || t.len() == 0 {
        t
    } else {
        fit(t.drop_last(), budget)
    }
}

pub open spec fn without_final_space(t: Seq<char>) -> Seq<char> {
    if t.len() > 0 && t.last() == ' ' {
        t.drop_last()
    } else {
        t
    }
}

/// Module text as one displayable line: control characters and white space
/// become single spaces between words, and the line is cut to the longest
/// prefix that fits in 512 bytes without ending in a space.
pub open spec fn sanitized(s: Seq<char>) -> Seq<char> {
    without_final_space(fit(flatten(s), MAX_NOTICE_BYTES as nat))
}

/// What `String::from_utf8_lossy` decodes from bytes: the UTF-8 text, with
/// U+FFFD for each invalid sequence.
pub uninterp spec fn lossy_utf8(bytes: Seq<u8>) -> Seq<char>;

/// `String::from_utf8_lossy`, as characters.
#[verifier::external_body]
fn decode_lossy(raw: &[u8]) -> (r: Vec<char>)
    ensures
        r@ == lossy_utf8(raw@),
{
    String::from_utf8_lossy(raw).chars().collect()
}

fn char_bytes(c: char) -> (r: usize)
    ensures
        r == crate::text::char_utf8_len(c),
        1 <= r <= 4,
{
    let v = c as u32;
    if v < 0x80 {
        1
    } else if v < 0x800 {
        2
    } else if v < 0x10000 {
        3
    } else {
        4
    }
}

proof fn lemma_flatten_prefix(s: Seq<char>, j: int)
    requires
        0 <= j <= s.len(),
    ensures
        flatten(s.take(j)).len() <= flatten(s).len(),
        flatten(s).take(flatten(s.take(j)).len() as int) == flatten(s.take(j)),
    decreases s.len() - j,
{
    if j < s.len() {
        lemma_flatten_prefix(s.drop_last(), j);
        assert(s.drop_last().take(j) == s.take(j));
        let p = flatten(s.drop_last());
        let q = flatten(s.take(j));
        assert(flatten(s).take(p.len() as int) == p);
        assert(flatten(s).take(q.len() as int) == p.take(q.len() as int));
    } else {
        assert(s.take(j) == s);
    }
}

proof fn lemma_utf8_prefix(t: Seq<char>, k: int)
    requires
        0 <= k <= t.len(),
    ensures
        utf8_len(t.take(k)) <= utf8_len(t),
    decreases t.len() - k,
{
    if k < t.len() {
        lemma_utf8_prefix(t.drop_last(), k);
        assert(t.drop_last().take(k) == t.take(k));
    } else {
        assert(t.take(k) == t);
    }
}

/// Once a prefix is over budget, the fit lies strictly inside it.
proof fn lemma_fit_inside(t: Seq<char>, k: int, budget: nat)
    requires
        0 < k <= t.len(),
        utf8_len(t.take(k)) > budget,
    ensures
        fit(t, budget) == fit(t.take(k - 1), budget),
    decreases t.len() - k,
{
    if k < t.len() {
        lemma_utf8_prefix(t, k);
        assert(t.drop_last().take(k) == t.take(k));
        lemma_fit_inside(t.drop_last(), k, budget);
        assert(t.drop_last().take(k - 1) == t.take(k - 1));
    } else {
        assert(t.take(k) == t);
        assert(t.take(k - 1) == t.drop_last());
    }
}

/// Flatten module text into one displayable line, bounded to 512 bytes.
/// Callers render it as plain text, never as markup.
pub fn sanitize_notice(raw: &[u8]) -> (r: Option<String>)
    ensures
        match r {
            Some(t) => t@ == sanitized(lossy_utf8(raw@)) && t@.len() > 0,
            None => sanitized(lossy_utf8(raw@)).len() == 0,
        },
{
    let cs = decode_lossy(raw);
    let ghost s = cs@;
    let mut text: Vec<char> = Vec::new();
    let mut bytes: usize = 0;
    let mut pending = false;
    let mut i: usize = 0;
    let mut stopped = false;
    assert(s.take(0) == Seq::<char>::empty());
    while i < cs.len() && !stopped
        invariant
            i <= cs.len(),
            s == cs@,
            bytes == utf8_len(text@),
            bytes <= MAX_NOTICE_BYTES,
            text@.len() == 0 || text@.last() != ' ',
            pending ==> text@.len() > 0,
            !stopped ==> flatten(s.take(i as int)) == if pending {
                text@.push(' ')
            } else {
                text@
            },
            stopped ==> sanitized(s) == text@,
        decreases cs.len() - i, if stopped { 0int } else { 1int },
    {
        let c = cs[i];
        let ghost t = s.take(i + 1);
        assert(t.drop_last() == s.take(i as int));
        assert(t.last() == c);
        let control = (c as u32) <= 0x1F || (0x7F <= (c as u32) && (c as u32) <= 0x9F);
        if control || crate::text::space(c) {
            pending = text.len() > 0;
            i += 1;
        } else {
            let needed = char_bytes(c) + if pending { 1 } else { 0 };
            if needed > MAX_NOTICE_BYTES - bytes {
                proof {
                    let base = if pending { text@.push(' ') } else { text@ };
                    let q = flatten(t);
                    let f = flatten(s);
                    assert(q == base.push(c));
                    assert(q.drop_last() == base);
                    if pending {
                        assert(base.drop_last() == text@);
                        assert(utf8_len(base) == bytes + 1);
                    }
                    assert(utf8_len(base) == bytes + if pending { 1int } else { 0int });
                    assert(utf8_len(q) == utf8_len(base) + crate::text::char_utf8_len(c));
                    lemma_flatten_prefix(s, i + 1);
                    assert(f.take(q.len() as int) == q);
                    lemma_fit_inside(f, q.len() as int, MAX_NOTICE_BYTES as nat);
                    assert(f.take(q.len() - 1) == base);
                    assert(fit(text@, MAX_NOTICE_BYTES as nat) == text@);
                    if pending {
                        if utf8_len(base) > MAX_NOTICE_BYTES {
                            assert(fit(base, MAX_NOTICE_BYTES as nat) == fit(
                                text@,
                                MAX_NOTICE_BYTES as nat,
                            ));
                        } else {
                            assert(fit(base, MAX_NOTICE_BYTES as nat) == base);
                        }
                    }
                }
                stopped = true;
            } else {
                let ghost old_text = text@;
                if pending {
                    text.push(' ');
                    assert(text@.drop_last() == old_text);
                    assert(utf8_len(text@) == utf8_len(old_text) + 1);
                    pending = false;
                }
                let ghost mid = text@;
                text.push(c);
                assert(text@.drop_last() == mid);
                assert(utf8_len(text@) == utf8_len(mid) + crate::text::char_utf8_len(c));
                bytes = bytes + needed;
                i += 1;
            }
        }
    }
    proof {
        if !stopped {
            assert(s.take(cs.len() as int) == s);
            let f = flatten(s);
            assert(fit(text@, MAX_NOTICE_BYTES as nat) == text@);
            if pending {
                assert(f.drop_last() == text@);
                if utf8_len(f) > MAX_NOTICE_BYTES {
                    assert(fit(f, MAX_NOTICE_BYTES as nat) == fit(text@, MAX_NOTICE_BYTES as nat));
                } else {
                    assert(fit(f, MAX_NOTICE_BYTES as nat) == f);
                }
            }
        }
    }
    if text.len() == 0 {
        None
    } else {
        Some(string_of(&text))
    }
}

/// A displayable line: only plain characters and single spaces between them.
pub open spec fn is_one_line(t: Seq<char>) -> bool {
    &&& forall|i: int| 0 <= i < t.len() ==> (!is_separator(#[trigger] t[i]) || t[i] == ' ')
    &&& forall|i: int| 0 <= i < t.len() - 1 ==> !(#[trigger] t[i] == ' ' && t[i + 1] == ' ')
    &&& t.len() > 0 ==> t[0] != ' '
}

proof fn lemma_flatten_is_one_line(s: Seq<char>)
    ensures
        is_one_line(flatten(s)),
    decreases s.len(),
{
    if s.len() > 0 {
        lemma_flatten_is_one_line(s.drop_last());
        let p = flatten(s.drop_last());
        let f = flatten(s);
        assert forall|i: int| 0 <= i < f.len() - 1 implies !(#[trigger] f[i] == ' ' && f[i + 1] == ' ') by {
            if i < p.len() - 1 {
                assert(f[i] == p[i] && f[i + 1] == p[i + 1]);
            } else {
                assert(f[i] == p[i]);
            }
        }
        assert forall|i: int| 0 <= i < f.len() implies (!is_separator(#[trigger] f[i]) || f[i] == ' ') by {
            if i < p.len() {
                assert(f[i] == p[i]);
            }
        }
    }
}

proof fn lemma_fit_is_prefix(t: Seq<char>, budget: nat)
    ensures
        fit(t, budget).len() <= t.len(),
        t.take(fit(t, budget).len() as int) == fit(t, budget),
        utf8_len(fit(t, budget)) <= budget || fit(t, budget).len() == 0,
    decreases t.len(),
{
    if !(utf8_len(t) <= budget || t.len() == 0) {
        lemma_fit_is_prefix(t.drop_last(), budget);
        assert(t.take(fit(t, budget).len() as int) == t.drop_last().take(fit(t, budget).len() as int));
    } else {
        assert(t.take(t.len() as int) == t);
    }
}

/// Module text always reaches the screen as a single bounded line: no control
/// character, tab or newline, no leading, trailing or doubled space, and at
/// most 512 bytes of UTF-8.
pub proof fn law_notices_are_one_bounded_line(s: Seq<char>)
    ensures
        is_one_line(sanitized(s)),
        sanitized(s).len() == 0 || sanitized(s).last() != ' ',
        utf8_len(sanitized(s)) <= MAX_NOTICE_BYTES,
{
    let f = flatten(s);
    lemma_flatten_is_one_line(s);
    lemma_fit_is_prefix(f, MAX_NOTICE_BYTES as nat);
    let g = fit(f, MAX_NOTICE_BYTES as nat);
    let r = sanitized(s);
    assert forall|i: int| 0 <= i < g.len() implies g[i] == f[i] by {
        assert(f.take(g.len() as int)[i] == f[i]);
    }
    if g.len() > 0 && g.last() == ' ' {
        assert(r == g.drop_last());
        if r.len() > 0 {
            assert(g[g.len() - 2] == f[g.len() - 2]);
            assert(!(f[g.len() - 2] == ' ' && f[g.len() - 1] == ' '));
        }
        assert(utf8_len(g) == utf8_len(r) + 1);
    }
    assert forall|i: int| 0 <= i < r.len() implies r[i] == f[i] by {
        assert(r[i] == g[i]);
    }
    assert forall|i: int| 0 <= i < r.len() - 1 implies !(#[trigger] r[i] == ' ' && r[i + 1] == ' ') by {
        assert(r[i] == f[i] && r[i + 1] == f[i + 1]);
    }
}

/// What the helper's exit status means: 0 accepted, 1 denied, anything else
/// (a crash, a signal) is an error.
pub open spec fn verdict(code: Option<i32>) -> Option<bool> {
    match code {
        Some(c) => if c == 0 {
            Some(true)
        } else if c == 1 {
            Some(false)
        } else {
            None
        },
        None => None,
    }
}

/// The outcome of a finished helper from its exit code (`None` when a signal
/// ended it) and its bounded standard output.
pub fn helper_outcome(code: Option<i32>, output: &[u8]) -> (r: Result<Outcome, String>)
    ensures
        match r {
            Ok(o) => verdict(code) == Some(o.accepted) && match o.notice {
                Some(t) => t@ == sanitized(lossy_utf8(output@)) && t@.len() > 0,
                None => sanitized(lossy_utf8(output@)).len() == 0,
            },
            Err(e) => verdict(code) is None && e@ == "Authentication helper failed"@,
        },
{
    let accepted = match code {
        Some(0) => true,
        Some(1) => false,
        _ => return Err(string_of(&chars_of("Authentication helper failed"))),
    };
    Ok(Outcome { accepted, notice: sanitize_notice(output) })
}

/// How the PAM conversation answers one message.
#[derive(Debug, Clone, Copy, PartialEq, Eq)]
pub enum Reply {
    /// PAM_PROMPT_ECHO_OFF: the password.
    Password,
    /// PAM_PROMPT_ECHO_ON: the account name.
    Username,
    /// PAM_ERROR_MSG or PAM_TEXT_INFO: text for the user, answered empty.
    Notice,
    /// Anything else fails the whole conversation.
    Refuse,
}

pub open spec fn reply_of(style: i32) -> Reply {
    if style == 1 {
        Reply::Password
    } else if style == 2 {
        Reply::Username
    } else if style == 3 || style == 4 {
        Reply::Notice
    } else {
        Reply::Refuse
    }
}

pub fn reply_for(style: i32) -> (r: Reply)
    ensures
        r == reply_of(style),
{
    match style {
        1 => Reply::Password,
        2 => Reply::Username,
        3 | 4 => Reply::Notice,
        _ => Reply::Refuse,
    }
}

/// Collected notices after one more message: appended, space-separated,
/// while fewer than 512 bytes have been collected.
pub open spec fn with_notice(notices: Seq<char>, text: Seq<char>) -> Seq<char> {
    if utf8_len(notices) < MAX_NOTICE_BYTES {
        if notices.len() > 0 {
            notices + seq![' '] + text
        } else {
            text
        }
    } else {
        notices
    }
}

/// Add one informational message to the collected notices.
pub fn record_notice(notices: &mut String, text: &str)
    ensures
        final(notices)@ == with_notice(old(notices)@, text@),
{
    let mut collected = chars_of(notices.as_str());
    if !crate::text::utf8_len_is_below(&collected, MAX_NOTICE_BYTES) {
        return;
    }
    let addition = chars_of(text);
    if collected.len() > 0 {
        collected.push(' ');
    }
    crate::text::append(&mut collected, &addition);
    *notices = string_of(&collected);
}

} // verus!
