//! System integration for greetd and compositor screen locks: reading what is
//! configured, reporting it, and rewriting a hypridle configuration.
use crate::text::{
    append, chars_of, contains, find, occurs_at, find_in, has_prefix, is_space, lines, lines_of, opt_text,
    split, starts, string_of, strip_cr, texts, trim, trim_start, trimmed,
};
use crate::document::{entries, parsed_value, pretty, value_integer, value_str, value_table};
use vstd::prelude::*;

verus! {

/// What `status` found on the system. Paths are given as text.
#[derive(Debug, Clone, PartialEq, Eq)]
pub struct SystemReport {
    pub greetd_installed: bool,
    pub greetd_service_active: bool,
    pub greetd_config_path: String,
    pub greetd_uses_decklock: bool,
    pub current_greetd_cmd: Option<String>,
    pub cage_installed: bool,
    pub greeter_user_exists: bool,
    pub hypridle_installed: bool,
    pub hypridle_config_path: Option<String>,
    pub hypridle_uses_decklock: bool,
}

pub open spec fn choose_text(b: bool, yes: Seq<char>, no: Seq<char>) -> Seq<char> {
    if b {
        yes
    } else {
        no
    }
}

/// The status report text.
pub open spec fn status_text(r: SystemReport) -> Seq<char> {
    "DeckLock System Integration Status:\n\n"@ + "Login (greetd):\n"@
        + "  greetd installed:       "@ + choose_text(r.greetd_installed, "Yes"@, "No (install greetd)"@) + "\n"@
        + "  greetd service:         "@ + choose_text(r.greetd_service_active, "Active"@, "Inactive or not running"@) + "\n"@
        + "  cage compositor:        "@ + choose_text(r.cage_installed, "Installed"@, "Not installed (recommended: sudo pacman -S cage)"@) + "\n"@
        + "  greeter user:           "@ + choose_text(r.greeter_user_exists, "Present"@, "Missing"@) + "\n"@
        + "  greetd configuration:   "@ + r.greetd_config_path@ + "\n"@
        + "  current greeter:        "@ + (if r.greetd_uses_decklock {
            "DeckLock [Configured]"@
        } else {
            match r.current_greetd_cmd {
                Some(cmd) => cmd@ + " [Run: sudo decklock setup greeter]"@,
                None => "None found [Run: sudo decklock setup greeter]"@,
            }
        }) + "\n"@
        + "\nScreen Lock (hypridle / Wayland):\n"@
        + "  hypridle installed:     "@ + choose_text(r.hypridle_installed, "Yes"@, "No"@) + "\n"@
        + match r.hypridle_config_path {
            Some(path) => "  hypridle configuration: "@ + path@ + "\n"@ + "  lock command:           "@
                + choose_text(r.hypridle_uses_decklock, "decklock --lock [Configured]"@, "Not using decklock [Run: decklock setup lock]"@)
                + "\n"@,
            None => "  hypridle configuration: Not found [Run: decklock setup lock]\n"@,
        }
}

fn put(out: &mut Vec<char>, piece: &str)
    ensures
        final(out)@ == old(out)@ + piece@,
{
    append(out, &chars_of(piece));
}

pub fn format_status(report: &SystemReport) -> (r: String)
    ensures
        r@ == status_text(*report),
{
    let mut out: Vec<char> = Vec::new();
    put(&mut out, "DeckLock System Integration Status:\n\n");
    put(&mut out, "Login (greetd):\n");
    put(&mut out, "  greetd installed:       ");
    put(&mut out, if report.greetd_installed { "Yes" } else { "No (install greetd)" });
    put(&mut out, "\n");
    put(&mut out, "  greetd service:         ");
    put(&mut out, if report.greetd_service_active { "Active" } else { "Inactive or not running" });
    put(&mut out, "\n");
    put(&mut out, "  cage compositor:        ");
    put(&mut out, if report.cage_installed {
        "Installed"
    } else {
        "Not installed (recommended: sudo pacman -S cage)"
    });
    put(&mut out, "\n");
    put(&mut out, "  greeter user:           ");
    put(&mut out, if report.greeter_user_exists { "Present" } else { "Missing" });
    put(&mut out, "\n");
    put(&mut out, "  greetd configuration:   ");
    put(&mut out, report.greetd_config_path.as_str());
    put(&mut out, "\n");
    put(&mut out, "  current greeter:        ");
    if report.greetd_uses_decklock {
        put(&mut out, "DeckLock [Configured]");
    } else {
        match &report.current_greetd_cmd {
            Some(cmd) => {
                let ghost before = out@;
                put(&mut out, cmd.as_str());
                put(&mut out, " [Run: sudo decklock setup greeter]");
                assert(out@ == before + (cmd@ + " [Run: sudo decklock setup greeter]"@));
            },
            None => put(&mut out, "None found [Run: sudo decklock setup greeter]"),
        }
    }
    put(&mut out, "\n");
    put(&mut out, "\nScreen Lock (hypridle / Wayland):\n");
    put(&mut out, "  hypridle installed:     ");
    put(&mut out, if report.hypridle_installed { "Yes" } else { "No" });
    put(&mut out, "\n");
    match &report.hypridle_config_path {
        Some(path) => {
            let ghost before = out@;
            put(&mut out, "  hypridle configuration: ");
            put(&mut out, path.as_str());
            put(&mut out, "\n");
            put(&mut out, "  lock command:           ");
            put(&mut out, if report.hypridle_uses_decklock {
                "decklock --lock [Configured]"
            } else {
                "Not using decklock [Run: decklock setup lock]"
            });
            put(&mut out, "\n");
            assert(out@ == before + ("  hypridle configuration: "@ + path@ + "\n"@
                + "  lock command:           "@ + choose_text(
                report.hypridle_uses_decklock,
                "decklock --lock [Configured]"@,
                "Not using decklock [Run: decklock setup lock]"@,
            ) + "\n"@));
        },
        None => put(&mut out, "  hypridle configuration: Not found [Run: decklock setup lock]\n"),
    }
    string_of(&out)
}


/// `s` without leading copies of `c` (`str::trim_start_matches`).
pub open spec fn strip_leading(s: Seq<char>, c: char) -> Seq<char>
    decreases s.len(),
{
    if s.len() > 0 && s[0] == c {
        strip_leading(s.drop_first(), c)
    } else {
        s
    }
}

/// `s` without trailing copies of `c`.
pub open spec fn strip_trailing(s: Seq<char>, c: char) -> Seq<char>
    decreases s.len(),
{
    if s.len() > 0 && s.last() == c {
        strip_trailing(s.drop_last(), c)
    } else {
        s
    }
}

/// The command a greetd `command = "..."` line sets.
pub open spec fn command_value(line: Seq<char>) -> Seq<char> {
    let rest = trim(line).skip(7);
    let c = trim(strip_leading(trim(rest), '='));
    strip_trailing(strip_leading(c, '"'), '"')
}

pub open spec fn is_command_line(line: Seq<char>) -> bool {
    has_prefix(trim(line), "command"@)
}

/// Whether a greeter command runs DeckLock as the greeter.
pub open spec fn runs_decklock(cmd: Seq<char>) -> bool {
    contains(cmd, "decklock --greeter"@) || contains(cmd, "decklock --greetter"@)
}

/// The last command a greetd configuration sets, and whether any command
/// line runs DeckLock.
pub open spec fn greetd_scan(ls: Seq<Seq<char>>) -> (Option<Seq<char>>, bool)
    decreases ls.len(),
{
    if ls.len() == 0 {
        (None, false)
    } else {
        let p = greetd_scan(ls.drop_last());
        if is_command_line(ls.last()) {
            let cmd = command_value(ls.last());
            (Some(cmd), p.1 || runs_decklock(cmd))
        } else {
            p
        }
    }
}

fn stripped_leading(s: Vec<char>, c: char) -> (r: Vec<char>)
    ensures
        r@ == strip_leading(s@, c),
{
    let mut i: usize = 0;
    assert(s@.skip(0) == s@);
    while i < s.len() && s[i] == c
        invariant
            i <= s.len(),
            strip_leading(s@, c) == strip_leading(s@.skip(i as int), c),
        decreases s.len() - i,
    {
        assert(s@.skip(i as int).drop_first() == s@.skip(i + 1));
        i += 1;
    }
    assert(s@.subrange(i as int, s@.len() as int) == s@.skip(i as int));
    crate::text::slice(&s, i, s.len())
}

fn stripped_trailing(s: Vec<char>, c: char) -> (r: Vec<char>)
    ensures
        r@ == strip_trailing(s@, c),
{
    let mut j: usize = s.len();
    assert(s@.take(s.len() as int) == s@);
    while j > 0 && s[j - 1] == c
        invariant
            j <= s.len(),
            strip_trailing(s@, c) == strip_trailing(s@.take(j as int), c),
        decreases j,
    {
        assert(s@.take(j as int).drop_last() == s@.take(j - 1));
        j -= 1;
    }
    crate::text::slice(&s, 0, j)
}

fn command_of(line: &Vec<char>) -> (r: Vec<char>)
    requires
        is_command_line(line@),
    ensures
        r@ == command_value(line@),
{
    proof {
        reveal_strlit("command");
    }
    let t = trimmed(line);
    let rest = trimmed(&crate::text::slice(&t, 7, t.len()));
    assert(t@.subrange(7, t@.len() as int) == t@.skip(7));
    let c = trimmed(&stripped_leading(rest, '='));
    stripped_trailing(stripped_leading(c, '"'), '"')
}

/// The greeter command a greetd configuration sets, and whether it runs DeckLock.
pub fn greetd_command(content: &str) -> (r: (Option<String>, bool))
    ensures
        (opt_text(r.0), r.1) == greetd_scan(lines(content@)),
{
    let ls = lines_of(&chars_of(content));
    let mut current: Option<String> = None;
    let mut uses = false;
    let mut k: usize = 0;
    assert(texts(ls@).take(0) == Seq::<Seq<char>>::empty());
    while k < ls.len()
        invariant
            k <= ls.len(),
            (opt_text(current), uses) == greetd_scan(texts(ls@).take(k as int)),
        decreases ls.len() - k,
    {
        let ghost t = texts(ls@).take(k + 1);
        assert(t.drop_last() == texts(ls@).take(k as int));
        assert(t.last() == ls@[k as int]@);
        let line = &ls[k];
        if starts(&trimmed(line), &chars_of("command")) {
            proof {
                reveal_strlit("command");
            }
            let cmd = command_of(line);
            let decklock = find_in(&cmd, &chars_of("decklock --greeter")).is_some() || find_in(
                &cmd,
                &chars_of("decklock --greetter"),
            ).is_some();
            uses = uses || decklock;
            current = Some(string_of(&cmd));
        }
        k += 1;
    }
    assert(texts(ls@).take(ls.len() as int) == texts(ls@));
    (current, uses)
}

/// Whether a passwd database has an account named `greeter`.
pub open spec fn has_greeter_user(passwd: Seq<char>) -> bool {
    exists|i: int| 0 <= i < lines(passwd).len() && has_prefix(#[trigger] lines(passwd)[i], "greeter:"@)
}

pub fn greeter_user_listed(passwd: &str) -> (r: bool)
    ensures
        r == has_greeter_user(passwd@),
{
    let ls = lines_of(&chars_of(passwd));
    let prefix = chars_of("greeter:");
    let mut k: usize = 0;
    while k < ls.len()
        invariant
            k <= ls.len(),
            texts(ls@) == lines(passwd@),
            prefix@ == "greeter:"@,
            forall|i: int| 0 <= i < k ==> !has_prefix(#[trigger] lines(passwd@)[i], "greeter:"@),
        decreases ls.len() - k,
    {
        assert(ls@[k as int]@ == lines(passwd@)[k as int]);
        if starts(&ls[k], &prefix) {
            return true;
        }
        k += 1;
    }
    false
}

/// Whether a hypridle configuration already locks with DeckLock.
pub fn hypridle_runs_decklock(config: &str) -> (r: bool)
    ensures
        r == contains(config@, "decklock --lock"@),
{
    find_in(&chars_of(config), &chars_of("decklock --lock")).is_some()
}

/// The greetd command that runs DeckLock as the greeter inside cage.
pub open spec fn greeter_command_text(no_keyboard: bool) -> Seq<char> {
    "cage -s -- decklock --greeter"@ + if no_keyboard {
        ""@
    } else {
        " --keyboard"@
    }
}

pub fn greeter_command(no_keyboard: bool) -> (r: String)
    ensures
        r@ == greeter_command_text(no_keyboard),
{
    let mut out = chars_of("cage -s -- decklock --greeter");
    put(&mut out, if no_keyboard { "" } else { " --keyboard" });
    string_of(&out)
}


/// ` }` when a rewritten line closed a block, so the block stays closed.
pub open spec fn closing(line: Seq<char>) -> Seq<char> {
    if line.len() > 0 && line.last() == '}' {
        " }"@
    } else {
        ""@
    }
}

/// Whether `key` occurs in `line` and is followed, after white space, by `=`.
pub open spec fn sets_key(line: Seq<char>, key: Seq<char>) -> bool {
    match find(line, key) {
        Some(pos) => has_prefix(trim_start(line.skip(pos + key.len())), "="@),
        None => false,
    }
}

/// A hypridle line with its `lock_cmd` or `before_sleep_cmd` pointed at
/// DeckLock, keeping the indentation before the key.
pub open spec fn rewritten(line: Seq<char>) -> Seq<char> {
    if sets_key(line, "lock_cmd"@) {
        line.take(find(line, "lock_cmd"@).unwrap()) + "lock_cmd = decklock --lock"@ + closing(line)
    } else if sets_key(line, "before_sleep_cmd"@) {
        line.take(find(line, "before_sleep_cmd"@).unwrap()) + "before_sleep_cmd = decklock --lock"@
            + closing(line)
    } else {
        line
    }
}

/// Lines joined with newlines.
pub open spec fn joined(ls: Seq<Seq<char>>) -> Seq<char>
    decreases ls.len(),
{
    if ls.len() == 0 {
        Seq::empty()
    } else if ls.len() == 1 {
        ls[0]
    } else {
        joined(ls.drop_last()) + "\n"@ + ls.last()
    }
}

/// The configuration with every lock line rewritten, keeping a final newline.
pub open spec fn edited(content: Seq<char>) -> Seq<char> {
    joined(lines(content).map_values(|l: Seq<char>| rewritten(l))) + if content.len() > 0
        && content.last() == '\n' {
        "\n"@
    } else {
        ""@
    }
}

/// The block a new hypridle configuration starts with.
pub open spec fn general_block() -> Seq<char> {
    "# Added by decklock setup\ngeneral {\nlock_cmd = decklock --lock\nbefore_sleep_cmd = decklock --lock\nafter_sleep_cmd = hyprctl dispatch dpms on\ninhibit_sleep = 3\n}\n\n"@
}

/// The hypridle configuration that locks with DeckLock: existing lock lines
/// are rewritten; without one, the lock lines go at the end of the `general`
/// block; without that block, a new one is put first.
pub open spec fn hypridle_update(content: Seq<char>) -> Result<Seq<char>, ()> {
    let e = edited(content);
    if exists|i: int| 0 <= i < lines(content).len() && sets_key(#[trigger] lines(content)[i], "lock_cmd"@) {
        Ok(e)
    } else {
        match find(e, "general {"@) {
            Some(start) => match find(e.skip(start), "}"@) {
                Some(offset) => {
                    let close = start + offset;
                    let extra = if contains(e, "before_sleep_cmd"@) {
                        ""@
                    } else {
                        "    before_sleep_cmd = decklock --lock\n"@
                    };
                    Ok(e.take(close) + "    lock_cmd = decklock --lock\n"@ + extra + e.skip(close))
                },
                None => Err(()),
            },
            None => Ok(general_block() + content),
        }
    }
}

fn sets_key_at(line: &Vec<char>, key: &str) -> (r: Option<usize>)
    ensures
        match r {
            Some(pos) => sets_key(line@, key@) && find(line@, key@) == Some(pos as int) && pos <= line@.len(),
            None => !sets_key(line@, key@),
        },
{
    let k = chars_of(key);
    match find_in(line, &k) {
        Some(pos) => {
            assert(occurs_at(line@, k@, pos as int));
            assert(pos + k@.len() <= line@.len());
            assert(k@.len() == k.len());
            let klen = k.len();
            assert(pos + klen <= line.len());
            let from = pos + klen;
            let after = trimmed_start(&crate::text::slice(line, from, line.len()));
            assert(line@.subrange(pos + k@.len(), line@.len() as int) == line@.skip(pos + k@.len()));
            if starts(&after, &chars_of("=")) {
                Some(pos)
            } else {
                None
            }
        },
        None => None,
    }
}

fn trimmed_start(s: &Vec<char>) -> (r: Vec<char>)
    ensures
        r@ == trim_start(s@),
{
    let mut i: usize = 0;
    assert(s@.skip(0) == s@);
    while i < s.len() && crate::text::space(s[i])
        invariant
            i <= s.len(),
            trim_start(s@) == trim_start(s@.skip(i as int)),
        decreases s.len() - i,
    {
        assert(s@.skip(i as int).drop_first() == s@.skip(i + 1));
        i += 1;
    }
    assert(s@.subrange(i as int, s@.len() as int) == s@.skip(i as int));
    crate::text::slice(s, i, s.len())
}

fn rewrite(line: &Vec<char>) -> (r: (Vec<char>, bool))
    ensures
        r.0@ == rewritten(line@),
        r.1 == sets_key(line@, "lock_cmd"@),
{
    let closes = line.len() > 0 && line[line.len() - 1] == '}';
    if let Some(pos) = sets_key_at(line, "lock_cmd") {
        let mut out = crate::text::slice(line, 0, pos);
        put(&mut out, "lock_cmd = decklock --lock");
        put(&mut out, if closes { " }" } else { "" });
        return (out, true);
    }
    if let Some(pos) = sets_key_at(line, "before_sleep_cmd") {
        let mut out = crate::text::slice(line, 0, pos);
        put(&mut out, "before_sleep_cmd = decklock --lock");
        put(&mut out, if closes { " }" } else { "" });
        return (out, false);
    }
    (line.clone(), false)
}

/// Rewrite a hypridle configuration so that it locks with DeckLock. The
/// result equals the input when nothing needed to change.
pub fn edit_hypridle(content: &str) -> (r: Result<String, String>)
    ensures
        match r {
            Ok(t) => hypridle_update(content@) == Ok::<Seq<char>, ()>(t@),
            Err(e) => hypridle_update(content@) is Err && e@ == "hypridle general block is not closed"@,
        },
{
    let text = chars_of(content);
    let ls = lines_of(&text);
    let ghost mapped = lines(content@).map_values(|l: Seq<char>| rewritten(l));
    let mut out: Vec<char> = Vec::new();
    let mut has_lock = false;
    let mut k: usize = 0;
    while k < ls.len()
        invariant
            k <= ls.len(),
            texts(ls@) == lines(content@),
            mapped == lines(content@).map_values(|l: Seq<char>| rewritten(l)),
            out@ == joined(mapped.take(k as int)),
            has_lock == exists|i: int| 0 <= i < k && sets_key(#[trigger] lines(content@)[i], "lock_cmd"@),
        decreases ls.len() - k,
    {
        let ghost before = out@;
        assert(ls@[k as int]@ == lines(content@)[k as int]);
        let (line, sets) = rewrite(&ls[k]);
        let ghost t = mapped.take(k + 1);
        assert(t.drop_last() == mapped.take(k as int));
        assert(t.last() == line@);
        if k > 0 {
            out.push('\n');
            proof {
                reveal_strlit("\n");
            }
            assert(out@ == before + "\n"@);
        } else {
            assert(mapped.take(0).len() == 0);
        }
        append(&mut out, &line);
        proof {
            if k == 0 {
                assert(t.len() == 1);
            }
            if sets {
                assert(sets_key(lines(content@)[k as int], "lock_cmd"@));
            }
            if !has_lock && !sets {
                assert forall|i: int| 0 <= i < k + 1 implies !sets_key(#[trigger] lines(content@)[i], "lock_cmd"@) by {}
            }
        }
        has_lock = has_lock || sets;
        k += 1;
    }
    assert(mapped.take(ls.len() as int) == mapped);
    if text.len() > 0 && text[text.len() - 1] == '\n' {
        out.push('\n');
        proof {
            reveal_strlit("\n");
        }
    } else {
        assert(out@ + ""@ == out@) by {
            reveal_strlit("");
        }
    }
    assert(out@ == edited(content@));
    if has_lock {
        return Ok(string_of(&out));
    }
    let ghost e = out@;
    match find_in(&out, &chars_of("general {")) {
        Some(start) => {
            let rest = crate::text::slice(&out, start, out.len());
            assert(rest@ == e.skip(start as int));
            match find_in(&rest, &chars_of("}")) {
                Some(offset) => {
                    let close = start + offset;
                    let mut updated = crate::text::slice(&out, 0, close);
                    put(&mut updated, "    lock_cmd = decklock --lock\n");
                    let sleep = find_in(&out, &chars_of("before_sleep_cmd")).is_some();
                    put(&mut updated, if sleep { "" } else { "    before_sleep_cmd = decklock --lock\n" });
                    let tail = crate::text::slice(&out, close, out.len());
                    assert(tail@ == e.skip(close as int));
                    append(&mut updated, &tail);
                    Ok(string_of(&updated))
                },
                None => Err(string_of(&chars_of("hypridle general block is not closed"))),
            }
        },
        None => {
            let mut updated = chars_of("# Added by decklock setup\ngeneral {\nlock_cmd = decklock --lock\nbefore_sleep_cmd = decklock --lock\nafter_sleep_cmd = hyprctl dispatch dpms on\ninhibit_sleep = 3\n}\n\n");
            append(&mut updated, &text);
            Ok(string_of(&updated))
        },
    }
}


/// A setup command.
#[derive(Debug, Clone, PartialEq, Eq)]
pub enum Action {
    /// Inspect the current system configuration for greetd and screen lock.
    Status,
    /// Configure greetd to run DeckLock inside cage.
    Greeter { target: Option<String>, no_keyboard: bool, dry_run: bool },
    /// Configure hypridle to lock using DeckLock.
    Lock { target: Option<String>, dry_run: bool },
    /// Configure both greetd login and hypridle screen lock.
    All { dry_run: bool },
}

/// The hypridle configuration to edit: the given target, else
/// `hypr/hypridle.conf` in the configuration directory.
pub open spec fn hypridle_path_of(
    target: Option<Seq<char>>,
    xdg_config_home: Option<Seq<char>>,
    home: Option<Seq<char>>,
) -> Option<Seq<char>> {
    match target {
        Some(t) => Some(t),
        None => match crate::shortcut::config_dir_of(xdg_config_home, home) {
            Some(d) => Some(crate::paths::joined(d, "hypr/hypridle.conf"@)),
            None => None,
        },
    }
}

pub fn hypridle_path(target: Option<String>, xdg_config_home: Option<String>, home: Option<String>) -> (r:
    Option<String>)
    ensures
        opt_text(r) == hypridle_path_of(opt_text(target), opt_text(xdg_config_home), opt_text(home)),
{
    match target {
        Some(t) => Some(t),
        None => match crate::shortcut::config_dir(xdg_config_home, home) {
            Some(d) => Some(crate::paths::join(d.as_str(), "hypr/hypridle.conf")),
            None => None,
        },
    }
}

/// What setting up the screen lock does next.
#[derive(Debug, Clone, PartialEq, Eq)]
pub enum LockStep {
    /// Nothing is written; this is the report.
    Report(String),
    /// Write `content` to the configuration; `existing` when it replaces a file.
    Write { content: String, existing: bool },
}

pub enum LockStepView {
    Report(Seq<char>),
    Write(Seq<char>, bool),
}

pub open spec fn lock_step_view(s: LockStep) -> LockStepView {
    match s {
        LockStep::Report(t) => LockStepView::Report(t@),
        LockStep::Write { content, existing } => LockStepView::Write(content@, existing),
    }
}

pub open spec fn lock_dry_run_of(path: Seq<char>, existing: bool, content: Seq<char>) -> Seq<char> {
    "Dry-run: "@ + (if existing {
        "would update screen lock in"@
    } else {
        "would create screen lock config in"@
    }) + " "@ + path + "\n---\n"@ + content
}

/// The next step of setting up the screen lock at `path`, given the file's
/// current text (none when it does not exist) and the configuration shipped
/// for new installs: an existing file is rewritten with [`edit_hypridle`] and
/// left alone when that changes nothing; a dry run only reports what it
/// would write.
pub open spec fn lock_step_of(path: Seq<char>, existing: Option<Seq<char>>, template: Seq<char>, dry_run: bool) -> Result<
    LockStepView,
    Seq<char>,
> {
    match existing {
        Some(c) => match hypridle_update(c) {
            Err(_) => Err("hypridle general block is not closed"@),
            Ok(u) => if u == c {
                Ok(LockStepView::Report("Screen lock in "@ + path + " is already configured for DeckLock"@))
            } else if dry_run {
                Ok(LockStepView::Report(lock_dry_run_of(path, true, u)))
            } else {
                Ok(LockStepView::Write(u, true))
            },
        },
        None => if dry_run {
            Ok(LockStepView::Report(lock_dry_run_of(path, false, template)))
        } else {
            Ok(LockStepView::Write(template, false))
        },
    }
}

fn lock_dry_run(path: &str, existing: bool, content: &Vec<char>) -> (r: String)
    ensures
        r@ == lock_dry_run_of(path@, existing, content@),
{
    let mut out = chars_of("Dry-run: ");
    if existing {
        append(&mut out, &chars_of("would update screen lock in"));
    } else {
        append(&mut out, &chars_of("would create screen lock config in"));
    }
    append(&mut out, &chars_of(" "));
    append(&mut out, &chars_of(path));
    append(&mut out, &chars_of("\n---\n"));
    append(&mut out, content);
    string_of(&out)
}

pub fn lock_step(path: &str, existing: Option<&str>, template: &str, dry_run: bool) -> (r: Result<
    LockStep,
    String,
>)
    ensures
        match lock_step_of(
            path@,
            match existing {
                Some(c) => Some(c@),
                None => None,
            },
            template@,
            dry_run,
        ) {
            Ok(v) => r matches Ok(s) && lock_step_view(s) == v,
            Err(m) => r matches Err(e) && e@ == m,
        },
{
    match existing {
        Some(c) => {
            let u = edit_hypridle(c)?;
            let uc = chars_of(u.as_str());
            if crate::text::same(&uc, &chars_of(c)) {
                let mut out = chars_of("Screen lock in ");
                append(&mut out, &chars_of(path));
                append(&mut out, &chars_of(" is already configured for DeckLock"));
                Ok(LockStep::Report(string_of(&out)))
            } else if dry_run {
                Ok(LockStep::Report(lock_dry_run(path, true, &uc)))
            } else {
                Ok(LockStep::Write { content: u, existing: true })
            }
        },
        None => if dry_run {
            Ok(LockStep::Report(lock_dry_run(path, false, &chars_of(template))))
        } else {
            Ok(LockStep::Write { content: string_of(&chars_of(template)), existing: false })
        },
    }
}

/// The report after the screen lock configuration was written.
pub fn lock_configured(path: &str) -> (r: String)
    ensures
        r@ == "Successfully configured hypridle at "@ + path@,
{
    let mut out = chars_of("Successfully configured hypridle at ");
    append(&mut out, &chars_of(path));
    string_of(&out)
}


/// The greetd configuration that setup edits unless told otherwise.
pub const GREETD_CONFIG: &'static str = "/etc/greetd/config.toml";

/// What a dry run of the greeter setup reports: where it would write what.
pub fn greeter_dry_run(path: &str, content: &str) -> (r: String)
    ensures
        r@ == "Dry-run: would write to "@ + path@ + "\n---\n"@ + content@,
{
    let mut out = chars_of("Dry-run: would write to ");
    append(&mut out, &chars_of(path));
    append(&mut out, &chars_of("\n---\n"));
    append(&mut out, &chars_of(content));
    string_of(&out)
}

/// The report after the greetd configuration was written.
pub fn greeter_configured(path: &str) -> (r: String)
    ensures
        r@ == "Successfully configured greetd at "@ + path@,
{
    let mut out = chars_of("Successfully configured greetd at ");
    append(&mut out, &chars_of(path));
    string_of(&out)
}

pub const GREETD_NOT_TABLE: &'static str = "greetd configuration must be a TOML table";

pub const GREETD_BAD_TERMINAL: &'static str = "greetd terminal must be a TOML table";

pub const GREETD_BAD_SESSION: &'static str = "greetd default_session must be a TOML table";

/// The entries of the greetd configuration held in `previous`: an empty table
/// for an empty file, nothing when the document is no table, or the parser's
/// complaint.
pub open spec fn greetd_root(previous: Seq<char>) -> Result<Option<Map<Seq<char>, toml::Value>>, Seq<char>> {
    if previous.len() == 0 {
        Ok(Some(Map::empty()))
    } else {
        match parsed_value(previous) {
            Ok(v) => Ok(
                match value_table(v) {
                    Some(t) => Some(entries(t)),
                    None => None,
                },
            ),
            Err(e) => Err(e),
        }
    }
}

/// The entries of the table under `key`: none yet when the key is absent,
/// and nothing at all when the key holds something other than a table.
pub open spec fn table_or_new(root: Map<Seq<char>, toml::Value>, key: Seq<char>) -> Option<
    Map<Seq<char>, toml::Value>,
> {
    if root.contains_key(key) {
        match value_table(root[key]) {
            Some(t) => Some(entries(t)),
            None => None,
        }
    } else {
        Some(Map::empty())
    }
}

/// The `[terminal]` table after setup: `vt = 1` when it named no terminal,
/// otherwise as it was.
pub open spec fn terminal_set(before: Map<Seq<char>, toml::Value>, after: Map<Seq<char>, toml::Value>) -> bool {
    if before.contains_key("vt"@) {
        after == before
    } else {
        &&& after.remove("vt"@) == before
        &&& after.contains_key("vt"@)
        &&& value_integer(after["vt"@]) == Some(1i64)
    }
}

/// The `[default_session]` table after setup: it runs the DeckLock greeter as
/// the `greeter` user, and keeps every other setting.
pub open spec fn session_set(
    before: Map<Seq<char>, toml::Value>,
    after: Map<Seq<char>, toml::Value>,
    no_keyboard: bool,
) -> bool {
    &&& after.remove("command"@).remove("user"@) == before.remove("command"@).remove("user"@)
    &&& after.contains_key("command"@)
    &&& value_str(after["command"@]) == Some(greeter_command_text(no_keyboard))
    &&& after.contains_key("user"@)
    &&& value_str(after["user"@]) == Some("greeter"@)
}

/// The greetd configuration `after` made from `before`: every other key
/// stays, `[terminal]` and `[default_session]` are set up.
pub open spec fn greetd_configured(
    before: Map<Seq<char>, toml::Value>,
    after: Map<Seq<char>, toml::Value>,
    no_keyboard: bool,
) -> bool {
    &&& after.remove("terminal"@).remove("default_session"@) == before.remove("terminal"@).remove(
        "default_session"@,
    )
    &&& after.contains_key("terminal"@)
    &&& (value_table(after["terminal"@]) matches Some(t) && terminal_set(
        table_or_new(before, "terminal"@).unwrap(),
        entries(t),
    ))
    &&& after.contains_key("default_session"@)
    &&& (value_table(after["default_session"@]) matches Some(t) && session_set(
        table_or_new(before, "default_session"@).unwrap(),
        entries(t),
        no_keyboard,
    ))
}

pub open spec fn invalid_greetd_of(path: Seq<char>, reason: Seq<char>) -> Seq<char> {
    "Invalid greetd configuration "@ + path + ": "@ + reason
}

/// The table under `key` as `table_or_new` describes it.
fn table_entry(root: &toml::Table, key: &str) -> (r: Option<toml::Table>)
    ensures
        match r {
            Some(t) => table_or_new(entries(*root), key@) == Some(entries(t)),
            None => table_or_new(entries(*root), key@) is None,
        },
{
    match crate::document::get(root, key) {
        None => Some(crate::document::new_table()),
        Some(v) => crate::document::into_table(v),
    }
}

/// The greetd configuration file that runs the DeckLock greeter, made from
/// what `target` held before (`previous`, empty when there was no file).
pub fn greetd_config(target: &str, previous: &str, no_keyboard: bool) -> (r: Result<String, String>)
    ensures
        match greetd_root(previous@) {
            Err(e) => r matches Err(m) && m@ == invalid_greetd_of(target@, e),
            Ok(None) => r matches Err(m) && m@ == GREETD_NOT_TABLE@,
            Ok(Some(root)) => if table_or_new(root, "terminal"@) is None {
                r matches Err(m) && m@ == GREETD_BAD_TERMINAL@
            } else if table_or_new(root, "default_session"@) is None {
                r matches Err(m) && m@ == GREETD_BAD_SESSION@
            } else {
                exists|t: toml::Table|
                    #![trigger pretty(t)]
                    greetd_configured(root, entries(t), no_keyboard) && match pretty(t) {
                        Ok(content) => r matches Ok(c) && c@ == content,
                        Err(e) => r matches Err(m) && m@ == "Failed to serialize greetd configuration: "@
                            + e,
                    }
            },
        },
{
    proof {
        reveal_strlit("terminal");
        reveal_strlit("default_session");
        reveal_strlit("vt");
        reveal_strlit("command");
        reveal_strlit("user");
    }
    let text = chars_of(previous);
    let mut root = if text.len() == 0 {
        crate::document::new_table()
    } else {
        let value = match crate::document::parse_value(previous) {
            Ok(v) => v,
            Err(e) => {
                let mut out = chars_of("Invalid greetd configuration ");
                append(&mut out, &chars_of(target));
                append(&mut out, &chars_of(": "));
                append(&mut out, &chars_of(e.as_str()));
                return Err(string_of(&out));
            },
        };
        match crate::document::into_table(value) {
            Some(t) => t,
            None => return Err(string_of(&chars_of(GREETD_NOT_TABLE))),
        }
    };
    let ghost before = entries(root);
    assert(greetd_root(previous@) == Ok::<Option<Map<Seq<char>, toml::Value>>, Seq<char>>(Some(before)));
    let mut terminal = match table_entry(&root, "terminal") {
        Some(t) => t,
        None => return Err(string_of(&chars_of(GREETD_BAD_TERMINAL))),
    };
    let ghost terminal_before = entries(terminal);
    if crate::document::get(&terminal, "vt").is_none() {
        crate::document::insert(&mut terminal, "vt", crate::document::integer_value(1));
        assert(entries(terminal).remove("vt"@) =~= terminal_before);
    }
    let mut session = match table_entry(&root, "default_session") {
        Some(t) => t,
        None => return Err(string_of(&chars_of(GREETD_BAD_SESSION))),
    };
    let ghost session_before = entries(session);
    crate::document::insert(
        &mut session,
        "command",
        crate::document::string_value(greeter_command(no_keyboard)),
    );
    crate::document::insert(&mut session, "user", crate::document::string_value(string_of(&chars_of("greeter"))));
    assert(entries(session).remove("command"@).remove("user"@) =~= session_before.remove(
        "command"@,
    ).remove("user"@));
    let ghost terminal_after = terminal;
    let ghost session_after = session;
    crate::document::insert(&mut root, "terminal", crate::document::table_value(terminal));
    crate::document::insert(&mut root, "default_session", crate::document::table_value(session));
    assert(entries(root).remove("terminal"@).remove("default_session"@) =~= before.remove(
        "terminal"@,
    ).remove("default_session"@));
    assert("terminal"@.len() != "default_session"@.len());
    assert("command"@.len() != "user"@.len());
    assert(terminal_set(terminal_before, entries(terminal_after)));
    assert(session_set(session_before, entries(session_after), no_keyboard));
    assert(greetd_configured(before, entries(root), no_keyboard));
    match crate::document::to_pretty(&root) {
        Ok(content) => Ok(content),
        Err(e) => {
            let mut out = chars_of("Failed to serialize greetd configuration: ");
            append(&mut out, &chars_of(e.as_str()));
            Err(string_of(&out))
        },
    }
}

proof fn lemma_find_first(s: Seq<char>, p: Seq<char>)
    ensures
        match find(s, p) {
            Some(i) => occurs_at(s, p, i) && forall|j: int| 0 <= j < i ==> !occurs_at(s, p, j),
            None => forall|j: int| 0 <= j ==> !occurs_at(s, p, j),
        },
    decreases s.len(),
{
    if p.len() > s.len() {
    } else if has_prefix(s, p) {
        assert(s.subrange(0, p.len() as int) == s.take(p.len() as int));
    } else if s.len() == 0 {
    } else {
        let t = s.drop_first();
        lemma_find_first(t, p);
        assert(!occurs_at(s, p, 0)) by {
            assert(s.subrange(0, p.len() as int) == s.take(p.len() as int));
        }
        assert forall|j: int| 0 <= j implies #[trigger] occurs_at(s, p, j + 1) == occurs_at(t, p, j) by {
            if j + 1 + p.len() <= s.len() {
                assert(s.subrange(j + 1, j + 1 + p.len()) =~= t.subrange(j, j + p.len()));
            }
        }
        match find(t, p) {
            Some(i) => {
                assert(occurs_at(s, p, i + 1));
                assert forall|j: int| 0 <= j < i + 1 implies !occurs_at(s, p, j) by {
                    if j > 0 {
                        assert(occurs_at(s, p, (j - 1) + 1) == occurs_at(t, p, j - 1));
                    }
                }
            },
            None => {
                assert forall|j: int| 0 <= j implies !occurs_at(s, p, j) by {
                    if j > 0 {
                        assert(occurs_at(s, p, (j - 1) + 1) == occurs_at(t, p, j - 1));
                    }
                }
            },
        }
    }
}

/// The first occurrence found is `i` when `p` occurs at `i` and nowhere before.
proof fn lemma_find_at(s: Seq<char>, p: Seq<char>, i: int)
    requires
        occurs_at(s, p, i),
        forall|j: int| 0 <= j < i ==> !occurs_at(s, p, j),
    ensures
        find(s, p) == Some(i),
{
    lemma_find_first(s, p);
    match find(s, p) {
        Some(k) => {
            if k < i {
            } else if k > i {
                assert(!occurs_at(s, p, i));
            }
        },
        None => {
            assert(!occurs_at(s, p, i));
        },
    }
}

/// Rewriting a line that holds `key` first at `q` keeps `key` first at `q`:
/// the kept text before it holds no `key`, and no occurrence can start inside
/// `key` itself, whose first character does not recur in it.
proof fn lemma_marker_first(l: Seq<char>, q: int, key: Seq<char>, lit: Seq<char>, c: Seq<char>)
    requires
        find(l, key) == Some(q),
        key.len() > 0,
        key.len() <= lit.len(),
        lit.take(key.len() as int) == key,
        forall|d: int| 1 <= d < key.len() ==> #[trigger] key[d] != key[0],
    ensures
        find(l.take(q) + lit + c, key) == Some(q),
{
    lemma_find_first(l, key);
    let l2 = l.take(q) + lit + c;
    assert(l.take(q).len() == q);
    assert(lit[0] == lit.take(key.len() as int)[0]);
    assert(l2[q] == key[0]);
    assert(l2.subrange(q, q + key.len()) =~= key);
    assert forall|j: int| 0 <= j < q implies !occurs_at(l2, key, j) by {
        if j + key.len() <= q {
            assert(!occurs_at(l, key, j));
            assert(l2.subrange(j, j + key.len()) =~= l.subrange(j, j + key.len()));
        } else if occurs_at(l2, key, j) {
            let d = q - j;
            assert(1 <= d < key.len());
            assert(l2.subrange(j, j + key.len())[d] == l2[q]);
            assert(key[d] == key[0]);
        }
    }
    lemma_find_at(l2, key, q);
}

/// Whether the first character that is no white space is `=` agrees between
/// two texts that agree up to and including a character that is no white
/// space.
proof fn lemma_trim_agrees(s1: Seq<char>, s2: Seq<char>, n: int)
    requires
        0 <= n < s1.len(),
        n < s2.len(),
        s1.take(n + 1) == s2.take(n + 1),
        !is_space(s1[n]),
    ensures
        has_prefix(trim_start(s1), "="@) == has_prefix(trim_start(s2), "="@),
    decreases n,
{
    assert(s1[0] == s1.take(n + 1)[0] && s2[0] == s2.take(n + 1)[0]);
    if is_space(s1[0]) {
        assert(s1.drop_first().take(n) =~= s2.drop_first().take(n)) by {
            assert forall|k: int| 0 <= k < n implies s1.drop_first()[k] == s2.drop_first()[k] by {
                assert(s1[k + 1] == s1.take(n + 1)[k + 1]);
                assert(s2[k + 1] == s2.take(n + 1)[k + 1]);
            }
        }
        assert(s1.drop_first()[n - 1] == s1[n]);
        lemma_trim_agrees(s1.drop_first(), s2.drop_first(), n - 1);
    } else {
        reveal_strlit("=");
        assert(s1.take(1) =~= s2.take(1)) by {
            assert(s1.take(n + 1)[0] == s2.take(n + 1)[0]);
        }
    }
}

/// The text contains no newline.
pub open spec fn one_line(l: Seq<char>) -> bool {
    forall|k: int| 0 <= k < l.len() ==> #[trigger] l[k] != '\n'
}

/// What follows a key that setup points at DeckLock starts, after white
/// space, with `=`.
proof fn lemma_assignment_follows(c: Seq<char>)
    ensures
        has_prefix(trim_start(" = decklock --lock"@ + c), "="@),
{
    reveal_strlit(" = decklock --lock");
    reveal_strlit("=");
    let s = " = decklock --lock"@ + c;
    assert(s[0] == ' ' && is_space(' '));
    assert(s.drop_first()[0] == '=' && !is_space('='));
    assert(trim_start(s) == trim_start(s.drop_first()));
    assert(trim_start(s.drop_first()) == s.drop_first());
    assert(s.drop_first().take(1) =~= "="@);
}

/// A line setup has pointed at DeckLock is left as it is by a second rewrite;
/// it stays one line, keeps naming the lock command when it did, and ends in
/// `\r` only when it was left alone.
proof fn lemma_rewritten_settles(l: Seq<char>)
    requires
        one_line(l),
    ensures
        rewritten(rewritten(l)) == rewritten(l),
        one_line(rewritten(l)),
        sets_key(l, "lock_cmd"@) ==> sets_key(rewritten(l), "lock_cmd"@),
        rewritten(l) != l ==> rewritten(l).len() > 0 && rewritten(l).last() != '\r',
        sets_key(l, "lock_cmd"@) || sets_key(l, "before_sleep_cmd"@) ==> rewritten(l).len() > 0
            && rewritten(l).last() != '\r',
        l.len() > 0 ==> rewritten(l).len() > 0,
{
    reveal_strlit("lock_cmd");
    reveal_strlit("before_sleep_cmd");
    reveal_strlit("lock_cmd = decklock --lock");
    reveal_strlit("before_sleep_cmd = decklock --lock");
    reveal_strlit(" = decklock --lock");
    reveal_strlit(" }");
    reveal_strlit("");
    let k = "lock_cmd"@;
    let b = "before_sleep_cmd"@;
    let lk = "lock_cmd = decklock --lock"@;
    let lb = "before_sleep_cmd = decklock --lock"@;
    let c = closing(l);
    assert(c == " }"@ || c == ""@);
    assert(forall|d: int| 1 <= d < k.len() ==> #[trigger] k[d] != k[0]);
    assert(forall|d: int| 1 <= d < b.len() ==> #[trigger] b[d] != b[0]);
    assert(lk.take(8) =~= k);
    assert(lb.take(16) =~= b);
    assert(one_line(lk) && one_line(lb) && one_line(" }"@) && one_line(c));
    if sets_key(l, k) {
        let q = find(l, k).unwrap();
        lemma_find_first(l, k);
        let l2 = l.take(q) + lk + c;
        assert(rewritten(l) == l2);
        lemma_marker_first(l, q, k, lk, c);
        assert(l2.skip(q + 8) =~= " = decklock --lock"@ + c);
        lemma_assignment_follows(c);
        assert(sets_key(l2, k));
        assert(l2.last() == (if c == " }"@ { '}' } else { 'k' }));
        assert(closing(l2) == c);
        assert(l2.take(q) =~= l.take(q));
        assert(one_line(l2)) by {
            assert forall|i: int| 0 <= i < l2.len() implies #[trigger] l2[i] != '\n' by {
                if i < q {
                    assert(l2[i] == l[i]);
                } else if i < q + lk.len() {
                    assert(l2[i] == lk[i - q]);
                } else {
                    assert(l2[i] == c[i - q - lk.len()]);
                }
            }
        }
    } else if sets_key(l, b) {
        let q = find(l, b).unwrap();
        lemma_find_first(l, b);
        let l2 = l.take(q) + lb + c;
        assert(rewritten(l) == l2);
        lemma_marker_first(l, q, b, lb, c);
        assert(l2.skip(q + 16) =~= " = decklock --lock"@ + c);
        lemma_assignment_follows(c);
        assert(sets_key(l2, b));
        assert(l2.last() == (if c == " }"@ { '}' } else { 'k' }));
        assert(closing(l2) == c);
        assert(l2.take(q) =~= l.take(q));
        lemma_no_lock_key_added(l, q, c);
        assert(one_line(l2)) by {
            assert forall|i: int| 0 <= i < l2.len() implies #[trigger] l2[i] != '\n' by {
                if i < q {
                    assert(l2[i] == l[i]);
                } else if i < q + lb.len() {
                    assert(l2[i] == lb[i - q]);
                } else {
                    assert(l2[i] == c[i - q - lb.len()]);
                }
            }
        }
    } else {
        assert(rewritten(l) == l);
    }
}

/// Pointing `before_sleep_cmd` at DeckLock never makes a line set
/// `lock_cmd`: the rewritten text holds no `lock_cmd` of its own, none can
/// start inside it, and what follows an earlier `lock_cmd` starts as before.
proof fn lemma_no_lock_key_added(l: Seq<char>, q: int, c: Seq<char>)
    requires
        find(l, "before_sleep_cmd"@) == Some(q),
        !sets_key(l, "lock_cmd"@),
        c == " }"@ || c == ""@,
    ensures
        !sets_key(l.take(q) + "before_sleep_cmd = decklock --lock"@ + c, "lock_cmd"@),
{
    reveal_strlit("lock_cmd");
    reveal_strlit("before_sleep_cmd");
    reveal_strlit("before_sleep_cmd = decklock --lock");
    reveal_strlit(" }");
    reveal_strlit("");
    let k = "lock_cmd"@;
    let b = "before_sleep_cmd"@;
    let lb = "before_sleep_cmd = decklock --lock"@;
    let t = lb + c;
    let l2 = l.take(q) + t;
    assert(l.take(q) + lb + c =~= l2);
    lemma_find_first(l, b);
    lemma_find_first(l, k);
    lemma_find_first(l2, k);
    assert(l.take(q).len() == q);
    assert(l[q] == b[0]) by {
        assert(l.subrange(q, q + 16)[0] == l[q]);
    }
    assert(l2[q] == 'b');
    if let Some(r) = find(l2, k) {
        if r + 8 <= q {
            assert(l2.subrange(r, r + 8) =~= l.subrange(r, r + 8));
            assert forall|j: int| 0 <= j < r implies !occurs_at(l, k, j) by {
                assert(!occurs_at(l2, k, j));
                assert(l2.subrange(j, j + 8) =~= l.subrange(j, j + 8));
            }
            lemma_find_at(l, k, r);
            let s1 = l.skip(r + 8);
            let s2 = l2.skip(r + 8);
            let n = q - (r + 8);
            assert(s1.take(n + 1) =~= s2.take(n + 1)) by {
                assert forall|i: int| 0 <= i < n + 1 implies #[trigger] s1.take(n + 1)[i] == s2.take(n + 1)[i] by {
                    if i < n {
                        assert(l2[r + 8 + i] == l[r + 8 + i]);
                    }
                }
            }
            lemma_trim_agrees(s1, s2, n);
        } else if r < q {
            let d = q - r;
            assert(l2.subrange(r, r + 8)[d] == l2[q]);
            assert(k[d] != 'b');
        } else {
            let x = r - q;
            assert(l2.subrange(r, r + 8) =~= t.subrange(x, x + 8));
            assert(t.subrange(x, x + 8)[4] == t[x + 4]);
            assert(forall|i: int| 0 <= i < lb.len() && lb[i] == '_' ==> i == 6 || i == 12);
            assert(forall|i: int| 0 <= i < c.len() ==> c[i] != '_');
            assert(t[x + 4] == '_');
            if x + 4 >= lb.len() {
                assert(t[x + 4] == c[x + 4 - lb.len()]);
            }
            assert(t.subrange(x, x + 8)[0] == t[x] && t.subrange(x, x + 8)[1] == t[x + 1]);
        }
    }
}

proof fn lemma_split_one(x: Seq<char>)
    requires
        one_line(x),
    ensures
        split(x, '\n') == seq![x],
    decreases x.len(),
{
    if x.len() > 0 {
        assert(one_line(x.drop_last()));
        lemma_split_one(x.drop_last());
        assert(x.drop_last().push(x.last()) =~= x);
        assert(seq![x.drop_last()].update(0, x.drop_last().push(x.last())) =~= seq![x]);
    } else {
        assert(x =~= Seq::<char>::empty());
    }
}

proof fn lemma_split_append(a: Seq<char>, x: Seq<char>)
    requires
        one_line(x),
    ensures
        split(a + "\n"@ + x, '\n') == split(a, '\n').push(x),
    decreases x.len(),
{
    reveal_strlit("\n");
    let s = a + "\n"@ + x;
    if x.len() == 0 {
        assert(s.drop_last() =~= a);
        assert(s.last() == '\n');
        assert(x =~= Seq::<char>::empty());
    } else {
        let x0 = x.drop_last();
        assert(one_line(x0));
        lemma_split_append(a, x0);
        assert(s.drop_last() =~= a + "\n"@ + x0);
        assert(s.last() == x.last());
        let p = split(a, '\n').push(x0);
        assert(x0.push(x.last()) =~= x);
        assert(p.update(p.len() - 1, p.last().push(x.last())) =~= split(a, '\n').push(x));
    }
}

proof fn lemma_split_joined(r: Seq<Seq<char>>)
    requires
        r.len() >= 1,
        forall|i: int| 0 <= i < r.len() ==> one_line(#[trigger] r[i]),
    ensures
        split(joined(r), '\n') == r,
    decreases r.len(),
{
    if r.len() == 1 {
        lemma_split_one(r[0]);
        assert(seq![r[0]] =~= r);
    } else {
        let r0 = r.drop_last();
        assert forall|i: int| 0 <= i < r0.len() implies one_line(#[trigger] r0[i]) by {
            assert(r0[i] == r[i]);
        }
        lemma_split_joined(r0);
        lemma_split_append(joined(r0), r.last());
        assert(r0.push(r.last()) =~= r);
    }
}

/// The pieces between newlines hold no newline.
proof fn lemma_split_lines(s: Seq<char>)
    ensures
        forall|i: int| 0 <= i < split(s, '\n').len() ==> one_line(#[trigger] split(s, '\n')[i]),
        split(s, '\n').len() >= 1,
        s.len() > 0 && s.last() != '\n' ==> split(s, '\n').last().len() > 0,
    decreases s.len(),
{
    if s.len() > 0 {
        lemma_split_lines(s.drop_last());
        let p = split(s.drop_last(), '\n');
        if s.last() != '\n' {
            let q = p.update(p.len() - 1, p.last().push(s.last()));
            assert forall|i: int| 0 <= i < q.len() implies one_line(#[trigger] q[i]) by {
                if i == p.len() - 1 {
                    assert forall|k: int| 0 <= k < q[i].len() implies #[trigger] q[i][k] != '\n' by {
                        if k < p.last().len() {
                            assert(q[i][k] == p.last()[k]);
                        }
                    }
                } else {
                    assert(q[i] == p[i]);
                }
            }
        } else {
            let q = p.push(Seq::<char>::empty());
            assert forall|i: int| 0 <= i < q.len() implies one_line(#[trigger] q[i]) by {
                if i < p.len() {
                    assert(q[i] == p[i]);
                }
            }
        }
    } else {
        assert(split(s, '\n') == seq![Seq::<char>::empty()]);
        assert(one_line(Seq::<char>::empty()));
    }
}

/// A line that ends in `\r`.
pub open spec fn ends_in_cr(l: Seq<char>) -> bool {
    l.len() > 0 && l.last() == '\r'
}

/// Lines joined by newlines, with or without a final newline, are read back
/// as the same lines, when no line that a newline ends ends in `\r`, and the
/// last line is not empty unless a newline ends it.
proof fn lemma_lines_round_trip(r: Seq<Seq<char>>, ended: bool)
    requires
        r.len() >= 1,
        forall|i: int| 0 <= i < r.len() ==> one_line(#[trigger] r[i]),
        forall|i: int|
            0 <= i < r.len() && (ended || i < r.len() - 1) ==> !ends_in_cr(#[trigger] r[i]),
        !ended ==> r.last().len() > 0,
    ensures
        lines(joined(r) + (if ended { "\n"@ } else { ""@ })) == r,
{
    reveal_strlit("\n");
    reveal_strlit("");
    lemma_split_joined(r);
    if ended {
        assert(one_line(Seq::<char>::empty()));
        lemma_split_append(joined(r), Seq::<char>::empty());
        assert(joined(r) + "\n"@ + Seq::<char>::empty() =~= joined(r) + "\n"@);
        let parts = r.push(Seq::<char>::empty());
        assert(parts.drop_last() =~= r);
        assert(r.map_values(|l: Seq<char>| strip_cr(l)) =~= r) by {
            assert forall|i: int| 0 <= i < r.len() implies strip_cr(#[trigger] r[i]) == r[i] by {
                assert(!ends_in_cr(r[i]));
            }
        }
    } else {
        assert(joined(r) + ""@ =~= joined(r));
        assert(r.drop_last().map_values(|l: Seq<char>| strip_cr(l)).push(r.last()) =~= r) by {
            assert forall|i: int| 0 <= i < r.len() - 1 implies strip_cr(#[trigger] r[i]) == r[i] by {
                assert(!ends_in_cr(r[i]));
            }
        }
    }
}

/// The file ends with a newline.
pub open spec fn newline_ended(c: Seq<char>) -> bool {
    c.len() > 0 && c.last() == '\n'
}

/// Some line of the file sets `lock_cmd`.
pub open spec fn names_lock_command(c: Seq<char>) -> bool {
    exists|i: int| 0 <= i < lines(c).len() && sets_key(#[trigger] lines(c)[i], "lock_cmd"@)
}

/// A line that a newline ends, that setup leaves alone, ends in `\r`: it was
/// written with `\r\r\n`, and every run of setup drops one more `\r` of it.
pub open spec fn stray_cr(c: Seq<char>) -> bool {
    exists|i: int|
        0 <= i < lines(c).len() && (newline_ended(c) || i < lines(c).len() - 1) && ends_in_cr(
            #[trigger] lines(c)[i],
        ) && !sets_key(lines(c)[i], "lock_cmd"@) && !sets_key(lines(c)[i], "before_sleep_cmd"@)
}

proof fn lemma_joined_last(r: Seq<Seq<char>>)
    requires
        r.len() >= 1,
        r.last().len() > 0,
    ensures
        joined(r).len() > 0 && joined(r).last() == r.last().last(),
{
    if r.len() > 1 {
        let j = joined(r.drop_last()) + "\n"@ + r.last();
        assert(j.last() == r.last().last());
    }
}

/// Setting up the screen lock of a file that already sets `lock_cmd` a
/// second time changes nothing: the first run points the lock lines at
/// DeckLock, and the second finds the file configured. The one exception is
/// a file with a line that setup leaves alone and that ends in `\r\r\n`.
pub proof fn law_lock_setup_settles(path: Seq<char>, c: Seq<char>, template: Seq<char>, dry_run: bool)
    requires
        names_lock_command(c),
        !stray_cr(c),
    ensures
        hypridle_update(c) matches Ok(u) && hypridle_update(u) == Ok::<Seq<char>, ()>(u) && lock_step_of(
            path,
            Some(u),
            template,
            dry_run,
        ) == Ok::<LockStepView, Seq<char>>(
            LockStepView::Report("Screen lock in "@ + path + " is already configured for DeckLock"@),
        ),
{
    reveal_strlit("\n");
    reveal_strlit("");
    let ls = lines(c);
    let r = ls.map_values(|l: Seq<char>| rewritten(l));
    let ended = newline_ended(c);
    let tail = if ended { "\n"@ } else { ""@ };
    let u = joined(r) + tail;
    assert(edited(c) == u);
    assert(hypridle_update(c) == Ok::<Seq<char>, ()>(u));
    let parts = split(c, '\n');
    lemma_split_lines(c);
    assert forall|i: int| 0 <= i < ls.len() implies one_line(#[trigger] ls[i]) by {
        if i < parts.len() - 1 {
            assert(ls[i] == strip_cr(parts[i]));
            assert(one_line(parts[i]));
            assert forall|k: int| 0 <= k < ls[i].len() implies #[trigger] ls[i][k] != '\n' by {
                assert(ls[i][k] == parts[i][k]);
            }
        } else {
            assert(ls[i] == parts.last());
        }
    }
    let w = choose|i: int| 0 <= i < ls.len() && sets_key(#[trigger] ls[i], "lock_cmd"@);
    assert(ls.len() >= 1);
    assert(c.len() > 0) by {
        if c.len() == 0 {
            assert(parts == seq![Seq::<char>::empty()]);
        }
    }
    if !ended {
        assert(parts.last().len() > 0);
        assert(ls.last() == parts.last());
    }
    assert forall|i: int| 0 <= i < r.len() implies one_line(#[trigger] r[i]) && rewritten(r[i]) == r[i]
        && (sets_key(ls[i], "lock_cmd"@) ==> sets_key(r[i], "lock_cmd"@)) && ((ended || i < r.len() - 1)
        ==> !ends_in_cr(r[i])) && (i == r.len() - 1 && !ended ==> r[i].len() > 0) by {
        lemma_rewritten_settles(ls[i]);
        if (ended || i < r.len() - 1) && ends_in_cr(r[i]) {
            assert(r[i] == ls[i]);
            assert(!stray_cr(c));
        }
    }
    lemma_lines_round_trip(r, ended);
    assert(lines(u) == r);
    if !ended {
        lemma_joined_last(r);
        assert(u =~= joined(r));
        assert(u.last() != '\n') by {
            assert(one_line(r.last()));
            assert(r.last()[r.last().len() - 1] == r.last().last());
        }
    }
    assert(newline_ended(u) == ended);
    assert(sets_key(lines(u)[w], "lock_cmd"@));
    assert(r.map_values(|l: Seq<char>| rewritten(l)) =~= r);
    assert(edited(u) == u);
    assert(hypridle_update(u) == Ok::<Seq<char>, ()>(u));
}

} // verus!
