//! Native greetd greeter: account and session discovery from their text
//! formats, and the decisions of a greetd login conversation.
use crate::text::{
    chars_of, ends, has_prefix, has_suffix, is, lemma_text_less_irreflexive,
    lemma_text_less_total, lemma_text_less_transitive, lines, lines_of, opt_text, parse_u32,
    parse_u32_of, slice, split, split_on, starts, string_of, text_less, text_less_of, texts, trim,
    trimmed,
};
use vstd::prelude::*;

verus! {

#[derive(Debug, Clone, PartialEq, Eq)]
pub struct UserEntry {
    pub username: String,
    pub display_name: String,
    pub uid: u32,
    pub icon_path: Option<String>,
}

#[derive(Debug, Clone, PartialEq, Eq)]
pub struct DesktopSession {
    pub id: String,
    pub name: String,
    pub command: Vec<String>,
}

/// Persistent state across greeter restarts: the last user and session.
#[derive(Debug, Clone, PartialEq, Eq)]
pub struct GreeterState {
    pub last_user: Option<String>,
    pub last_session: Option<String>,
}

impl Default for GreeterState {
    fn default() -> (r: GreeterState)
        ensures
            r.last_user is None,
            r.last_session is None,
    {
        GreeterState { last_user: None, last_session: None }
    }
}

impl GreeterState {
    /// Where the state is kept: `DECKLOCK_GREETER_STATE` when set; else under
    /// `XDG_STATE_HOME`; else under `.local/state` in the home directory; else
    /// in the temporary directory.
    pub open spec fn state_file_path_of(
        override_path: Option<Seq<char>>,
        state_home: Option<Seq<char>>,
        home: Option<Seq<char>>,
        temp_dir: Seq<char>,
    ) -> Seq<char> {
        match override_path {
            Some(p) => p,
            None => match state_home {
                Some(s) => crate::paths::joined(s, "decklock/greeter-state.toml"@),
                None => match home {
                    Some(h) => crate::paths::joined(h, ".local/state/decklock/greeter-state.toml"@),
                    None => crate::paths::joined(temp_dir, "decklock-greeter-state.toml"@),
                },
            },
        }
    }

    pub fn state_file_path(
        override_path: Option<String>,
        state_home: Option<String>,
        home: Option<String>,
        temp_dir: &str,
    ) -> (r: String)
        ensures
            r@ == Self::state_file_path_of(
                opt_text(override_path),
                opt_text(state_home),
                opt_text(home),
                temp_dir@,
            ),
    {
        match override_path {
            Some(p) => p,
            None => match state_home {
                Some(s) => crate::paths::join(s.as_str(), "decklock/greeter-state.toml"),
                None => match home {
                    Some(h) => crate::paths::join(h.as_str(), ".local/state/decklock/greeter-state.toml"),
                    None => crate::paths::join(temp_dir, "decklock-greeter-state.toml"),
                },
            },
        }
    }

    /// Remembers the chosen user and session.
    pub fn select(&mut self, user: &str, session_id: &str)
        ensures
            opt_text(final(self).last_user) == Some(user@),
            opt_text(final(self).last_session) == Some(session_id@),
    {
        self.last_user = Some(string_of(&chars_of(user)));
        self.last_session = Some(string_of(&chars_of(session_id)));
    }
}

/// An account as the greeter lists it: name, display name and uid.
pub type UserView = (Seq<char>, Seq<char>, u32);

/// The account a passwd line describes, if it is a regular desktop user:
/// uid 1000 to 59999 and a shell that is neither `nologin` nor `false`. The
/// display name is the first GECOS field, or the account name without one.
pub open spec fn passwd_user(line: Seq<char>) -> Option<UserView> {
    let l = trim(line);
    if l.len() == 0 || l[0] == '#' {
        None
    } else {
        let parts = split(l, ':');
        if parts.len() < 7 {
            None
        } else {
            match parse_u32(parts[2]) {
                None => None,
                Some(uid) => {
                    let gecos = trim(split(parts[4], ',')[0]);
                    let shell = trim(parts[6]);
                    if 1000 <= uid < 60000 && !has_suffix(shell, "nologin"@) && !has_suffix(
                        shell,
                        "false"@,
                    ) {
                        Some((parts[0], if gecos.len() > 0 { gecos } else { parts[0] }, uid))
                    } else {
                        None
                    }
                },
            }
        }
    }
}

/// The desktop users of a passwd database, in file order.
pub open spec fn passwd_users(ls: Seq<Seq<char>>) -> Seq<UserView>
    decreases ls.len(),
{
    if ls.len() == 0 {
        Seq::empty()
    } else {
        match passwd_user(ls.last()) {
            Some(u) => passwd_users(ls.drop_last()).push(u),
            None => passwd_users(ls.drop_last()),
        }
    }
}

/// The account offered when no desktop user is found.
pub open spec fn fallback_user() -> UserView {
    ("user"@, "User"@, 1000)
}

/// The users the greeter offers for a passwd database.
pub open spec fn users_in(passwd: Seq<char>) -> Seq<UserView> {
    let found = passwd_users(lines(passwd));
    if found.len() == 0 {
        seq![fallback_user()]
    } else {
        found
    }
}

pub open spec fn user_view(u: UserEntry) -> UserView {
    (u.username@, u.display_name@, u.uid)
}

fn user_of(line: &Vec<char>) -> (r: Option<UserEntry>)
    ensures
        match r {
            Some(u) => passwd_user(line@) == Some(user_view(u)) && u.icon_path is None,
            None => passwd_user(line@) is None,
        },
{
    let l = trimmed(line);
    if l.len() == 0 || l[0] == '#' {
        return None;
    }
    let parts = split_on(&l, ':');
    if parts.len() < 7 {
        return None;
    }
    let ghost ps = split(l@, ':');
    assert(parts@[2]@ == ps[2] && parts@[4]@ == ps[4] && parts@[6]@ == ps[6] && parts@[0]@ == ps[0]);
    let uid = match parse_u32_of(&parts[2]) {
        Some(uid) => uid,
        None => return None,
    };
    let gecos_parts = split_on(&parts[4], ',');
    proof {
        lemma_split_nonempty(parts@[4]@, ',');
    }
    let gecos = trimmed(&gecos_parts[0]);
    let shell = trimmed(&parts[6]);
    if 1000 <= uid && uid < 60000 && !ends(&shell, &chars_of("nologin")) && !ends(
        &shell,
        &chars_of("false"),
    ) {
        let name = string_of(&parts[0]);
        let display = if gecos.len() > 0 {
            string_of(&gecos)
        } else {
            string_of(&parts[0])
        };
        Some(UserEntry { username: name, display_name: display, uid, icon_path: None })
    } else {
        None
    }
}

proof fn lemma_split_nonempty(s: Seq<char>, c: char)
    ensures
        split(s, c).len() >= 1,
    decreases s.len(),
{
    if s.len() > 0 {
        lemma_split_nonempty(s.drop_last(), c);
    }
}

/// Regular desktop accounts of a passwd database, or a generic `user`
/// account when there is none. Icons are looked up by the caller.
pub fn users_from_passwd(content: &str) -> (r: Vec<UserEntry>)
    ensures
        r@.map_values(|u: UserEntry| user_view(u)) == users_in(content@),
        forall|i: int| 0 <= i < r.len() ==> (#[trigger] r@[i]).icon_path is None,
{
    let ls = lines_of(&chars_of(content));
    let mut users: Vec<UserEntry> = Vec::new();
    let mut k: usize = 0;
    assert(texts(ls@).take(0) == Seq::<Seq<char>>::empty());
    while k < ls.len()
        invariant
            k <= ls.len(),
            users@.map_values(|u: UserEntry| user_view(u)) == passwd_users(texts(ls@).take(k as int)),
            forall|i: int| 0 <= i < users.len() ==> (#[trigger] users@[i]).icon_path is None,
        decreases ls.len() - k,
    {
        let ghost t = texts(ls@).take(k + 1);
        assert(t.drop_last() == texts(ls@).take(k as int));
        assert(t.last() == ls@[k as int]@);
        let ghost before = users@;
        match user_of(&ls[k]) {
            Some(u) => {
                users.push(u);
                assert(users@.map_values(|u: UserEntry| user_view(u)) =~= before.map_values(
                    |u: UserEntry| user_view(u),
                ).push(user_view(users@.last())));
            },
            None => {},
        }
        k += 1;
    }
    assert(texts(ls@).take(ls.len() as int) == texts(ls@));
    if users.len() == 0 {
        users.push(
            UserEntry {
                username: string_of(&chars_of("user")),
                display_name: string_of(&chars_of("User")),
                uid: 1000,
                icon_path: None,
            },
        );
        assert(users@.map_values(|u: UserEntry| user_view(u)) =~= seq![fallback_user()]);
    }
    users
}

/// Where a desktop user's picture may be, in the order they are tried: the
/// home directory's `.face` and `.face.icon`, then the AccountsService icon.
pub open spec fn icon_candidates_of(line: Seq<char>) -> Seq<Seq<char>> {
    let parts = split(trim(line), ':');
    seq![
        crate::paths::joined(parts[5], ".face"@),
        crate::paths::joined(parts[5], ".face.icon"@),
        "/var/lib/AccountsService/icons/"@ + parts[0],
    ]
}

/// The picture candidates of each desktop user, in file order.
pub open spec fn passwd_icons(ls: Seq<Seq<char>>) -> Seq<Seq<Seq<char>>>
    decreases ls.len(),
{
    if ls.len() == 0 {
        Seq::empty()
    } else {
        match passwd_user(ls.last()) {
            Some(_) => passwd_icons(ls.drop_last()).push(icon_candidates_of(ls.last())),
            None => passwd_icons(ls.drop_last()),
        }
    }
}

/// The picture candidates of each user [`users_from_passwd`] offers, in the
/// same order; the generic account has none.
pub open spec fn icons_in(passwd: Seq<char>) -> Seq<Seq<Seq<char>>> {
    if passwd_users(lines(passwd)).len() == 0 {
        seq![Seq::empty()]
    } else {
        passwd_icons(lines(passwd))
    }
}

proof fn lemma_icons_follow_users(ls: Seq<Seq<char>>)
    ensures
        passwd_icons(ls).len() == passwd_users(ls).len(),
    decreases ls.len(),
{
    if ls.len() > 0 {
        lemma_icons_follow_users(ls.drop_last());
    }
}

fn candidates_of(line: &Vec<char>) -> (r: Vec<String>)
    requires
        passwd_user(line@) is Some,
    ensures
        r@.map_values(|s: String| s@) == icon_candidates_of(line@),
{
    let l = trimmed(line);
    let parts = split_on(&l, ':');
    let ghost ps = split(l@, ':');
    assert(parts@[5]@ == ps[5] && parts@[0]@ == ps[0]);
    let home = string_of(&parts[5]);
    let mut out: Vec<String> = Vec::new();
    out.push(crate::paths::join(home.as_str(), ".face"));
    out.push(crate::paths::join(home.as_str(), ".face.icon"));
    let mut service = chars_of("/var/lib/AccountsService/icons/");
    crate::text::append(&mut service, &parts[0]);
    out.push(string_of(&service));
    assert(out@.map_values(|s: String| s@) =~= icon_candidates_of(line@));
    out
}

/// For each user that [`users_from_passwd`] returns for the same text, the
/// paths to try for their picture, first match wins.
pub fn user_icon_candidates(content: &str) -> (r: Vec<Vec<String>>)
    ensures
        r@.map_values(|c: Vec<String>| c@.map_values(|s: String| s@)) == icons_in(content@),
        r.len() == users_in(content@).len(),
{
    let ls = lines_of(&chars_of(content));
    let ghost all = texts(ls@);
    let mut out: Vec<Vec<String>> = Vec::new();
    let mut found: usize = 0;
    let mut k: usize = 0;
    assert(all.take(0) =~= Seq::<Seq<char>>::empty());
    while k < ls.len()
        invariant
            k <= ls.len(),
            all == texts(ls@),
            all == lines(content@),
            out@.map_values(|c: Vec<String>| c@.map_values(|s: String| s@)) == passwd_icons(
                all.take(k as int),
            ),
            found as int == passwd_users(all.take(k as int)).len(),
            found <= k,
        decreases ls.len() - k,
    {
        let ghost t = all.take(k + 1);
        assert(t.drop_last() =~= all.take(k as int));
        assert(t.last() == ls@[k as int]@);
        let ghost before = out@;
        if user_of(&ls[k]).is_some() {
            let c = candidates_of(&ls[k]);
            out.push(c);
            found += 1;
            assert(out@.map_values(|c: Vec<String>| c@.map_values(|s: String| s@)) =~= before.map_values(
                |c: Vec<String>| c@.map_values(|s: String| s@),
            ).push(icon_candidates_of(ls@[k as int]@)));
        }
        k += 1;
    }
    assert(all.take(ls.len() as int) =~= all);
    proof {
        lemma_icons_follow_users(all);
    }
    if found == 0 {
        let empty: Vec<String> = Vec::new();
        let ghost before = out@;
        assert(before.len() == 0);
        out.push(empty);
        assert(out@.len() == 1 && out@[0]@.len() == 0);
        assert(out@[0]@.map_values(|s: String| s@) =~= Seq::<Seq<char>>::empty());
        assert(out@.map_values(|c: Vec<String>| c@.map_values(|s: String| s@)) =~= seq![
            Seq::<Seq<char>>::empty(),
        ]);
    }
    out
}

/// What a desktop entry's `[Desktop Entry]` group says: its first `Name=`
/// and first `Exec=` values, read while scanning lines.
pub struct EntryScan {
    pub main_group: bool,
    pub name: Option<Seq<char>>,
    pub command: Option<Seq<char>>,
}

pub open spec fn scan_line(s: EntryScan, line: Seq<char>) -> EntryScan {
    let l = trim(line);
    if l.len() > 0 && l[0] == '[' && l.last() == ']' {
        EntryScan { main_group: l == "[Desktop Entry]"@, ..s }
    } else if !s.main_group {
        s
    } else if has_prefix(l, "Name="@) && s.name is None {
        EntryScan { name: Some(trim(l.skip(5))), ..s }
    } else if has_prefix(l, "Exec="@) && s.command is None {
        EntryScan { command: Some(trim(l.skip(5))), ..s }
    } else {
        s
    }
}

pub open spec fn scan_lines(ls: Seq<Seq<char>>) -> EntryScan
    decreases ls.len(),
{
    if ls.len() == 0 {
        EntryScan { main_group: false, name: None, command: None }
    } else {
        scan_line(scan_lines(ls.drop_last()), ls.last())
    }
}

/// The name and command line of a session entry: the name defaults to the
/// entry's ID; an entry without `Exec=`, or whose command uses field codes
/// (`%`), cannot be launched by greetd.
pub open spec fn session_entry(id: Seq<char>, content: Seq<char>) -> Option<(Seq<char>, Seq<char>)> {
    let s = scan_lines(lines(content));
    match s.command {
        None => None,
        Some(command) => if command.contains('%') {
            None
        } else {
            Some((if s.name is Some { s.name.unwrap() } else { id }, command))
        },
    }
}

/// Name and command line of a Wayland session desktop entry, before its
/// command line is split into arguments.
pub fn session_entry_of(id: &str, content: &str) -> (r: Option<(String, String)>)
    ensures
        match r {
            Some(e) => session_entry(id@, content@) == Some((e.0@, e.1@)),
            None => session_entry(id@, content@) is None,
        },
{
    proof {
        reveal_strlit("Name=");
        reveal_strlit("Exec=");
    }
    let ls = lines_of(&chars_of(content));
    let mut main_group = false;
    let mut name: Option<Vec<char>> = None;
    let mut command: Option<Vec<char>> = None;
    let mut k: usize = 0;
    assert(texts(ls@).take(0) == Seq::<Seq<char>>::empty());
    while k < ls.len()
        invariant
            k <= ls.len(),
            scan_lines(texts(ls@).take(k as int)) == (EntryScan {
                main_group,
                name: match name {
                    Some(n) => Some(n@),
                    None => None,
                },
                command: match command {
                    Some(e) => Some(e@),
                    None => None,
                },
            }),
        decreases ls.len() - k,
    {
        proof {
            reveal_strlit("Name=");
            reveal_strlit("Exec=");
        }
        let ghost t = texts(ls@).take(k + 1);
        assert(t.drop_last() == texts(ls@).take(k as int));
        assert(t.last() == ls@[k as int]@);
        let l = trimmed(&ls[k]);
        if l.len() > 0 && l[0] == '[' && l[l.len() - 1] == ']' {
            main_group = is(&l, "[Desktop Entry]");
        } else if main_group {
            if starts(&l, &chars_of("Name=")) && name.is_none() {
                let v = trimmed(&slice(&l, 5, l.len()));
                assert(l@.subrange(5, l@.len() as int) == l@.skip(5));
                name = Some(v);
            } else if starts(&l, &chars_of("Exec=")) && command.is_none() {
                let v = trimmed(&slice(&l, 5, l.len()));
                assert(l@.subrange(5, l@.len() as int) == l@.skip(5));
                command = Some(v);
            }
        }
        k += 1;
    }
    assert(texts(ls@).take(ls.len() as int) == texts(ls@));
    let command = match command {
        Some(e) => e,
        None => return None,
    };
    let mut i: usize = 0;
    while i < command.len()
        invariant
            i <= command.len(),
            scan_lines(lines(content@)).command == Some(command@),
            forall|j: int| 0 <= j < i ==> command@[j] != '%',
        decreases command.len() - i,
    {
        if command[i] == '%' {
            assert(command@.contains('%'));
            return None;
        }
        i += 1;
    }
    let name = match name {
        Some(n) => string_of(&n),
        None => string_of(&chars_of(id)),
    };
    Some((name, string_of(&command)))
}


/// A greetd IPC response (greetd-ipc).
#[derive(Debug, Clone, PartialEq, Eq)]
pub enum GreetdResponse {
    Success,
    Error { error_type: String, description: String },
    AuthMessage { auth_message_type: String, auth_message: String },
}

/// The kinds of authentication message greetd sends.
#[derive(Debug, Clone, Copy, PartialEq, Eq, Structural)]
pub enum PromptKind {
    Secret,
    Visible,
    Info,
    Error,
}

/// Where a login conversation stands.
#[derive(Debug, Clone, Copy, PartialEq, Eq, Structural)]
pub enum Phase {
    /// Waiting for greetd's answer to `create_session` or to a response.
    Conversing,
    /// Waiting for the user's answer to a prompt.
    Prompting(PromptKind),
    /// Waiting for greetd's answer to `start_session`.
    Starting,
    /// Nothing more to do.
    Over,
}

/// What the conversation asks of the caller next.
#[derive(Debug, PartialEq, Eq)]
pub enum LoginStep {
    /// Send `start_session` with the selected command.
    StartSession,
    /// Send `post_auth_message_response` with this answer.
    Respond(Option<String>),
    /// Show the message to the user and hand the answer to `Login::answer`.
    Prompt { kind: String, message: String },
    /// Send `cancel_session`, whatever it returns, then fail with this error.
    Cancel(String),
    /// The conversation is over; `Ok` only after greetd started the session.
    Finish(Result<(), String>),
}

/// A greetd response as text.
pub enum Reply {
    Success,
    Failure(Seq<char>),
    Message(Seq<char>, Seq<char>),
}

pub open spec fn reply(r: GreetdResponse) -> Reply {
    match r {
        GreetdResponse::Success => Reply::Success,
        GreetdResponse::Error { description, .. } => Reply::Failure(description@),
        GreetdResponse::AuthMessage { auth_message_type, auth_message } => Reply::Message(
            auth_message_type@,
            auth_message@,
        ),
    }
}

/// A step as text.
pub enum Step {
    StartSession,
    Respond(Option<Seq<char>>),
    Prompt(Seq<char>, Seq<char>),
    Cancel(Seq<char>),
    Finish(Result<(), Seq<char>>),
}

pub open spec fn step(s: LoginStep) -> Step {
    match s {
        LoginStep::StartSession => Step::StartSession,
        LoginStep::Respond(a) => Step::Respond(opt_text(a)),
        LoginStep::Prompt { kind, message } => Step::Prompt(kind@, message@),
        LoginStep::Cancel(e) => Step::Cancel(e@),
        LoginStep::Finish(r) => Step::Finish(
            match r {
                Ok(()) => Ok(()),
                Err(e) => Err(e@),
            },
        ),
    }
}

/// The most responses a conversation takes before it gives up.
pub open spec fn max_rounds() -> nat {
    32
}

pub struct LoginView {
    pub rounds: nat,
    pub initial: Option<Seq<char>>,
    pub phase: Phase,
}

pub open spec fn prompt_kind(t: Seq<char>) -> Option<PromptKind> {
    if t == "secret"@ {
        Some(PromptKind::Secret)
    } else if t == "visible"@ {
        Some(PromptKind::Visible)
    } else if t == "info"@ {
        Some(PromptKind::Info)
    } else if t == "error"@ {
        Some(PromptKind::Error)
    } else {
        None
    }
}

impl LoginView {
    pub open spec fn expects_response(self) -> bool {
        self.phase == Phase::Conversing || self.phase == Phase::Starting
    }

    pub open spec fn expects_answer(self) -> bool {
        self.phase is Prompting
    }

    /// The next state and step after a greetd response.
    pub open spec fn on_response(self, r: Reply) -> (LoginView, Step) {
        let over = LoginView { phase: Phase::Over, ..self };
        if self.phase == Phase::Starting {
            match r {
                Reply::Success => (over, Step::Finish(Ok(()))),
                Reply::Failure(d) => (over, Step::Finish(Err(d))),
                Reply::Message(_, _) => (
                    over,
                    Step::Finish(Err("Unexpected authentication prompt while starting session"@)),
                ),
            }
        } else if self.rounds >= max_rounds() {
            (over, Step::Cancel("Too many greetd authentication messages"@))
        } else {
            let counted = LoginView { rounds: self.rounds + 1, ..self };
            match r {
                Reply::Success => (LoginView { phase: Phase::Starting, ..counted }, Step::StartSession),
                Reply::Failure(d) => (LoginView { phase: Phase::Over, ..counted }, Step::Finish(Err(d))),
                Reply::Message(t, m) => match prompt_kind(t) {
                    Some(PromptKind::Secret) => match self.initial {
                        Some(p) => (LoginView { initial: None, ..counted }, Step::Respond(Some(p))),
                        None => (
                            LoginView { phase: Phase::Prompting(PromptKind::Secret), ..counted },
                            Step::Prompt(t, m),
                        ),
                    },
                    Some(k) => (LoginView { phase: Phase::Prompting(k), ..counted }, Step::Prompt(t, m)),
                    None => (
                        LoginView { phase: Phase::Over, ..counted },
                        Step::Cancel("Unknown greetd authentication message type"@),
                    ),
                },
            }
        }
    }

    /// The next state and step after the user answered (or aborted) a prompt.
    pub open spec fn on_answer(self, a: Result<Option<Seq<char>>, Seq<char>>) -> (LoginView, Step) {
        let kind = self.phase->Prompting_0;
        let over = LoginView { phase: Phase::Over, ..self };
        match a {
            Err(e) => (over, Step::Cancel(e)),
            Ok(answer) => {
                let needs = kind == PromptKind::Secret || kind == PromptKind::Visible;
                let sent = if needs {
                    answer
                } else {
                    None
                };
                if sent is None && needs {
                    (over, Step::Cancel("Authentication prompt was not answered"@))
                } else {
                    (LoginView { phase: Phase::Conversing, ..self }, Step::Respond(sent))
                }
            },
        }
    }
}

/// One greetd login conversation. The caller performs each step and hands
/// back greetd's responses and the user's answers; only greetd's successful
/// answer to `start_session` ends it with `Ok`.
pub struct Login {
    rounds: u32,
    initial: Option<String>,
    phase: Phase,
}

impl View for Login {
    type V = LoginView;

    closed spec fn view(&self) -> LoginView {
        LoginView {
            rounds: self.rounds as nat,
            initial: opt_text(self.initial),
            phase: self.phase,
        }
    }
}

impl Login {
    /// Starts a conversation for a selected session command. A non-empty
    /// password typed in advance answers the first secret prompt. The caller
    /// then sends `create_session`.
    pub fn new(command: &Vec<String>, initial_password: String) -> (r: Result<Login, String>)
        ensures
            match r {
                Ok(l) => command.len() > 0 && l@ == (LoginView {
                    rounds: 0,
                    initial: if initial_password@.len() > 0 {
                        Some(initial_password@)
                    } else {
                        None
                    },
                    phase: Phase::Conversing,
                }),
                Err(e) => command.len() == 0 && e@ == "No desktop session was selected"@,
            },
    {
        if command.len() == 0 {
            return Err(string_of(&chars_of("No desktop session was selected")));
        }
        let empty = chars_of(initial_password.as_str()).len() == 0;
        let initial = if empty {
            None
        } else {
            Some(initial_password)
        };
        Ok(Login { rounds: 0, initial, phase: Phase::Conversing })
    }

    pub fn phase(&self) -> (r: Phase)
        ensures
            r == self@.phase,
    {
        self.phase
    }

    /// The step after a greetd response.
    pub fn respond(&mut self, response: GreetdResponse) -> (r: LoginStep)
        requires
            old(self)@.expects_response(),
        ensures
            (final(self)@, step(r)) == old(self)@.on_response(reply(response)),
    {
        if self.phase == Phase::Starting {
            self.phase = Phase::Over;
            return match response {
                GreetdResponse::Success => LoginStep::Finish(Ok(())),
                GreetdResponse::Error { description, .. } => LoginStep::Finish(Err(description)),
                GreetdResponse::AuthMessage { .. } => LoginStep::Finish(
                    Err(string_of(&chars_of("Unexpected authentication prompt while starting session"))),
                ),
            };
        }
        if self.rounds >= 32 {
            self.phase = Phase::Over;
            return LoginStep::Cancel(string_of(&chars_of("Too many greetd authentication messages")));
        }
        self.rounds = self.rounds + 1;
        match response {
            GreetdResponse::Success => {
                self.phase = Phase::Starting;
                LoginStep::StartSession
            },
            GreetdResponse::Error { description, .. } => {
                self.phase = Phase::Over;
                LoginStep::Finish(Err(description))
            },
            GreetdResponse::AuthMessage { auth_message_type, auth_message } => {
                let t = chars_of(auth_message_type.as_str());
                let kind = if is(&t, "secret") {
                    Some(PromptKind::Secret)
                } else if is(&t, "visible") {
                    Some(PromptKind::Visible)
                } else if is(&t, "info") {
                    Some(PromptKind::Info)
                } else if is(&t, "error") {
                    Some(PromptKind::Error)
                } else {
                    None
                };
                match kind {
                    Some(PromptKind::Secret) => {
                        if self.initial.is_some() {
                            let p = self.initial.take();
                            return LoginStep::Respond(p);
                        }
                        self.phase = Phase::Prompting(PromptKind::Secret);
                        LoginStep::Prompt { kind: auth_message_type, message: auth_message }
                    },
                    Some(k) => {
                        self.phase = Phase::Prompting(k);
                        LoginStep::Prompt { kind: auth_message_type, message: auth_message }
                    },
                    None => {
                        self.phase = Phase::Over;
                        LoginStep::Cancel(
                            string_of(&chars_of("Unknown greetd authentication message type")),
                        )
                    },
                }
            },
        }
    }

    /// The step after the user answered a prompt (`Err` when they aborted it).
    pub fn answer(&mut self, answer: Result<Option<String>, String>) -> (r: LoginStep)
        requires
            old(self)@.expects_answer(),
        ensures
            (final(self)@, step(r)) == old(self)@.on_answer(
                match answer {
                    Ok(a) => Ok(opt_text(a)),
                    Err(e) => Err(e@),
                },
            ),
    {
        let kind = match self.phase {
            Phase::Prompting(k) => k,
            _ => PromptKind::Info,
        };
        match answer {
            Err(e) => {
                self.phase = Phase::Over;
                LoginStep::Cancel(e)
            },
            Ok(a) => {
                let needs = kind == PromptKind::Secret || kind == PromptKind::Visible;
                let sent = if needs {
                    a
                } else {
                    None
                };
                if sent.is_none() && needs {
                    self.phase = Phase::Over;
                    return LoginStep::Cancel(
                        string_of(&chars_of("Authentication prompt was not answered")),
                    );
                }
                self.phase = Phase::Conversing;
                LoginStep::Respond(sent)
            },
        }
    }
}

/// Only greetd decides that a login succeeded: a conversation finishes with
/// `Ok` exactly when greetd answers `start_session` with success, and it only
/// sends `start_session` after greetd reported a successful authentication.
pub proof fn law_only_greetd_success_logs_in(v: LoginView, r: Reply)
    requires
        v.expects_response(),
    ensures
        v.on_response(r).1 == Step::Finish(Ok(())) <==> (v.phase == Phase::Starting && r
            == Reply::Success),
        v.on_response(r).0.phase == Phase::Starting ==> v.phase == Phase::Conversing && r
            == Reply::Success,
{
}

/// A password typed in advance answers one secret prompt and is then
/// forgotten; no other message ever receives it, and no answer the user did
/// not give is sent for a secret or visible prompt.
pub proof fn law_typed_password_answers_one_secret(v: LoginView, r: Reply)
    requires
        v.expects_response(),
        v.initial is Some,
    ensures
        v.on_response(r).1 == Step::Respond(v.initial) ==> (r matches Reply::Message(t, _)
            && t == "secret"@) && v.on_response(r).0.initial is None,
        v.on_response(r).0.initial is Some || (r matches Reply::Message(t, _) && t == "secret"@),
{
}

/// A conversation handles at most 32 greetd messages before it cancels.
pub proof fn law_conversation_is_bounded(v: LoginView, r: Reply)
    requires
        v.phase == Phase::Conversing,
    ensures
        v.rounds >= max_rounds() ==> v.on_response(r) == (
            LoginView { phase: Phase::Over, ..v },
            Step::Cancel("Too many greetd authentication messages"@),
        ),
        v.on_response(r).0.rounds <= max_rounds() || v.rounds > max_rounds(),
{
}


/// A desktop session as text: its ID, its name and its command.
pub open spec fn session_view(s: DesktopSession) -> (Seq<char>, Seq<char>, Seq<Seq<char>>) {
    (s.id@, s.name@, s.command@.map_values(|a: String| a@))
}

/// The sessions found, keeping only the first one of each ID.
pub open spec fn first_of_each_id(found: Seq<(Seq<char>, Seq<char>, Seq<Seq<char>>)>) -> Seq<
    (Seq<char>, Seq<char>, Seq<Seq<char>>),
>
    decreases found.len(),
{
    if found.len() == 0 {
        Seq::empty()
    } else {
        let kept = first_of_each_id(found.drop_last());
        if exists|i: int| 0 <= i < kept.len() && (#[trigger] kept[i]).0 == found.last().0 {
            kept
        } else {
            kept.push(found.last())
        }
    }
}

/// Sessions listed by ID, each ID once and in `String` order.
pub open spec fn ordered_by_id(r: Seq<(Seq<char>, Seq<char>, Seq<Seq<char>>)>) -> bool {
    forall|i: int, j: int| 0 <= i < j < r.len() ==> text_less(#[trigger] r[i].0, #[trigger] r[j].0)
}

/// The same sessions, each once.
pub open spec fn same_sessions(
    a: Seq<(Seq<char>, Seq<char>, Seq<Seq<char>>)>,
    b: Seq<(Seq<char>, Seq<char>, Seq<Seq<char>>)>,
) -> bool {
    &&& a.len() == b.len()
    &&& forall|i: int| 0 <= i < a.len() ==> b.contains(#[trigger] a[i])
    &&& forall|j: int| 0 <= j < b.len() ==> a.contains(#[trigger] b[j])
}

pub open spec fn sessions_view(v: Seq<DesktopSession>) -> Seq<(Seq<char>, Seq<char>, Seq<Seq<char>>)> {
    v.map_values(|s: DesktopSession| session_view(s))
}

/// The session list the greeter offers: the first session found for each ID,
/// sorted by ID.
pub fn sessions_in_order(found: Vec<DesktopSession>) -> (r: Vec<DesktopSession>)
    ensures
        ordered_by_id(sessions_view(r@)),
        same_sessions(sessions_view(r@), first_of_each_id(sessions_view(found@))),
{
    let ghost all = sessions_view(found@);
    let ghost n = found.len();
    let mut rest = found;
    let mut out: Vec<DesktopSession> = Vec::new();
    let mut k: usize = 0;
    assert(all.take(0) =~= Seq::<(Seq<char>, Seq<char>, Seq<Seq<char>>)>::empty());
    assert(all.skip(0) =~= all);
    while rest.len() > 0
        invariant
            k <= n,
            n == all.len(),
            rest.len() == n - k,
            sessions_view(rest@) == all.skip(k as int),
            ordered_by_id(sessions_view(out@)),
            same_sessions(sessions_view(out@), first_of_each_id(all.take(k as int))),
        decreases rest.len(),
    {
        let ghost before = sessions_view(out@);
        let ghost kept = first_of_each_id(all.take(k as int));
        let ghost t = all.take(k + 1);
        assert(t.drop_last() =~= all.take(k as int));
        let ghost rest_before = rest@;
        let s = rest.remove(0);
        assert(sessions_view(rest_before)[0] == session_view(s));
        assert(all.skip(k as int)[0] == all[k as int]);
        assert(t.last() == session_view(s));
        assert(sessions_view(rest@) =~= all.skip(k + 1)) by {
            assert(rest@ =~= rest_before.subrange(1, rest_before.len() as int));
            assert(sessions_view(rest@) =~= sessions_view(rest_before).subrange(
                1,
                rest_before.len() as int,
            ));
            assert(all.skip(k as int).subrange(1, rest_before.len() as int) =~= all.skip(k + 1));
        }
        let id = chars_of(s.id.as_str());
        // Where the session belongs, and whether its ID is already listed.
        let mut p: usize = 0;
        let mut seen = false;
        let mut stop = false;
        while p < out.len() && !stop
            invariant
                p <= out.len(),
                id@ == s.id@,
                before == sessions_view(out@),
                ordered_by_id(before),
                seen ==> stop,
                stop ==> p < out.len(),
                stop && seen ==> before[p as int].0 == id@,
                stop && !seen ==> text_less(id@, before[p as int].0),
                forall|q: int| 0 <= q < p ==> text_less(#[trigger] before[q].0, id@),
            decreases out.len() - p + (if stop { 0int } else { 1int }),
        {
            let other = chars_of(out[p].id.as_str());
            assert(before[p as int].0 == other@);
            if crate::text::same(&other, &id) {
                seen = true;
                stop = true;
            } else if text_less_of(&id, &other) {
                stop = true;
            } else {
                proof {
                    lemma_text_less_total(before[p as int].0, id@);
                }
                p += 1;
            }
        }
        if seen {
            proof {
                let j = choose|j: int| 0 <= j < kept.len() && kept[j] == before[p as int];
                assert(kept[j].0 == t.last().0);
                assert(first_of_each_id(t) == kept);
            }
        } else {
            proof {
                assert forall|q: int| 0 <= q < before.len() implies (#[trigger] before[q]).0 != id@ by {
                    if q < p {
                        lemma_text_less_irreflexive(id@);
                    } else {
                        assert(text_less(id@, before[p as int].0));
                        if q > p {
                            lemma_text_less_transitive(id@, before[p as int].0, before[q].0);
                        }
                        lemma_text_less_irreflexive(id@);
                    }
                }
                assert(!(exists|i: int| 0 <= i < kept.len() && (#[trigger] kept[i]).0 == t.last().0)) by {
                    if exists|i: int| 0 <= i < kept.len() && (#[trigger] kept[i]).0 == t.last().0 {
                        let i = choose|i: int| 0 <= i < kept.len() && (#[trigger] kept[i]).0 == t.last().0;
                        let q = choose|q: int| 0 <= q < before.len() && before[q] == kept[i];
                    }
                }
                assert(first_of_each_id(t) == kept.push(t.last()));
            }
            out.insert(p, s);
            proof {
                let now = sessions_view(out@);
                assert(now =~= before.insert(p as int, t.last()));
                assert forall|i: int, j: int| 0 <= i < j < now.len() implies text_less(
                    #[trigger] now[i].0,
                    #[trigger] now[j].0,
                ) by {
                    if j < p {
                    } else if j == p {
                        assert(now[j].0 == id@);
                    } else if i < p {
                        assert(now[j] == before[j - 1]);
                        assert(now[i] == before[i]);
                        if j - 1 > p {
                            lemma_text_less_transitive(id@, before[p as int].0, before[j - 1].0);
                        }
                        lemma_text_less_transitive(before[i].0, id@, before[j - 1].0);
                    } else if i == p {
                        assert(now[j] == before[j - 1]);
                        if j - 1 > p {
                            lemma_text_less_transitive(id@, before[p as int].0, before[j - 1].0);
                        }
                    } else {
                        assert(now[i] == before[i - 1] && now[j] == before[j - 1]);
                    }
                }
                let next = kept.push(t.last());
                assert forall|i: int| 0 <= i < now.len() implies next.contains(#[trigger] now[i]) by {
                    if i == p {
                        assert(next[kept.len() as int] == now[i]);
                    } else {
                        let b = if i < p { i } else { i - 1 };
                        assert(now[i] == before[b]);
                        let j = choose|j: int| 0 <= j < kept.len() && kept[j] == before[b];
                        assert(next[j] == now[i]);
                    }
                }
                assert forall|j: int| 0 <= j < next.len() implies now.contains(#[trigger] next[j]) by {
                    if j == kept.len() {
                        assert(now[p as int] == next[j]);
                    } else {
                        let i = choose|i: int| 0 <= i < before.len() && before[i] == kept[j];
                        if i < p {
                            assert(now[i] == next[j]);
                        } else {
                            assert(now[i + 1] == next[j]);
                        }
                    }
                }
            }
        }
        k += 1;
    }
    assert(all.take(n as int) =~= all);
    out
}

} // verus!
