//! Compatibility with the existing `deck-osk --toggle` launcher: a pid file
//! names the process that owns the keyboard shortcut.
use crate::paths::{join, joined};
use crate::text::{chars_of, opt_text, parse_u32, parse_u32_of, trim, trimmed};
use vstd::prelude::*;

verus! {

pub const OWNED_ELSEWHERE: &'static str = "Another locker already owns the keyboard shortcut";

/// The process a registration file names, when it names one that could be
/// alive: the file's text, trimmed, read as a decimal `i32` (as
/// `str::parse::<i32>` reads it) and greater than zero.
pub open spec fn named_pid(text: Seq<char>) -> Option<i32> {
    match parse_u32(trim(text)) {
        Some(v) => if 0 < v <= i32::MAX {
            Some(v as i32)
        } else {
            None
        },
        None => None,
    }
}

pub fn registered_pid(text: &str) -> (r: Option<i32>)
    ensures
        r == named_pid(text@),
{
    let t = trimmed(&chars_of(text));
    match parse_u32_of(&t) {
        Some(v) => if 0 < v && v <= 2147483647 {
            Some(v as i32)
        } else {
            None
        },
        None => None,
    }
}

/// This process's claim on the shortcut: the pid file and the pid written in
/// it.
pub struct Registration {
    path: String,
    pid: String,
}

impl Registration {
    /// The claim after `pid` was written to the file at `path`.
    pub fn new(path: String, pid: String) -> (r: Registration)
        ensures
            r.path_view() == path@,
            r.pid_view() == pid@,
    {
        Registration { path, pid }
    }

    pub closed spec fn path_view(&self) -> Seq<char> {
        self.path@
    }

    pub closed spec fn pid_view(&self) -> Seq<char> {
        self.pid@
    }

    pub fn path(&self) -> (r: &str)
        ensures
            r@ == self.path_view(),
    {
        self.path.as_str()
    }

    /// Whether releasing the claim removes the file: only while the file
    /// still holds exactly the pid this process wrote, so that a newer owner
    /// is never removed.
    pub fn releases(&self, content: Option<&str>) -> (r: bool)
        ensures
            r == (content matches Some(c) && c@ == self.pid_view()),
    {
        match content {
            Some(c) => crate::text::same(&chars_of(c), &chars_of(self.pid.as_str())),
            None => false,
        }
    }
}

/// The configuration directory: `XDG_CONFIG_HOME` when it is set, else
/// `.config` under the home directory; none when neither is set.
pub open spec fn config_dir_of(xdg_config_home: Option<Seq<char>>, home: Option<Seq<char>>) -> Option<
    Seq<char>,
> {
    match xdg_config_home {
        Some(d) => Some(d),
        None => match home {
            Some(h) => Some(joined(h, ".config"@)),
            None => None,
        },
    }
}

pub fn config_dir(xdg_config_home: Option<String>, home: Option<String>) -> (r: Option<String>)
    ensures
        opt_text(r) == config_dir_of(opt_text(xdg_config_home), opt_text(home)),
{
    match xdg_config_home {
        Some(d) => Some(d),
        None => match home {
            Some(h) => Some(join(h.as_str(), ".config")),
            None => None,
        },
    }
}

} // verus!
