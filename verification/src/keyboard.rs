//! Embedded keyboard model. It never injects input into other applications:
//! a press only changes the model and tells the caller what to do.
use crate::text::{chars_of, is, same, string_of, word_spans, words};
use vstd::string::StrSliceExecFns;
use unicode_normalization::UnicodeNormalization;
use vstd::prelude::*;

verus! {

#[derive(Clone, Debug, PartialEq, Eq)]
pub enum Action {
    Insert(String),
    Backspace,
    Submit,
    Close,
    Nothing,
}

/// What an [`Action`] asks of the caller, in terms of text.
pub enum Act {
    Insert(Seq<char>),
    Backspace,
    Submit,
    Close,
    Nothing,
}

pub open spec fn act(a: Action) -> Act {
    match a {
        Action::Insert(t) => Act::Insert(t@),
        Action::Backspace => Act::Backspace,
        Action::Submit => Act::Submit,
        Action::Close => Act::Close,
        Action::Nothing => Act::Nothing,
    }
}

#[derive(Clone, Debug)]
pub struct Key {
    pub normal: &'static str,
    pub shifted: &'static str,
    pub width: i32,
}

/// Whether `char::is_alphabetic` holds for `c` (the Unicode `Alphabetic` property).
pub uninterp spec fn alphabetic(c: char) -> bool;

/// `char::is_alphabetic`.
#[verifier::external_body]
fn is_alphabetic(c: char) -> (r: bool)
    ensures
        r == alphabetic(c),
{
    c.is_alphabetic()
}

/// What `str::to_uppercase` returns for a text (Unicode full case mapping).
pub uninterp spec fn uppercase(s: Seq<char>) -> Seq<char>;

/// `str::to_uppercase`.
#[verifier::external_body]
fn to_uppercase(s: &str) -> (r: String)
    ensures
        r@ == uppercase(s@),
{
    s.to_uppercase()
}

/// What `UnicodeNormalization::nfc` yields for a text: its Unicode
/// Normalization Form C (canonical decomposition, then canonical composition).
pub uninterp spec fn nfc(s: Seq<char>) -> Seq<char>;

/// The NFC form of a text (`unicode_normalization::UnicodeNormalization::nfc`).
#[verifier::external_body]
fn normalized(s: &Vec<char>) -> (r: Vec<char>)
    ensures
        r@ == nfc(s@),
{
    s.iter().copied().nfc().collect()
}

/// Fixed Brazilian ABNT2 third and fourth levels (from the system
/// xkeyboard-config br layout): the symbol without and with Shift, and whether
/// each is a dead key.
pub open spec fn level_three(normal: Seq<char>) -> Option<(Seq<char>, Seq<char>, bool, bool)> {
    if normal == "1"@ { Some(("¹"@, "¡"@, false, false)) }
    else if normal == "2"@ { Some(("²"@, "½"@, false, false)) }
    else if normal == "3"@ { Some(("³"@, "¾"@, false, false)) }
    else if normal == "4"@ { Some(("£"@, "¼"@, false, false)) }
    else if normal == "5"@ { Some(("¢"@, "⅜"@, false, false)) }
    else if normal == "6"@ { Some(("¬"@, "¨"@, false, false)) }
    else if normal == "7"@ { Some(("{"@, "⅞"@, false, false)) }
    else if normal == "8"@ { Some(("["@, "™"@, false, false)) }
    else if normal == "9"@ { Some(("]"@, "±"@, false, false)) }
    else if normal == "0"@ { Some(("}"@, "°"@, false, false)) }
    else if normal == "-"@ { Some(("\\"@, "¿"@, false, false)) }
    else if normal == "="@ { Some(("§"@, "˛"@, false, true)) }
    else if normal == "q"@ { Some(("/"@, "/"@, false, false)) }
    else if normal == "w"@ { Some(("?"@, "?"@, false, false)) }
    else if normal == "e"@ { Some(("°"@, "°"@, false, false)) }
    else if normal == "r"@ { Some(("®"@, "®"@, false, false)) }
    else if normal == "t"@ { Some(("ŧ"@, "Ŧ"@, false, false)) }
    else if normal == "y"@ { Some(("←"@, "¥"@, false, false)) }
    else if normal == "u"@ { Some(("↓"@, "↑"@, false, false)) }
    else if normal == "i"@ { Some(("→"@, "ı"@, false, false)) }
    else if normal == "o"@ { Some(("ø"@, "Ø"@, false, false)) }
    else if normal == "p"@ { Some(("þ"@, "Þ"@, false, false)) }
    else if normal == "´"@ { Some(("´"@, "`"@, false, false)) }
    else if normal == "["@ { Some(("ª"@, "¯"@, false, true)) }
    else if normal == "]"@ { Some(("º"@, "º"@, false, false)) }
    else if normal == "a"@ { Some(("æ"@, "Æ"@, false, false)) }
    else if normal == "s"@ { Some(("ß"@, "ẞ"@, false, false)) }
    else if normal == "d"@ { Some(("ð"@, "Ð"@, false, false)) }
    else if normal == "f"@ { Some(("đ"@, "ª"@, false, false)) }
    else if normal == "g"@ { Some(("ŋ"@, "Ŋ"@, false, false)) }
    else if normal == "h"@ { Some(("ħ"@, "Ħ"@, false, false)) }
    else if normal == "j"@ { Some(("ˀ"@, "ʼ"@, true, true)) }
    else if normal == "k"@ { Some(("ĸ"@, "&"@, false, false)) }
    else if normal == "l"@ { Some(("ł"@, "Ł"@, false, false)) }
    else if normal == "ç"@ { Some(("´"@, "˝"@, true, true)) }
    else if normal == "~"@ { Some(("~"@, "^"@, false, false)) }
    else if normal == "'"@ { Some(("¬"@, "¬"@, false, false)) }
    else if normal == "z"@ { Some(("«"@, "<"@, false, false)) }
    else if normal == "x"@ { Some(("»"@, ">"@, false, false)) }
    else if normal == "c"@ { Some(("©"@, "©"@, false, false)) }
    else if normal == "v"@ { Some(("„"@, "‚"@, false, false)) }
    else if normal == "b"@ { Some(("“"@, "‘"@, false, false)) }
    else if normal == "n"@ { Some(("”"@, "’"@, false, false)) }
    else if normal == "m"@ { Some(("µ"@, "µ"@, false, false)) }
    else if normal == ","@ { Some(("•"@, "×"@, false, false)) }
    else if normal == "."@ { Some(("·"@, "÷"@, false, false)) }
    else if normal == ";"@ { Some(("․"@, "˙"@, true, true)) }
    else { None }
}

fn level_three_of(normal: &str) -> (r: Option<(&'static str, &'static str, bool, bool)>)
    ensures
        match r {
            Some(t) => level_three(normal@) == Some((t.0@, t.1@, t.2, t.3)),
            None => level_three(normal@) is None,
        },
{
    let n = chars_of(normal);
    if is(&n, "1") { Some(("¹", "¡", false, false)) }
    else if is(&n, "2") { Some(("²", "½", false, false)) }
    else if is(&n, "3") { Some(("³", "¾", false, false)) }
    else if is(&n, "4") { Some(("£", "¼", false, false)) }
    else if is(&n, "5") { Some(("¢", "⅜", false, false)) }
    else if is(&n, "6") { Some(("¬", "¨", false, false)) }
    else if is(&n, "7") { Some(("{", "⅞", false, false)) }
    else if is(&n, "8") { Some(("[", "™", false, false)) }
    else if is(&n, "9") { Some(("]", "±", false, false)) }
    else if is(&n, "0") { Some(("}", "°", false, false)) }
    else if is(&n, "-") { Some(("\\", "¿", false, false)) }
    else if is(&n, "=") { Some(("§", "˛", false, true)) }
    else if is(&n, "q") { Some(("/", "/", false, false)) }
    else if is(&n, "w") { Some(("?", "?", false, false)) }
    else if is(&n, "e") { Some(("°", "°", false, false)) }
    else if is(&n, "r") { Some(("®", "®", false, false)) }
    else if is(&n, "t") { Some(("ŧ", "Ŧ", false, false)) }
    else if is(&n, "y") { Some(("←", "¥", false, false)) }
    else if is(&n, "u") { Some(("↓", "↑", false, false)) }
    else if is(&n, "i") { Some(("→", "ı", false, false)) }
    else if is(&n, "o") { Some(("ø", "Ø", false, false)) }
    else if is(&n, "p") { Some(("þ", "Þ", false, false)) }
    else if is(&n, "´") { Some(("´", "`", false, false)) }
    else if is(&n, "[") { Some(("ª", "¯", false, true)) }
    else if is(&n, "]") { Some(("º", "º", false, false)) }
    else if is(&n, "a") { Some(("æ", "Æ", false, false)) }
    else if is(&n, "s") { Some(("ß", "ẞ", false, false)) }
    else if is(&n, "d") { Some(("ð", "Ð", false, false)) }
    else if is(&n, "f") { Some(("đ", "ª", false, false)) }
    else if is(&n, "g") { Some(("ŋ", "Ŋ", false, false)) }
    else if is(&n, "h") { Some(("ħ", "Ħ", false, false)) }
    else if is(&n, "j") { Some(("ˀ", "ʼ", true, true)) }
    else if is(&n, "k") { Some(("ĸ", "&", false, false)) }
    else if is(&n, "l") { Some(("ł", "Ł", false, false)) }
    else if is(&n, "ç") { Some(("´", "˝", true, true)) }
    else if is(&n, "~") { Some(("~", "^", false, false)) }
    else if is(&n, "'") { Some(("¬", "¬", false, false)) }
    else if is(&n, "z") { Some(("«", "<", false, false)) }
    else if is(&n, "x") { Some(("»", ">", false, false)) }
    else if is(&n, "c") { Some(("©", "©", false, false)) }
    else if is(&n, "v") { Some(("„", "‚", false, false)) }
    else if is(&n, "b") { Some(("“", "‘", false, false)) }
    else if is(&n, "n") { Some(("”", "’", false, false)) }
    else if is(&n, "m") { Some(("µ", "µ", false, false)) }
    else if is(&n, ",") { Some(("•", "×", false, false)) }
    else if is(&n, ".") { Some(("·", "÷", false, false)) }
    else if is(&n, ";") { Some(("․", "˙", true, true)) }
    else { None }
}


/// The combining mark a dead key adds to the next character.
pub open spec fn mark_of(accent: char) -> Option<char> {
    if accent == '´' { Some('\u{301}') }
    else if accent == '`' { Some('\u{300}') }
    else if accent == '^' { Some('\u{302}') }
    else if accent == '~' { Some('\u{303}') }
    else if accent == '¨' { Some('\u{308}') }
    else if accent == '˛' { Some('\u{328}') }
    else if accent == '¯' { Some('\u{304}') }
    else if accent == '˝' { Some('\u{30b}') }
    else if accent == 'ˀ' { Some('\u{309}') }
    else if accent == 'ʼ' { Some('\u{31b}') }
    else if accent == '․' { Some('\u{323}') }
    else if accent == '˙' { Some('\u{307}') }
    else { None }
}

fn mark(accent: char) -> (r: char)
    requires
        mark_of(accent) is Some,
    ensures
        mark_of(accent) == Some(r),
{
    if accent == '´' { '\u{301}' }
    else if accent == '`' { '\u{300}' }
    else if accent == '^' { '\u{302}' }
    else if accent == '~' { '\u{303}' }
    else if accent == '¨' { '\u{308}' }
    else if accent == '˛' { '\u{328}' }
    else if accent == '¯' { '\u{304}' }
    else if accent == '˝' { '\u{30b}' }
    else if accent == 'ˀ' { '\u{309}' }
    else if accent == 'ʼ' { '\u{31b}' }
    else if accent == '․' { '\u{323}' }
    else { '\u{307}' }
}

/// The symbols the embedded layout treats as dead keys on their own.
pub open spec fn plain_dead(c: char) -> bool {
    c == '´' || c == '`' || c == '^' || c == '~' || c == '¨'
}

/// The system keymap levels of one key: the text of each level and whether it
/// is a dead key.
pub type Levels = Seq<(Seq<char>, bool)>;

/// The abstract state of a [`Keyboard`].
pub struct KeyboardView {
    pub shift: bool,
    pub shift_locked: bool,
    pub last_shift_tap: Option<u64>,
    pub caps: bool,
    pub altgr: bool,
    pub held_shift: bool,
    pub held_altgr: bool,
    pub accent: Option<char>,
    pub levels: Seq<(Seq<char>, Levels)>,
}

/// The system levels registered for a key (the first registration of it).
pub open spec fn levels_for(entries: Seq<(Seq<char>, Levels)>, key: Seq<char>) -> Option<Levels>
    decreases entries.len(),
{
    if entries.len() == 0 {
        None
    } else if entries[0].0 == key {
        Some(entries[0].1)
    } else {
        levels_for(entries.drop_first(), key)
    }
}

pub open spec fn all_alphabetic(s: Seq<char>) -> bool {
    forall|i: int| 0 <= i < s.len() ==> alphabetic(#[trigger] s[i])
}

/// Every dead single symbol the system keymap supplies has a combining mark.
pub open spec fn dead_levels_known(ls: Levels) -> bool {
    forall|j: int|
        0 <= j < ls.len() && (#[trigger] ls[j]).1 && ls[j].0.len() == 1 ==> mark_of(ls[j].0[0]) is Some
}

/// No level of the key is a dead key. The space bar always types a space, so
/// it cannot start an accent.
pub open spec fn no_dead_levels(ls: Levels) -> bool {
    forall|j: int| 0 <= j < ls.len() ==> !(#[trigger] ls[j]).1
}

impl KeyboardView {
    /// The state a keyboard can be in: a pending accent, and every dead
    /// symbol the keymap supplies, has a combining mark; each key has at most
    /// one entry of system levels.
    pub open spec fn well_formed(self) -> bool {
        &&& (self.accent matches Some(a) ==> mark_of(a) is Some)
        &&& forall|i: int, j: int|
            0 <= i < j < self.levels.len() ==> (#[trigger] self.levels[i]).0 != (
            #[trigger] self.levels[j]).0
        &&& forall|i: int| 0 <= i < self.levels.len() ==> dead_levels_known(#[trigger] self.levels[i].1)
        &&& forall|i: int|
            0 <= i < self.levels.len() && (#[trigger] self.levels[i]).0 == "Space"@ ==> no_dead_levels(
                self.levels[i].1,
            )
    }

    /// The system level a key produces in this state, if the system keymap
    /// has one: Shift inverts Caps for alphabetic keys, AltGr selects the
    /// third and fourth levels, and a two-level keymap defers to the embedded
    /// third level instead of repeating its first.
    pub open spec fn system_level(self, normal: Seq<char>) -> Option<(Seq<char>, bool)> {
        match levels_for(self.levels, normal) {
            None => None,
            Some(ls) => if ls.len() == 0 {
                None
            } else {
                let shift = self.shift != (self.caps && all_alphabetic(ls[0].0));
                let base: int = if shift { 1 } else { 0 };
                let level = base + if self.altgr { 2int } else { 0int };
                if level < ls.len() {
                    Some(ls[level])
                } else if self.altgr && level_three(normal) is Some {
                    None
                } else if base < ls.len() {
                    Some(ls[base])
                } else {
                    None
                }
            },
        }
    }

    /// The text a key shows and types in this state.
    pub open spec fn label(self, normal: Seq<char>, shifted: Seq<char>) -> Seq<char> {
        match self.system_level(normal) {
            Some(l) => l.0,
            None => if self.altgr && level_three(normal) is Some {
                if self.shift {
                    level_three(normal).unwrap().1
                } else {
                    level_three(normal).unwrap().0
                }
            } else if normal.len() == 1 && alphabetic(normal[0]) {
                if self.shift != self.caps {
                    uppercase(normal)
                } else {
                    normal
                }
            } else if self.shift {
                shifted
            } else {
                normal
            },
        }
    }

    /// Whether the text a key types starts an accent.
    pub open spec fn is_dead(self, normal: Seq<char>, text: Seq<char>) -> bool {
        match self.system_level(normal) {
            Some(l) => l.1,
            None => if self.altgr {
                match level_three(normal) {
                    Some(t) => if self.shift {
                        t.3
                    } else {
                        t.2
                    },
                    None => false,
                }
            } else {
                text.len() == 1 && plain_dead(text[0])
            },
        }
    }

    /// The state and action after pressing a key at time `now` (milliseconds).
    pub open spec fn press(self, normal: Seq<char>, shifted: Seq<char>, now: u64) -> (
        KeyboardView,
        Act,
    ) {
        if normal == "Shift"@ {
            let double = match self.last_shift_tap {
                Some(last) => (if now >= last { now - last } else { 0 }) < 600,
                None => false,
            };
            let tapped = KeyboardView { last_shift_tap: Some(now), ..self };
            if self.shift_locked {
                (KeyboardView { shift_locked: false, shift: self.held_shift, ..tapped }, Act::Nothing)
            } else if double && self.shift {
                (KeyboardView { shift_locked: true, ..tapped }, Act::Nothing)
            } else {
                (KeyboardView { shift: !self.shift, ..tapped }, Act::Nothing)
            }
        } else if normal == "Caps"@ {
            (KeyboardView { caps: !self.caps, ..self }, Act::Nothing)
        } else if normal == "Backspace"@ {
            if self.accent is Some {
                (KeyboardView { accent: None, ..self }, Act::Nothing)
            } else {
                (self, Act::Backspace)
            }
        } else if normal == "Enter"@ {
            (self, Act::Submit)
        } else if normal == "Close"@ {
            (self, Act::Close)
        } else if normal == "AltGr"@ {
            (KeyboardView { altgr: !self.altgr, ..self }, Act::Nothing)
        } else {
            let text = if normal == "Space"@ {
                seq![' ']
            } else {
                self.label(normal, shifted)
            };
            let dead = self.is_dead(normal, text);
            let released = KeyboardView {
                shift: self.held_shift || self.shift_locked,
                altgr: self.held_altgr,
                ..self
            };
            match self.accent {
                Some(a) => {
                    let cleared = KeyboardView { accent: None, ..released };
                    if text == seq![' '] || text == seq![a] {
                        (cleared, Act::Insert(seq![a]))
                    } else {
                        let combined = nfc(text.push(mark_of(a).unwrap()));
                        if combined.len() == 1 {
                            (cleared, Act::Insert(combined))
                        } else {
                            (cleared, Act::Insert(seq![a] + text))
                        }
                    }
                },
                None => if text.len() == 1 && dead {
                    (KeyboardView { accent: Some(text[0]), ..released }, Act::Nothing)
                } else {
                    (released, Act::Insert(text))
                },
            }
        }
    }
}

pub struct Keyboard {
    pub shift: bool,
    pub shift_locked: bool,
    last_shift_tap: Option<u64>,
    pub caps: bool,
    pub altgr: bool,
    pub held_shift: bool,
    pub held_altgr: bool,
    accent: Option<char>,
    /// The system keymap levels of each key, one entry per key (see
    /// `KeyboardView::well_formed`). A `Vec` searched by key stands for a map
    /// keyed by the key's name: Verus proves nothing of a `HashMap` with
    /// `String` keys, while lookups and updates of this `Vec` are proved.
    system_levels: Vec<(String, Vec<(String, bool)>)>,
    /// The monotonic reading that press times count from.
    epoch: std::time::Instant,
}

pub open spec fn levels_view(ls: Seq<(String, bool)>) -> Levels {
    ls.map_values(|l: (String, bool)| (l.0@, l.1))
}

pub open spec fn entries_view(es: Seq<(String, Vec<(String, bool)>)>) -> Seq<(Seq<char>, Levels)> {
    es.map_values(|e: (String, Vec<(String, bool)>)| (e.0@, levels_view(e.1@)))
}

impl View for Keyboard {
    type V = KeyboardView;

    closed spec fn view(&self) -> KeyboardView {
        KeyboardView {
            shift: self.shift,
            shift_locked: self.shift_locked,
            last_shift_tap: self.last_shift_tap,
            caps: self.caps,
            altgr: self.altgr,
            held_shift: self.held_shift,
            held_altgr: self.held_altgr,
            accent: self.accent,
            levels: entries_view(self.system_levels@),
        }
    }
}

impl Default for Keyboard {
    fn default() -> (k: Self)
        ensures
            k@ == (KeyboardView {
                shift: false,
                shift_locked: false,
                last_shift_tap: None,
                caps: false,
                altgr: false,
                held_shift: false,
                held_altgr: false,
                accent: None,
                levels: Seq::empty(),
            }),
    {
        let k = Keyboard {
            shift: false,
            shift_locked: false,
            last_shift_tap: None,
            caps: false,
            altgr: false,
            held_shift: false,
            held_altgr: false,
            accent: None,
            system_levels: Vec::new(),
            epoch: crate::clock::monotonic_now(),
        };
        assert(entries_view(k.system_levels@) =~= Seq::<(Seq<char>, Levels)>::empty());
        k
    }
}

impl Keyboard {
    /// Press a key at time `now`, in milliseconds of a clock that does not go
    /// backwards. Two Shift taps less than 600 ms apart, while Shift is on,
    /// latch it until the next Shift.
    pub fn press_at(&mut self, key: &Key, now: u64) -> (r: Action)
        requires
            old(self)@.well_formed(),
        ensures
            (final(self)@, act(r)) == old(self)@.press(key.normal@, key.shifted@, now),
            final(self)@.well_formed(),
    {
        let n = chars_of(key.normal);
        if is(&n, "Shift") {
            let double = match self.last_shift_tap {
                Some(last) => now.saturating_sub(last) < 600,
                None => false,
            };
            self.last_shift_tap = Some(now);
            if self.shift_locked {
                self.shift_locked = false;
                self.shift = self.held_shift || self.shift_locked;
            } else if double && self.shift {
                self.shift_locked = true;
            } else {
                self.shift = !self.shift;
            }
            return Action::Nothing;
        }
        if is(&n, "Caps") {
            self.caps = !self.caps;
            return Action::Nothing;
        }
        if is(&n, "Backspace") {
            if self.accent.is_some() {
                self.accent = None;
                return Action::Nothing;
            }
            return Action::Backspace;
        }
        if is(&n, "Enter") {
            return Action::Submit;
        }
        if is(&n, "Close") {
            return Action::Close;
        }
        if is(&n, "AltGr") {
            self.altgr = !self.altgr;
            return Action::Nothing;
        }
        let space = is(&n, "Space");
        let text: Vec<char> = if space {
            let mut t = Vec::new();
            t.push(' ');
            t
        } else {
            chars_of(self.label(key).as_str())
        };
        let ghost before = self@;
        proof {
            lemma_dead_symbols_known(before, key.normal@, key.shifted@);
        }
        let dead = match self.system_level(key.normal) {
            Some((_, dead)) => dead,
            None => if self.altgr {
                match level_three_of(key.normal) {
                    Some((_, _, normal_dead, shifted_dead)) => if self.shift {
                        shifted_dead
                    } else {
                        normal_dead
                    },
                    None => false,
                }
            } else {
                text.len() == 1 && (text[0] == '´' || text[0] == '`' || text[0] == '^' || text[0]
                    == '~' || text[0] == '¨')
            },
        };
        self.shift = self.held_shift || self.shift_locked;
        self.altgr = self.held_altgr;
        if let Some(accent) = self.accent {
            self.accent = None;
            let mut alone = Vec::new();
            alone.push(accent);
            if (text.len() == 1 && text[0] == ' ') || same(&text, &alone) {
                assert(text@ == seq![' '] || text@ == seq![accent]);
                return Action::Insert(string_of(&alone));
            }
            assert(!(text@ =~= seq![' ']));
            let mut marked = text.clone();
            marked.push(mark(accent));
            let combined = normalized(&marked);
            if combined.len() == 1 {
                return Action::Insert(string_of(&combined));
            }
            let mut both = alone;
            crate::text::append(&mut both, &text);
            return Action::Insert(string_of(&both));
        }
        if text.len() == 1 && dead {
            self.accent = Some(text[0]);
            return Action::Nothing;
        }
        Action::Insert(string_of(&text))
    }

    /// Press a key now, timed by the monotonic clock from when the keyboard
    /// was made.
    pub fn press(&mut self, key: &Key) -> (r: Action)
        requires
            old(self)@.well_formed(),
        ensures
            final(self)@.well_formed(),
            exists|now: u64| (final(self)@, act(r)) == old(self)@.press(key.normal@, key.shifted@, now),
    {
        let now = crate::clock::elapsed_millis(&self.epoch);
        self.press_at(key, now)
    }
}

proof fn lemma_levels_for_index(entries: Seq<(Seq<char>, Levels)>, key: Seq<char>, i: int)
    requires
        0 <= i <= entries.len(),
        forall|k: int| 0 <= k < i ==> (#[trigger] entries[k]).0 != key,
    ensures
        levels_for(entries, key) == levels_for(entries.skip(i), key),
    decreases i,
{
    if i == 0 {
        assert(entries.skip(0) == entries);
    } else {
        let t = entries.drop_first();
        assert forall|k: int| 0 <= k < i - 1 implies (#[trigger] t[k]).0 != key by {
            assert(t[k] == entries[k + 1]);
        }
        lemma_levels_for_index(t, key, i - 1);
        assert(t.skip(i - 1) == entries.skip(i));
    }
}

impl Keyboard {
    /// Where the system levels of a key are kept.
    fn entry_of(&self, key: &Vec<char>) -> (r: Option<usize>)
        ensures
            match r {
                Some(i) => i < self.system_levels.len() && levels_for(self@.levels, key@) == Some(
                    self@.levels[i as int].1,
                ) && self@.levels[i as int].0 == key@ && forall|k: int|
                    0 <= k < i ==> (#[trigger] self@.levels[k]).0 != key@,
                None => levels_for(self@.levels, key@) is None && forall|k: int|
                    0 <= k < self@.levels.len() ==> (#[trigger] self@.levels[k]).0 != key@,
            },
    {
        let ghost es = self@.levels;
        let mut i: usize = 0;
        while i < self.system_levels.len()
            invariant
                i <= self.system_levels.len(),
                es == entries_view(self.system_levels@),
                forall|k: int| 0 <= k < i ==> (#[trigger] es[k]).0 != key@,
            decreases self.system_levels.len() - i,
        {
            assert(es[i as int].0 == self.system_levels@[i as int].0@);
            if same(&chars_of(self.system_levels[i].0.as_str()), key) {
                proof {
                    lemma_levels_for_index(es, key@, i as int);
                    assert(es.skip(i as int)[0] == es[i as int]);
                }
                return Some(i);
            }
            i += 1;
        }
        proof {
            lemma_levels_for_index(es, key@, i as int);
        }
        None
    }

    /// Registers the system keymap levels of a key, replacing earlier ones.
    pub fn set_system_levels(&mut self, key: &str, levels: Vec<(String, bool)>)
        requires
            dead_levels_known(levels_view(levels@)),
            key@ == "Space"@ ==> no_dead_levels(levels_view(levels@)),
            old(self)@.well_formed(),
        ensures
            levels_for(final(self)@.levels, key@) == Some(levels_view(levels@)),
            forall|other: Seq<char>|
                other != key@ ==> levels_for(final(self)@.levels, other) == levels_for(
                    old(self)@.levels,
                    other,
                ),
            final(self)@ == (KeyboardView { levels: final(self)@.levels, ..old(self)@ }),
            final(self)@.well_formed(),
    {
        let name = chars_of(key);
        let ghost before = self@.levels;
        let ghost entry = (key@, levels_view(levels@));
        match self.entry_of(&name) {
            Some(i) => {
                let owned = string_of(&name);
                self.system_levels.set(i, (owned, levels));
                assert(self@.levels =~= before.update(i as int, entry));
                proof {
                    assert forall|other: Seq<char>| #![trigger levels_for(self@.levels, other)]
                        true implies levels_for(self@.levels, other) == (if other == key@ {
                            Some(levels_view(levels@))
                        } else {
                            levels_for(before, other)
                        }) by {
                        lemma_update_lookup(before, i as int, entry, other);
                    }
                }
            },
            None => {
                let owned = string_of(&name);
                self.system_levels.push((owned, levels));
                assert(self@.levels =~= before.push(entry));
                proof {
                    assert forall|other: Seq<char>| #![trigger levels_for(self@.levels, other)]
                        true implies levels_for(self@.levels, other) == (if other == key@ {
                            Some(levels_view(levels@))
                        } else {
                            levels_for(before, other)
                        }) by {
                        lemma_push_lookup(before, entry, other);
                    }
                }
            },
        }
    }

    /// The system level of a key in the current state.
    fn system_level(&self, normal: &str) -> (r: Option<(String, bool)>)
        ensures
            match r {
                Some(l) => self@.system_level(normal@) == Some((l.0@, l.1)),
                None => self@.system_level(normal@) is None,
            },
    {
        let name = chars_of(normal);
        let i = match self.entry_of(&name) {
            Some(i) => i,
            None => return None,
        };
        let levels = &self.system_levels[i].1;
        let ghost ls = levels_view(levels@);
        assert(ls == self@.levels[i as int].1);
        if levels.len() == 0 {
            return None;
        }
        let first = chars_of(levels[0].0.as_str());
        let mut alphabetic = true;
        let mut k: usize = 0;
        while k < first.len()
            invariant
                k <= first.len(),
                alphabetic == (forall|j: int| 0 <= j < k ==> crate::keyboard::alphabetic(#[trigger] first@[j])),
            decreases first.len() - k,
        {
            let a = is_alphabetic(first[k]);
            proof {
                if !a {
                    assert(!crate::keyboard::alphabetic(first@[k as int]));
                }
            }
            alphabetic = alphabetic && a;
            k += 1;
        }
        assert(first@ == ls[0].0);
        let shift = self.shift != (self.caps && alphabetic);
        let base: usize = if shift { 1 } else { 0 };
        let level = base + if self.altgr { 2 } else { 0 };
        if level < levels.len() {
            return Some((levels[level].0.clone(), levels[level].1));
        }
        if self.altgr && level_three_of(normal).is_some() {
            return None;
        }
        if base < levels.len() {
            Some((levels[base].0.clone(), levels[base].1))
        } else {
            None
        }
    }

    /// The text a key shows in the current state.
    pub fn label(&self, key: &Key) -> (r: String)
        ensures
            r@ == self@.label(key.normal@, key.shifted@),
    {
        if let Some((text, _)) = self.system_level(key.normal) {
            return text;
        }
        if self.altgr {
            if let Some((normal, shifted, _, _)) = level_three_of(key.normal) {
                return string_of(&chars_of(if self.shift { shifted } else { normal }));
            }
        }
        let n = chars_of(key.normal);
        if n.len() == 1 && is_alphabetic(n[0]) {
            if self.shift != self.caps {
                to_uppercase(key.normal)
            } else {
                string_of(&n)
            }
        } else if self.shift {
            string_of(&chars_of(key.shifted))
        } else {
            string_of(&n)
        }
    }
}

proof fn lemma_levels_for_member(entries: Seq<(Seq<char>, Levels)>, key: Seq<char>)
    ensures
        levels_for(entries, key) matches Some(ls) ==> exists|i: int|
            0 <= i < entries.len() && #[trigger] entries[i].1 == ls && entries[i].0 == key,
    decreases entries.len(),
{
    if entries.len() > 0 && entries[0].0 != key {
        lemma_levels_for_member(entries.drop_first(), key);
        if let Some(ls) = levels_for(entries, key) {
            let i = choose|i: int|
                0 <= i < entries.drop_first().len() && #[trigger] entries.drop_first()[i].1 == ls
                    && entries.drop_first()[i].0 == key;
            assert(entries[i + 1].1 == ls);
        }
    } else if entries.len() > 0 {
        assert(entries[0].1 == levels_for(entries, key).unwrap());
    }
}

/// The embedded third level only covers single-symbol keys.
proof fn lemma_level_three_single(normal: Seq<char>)
    ensures
        level_three(normal) is Some ==> normal.len() == 1,
{
    reveal_strlit("1");
    reveal_strlit("2");
    reveal_strlit("3");
    reveal_strlit("4");
    reveal_strlit("5");
    reveal_strlit("6");
    reveal_strlit("7");
    reveal_strlit("8");
    reveal_strlit("9");
    reveal_strlit("0");
    reveal_strlit("-");
    reveal_strlit("=");
    reveal_strlit("q");
    reveal_strlit("w");
    reveal_strlit("e");
    reveal_strlit("r");
    reveal_strlit("t");
    reveal_strlit("y");
    reveal_strlit("u");
    reveal_strlit("i");
    reveal_strlit("o");
    reveal_strlit("p");
    reveal_strlit("´");
    reveal_strlit("[");
    reveal_strlit("]");
    reveal_strlit("a");
    reveal_strlit("s");
    reveal_strlit("d");
    reveal_strlit("f");
    reveal_strlit("g");
    reveal_strlit("h");
    reveal_strlit("j");
    reveal_strlit("k");
    reveal_strlit("l");
    reveal_strlit("ç");
    reveal_strlit("~");
    reveal_strlit("'");
    reveal_strlit("z");
    reveal_strlit("x");
    reveal_strlit("c");
    reveal_strlit("v");
    reveal_strlit("b");
    reveal_strlit("n");
    reveal_strlit("m");
    reveal_strlit(",");
    reveal_strlit(".");
    reveal_strlit(";");
}

/// A dead symbol the keyboard can produce always has a combining mark.
proof fn lemma_dead_symbols_known(kv: KeyboardView, normal: Seq<char>, shifted: Seq<char>)
    requires
        kv.well_formed(),
    ensures
        ({
            let text = if normal == "Space"@ {
                seq![' ']
            } else {
                kv.label(normal, shifted)
            };
            kv.is_dead(normal, text) && text.len() == 1 ==> mark_of(text[0]) is Some
        }),
{
    let text = if normal == "Space"@ {
        seq![' ']
    } else {
        kv.label(normal, shifted)
    };
    match kv.system_level(normal) {
        Some(l) => {
            lemma_levels_for_member(kv.levels, normal);
            let ls = levels_for(kv.levels, normal).unwrap();
            let i = choose|i: int|
                0 <= i < kv.levels.len() && #[trigger] kv.levels[i].1 == ls && kv.levels[i].0
                    == normal;
            assert(dead_levels_known(kv.levels[i].1));
            if normal == "Space"@ {
                assert(no_dead_levels(kv.levels[i].1));
            }
            let shift = kv.shift != (kv.caps && all_alphabetic(ls[0].0));
            let base: int = if shift { 1 } else { 0 };
            let level = base + if kv.altgr { 2int } else { 0int };
            if level < ls.len() {
                assert(ls[level] == l);
            } else {
                assert(ls[base] == l);
            }
        },
        None => {
            reveal_strlit("Space");
            lemma_level_three_single(normal);
            reveal_strlit("˛");
            reveal_strlit("¯");
            reveal_strlit("ˀ");
            reveal_strlit("ʼ");
            reveal_strlit("´");
            reveal_strlit("˝");
            reveal_strlit("․");
            reveal_strlit("˙");
        },
    }
}

proof fn lemma_update_lookup(
    es: Seq<(Seq<char>, Levels)>,
    i: int,
    entry: (Seq<char>, Levels),
    other: Seq<char>,
)
    requires
        0 <= i < es.len(),
        es[i].0 == entry.0,
        forall|k: int| 0 <= k < i ==> (#[trigger] es[k]).0 != entry.0,
    ensures
        levels_for(es.update(i, entry), other) == (if other == entry.0 {
            Some(entry.1)
        } else {
            levels_for(es, other)
        }),
    decreases i,
{
    let u = es.update(i, entry);
    if i > 0 {
        let t = es.drop_first();
        assert forall|k: int| 0 <= k < i - 1 implies (#[trigger] t[k]).0 != entry.0 by {
            assert(t[k] == es[k + 1]);
        }
        lemma_update_lookup(t, i - 1, entry, other);
        assert(u.drop_first() == t.update(i - 1, entry));
        assert(u[0] == es[0]);
        assert(es[0].0 != entry.0);
    } else {
        assert(u[0] == entry);
        assert(u.drop_first() == es.drop_first());
    }
}

proof fn lemma_push_lookup(es: Seq<(Seq<char>, Levels)>, entry: (Seq<char>, Levels), other: Seq<char>)
    requires
        levels_for(es, entry.0) is None,
    ensures
        levels_for(es.push(entry), other) == (if other == entry.0 {
            Some(entry.1)
        } else {
            levels_for(es, other)
        }),
    decreases es.len(),
{
    let p = es.push(entry);
    if es.len() > 0 {
        assert(es[0].0 != entry.0);
        lemma_push_lookup(es.drop_first(), entry, other);
        assert(p.drop_first() == es.drop_first().push(entry));
        assert(p[0] == es[0]);
    } else {
        assert(p[0] == entry);
        assert(p.drop_first().len() == 0);
        assert(levels_for(p.drop_first(), other) is None);
    }
}


/// Whether a key only changes modifiers or asks for an action, typing nothing.
pub open spec fn is_control_key(normal: Seq<char>) -> bool {
    normal == "Shift"@ || normal == "Caps"@ || normal == "Backspace"@ || normal == "Enter"@
        || normal == "Close"@ || normal == "AltGr"@
}

/// Shift and AltGr are one-shot: after any typing key they fall back to what
/// is physically held, or to a latched Shift.
pub proof fn law_modifiers_are_one_shot(kv: KeyboardView, normal: Seq<char>, shifted: Seq<char>, now: u64)
    requires
        !is_control_key(normal),
    ensures
        kv.press(normal, shifted, now).0.shift == (kv.held_shift || kv.shift_locked),
        kv.press(normal, shifted, now).0.altgr == kv.held_altgr,
        kv.press(normal, shifted, now).0.caps == kv.caps,
{
}

/// Backspace first cancels a pending accent without deleting anything; only
/// with no accent pending does it ask to delete.
pub proof fn law_backspace_cancels_accent_first(kv: KeyboardView, now: u64)
    ensures
        kv.accent is Some ==> kv.press("Backspace"@, "Backspace"@, now) == (
            KeyboardView { accent: None, ..kv },
            Act::Nothing,
        ),
        kv.accent is None ==> kv.press("Backspace"@, "Backspace"@, now) == (kv, Act::Backspace),
{
    reveal_strlit("Backspace");
    reveal_strlit("Shift");
    reveal_strlit("Caps");
    assert("Backspace"@ != "Shift"@) by {
        assert("Backspace"@.len() != "Shift"@.len());
    }
    assert("Backspace"@ != "Caps"@) by {
        assert("Backspace"@.len() != "Caps"@.len());
    }
}

/// Two Shift taps less than 600 ms apart latch Shift; the next tap releases
/// it to what is physically held. Slower taps only toggle it.
pub proof fn law_double_shift_latches(kv: KeyboardView, first: u64, second: u64, third: u64)
    requires
        !kv.shift,
        !kv.shift_locked,
        !kv.held_shift,
        first <= second,
    ensures
        ({
            let a = kv.press("Shift"@, "Shift"@, first).0;
            let b = a.press("Shift"@, "Shift"@, second).0;
            let c = b.press("Shift"@, "Shift"@, third).0;
            &&& a.shift && !a.shift_locked
            &&& second - first < 600 ==> b.shift && b.shift_locked && !c.shift && !c.shift_locked
            &&& second - first >= 600 ==> !b.shift && !b.shift_locked
        }),
{
}

/// With a pending accent, a space or the accent itself types the accent alone.
pub proof fn law_accent_then_space_types_the_accent(kv: KeyboardView, now: u64)
    requires
        kv.accent is Some,
    ensures
        kv.press("Space"@, "Space"@, now).1 == Act::Insert(seq![kv.accent.unwrap()]),
        kv.press("Space"@, "Space"@, now).0.accent is None,
{
    reveal_strlit("Space");
    reveal_strlit("Shift");
    reveal_strlit("Caps");
    reveal_strlit("Backspace");
    reveal_strlit("Enter");
    reveal_strlit("Close");
    reveal_strlit("AltGr");
    assert("Space"@ != "Shift"@) by {
        assert("Space"@[1] != "Shift"@[1]);
    }
    assert("Space"@ != "Caps"@) by {
        assert("Space"@.len() != "Caps"@.len());
    }
    assert("Space"@ != "Backspace"@) by {
        assert("Space"@.len() != "Backspace"@.len());
    }
    assert("Space"@ != "Enter"@) by {
        assert("Space"@[0] != "Enter"@[0]);
    }
    assert("Space"@ != "Close"@) by {
        assert("Space"@[0] != "Close"@[0]);
    }
    assert("Space"@ != "AltGr"@) by {
        assert("Space"@[0] != "AltGr"@[0]);
    }
}


/// A key as text: its label, its shifted label and its width in columns.
pub open spec fn key_view(k: Key) -> (Seq<char>, Seq<char>, i32) {
    (k.normal@, k.shifted@, k.width)
}

/// One-column keys labelled by the words of two lines, pairwise.
pub open spec fn key_row(normal: Seq<char>, shifted: Seq<char>) -> Seq<(Seq<char>, Seq<char>, i32)> {
    let n = words(normal);
    let s = words(shifted);
    Seq::new(
        if n.len() < s.len() {
            n.len()
        } else {
            s.len()
        },
        |i: int| (n[i], s[i], 1i32),
    )
}

/// The ABNT2 layout: four rows of one-column keys, then the control row.
pub open spec fn layout_rows() -> Seq<Seq<(Seq<char>, Seq<char>, i32)>> {
    seq![
        key_row("1 2 3 4 5 6 7 8 9 0 - ="@, "! @ # $ % ¨ & * ( ) _ +"@),
        key_row("q w e r t y u i o p ´ ["@, "Q W E R T Y U I O P ` {"@),
        key_row("a s d f g h j k l ç ~ ]"@, "A S D F G H J K L Ç ^ }"@),
        key_row("z x c v b n m , . ; / \\"@, "Z X C V B N M < > : ? |"@),
        seq![
            ("Shift"@, "Shift"@, 2i32),
            ("Caps"@, "Caps"@, 1i32),
            ("'"@, "\""@, 1i32),
            ("Space"@, "Space"@, 4i32),
            ("Backspace"@, "Backspace"@, 2i32),
            ("Enter"@, "Enter"@, 2i32),
        ],
    ]
}

pub open spec fn row_view(row: Vec<Key>) -> Seq<(Seq<char>, Seq<char>, i32)> {
    row@.map_values(|k: Key| key_view(k))
}

fn row(normal: &'static str, shifted: &'static str) -> (r: Vec<Key>)
    ensures
        row_view(r) == key_row(normal@, shifted@),
{
    let n = word_spans(&chars_of(normal));
    let s = word_spans(&chars_of(shifted));
    let count = if n.len() < s.len() {
        n.len()
    } else {
        s.len()
    };
    let mut out: Vec<Key> = Vec::new();
    let mut i: usize = 0;
    while i < count
        invariant
            i <= count,
            count <= n.len(),
            count <= s.len(),
            n@.len() == words(normal@).len(),
            s@.len() == words(shifted@).len(),
            count == (if words(normal@).len() < words(shifted@).len() {
                words(normal@).len()
            } else {
                words(shifted@).len()
            }),
            forall|k: int|
                0 <= k < n@.len() ==> (#[trigger] n@[k]).0 <= n@[k].1 <= normal@.len()
                    && normal@.subrange(n@[k].0 as int, n@[k].1 as int) == words(normal@)[k],
            forall|k: int|
                0 <= k < s@.len() ==> (#[trigger] s@[k]).0 <= s@[k].1 <= shifted@.len()
                    && shifted@.subrange(s@[k].0 as int, s@[k].1 as int) == words(shifted@)[k],
            row_view(out) == key_row(normal@, shifted@).take(i as int),
        decreases count - i,
    {
        let (a, b) = n[i];
        let (c, d) = s[i];
        assert(n@[i as int] == (a, b) && s@[i as int] == (c, d));
        let key = Key { normal: normal.substring_char(a, b), shifted: shifted.substring_char(c, d), width: 1 };
        assert(key.normal@ == words(normal@)[i as int]);
        assert(key.shifted@ == words(shifted@)[i as int]);
        assert(key_view(key) == key_row(normal@, shifted@)[i as int]);
        let ghost before = out@;
        out.push(key);
        assert(out@ == before.push(key));
        assert(row_view(out) =~= before.map_values(|k: Key| key_view(k)).push(key_view(key)));
        assert(row_view(out) =~= key_row(normal@, shifted@).take(i + 1));
        i += 1;
    }
    assert(key_row(normal@, shifted@).take(count as int) =~= key_row(normal@, shifted@));
    out
}

/// The keys of the embedded keyboard, row by row.
pub fn rows() -> (r: Vec<Vec<Key>>)
    ensures
        r@.map_values(|row: Vec<Key>| row_view(row)) == layout_rows(),
{
    let mut rows: Vec<Vec<Key>> = Vec::new();
    rows.push(row("1 2 3 4 5 6 7 8 9 0 - =", "! @ # $ % ¨ & * ( ) _ +"));
    rows.push(row("q w e r t y u i o p ´ [", "Q W E R T Y U I O P ` {"));
    rows.push(row("a s d f g h j k l ç ~ ]", "A S D F G H J K L Ç ^ }"));
    rows.push(row("z x c v b n m , . ; / \\", "Z X C V B N M < > : ? |"));
    let mut last: Vec<Key> = Vec::new();
    last.push(Key { normal: "Shift", shifted: "Shift", width: 2 });
    last.push(Key { normal: "Caps", shifted: "Caps", width: 1 });
    last.push(Key { normal: "'", shifted: "\"", width: 1 });
    last.push(Key { normal: "Space", shifted: "Space", width: 4 });
    last.push(Key { normal: "Backspace", shifted: "Backspace", width: 2 });
    last.push(Key { normal: "Enter", shifted: "Enter", width: 2 });
    assert(row_view(last) =~= layout_rows()[4]);
    rows.push(last);
    assert(rows@.map_values(|row: Vec<Key>| row_view(row)) =~= layout_rows());
    rows
}


impl KeyboardView {
    /// What a key's button shows: symbols for the control keys (a locked
    /// Shift shows as Caps Lock), the key's label otherwise.
    pub open spec fn caption(self, normal: Seq<char>, shifted: Seq<char>) -> Seq<char> {
        if normal == "Space"@ {
            "␣"@
        } else if normal == "Shift"@ {
            if self.shift_locked {
                "⇪"@
            } else {
                "⇧"@
            }
        } else if normal == "Caps"@ {
            "⇪"@
        } else if normal == "AltGr"@ {
            "Alt"@
        } else if normal == "Backspace"@ {
            "←"@
        } else if normal == "Enter"@ {
            "↲"@
        } else {
            self.label(normal, shifted)
        }
    }

    /// Whether a modifier key is shown as engaged.
    pub open spec fn engaged(self, normal: Seq<char>) -> bool {
        (normal == "Shift"@ && self.shift) || (normal == "Caps"@ && self.caps) || (normal == "AltGr"@
            && self.altgr)
    }
}

impl Keyboard {
    /// The caption of a key's button.
    pub fn caption(&self, key: &Key) -> (r: String)
        ensures
            r@ == self@.caption(key.normal@, key.shifted@),
    {
        let n = chars_of(key.normal);
        if is(&n, "Space") {
            string_of(&chars_of("␣"))
        } else if is(&n, "Shift") {
            if self.shift_locked {
                string_of(&chars_of("⇪"))
            } else {
                string_of(&chars_of("⇧"))
            }
        } else if is(&n, "Caps") {
            string_of(&chars_of("⇪"))
        } else if is(&n, "AltGr") {
            string_of(&chars_of("Alt"))
        } else if is(&n, "Backspace") {
            string_of(&chars_of("←"))
        } else if is(&n, "Enter") {
            string_of(&chars_of("↲"))
        } else {
            self.label(key)
        }
    }

    /// Whether the key's button is highlighted as an engaged modifier.
    pub fn engaged(&self, key: &Key) -> (r: bool)
        ensures
            r == self@.engaged(key.normal@),
    {
        let n = chars_of(key.normal);
        (is(&n, "Shift") && self.shift) || (is(&n, "Caps") && self.caps) || (is(&n, "AltGr")
            && self.altgr)
    }
}

/// Shift picks a key's shifted text: with no system keymap level for the key
/// and AltGr off, a key that is not a single letter shows and types its
/// shifted text while Shift is on and its normal text otherwise; a single
/// letter is upper-cased exactly when Shift and Caps Lock disagree.
pub proof fn law_shift_types_the_shifted_text(kv: KeyboardView, normal: Seq<char>, shifted: Seq<char>)
    requires
        levels_for(kv.levels, normal) is None,
        !kv.altgr,
    ensures
        !(normal.len() == 1 && alphabetic(normal[0])) ==> kv.label(normal, shifted) == (if kv.shift {
            shifted
        } else {
            normal
        }),
        normal.len() == 1 && alphabetic(normal[0]) ==> kv.label(normal, shifted) == (if kv.shift
            != kv.caps {
            uppercase(normal)
        } else {
            normal
        }),
{
}

/// Pressing Shift and then a key that is no letter, no control key and does
/// not start an accent types that key's shifted text: Shift then `1`/`!`
/// types `!`. Without Shift the same key types its normal text.
pub proof fn law_shifted_key_is_typed(kv: KeyboardView, normal: Seq<char>, shifted: Seq<char>, now: u64)
    requires
        levels_for(kv.levels, normal) is None,
        !kv.altgr,
        !kv.shift,
        !kv.shift_locked,
        kv.accent is None,
        !(normal.len() == 1 && alphabetic(normal[0])),
        normal != "Shift"@ && normal != "Caps"@ && normal != "Backspace"@ && normal != "Enter"@
            && normal != "Close"@ && normal != "AltGr"@ && normal != "Space"@,
        !(shifted.len() == 1 && plain_dead(shifted[0])),
        !(normal.len() == 1 && plain_dead(normal[0])),
    ensures
        kv.press("Shift"@, "Shift"@, now).0.press(normal, shifted, now).1 == Act::Insert(shifted),
        kv.press(normal, shifted, now).1 == Act::Insert(normal),
{
    reveal_strlit("Shift");
    let after = kv.press("Shift"@, "Shift"@, now).0;
    assert(after.shift);
    assert(after.levels == kv.levels && !after.altgr && after.accent is None);
    assert(after.system_level(normal) is None);
    assert(kv.system_level(normal) is None);
}

} // verus!
