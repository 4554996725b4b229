//! Headless configuration editing: the commands, and how a dotted key names a
//! nested setting.
use crate::document::{entries, get_of, parsed_table, value_display, value_str, value_table};
use crate::text::{append, chars_of, split, split_on, string_of, texts};
use vstd::prelude::*;

verus! {

/// A configuration command.
#[derive(Debug, Clone, PartialEq, Eq)]
pub enum Action {
    /// Print the configuration (omitted optional values are inherited).
    Show,
    /// Print the configuration file path.
    Path,
    /// Read a value, including nested layout options.
    Get { key: String },
    /// Set a key from a TOML value or plain text.
    Assign { key: String, value: String },
    /// Reset a key to its default.
    Unset { key: String },
    /// Validate and replace the configuration from a file.
    Import { file: String },
}

pub const BAD_KEY: &'static str = "Use a key such as idle_seconds or layout.padding";

/// A key names a setting when every dot-separated part is non-empty.
pub open spec fn key_parts(key: Seq<char>) -> Option<Seq<Seq<char>>> {
    let p = split(key, '.');
    if forall|i: int| 0 <= i < p.len() ==> (#[trigger] p[i]).len() > 0 {
        Some(p)
    } else {
        None
    }
}

/// The parts of a dotted key, outermost first.
pub fn parts(key: &str) -> (r: Result<Vec<String>, String>)
    ensures
        match key_parts(key@) {
            Some(p) => r matches Ok(v) && v@.map_values(|s: String| s@) == p,
            None => r matches Err(e) && e@ == BAD_KEY@,
        },
{
    let pieces = split_on(&chars_of(key), '.');
    let ghost p = split(key@, '.');
    let mut out: Vec<String> = Vec::new();
    let mut i: usize = 0;
    while i < pieces.len()
        invariant
            i <= pieces.len(),
            texts(pieces@) == p,
            p == split(key@, '.'),
            forall|k: int| 0 <= k < i ==> (#[trigger] p[k]).len() > 0,
            out@.map_values(|s: String| s@) == p.take(i as int),
        decreases pieces.len() - i,
    {
        assert(p[i as int] == pieces@[i as int]@);
        if pieces[i].len() == 0 {
            assert(!(p[i as int].len() > 0));
            return Err(string_of(&chars_of(BAD_KEY)));
        }
        let ghost before = out@;
        out.push(string_of(&pieces[i]));
        assert(out@.map_values(|s: String| s@) =~= before.map_values(|s: String| s@).push(
            p[i as int],
        ));
        assert(p.take(i + 1) =~= p.take(i as int).push(p[i as int]));
        i += 1;
    }
    assert(p.take(pieces.len() as int) =~= p);
    Ok(out)
}


/// Editing a key inside `layout` while the configuration sets no layout
/// starts from the theme's layout, so that the other layout values stay as
/// the user sees them.
pub open spec fn starts_from_theme_layout(keys: Seq<Seq<char>>, layout_set: bool) -> bool {
    keys.len() > 1 && keys[0] == "layout"@ && !layout_set
}

pub fn needs_theme_layout(keys: &Vec<String>, layout_set: bool) -> (r: bool)
    ensures
        r == starts_from_theme_layout(keys@.map_values(|s: String| s@), layout_set),
{
    if keys.len() > 1 && !layout_set {
        assert(keys@.map_values(|s: String| s@)[0] == keys@[0]@);
        crate::text::is(&chars_of(keys[0].as_str()), "layout")
    } else {
        false
    }
}

pub const NOT_A_TABLE: &'static str = "Parent key is not a table";

pub open spec fn unknown_table(key: Seq<char>) -> Seq<char> {
    "Unknown configuration table: "@ + key
}

pub open spec fn unset_or_unknown(key: Seq<char>) -> Seq<char> {
    "Key is unset or unknown: "@ + key
}

/// The entries of the table that `path` leads to from `root`, or why there
/// is none: a missing key, or a step through a value that is no table.
pub open spec fn table_at(root: Map<Seq<char>, toml::Value>, path: Seq<Seq<char>>) -> Result<
    Map<Seq<char>, toml::Value>,
    Seq<char>,
>
    decreases path.len(),
{
    if path.len() == 0 {
        Ok(root)
    } else if !root.contains_key(path[0]) {
        Err(unknown_table(path[0]))
    } else {
        match value_table(root[path[0]]) {
            Some(t) => table_at(entries(t), path.drop_first()),
            None => if path.len() == 1 {
                Err(NOT_A_TABLE@)
            } else {
                Err(unknown_table(path[1]))
            },
        }
    }
}

/// The value that `set` stores for a text: the TOML value it spells, when
/// `value = <text>` is a document of that one key, else the text itself
/// (`None` here).
pub open spec fn assigned(text: Seq<char>) -> Option<toml::Value> {
    match parsed_table("value = "@ + text) {
        Some(t) => if entries(t).len() == 1 {
            get_of(t, "value"@)
        } else {
            None
        },
        None => None,
    }
}

/// How a command changes the entries of the table that holds `leaf`.
pub open spec fn leaf_edited(
    before: Map<Seq<char>, toml::Value>,
    after: Map<Seq<char>, toml::Value>,
    leaf: Seq<char>,
    command: Action,
) -> bool {
    match command {
        Action::Assign { value, .. } => match assigned(value@) {
            Some(v) => after == before.insert(leaf, v),
            None => {
                &&& after.remove(leaf) == before.remove(leaf)
                &&& after.contains_key(leaf)
                &&& value_str(after[leaf]) == Some(value@)
            },
        },
        Action::Unset { .. } => after == before.remove(leaf),
        _ => after == before,
    }
}

/// `after` is `before` with the table at `path` edited as `leaf_edited`
/// says, and every other entry on the way left as it was.
pub open spec fn rewritten_at(
    before: Map<Seq<char>, toml::Value>,
    after: Map<Seq<char>, toml::Value>,
    path: Seq<Seq<char>>,
    leaf: Seq<char>,
    command: Action,
) -> bool
    decreases path.len(),
{
    if path.len() == 0 {
        leaf_edited(before, after, leaf, command)
    } else {
        &&& after.remove(path[0]) == before.remove(path[0])
        &&& before.contains_key(path[0])
        &&& after.contains_key(path[0])
        &&& match (value_table(before[path[0]]), value_table(after[path[0]])) {
            (Some(b), Some(a)) => rewritten_at(entries(b), entries(a), path.drop_first(), leaf, command),
            _ => false,
        }
    }
}

/// The key a command names.
pub open spec fn command_key(command: Action) -> Seq<char> {
    match command {
        Action::Get { key } => key@,
        Action::Assign { key, .. } => key@,
        Action::Unset { key } => key@,
        _ => Seq::empty(),
    }
}

/// Why a command on the key `path` + `leaf` fails, if it does.
pub open spec fn edit_error(
    root: Map<Seq<char>, toml::Value>,
    path: Seq<Seq<char>>,
    leaf: Seq<char>,
    command: Action,
) -> Option<Seq<char>> {
    match table_at(root, path) {
        Err(e) => Some(e),
        Ok(t) => if command is Assign || t.contains_key(leaf) {
            None
        } else {
            Some(unset_or_unknown(command_key(command)))
        },
    }
}

/// What a command does to a document and answers, when nothing fails.
pub open spec fn edit_done(
    before: toml::Table,
    after: toml::Table,
    path: Seq<Seq<char>>,
    leaf: Seq<char>,
    command: Action,
    r: Result<Option<String>, String>,
) -> bool {
    match command {
        Action::Get { .. } => {
            &&& after == before
            &&& r matches Ok(Some(s)) && s@ == value_display(table_at(entries(before), path)->Ok_0[leaf])
        },
        _ => {
            &&& r matches Ok(None)
            &&& rewritten_at(entries(before), entries(after), path, leaf, command)
        },
    }
}

/// What `set` stores for a text: see [`assigned`].
pub fn assigned_value(value: &str) -> (r: toml::Value)
    ensures
        match assigned(value@) {
            Some(v) => r == v,
            None => value_str(r) == Some(value@),
        },
{
    proof {
        reveal_strlit("value");
    }
    let mut text = chars_of("value = ");
    append(&mut text, &chars_of(value));
    let source = string_of(&text);
    if let Some(mut table) = crate::document::parse_table(source.as_str()) {
        if crate::document::len(&table) == 1 {
            if let Some(v) = crate::document::remove(&mut table, "value") {
                return v;
            }
        }
    }
    crate::document::string_value(string_of(&chars_of(value)))
}

fn unset_message(command: &Action) -> (r: String)
    ensures
        r@ == unset_or_unknown(command_key(*command)),
{
    let mut out = chars_of("Key is unset or unknown: ");
    match command {
        Action::Get { key } => append(&mut out, &chars_of(key.as_str())),
        Action::Assign { key, .. } => append(&mut out, &chars_of(key.as_str())),
        Action::Unset { key } => append(&mut out, &chars_of(key.as_str())),
        _ => {},
    }
    string_of(&out)
}

fn unknown_message(key: &str) -> (r: String)
    ensures
        r@ == unknown_table(key@),
{
    let mut out = chars_of("Unknown configuration table: ");
    append(&mut out, &chars_of(key));
    string_of(&out)
}

/// A command on the key `leaf` of one table.
fn edit_leaf(table: &mut toml::Table, leaf: &str, command: &Action) -> (r: Result<Option<String>, String>)
    requires
        command is Get || command is Assign || command is Unset,
    ensures
        match edit_error(entries(*old(table)), Seq::empty(), leaf@, *command) {
            Some(e) => r matches Err(m) && m@ == e && *final(table) == *old(table),
            None => edit_done(*old(table), *final(table), Seq::empty(), leaf@, *command, r),
        },
{
    match command {
        Action::Get { .. } => match crate::document::get(table, leaf) {
            Some(v) => Ok(Some(crate::document::display(&v))),
            None => Err(unset_message(command)),
        },
        Action::Unset { .. } => {
            if crate::document::get(table, leaf).is_none() {
                return Err(unset_message(command));
            }
            let _ = crate::document::remove(table, leaf);
            Ok(None)
        },
        Action::Assign { value, .. } => {
            let v = assigned_value(value.as_str());
            let ghost before = entries(*table);
            crate::document::insert(table, leaf, v);
            proof {
                if assigned(value@) is None {
                    assert(entries(*table).remove(leaf@) =~= before.remove(leaf@));
                }
            }
            Ok(None)
        },
        _ => Err(unset_message(command)),
    }
}

/// A command on the key `keys[at..]` under `table`.
fn edit_from(table: &mut toml::Table, keys: &Vec<String>, at: usize, command: &Action) -> (r: Result<
    Option<String>,
    String,
>)
    requires
        at < keys.len(),
        command is Get || command is Assign || command is Unset,
    ensures
        ({
            let ks = keys@.map_values(|s: String| s@);
            let path = ks.subrange(at as int, ks.len() - 1);
            let leaf = ks.last();
            match edit_error(entries(*old(table)), path, leaf, *command) {
                Some(e) => r matches Err(m) && m@ == e && *final(table) == *old(table),
                None => edit_done(*old(table), *final(table), path, leaf, *command, r),
            }
        }),
    decreases keys.len() - at,
{
    let ghost ks = keys@.map_values(|s: String| s@);
    let ghost path = ks.subrange(at as int, ks.len() - 1);
    assert(ks[at as int] == keys@[at as int]@);
    if at + 1 == keys.len() {
        assert(path =~= Seq::<Seq<char>>::empty());
        return edit_leaf(table, keys[at].as_str(), command);
    }
    assert(path[0] == ks[at as int]);
    assert(path.drop_first() =~= ks.subrange(at + 1, ks.len() - 1));
    let key = keys[at].as_str();
    let child = match crate::document::get(table, key) {
        Some(v) => v,
        None => return Err(unknown_message(key)),
    };
    let mut sub = match crate::document::into_table(child) {
        Some(t) => t,
        None => {
            if at + 2 == keys.len() {
                return Err(string_of(&chars_of(NOT_A_TABLE)));
            }
            assert(path[1] == ks[at + 1]);
            assert(ks[at + 1] == keys@[at + 1]@);
            return Err(unknown_message(keys[at + 1].as_str()));
        },
    };
    let ghost sub_before = sub;
    let r = edit_from(&mut sub, keys, at + 1, command);
    match r {
        Ok(answer) => {
            if let Action::Get { .. } = command {
                return Ok(answer);
            }
            let ghost before = entries(*table);
            crate::document::insert(table, key, crate::document::table_value(sub));
            assert(entries(*table).remove(path[0]) =~= before.remove(path[0]));
            Ok(answer)
        },
        Err(e) => Err(e),
    }
}

/// Carry out `get`, `set` or `unset` on a configuration document: the text
/// of the value read, or `None` once the document was changed.
pub fn edit_document(document: &mut toml::Table, keys: &Vec<String>, command: &Action) -> (r: Result<
    Option<String>,
    String,
>)
    requires
        keys.len() > 0,
        command is Get || command is Assign || command is Unset,
    ensures
        ({
            let ks = keys@.map_values(|s: String| s@);
            match edit_error(entries(*old(document)), ks.drop_last(), ks.last(), *command) {
                Some(e) => r matches Err(m) && m@ == e && *final(document) == *old(document),
                None => edit_done(*old(document), *final(document), ks.drop_last(), ks.last(), *command, r),
            }
        }),
{
    let ghost ks = keys@.map_values(|s: String| s@);
    assert(ks.subrange(0, ks.len() - 1) =~= ks.drop_last());
    edit_from(document, keys, 0, command)
}

/// After `set`, the key holds what was set (the TOML value the text spells,
/// or the text itself); after `unset`, the key is gone. Either way the table
/// that holds it is still reached by the same path.
pub proof fn law_get_reads_what_set_wrote(
    before: Map<Seq<char>, toml::Value>,
    after: Map<Seq<char>, toml::Value>,
    path: Seq<Seq<char>>,
    leaf: Seq<char>,
    command: Action,
)
    requires
        rewritten_at(before, after, path, leaf, command),
    ensures
        table_at(after, path) is Ok,
        command matches Action::Assign { value, .. } ==> {
            let t = table_at(after, path)->Ok_0;
            &&& t.contains_key(leaf)
            &&& match assigned(value@) {
                Some(v) => t[leaf] == v,
                None => value_str(t[leaf]) == Some(value@),
            }
        },
        command is Unset ==> !table_at(after, path)->Ok_0.contains_key(leaf),
    decreases path.len(),
{
    if path.len() > 0 {
        let a = value_table(after[path[0]])->Some_0;
        let b = value_table(before[path[0]])->Some_0;
        law_get_reads_what_set_wrote(entries(b), entries(a), path.drop_first(), leaf, command);
    }
}

} // verus!
