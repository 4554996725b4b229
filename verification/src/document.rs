//! TOML documents as the `toml` crate reads and writes them: what a table
//! holds, and the few operations the configuration editors make on one.
use vstd::prelude::*;

verus! {

#[verifier::external_type_specification]
#[verifier::external_body]
#[verifier::reject_recursive_types(K)]
#[verifier::reject_recursive_types(V)]
pub struct ExTomlMap<K, V>(toml::map::Map<K, V>);

#[verifier::external_type_specification]
#[verifier::external_body]
pub struct ExTomlValue(toml::Value);

/// What a `toml::Table` holds: each key with the value stored under it.
pub uninterp spec fn entries(t: toml::Table) -> Map<Seq<char>, toml::Value>;

/// The table a value holds, when it is a table (`toml::Value::as_table`).
pub uninterp spec fn value_table(v: toml::Value) -> Option<toml::Table>;

/// The text a value holds, when it is a string (`toml::Value::as_str`).
pub uninterp spec fn value_str(v: toml::Value) -> Option<Seq<char>>;

/// The integer a value holds, when it is one (`toml::Value::as_integer`).
pub uninterp spec fn value_integer(v: toml::Value) -> Option<i64>;

/// How `toml::Value`'s `Display` writes a value.
pub uninterp spec fn value_display(v: toml::Value) -> Seq<char>;

/// What `toml::from_str::<toml::Value>` makes of a text: the document, or the
/// `Display` text of its error.
pub uninterp spec fn parsed_value(s: Seq<char>) -> Result<toml::Value, Seq<char>>;

/// What `toml::from_str::<toml::Table>` makes of a text, when it is a TOML
/// document.
pub uninterp spec fn parsed_table(s: Seq<char>) -> Option<toml::Table>;

/// What `toml::to_string_pretty` writes for a table, or the `Display` text of
/// its error.
pub uninterp spec fn pretty(t: toml::Table) -> Result<Seq<char>, Seq<char>>;

/// The table stored under `key`, if any.
pub open spec fn get_of(t: toml::Table, key: Seq<char>) -> Option<toml::Value> {
    if entries(t).contains_key(key) {
        Some(entries(t)[key])
    } else {
        None
    }
}

/// `toml::map::Map::new`: a table with no entries.
#[verifier::external_body]
pub(crate) fn new_table() -> (r: toml::Table)
    ensures
        entries(r) =~= Map::empty(),
{
    toml::Table::new()
}

/// `toml::map::Map::get`, the value handed out as a copy.
#[verifier::external_body]
pub(crate) fn get(t: &toml::Table, key: &str) -> (r: Option<toml::Value>)
    ensures
        r == get_of(*t, key@),
{
    t.get(key).cloned()
}

/// `toml::map::Map::insert`: the value under `key` is replaced or added, and
/// every other entry stays.
#[verifier::external_body]
pub(crate) fn insert(t: &mut toml::Table, key: &str, value: toml::Value)
    ensures
        entries(*final(t)) == entries(*old(t)).insert(key@, value),
{
    t.insert(key.to_string(), value);
}

/// `toml::map::Map::remove`: the entry under `key` leaves, and is handed back.
#[verifier::external_body]
pub(crate) fn remove(t: &mut toml::Table, key: &str) -> (r: Option<toml::Value>)
    ensures
        r == get_of(*old(t), key@),
        entries(*final(t)) == entries(*old(t)).remove(key@),
{
    t.remove(key)
}

/// `toml::map::Map::len`: the number of entries.
#[verifier::external_body]
pub(crate) fn len(t: &toml::Table) -> (r: usize)
    ensures
        r == entries(*t).len(),
{
    t.len()
}

/// The table inside a `toml::Value::Table`, if the value is one.
#[verifier::external_body]
pub(crate) fn into_table(v: toml::Value) -> (r: Option<toml::Table>)
    ensures
        r == value_table(v),
{
    match v {
        toml::Value::Table(t) => Some(t),
        _ => None,
    }
}

/// `toml::Value::Table`: a table as a value.
#[verifier::external_body]
pub(crate) fn table_value(t: toml::Table) -> (r: toml::Value)
    ensures
        value_table(r) == Some(t),
        value_str(r) is None,
        value_integer(r) is None,
{
    toml::Value::Table(t)
}

/// `toml::Value::String`: a text as a value.
#[verifier::external_body]
pub(crate) fn string_value(s: String) -> (r: toml::Value)
    ensures
        value_str(r) == Some(s@),
        value_table(r) is None,
        value_integer(r) is None,
{
    toml::Value::String(s)
}

/// `toml::Value::Integer`: an integer as a value.
#[verifier::external_body]
pub(crate) fn integer_value(i: i64) -> (r: toml::Value)
    ensures
        value_integer(r) == Some(i),
        value_table(r) is None,
        value_str(r) is None,
{
    toml::Value::Integer(i)
}

/// A value written as `toml::Value`'s `Display` writes it.
#[verifier::external_body]
pub(crate) fn display(v: &toml::Value) -> (r: String)
    ensures
        r@ == value_display(*v),
{
    v.to_string()
}

/// `toml::from_str::<toml::Value>`, with the error as text.
#[verifier::external_body]
pub(crate) fn parse_value(s: &str) -> (r: Result<toml::Value, String>)
    ensures
        match r {
            Ok(v) => parsed_value(s@) == Ok::<toml::Value, Seq<char>>(v),
            Err(e) => parsed_value(s@) == Err::<toml::Value, Seq<char>>(e@),
        },
{
    toml::from_str::<toml::Value>(s).map_err(|e| e.to_string())
}

/// `toml::from_str::<toml::Table>`, when the text is a document.
#[verifier::external_body]
pub(crate) fn parse_table(s: &str) -> (r: Option<toml::Table>)
    ensures
        r == parsed_table(s@),
{
    toml::from_str::<toml::Table>(s).ok()
}

/// `toml::to_string_pretty` on a table, with the error as text.
#[verifier::external_body]
pub(crate) fn to_pretty(t: &toml::Table) -> (r: Result<String, String>)
    ensures
        match r {
            Ok(s) => pretty(*t) == Ok::<Seq<char>, Seq<char>>(s@),
            Err(e) => pretty(*t) == Err::<Seq<char>, Seq<char>>(e@),
        },
{
    toml::to_string_pretty(t).map_err(|e| e.to_string())
}

} // verus!
