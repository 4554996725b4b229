//! The password field as the embedded keyboard edits it: text, cursor and
//! selection, counted in characters.
use crate::keyboard::{act, Act, Action};
use crate::text::{append, chars_of, slice, string_of};
use vstd::prelude::*;

verus! {

/// What a key press does to the field.
#[derive(Debug, PartialEq, Eq)]
pub enum Edit {
    /// The field now holds `text` with the cursor at `position`.
    Text { text: String, position: usize },
    /// Submit the field.
    Activate,
    /// Leave the field as it is.
    Unchanged,
}

pub enum EditView {
    Text(Seq<char>, nat),
    Activate,
    Unchanged,
}

pub open spec fn edit_view(e: Edit) -> EditView {
    match e {
        Edit::Text { text, position } => EditView::Text(text@, position as nat),
        Edit::Activate => EditView::Activate,
        Edit::Unchanged => EditView::Unchanged,
    }
}

/// `text` without the characters from `start` up to `end`.
pub open spec fn without(text: Seq<char>, start: int, end: int) -> Seq<char> {
    text.subrange(0, start) + text.subrange(end, text.len() as int)
}

/// The field after an action: typed text replaces the selection, or goes in
/// at the cursor, which moves past it; Backspace removes the selection, or
/// the character before the cursor; Enter submits; anything else changes
/// nothing.
pub open spec fn edited(text: Seq<char>, position: int, selection: Option<(int, int)>, action: Act) -> EditView {
    match action {
        Act::Insert(t) => {
            let (base, at) = match selection {
                Some((s, e)) => (without(text, s, e), s),
                None => (text, position),
            };
            EditView::Text(base.subrange(0, at) + t + base.subrange(at, base.len() as int), (at + t.len()) as nat)
        },
        Act::Backspace => match selection {
            Some((s, e)) => EditView::Text(without(text, s, e), s as nat),
            None => if position > 0 {
                EditView::Text(without(text, position - 1, position), (position - 1) as nat)
            } else {
                EditView::Unchanged
            },
        },
        Act::Submit => EditView::Activate,
        _ => EditView::Unchanged,
    }
}

pub open spec fn selection_view(selection: Option<(usize, usize)>) -> Option<(int, int)> {
    match selection {
        Some((s, e)) => Some((s as int, e as int)),
        None => None,
    }
}

fn remove_range(text: &Vec<char>, start: usize, end: usize) -> (r: Vec<char>)
    requires
        start <= end <= text.len(),
    ensures
        r@ == without(text@, start as int, end as int),
{
    let mut out = slice(text, 0, start);
    append(&mut out, &slice(text, end, text.len()));
    out
}

/// The field after a key press. The caller passes the field's text, its
/// cursor and its selection (start before end), and edits only a field that
/// accepts input.
pub fn edit(text: &str, position: usize, selection: Option<(usize, usize)>, action: &Action) -> (r: Edit)
    requires
        position <= text@.len(),
        selection matches Some((s, e)) ==> s <= e <= text@.len(),
    ensures
        edit_view(r) == edited(text@, position as int, selection_view(selection), act(*action)),
{
    let t = chars_of(text);
    match action {
        Action::Insert(typed) => {
            let (base, at) = match selection {
                Some((s, e)) => (remove_range(&t, s, e), s),
                None => (t, position),
            };
            let add = chars_of(typed.as_str());
            let mut out = slice(&base, 0, at);
            append(&mut out, &add);
            let end = out.len();
            append(&mut out, &slice(&base, at, base.len()));
            assert(end == at + add@.len());
            Edit::Text { text: string_of(&out), position: end }
        },
        Action::Backspace => match selection {
            Some((s, e)) => Edit::Text { text: string_of(&remove_range(&t, s, e)), position: s },
            None => if position > 0 {
                Edit::Text {
                    text: string_of(&remove_range(&t, position - 1, position)),
                    position: position - 1,
                }
            } else {
                Edit::Unchanged
            },
        },
        Action::Submit => Edit::Activate,
        _ => Edit::Unchanged,
    }
}

/// Backspace never removes more than the selection or the one character
/// before the cursor, and typing never loses what was outside the selection.
pub proof fn law_edits_are_local(
    text: Seq<char>,
    position: int,
    selection: Option<(int, int)>,
    typed: Seq<char>,
)
    requires
        0 <= position <= text.len(),
        selection matches Some((s, e)) ==> 0 <= s <= e <= text.len(),
    ensures
        ({
            let (s, e) = match selection {
                Some((s, e)) => (s, e),
                None => (position, position),
            };
            &&& edited(text, position, selection, Act::Insert(typed)) == EditView::Text(
                text.subrange(0, s) + typed + text.subrange(e, text.len() as int),
                (s + typed.len()) as nat,
            )
            &&& edited(text, position, selection, Act::Backspace) matches EditView::Text(after, _)
                ==> after.len() == text.len() - (if selection is Some { e - s } else { 1 })
        }),
{
    match selection {
        Some((s, e)) => {
            let base = without(text, s, e);
            assert(base.subrange(0, s) =~= text.subrange(0, s));
            assert(base.subrange(s, base.len() as int) =~= text.subrange(e, text.len() as int));
        },
        None => {
            assert(text.subrange(0, position) + text.subrange(position, text.len() as int) =~= text);
        },
    }
}

} // verus!
