//! Bundled palette adaptations: a palette becomes GTK colour definitions.
use crate::text::{append, chars_of, same, string_of};
use vstd::prelude::*;

verus! {

/// One bundled palette.
#[derive(Clone, Debug)]
pub struct Preset {
    pub id: String,
    pub name: String,
    bg: String,
    surface: String,
    raised: String,
    text: String,
    muted: String,
    accent: String,
}

/// A palette as text values.
pub struct PresetView {
    pub id: Seq<char>,
    pub name: Seq<char>,
    pub bg: Seq<char>,
    pub surface: Seq<char>,
    pub raised: Seq<char>,
    pub text: Seq<char>,
    pub muted: Seq<char>,
    pub accent: Seq<char>,
}

impl View for Preset {
    type V = PresetView;

    closed spec fn view(&self) -> PresetView {
        PresetView {
            id: self.id@,
            name: self.name@,
            bg: self.bg@,
            surface: self.surface@,
            raised: self.raised@,
            text: self.text@,
            muted: self.muted@,
            accent: self.accent@,
        }
    }
}

impl Preset {
    pub fn new(
        id: String,
        name: String,
        bg: String,
        surface: String,
        raised: String,
        text: String,
        muted: String,
        accent: String,
    ) -> (r: Preset)
        ensures
            r@ == (PresetView {
                id: id@,
                name: name@,
                bg: bg@,
                surface: surface@,
                raised: raised@,
                text: text@,
                muted: muted@,
                accent: accent@,
            }),
    {
        Preset { id, name, bg, surface, raised, text, muted, accent }
    }
}

/// `@define-color <name> <value>;` and a line break.
pub open spec fn define(name: Seq<char>, value: Seq<char>) -> Seq<char> {
    "@define-color "@ + name + " "@ + value + ";\n"@
}

/// The colours every window uses.
pub open spec fn settings_colors(p: PresetView) -> Seq<char> {
    define("settings_bg"@, p.bg) + define("settings_surface"@, p.surface) + define(
        "settings_raised"@,
        p.raised,
    ) + define("settings_text"@, p.text) + define("settings_muted"@, p.muted) + define(
        "accent"@,
        p.accent,
    ) + define("foreground"@, p.text)
}

/// The colours of the on-screen keyboard.
pub open spec fn keyboard_colors(p: PresetView) -> Seq<char> {
    define("keyboard_background"@, p.surface) + define("keyboard_dark"@, p.raised) + define(
        "keyboard_text"@,
        p.text,
    ) + define("keyboard_hilight"@, p.raised) + define("keyboard_pressed"@, p.accent)
}

pub open spec fn palette_css(p: PresetView, keyboard: bool) -> Seq<char> {
    if keyboard {
        settings_colors(p) + keyboard_colors(p)
    } else {
        settings_colors(p)
    }
}

/// The position of the first palette called `id`.
pub open spec fn first_with_id(ps: Seq<PresetView>, id: Seq<char>) -> Option<int>
    decreases ps.len(),
{
    if ps.len() == 0 {
        None
    } else if ps.last().id == id && first_with_id(ps.drop_last(), id) is None {
        Some(ps.len() - 1)
    } else {
        first_with_id(ps.drop_last(), id)
    }
}

pub open spec fn presets_view(ps: Seq<Preset>) -> Seq<PresetView> {
    ps.map_values(|p: Preset| p@)
}

/// The message for a palette that is not there.
pub open spec fn unknown_preset(id: Seq<char>) -> Seq<char> {
    "Unknown theme preset: "@ + id
}

proof fn lemma_first_with_id(ps: Seq<PresetView>, id: Seq<char>, k: int)
    requires
        0 <= k <= ps.len(),
        forall|j: int| 0 <= j < k ==> ps[j].id != id,
    ensures
        first_with_id(ps.take(k), id) is None,
        k < ps.len() && ps[k].id == id ==> first_with_id(ps.take(k + 1), id) == Some(k),
    decreases k,
{
    if k > 0 {
        lemma_first_with_id(ps, id, k - 1);
        assert(ps.take(k).drop_last() =~= ps.take(k - 1));
    }
    if k < ps.len() {
        assert(ps.take(k + 1).drop_last() =~= ps.take(k));
    }
}

fn add_define(out: &mut Vec<char>, name: &str, value: &String)
    ensures
        final(out)@ == old(out)@ + define(name@, value@),
{
    let ghost start = out@;
    append(out, &chars_of("@define-color "));
    append(out, &chars_of(name));
    append(out, &chars_of(" "));
    append(out, &chars_of(value.as_str()));
    append(out, &chars_of(";\n"));
    assert(out@ =~= start + define(name@, value@));
}

/// The colour definitions of the palette `id`, with those of the keyboard
/// when `keyboard` is set.
pub fn colors(presets: &Vec<Preset>, id: &str, keyboard: bool) -> (r: Result<String, String>)
    ensures
        match first_with_id(presets_view(presets@), id@) {
            Some(k) => r matches Ok(css) && css@ == palette_css(presets@[k]@, keyboard),
            None => r matches Err(e) && e@ == unknown_preset(id@),
        },
{
    let ghost ps = presets_view(presets@);
    let wanted = chars_of(id);
    let mut k: usize = 0;
    let mut found = false;
    while !found && k < presets.len()
        invariant
            k <= presets.len(),
            ps == presets_view(presets@),
            wanted@ == id@,
            forall|j: int| 0 <= j < k ==> ps[j].id != id@,
            found ==> k < presets.len() && ps[k as int].id == id@,
        decreases presets.len() - k + (if found { 0int } else { 1int }),
    {
        if same(&chars_of(presets[k].id.as_str()), &wanted) {
            found = true;
        } else {
            k += 1;
        }
    }
    proof {
        lemma_first_with_id(ps, id@, k as int);
        assert(ps.take(ps.len() as int) =~= ps);
    }
    if !found {
        let mut message = chars_of("Unknown theme preset: ");
        append(&mut message, &wanted);
        return Err(string_of(&message));
    }
    proof {
        assert(ps[k as int].id == id@);
        lemma_first_with_id(ps, id@, k as int);
        lemma_first_stays(ps, id@, k as int + 1);
    }
    let p = &presets[k];
    let mut css: Vec<char> = Vec::new();
    add_define(&mut css, "settings_bg", &p.bg);
    add_define(&mut css, "settings_surface", &p.surface);
    add_define(&mut css, "settings_raised", &p.raised);
    add_define(&mut css, "settings_text", &p.text);
    add_define(&mut css, "settings_muted", &p.muted);
    add_define(&mut css, "accent", &p.accent);
    add_define(&mut css, "foreground", &p.text);
    assert(css@ =~= settings_colors(p@));
    if keyboard {
        let ghost base = css@;
        add_define(&mut css, "keyboard_background", &p.surface);
        add_define(&mut css, "keyboard_dark", &p.raised);
        add_define(&mut css, "keyboard_text", &p.text);
        add_define(&mut css, "keyboard_hilight", &p.raised);
        add_define(&mut css, "keyboard_pressed", &p.accent);
        assert(css@ =~= base + keyboard_colors(p@));
    }
    Ok(string_of(&css))
}

/// A match found in a prefix stays the first match of every longer prefix.
proof fn lemma_first_stays(ps: Seq<PresetView>, id: Seq<char>, n: int)
    requires
        0 < n <= ps.len(),
        first_with_id(ps.take(n), id) is Some,
    ensures
        first_with_id(ps, id) == first_with_id(ps.take(n), id),
    decreases ps.len() - n,
{
    if n < ps.len() {
        assert(ps.take(n + 1).drop_last() =~= ps.take(n));
        lemma_first_stays(ps, id, n + 1);
    } else {
        assert(ps.take(n) =~= ps);
    }
}


/// The display name of the palette `id`, when there is one.
pub fn preset_name(presets: &Vec<Preset>, id: &str) -> (r: Option<String>)
    ensures
        match first_with_id(presets_view(presets@), id@) {
            Some(k) => r matches Some(n) && n@ == presets@[k]@.name,
            None => r is None,
        },
{
    let ghost ps = presets_view(presets@);
    let wanted = chars_of(id);
    let mut k: usize = 0;
    while k < presets.len()
        invariant
            k <= presets.len(),
            ps == presets_view(presets@),
            wanted@ == id@,
            forall|j: int| 0 <= j < k ==> ps[j].id != id@,
        decreases presets.len() - k,
    {
        if same(&chars_of(presets[k].id.as_str()), &wanted) {
            proof {
                lemma_first_with_id(ps, id@, k as int);
                lemma_first_stays(ps, id@, k as int + 1);
            }
            return Some(string_of(&chars_of(presets[k].name.as_str())));
        }
        k += 1;
    }
    proof {
        lemma_first_with_id(ps, id@, k as int);
        assert(ps.take(ps.len() as int) =~= ps);
    }
    None
}

} // verus!
