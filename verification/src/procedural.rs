//! Built-in procedural media IDs shared by every pool.
use crate::animation::Effect;
use crate::text::{chars_of, has_prefix, is, slice, starts, string_of};
use vstd::prelude::*;

verus! {

/// The procedural items, in catalog order.
pub const ITEMS: [&'static str; 8] = [
    "starfield",
    "particles",
    "lissajous",
    "matrix",
    "doom-fire",
    "aurora",
    "flow-field",
    "ridgeline",
];

/// The scheme that marks a pool entry as a procedural item.
pub open spec fn scheme() -> Seq<char> {
    "procedural:"@
}

/// The IDs of the procedural items.
pub open spec fn is_item(id: Seq<char>) -> bool {
    ||| id == "starfield"@
    ||| id == "particles"@
    ||| id == "lissajous"@
    ||| id == "matrix"@
    ||| id == "doom-fire"@
    ||| id == "aurora"@
    ||| id == "flow-field"@
    ||| id == "ridgeline"@
}

/// The procedural item a pool entry names, if it names one.
pub open spec fn item_of(path: Seq<char>) -> Option<Seq<char>> {
    if has_prefix(path, scheme()) && is_item(path.skip(scheme().len() as int)) {
        Some(path.skip(scheme().len() as int))
    } else {
        None
    }
}

/// The ID of the procedural item a pool entry names.
pub fn id(path: &str) -> (r: Option<&'static str>)
    ensures
        r matches Some(i) ==> item_of(path@) == Some(i@),
        r is None ==> item_of(path@) is None,
{
    proof {
        reveal_strlit("procedural:");
    }
    let p = chars_of(path);
    let prefix = chars_of("procedural:");
    if !starts(&p, &prefix) {
        return None;
    }
    let rest = slice(&p, prefix.len(), p.len());
    assert(rest@ == path@.skip(scheme().len() as int));
    if is(&rest, "starfield") {
        Some("starfield")
    } else if is(&rest, "particles") {
        Some("particles")
    } else if is(&rest, "lissajous") {
        Some("lissajous")
    } else if is(&rest, "matrix") {
        Some("matrix")
    } else if is(&rest, "doom-fire") {
        Some("doom-fire")
    } else if is(&rest, "aurora") {
        Some("aurora")
    } else if is(&rest, "flow-field") {
        Some("flow-field")
    } else if is(&rest, "ridgeline") {
        Some("ridgeline")
    } else {
        None
    }
}

/// The pool entry that names a procedural item.
pub fn path(id: &str) -> (r: String)
    ensures
        r@ == scheme() + id@,
{
    let mut text = chars_of("procedural:");
    let name = chars_of(id);
    crate::text::append(&mut text, &name);
    string_of(&text)
}

/// Every procedural item's entry names that item again.
pub proof fn law_entry_round_trip(id: Seq<char>)
    requires
        is_item(id),
    ensures
        item_of(scheme() + id) == Some(id),
{
    reveal_strlit("procedural:");
    let p = scheme() + id;
    assert(p.take(scheme().len() as int) == scheme());
    assert(p.skip(scheme().len() as int) == id);
}


/// The overlay effect of an item; anything else draws none.
pub open spec fn effect_of(id: Seq<char>) -> Effect {
    if id == "starfield"@ {
        Effect::Starfield
    } else if id == "particles"@ {
        Effect::Particles
    } else if id == "lissajous"@ {
        Effect::Lissajous
    } else if id == "matrix"@ {
        Effect::Matrix
    } else if id == "doom-fire"@ {
        Effect::DoomFire
    } else if id == "aurora"@ {
        Effect::Aurora
    } else if id == "flow-field"@ {
        Effect::FlowField
    } else if id == "ridgeline"@ {
        Effect::Ridgeline
    } else {
        Effect::Off
    }
}

pub fn effect(id: &str) -> (r: Effect)
    ensures
        r == effect_of(id@),
{
    let i = chars_of(id);
    if is(&i, "starfield") {
        Effect::Starfield
    } else if is(&i, "particles") {
        Effect::Particles
    } else if is(&i, "lissajous") {
        Effect::Lissajous
    } else if is(&i, "matrix") {
        Effect::Matrix
    } else if is(&i, "doom-fire") {
        Effect::DoomFire
    } else if is(&i, "aurora") {
        Effect::Aurora
    } else if is(&i, "flow-field") {
        Effect::FlowField
    } else if is(&i, "ridgeline") {
        Effect::Ridgeline
    } else {
        Effect::Off
    }
}

/// Per-item settings: one value for each procedural item.
#[derive(Debug, Clone)]
pub struct Presets<P> {
    pub starfield: P,
    pub particles: P,
    pub lissajous: P,
    pub matrix: P,
    pub doom_fire: P,
    pub aurora: P,
    pub flow_field: P,
    pub ridgeline: P,
}

impl<P> Presets<P> {
    /// The settings read for `id`; an unknown ID reads the starfield's.
    pub open spec fn at(self, id: Seq<char>) -> P {
        if id == "particles"@ {
            self.particles
        } else if id == "lissajous"@ {
            self.lissajous
        } else if id == "matrix"@ {
            self.matrix
        } else if id == "doom-fire"@ {
            self.doom_fire
        } else if id == "aurora"@ {
            self.aurora
        } else if id == "flow-field"@ {
            self.flow_field
        } else if id == "ridgeline"@ {
            self.ridgeline
        } else {
            self.starfield
        }
    }

    /// The settings with those of `id` replaced; an unknown ID changes nothing.
    pub open spec fn with(self, id: Seq<char>, value: P) -> Presets<P> {
        if id == "starfield"@ {
            Presets { starfield: value, ..self }
        } else if id == "particles"@ {
            Presets { particles: value, ..self }
        } else if id == "lissajous"@ {
            Presets { lissajous: value, ..self }
        } else if id == "matrix"@ {
            Presets { matrix: value, ..self }
        } else if id == "doom-fire"@ {
            Presets { doom_fire: value, ..self }
        } else if id == "aurora"@ {
            Presets { aurora: value, ..self }
        } else if id == "flow-field"@ {
            Presets { flow_field: value, ..self }
        } else if id == "ridgeline"@ {
            Presets { ridgeline: value, ..self }
        } else {
            self
        }
    }

    pub fn get(&self, id: &str) -> (r: &P)
        ensures
            *r == self.at(id@),
    {
        let i = chars_of(id);
        if is(&i, "particles") {
            &self.particles
        } else if is(&i, "lissajous") {
            &self.lissajous
        } else if is(&i, "matrix") {
            &self.matrix
        } else if is(&i, "doom-fire") {
            &self.doom_fire
        } else if is(&i, "aurora") {
            &self.aurora
        } else if is(&i, "flow-field") {
            &self.flow_field
        } else if is(&i, "ridgeline") {
            &self.ridgeline
        } else {
            &self.starfield
        }
    }

    pub fn set(&mut self, id: &str, value: P)
        ensures
            *final(self) == old(self).with(id@, value),
    {
        let i = chars_of(id);
        if is(&i, "starfield") {
            self.starfield = value;
        } else if is(&i, "particles") {
            self.particles = value;
        } else if is(&i, "lissajous") {
            self.lissajous = value;
        } else if is(&i, "matrix") {
            self.matrix = value;
        } else if is(&i, "doom-fire") {
            self.doom_fire = value;
        } else if is(&i, "aurora") {
            self.aurora = value;
        } else if is(&i, "flow-field") {
            self.flow_field = value;
        } else if is(&i, "ridgeline") {
            self.ridgeline = value;
        }
    }
}

/// Reading an item gives back what was last stored for it, and storing one
/// item leaves every other item as it was.
pub proof fn law_read_gives_back_the_write<P>(presets: Presets<P>, id: Seq<char>, other: Seq<char>, value: P)
    requires
        is_item(id),
    ensures
        presets.with(id, value).at(id) == value,
        is_item(other) && other != id ==> presets.with(id, value).at(other) == presets.at(other),
{
    reveal_strlit("starfield");
    reveal_strlit("particles");
    reveal_strlit("lissajous");
    reveal_strlit("matrix");
    reveal_strlit("doom-fire");
    reveal_strlit("aurora");
    reveal_strlit("flow-field");
    reveal_strlit("ridgeline");
    assert("starfield"@[0] != "particles"@[0]);
    assert("starfield"@[0] != "lissajous"@[0]);
    assert("starfield"@.len() != "matrix"@.len());
    assert("starfield"@.len() != "doom-fire"@.len() || "starfield"@[0] != "doom-fire"@[0]);
    assert("starfield"@.len() != "aurora"@.len());
}

/// Writes under an unknown ID are ignored, and an unknown ID reads the
/// starfield's settings.
pub proof fn law_unknown_ids<P>(presets: Presets<P>, id: Seq<char>, value: P)
    requires
        !is_item(id),
    ensures
        presets.with(id, value) == presets,
        presets.at(id) == presets.starfield,
{
}

/// Each item draws its own effect, and only items draw one.
pub proof fn law_items_have_effects(id: Seq<char>)
    ensures
        is_item(id) <==> effect_of(id) != Effect::Off,
        is_item(id) ==> crate::animation::effect_id(effect_of(id)) == id,
{
}

} // verus!
