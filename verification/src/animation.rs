//! The integer side of the bounded procedural overlays: which effect runs, how
//! much work a scene may ask for, the colour it is drawn in and the stable
//! hash that places its elements.
use crate::text::{chars_of, string_of};
use vstd::prelude::*;

verus! {

#[derive(Debug, Clone, Copy, PartialEq, Eq, Structural)]
pub enum Effect {
    /// No overlay.
    Off,
    Starfield,
    Particles,
    Lissajous,
    Matrix,
    DoomFire,
    Aurora,
    FlowField,
    Ridgeline,
}

impl Default for Effect {
    fn default() -> (r: Effect)
        ensures
            r == Effect::Off,
    {
        Effect::Off
    }
}

pub open spec fn effect_id(e: Effect) -> Seq<char> {
    match e {
        Effect::Off => "none"@,
        Effect::Starfield => "starfield"@,
        Effect::Particles => "particles"@,
        Effect::Lissajous => "lissajous"@,
        Effect::Matrix => "matrix"@,
        Effect::DoomFire => "doom-fire"@,
        Effect::Aurora => "aurora"@,
        Effect::FlowField => "flow-field"@,
        Effect::Ridgeline => "ridgeline"@,
    }
}

impl Effect {
    /// The name under which the effect is stored.
    pub fn id(self) -> (r: &'static str)
        ensures
            r@ == effect_id(self),
    {
        match self {
            Effect::Off => "none",
            Effect::Starfield => "starfield",
            Effect::Particles => "particles",
            Effect::Lissajous => "lissajous",
            Effect::Matrix => "matrix",
            Effect::DoomFire => "doom-fire",
            Effect::Aurora => "aurora",
            Effect::FlowField => "flow-field",
            Effect::Ridgeline => "ridgeline",
        }
    }
}

pub const BAD_WORK: &'static str = "Animation requires density 1..300, fps 1..30 and speed 0.01..2";

pub const BAD_COLOR: &'static str = "Animation color must be #RRGGBB";

/// The integer work bounds of a scene: 1 to 300 elements at 1 to 30 frames a
/// second.
pub open spec fn work_bounded(density: u32, fps: u32) -> bool {
    1 <= density <= 300 && 1 <= fps <= 30
}

pub fn work_in_bounds(density: u32, fps: u32) -> (r: bool)
    ensures
        r == work_bounded(density, fps),
{
    1 <= density && density <= 300 && 1 <= fps && fps <= 30
}

pub open spec fn is_hex(c: char) -> bool {
    ('0' <= c <= '9') || ('a' <= c <= 'f') || ('A' <= c <= 'F')
}

pub open spec fn hex_value(c: char) -> int {
    if '0' <= c <= '9' {
        c as int - '0' as int
    } else if 'a' <= c <= 'f' {
        c as int - 'a' as int + 10
    } else {
        c as int - 'A' as int + 10
    }
}

/// `#RRGGBB`: a hash and six hexadecimal digits.
pub open spec fn is_rgb(s: Seq<char>) -> bool {
    &&& s.len() == 7
    &&& s[0] == '#'
    &&& forall|i: int| 1 <= i < 7 ==> is_hex(#[trigger] s[i])
}

/// The channel written by the two digits at `i` and `i + 1`.
pub open spec fn channel(s: Seq<char>, i: int) -> int {
    16 * hex_value(s[i]) + hex_value(s[i + 1])
}

fn hex_digit(c: char) -> (r: Option<u8>)
    ensures
        match r {
            Some(v) => is_hex(c) && v == hex_value(c),
            None => !is_hex(c),
        },
{
    if '0' <= c && c <= '9' {
        Some(((c as u32) - ('0' as u32)) as u8)
    } else if 'a' <= c && c <= 'f' {
        Some(((c as u32) - ('a' as u32) + 10) as u8)
    } else if 'A' <= c && c <= 'F' {
        Some(((c as u32) - ('A' as u32) + 10) as u8)
    } else {
        None
    }
}

/// The red, green and blue channels of a `#RRGGBB` colour, each 0 to 255.
pub fn channels(color: &str) -> (r: Result<(u8, u8, u8), String>)
    ensures
        r is Ok <==> is_rgb(color@),
        r matches Ok(c) ==> c.0 == channel(color@, 1) && c.1 == channel(color@, 3) && c.2
            == channel(color@, 5),
        r matches Err(e) ==> e@ == BAD_COLOR@,
{
    let s = chars_of(color);
    if s.len() != 7 || s[0] != '#' {
        return Err(string_of(&chars_of(BAD_COLOR)));
    }
    let mut digits: Vec<u8> = Vec::new();
    let mut i: usize = 1;
    while i < 7
        invariant
            1 <= i <= 7,
            s@ == color@,
            s.len() == 7,
            digits.len() == i - 1,
            forall|k: int| 1 <= k < i ==> is_hex(#[trigger] s@[k]),
            forall|k: int| 1 <= k < i ==> digits@[k - 1] == hex_value(#[trigger] s@[k]),
        decreases 7 - i,
    {
        match hex_digit(s[i]) {
            Some(v) => digits.push(v),
            None => return Err(string_of(&chars_of(BAD_COLOR))),
        }
        i += 1;
    }
    assert(digits@[0] == hex_value(s@[1]) && digits@[1] == hex_value(s@[2]));
    assert(digits@[2] == hex_value(s@[3]) && digits@[3] == hex_value(s@[4]));
    assert(digits@[4] == hex_value(s@[5]) && digits@[5] == hex_value(s@[6]));
    Ok((16 * digits[0] + digits[1], 16 * digits[2] + digits[3], 16 * digits[4] + digits[5]))
}

/// The stable hash that places element `index` of a scene drawn from `seed`:
/// the scene depends only on these and on the time it is drawn at.
pub open spec fn mixed(seed: u32, index: u32) -> u32 {
    let x0 = vstd::wrapping::u32_specs::wrapping_add(
        seed,
        vstd::wrapping::u32_specs::wrapping_mul(index, 0x9e3779b9),
    );
    let x1 = vstd::wrapping::u32_specs::wrapping_mul(x0 ^ (x0 >> 16u32), 0x85ebca6b);
    let x2 = vstd::wrapping::u32_specs::wrapping_mul(x1 ^ (x1 >> 13u32), 0xc2b2ae35);
    x2 ^ (x2 >> 16u32)
}

pub fn mix(seed: u32, index: u32) -> (r: u32)
    ensures
        r == mixed(seed, index),
{
    let mut x = seed.wrapping_add(index.wrapping_mul(0x9e3779b9));
    x = (x ^ (x >> 16u32)).wrapping_mul(0x85ebca6b);
    x = (x ^ (x >> 13u32)).wrapping_mul(0xc2b2ae35);
    x ^ (x >> 16u32)
}

} // verus!
