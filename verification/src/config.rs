//! The settings rules that do not involve fractional values: media pools,
//! intervals, the PAM service, layout spacing, and where relative paths lead.
use crate::auth::is_name_char;
use crate::paths::{join, resolve, resolved};
use crate::procedural::{id, item_of, scheme};
use crate::text::{chars_of, has_prefix, starts, string_of};
use vstd::prelude::*;

verus! {

#[derive(Debug, Clone, Copy, PartialEq, Eq, Structural)]
pub enum Alignment {
    Start,
    Center,
    End,
}

impl Default for Alignment {
    fn default() -> (r: Alignment)
        ensures
            r == Alignment::Center,
    {
        Alignment::Center
    }
}

#[derive(Debug, Clone, Copy, PartialEq, Eq, Structural)]
pub enum Arrangement {
    Vertical,
    Horizontal,
}

impl Default for Arrangement {
    fn default() -> (r: Arrangement)
        ensures
            r == Arrangement::Vertical,
    {
        Arrangement::Vertical
    }
}

/// The longest interval, in seconds, that the settings accept: one day.
pub const MAX_SECONDS: u32 = 86400;

pub const UNKNOWN_ITEM: &'static str = "Unknown procedural media ID";

pub const BAD_SLIDESHOW: &'static str = "Slideshow intervals must be between 1 and 86400 seconds";

pub const BAD_IDLE: &'static str = "idle_seconds must be between 1 and 86400";

pub const BAD_SERVICE: &'static str = "pam_service must be a service name, not a path";

pub const BAD_LAYOUT: &'static str =
    "Theme layout requires spacing 0..128, padding 0..256, keyboard_scale 0.5..2.0";

/// A pool entry that claims to be a procedural item but names none.
pub open spec fn unknown_item(entry: Seq<char>) -> bool {
    has_prefix(entry, scheme()) && item_of(entry) is None
}

/// Every entry of the pools that are set names media or a known item.
pub open spec fn pools_known(pools: Seq<Option<Seq<Seq<char>>>>) -> bool {
    forall|k: int, i: int|
        0 <= k < pools.len() && pools[k] is Some && 0 <= i < pools[k]->0.len()
            ==> !unknown_item(#[trigger] pools[k]->0[i])
}

pub open spec fn pool_view(p: Option<Vec<String>>) -> Option<Seq<Seq<char>>> {
    match p {
        Some(v) => Some(v@.map_values(|s: String| s@)),
        None => None,
    }
}

fn pool_known(pool: &Option<Vec<String>>) -> (r: bool)
    ensures
        r == pools_known(seq![pool_view(*pool)]),
{
    proof {
        reveal_strlit("procedural:");
    }
    match pool {
        None => true,
        Some(entries) => {
            let ghost ps = seq![pool_view(*pool)];
            let prefix = chars_of("procedural:");
            let mut i: usize = 0;
            while i < entries.len()
                invariant
                    i <= entries.len(),
                    *pool == Some(*entries),
                    ps == seq![pool_view(*pool)],
                    prefix@ == scheme(),
                    forall|j: int| 0 <= j < i ==> !unknown_item(#[trigger] ps[0]->0[j]),
                decreases entries.len() - i,
            {
                assert(ps[0]->0[i as int] == entries@[i as int]@);
                let e = chars_of(entries[i].as_str());
                if starts(&e, &prefix) && id(entries[i].as_str()).is_none() {
                    assert(unknown_item(ps[0]->0[i as int]));
                    return false;
                }
                i += 1;
            }
            assert forall|k: int, j: int|
                0 <= k < ps.len() && ps[k] is Some && 0 <= j < ps[k]->0.len() implies !unknown_item(
                #[trigger] ps[k]->0[j],
            ) by {
                assert(k == 0);
            }
            true
        },
    }
}

/// The pool check of the settings: every `procedural:` entry names a known
/// item.
pub fn check_pools(background_pool: &Option<Vec<String>>, idle_pool: &Option<Vec<String>>) -> (r:
    Result<(), String>)
    ensures
        r is Ok <==> pools_known(seq![pool_view(*background_pool), pool_view(*idle_pool)]),
        r matches Err(e) ==> e@ == UNKNOWN_ITEM@,
{
    let ghost both = seq![pool_view(*background_pool), pool_view(*idle_pool)];
    let first = pool_known(background_pool);
    let second = pool_known(idle_pool);
    proof {
        if !first {
            let (k, i) = choose|k: int, i: int|
                0 <= k < 1 && seq![pool_view(*background_pool)][k] is Some && 0 <= i
                    < seq![pool_view(*background_pool)][k]->0.len() && unknown_item(
                    seq![pool_view(*background_pool)][k]->0[i],
                );
            assert(both[0] == seq![pool_view(*background_pool)][0]);
            assert(unknown_item(both[0]->0[i]));
        } else if !second {
            let (k, i) = choose|k: int, i: int|
                0 <= k < 1 && seq![pool_view(*idle_pool)][k] is Some && 0 <= i < seq![
                    pool_view(*idle_pool),
                ][k]->0.len() && unknown_item(seq![pool_view(*idle_pool)][k]->0[i]);
            assert(both[1] == seq![pool_view(*idle_pool)][0]);
            assert(unknown_item(both[1]->0[i]));
        } else {
            assert forall|k: int, i: int|
                0 <= k < both.len() && both[k] is Some && 0 <= i < both[k]->0.len() implies !unknown_item(
                #[trigger] both[k]->0[i],
            ) by {
                if k == 0 {
                    assert(both[k] == seq![pool_view(*background_pool)][0]);
                } else {
                    assert(both[k] == seq![pool_view(*idle_pool)][0]);
                }
            }
        }
    }
    if first && second {
        Ok(())
    } else {
        Err(string_of(&chars_of(UNKNOWN_ITEM)))
    }
}

pub open spec fn in_day(seconds: u32) -> bool {
    1 <= seconds <= MAX_SECONDS
}

/// A PAM service name as the settings accept it: 1 to 64 ASCII letters,
/// digits, `-` and `_`.
pub open spec fn is_pam_service(s: Seq<char>) -> bool {
    &&& 0 < s.len() <= 64
    &&& forall|i: int| 0 <= i < s.len() ==> is_name_char(#[trigger] s[i])
}

/// The first timing or service rule that the values break, in the order the
/// settings are checked.
pub open spec fn timing_error(
    slideshow_seconds: u32,
    idle_slideshow_seconds: u32,
    idle_seconds: u32,
    pam_service: Seq<char>,
) -> Option<Seq<char>> {
    if !in_day(slideshow_seconds) || !in_day(idle_slideshow_seconds) {
        Some(BAD_SLIDESHOW@)
    } else if !in_day(idle_seconds) {
        Some(BAD_IDLE@)
    } else if !is_pam_service(pam_service) {
        Some(BAD_SERVICE@)
    } else {
        None
    }
}

fn pam_service_ok(s: &str) -> (r: bool)
    ensures
        r == is_pam_service(s@),
{
    let c = chars_of(s);
    if c.len() == 0 || c.len() > 64 {
        return false;
    }
    let mut i: usize = 0;
    while i < c.len()
        invariant
            i <= c.len(),
            c@ == s@,
            forall|k: int| 0 <= k < i ==> is_name_char(#[trigger] c@[k]),
        decreases c.len() - i,
    {
        let x = c[i];
        if !(('a' <= x && x <= 'z') || ('A' <= x && x <= 'Z') || ('0' <= x && x <= '9') || x == '_'
            || x == '-') {
            assert(!is_name_char(c@[i as int]));
            return false;
        }
        i += 1;
    }
    true
}

/// The interval and service checks of the settings.
pub fn check_timing(
    slideshow_seconds: u32,
    idle_slideshow_seconds: u32,
    idle_seconds: u32,
    pam_service: &str,
) -> (r: Result<(), String>)
    ensures
        match timing_error(slideshow_seconds, idle_slideshow_seconds, idle_seconds, pam_service@) {
            None => r is Ok,
            Some(m) => r matches Err(e) && e@ == m,
        },
{
    if !(1 <= slideshow_seconds && slideshow_seconds <= MAX_SECONDS) || !(1
        <= idle_slideshow_seconds && idle_slideshow_seconds <= MAX_SECONDS) {
        return Err(string_of(&chars_of(BAD_SLIDESHOW)));
    }
    if !(1 <= idle_seconds && idle_seconds <= MAX_SECONDS) {
        return Err(string_of(&chars_of(BAD_IDLE)));
    }
    if !pam_service_ok(pam_service) {
        return Err(string_of(&chars_of(BAD_SERVICE)));
    }
    Ok(())
}

/// The integer bounds of a theme layout: spacing 0 to 128, padding 0 to 256.
pub open spec fn spacing_in_bounds(spacing: i32, padding: i32) -> bool {
    0 <= spacing <= 128 && 0 <= padding <= 256
}

pub fn layout_spacing_ok(spacing: i32, padding: i32) -> (r: bool)
    ensures
        r == spacing_in_bounds(spacing, padding),
{
    0 <= spacing && spacing <= 128 && 0 <= padding && padding <= 256
}

/// A pool with its media entries taken from `base`; procedural items stay as
/// they are.
pub open spec fn resolved_pool(base: Seq<char>, pool: Seq<Seq<char>>) -> Seq<Seq<char>> {
    pool.map_values(
        |p: Seq<char>|
            if has_prefix(p, scheme()) {
                p
            } else {
                resolved(base, p)
            },
    )
}

pub fn resolve_pool(base: &str, pool: &Vec<String>) -> (r: Vec<String>)
    ensures
        r@.map_values(|s: String| s@) == resolved_pool(base@, pool@.map_values(|s: String| s@)),
{
    proof {
        reveal_strlit("procedural:");
    }
    let prefix = chars_of("procedural:");
    let mut out: Vec<String> = Vec::new();
    let mut i: usize = 0;
    while i < pool.len()
        invariant
            i <= pool.len(),
            prefix@ == scheme(),
            out@.map_values(|s: String| s@) == resolved_pool(
                base@,
                pool@.map_values(|s: String| s@),
            ).take(i as int),
        decreases pool.len() - i,
    {
        let p = chars_of(pool[i].as_str());
        let next = if starts(&p, &prefix) {
            pool[i].clone()
        } else {
            resolve(base, pool[i].as_str())
        };
        proof {
            assert(pool@.map_values(|s: String| s@)[i as int] == pool@[i as int]@);
        }
        assert(next@ == resolved_pool(base@, pool@.map_values(|s: String| s@))[i as int]);
        let ghost before = out@;
        out.push(next);
        assert(out@ == before.push(next));
        assert(out@.map_values(|s: String| s@) =~= before.map_values(|s: String| s@).push(next@));
        assert(out@.map_values(|s: String| s@) =~= resolved_pool(
            base@,
            pool@.map_values(|s: String| s@),
        ).take(i + 1));
        i += 1;
    }
    assert(resolved_pool(base@, pool@.map_values(|s: String| s@)).take(pool.len() as int)
        =~= resolved_pool(base@, pool@.map_values(|s: String| s@)));
    out
}

/// The media folders that stand in for unset backgrounds: the lock folder when
/// neither the settings nor the theme name a background, the idle folder when
/// the settings name no idle background.
pub open spec fn media_defaults_of(
    config_home: Seq<char>,
    background: Option<Seq<char>>,
    theme_has_background: bool,
    idle_background: Option<Seq<char>>,
) -> (Option<Seq<char>>, Option<Seq<char>>) {
    let root = joined_midias(config_home);
    (
        if background is None && !theme_has_background {
            Some(crate::paths::joined(root, "bloqueio"@))
        } else {
            background
        },
        if idle_background is None {
            Some(crate::paths::joined(root, "ocioso"@))
        } else {
            idle_background
        },
    )
}

pub open spec fn joined_midias(config_home: Seq<char>) -> Seq<char> {
    crate::paths::joined(config_home, "midias"@)
}

pub fn media_defaults(
    config_home: &str,
    background: Option<String>,
    theme_has_background: bool,
    idle_background: Option<String>,
) -> (r: (Option<String>, Option<String>))
    ensures
        (crate::text::opt_text(r.0), crate::text::opt_text(r.1)) == media_defaults_of(
            config_home@,
            crate::text::opt_text(background),
            theme_has_background,
            crate::text::opt_text(idle_background),
        ),
{
    let root = join(config_home, "midias");
    let lock = match background {
        None if !theme_has_background => Some(join(root.as_str(), "bloqueio")),
        other => other,
    };
    let idle = match idle_background {
        None => Some(join(root.as_str(), "ocioso")),
        other => other,
    };
    (lock, idle)
}


/// The entries of a pool; an unset pool has none.
pub open spec fn entries_of(pool: Option<Seq<Seq<char>>>) -> Seq<Seq<char>> {
    match pool {
        Some(p) => p,
        None => Seq::empty(),
    }
}

/// Some entry names the same path as `entry`.
pub open spec fn names_path(p: Seq<Seq<char>>, entry: Seq<char>) -> bool {
    exists|i: int| 0 <= i < p.len() && crate::paths::same_path(#[trigger] p[i], entry)
}

/// A pool with `entry` added at its end, unless the pool already names the
/// same path; an unset pool starts empty.
pub open spec fn with_entry_of(pool: Option<Seq<Seq<char>>>, entry: Seq<char>) -> Seq<Seq<char>> {
    if names_path(entries_of(pool), entry) {
        entries_of(pool)
    } else {
        entries_of(pool).push(entry)
    }
}

pub fn with_entry(pool: Option<Vec<String>>, entry: String) -> (r: Vec<String>)
    ensures
        r@.map_values(|s: String| s@) == with_entry_of(pool_view(pool), entry@),
{
    let ghost orig = pool_view(pool);
    let mut p = match pool {
        Some(p) => p,
        None => Vec::new(),
    };
    let ghost pv = p@.map_values(|s: String| s@);
    assert(pv =~= entries_of(orig));
    let mut i: usize = 0;
    while i < p.len()
        invariant
            i <= p.len(),
            pv == p@.map_values(|s: String| s@),
            pv == entries_of(orig),
            orig == pool_view(pool),
            forall|k: int| 0 <= k < i ==> !crate::paths::same_path(#[trigger] pv[k], entry@),
        decreases p.len() - i,
    {
        assert(pv[i as int] == p@[i as int]@);
        if crate::paths::same_path_as(p[i].as_str(), entry.as_str()) {
            assert(crate::paths::same_path(pv[i as int], entry@));
            assert(names_path(pv, entry@));
            return p;
        }
        i += 1;
    }
    assert(!names_path(pv, entry@));
    p.push(entry);
    assert(p@.map_values(|s: String| s@) =~= pv.push(entry@));
    p
}

} // verus!
