use decklock::animation::{channels, mix, work_in_bounds, Effect, BAD_COLOR};
use decklock::procedural::{effect, Presets, ITEMS};

fn reference_mix(seed: u32, index: u32) -> u32 {
    let mut x = seed.wrapping_add(index.wrapping_mul(0x9e3779b9));
    x = (x ^ (x >> 16)).wrapping_mul(0x85ebca6b);
    x = (x ^ (x >> 13)).wrapping_mul(0xc2b2ae35);
    x ^ (x >> 16)
}

#[test]
fn effects_are_stored_by_name() {
    assert_eq!(Effect::default(), Effect::Off);
    assert_eq!(Effect::Off.id(), "none");
    assert_eq!(Effect::DoomFire.id(), "doom-fire");
    for item in ITEMS {
        assert_eq!(effect(item).id(), item);
    }
    assert_eq!(effect("script"), Effect::Off);
}

#[test]
fn work_is_bounded() {
    assert!(work_in_bounds(120, 30));
    assert!(!work_in_bounds(0, 30));
    assert!(!work_in_bounds(301, 30));
    assert!(!work_in_bounds(120, 0));
    assert!(!work_in_bounds(120, 31));
}

#[test]
fn colours_are_hash_and_six_hex_digits() {
    assert_eq!(channels("#b4befe"), Ok((0xb4, 0xbe, 0xfe)));
    assert_eq!(channels("#000000"), Ok((0, 0, 0)));
    assert_eq!(channels("#FFffFF"), Ok((255, 255, 255)));
    assert_eq!(channels("red"), Err(BAD_COLOR.to_string()));
    assert_eq!(channels("#12345"), Err(BAD_COLOR.to_string()));
    assert_eq!(channels("#12345g"), Err(BAD_COLOR.to_string()));
    assert_eq!(channels("#1234567"), Err(BAD_COLOR.to_string()));
}

#[test]
fn element_placement_is_a_stable_hash() {
    assert_eq!(mix(0, 0), 0);
    assert_eq!(mix(1, 0), reference_mix(1, 0));
    assert_eq!(mix(4242, 17), reference_mix(4242, 17));
    assert_eq!(mix(u32::MAX, u32::MAX), reference_mix(u32::MAX, u32::MAX));
    assert_eq!(mix(7, 3), mix(7, 3));
    assert_ne!(mix(7, 3), mix(7, 4));
}

#[test]
fn presets_give_back_what_was_stored() {
    let mut p = Presets {
        starfield: 1u32,
        particles: 2,
        lissajous: 3,
        matrix: 4,
        doom_fire: 5,
        aurora: 6,
        flow_field: 7,
        ridgeline: 8,
    };
    assert_eq!(*p.get("matrix"), 4);
    assert_eq!(*p.get("unknown"), 1);
    p.set("doom-fire", 50);
    assert_eq!(*p.get("doom-fire"), 50);
    assert_eq!(*p.get("aurora"), 6);
    p.set("unknown", 99);
    for (item, want) in ITEMS.iter().zip([1, 2, 3, 4, 50, 6, 7, 8]) {
        assert_eq!(*p.get(item), want);
    }
}
