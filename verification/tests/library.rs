use decklock::library::{kind, Kind, Selection};
use decklock::procedural::{id, path, ITEMS};

#[test]
fn video_stays_fixed_and_images_cycle_without_entering_video() {
    let paths: Vec<String> = vec!["a.png".into(), "v.mp4".into(), "b.jpg".into()];
    let mut video = Selection::new(paths.clone(), 1);
    assert!(!video.advance());
    assert_eq!(video.current(), Some("v.mp4"));
    let mut images = Selection::new(paths, 0);
    assert!(images.advance());
    assert_eq!(images.current(), Some("b.jpg"));
    assert!(images.advance());
    assert_eq!(images.current(), Some("a.png"));
    assert!(!Selection::new(vec![], 0).advance());
}

#[test]
fn every_media_choice_stays_in_its_selected_playback_mode() {
    let pool: Vec<String> = ["a.png", "b.mp4", "c.jpg", "d.webm"]
        .into_iter()
        .map(Into::into)
        .collect();
    for seed in 0..64 {
        let mut selection = Selection::new(pool.clone(), seed);
        let first = selection.current().unwrap().to_owned();
        for _ in 0..12 {
            if seed % 2 == 1 {
                assert!(!selection.advance());
                assert_eq!(selection.current(), Some(first.as_str()));
            } else {
                assert!(selection.advance());
                let current = selection.current().unwrap();
                assert!(current.ends_with(".png") || current.ends_with(".jpg"));
            }
        }
        assert_eq!(selection.current(), Some(first.as_str()));
    }
}

#[test]
fn kinds_follow_the_extension_without_regard_to_case() {
    assert_eq!(kind("photo.PNG"), Some(Kind::Image));
    assert_eq!(kind("/media/clip.Mkv"), Some(Kind::Video));
    assert_eq!(kind("notes.txt"), None);
    assert_eq!(kind("no-extension"), None);
    assert_eq!(kind(".png"), None);
    assert_eq!(kind("procedural:aurora"), Some(Kind::Procedural));
    assert_eq!(kind("procedural:unknown"), None);
}

#[test]
fn a_procedural_choice_plays_alone() {
    let pool: Vec<String> = vec!["a.png".into(), "procedural:matrix".into()];
    let mut selection = Selection::new(pool, 1);
    assert!(!selection.advance());
    assert_eq!(selection.current(), Some("procedural:matrix"));
}

#[test]
fn every_procedural_entry_round_trips() {
    for item in ITEMS {
        assert_eq!(id(&path(item)), Some(item));
    }
    assert_eq!(id("procedural:"), None);
    assert_eq!(id("starfield"), None);
}

#[test]
fn the_slideshow_shows_every_image_and_comes_back() {
    let pool: Vec<String> = ["a.png", "b.jpg", "v.mp4", "c.webp"]
        .into_iter()
        .map(Into::into)
        .collect();
    let mut s = Selection::new(pool, 1);
    let start = s.current().unwrap().to_owned();
    let mut seen = vec![start.clone()];
    for _ in 0..2 {
        assert!(s.advance());
        seen.push(s.current().unwrap().to_owned());
    }
    seen.sort();
    assert_eq!(seen, vec!["a.png", "b.jpg", "c.webp"]);
    assert!(s.advance());
    assert_eq!(s.current(), Some(start.as_str()));
}

#[test]
fn the_documented_procedural_ids_are_all_known() {
    for item in ["flow-field", "ridgeline"] {
        assert_eq!(id(&format!("procedural:{item}")), Some(item));
        assert_eq!(kind(&format!("procedural:{item}")), Some(Kind::Procedural));
    }
    assert_eq!(ITEMS.len(), 8);
}

#[test]
fn extensions_classify_without_regard_to_case() {
    use_kind_of_extension();
}

fn use_kind_of_extension() {
    let k = decklock::library::kind_of_extension;
    assert_eq!(k(Some("PNG".into())), Some(Kind::Image));
    assert_eq!(k(Some("jpeg".into())), Some(Kind::Image));
    assert_eq!(k(Some("Mov".into())), Some(Kind::Video));
    assert_eq!(k(Some("webmx".into())), None);
    assert_eq!(k(Some(String::new())), None);
    assert_eq!(k(None), None);
}

#[test]
fn the_chosen_image_is_found_as_a_path() {
    let pool: Vec<String> = vec!["x/./a.png".into(), "x/a.png".into(), "b.jpg".into()];
    let selection = Selection::new(pool, 1);
    assert_eq!(selection.current(), Some("x/./a.png"));
    let pool: Vec<String> = vec!["x//c.png".into(), "x/d.png".into(), "x/c.png/".into()];
    assert_eq!(Selection::new(pool, 2).current(), Some("x//c.png"));
}
