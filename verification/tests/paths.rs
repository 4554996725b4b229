use decklock::paths::ordered_paths;
use std::path::PathBuf;

/// What `sort` then `dedup` does to the same paths.
fn reference(paths: &[&str]) -> Vec<String> {
    let mut v: Vec<PathBuf> = paths.iter().map(PathBuf::from).collect();
    v.sort();
    v.dedup();
    v.into_iter()
        .map(|p| p.to_string_lossy().into_owned())
        .collect()
}

fn ordered(paths: &[&str]) -> Vec<String> {
    ordered_paths(paths.iter().map(|p| p.to_string()).collect())
}

#[test]
fn paths_sort_by_component_like_std() {
    for case in [
        vec!["/a-c", "/a/b", "/a", "/a.b", "/a/b/c"],
        vec!["b.png", "a.png", "A.png", "ä.png", "z/a.png"],
        vec!["./x", "x", "../x", "/x", "..", ".", ""],
        vec!["procedural:starfield", "/usr/share/decklock/media/a.jpg", "procedural:aurora"],
        vec!["a b/c", "a/b c", "a\tb", "a/b/"],
    ] {
        assert_eq!(ordered(&case), reference(&case), "{case:?}");
    }
}

#[test]
fn repeated_paths_keep_their_first_spelling() {
    let case = ["/m/a.png", "/m//a.png", "/m/./a.png", "/m/a.png/", "/m/b.png", "/m/a.png"];
    assert_eq!(ordered(&case), reference(&case));
    assert_eq!(ordered(&case), vec!["/m/a.png".to_string(), "/m/b.png".into()]);
    let case = ["x/./y", "x/y"];
    assert_eq!(ordered(&case), vec!["x/./y".to_string()]);
    assert_eq!(ordered(&case), reference(&case));
    assert!(ordered(&[]).is_empty());
}

#[test]
fn path_equality_follows_std() {
    let samples = [
        "", ".", "./", "..", "/", "//", "/.", "a", "a/", "a/.", "./a", "a//b", "a/./b", "a/b",
        "a/b/", "/a/b", "//a/b", "a/../b", "../a", ".a", "a.", "a/..",
    ];
    for a in samples {
        for b in samples {
            assert_eq!(
                decklock::paths::same_path_as(a, b),
                std::path::Path::new(a) == std::path::Path::new(b),
                "{a:?} {b:?}"
            );
        }
    }
    let mut all: Vec<&str> = samples.to_vec();
    all.reverse();
    assert_eq!(ordered(&all), reference(&all));
}
