use puppy_find::order::{stable_order, SortKey};
use puppy_find::paths::{
    join_path, normalize_path_lexically, parent_path, path_extension, path_lineage, path_parts,
    path_to_string, parts_before, resolve_path, resolved_path_key, same_path, strip_base,
};
use puppy_find::search::ScoreKey;
use std::path::{Path, PathBuf};

fn chars(s: &str) -> Vec<char> {
    s.chars().collect()
}

fn before(a: &str, b: &str) -> bool {
    parts_before(&path_parts(&chars(a)), &path_parts(&chars(b)))
}

const SAMPLES: [&str; 24] = [
    "", ".", "..", "/", "a", "./a", "a/", "a//b", "a/./b", "a/../b", "/a", "/a/b", "/a/b/", "/..",
    "../..", "a/..", "/a/./b/../c", ".a", "a.b", "a.b.", "..a", "a/.b.c", "./", "/a/.",
];

#[test]
fn paths_are_normalized() {
    assert_eq!(normalize_path_lexically("/a/./b//../c/"), "/a/c");
    assert_eq!(normalize_path_lexically("../a"), "../a");
    assert_eq!(normalize_path_lexically("../../a"), "a");
    assert_eq!(normalize_path_lexically("/.."), "/..");
    assert_eq!(normalize_path_lexically("a/.."), "");
}

#[test]
fn normal_paths_stay_as_they_are() {
    for s in SAMPLES {
        let once = normalize_path_lexically(s);
        assert_eq!(normalize_path_lexically(&once), once);
        let resolved = resolve_path("/w/x", s);
        assert!(resolved.starts_with('/'));
        assert_eq!(resolve_path("/w/x", &resolved), resolved);
    }
}

#[test]
fn a_leading_dot_is_ignored() {
    for s in SAMPLES {
        if !s.starts_with('/') {
            assert_eq!(resolve_path("/w", &format!("./{s}")), resolve_path("/w", s));
        }
    }
}

#[test]
fn joining_agrees_with_std() {
    for base in SAMPLES {
        for tail in SAMPLES {
            let expected = Path::new(base).join(tail);
            assert_eq!(join_path(base, tail), expected.to_string_lossy());
        }
    }
}

#[test]
fn extensions_agree_with_std() {
    for s in SAMPLES {
        let expected: Option<Vec<char>> =
            Path::new(s).extension().map(|e| e.to_string_lossy().chars().collect());
        assert_eq!(path_extension(s), expected, "{s}");
    }
}

#[test]
fn parents_agree_with_std() {
    let more = ["/a//b/c", "/a/./b", "//a", "/a//", "./a/b", "a/b/../c", "/a/b/.", "a/./", "./."];
    for s in SAMPLES.iter().chain(more.iter()) {
        let expected: Option<String> =
            Path::new(s).parent().map(|p| p.to_string_lossy().into_owned());
        assert_eq!(parent_path(s), expected, "{s}");
    }
}

#[test]
fn order_and_equality_agree_with_std() {
    for a in SAMPLES {
        for b in SAMPLES {
            assert_eq!(before(a, b), Path::new(a) < Path::new(b), "{a} {b}");
            assert_eq!(same_path(a, b), Path::new(a) == Path::new(b), "{a} {b}");
        }
    }
    assert!(before("/a/b", "/a.b"));
}

#[test]
fn prefixes_agree_with_std() {
    for base in SAMPLES {
        for s in SAMPLES {
            let expected = Path::new(s)
                .strip_prefix(base)
                .ok()
                .map(|p| p.to_string_lossy().into_owned());
            assert_eq!(strip_base(base, s), expected, "{base} {s}");
        }
    }
}

#[test]
fn lineage_goes_up_to_the_root() {
    assert_eq!(
        path_lineage("/a/./b/c"),
        vec!["/a/b/c".to_owned(), "/a/b".to_owned(), "/a".to_owned(), "/".to_owned()]
    );
    assert_eq!(path_lineage("/a/b")[1], PathBuf::from("/a/b").parent().unwrap().to_string_lossy());
}

#[test]
fn keys_use_slashes() {
    assert_eq!(path_to_string("a\\b/c"), "a/b/c");
    assert_eq!(resolved_path_key("/w", "./a\\b"), "/w/a/b");
}

#[test]
fn sorting_is_stable_and_total() {
    let bits = [3u32, 1, 0x8000_0000, 3, 0, 0x8000_0001, 7];
    let keys: Vec<ScoreKey> = bits.iter().map(|b| ScoreKey { bits: *b }).collect();
    assert_eq!(stable_order(&keys), vec![6, 0, 3, 1, 4, 2, 5]);
    assert!(keys[6].is_before(&keys[0]));
    let none: Vec<ScoreKey> = Vec::new();
    assert!(stable_order(&none).is_empty());
}
