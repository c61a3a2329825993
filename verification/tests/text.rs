use muserv::ingest::{parse_tags, AudioProperties, TagFields};
use muserv::order::{insert_in_order, is_first};
use muserv::paths::{Component, FilePath};
use muserv::text::{
    contains_char, contains_text, copy_of, decimal_string, head_before, holds,
    signed_decimal_string, split_once, strip_prefix,
};
use std::path::{Component as Std, Path};

const PATHS: [&str; 24] = [
    "", "/", ".", "..", "a", "a/", "/a", "/a/", "a/b", "a//b", "a/./b", "./a", "a/.", "a/..",
    "../a", "/a/b/c.mp3", "//a", "a.b.c", ".hidden", ".hidden.flac", "x.", "/.", "/..", "./",
];

#[test]
fn decimal_numbers() {
    for n in [0u64, 7, 10, 99, 100, 1234567890, u64::MAX] {
        assert_eq!(decimal_string(n), n.to_string());
    }
    for n in [0i64, -1, 42, -10, i64::MAX, i64::MIN] {
        assert_eq!(signed_decimal_string(n), n.to_string());
    }
}

#[test]
fn parts_of_a_text() {
    assert_eq!(split_once("a:b:c", ':'), Some(("a".to_string(), "b:c".to_string())));
    assert_eq!(split_once("abc", ':'), None);
    assert_eq!(split_once(":", ':'), Some((String::new(), String::new())));
    assert_eq!(strip_prefix("Basic x", "Basic "), Some("x".to_string()));
    assert_eq!(strip_prefix("basic x", "Basic "), None);
    assert_eq!(strip_prefix("Bas", "Basic "), None);
    assert_eq!(head_before("3/12", '/'), "3");
    assert_eq!(head_before("3", '/'), "3");
    assert!(contains_text("a FOREIGN KEY b", "FOREIGN KEY"));
    assert!(!contains_text("FOREIGN", "FOREIGN KEY"));
    assert!(contains_text("x", ""));
    assert!(contains_text("", ""));
    assert!(contains_char("a/b", '/'));
    assert!(!contains_char("ab", '/'));
    let list = vec!["a".to_string(), "b".to_string()];
    assert!(holds(&list, "b"));
    assert!(!holds(&list, "c"));
    assert_eq!(copy_of(&list), list);
}

fn path(text: &str) -> FilePath {
    FilePath {
        components: Path::new(text)
            .components()
            .map(|component| match component {
                Std::Prefix(prefix) => Component::Prefix { text: format!("{:?}", prefix.kind()) },
                Std::RootDir => Component::RootDir,
                Std::CurDir => Component::CurDir,
                Std::ParentDir => Component::ParentDir,
                Std::Normal(name) => Component::Normal { name: name.to_str().unwrap().to_string() },
            })
            .collect(),
    }
}

#[test]
fn names_are_those_of_std() {
    for text in PATHS {
        let std = Path::new(text);
        let name = std.file_name().map(|s| s.to_str().unwrap().to_string());
        assert_eq!(path(text).file_name(), name, "{text:?}");
        let ext = std.extension().map(|s| s.to_str().unwrap().to_string());
        assert_eq!(path(text).extension(), ext, "{text:?}");
    }
}

#[test]
fn prefixes_and_parents_are_those_of_std() {
    for a in PATHS {
        for b in PATHS {
            assert_eq!(
                path(a).starts_with(&path(b)),
                Path::new(a).starts_with(b),
                "{a:?} {b:?}"
            );
            assert_eq!(
                path(a).is_in(&path(b)),
                Path::new(a).parent() == Some(Path::new(b)),
                "{a:?} {b:?}"
            );
        }
    }
}

#[test]
fn a_name_is_joined_as_in_std() {
    for text in PATHS {
        let joined = path(text).join(".storage");
        let std = Path::new(text).join(".storage");
        let expected = path(std.to_str().unwrap());
        assert!(joined.starts_with(&expected) && expected.starts_with(&joined), "{text:?}");
        assert!(joined.is_in(&path(text)), "{text:?}");
    }
}

#[test]
fn paths_of_another_machine() {
    let music = |drive: &str, names: &[&str]| {
        let mut components = vec![
            Component::Prefix { text: drive.to_string() },
            Component::RootDir,
        ];
        for name in names {
            components.push(Component::Normal { name: name.to_string() });
        }
        FilePath { components }
    };
    let root = music("C", &["Music"]);
    let stored = music("C", &["Music", ".storage", "ab", "x.mp3"]);
    assert!(stored.starts_with(&root.join(".storage")));
    assert!(!music("D", &["Music", "x.mp3"]).starts_with(&root));
    assert!(music("C", &["Music", "x.mp3"]).is_in(&root));
    assert!(!music("C", &[]).is_in(&FilePath { components: vec![Component::Prefix { text: "C".to_string() }] }));
    assert_eq!(stored.extension().as_deref(), Some("mp3"));
    assert_eq!(music("C", &[]).file_name(), None);
}

#[test]
fn order_is_that_of_std() {
    let words = ["", "a", "ab", "b", "B", "é", "z", "\u{10000}", "\u{ffff}", "a.b", "a-b"];
    for a in words {
        for b in words {
            assert_eq!(is_first(a, b), a <= b, "{a:?} {b:?}");
        }
    }
    let mut list: Vec<String> = Vec::new();
    for word in words {
        insert_in_order(&mut list, word.to_string());
    }
    let mut expected: Vec<String> = words.iter().map(|w| w.to_string()).collect();
    expected.sort();
    assert_eq!(list, expected);
}

fn track_no(text: &str) -> Option<i64> {
    let tag = TagFields {
        title: None,
        album: None,
        artist: None,
        album_artist: None,
        track_number: Some(text.to_string()),
        disc_number: None,
        year: None,
        recording_date: None,
    };
    let props = AudioProperties {
        duration_ms: 0,
        bitrate: None,
        sample_rate: None,
        channels: None,
    };
    parse_tags(&props, Some(tag), None).track_no
}

#[test]
fn white_space_is_trimmed_as_in_std() {
    for c in '\0'..=char::MAX {
        let text = format!("{c}7{c}");
        let head = text.split('/').next().unwrap();
        assert_eq!(track_no(&text), head.trim().parse::<i64>().ok(), "{c:?}");
        if c.is_whitespace() {
            assert_eq!(track_no(&text), Some(7), "{c:?}");
        }
    }
}

#[test]
fn numbers_are_parsed_as_in_std() {
    for text in [
        "", "+", "-", "0", "007", "+12", "-12", "--1", "1 2", "1a", "9223372036854775807",
        "9223372036854775808", "-9223372036854775808", "-9223372036854775809", "٣",
    ] {
        assert_eq!(track_no(text), text.trim().parse::<i64>().ok(), "{text:?}");
    }
}
