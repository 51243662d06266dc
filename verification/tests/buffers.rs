use std::path::Path;

use narabi::buffers::{select_buffers, short_name, BufferInfo, BufferRecord};
use narabi::path::file_name;

#[test]
fn short_name_extracts_filename() {
    assert_eq!(short_name("/home/user/project/src/main.rs"), "main.rs");
}

#[test]
fn short_name_relative_path() {
    assert_eq!(short_name("src/lib.rs"), "lib.rs");
}

#[test]
fn short_name_bare_filename() {
    assert_eq!(short_name("README.md"), "README.md");
}

#[test]
fn short_name_empty_returns_no_name() {
    assert_eq!(short_name(""), "[No Name]");
}

#[test]
fn short_name_trailing_slash() {
    // Path ending with separator has no file_name component.
    let result = short_name("/some/dir/");
    // On Unix, Path::file_name returns None for trailing slash.
    assert!(!result.is_empty());
}

#[test]
fn buffer_info_equality() {
    let a = BufferInfo {
        handle: 1,
        name: "main.rs".to_string(),
        full_path: "/src/main.rs".to_string(),
        modified: false,
        active: true,
    };
    let b = a.clone();
    assert_eq!(a, b);
}

/// The name the standard library gives a path, as the plugin shows it.
fn std_short_name(full: &str) -> String {
    if full.is_empty() {
        return "[No Name]".to_string();
    }
    Path::new(full)
        .file_name()
        .and_then(|n| n.to_str())
        .unwrap_or(full)
        .to_string()
}

const PATHS: [&str; 32] = [
    "",
    "/",
    "//",
    ".",
    "..",
    "./",
    "../",
    "a",
    "a/",
    "a//",
    "a/.",
    "a/./",
    "a/..",
    "a/../b",
    "/a/b/c.txt",
    "/some/dir/",
    "./src/lib.rs",
    "src/./lib.rs",
    "...",
    ".hidden",
    "dir/.hidden",
    "dir/..hidden",
    "dir/.../",
    "/.",
    "/..",
    "x/y/./.",
    "x/y/.././",
    "term://~//12345:/bin/bash",
    "ünïcödé/ファイル.rs",
    "a b/c d.txt",
    "[No Name]",
    "/tmp/[+]",
];

#[test]
fn short_name_agrees_with_std_path() {
    for p in PATHS {
        assert_eq!(short_name(p), std_short_name(p), "path {p:?}");
    }
}

#[test]
fn file_name_agrees_with_std_path() {
    for p in PATHS {
        let expected = Path::new(p).file_name().and_then(|n| n.to_str());
        assert_eq!(file_name(p), expected, "path {p:?}");
    }
}

#[test]
fn file_name_skips_trailing_separators_and_dots() {
    assert_eq!(file_name("/some/dir/"), Some("dir"));
    assert_eq!(file_name("a/./"), Some("a"));
    assert_eq!(file_name("a/.."), None);
    assert_eq!(file_name("/"), None);
    assert_eq!(file_name(""), None);
}

#[test]
fn short_name_keeps_names_without_a_file_name() {
    assert_eq!(short_name("/"), "/");
    assert_eq!(short_name("a/.."), "a/..");
    assert_eq!(short_name("."), ".");
}

#[test]
fn short_name_is_never_empty() {
    for p in PATHS {
        assert!(!short_name(p).is_empty(), "path {p:?}");
    }
}

#[test]
fn short_name_twice_is_short_name_once() {
    for p in PATHS {
        let once = short_name(p);
        assert_eq!(short_name(&once), once, "path {p:?}");
    }
}

#[test]
fn short_name_of_file_in_directory() {
    assert_eq!(short_name("/project/src/render.rs"), "render.rs");
    assert_eq!(short_name("/render.rs"), "render.rs");
    assert_eq!(short_name("render.rs"), "render.rs");
}

fn record(handle: i32, loaded: bool, listed: bool, buftype: &str, path: &str, modified: bool) -> BufferRecord {
    BufferRecord {
        handle,
        loaded,
        listed,
        buftype: buftype.to_string(),
        full_path: path.to_string(),
        modified,
    }
}

#[test]
fn select_buffers_keeps_loaded_listed_normal_buffers() {
    let records = vec![
        record(1, true, true, "", "/p/src/main.rs", false),
        record(2, false, true, "", "/p/src/unloaded.rs", false),
        record(3, true, false, "", "/p/src/unlisted.rs", false),
        record(4, true, true, "terminal", "term://bash", false),
        record(5, true, true, "", "", true),
        record(6, true, true, "help", "/doc/help.txt", false),
        record(7, true, true, "", "/p/Cargo.toml", true),
    ];
    let infos = select_buffers(&records, 7);
    let expected = vec![
        BufferInfo {
            handle: 1,
            name: "main.rs".to_string(),
            full_path: "/p/src/main.rs".to_string(),
            modified: false,
            active: false,
        },
        BufferInfo {
            handle: 5,
            name: "[No Name]".to_string(),
            full_path: String::new(),
            modified: true,
            active: false,
        },
        BufferInfo {
            handle: 7,
            name: "Cargo.toml".to_string(),
            full_path: "/p/Cargo.toml".to_string(),
            modified: true,
            active: true,
        },
    ];
    assert_eq!(infos, expected);
}

#[test]
fn select_buffers_of_nothing_is_empty() {
    assert!(select_buffers(&[], 1).is_empty());
}

#[test]
fn select_buffers_marks_only_the_current_buffer_active() {
    let records: Vec<BufferRecord> = (1..=5)
        .map(|h| record(h, true, true, "", &format!("/f{h}.rs"), false))
        .collect();
    let infos = select_buffers(&records, 3);
    assert_eq!(infos.len(), 5);
    let active: Vec<i32> = infos.iter().filter(|b| b.active).map(|b| b.handle).collect();
    assert_eq!(active, vec![3]);
    let none_active = select_buffers(&records, 42);
    assert!(none_active.iter().all(|b| !b.active));
}
