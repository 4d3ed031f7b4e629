use claurst::path::prefix::System;
use claurst::path::{ancestors, child, extension, file_name, strip_prefix};
use claurst::text::{
    append_decimal, cap_chars, contains_text, ends_with, is_whitespace, join_text, replace_char,
    same_text, split_lines, starts_with, strip_end, to_ascii_lower, trim, trim_end,
    trim_trailing, truncate_chars,
};
use std::path::Path;

const TEXTS: [&str; 18] = [
    "",
    " ",
    "a",
    " a b ",
    "\u{2003}x\u{85}",
    "a\n",
    "a\r\nb\r",
    "\n\n",
    "\r\n\r\nx",
    "\u{1f600}\n\u{e9}\r\n",
    "NO_REVIEW",
    "caf\u{c9} ABC xyz",
    "a/b\\c",
    "///",
    "a//",
    "x\u{200b}",
    "\u{feff} y",
    "\t\u{3000}z\u{202f}",
];

#[test]
fn whitespace_is_that_of_unicode() {
    for code in 0..=0x10ffff {
        if let Some(c) = char::from_u32(code) {
            assert_eq!(is_whitespace(c), c.is_whitespace(), "{:x}", code);
        }
    }
}

#[test]
fn texts_are_cut_as_the_standard_library_cuts() {
    for text in TEXTS {
        assert_eq!(trim(text), text.trim());
        assert_eq!(trim_end(text), text.trim_end());
        assert_eq!(trim_trailing(text, '/'), text.trim_end_matches('/'));
        assert_eq!(split_lines(text), text.lines().collect::<Vec<_>>());
        assert_eq!(to_ascii_lower(text), text.to_ascii_lowercase());
        assert_eq!(replace_char(text, '\\', '/'), text.replace('\\', "/"));
        for n in 0..5 {
            assert_eq!(truncate_chars(text, n), text.chars().take(n).collect::<String>());
        }
        for other in TEXTS {
            assert_eq!(same_text(text, other), text == other);
            assert_eq!(starts_with(text, other), text.starts_with(other));
            assert_eq!(ends_with(text, other), text.ends_with(other));
            assert_eq!(contains_text(text, other), text.contains(other));
            assert_eq!(strip_end(text, other), text.strip_suffix(other));
        }
    }
    assert_eq!(join_text(&TEXTS, ", "), TEXTS.join(", "));
    assert_eq!(join_text(&[], ", "), "");
}

#[test]
fn numbers_are_written_in_decimal() {
    for n in [0, 7, 9, 10, 42, 100, 12345, usize::MAX] {
        let mut text = "n=".to_string();
        append_decimal(&mut text, n);
        assert_eq!(text, format!("n={}", n));
    }
}

#[test]
fn long_texts_are_capped() {
    assert_eq!(cap_chars("\u{e9}\u{e9}\u{e9}".to_string(), 2, "!"), "\u{e9}\u{e9}!");
    assert_eq!(cap_chars("abc".to_string(), 3, "!"), "abc");
    assert_eq!(cap_chars("abc".to_string(), 0, "!"), "!");
}

const PATHS: [&str; 30] = [
    "",
    "/",
    "//",
    ".",
    "./",
    "..",
    "../",
    "/.",
    "/..",
    "a",
    "a/",
    "/a",
    "/a/",
    "/repo",
    "/repo/",
    "/repo//src/./main.rs",
    "/repo/src/main.rs",
    "/repo/src/",
    "/repo/src/.",
    "/repo2/x.rs",
    "repo/x.tar.gz",
    "./repo/x.",
    "./repo",
    "/repo/.hidden",
    "/repo/.hidden.rs",
    "/repo/a..b",
    "/repo/...",
    "a/./b/../c.",
    "//repo/src",
    "a\\b.rs",
];

#[test]
fn paths_are_read_as_the_system_reads_them() {
    for path in PATHS {
        let real = Path::new(path);
        assert_eq!(file_name(path, System::Unix), real.file_name().map(|n| n.to_str().unwrap()), "{}", path);
        assert_eq!(extension(path, System::Unix), real.extension().map(|e| e.to_str().unwrap()), "{}", path);
        assert_eq!(child(path, "server", System::Unix), real.join("server").to_str().unwrap());
        let above: Vec<&str> = real.ancestors().map(|p| p.to_str().unwrap()).collect();
        assert_eq!(ancestors(path, System::Unix), above, "{}", path);
        for base in PATHS {
            assert_eq!(
                strip_prefix(path, base, System::Unix),
                real.strip_prefix(base).ok().map(|p| p.to_str().unwrap()),
                "{} in {}",
                path,
                base
            );
        }
    }
}

#[test]
fn file_in_a_directory() {
    for base in ["/", "/r", "/r/", "r", ".", "/r//x/."] {
        let path = if base.ends_with('/') {
            format!("{}src/main.rs", base)
        } else {
            format!("{}/src/main.rs", base)
        };
        assert_eq!(strip_prefix(&path, base, System::Unix), Some("src/main.rs"));
        assert_eq!(file_name(&path, System::Unix), Some("main.rs"));
        assert_eq!(extension(&path, System::Unix), Some("rs"));
    }
    for base in ["C:\\", "C:\\r", "c:/r/", "\\\\host\\share\\", "\\\\host\\share\\r", "r", "\\", "C:r"] {
        let path = if base.ends_with(['/', '\\']) {
            format!("{}src\\main.rs", base)
        } else {
            format!("{}\\src\\main.rs", base)
        };
        assert_eq!(strip_prefix(&path, base, System::Windows), Some("src\\main.rs"), "{}", base);
        assert_eq!(file_name(&path, System::Windows), Some("main.rs"));
    }
}

#[test]
fn windows_paths_have_prefixes() {
    let above = |path: &str| ancestors(path, System::Windows);
    assert_eq!(above("C:\\a"), vec!["C:\\a", "C:\\"]);
    assert_eq!(above("c:a/b"), vec!["c:a/b", "c:a", "c:"]);
    assert_eq!(above("C:.\\a"), vec!["C:.\\a", "C:."]);
    assert_eq!(above(".\\a"), vec![".\\a", ".", ""]);
    assert_eq!(above("\\a"), vec!["\\a", "\\"]);
    assert_eq!(above("\\\\server"), vec!["\\\\server", "\\"]);
    assert_eq!(above("\\\\server\\share"), vec!["\\\\server\\share"]);
    assert_eq!(
        above("//server/share/a"),
        vec!["//server/share/a", "//server/share/"]
    );
    assert_eq!(above("\\\\.\\foo/bar"), vec!["\\\\.\\foo/bar", "\\\\.\\foo/"]);
    assert_eq!(above("\\\\?\\a\\b\\"), vec!["\\\\?\\a\\b\\", "\\\\?\\a\\"]);
    assert_eq!(
        above("\\\\?\\C:/foo/bar"),
        vec!["\\\\?\\C:/foo/bar", "\\\\?\\C:/"]
    );
    assert_eq!(above("\\\\?\\C:foo/bar"), vec!["\\\\?\\C:foo/bar"]);
    assert_eq!(
        above("\\\\?\\UNC\\server\\share\\f.txt"),
        vec!["\\\\?\\UNC\\server\\share\\f.txt", "\\\\?\\UNC\\server\\share\\"]
    );
    assert_eq!(above("\\\\?\\UNC\\server"), vec!["\\\\?\\UNC\\server"]);
    assert_eq!(above(""), vec![""]);

    let name = |path: &'static str| file_name(path, System::Windows);
    assert_eq!(name("C:\\a\\b.txt"), Some("b.txt"));
    assert_eq!(name("c:foo.txt"), Some("foo.txt"));
    assert_eq!(name("C:"), None);
    assert_eq!(name("C:."), None);
    assert_eq!(name("C:\\.."), None);
    assert_eq!(name("\\\\server\\share"), None);
    assert_eq!(name("\\\\?\\C:\\foo/bar"), Some("foo/bar"));
    assert_eq!(name("\\\\?\\C:\\a\\."), None);
    assert_eq!(name("C:\\a\\."), Some("a"));
    assert_eq!(extension("C:\\a.b\\c", System::Windows), None);
    assert_eq!(extension("C:\\a.b\\c.rs", System::Windows), Some("rs"));
}

#[test]
fn windows_prefixes_are_stripped() {
    let rest = |path: &'static str, base: &str| strip_prefix(path, base, System::Windows);
    assert_eq!(rest("C:\\a", "c:"), Some("\\a"));
    assert_eq!(rest("c:a", "C:"), Some("a"));
    assert_eq!(rest("C:.\\a", "C:"), Some(".\\a"));
    assert_eq!(rest("C:\\a\\", "C:/"), Some("a"));
    assert_eq!(rest("C:\\a", "C:\\a\\"), Some(""));
    assert_eq!(rest("C:\\a", "\\a"), None);
    assert_eq!(rest("C:\\a", "C:a"), None);
    assert_eq!(rest("C:\\a", ""), Some("C:\\a"));
    assert_eq!(rest("\\\\s\\h\\a", "\\\\s\\h"), Some("a"));
    assert_eq!(rest("\\\\s\\h\\a", "\\\\S\\h"), None);
    assert_eq!(rest("\\\\?\\foo\\a", "\\\\?\\foo"), Some("\\a"));
    assert_eq!(rest("\\\\?\\c:\\a", "\\\\?\\C:\\"), Some("a"));
    assert_eq!(rest("\\\\?\\C:\\a", "C:\\"), None);
}

#[test]
fn windows_directories_have_children() {
    let inner = |dir: &str| child(dir, "n", System::Windows);
    assert_eq!(inner(""), "n");
    assert_eq!(inner("C:"), "C:n");
    assert_eq!(inner("C:\\"), "C:\\n");
    assert_eq!(inner("C:\\a"), "C:\\a\\n");
    assert_eq!(inner("C:/a/"), "C:/a/n");
    assert_eq!(inner("C:."), "C:.\\n");
    assert_eq!(inner("\\\\s\\h"), "\\\\s\\h\\n");
    assert_eq!(inner("\\\\?\\C:"), "\\\\?\\C:\\n");
    assert_eq!(inner("\\\\?\\C:/a\\\\b\\"), "\\\\?\\C:\\a\\b\\n");
    assert_eq!(inner("\\\\?\\foo"), "\\\\?\\foo\\n");
}
