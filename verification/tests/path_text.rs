use organizer::path_text::{
    characters, decimal, extension, file_name, file_stem, is_hidden, join, numbered_name,
    path_extension,
};
use std::path::Path;

const PATHS: [&str; 40] = [
    "",
    "/",
    "//",
    ".",
    "..",
    "./",
    "../",
    "./.",
    "/.",
    "/..",
    "a",
    "a/",
    "a//",
    "a/.",
    "a/./",
    "a/..",
    "a/../",
    "a/b",
    "/a/b",
    "a//b",
    "a/./b",
    "./a",
    "../a",
    "foto.jpg",
    "tmp/foo.txt",
    "foo.txt/.",
    "foo.txt/.//",
    "foo.txt/..",
    "/usr/bin/",
    ".env",
    "dir/.env",
    ".a.b",
    "a.",
    "a..",
    "a.b.c",
    "...",
    "..a",
    "x/...",
    "Ação/relatório.PDF",
    "日本/写真.jpeg",
];

fn std_file_name(path: &str) -> Option<String> {
    Path::new(path).file_name().map(|t| t.to_string_lossy().into_owned())
}

fn std_extension(path: &str) -> Option<String> {
    Path::new(path).extension().map(|t| t.to_string_lossy().into_owned())
}

fn std_file_stem(path: &str) -> Option<String> {
    Path::new(path).file_stem().map(|t| t.to_string_lossy().into_owned())
}

#[test]
fn file_name_agrees_with_the_standard_library() {
    for path in PATHS {
        assert_eq!(file_name(path), std_file_name(path), "{path:?}");
    }
}

#[test]
fn path_extension_agrees_with_the_standard_library() {
    for path in PATHS {
        assert_eq!(path_extension(path), std_extension(path), "{path:?}");
    }
}

#[test]
fn stem_and_extension_agree_with_the_standard_library() {
    for path in PATHS {
        if let Some(name) = file_name(path) {
            let std_stem = std_file_stem(path).unwrap();
            assert_eq!(file_stem(&name), std_stem, "{path:?}");
            assert_eq!(extension(&name), std_extension(path), "{path:?}");
        }
    }
}

#[test]
fn join_agrees_with_the_standard_library() {
    let bases = ["", "/", "out", "out/", "/abs/dir", "a//", "."];
    let children = ["", "x", "x/y", "/x", "Imagens", ".env", "a b"];
    for base in bases {
        for child in children {
            let expected = Path::new(base).join(child).to_string_lossy().into_owned();
            assert_eq!(join(base, child), expected, "{base:?} {child:?}");
        }
    }
}

#[test]
fn file_name_of_named_cases() {
    assert_eq!(file_name("a/b/photo.JPG"), Some("photo.JPG".to_string()));
    assert_eq!(file_name("photo.JPG"), Some("photo.JPG".to_string()));
    assert_eq!(file_name("a/.."), None);
    assert_eq!(file_name(""), None);
    assert_eq!(file_name("dir/sub/"), Some("sub".to_string()));
}

#[test]
fn extension_of_named_cases() {
    assert_eq!(extension("photo.JPG"), Some("JPG".to_string()));
    assert_eq!(extension("backup.tar.gz"), Some("gz".to_string()));
    assert_eq!(extension(".env"), None);
    assert_eq!(extension("README"), None);
    assert_eq!(extension("a."), Some(String::new()));
    assert_eq!(extension(".."), None);
    assert_eq!(file_stem("backup.tar.gz"), "backup.tar");
    assert_eq!(file_stem(".env"), ".env");
    assert_eq!(file_stem("README"), "README");
    assert_eq!(file_stem(".."), "..");
}

#[test]
fn join_of_named_cases() {
    assert_eq!(join("out", "Imagens"), "out/Imagens");
    assert_eq!(join("out/", "Imagens"), "out/Imagens");
    assert_eq!(join("", "Imagens"), "Imagens");
    assert_eq!(join("out", "/abs"), "/abs");
    assert_eq!(join("out", ""), "out/");
}

#[test]
fn decimal_writes_base_ten() {
    assert_eq!(decimal(0), "0");
    assert_eq!(decimal(7), "7");
    assert_eq!(decimal(10), "10");
    assert_eq!(decimal(109), "109");
    assert_eq!(decimal(1234567890), "1234567890");
    assert_eq!(decimal(u64::MAX), "18446744073709551615");
    for n in 0..2000u64 {
        assert_eq!(decimal(n), n.to_string());
    }
}

#[test]
fn numbered_name_sets_the_counter_before_the_extension() {
    assert_eq!(numbered_name("foto.jpg", 1), "foto_1.jpg");
    assert_eq!(numbered_name("foto.jpg", 12), "foto_12.jpg");
    assert_eq!(numbered_name("backup.tar.gz", 3), "backup.tar_3.gz");
    assert_eq!(numbered_name("README", 2), "README_2");
    assert_eq!(numbered_name(".env", 1), ".env_1");
    assert_eq!(numbered_name("a.", 1), "a_1.");
    assert_eq!(numbered_name("relatório.PDF", 4), "relatório_4.PDF");
}

#[test]
fn numbered_names_differ_for_different_counters() {
    let mut seen = std::collections::BTreeSet::new();
    for k in 1..500u64 {
        assert!(seen.insert(numbered_name("nota.txt", k)));
    }
    assert!(!seen.contains("nota.txt"));
}

#[test]
fn hidden_names_begin_with_a_dot() {
    assert!(is_hidden(".env"));
    assert!(is_hidden("."));
    assert!(!is_hidden("env"));
    assert!(!is_hidden(""));
    assert!(!is_hidden("a.b"));
}

#[test]
fn characters_keeps_every_character() {
    assert_eq!(characters("aç/日.x"), vec!['a', 'ç', '/', '日', '.', 'x']);
    assert_eq!(characters(""), Vec::<char>::new());
}
