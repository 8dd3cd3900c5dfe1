use loc_analysis::bytes::split_on_of;
use loc_analysis::directive::{guess_language, line_language};
use loc_analysis::lang::{get_language_for_file, get_language_with_mode, LANG};
use loc_analysis::loader::{eol_buffer, normalize_buffer};
use loc_analysis::paths::{get_paths_dist, guess_file, import_target_of, normalize_path, parse_path, PathPart};

fn parts(s: &str) -> Vec<PathPart> {
    let mut v = Vec::new();
    if s.starts_with('/') {
        v.push(PathPart::RootDir);
    }
    for (i, c) in s.split('/').enumerate() {
        match c {
            "" => {}
            "." => {
                if i == 0 {
                    v.push(PathPart::CurDir)
                }
            }
            ".." => v.push(PathPart::ParentDir),
            n => v.push(PathPart::Normal(n.as_bytes().to_vec())),
        }
    }
    v
}

fn render(p: &[PathPart]) -> String {
    let mut s = String::new();
    for (i, c) in p.iter().enumerate() {
        match c {
            PathPart::RootDir => s.push('/'),
            PathPart::CurDir => s.push('.'),
            PathPart::ParentDir => s.push_str(".."),
            PathPart::Normal(n) => s.push_str(std::str::from_utf8(n).unwrap()),
        }
        let root = matches!(c, PathPart::RootDir);
        if i + 1 < p.len() && !root {
            s.push('/');
        }
    }
    s
}

#[test]
fn test_read() {
    let data = vec![
        (b"\xFF\xFEabc".to_vec(), b"abc\n".to_vec()),
        (b"\xFE\xFFabc".to_vec(), b"abc\n".to_vec()),
        (b"\xFE\xFF".to_vec(), b"\n".to_vec()),
        (b"\xFE".to_vec(), b"\xFE\n".to_vec()),
        (b"\xEF\xBB\xBFabc".to_vec(), b"abc\n".to_vec()),
        (b"\xEF\xBB\xBFabc\n".to_vec(), b"abc\n".to_vec()),
        (b"\xEF\xBBabc\n".to_vec(), b"\xEF\xBBabc\n".to_vec()),
        (b"abcdef\n".to_vec(), b"abcdef\n".to_vec()),
        (b"abcdef".to_vec(), b"abcdef\n".to_vec()),
        (b"ab".to_vec(), b"ab\n".to_vec()),
    ];
    for (d, expected) in data {
        let res = normalize_buffer(&d);
        assert!(res == expected);
    }
}

#[test]
fn test_guess_language() {
    let buf = b"// -*- foo: bar; mode: c++; hello: world\n";
    assert_eq!(guess_language(buf), Some(LANG::Cpp));

    let buf = b"// -*- c++ -*-\n";
    assert_eq!(guess_language(buf), Some(LANG::Cpp));

    let buf = b"// -*- foo: bar; bar-mode: c++; hello: world\n";
    assert_eq!(guess_language(buf), None);

    let buf = b"/* hello world */\n";
    assert_eq!(guess_language(buf), None);

    let buf = b"\n\n\n\n\n\n\n\n\n// vim: set ts=4 ft=c++\n\n\n";
    assert_eq!(guess_language(buf), Some(LANG::Cpp));

    let buf = b"\n\n\n\n\n\n\n\n\n\n\n\n";
    assert_eq!(guess_language(buf), None);
}

#[test]
fn empty_file_becomes_one_newline() {
    assert_eq!(normalize_buffer(b""), b"\n".to_vec());
}

#[test]
fn peeked_head_and_rest_are_joined() {
    assert_eq!(eol_buffer(b"\xFF\xFE", b"xy"), b"xy\n".to_vec());
    assert_eq!(eol_buffer(b"\xEF\xBB\xBF", b""), b"\n".to_vec());
    assert_eq!(eol_buffer(b"a", b"b\n"), b"ab\n".to_vec());
}

#[test]
fn directive_in_first_lines_wins_over_last() {
    let buf = b"# -*- mode: python -*-\n\n\n\n\n// vim: ft=rust\n";
    assert_eq!(guess_language(buf), Some(LANG::Python));
}

#[test]
fn directive_after_fourth_line_is_not_seen_at_the_head() {
    let buf = b"\n\n\n\n// -*- rust -*-\n\n\n\n\n\n";
    assert_eq!(guess_language(buf), None);
}

#[test]
fn unknown_mode_name_gives_none() {
    assert_eq!(guess_language(b"// -*- mode: cobol -*-\n"), None);
}

#[test]
fn vim_modeline_is_case_insensitive() {
    assert_eq!(guess_language(b"# VIM: set FT=Python\n"), Some(LANG::Python));
}

#[test]
fn first_form_that_matches_decides() {
    let long = Some(b"RUST".to_vec());
    let short = Some(b"c++".to_vec());
    assert_eq!(line_language(&long, &short, &None), Some(Some(LANG::Rust)));
    assert_eq!(line_language(&None, &short, &None), Some(Some(LANG::Cpp)));
    assert_eq!(line_language(&None, &None, &Some(b"nope".to_vec())), Some(None));
    assert_eq!(line_language(&None, &None, &None), None);
}

#[test]
fn lines_are_split_at_each_newline() {
    let ls = split_on_of(b"a\n\nbc\n", b'\n');
    assert_eq!(ls, vec![b"a".to_vec(), b"".to_vec(), b"bc".to_vec(), b"".to_vec()]);
}

#[test]
fn mode_names_ignore_case() {
    assert_eq!(get_language_with_mode(b"C++"), Some(LANG::Cpp));
    assert_eq!(get_language_with_mode(b"Python"), Some(LANG::Python));
    assert_eq!(get_language_with_mode(b"\xFF"), None);
    assert_eq!(get_language_with_mode(b""), None);
}

#[test]
fn language_from_extension() {
    assert_eq!(get_language_for_file(&parts("src/main.RS")), Some(LANG::Rust));
    assert_eq!(get_language_for_file(&parts("/a/b/foo.tar.cpp")), Some(LANG::Cpp));
    assert_eq!(get_language_for_file(&parts("a/.py")), None);
    assert_eq!(get_language_for_file(&parts("a/Makefile")), None);
    assert_eq!(get_language_for_file(&parts("a/x.unknown")), None);
    assert_eq!(get_language_for_file(&parts("/")), None);
}

#[test]
fn normalize_removes_dots() {
    let r = normalize_path(&parts("a/./b/../c")).unwrap();
    assert_eq!(render(&r), "a/c");
    let r = normalize_path(&parts("/../x")).unwrap();
    assert_eq!(render(&r), "/x");
    let r = normalize_path(&parts("../x")).unwrap();
    assert_eq!(render(&r), "x");
}

#[test]
fn distance_through_common_ancestor() {
    assert_eq!(get_paths_dist(&parts("a/b/c.h"), &parts("a/d/e.h")), Some(4));
    assert_eq!(get_paths_dist(&parts("a/b"), &parts("a/b")), Some(0));
    assert_eq!(get_paths_dist(&parts("x/y"), &parts("a/b")), None);
    assert_eq!(get_paths_dist(&parts("/x/y"), &parts("/a/b")), Some(4));
}

fn table(entries: &[(&str, &[&str])]) -> Vec<(Vec<u8>, Vec<Vec<PathPart>>)> {
    entries
        .iter()
        .map(|(k, ps)| (k.as_bytes().to_vec(), ps.iter().map(|p| parts(p)).collect()))
        .collect()
}

fn rendered(ps: &[Vec<PathPart>]) -> Vec<String> {
    ps.iter().map(|p| render(p)).collect()
}

#[test]
fn guess_single_file_of_that_name() {
    let t = table(&[("Bar.h", &["x/y/Bar.h"]), ("Foo.h", &["a/Foo.h", "b/Foo.h"])]);
    let r = guess_file(&parts("q/main.cpp"), b"Bar.h", &t);
    assert_eq!(rendered(&r), vec!["x/y/Bar.h"]);
}

#[test]
fn guess_by_ending() {
    let t = table(&[("Foo.h", &["a/foo/Foo.h", "b/Foo.h"])]);
    let r = guess_file(&parts("q/main.cpp"), b"mozilla/foo/Foo.h", &t);
    assert_eq!(rendered(&r), vec!["a/foo/Foo.h"]);
}

#[test]
fn guess_in_current_directory() {
    let t = table(&[("Foo.h", &["a/b/Foo.h", "c/Foo.h"])]);
    let r = guess_file(&parts("a/main.cpp"), b"Foo.h", &t);
    assert_eq!(rendered(&r), vec!["a/b/Foo.h"]);
}

#[test]
fn guess_nearest_keeps_ties() {
    let t = table(&[("Foo.h", &["r/s/x/Foo.h", "r/s/y/Foo.h", "r/t/u/v/Foo.h", "z/Foo.h"])]);
    let r = guess_file(&parts("r/s/w/main.cpp"), b"Foo.h", &t);
    assert_eq!(rendered(&r), vec!["r/s/x/Foo.h", "r/s/y/Foo.h"]);
}

#[test]
fn guess_unknown_name_gives_nothing() {
    let t = table(&[("Foo.h", &["a/Foo.h"])]);
    assert!(guess_file(&parts("a/main.cpp"), b"Baz.h", &t).is_empty());
}

#[test]
fn import_target_is_normalised() {
    assert_eq!(render(&import_target_of(b"mozilla/a/../b/./C.h")), "b/C.h");
    assert_eq!(render(&import_target_of(b"x//y.h")), "x/y.h");
}

#[test]
fn parse_keeps_leading_dot_only() {
    assert_eq!(render(&parse_path(b"./a/./b/../c")), "./a/b/../c");
    assert_eq!(render(&parse_path(b"/a")), "/a");
}
