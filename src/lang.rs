//! The supported languages and the tables that name them.
use vstd::prelude::*;

use crate::bytes::{ascii_lower, is_word, to_ascii_lower, DOT};
use crate::paths::{parts_view, PartView, PathPart};
use vstd::string::StringSliceAdditionalSpecFns;

verus! {

/// The closed set of languages the analyzer knows about.
#[allow(non_camel_case_types)]
#[derive(Clone, Copy, Debug, PartialEq, Eq, Structural)]
pub enum LANG {
    Mozjs,
    Javascript,
    Java,
    Rust,
    Cpp,
    Python,
    Tsx,
    Typescript,
    Ccomment,
    Preproc,
    CSharp,
    Go,
    Css,
    Html,
}

/// The language of a lower-case file extension.
pub open spec fn ext_language(e: Seq<u8>) -> Option<LANG> {
    if e == "js".spec_bytes() || e == "jsm".spec_bytes() || e == "mjs".spec_bytes()
        || e == "jsx".spec_bytes() {
        Some(LANG::Mozjs)
    } else if e == "java".spec_bytes() {
        Some(LANG::Java)
    } else if e == "rs".spec_bytes() {
        Some(LANG::Rust)
    } else if e == "cpp".spec_bytes() || e == "cxx".spec_bytes() || e == "cc".spec_bytes()
        || e == "hxx".spec_bytes() || e == "hpp".spec_bytes() || e == "c".spec_bytes()
        || e == "h".spec_bytes() || e == "hh".spec_bytes() || e == "inc".spec_bytes()
        || e == "mm".spec_bytes() || e == "m".spec_bytes() {
        Some(LANG::Cpp)
    } else if e == "py".spec_bytes() {
        Some(LANG::Python)
    } else if e == "tsx".spec_bytes() {
        Some(LANG::Tsx)
    } else if e == "ts".spec_bytes() || e == "jsw".spec_bytes() || e == "jsmw".spec_bytes() {
        Some(LANG::Typescript)
    } else if e == "cs".spec_bytes() {
        Some(LANG::CSharp)
    } else if e == "go".spec_bytes() {
        Some(LANG::Go)
    } else if e == "css".spec_bytes() {
        Some(LANG::Css)
    } else if e == "html".spec_bytes() || e == "htm".spec_bytes() {
        Some(LANG::Html)
    } else {
        None
    }
}

/// The language of a lower-case Emacs or Vim mode name.
pub open spec fn mode_language(m: Seq<u8>) -> Option<LANG> {
    if m == "js".spec_bytes() || m == "js2".spec_bytes() || m == "javascript".spec_bytes() {
        Some(LANG::Mozjs)
    } else if m == "java".spec_bytes() {
        Some(LANG::Java)
    } else if m == "rust".spec_bytes() {
        Some(LANG::Rust)
    } else if m == "c++".spec_bytes() || m == "c".spec_bytes() || m == "cpp".spec_bytes()
        || m == "objc".spec_bytes() || m == "objc++".spec_bytes()
        || m == "objective-c".spec_bytes() || m == "objective-c++".spec_bytes() {
        Some(LANG::Cpp)
    } else if m == "python".spec_bytes() {
        Some(LANG::Python)
    } else if m == "typescript".spec_bytes() {
        Some(LANG::Typescript)
    } else if m == "csharp".spec_bytes() {
        Some(LANG::CSharp)
    } else if m == "go".spec_bytes() {
        Some(LANG::Go)
    } else if m == "css".spec_bytes() {
        Some(LANG::Css)
    } else if m == "html".spec_bytes() {
        Some(LANG::Html)
    } else {
        None
    }
}

/// Looks up a lower-case file extension.
pub fn get_from_ext(e: &[u8]) -> (r: Option<LANG>)
    ensures
        r == ext_language(e@),
{
    if is_word(e, "js") || is_word(e, "jsm") || is_word(e, "mjs") || is_word(e, "jsx") {
        Some(LANG::Mozjs)
    } else if is_word(e, "java") {
        Some(LANG::Java)
    } else if is_word(e, "rs") {
        Some(LANG::Rust)
    } else if is_word(e, "cpp") || is_word(e, "cxx") || is_word(e, "cc") || is_word(e, "hxx")
        || is_word(e, "hpp") || is_word(e, "c") || is_word(e, "h") || is_word(e, "hh")
        || is_word(e, "inc") || is_word(e, "mm") || is_word(e, "m") {
        Some(LANG::Cpp)
    } else if is_word(e, "py") {
        Some(LANG::Python)
    } else if is_word(e, "tsx") {
        Some(LANG::Tsx)
    } else if is_word(e, "ts") || is_word(e, "jsw") || is_word(e, "jsmw") {
        Some(LANG::Typescript)
    } else if is_word(e, "cs") {
        Some(LANG::CSharp)
    } else if is_word(e, "go") {
        Some(LANG::Go)
    } else if is_word(e, "css") {
        Some(LANG::Css)
    } else if is_word(e, "html") || is_word(e, "htm") {
        Some(LANG::Html)
    } else {
        None
    }
}

/// Looks up a lower-case Emacs or Vim mode name.
pub fn get_from_emacs_mode(m: &[u8]) -> (r: Option<LANG>)
    ensures
        r == mode_language(m@),
{
    if is_word(m, "js") || is_word(m, "js2") || is_word(m, "javascript") {
        Some(LANG::Mozjs)
    } else if is_word(m, "java") {
        Some(LANG::Java)
    } else if is_word(m, "rust") {
        Some(LANG::Rust)
    } else if is_word(m, "c++") || is_word(m, "c") || is_word(m, "cpp") || is_word(m, "objc")
        || is_word(m, "objc++") || is_word(m, "objective-c") || is_word(m, "objective-c++") {
        Some(LANG::Cpp)
    } else if is_word(m, "python") {
        Some(LANG::Python)
    } else if is_word(m, "typescript") {
        Some(LANG::Typescript)
    } else if is_word(m, "csharp") {
        Some(LANG::CSharp)
    } else if is_word(m, "go") {
        Some(LANG::Go)
    } else if is_word(m, "css") {
        Some(LANG::Css)
    } else if is_word(m, "html") {
        Some(LANG::Html)
    } else {
        None
    }
}

/// Resolves a mode name found in an editor directive, ignoring ASCII case.
/// The names in the table are ASCII, so no other byte can make a match.
pub fn get_language_with_mode(lang: &[u8]) -> (r: Option<LANG>)
    ensures
        r == mode_language(ascii_lower(lang@)),
{
    let lower = to_ascii_lower(lang);
    get_from_emacs_mode(lower.as_slice())
}

/// The name of the file a path leads to: its last component, when that is a name.
pub open spec fn file_name(p: Seq<PartView>) -> Option<Seq<u8>> {
    if p.len() > 0 && p.last() is Normal {
        Some(p.last()->Normal_0)
    } else {
        None
    }
}

/// The index of the last `.` in `s`, or `-1` when it holds none.
pub open spec fn last_dot(s: Seq<u8>) -> int
    decreases s.len(),
{
    if s.len() == 0 {
        -1
    } else if s.last() == DOT {
        s.len() - 1
    } else {
        last_dot(s.drop_last())
    }
}

/// The extension of a file name: what follows its last `.`, unless there
/// is none or the name starts with it and holds no other.
pub open spec fn extension(name: Seq<u8>) -> Option<Seq<u8>> {
    if last_dot(name) <= 0 {
        None
    } else {
        Some(name.subrange(last_dot(name) + 1, name.len() as int))
    }
}

/// The language of the file a path leads to, by its extension in lower case.
pub open spec fn language_for_path(p: Seq<PartView>) -> Option<LANG> {
    match file_name(p) {
        Some(n) => match extension(n) {
            Some(e) => ext_language(ascii_lower(e)),
            None => None,
        },
        None => None,
    }
}

proof fn lemma_last_dot_range(s: Seq<u8>)
    ensures
        -1 <= last_dot(s) < s.len(),
    decreases s.len(),
{
    if s.len() > 0 {
        lemma_last_dot_range(s.drop_last());
    }
}

/// The index of the last `.` in `s`.
fn find_last_dot(s: &[u8]) -> (r: Option<usize>)
    ensures
        match r {
            Some(i) => last_dot(s@) == i,
            None => last_dot(s@) == -1,
        },
{
    let mut j: usize = s.len();
    assert(s@.take(j as int) =~= s@);
    while j > 0
        invariant
            j <= s@.len(),
            last_dot(s@) == last_dot(s@.take(j as int)),
        decreases j,
    {
        assert(s@.take(j as int).drop_last() =~= s@.take(j - 1));
        if s[j - 1] == DOT {
            return Some(j - 1);
        }
        j = j - 1;
    }
    None
}

/// The extension of the file a path leads to, in lower case.
fn lower_extension(path: &[PathPart]) -> (r: Option<Vec<u8>>)
    ensures
        match r {
            Some(e) => file_name(parts_view(path@)) matches Some(n) && extension(n) matches Some(
                x,
            ) && e@ == ascii_lower(x),
            None => match file_name(parts_view(path@)) {
                Some(n) => extension(n) is None,
                None => true,
            },
        },
{
    let n = path.len();
    if n == 0 {
        return None;
    }
    assert(parts_view(path@).last() == path@[n - 1]@);
    match &path[n - 1] {
        PathPart::Normal(name) => {
            let name = name.as_slice();
            proof {
                lemma_last_dot_range(name@);
            }
            match find_last_dot(name) {
                Some(d) => {
                    let len = name.len();
                    assert(d < len);
                    if d == 0 {
                        None
                    } else {
                        let (_, ext) = name.split_at(d + 1);
                        Some(to_ascii_lower(ext))
                    }
                },
                None => None,
            }
        },
        _ => None,
    }
}

/// The language of the file a path leads to, from its extension.
pub fn get_language_for_file(path: &[PathPart]) -> (r: Option<LANG>)
    ensures
        r == language_for_path(parts_view(path@)),
{
    match lower_extension(path) {
        Some(e) => get_from_ext(e.as_slice()),
        None => None,
    }
}

} // verus!
