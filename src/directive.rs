//! Finds the language of a buffer from an editor directive: an Emacs mode
//! line or a Vim modeline in its first or last lines.
use vstd::prelude::*;

use crate::bytes::{ascii_lower, lemma_split_on_nonempty, lines_view, split_on, split_on_of, NEWLINE};
use crate::lang::{get_language_with_mode, mode_language, LANG};

verus! {

/// Emacs long form: `-*- ... mode: <name> ... -*-`, where `mode` follows a
/// byte that is neither `-` nor a word character.
pub const EMACS_LONG: &'static str = "(?i)-\\*-.*[^-\\w]mode\\s*:\\s*([^:;\\s]+)";

/// Emacs short form: `-*- <name> -*-`.
pub const EMACS_SHORT: &'static str = "-\\*-\\s*([^:;\\s]+)\\s*-\\*-";

/// Vim modeline: `vim: ... ft=<name>`, where `ft` follows a non-word character.
pub const VIM_FT: &'static str = "(?i)vim\\s*:.*[^\\w]ft\\s*=\\s*([^:\\s]+)";

/// The first capture group of the first match of the regular expression
/// `pattern` in `haystack`, or `None` when it does not match.
pub uninterp spec fn first_capture_of(pattern: Seq<char>, haystack: Seq<u8>) -> Option<Seq<u8>>;

/// The view of an optional byte vector.
pub open spec fn opt_view(o: Option<Vec<u8>>) -> Option<Seq<u8>> {
    match o {
        Some(v) => Some(v@),
        None => None,
    }
}

/// Relies on `regex::bytes::Regex::new` and `Regex::captures`: the bytes of
/// group 1 of the leftmost match, which depend on the pattern and the
/// haystack alone; `None` when there is no match.
#[verifier::external_body]
fn first_capture(pattern: &str, haystack: &[u8]) -> (r: Option<Vec<u8>>)
    ensures
        opt_view(r) == first_capture_of(pattern@, haystack@),
{
    let re = match regex::bytes::Regex::new(pattern) {
        Ok(re) => re,
        Err(_) => return None,
    };
    match re.captures(haystack) {
        Some(caps) => match caps.get(1) {
            Some(m) => Some(m.as_bytes().to_vec()),
            None => None,
        },
        None => None,
    }
}

/// What one line tells, given the captures of the Emacs long form, the
/// Emacs short form and the Vim form on it: `None` when no form matched,
/// else the language of the mode name of the first form that matched.
pub open spec fn directive_outcome(
    long: Option<Seq<u8>>,
    short: Option<Seq<u8>>,
    vim: Option<Seq<u8>>,
) -> Option<Option<LANG>> {
    match long {
        Some(m) => Some(mode_language(ascii_lower(m))),
        None => match short {
            Some(m) => Some(mode_language(ascii_lower(m))),
            None => match vim {
                Some(m) => Some(mode_language(ascii_lower(m))),
                None => None,
            },
        },
    }
}

/// What a line at the start of a buffer tells: all three forms are tried.
pub open spec fn head_directive(line: Seq<u8>) -> Option<Option<LANG>> {
    directive_outcome(
        first_capture_of(EMACS_LONG@, line),
        first_capture_of(EMACS_SHORT@, line),
        first_capture_of(VIM_FT@, line),
    )
}

/// What a line at the end of a buffer tells: only the Vim form is tried.
pub open spec fn tail_directive(line: Seq<u8>) -> Option<Option<LANG>> {
    directive_outcome(None, None, first_capture_of(VIM_FT@, line))
}

/// The first directive found on lines `i` to `n - 1` of `ls`, scanned forward.
pub open spec fn scan_head(ls: Seq<Seq<u8>>, i: int, n: int) -> Option<Option<LANG>>
    decreases n - i,
{
    if i >= n {
        None
    } else {
        match head_directive(ls[i]) {
            Some(r) => Some(r),
            None => scan_head(ls, i + 1, n),
        }
    }
}

/// The first Vim directive found on the lines `j` to `n - 1` counted from
/// the end of `ls`, scanned backward.
pub open spec fn scan_tail(ls: Seq<Seq<u8>>, j: int, n: int) -> Option<Option<LANG>>
    decreases n - j,
{
    if j >= n {
        None
    } else {
        match tail_directive(ls[ls.len() - 1 - j]) {
            Some(r) => Some(r),
            None => scan_tail(ls, j + 1, n),
        }
    }
}

/// How many lines are scanned at each end of a buffer of `count` lines.
pub open spec fn scanned(count: int) -> int {
    if count < 4 {
        count
    } else {
        4
    }
}

/// The language that the directives of `buf` name: the first four lines
/// are tried in order with every form, then the last four, from the end,
/// with the Vim form.
pub open spec fn guessed_language(buf: Seq<u8>) -> Option<LANG> {
    let ls = split_on(buf, NEWLINE);
    match scan_head(ls, 0, scanned(ls.len() as int)) {
        Some(r) => r,
        None => match scan_tail(ls, 0, scanned(ls.len() as int)) {
            Some(r) => r,
            None => None,
        },
    }
}

/// What one line tells, given what the Emacs long form, the Emacs short form
/// and the Vim form captured on it: `None` when no form matched, else the
/// language of the mode name of the first form that matched.
pub fn line_language(
    long: &Option<Vec<u8>>,
    short: &Option<Vec<u8>>,
    vim: &Option<Vec<u8>>,
) -> (r: Option<Option<LANG>>)
    ensures
        r == directive_outcome(opt_view(*long), opt_view(*short), opt_view(*vim)),
{
    match long {
        Some(m) => Some(get_language_with_mode(m.as_slice())),
        None => match short {
            Some(m) => Some(get_language_with_mode(m.as_slice())),
            None => match vim {
                Some(m) => Some(get_language_with_mode(m.as_slice())),
                None => None,
            },
        },
    }
}

/// The language that an editor directive in `buf` names, if any.
pub fn guess_language(buf: &[u8]) -> (r: Option<LANG>)
    ensures
        r == guessed_language(buf@),
{
    let lines = split_on_of(buf, NEWLINE);
    let ghost ls = split_on(buf@, NEWLINE);
    proof {
        lemma_split_on_nonempty(buf@, NEWLINE);
    }
    let count = lines.len();
    let n: usize = if count < 4 { count } else { 4 };
    assert(n as int == scanned(ls.len() as int));
    let mut i: usize = 0;
    while i < n
        invariant
            n <= lines@.len(),
            lines_view(lines@) == ls,
            ls == split_on(buf@, NEWLINE),
            n as int == scanned(ls.len() as int),
            i <= n,
            scan_head(ls, 0, n as int) == scan_head(ls, i as int, n as int),
        decreases n - i,
    {
        let line = lines[i].as_slice();
        assert(line@ == ls[i as int]);
        let long = first_capture(EMACS_LONG, line);
        let short = first_capture(EMACS_SHORT, line);
        let vim = first_capture(VIM_FT, line);
        let found = line_language(&long, &short, &vim);
        assert(found == head_directive(ls[i as int]));
        if let Some(lang) = found {
            assert(scan_head(ls, i as int, n as int) == found);
            return lang;
        }
        i = i + 1;
    }
    let mut j: usize = 0;
    while j < n
        invariant
            n <= lines@.len(),
            count == lines@.len(),
            lines_view(lines@) == ls,
            ls == split_on(buf@, NEWLINE),
            n as int == scanned(ls.len() as int),
            j <= n,
            scan_head(ls, 0, n as int) is None,
            scan_tail(ls, 0, n as int) == scan_tail(ls, j as int, n as int),
        decreases n - j,
    {
        let line = lines[count - 1 - j].as_slice();
        assert(line@ == ls[ls.len() - 1 - j]);
        let none: Option<Vec<u8>> = None;
        let vim = first_capture(VIM_FT, line);
        let found = line_language(&none, &none, &vim);
        assert(found == tail_directive(ls[ls.len() - 1 - j]));
        if let Some(lang) = found {
            assert(scan_tail(ls, j as int, n as int) == found);
            return lang;
        }
        j = j + 1;
    }
    None
}

} // verus!
