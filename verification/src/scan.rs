//! Reading the progress markdown file.
//!
//! The file is free-form text owned by an outside collaborator; this
//! module scans it for the two fragments the runner consumes: an
//! active-session key carrying the exercise to resume, and the first
//! unchecked checklist line naming the next pending exercise. In both
//! scans the first match in document order wins.

use vstd::prelude::*;

use crate::text;

verus! {

/// A whitespace character, as the scan understands it: the Unicode
/// White_Space set.
pub open spec fn ws_char(c: char) -> bool {
    ||| c == ' '
    ||| ('\u{0009}' <= c && c <= '\u{000D}')
    ||| c == '\u{0085}'
    ||| c == '\u{00A0}'
    ||| c == '\u{1680}'
    ||| ('\u{2000}' <= c && c <= '\u{200A}')
    ||| c == '\u{2028}'
    ||| c == '\u{2029}'
    ||| c == '\u{202F}'
    ||| c == '\u{205F}'
    ||| c == '\u{3000}'
}

/// A word character of an exercise name: a letter, a digit or an
/// underscore.
pub open spec fn word_char(c: char) -> bool {
    ('a' as int <= c as int && c as int <= 'z' as int) || ('A' as int <= c as int && c as int
        <= 'Z' as int) || text::is_digit(c) || c == '_'
}

/// The end of the whitespace run starting at `i`.
pub open spec fn ws_run_end(s: Seq<char>, i: int) -> int
    decreases s.len() - i when 0 <= i <= s.len()
{
    if i >= s.len() {
        i
    } else if ws_char(s[i]) {
        ws_run_end(s, i + 1)
    } else {
        i
    }
}

/// The end of the word run starting at `i`.
pub open spec fn word_run_end(s: Seq<char>, i: int) -> int
    decreases s.len() - i when 0 <= i <= s.len()
{
    if i >= s.len() {
        i
    } else if word_char(s[i]) {
        word_run_end(s, i + 1)
    } else {
        i
    }
}

/// The first quote at or after `i`, or the end of the text.
pub open spec fn quote_run_end(s: Seq<char>, i: int) -> int
    decreases s.len() - i when 0 <= i <= s.len()
{
    if i >= s.len() {
        i
    } else if s[i] == '"' {
        i
    } else {
        quote_run_end(s, i + 1)
    }
}

/// The whitespace run ends exactly where the whitespace stops.
proof fn lemma_ws_run_end(s: Seq<char>, i: int, j: int)
    requires
        0 <= i <= j <= s.len(),
        forall|k: int| i <= k < j ==> ws_char(s[k]),
        j == s.len() || !ws_char(s[j]),
    ensures
        ws_run_end(s, i) == j,
    decreases j - i,
{
    if i < j {
        lemma_ws_run_end(s, i + 1, j);
    }
}

/// The word run ends exactly where the word characters stop.
proof fn lemma_word_run_end(s: Seq<char>, i: int, j: int)
    requires
        0 <= i <= j <= s.len(),
        forall|k: int| i <= k < j ==> word_char(s[k]),
        j == s.len() || !word_char(s[j]),
    ensures
        word_run_end(s, i) == j,
    decreases j - i,
{
    if i < j {
        lemma_word_run_end(s, i + 1, j);
    }
}

/// The quote scan stops exactly at the first quote, or at the end.
proof fn lemma_quote_run_end(s: Seq<char>, i: int, j: int)
    requires
        0 <= i <= j <= s.len(),
        forall|k: int| i <= k < j ==> s[k] != '"',
        j == s.len() || s[j] == '"',
    ensures
        quote_run_end(s, i) == j,
    decreases j - i,
{
    if i < j {
        lemma_quote_run_end(s, i + 1, j);
    }
}

/// The active-session key looked for in the markdown text.
pub open spec fn session_key() -> Seq<char> {
    "\"exercise\":"@
}

/// The active-session fragment matches at `i`: the key, optional
/// whitespace, then a quoted, non-empty name.
pub open spec fn active_match_at(s: Seq<char>, i: int) -> bool {
    &&& text::match_at(s, session_key(), i)
    &&& ws_run_end(s, i + session_key().len()) < s.len()
    &&& s[ws_run_end(s, i + session_key().len())] == '"'
    &&& quote_run_end(s, ws_run_end(s, i + session_key().len()) + 1) < s.len()
    &&& quote_run_end(s, ws_run_end(s, i + session_key().len()) + 1) > ws_run_end(
        s,
        i + session_key().len(),
    ) + 1
}

/// The name captured by the active-session fragment at `i`.
pub open spec fn active_capture(s: Seq<char>, i: int) -> Seq<char> {
    s.subrange(
        ws_run_end(s, i + session_key().len()) + 1,
        quote_run_end(s, ws_run_end(s, i + session_key().len()) + 1),
    )
}

/// The first position at or after `i` where the active-session fragment
/// matches.
pub open spec fn first_active_from(s: Seq<char>, i: int) -> Option<int>
    decreases s.len() - i when 0 <= i <= s.len()
{
    if i >= s.len() {
        None
    } else if active_match_at(s, i) {
        Some(i)
    } else {
        first_active_from(s, i + 1)
    }
}

/// What the active-session scan of the whole text yields: the first
/// captured name, unless that name is the word `null`, which stands for
/// no active exercise.
pub open spec fn scan_active(s: Seq<char>) -> Option<Seq<char>> {
    match first_active_from(s, 0) {
        None => None,
        Some(i) => if active_capture(s, i) == "null"@ {
            None
        } else {
            Some(active_capture(s, i))
        },
    }
}

/// Whether a character is whitespace, as executable code.
fn is_ws_char(c: char) -> (r: bool)
    ensures
        r == ws_char(c),
{
    c == ' ' || (c >= '\u{0009}' && c <= '\u{000D}') || c == '\u{0085}' || c == '\u{00A0}' || c
        == '\u{1680}' || (c >= '\u{2000}' && c <= '\u{200A}') || c == '\u{2028}' || c == '\u{2029}'
        || c == '\u{202F}' || c == '\u{205F}' || c == '\u{3000}'
}

/// Whether a character is a word character, as executable code.
fn is_word_char(c: char) -> (r: bool)
    ensures
        r == word_char(c),
{
    (c >= 'a' && c <= 'z') || (c >= 'A' && c <= 'Z') || text::is_digit_char(c) || c == '_'
}

/// The end of the whitespace run, as executable code.
fn ws_end(s: &str, n: usize, i: usize) -> (r: usize)
    requires
        n == s@.len(),
        i <= n,
    ensures
        i <= r <= n,
        r as int == ws_run_end(s@, i as int),
{
    let mut j = i;
    while j < n && is_ws_char(s.get_char(j))
        invariant
            i <= j <= n,
            n == s@.len(),
            forall|k: int| i <= k < j ==> ws_char(s@[k]),
        decreases n - j,
    {
        j += 1;
    }
    proof {
        lemma_ws_run_end(s@, i as int, j as int);
    }
    j
}

/// The first quote at or after `i`, as executable code.
fn quote_end(s: &str, n: usize, i: usize) -> (r: usize)
    requires
        n == s@.len(),
        i <= n,
    ensures
        i <= r <= n,
        r as int == quote_run_end(s@, i as int),
{
    let mut j = i;
    while j < n && s.get_char(j) != '"'
        invariant
            i <= j <= n,
            n == s@.len(),
            forall|k: int| i <= k < j ==> s@[k] != '"',
        decreases n - j,
    {
        j += 1;
    }
    proof {
        lemma_quote_run_end(s@, i as int, j as int);
    }
    j
}

/// The end of the word run, as executable code.
fn word_end(s: &str, n: usize, i: usize) -> (r: usize)
    requires
        n == s@.len(),
        i <= n,
    ensures
        i <= r <= n,
        r as int == word_run_end(s@, i as int),
{
    let mut j = i;
    while j < n && is_word_char(s.get_char(j))
        invariant
            i <= j <= n,
            n == s@.len(),
            forall|k: int| i <= k < j ==> word_char(s@[k]),
        decreases n - j,
    {
        j += 1;
    }
    proof {
        lemma_word_run_end(s@, i as int, j as int);
    }
    j
}

/// The capture bounds of an active-session match at `i`, if it matches.
fn active_at(s: &str, n: usize, i: usize) -> (r: Option<(usize, usize)>)
    requires
        n == s@.len(),
        i <= n,
    ensures
        match r {
            Some(b) => active_match_at(s@, i as int) && b.0 <= b.1 <= n && s@.subrange(
                b.0 as int,
                b.1 as int,
            ) == active_capture(s@, i as int),
            None => !active_match_at(s@, i as int),
        },
{
    let key = "\"exercise\":";
    if !text::str_match_at(s, n, i, key) {
        return None;
    }
    let klen = key.unicode_len();
    let j = ws_end(s, n, i + klen);
    if j == n {
        return None;
    }
    if s.get_char(j) != '"' {
        return None;
    }
    let q = quote_end(s, n, j + 1);
    if q == n {
        return None;
    }
    if q == j + 1 {
        return None;
    }
    Some((j + 1, q))
}

/// No match before `i` and a match at `i` make `i` the first match.
proof fn lemma_first_active_at(s: Seq<char>, k: int, i: int)
    requires
        0 <= k <= i < s.len(),
        active_match_at(s, i),
        forall|j: int| k <= j < i ==> !active_match_at(s, j),
    ensures
        first_active_from(s, k) == Some(i),
    decreases i - k,
{
    if k < i {
        lemma_first_active_at(s, k + 1, i);
    }
}

/// No match anywhere means the scan finds nothing.
proof fn lemma_first_active_none(s: Seq<char>, k: int)
    requires
        0 <= k <= s.len(),
        forall|j: int| k <= j < s.len() ==> !active_match_at(s, j),
    ensures
        first_active_from(s, k) is None,
    decreases s.len() - k,
{
    if k < s.len() {
        lemma_first_active_none(s, k + 1);
    }
}

/// The exercise to resume, read from the markdown text: the name of the
/// first active-session fragment, unless it is `null`.
pub fn active_exercise(content: &str) -> (r: Option<String>)
    ensures
        match r {
            Some(name) => scan_active(content@) == Some(name@),
            None => scan_active(content@) is None,
        },
{
    let n = content.unicode_len();
    let mut i: usize = 0;
    while i < n
        invariant
            0 <= i <= n,
            n == content@.len(),
            forall|j: int| 0 <= j < i ==> !active_match_at(content@, j),
        decreases n - i,
    {
        match active_at(content, n, i) {
            Some(b) => {
                proof {
                    lemma_first_active_at(content@, 0, i as int);
                }
                let name = content.substring_char(b.0, b.1);
                if text::str_eq(name, "null") {
                    return None;
                }
                return Some(name.to_owned());
            },
            None => {},
        }
        i += 1;
    }
    proof {
        lemma_first_active_none(content@, 0);
    }
    None
}

/// The checkbox prefix of a pending checklist line.
pub open spec fn checkbox() -> Seq<char> {
    "- [ ] "@
}

/// The file suffix that a checklist entry must carry.
pub open spec fn rs_suffix() -> Seq<char> {
    ".rs"@
}

/// A pending checklist entry matches at `i`: the checkbox, a non-empty
/// run of word characters, then the file suffix.
pub open spec fn checklist_match_at(s: Seq<char>, i: int) -> bool {
    &&& text::match_at(s, checkbox(), i)
    &&& word_run_end(s, i + checkbox().len()) > i + checkbox().len()
    &&& text::match_at(s, rs_suffix(), word_run_end(s, i + checkbox().len()))
}

/// The exercise name captured by the checklist entry at `i`.
pub open spec fn checklist_capture(s: Seq<char>, i: int) -> Seq<char> {
    s.subrange(i + checkbox().len(), word_run_end(s, i + checkbox().len()))
}

/// The first position at or after `i` where a pending checklist entry
/// matches.
pub open spec fn first_checklist_from(s: Seq<char>, i: int) -> Option<int>
    decreases s.len() - i when 0 <= i <= s.len()
{
    if i >= s.len() {
        None
    } else if checklist_match_at(s, i) {
        Some(i)
    } else {
        first_checklist_from(s, i + 1)
    }
}

/// What the checklist scan of the whole text yields: the first pending
/// exercise name in document order.
pub open spec fn scan_pending(s: Seq<char>) -> Option<Seq<char>> {
    match first_checklist_from(s, 0) {
        None => None,
        Some(i) => Some(checklist_capture(s, i)),
    }
}

/// No match before `i` and a match at `i` make `i` the first match.
proof fn lemma_first_checklist_at(s: Seq<char>, k: int, i: int)
    requires
        0 <= k <= i < s.len(),
        checklist_match_at(s, i),
        forall|j: int| k <= j < i ==> !checklist_match_at(s, j),
    ensures
        first_checklist_from(s, k) == Some(i),
    decreases i - k,
{
    if k < i {
        lemma_first_checklist_at(s, k + 1, i);
    }
}

/// No match anywhere means the scan finds nothing.
proof fn lemma_first_checklist_none(s: Seq<char>, k: int)
    requires
        0 <= k <= s.len(),
        forall|j: int| k <= j < s.len() ==> !checklist_match_at(s, j),
    ensures
        first_checklist_from(s, k) is None,
    decreases s.len() - k,
{
    if k < s.len() {
        lemma_first_checklist_none(s, k + 1);
    }
}

/// The next pending exercise, read from the markdown text: the name of
/// the first unchecked checklist entry.
pub fn next_pending(content: &str) -> (r: Option<String>)
    ensures
        match r {
            Some(name) => scan_pending(content@) == Some(name@),
            None => scan_pending(content@) is None,
        },
{
    let n = content.unicode_len();
    let mut i: usize = 0;
    while i < n
        invariant
            0 <= i <= n,
            n == content@.len(),
            forall|j: int| 0 <= j < i ==> !checklist_match_at(content@, j),
        decreases n - i,
    {
        if text::str_match_at(content, n, i, "- [ ] ") {
            proof {
                reveal_strlit("- [ ] ");
            }
            let blen: usize = 6;
            let k = word_end(content, n, i + blen);
            if k > i + blen && text::str_match_at(content, n, k, ".rs") {
                proof {
                    lemma_first_checklist_at(content@, 0, i as int);
                }
                let name = content.substring_char(i + blen, k);
                return Some(name.to_owned());
            }
        }
        i += 1;
    }
    proof {
        lemma_first_checklist_none(content@, 0);
    }
    None
}

} // verus!
