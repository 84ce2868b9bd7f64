//! Locating an exercise file by its bare name.
//!
//! The surrounding program walks the fixed search roots and hands the
//! discovered paths in, in traversal order; everything decided about
//! those paths — which of them are exercise files, which stems they
//! carry, which entry resolves a name first — is verified here.

use vstd::prelude::*;

use crate::text;

verus! {

/// The last position of `c` in `s`, or -1 when `c` does not occur.
pub open spec fn last_pos(s: Seq<char>, c: char) -> int
    decreases s.len(),
{
    if s.len() == 0 {
        -1
    } else if s.last() == c {
        s.len() - 1
    } else {
        last_pos(s.drop_last(), c)
    }
}

/// `last_pos` finds the last occurrence, or reports that there is none.
pub proof fn lemma_last_pos(s: Seq<char>, c: char)
    ensures
        last_pos(s, c) == -1 ==> forall|j: int| 0 <= j < s.len() ==> s[j] != c,
        last_pos(s, c) >= 0 ==> 0 <= last_pos(s, c) < s.len() && s[last_pos(s, c)] == c,
        last_pos(s, c) >= 0 ==> forall|j: int| last_pos(s, c) < j < s.len() ==> s[j] != c,
        -1 <= last_pos(s, c) < s.len(),
    decreases s.len(),
{
    if s.len() > 0 && s.last() != c {
        lemma_last_pos(s.drop_last(), c);
        assert(forall|j: int| 0 <= j < s.len() - 1 ==> s[j] == s.drop_last()[j]);
    }
}

/// A path separator: the forward slash everywhere, and additionally the
/// backslash, which the Windows platform hands back from traversal.
pub open spec fn sep_char(c: char) -> bool {
    c == '/' || c == '\\'
}

/// The last position of a separator in `s`, or -1 when none occurs.
pub open spec fn last_sep(s: Seq<char>) -> int
    decreases s.len(),
{
    if s.len() == 0 {
        -1
    } else if sep_char(s.last()) {
        s.len() - 1
    } else {
        last_sep(s.drop_last())
    }
}

/// The file-name part of a path: everything after the last separator.
pub open spec fn file_name(p: Seq<char>) -> Seq<char> {
    p.skip(last_sep(p) + 1)
}

/// A path names an exercise source file: its file name has a real
/// extension (a dot after at least one character) and that extension is
/// `rs`.
pub open spec fn is_exercise_file(p: Seq<char>) -> bool {
    let f = file_name(p);
    let dp = last_pos(f, '.');
    dp > 0 && f.skip(dp + 1) == "rs"@
}

/// The stem of a path's file name: everything before the extension's dot,
/// or the whole file name when there is no real extension.
pub open spec fn stem_of(p: Seq<char>) -> Seq<char> {
    let f = file_name(p);
    let dp = last_pos(f, '.');
    if dp > 0 {
        f.take(dp)
    } else {
        f
    }
}

/// The entry resolves the given bare name: an exercise file whose stem is
/// exactly the name, case-sensitively.
pub open spec fn entry_matches(p: Seq<char>, name: Seq<char>) -> bool {
    is_exercise_file(p) && stem_of(p) == name
}

/// `i` is the first entry of the list that resolves the name.
pub open spec fn is_first_match(es: Seq<String>, name: Seq<char>, i: int) -> bool {
    &&& 0 <= i < es.len()
    &&& entry_matches(es[i]@, name)
    &&& forall|j: int| 0 <= j < i ==> !entry_matches(es[j]@, name)
}

/// What the locator finds: the first entry resolving the name, in the
/// handed-in traversal order.
pub open spec fn find_model(es: Seq<String>, name: Seq<char>) -> Option<Seq<char>>
    decreases es.len(),
{
    if es.len() == 0 {
        None
    } else if entry_matches(es[0]@, name) {
        Some(es[0]@)
    } else {
        find_model(es.drop_first(), name)
    }
}

/// A first match is what the locator finds.
proof fn lemma_find_model_at(es: Seq<String>, name: Seq<char>, i: int)
    requires
        is_first_match(es, name, i),
    ensures
        find_model(es, name) == Some(es[i]@),
    decreases es.len(),
{
    if i > 0 {
        lemma_find_model_at(es.drop_first(), name, i - 1);
    }
}

/// The law of the unresolvable name: a name that no entry resolves is
/// found nowhere, so by `plan_after_locate`'s contract the run ends at
/// its `NotFound` report and no compile or execution is ever asked for.
pub proof fn lemma_unresolved_name_finds_nothing(es: Seq<String>, name: Seq<char>)
    requires
        forall|j: int| 0 <= j < es.len() ==> !entry_matches(es[j]@, name),
    ensures
        find_model(es, name) is None,
    decreases es.len(),
{
    if es.len() > 0 {
        let d = es.drop_first();
        assert(forall|j: int| 0 <= j < d.len() ==> d[j] == es[j + 1]);
        lemma_unresolved_name_finds_nothing(d, name);
    }
}

/// Whether a character is a path separator, as executable code.
fn is_sep_char(c: char) -> (r: bool)
    ensures
        r == sep_char(c),
{
    c == '/' || c == '\\'
}

/// A separator with no separator after it is the last one.
proof fn lemma_last_sep_at(s: Seq<char>, i: int)
    requires
        0 <= i < s.len(),
        sep_char(s[i]),
        forall|j: int| i < j < s.len() ==> !sep_char(s[j]),
    ensures
        last_sep(s) == i,
    decreases s.len(),
{
    if !sep_char(s.last()) {
        assert(i < s.len() - 1);
        lemma_last_sep_at(s.drop_last(), i);
    }
}

/// Without any separator there is no last one.
proof fn lemma_last_sep_none(s: Seq<char>)
    requires
        forall|j: int| 0 <= j < s.len() ==> !sep_char(s[j]),
    ensures
        last_sep(s) == -1,
    decreases s.len(),
{
    if s.len() > 0 {
        assert(forall|j: int| 0 <= j < s.len() - 1 ==> s.drop_last()[j] == s[j]);
        lemma_last_sep_none(s.drop_last());
    }
}

/// The last separator position, as executable code.
fn last_sep_exec(s: &str) -> (r: Option<usize>)
    ensures
        match r {
            Some(i) => i < s@.len() && last_sep(s@) == i as int,
            None => last_sep(s@) == -1,
        },
{
    let n = s.unicode_len();
    let mut i = n;
    while i > 0
        invariant
            0 <= i <= n,
            n == s@.len(),
            forall|j: int| i <= j < n ==> !sep_char(s@[j]),
        decreases i,
    {
        i -= 1;
        if is_sep_char(s.get_char(i)) {
            proof {
                lemma_last_sep_at(s@, i as int);
            }
            return Some(i);
        }
    }
    proof {
        lemma_last_sep_none(s@);
    }
    None
}

/// The last position of `c`, as executable code.
fn last_pos_exec(s: &str, c: char) -> (r: Option<usize>)
    ensures
        match r {
            Some(i) => i < s@.len() && last_pos(s@, c) == i as int,
            None => last_pos(s@, c) == -1,
        },
{
    proof {
        lemma_last_pos(s@, c);
    }
    let n = s.unicode_len();
    let mut i = n;
    while i > 0
        invariant
            0 <= i <= n,
            n == s@.len(),
            forall|j: int| i <= j < n ==> s@[j] != c,
        decreases i,
    {
        i -= 1;
        if s.get_char(i) == c {
            proof {
                lemma_last_pos_at(s@, c, i as int);
            }
            return Some(i);
        }
    }
    proof {
        lemma_last_pos(s@, c);
    }
    None
}

/// An occurrence with nothing equal after it is the last position.
proof fn lemma_last_pos_at(s: Seq<char>, c: char, i: int)
    requires
        0 <= i < s.len(),
        s[i] == c,
        forall|j: int| i < j < s.len() ==> s[j] != c,
    ensures
        last_pos(s, c) == i,
    decreases s.len(),
{
    if s.last() != c {
        assert(i < s.len() - 1);
        lemma_last_pos_at(s.drop_last(), c, i);
    }
}

/// Whether this path resolves the given bare name.
pub fn path_matches(p: &str, name: &str) -> (r: bool)
    ensures
        r == entry_matches(p@, name@),
{
    let n = p.unicode_len();
    let fs: usize = match last_sep_exec(p) {
        Some(i) => i + 1,
        None => 0,
    };
    let fname = p.substring_char(fs, n);
    proof {
        assert(fname@ == file_name(p@));
    }
    let fn_len = fname.unicode_len();
    let dp = match last_pos_exec(fname, '.') {
        Some(i) => i,
        None => {
            return false;
        },
    };
    if dp == 0 {
        return false;
    }
    let ext = fname.substring_char(dp + 1, fn_len);
    proof {
        assert(ext@ == file_name(p@).skip(last_pos(file_name(p@), '.') + 1));
    }
    if !text::str_eq(ext, "rs") {
        return false;
    }
    let stem = fname.substring_char(0, dp);
    proof {
        assert(stem@ == stem_of(p@));
    }
    text::str_eq(stem, name)
}

/// The first entry resolving the name, in the handed-in traversal order,
/// or nothing when no entry resolves it.
pub fn find_first_match(entries: &Vec<String>, name: &str) -> (r: Option<String>)
    ensures
        match r {
            Some(p) => find_model(entries@, name@) == Some(p@) && exists|i: int|
                is_first_match(entries@, name@, i) && p@ == entries@[i]@,
            None => find_model(entries@, name@) is None && forall|j: int|
                0 <= j < entries@.len() ==> !entry_matches(entries@[j]@, name@),
        },
{
    let n = entries.len();
    let mut i: usize = 0;
    while i < n
        invariant
            0 <= i <= n,
            n == entries@.len(),
            forall|j: int| 0 <= j < i ==> !entry_matches(entries@[j]@, name@),
        decreases n - i,
    {
        if path_matches(entries[i].as_str(), name) {
            let p = entries[i].clone();
            proof {
                assert(is_first_match(entries@, name@, i as int));
                lemma_find_model_at(entries@, name@, i as int);
            }
            return Some(p);
        }
        i += 1;
    }
    proof {
        lemma_unresolved_name_finds_nothing(entries@, name@);
    }
    None
}

/// The stems of the exercise files among the entries, in order.
pub open spec fn list_model(es: Seq<String>) -> Seq<Seq<char>>
    decreases es.len(),
{
    if es.len() == 0 {
        Seq::empty()
    } else if is_exercise_file(es.last()@) {
        list_model(es.drop_last()).push(stem_of(es.last()@))
    } else {
        list_model(es.drop_last())
    }
}

/// The views of a vector of strings.
pub open spec fn names_model(v: Seq<String>) -> Seq<Seq<char>> {
    Seq::new(v.len(), |i: int| v[i]@)
}

/// Every discoverable exercise name, in the handed-in traversal order,
/// kept as found: not deduplicated, not sorted.
pub fn list_names(entries: &Vec<String>) -> (r: Vec<String>)
    ensures
        names_model(r@) == list_model(entries@),
{
    let n = entries.len();
    let mut out: Vec<String> = Vec::new();
    let mut i: usize = 0;
    while i < n
        invariant
            0 <= i <= n,
            n == entries@.len(),
            names_model(out@) == list_model(entries@.take(i as int)),
        decreases n - i,
    {
        let p = entries[i].as_str();
        let pn = p.unicode_len();
        let fs: usize = match last_sep_exec(p) {
            Some(k) => k + 1,
            None => 0,
        };
        let fname = p.substring_char(fs, pn);
        proof {
            assert(fname@ == file_name(entries@[i as int]@));
        }
        let fn_len = fname.unicode_len();
        match last_pos_exec(fname, '.') {
            Some(dp) if dp > 0 => {
                let ext = fname.substring_char(dp + 1, fn_len);
                if text::str_eq(ext, "rs") {
                    out.push(fname.substring_char(0, dp).to_owned());
                    proof {
                        assert(is_exercise_file(entries@[i as int]@));
                        assert(out@.last()@ == stem_of(entries@[i as int]@));
                    }
                }
            },
            _ => {},
        }
        i += 1;
        proof {
            let t = entries@.take(i as int);
            assert(t.drop_last() =~= entries@.take(i - 1));
            assert(t.last() == entries@[i - 1]);
            assert(names_model(out@) =~= list_model(entries@.take(i as int)));
        }
    }
    proof {
        assert(entries@.take(n as int) =~= entries@);
    }
    out
}

/// The fixed, ordered search roots under which exercises are resolved.
pub fn get_search_dirs() -> (r: Vec<String>)
    ensures
        r@.len() == 2,
        r@[0]@ == "src/exercises"@,
        r@[1]@ == "src/practice"@,
{
    let mut v: Vec<String> = Vec::new();
    v.push(String::from_str("src/exercises"));
    v.push(String::from_str("src/practice"));
    v
}

} // verus!
