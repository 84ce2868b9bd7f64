//! The on-disk form of the progress record.
//!
//! The record is persisted as a JSON object in one fixed, pretty-printed
//! shape, and `parse_state` reads back exactly that shape: field order,
//! indentation and separators as `render_state` writes them. String
//! values carry their characters verbatim, except that a double quote, a
//! backslash and every control character are written as JSON escapes
//! (`\"`, `\\`, `\u00` with two lowercase hex digits), so every string
//! round-trips; timestamps are unsigned decimal numbers of seconds or
//! `null`. A file that deviates from the shape is corrupt and is
//! rejected, never silently replaced.
//!
//! The shape is this store's own: timestamps are whole seconds rather
//! than formatted dates, the keys stand in one fixed order, and a
//! progress file written by a different writer — other spacing, other
//! key order, string-formatted dates — does not load.

use vstd::prelude::*;

use crate::progress::{ExerciseProgress, ExerciseStatus, LearningState, StateModel, StoreError};
use crate::text;

verus! {

/// A double quote.
pub open spec fn t_quote() -> Seq<char> {
    "\""@
}

/// Opening of the object up to the first string value.
pub open spec fn t_head() -> Seq<char> {
    "{\n  \"user\": \""@
}

/// Between the user value and the current-module value.
pub open spec fn t_module() -> Seq<char> {
    ",\n  \"current_module\": \""@
}

/// Between the current-module value and the current-exercise value.
pub open spec fn t_exercise() -> Seq<char> {
    ",\n  \"current_exercise\": \""@
}

/// Between the current-exercise value and the exercise map.
pub open spec fn t_exercises() -> Seq<char> {
    ",\n  \"exercises\": "@
}

/// Between the exercise map and the last-session value.
pub open spec fn t_last() -> Seq<char> {
    ",\n  \"last_session\": "@
}

/// Closing of the object.
pub open spec fn t_tail() -> Seq<char> {
    "\n}"@
}

/// An empty exercise map.
pub open spec fn t_empty_map() -> Seq<char> {
    "{}"@
}

/// Opening of a non-empty exercise map.
pub open spec fn t_map_open() -> Seq<char> {
    "{\n"@
}

/// Start of one exercise entry, up to its key.
pub open spec fn t_entry_key() -> Seq<char> {
    "    \""@
}

/// Between an entry's key and its status value.
pub open spec fn t_status() -> Seq<char> {
    ": {\n      \"status\": \""@
}

/// Between an entry's status and its attempt counter.
pub open spec fn t_attempts() -> Seq<char> {
    ",\n      \"attempts\": "@
}

/// Between an entry's attempt counter and its start timestamp.
pub open spec fn t_started() -> Seq<char> {
    ",\n      \"started_at\": "@
}

/// Between an entry's start and completion timestamps.
pub open spec fn t_completed() -> Seq<char> {
    ",\n      \"completed_at\": "@
}

/// Closing of one exercise entry.
pub open spec fn t_entry_close() -> Seq<char> {
    "\n    }"@
}

/// Separator between two exercise entries.
pub open spec fn t_entry_sep() -> Seq<char> {
    ",\n"@
}

/// Closing of a non-empty exercise map.
pub open spec fn t_map_close() -> Seq<char> {
    "\n  }"@
}

/// The literal for an absent timestamp.
pub open spec fn t_null() -> Seq<char> {
    "null"@
}

/// The words of the three status values.
pub open spec fn status_text(st: ExerciseStatus) -> Seq<char> {
    match st {
        ExerciseStatus::Locked => "Locked"@,
        ExerciseStatus::Pending => "Pending"@,
        ExerciseStatus::Completed => "Completed"@,
    }
}

/// A lowercase hexadecimal digit.
pub open spec fn is_hex_lower(c: char) -> bool {
    text::is_digit(c) || ('a' as int <= c as int <= 'f' as int)
}

/// Value of a lowercase hexadecimal digit.
pub open spec fn hex_val(c: char) -> nat {
    if text::is_digit(c) {
        text::digit_val(c)
    } else {
        (c as int - 'a' as int + 10) as nat
    }
}

/// The lowercase hexadecimal digit for a value below sixteen.
pub open spec fn hex_char(d: nat) -> char {
    if d < 10 {
        text::digit_char(d)
    } else if d == 10 {
        'a'
    } else if d == 11 {
        'b'
    } else if d == 12 {
        'c'
    } else if d == 13 {
        'd'
    } else if d == 14 {
        'e'
    } else {
        'f'
    }
}

/// How one character stands in a persisted string value: itself, unless
/// it is the double quote, the backslash or a control character, which
/// are written as JSON escapes.
pub open spec fn esc_char(c: char) -> Seq<char> {
    if c == '"' {
        seq!['\\', '"']
    } else if c == '\\' {
        seq!['\\', '\\']
    } else if (c as int) < 0x20 {
        seq![
            '\\',
            'u',
            '0',
            '0',
            hex_char((c as int / 16) as nat),
            hex_char((c as int % 16) as nat),
        ]
    } else {
        seq![c]
    }
}

/// A whole string value as persisted, character by character.
pub open spec fn esc_seq(s: Seq<char>) -> Seq<char>
    decreases s.len(),
{
    if s.len() == 0 {
        Seq::empty()
    } else {
        esc_char(s[0]) + esc_seq(s.drop_first())
    }
}

/// A character's code is never negative.
proof fn lemma_char_code(c: char)
    ensures
        c as int >= 0,
{
}

/// The hexadecimal digit of a value below sixteen is a lowercase digit
/// and denotes that value.
pub proof fn lemma_hex_char(d: nat)
    requires
        d < 16,
    ensures
        is_hex_lower(hex_char(d)),
        hex_val(hex_char(d)) == d,
{
}

/// A string of plain characters is persisted verbatim.
pub proof fn lemma_esc_plain(s: Seq<char>)
    requires
        text::plain_seq(s),
    ensures
        esc_seq(s) == s,
    decreases s.len(),
{
    if s.len() == 0 {
        assert(esc_seq(s) =~= s);
    } else {
        assert(text::plain_char(s[0]));
        assert(esc_char(s[0]) =~= seq![s[0]]);
        assert(text::plain_seq(s.drop_first()));
        lemma_esc_plain(s.drop_first());
        assert(seq![s[0]] + s.drop_first() =~= s);
    }
}

/// Escaping encodes one appended character at a time.
pub proof fn lemma_esc_snoc(s: Seq<char>, c: char)
    ensures
        esc_seq(s.push(c)) == esc_seq(s) + esc_char(c),
    decreases s.len(),
{
    if s.len() == 0 {
        assert(s.push(c)[0] == c);
        assert(s.push(c).drop_first() =~= Seq::<char>::empty());
        assert(esc_seq(Seq::<char>::empty()) == Seq::<char>::empty());
        assert(esc_seq(s.push(c)) == esc_char(c) + esc_seq(Seq::<char>::empty()));
        assert(esc_char(c) + Seq::<char>::empty() =~= esc_char(c));
        assert(esc_seq(s) == Seq::<char>::empty());
        assert(Seq::<char>::empty() + esc_char(c) =~= esc_char(c));
    } else {
        assert(s.push(c)[0] == s[0]);
        assert(s.push(c).drop_first() =~= s.drop_first().push(c));
        lemma_esc_snoc(s.drop_first(), c);
        assert(esc_char(s[0]) + (esc_seq(s.drop_first()) + esc_char(c)) =~= (esc_char(s[0])
            + esc_seq(s.drop_first())) + esc_char(c));
    }
}

/// An optional timestamp: decimal seconds, or `null`.
pub open spec fn render_ts(t: Option<i64>) -> Seq<char> {
    match t {
        None => t_null(),
        Some(v) => text::dec_seq(v as nat),
    }
}

/// One exercise entry of the map.
pub open spec fn render_entry(e: (Seq<char>, ExerciseProgress)) -> Seq<char> {
    t_entry_key() + esc_seq(e.0) + t_quote() + t_status() + status_text(e.1.status) + t_quote()
        + t_attempts() + text::dec_seq(e.1.attempts as nat) + t_started() + render_ts(
        e.1.started_at,
    ) + t_completed() + render_ts(e.1.completed_at) + t_entry_close()
}

/// One or more entries, separated.
pub open spec fn render_entries(es: Seq<(Seq<char>, ExerciseProgress)>) -> Seq<char>
    decreases es.len(),
{
    if es.len() <= 1 {
        render_entry(es[0])
    } else {
        render_entry(es[0]) + t_entry_sep() + render_entries(es.drop_first())
    }
}

/// The exercise map.
pub open spec fn render_map(es: Seq<(Seq<char>, ExerciseProgress)>) -> Seq<char> {
    if es.len() == 0 {
        t_empty_map()
    } else {
        t_map_open() + render_entries(es) + t_map_close()
    }
}

/// The whole persisted text of a record.
pub open spec fn render_model(m: StateModel) -> Seq<char> {
    t_head() + esc_seq(m.user) + t_quote() + t_module() + esc_seq(m.current_module) + t_quote()
        + t_exercise() + esc_seq(m.current_exercise) + t_quote() + t_exercises() + render_map(
        m.exercises,
    ) + t_last() + render_ts(m.last_session) + t_tail()
}

/// Reading a fixed literal: the next characters must be exactly `lit`.
pub open spec fn sp_lit(s: Seq<char>, i: int, lit: Seq<char>) -> Option<int> {
    if 0 <= i && i + lit.len() <= s.len() && s.subrange(i, i + lit.len() as int) == lit {
        Some(i + lit.len() as int)
    } else {
        None
    }
}

/// Reading a string value: its characters up to and including the closing
/// quote, with the escapes the writer uses decoded again: `\"` for a
/// quote, `\\` for a backslash, and `\u00` with two lowercase hex digits
/// for a control character. Any other use of the backslash is corrupt.
pub open spec fn sp_quoted(s: Seq<char>, i: int) -> Option<(Seq<char>, int)>
    decreases s.len() - i when 0 <= i <= s.len()
{
    if i >= s.len() {
        None
    } else if s[i] == '"' {
        Some((Seq::empty(), i + 1))
    } else if s[i] == '\\' {
        if i + 1 >= s.len() {
            None
        } else if s[i + 1] == '"' || s[i + 1] == '\\' {
            match sp_quoted(s, i + 2) {
                None => None,
                Some((c, j)) => Some((seq![s[i + 1]] + c, j)),
            }
        } else if s[i + 1] == 'u' && i + 6 <= s.len() && s[i + 2] == '0' && s[i + 3] == '0'
            && is_hex_lower(s[i + 4]) && is_hex_lower(s[i + 5]) && hex_val(s[i + 4]) * 16 + hex_val(
            s[i + 5],
        ) < 0x20 {
            match sp_quoted(s, i + 6) {
                None => None,
                Some((c, j)) => Some(
                    (seq![(hex_val(s[i + 4]) * 16 + hex_val(s[i + 5])) as char] + c, j),
                ),
            }
        } else {
            None
        }
    } else {
        match sp_quoted(s, i + 1) {
            None => None,
            Some((c, j)) => Some((seq![s[i]] + c, j)),
        }
    }
}

/// Reading an unsigned decimal number: the maximal digit run, which must be
/// non-empty and fit the type.
pub open spec fn sp_u64(s: Seq<char>, i: int) -> Option<(u64, int)> {
    let j = text::digit_run_end(s, i);
    if j == i {
        None
    } else {
        let v = text::seq_val(s.subrange(i, j));
        if v > u64::MAX {
            None
        } else {
            Some((v as u64, j))
        }
    }
}

/// Reading an optional timestamp: `null` or a number of seconds.
pub open spec fn sp_ts(s: Seq<char>, i: int) -> Option<(Option<i64>, int)> {
    match sp_lit(s, i, t_null()) {
        Some(j) => Some((None, j)),
        None => match sp_u64(s, i) {
            None => None,
            Some((v, j)) => if v <= i64::MAX as u64 {
                Some((Some(v as i64), j))
            } else {
                None
            },
        },
    }
}

/// Reading a status value: one of the three quoted words.
pub open spec fn sp_status(s: Seq<char>, i: int) -> Option<(ExerciseStatus, int)> {
    match sp_quoted(s, i) {
        None => None,
        Some((w, j)) => if w == status_text(ExerciseStatus::Locked) {
            Some((ExerciseStatus::Locked, j))
        } else if w == status_text(ExerciseStatus::Pending) {
            Some((ExerciseStatus::Pending, j))
        } else if w == status_text(ExerciseStatus::Completed) {
            Some((ExerciseStatus::Completed, j))
        } else {
            None
        },
    }
}

/// Reading one exercise entry of the map.
pub open spec fn sp_entry(s: Seq<char>, i: int) -> Option<((Seq<char>, ExerciseProgress), int)> {
    match sp_lit(s, i, t_entry_key()) {
        None => None,
        Some(i1) => match sp_quoted(s, i1) {
            None => None,
            Some((k, i2)) => match sp_lit(s, i2, t_status()) {
                None => None,
                Some(i3) => match sp_status(s, i3) {
                    None => None,
                    Some((st, i4)) => match sp_lit(s, i4, t_attempts()) {
                        None => None,
                        Some(i5) => match sp_u64(s, i5) {
                            None => None,
                            Some((att, i6)) => if att > u32::MAX as u64 {
                                None
                            } else {
                                match sp_lit(s, i6, t_started()) {
                                    None => None,
                                    Some(i7) => match sp_ts(s, i7) {
                                        None => None,
                                        Some((sa, i8)) => match sp_lit(s, i8, t_completed()) {
                                            None => None,
                                            Some(i9) => match sp_ts(s, i9) {
                                                None => None,
                                                Some((ca, i10)) => match sp_lit(
                                                    s,
                                                    i10,
                                                    t_entry_close(),
                                                ) {
                                                    None => None,
                                                    Some(i11) => Some(
                                                        (
                                                            (
                                                                k,
                                                                ExerciseProgress {
                                                                    status: st,
                                                                    attempts: att as u32,
                                                                    started_at: sa,
                                                                    completed_at: ca,
                                                                },
                                                            ),
                                                            i11,
                                                        ),
                                                    ),
                                                },
                                            },
                                        },
                                    },
                                }
                            },
                        },
                    },
                },
            },
        },
    }
}

/// Reading the entries of a non-empty map, up to and including its closing
/// brace.
pub open spec fn sp_entries(s: Seq<char>, i: int) -> Option<
    (Seq<(Seq<char>, ExerciseProgress)>, int),
>
    decreases s.len() - i when 0 <= i <= s.len()
{
    match sp_entry(s, i) {
        None => None,
        Some((e, j)) => if j <= i || j > s.len() {
            None
        } else {
            match sp_lit(s, j, t_entry_sep()) {
                Some(j2) => if j2 <= j {
                    None
                } else {
                    match sp_entries(s, j2) {
                        None => None,
                        Some((rest, j3)) => Some((seq![e] + rest, j3)),
                    }
                },
                None => match sp_lit(s, j, t_map_close()) {
                    None => None,
                    Some(j4) => Some((seq![e], j4)),
                },
            }
        },
    }
}

/// Reading the exercise map.
pub open spec fn sp_map(s: Seq<char>, i: int) -> Option<(Seq<(Seq<char>, ExerciseProgress)>, int)> {
    match sp_lit(s, i, t_empty_map()) {
        Some(j) => Some((Seq::empty(), j)),
        None => match sp_lit(s, i, t_map_open()) {
            None => None,
            Some(i1) => sp_entries(s, i1),
        },
    }
}

/// Reading a whole persisted record. The text must carry the object's
/// fields in their fixed order and nothing may follow the closing brace.
pub open spec fn parse_model(s: Seq<char>) -> Option<StateModel> {
    match sp_lit(s, 0, t_head()) {
        None => None,
        Some(i1) => match sp_quoted(s, i1) {
            None => None,
            Some((user, i2)) => match sp_lit(s, i2, t_module()) {
                None => None,
                Some(i3) => match sp_quoted(s, i3) {
                    None => None,
                    Some((cm, i4)) => match sp_lit(s, i4, t_exercise()) {
                        None => None,
                        Some(i5) => match sp_quoted(s, i5) {
                            None => None,
                            Some((ce, i6)) => match sp_lit(s, i6, t_exercises()) {
                                None => None,
                                Some(i7) => match sp_map(s, i7) {
                                    None => None,
                                    Some((es, i8)) => match sp_lit(s, i8, t_last()) {
                                        None => None,
                                        Some(i9) => match sp_ts(s, i9) {
                                            None => None,
                                            Some((ls, i10)) => match sp_lit(s, i10, t_tail()) {
                                                None => None,
                                                Some(i11) => if i11 == s.len() {
                                                    Some(
                                                        StateModel {
                                                            user,
                                                            current_module: cm,
                                                            current_exercise: ce,
                                                            exercises: es,
                                                            last_session: ls,
                                                        },
                                                    )
                                                } else {
                                                    None
                                                },
                                            },
                                        },
                                    },
                                },
                            },
                        },
                    },
                },
            },
        },
    }
}

/// An escaped string value followed by its closing quote is read back as
/// exactly the original characters.
pub proof fn lemma_quoted_escaped(s: Seq<char>, i: int, c: Seq<char>)
    requires
        0 <= i,
        i + esc_seq(c).len() < s.len(),
        s.subrange(i, i + esc_seq(c).len() as int) == esc_seq(c),
        s[i + esc_seq(c).len()] == '"',
    ensures
        sp_quoted(s, i) == Some((c, i + esc_seq(c).len() + 1)),
    decreases c.len(),
{
    let e = esc_seq(c);
    assert forall|k: int| 0 <= k < e.len() implies s[i + k] == e[k] by {
        assert(s.subrange(i, i + e.len() as int)[k] == s[i + k]);
    }
    if c.len() == 0 {
        assert(e =~= Seq::<char>::empty());
        assert(s[i] == '"');
        assert(c =~= Seq::<char>::empty());
    } else {
        let c0 = c[0];
        let e0 = esc_char(c0);
        let rest = esc_seq(c.drop_first());
        assert(e == e0 + rest);
        assert(forall|k: int| 0 <= k < e0.len() ==> (e0 + rest)[k] == e0[k]);
        let i2 = i + e0.len() as int;
        assert forall|t: int| 0 <= t < rest.len() implies s[i2 + t] == rest[t] by {
            assert(s[i + (e0.len() + t)] == e[e0.len() + t]);
            assert((e0 + rest)[e0.len() + t] == rest[t]);
        }
        assert(s.subrange(i2, i2 + rest.len() as int) =~= rest);
        assert(s[i2 + rest.len()] == '"');
        lemma_quoted_escaped(s, i2, c.drop_first());
        let end = i + e.len() + 1;
        assert(i2 + rest.len() + 1 == end);
        assert(s[i + 0] == e[0]);
        if c0 == '"' {
            assert(s[i] == '\\' && s[i + 1] == '"');
            assert(sp_quoted(s, i) == Some((seq![c0] + c.drop_first(), end)));
        } else if c0 == '\\' {
            assert(s[i] == '\\' && s[i + 1] == '\\');
            assert(sp_quoted(s, i) == Some((seq![c0] + c.drop_first(), end)));
        } else if (c0 as int) < 0x20 {
            vstd::arithmetic::div_mod::lemma_fundamental_div_mod(c0 as int, 16);
            lemma_char_code(c0);
            assert((c0 as int) >= 0 && (c0 as int) < 0x20);
            let q = (c0 as int / 16) as nat;
            let r = (c0 as int % 16) as nat;
            assert(q < 2 && r < 16);
            lemma_hex_char(q);
            lemma_hex_char(r);
            assert(s[i] == '\\' && s[i + 1] == 'u' && s[i + 2] == '0' && s[i + 3] == '0');
            assert(s[i + 4] == hex_char(q) && s[i + 5] == hex_char(r));
            assert(hex_val(s[i + 4]) * 16 + hex_val(s[i + 5]) == c0 as int);
            assert((hex_val(s[i + 4]) * 16 + hex_val(s[i + 5])) as char == c0);
            assert(sp_quoted(s, i) == Some((seq![c0] + c.drop_first(), end)));
        } else {
            assert(e0 =~= seq![c0]);
            assert(s[i] == c0);
            assert(sp_quoted(s, i) == Some((seq![c0] + c.drop_first(), end)));
        }
        assert(seq![c0] + c.drop_first() =~= c);
    }
}

/// Read a fixed literal at `i`.
fn ex_lit(s: &str, n: usize, i: usize, lit: &str) -> (r: Option<usize>)
    requires
        n == s@.len(),
        i <= n,
    ensures
        match r {
            Some(j) => sp_lit(s@, i as int, lit@) == Some(j as int) && i <= j <= n,
            None => sp_lit(s@, i as int, lit@) is None,
        },
{
    let m = lit.unicode_len();
    if m > n - i {
        return None;
    }
    let mut k: usize = 0;
    while k < m
        invariant
            0 <= k <= m,
            n == s@.len(),
            m == lit@.len(),
            i + m <= n,
            forall|t: int| 0 <= t < k ==> s@[i + t] == lit@[t],
        decreases m - k,
    {
        if s.get_char(i + k) != lit.get_char(k) {
            proof {
                assert(s@.subrange(i as int, i + m as int)[k as int] != lit@[k as int]);
            }
            return None;
        }
        k += 1;
    }
    proof {
        assert(s@.subrange(i as int, i + m as int) =~= lit@);
    }
    Some(i + m)
}

/// A decoded prefix joined onto whatever remains to be read.
spec fn quoted_with_prefix(p: Seq<char>, r: Option<(Seq<char>, int)>) -> Option<(Seq<char>, int)> {
    match r {
        None => None,
        Some((c, j)) => Some((p + c, j)),
    }
}

/// Joining two prefixes one after the other is joining their concatenation.
proof fn lemma_prefix_assoc(a: Seq<char>, b: Seq<char>, r: Option<(Seq<char>, int)>)
    ensures
        quoted_with_prefix(a, quoted_with_prefix(b, r)) == quoted_with_prefix(a + b, r),
{
    match r {
        None => {
        },
        Some((c, j)) => {
            assert(a + (b + c) =~= (a + b) + c);
        },
    }
}

/// Decode one lowercase hexadecimal digit.
fn hex_digit_val(c: char) -> (r: Option<u8>)
    ensures
        match r {
            Some(v) => is_hex_lower(c) && v < 16 && v as nat == hex_val(c),
            None => !is_hex_lower(c),
        },
{
    if c >= '0' && c <= '9' {
        Some(((c as u32) - ('0' as u32)) as u8)
    } else if c >= 'a' && c <= 'f' {
        Some((((c as u32) - ('a' as u32)) + 10) as u8)
    } else {
        None
    }
}

/// Read a string value at `i`: everything up to the closing quote, with
/// the escapes decoded.
fn ex_quoted(s: &str, n: usize, i: usize) -> (r: Option<(String, usize)>)
    requires
        n == s@.len(),
        i <= n,
    ensures
        match r {
            Some((c, j)) => sp_quoted(s@, i as int) == Some((c@, j as int)) && i < j <= n,
            None => sp_quoted(s@, i as int) is None,
        },
{
    let mut acc = String::new();
    let mut j = i;
    loop
        invariant
            i <= j <= n,
            n == s@.len(),
            sp_quoted(s@, i as int) == quoted_with_prefix(acc@, sp_quoted(s@, j as int)),
        decreases n - j,
    {
        if j == n {
            return None;
        }
        let ch = s.get_char(j);
        if ch == '"' {
            proof {
                assert(acc@ + Seq::<char>::empty() =~= acc@);
            }
            return Some((acc, j + 1));
        }
        if ch == '\\' {
            if j + 1 == n {
                return None;
            }
            let d = s.get_char(j + 1);
            if d == '"' || d == '\\' {
                let ghost acc0 = acc@;
                acc.push(d);
                proof {
                    lemma_prefix_assoc(acc0, seq![d], sp_quoted(s@, j + 2));
                    assert(acc0 + seq![d] =~= acc@);
                    assert(sp_quoted(s@, j as int) == quoted_with_prefix(
                        seq![d],
                        sp_quoted(s@, j + 2),
                    ));
                }
                j += 2;
            } else if d == 'u' {
                if n - j < 6 {
                    return None;
                }
                if s.get_char(j + 2) != '0' || s.get_char(j + 3) != '0' {
                    return None;
                }
                let v1 = match hex_digit_val(s.get_char(j + 4)) {
                    Some(v) => v,
                    None => {
                        return None;
                    },
                };
                let v2 = match hex_digit_val(s.get_char(j + 5)) {
                    Some(v) => v,
                    None => {
                        return None;
                    },
                };
                let v: u8 = v1 * 16 + v2;
                if v >= 0x20 {
                    return None;
                }
                let dc = v as char;
                let ghost acc0 = acc@;
                acc.push(dc);
                proof {
                    assert(hex_val(s@[j + 4]) * 16 + hex_val(s@[j + 5]) == v as nat);
                    assert(seq![dc] =~= seq![
                        (hex_val(s@[j + 4]) * 16 + hex_val(s@[j + 5])) as char,
                    ]);
                    lemma_prefix_assoc(acc0, seq![dc], sp_quoted(s@, j + 6));
                    assert(acc0 + seq![dc] =~= acc@);
                    assert(sp_quoted(s@, j as int) == quoted_with_prefix(
                        seq![dc],
                        sp_quoted(s@, j + 6),
                    ));
                }
                j += 6;
            } else {
                return None;
            }
        } else {
            let ghost acc0 = acc@;
            acc.push(ch);
            proof {
                lemma_prefix_assoc(acc0, seq![ch], sp_quoted(s@, j + 1));
                assert(acc0 + seq![ch] =~= acc@);
                assert(sp_quoted(s@, j as int) == quoted_with_prefix(
                    seq![ch],
                    sp_quoted(s@, j + 1),
                ));
            }
            j += 1;
        }
    }
}

/// Read an unsigned decimal number at `i`.
fn ex_u64(s: &str, n: usize, i: usize) -> (r: Option<(u64, usize)>)
    requires
        n == s@.len(),
        i <= n,
    ensures
        match r {
            Some((v, j)) => sp_u64(s@, i as int) == Some((v, j as int)) && i < j <= n,
            None => sp_u64(s@, i as int) is None,
        },
{
    let mut j = i;
    while j < n && text::is_digit_char(s.get_char(j))
        invariant
            i <= j <= n,
            n == s@.len(),
            forall|k: int| i <= k < j ==> text::is_digit(s@[k]),
        decreases n - j,
    {
        j += 1;
    }
    proof {
        text::lemma_digit_run_end(s@, i as int, j as int);
    }
    if j == i {
        return None;
    }
    let ghost digits = s@.subrange(i as int, j as int);
    let mut acc: u64 = 0;
    let mut k = i;
    while k < j
        invariant
            i < j,
            i <= k <= j <= n,
            n == s@.len(),
            forall|t: int| i <= t < j ==> text::is_digit(s@[t]),
            digits == s@.subrange(i as int, j as int),
            text::digit_run_end(s@, i as int) == j as int,
            acc as nat == text::seq_val(s@.subrange(i as int, k as int)),
        decreases j - k,
    {
        let c = s.get_char(k);
        proof {
            assert(text::is_digit(s@[k as int]));
        }
        let d = (c as u32 - '0' as u32) as u64;
        proof {
            assert(d == text::digit_val(s@[k as int]));
        }
        let limit = (u64::MAX - d) / 10;
        proof {
            text::lemma_acc_step(acc as nat, d as nat);
            assert(s@.subrange(i as int, (k + 1) as int) =~= s@.subrange(
                i as int,
                k as int,
            ).push(s@[k as int]));
            text::lemma_seq_val_push(s@.subrange(i as int, k as int), s@[k as int]);
        }
        if acc > limit {
            proof {
                let pre = s@.subrange(i as int, (k + 1) as int);
                assert(text::seq_val(pre) > u64::MAX);
                assert(pre =~= digits.subrange(0, (k + 1 - i) as int));
                text::lemma_seq_val_extend(pre, digits);
                assert(text::seq_val(digits) > u64::MAX);
            }
            return None;
        }
        acc = acc * 10 + d;
        k += 1;
    }
    proof {
        assert(digits =~= s@.subrange(i as int, k as int));
    }
    Some((acc, j))
}

/// Read an optional timestamp at `i`.
fn ex_ts(s: &str, n: usize, i: usize) -> (r: Option<(Option<i64>, usize)>)
    requires
        n == s@.len(),
        i <= n,
    ensures
        match r {
            Some((t, j)) => sp_ts(s@, i as int) == Some((t, j as int)) && i <= j <= n,
            None => sp_ts(s@, i as int) is None,
        },
{
    match ex_lit(s, n, i, "null") {
        Some(j) => Some((None, j)),
        None => match ex_u64(s, n, i) {
            None => None,
            Some((v, j)) => if v <= i64::MAX as u64 {
                Some((Some(v as i64), j))
            } else {
                None
            },
        },
    }
}

/// Read a quoted status word at `i`.
fn ex_status(s: &str, n: usize, i: usize) -> (r: Option<(ExerciseStatus, usize)>)
    requires
        n == s@.len(),
        i <= n,
    ensures
        match r {
            Some((st, j)) => sp_status(s@, i as int) == Some((st, j as int)) && i <= j <= n,
            None => sp_status(s@, i as int) is None,
        },
{
    match ex_quoted(s, n, i) {
        None => None,
        Some((w, j)) => {
            if text::str_eq(w.as_str(), "Locked") {
                Some((ExerciseStatus::Locked, j))
            } else if text::str_eq(w.as_str(), "Pending") {
                Some((ExerciseStatus::Pending, j))
            } else if text::str_eq(w.as_str(), "Completed") {
                Some((ExerciseStatus::Completed, j))
            } else {
                None
            }
        },
    }
}

/// Read one exercise entry at `i`.
fn ex_entry(s: &str, n: usize, i: usize) -> (r: Option<((String, ExerciseProgress), usize)>)
    requires
        n == s@.len(),
        i <= n,
    ensures
        match r {
            Some((e, j)) => sp_entry(s@, i as int) == Some(((e.0@, e.1), j as int)) && i <= j <= n,
            None => sp_entry(s@, i as int) is None,
        },
{
    let i1 = match ex_lit(s, n, i, "    \"") {
        None => {
            return None;
        },
        Some(x) => x,
    };
    let (key, i2) = match ex_quoted(s, n, i1) {
        None => {
            return None;
        },
        Some(x) => x,
    };
    let i3 = match ex_lit(s, n, i2, ": {\n      \"status\": \"") {
        None => {
            return None;
        },
        Some(x) => x,
    };
    let (st, i4) = match ex_status(s, n, i3) {
        None => {
            return None;
        },
        Some(x) => x,
    };
    let i5 = match ex_lit(s, n, i4, ",\n      \"attempts\": ") {
        None => {
            return None;
        },
        Some(x) => x,
    };
    let (att, i6) = match ex_u64(s, n, i5) {
        None => {
            return None;
        },
        Some(x) => x,
    };
    if att > u32::MAX as u64 {
        return None;
    }
    let i7 = match ex_lit(s, n, i6, ",\n      \"started_at\": ") {
        None => {
            return None;
        },
        Some(x) => x,
    };
    let (sa, i8) = match ex_ts(s, n, i7) {
        None => {
            return None;
        },
        Some(x) => x,
    };
    let i9 = match ex_lit(s, n, i8, ",\n      \"completed_at\": ") {
        None => {
            return None;
        },
        Some(x) => x,
    };
    let (ca, i10) = match ex_ts(s, n, i9) {
        None => {
            return None;
        },
        Some(x) => x,
    };
    let i11 = match ex_lit(s, n, i10, "\n    }") {
        None => {
            return None;
        },
        Some(x) => x,
    };
    let p = ExerciseProgress { status: st, attempts: att as u32, started_at: sa, completed_at: ca };
    Some(((key, p), i11))
}

/// Read the entries of a non-empty map at `i`, including the closing brace.
fn ex_entries(s: &str, n: usize, i: usize) -> (r: Option<
    (Vec<(String, ExerciseProgress)>, usize),
>)
    requires
        n == s@.len(),
        i <= n,
    ensures
        match r {
            Some((v, j)) => sp_entries(s@, i as int) == Some(
                (crate::progress::entries_model(v@), j as int),
            ) && i <= j <= n,
            None => sp_entries(s@, i as int) is None,
        },
    decreases n - i,
{
    let (e, j) = match ex_entry(s, n, i) {
        None => {
            return None;
        },
        Some(x) => x,
    };
    if j <= i {
        return None;
    }
    match ex_lit(s, n, j, ",\n") {
        Some(j2) => {
            if j2 <= j {
                return None;
            }
            match ex_entries(s, n, j2) {
                None => None,
                Some((mut rest, j3)) => {
                    let ghost rest0 = rest@;
                    rest.insert(0, e);
                    proof {
                        assert(crate::progress::entries_model(rest@) =~= seq![(e.0@, e.1)]
                            + crate::progress::entries_model(rest0));
                    }
                    Some((rest, j3))
                },
            }
        },
        None => match ex_lit(s, n, j, "\n  }") {
            None => None,
            Some(j4) => {
                let mut v: Vec<(String, ExerciseProgress)> = Vec::new();
                let ghost ekey = e.0@;
                let ghost ep = e.1;
                v.push(e);
                proof {
                    assert(crate::progress::entries_model(v@) =~= seq![(ekey, ep)]);
                }
                Some((v, j4))
            },
        },
    }
}

/// Read the exercise map at `i`.
fn ex_map(s: &str, n: usize, i: usize) -> (r: Option<(Vec<(String, ExerciseProgress)>, usize)>)
    requires
        n == s@.len(),
        i <= n,
    ensures
        match r {
            Some((v, j)) => sp_map(s@, i as int) == Some(
                (crate::progress::entries_model(v@), j as int),
            ) && i <= j <= n,
            None => sp_map(s@, i as int) is None,
        },
{
    match ex_lit(s, n, i, "{}") {
        Some(j) => {
            let v: Vec<(String, ExerciseProgress)> = Vec::new();
            proof {
                assert(crate::progress::entries_model(v@) =~= Seq::<
                    (Seq<char>, ExerciseProgress),
                >::empty());
            }
            Some((v, j))
        },
        None => match ex_lit(s, n, i, "{\n") {
            None => None,
            Some(i1) => ex_entries(s, n, i1),
        },
    }
}

/// Read a whole persisted record; anything that deviates from the written
/// shape is rejected.
pub fn parse_state(s: &str) -> (r: Result<LearningState, StoreError>)
    ensures
        match r {
            Ok(st) => parse_model(s@) == Some(st@),
            Err(_) => parse_model(s@) is None,
        },
{
    let n = s.unicode_len();
    let i1 = match ex_lit(s, n, 0, "{\n  \"user\": \"") {
        None => {
            return Err(StoreError::Corrupt);
        },
        Some(x) => x,
    };
    let (user, i2) = match ex_quoted(s, n, i1) {
        None => {
            return Err(StoreError::Corrupt);
        },
        Some(x) => x,
    };
    let i3 = match ex_lit(s, n, i2, ",\n  \"current_module\": \"") {
        None => {
            return Err(StoreError::Corrupt);
        },
        Some(x) => x,
    };
    let (cm, i4) = match ex_quoted(s, n, i3) {
        None => {
            return Err(StoreError::Corrupt);
        },
        Some(x) => x,
    };
    let i5 = match ex_lit(s, n, i4, ",\n  \"current_exercise\": \"") {
        None => {
            return Err(StoreError::Corrupt);
        },
        Some(x) => x,
    };
    let (ce, i6) = match ex_quoted(s, n, i5) {
        None => {
            return Err(StoreError::Corrupt);
        },
        Some(x) => x,
    };
    let i7 = match ex_lit(s, n, i6, ",\n  \"exercises\": ") {
        None => {
            return Err(StoreError::Corrupt);
        },
        Some(x) => x,
    };
    let (es, i8) = match ex_map(s, n, i7) {
        None => {
            return Err(StoreError::Corrupt);
        },
        Some(x) => x,
    };
    let i9 = match ex_lit(s, n, i8, ",\n  \"last_session\": ") {
        None => {
            return Err(StoreError::Corrupt);
        },
        Some(x) => x,
    };
    let (ls, i10) = match ex_ts(s, n, i9) {
        None => {
            return Err(StoreError::Corrupt);
        },
        Some(x) => x,
    };
    let i11 = match ex_lit(s, n, i10, "\n}") {
        None => {
            return Err(StoreError::Corrupt);
        },
        Some(x) => x,
    };
    if i11 != n {
        return Err(StoreError::Corrupt);
    }
    let st = LearningState {
        user,
        current_module: cm,
        current_exercise: ce,
        exercises: es,
        last_session: ls,
    };
    Ok(st)
}

/// Load a record from the persisted file's content, handed in by the
/// caller: a missing file yields the default record, a malformed one the
/// hard `Corrupt` error, never a silent default.
pub fn load_from_text(content: Option<&str>, now: i64) -> (r: Result<LearningState, StoreError>)
    requires
        now >= 0,
    ensures
        match content {
            None => r matches Ok(st) && st@ == crate::progress::default_model(now),
            Some(t) => match r {
                Ok(st) => parse_model(t@) == Some(st@),
                Err(_) => parse_model(t@) is None,
            },
        },
{
    match content {
        None => Ok(LearningState::default(now)),
        Some(t) => parse_state(t),
    }
}

/// The lowercase hexadecimal digit of a value below sixteen.
fn hex_digit_char(d: u8) -> (r: char)
    requires
        d < 16,
    ensures
        r == hex_char(d as nat),
{
    if d == 0 {
        '0'
    } else if d == 1 {
        '1'
    } else if d == 2 {
        '2'
    } else if d == 3 {
        '3'
    } else if d == 4 {
        '4'
    } else if d == 5 {
        '5'
    } else if d == 6 {
        '6'
    } else if d == 7 {
        '7'
    } else if d == 8 {
        '8'
    } else if d == 9 {
        '9'
    } else if d == 10 {
        'a'
    } else if d == 11 {
        'b'
    } else if d == 12 {
        'c'
    } else if d == 13 {
        'd'
    } else if d == 14 {
        'e'
    } else {
        'f'
    }
}

/// Append one character in its persisted form.
fn push_escaped_char(out: &mut String, c: char)
    ensures
        final(out)@ == old(out)@ + esc_char(c),
{
    if c == '"' {
        out.append("\\\"");
        proof {
            reveal_strlit("\\\"");
            assert("\\\""@ =~= esc_char(c));
        }
    } else if c == '\\' {
        out.append("\\\\");
        proof {
            reveal_strlit("\\\\");
            assert("\\\\"@ =~= esc_char(c));
        }
    } else if (c as u32) < 0x20 {
        let v = c as u32;
        out.append("\\u00");
        let h1 = hex_digit_char((v / 16) as u8);
        let h2 = hex_digit_char((v % 16) as u8);
        out.push(h1);
        out.push(h2);
        proof {
            reveal_strlit("\\u00");
            assert(h1 == hex_char((c as int / 16) as nat));
            assert(h2 == hex_char((c as int % 16) as nat));
            assert(final(out)@ =~= old(out)@ + esc_char(c));
        }
    } else {
        out.push(c);
        proof {
            assert(esc_char(c) =~= seq![c]);
            assert(final(out)@ =~= old(out)@ + esc_char(c));
        }
    }
}

/// Append a whole string value in its persisted form.
fn push_escaped(out: &mut String, s: &str)
    ensures
        final(out)@ == old(out)@ + esc_seq(s@),
{
    let n = s.unicode_len();
    proof {
        assert(esc_seq(s@.take(0)) =~= Seq::<char>::empty());
        assert(out@ + Seq::<char>::empty() =~= out@);
    }
    let mut i: usize = 0;
    while i < n
        invariant
            0 <= i <= n,
            n == s@.len(),
            out@ == old(out)@ + esc_seq(s@.take(i as int)),
        decreases n - i,
    {
        let c = s.get_char(i);
        let ghost pre = s@.take(i as int);
        push_escaped_char(out, c);
        proof {
            assert(s@.take(i + 1) =~= pre.push(s@[i as int]));
            lemma_esc_snoc(pre, s@[i as int]);
            assert((old(out)@ + esc_seq(pre)) + esc_char(s@[i as int]) =~= old(out)@ + (esc_seq(pre)
                + esc_char(s@[i as int])));
        }
        i += 1;
    }
    proof {
        assert(s@.take(n as int) =~= s@);
    }
}

/// Append an optional timestamp.
fn push_ts(out: &mut String, t: &Option<i64>)
    requires
        crate::progress::wf_timestamp(*t),
    ensures
        final(out)@ == old(out)@ + render_ts(*t),
{
    match t {
        None => {
            out.append("null");
        },
        Some(v) => {
            out.append(text::u64_to_dec(*v as u64).as_str());
        },
    }
}

/// Append one exercise entry.
#[verifier::rlimit(50)]
fn push_entry(out: &mut String, key: &String, p: &ExerciseProgress)
    requires
        crate::progress::wf_progress(*p),
    ensures
        final(out)@ == old(out)@ + render_entry((key@, *p)),
{
    out.append("    \"");
    push_escaped(out, key.as_str());
    out.append("\"");
    out.append(": {\n      \"status\": \"");
    match p.status {
        ExerciseStatus::Locked => out.append("Locked"),
        ExerciseStatus::Pending => out.append("Pending"),
        ExerciseStatus::Completed => out.append("Completed"),
    }
    out.append("\"");
    out.append(",\n      \"attempts\": ");
    out.append(text::u64_to_dec(p.attempts as u64).as_str());
    out.append(",\n      \"started_at\": ");
    push_ts(out, &p.started_at);
    out.append(",\n      \"completed_at\": ");
    push_ts(out, &p.completed_at);
    out.append("\n    }");
    proof {
        assert(final(out)@ =~= old(out)@ + render_entry((key@, *p)));
    }
}

/// Append the entries from index `i` on, separated.
fn push_entries_from(out: &mut String, v: &Vec<(String, ExerciseProgress)>, i: usize)
    requires
        i < v.len(),
        forall|j: int|
            0 <= j < v@.len() ==> crate::progress::wf_progress(
                #[trigger] crate::progress::entries_model(v@)[j].1,
            ),
    ensures
        final(out)@ == old(out)@ + render_entries(
            crate::progress::entries_model(v@).skip(i as int),
        ),
    decreases v.len() - i,
{
    let ghost es = crate::progress::entries_model(v@).skip(i as int);
    proof {
        assert(crate::progress::entries_model(v@)[i as int].1 == v@[i as int].1);
        assert(crate::progress::wf_progress(v@[i as int].1));
    }
    push_entry(out, &v[i].0, &v[i].1);
    proof {
        assert(es[0] == crate::progress::entries_model(v@)[i as int]);
    }
    if i + 1 < v.len() {
        out.append(",\n");
        push_entries_from(out, v, i + 1);
        proof {
            assert(crate::progress::entries_model(v@).skip((i + 1) as int) =~= es.drop_first());
            assert(render_entries(es) == render_entry(es[0]) + t_entry_sep() + render_entries(
                es.drop_first(),
            ));
        }
    } else {
        proof {
            assert(es.len() == 1);
        }
    }
}

/// The persisted text of a record, exactly as `render_model` states it.
pub fn render_state(st: &LearningState) -> (s: String)
    requires
        st.wf(),
    ensures
        s@ == render_model(st@),
{
    let ghost m = st@;
    let mut out = String::new();
    out.append("{\n  \"user\": \"");
    push_escaped(&mut out, st.user.as_str());
    out.append("\"");
    out.append(",\n  \"current_module\": \"");
    push_escaped(&mut out, st.current_module.as_str());
    out.append("\"");
    out.append(",\n  \"current_exercise\": \"");
    push_escaped(&mut out, st.current_exercise.as_str());
    out.append("\"");
    out.append(",\n  \"exercises\": ");
    if st.exercises.len() == 0 {
        out.append("{}");
        proof {
            assert(m.exercises.len() == 0);
        }
    } else {
        out.append("{\n");
        push_entries_from(&mut out, &st.exercises, 0);
        out.append("\n  }");
        proof {
            assert(m.exercises.skip(0) =~= m.exercises);
        }
    }
    out.append(",\n  \"last_session\": ");
    push_ts(&mut out, &st.last_session);
    out.append("\n}");
    proof {
        assert(out@ =~= render_model(m));
    }
    out
}

} // verus!
