//! Round-trip law of the persisted record: reading back a just-written
//! text yields the same record.
//!
//! Each step lemma shows that the reader, positioned at the start of a
//! rendered fragment, consumes exactly that fragment and yields the value
//! it was rendered from.

use vstd::prelude::*;

use crate::codec::{
    esc_seq, lemma_esc_plain, lemma_quoted_escaped, parse_model, render_entries, render_entry,
    render_map, render_model, render_ts, sp_entries, sp_entry, sp_lit, sp_map, sp_quoted,
    sp_status, sp_ts, sp_u64, status_text, t_attempts, t_completed, t_empty_map, t_entry_close,
    t_entry_key, t_entry_sep, t_exercise, t_exercises, t_head, t_last, t_map_close, t_map_open,
    t_module, t_null, t_quote, t_started, t_status, t_tail,
};
use crate::progress::{ExerciseProgress, ExerciseStatus, StateModel};
use crate::text;

verus! {

/// A literal is read back as itself.
proof fn step_lit(s: Seq<char>, i: int, lit: Seq<char>, rest: Seq<char>)
    requires
        0 <= i <= s.len(),
        s.skip(i) == lit + rest,
    ensures
        sp_lit(s, i, lit) == Some(i + lit.len()),
        i + lit.len() <= s.len(),
        s.skip(i + lit.len()) == rest,
{
    let j = i + lit.len() as int;
    assert(s.skip(i).len() == s.len() - i);
    assert(s.subrange(i, j) =~= lit) by {
        assert forall|t: int| 0 <= t < lit.len() implies s.subrange(i, j)[t] == lit[t] by {
            assert(s.subrange(i, j)[t] == s.skip(i)[t]);
            assert((lit + rest)[t] == lit[t]);
        }
    }
    assert(s.skip(j) =~= rest) by {
        assert forall|t: int| 0 <= t < rest.len() implies s.skip(j)[t] == rest[t] by {
            assert(s.skip(j)[t] == s.skip(i)[lit.len() + t]);
            assert((lit + rest)[lit.len() + t] == rest[t]);
        }
    }
}

/// An escaped string value followed by its closing quote is read back as
/// itself.
proof fn step_quoted(s: Seq<char>, i: int, c: Seq<char>, rest: Seq<char>)
    requires
        0 <= i <= s.len(),
        s.skip(i) == esc_seq(c) + (t_quote() + rest),
    ensures
        sp_quoted(s, i) == Some((c, i + esc_seq(c).len() + 1)),
        i + esc_seq(c).len() + 1 <= s.len(),
        s.skip(i + esc_seq(c).len() + 1) == rest,
{
    reveal_strlit("\"");
    assert(t_quote().len() == 1);
    assert(t_quote()[0] == '"');
    let e = esc_seq(c);
    let j = i + e.len() as int;
    assert(s.skip(i).len() == s.len() - i);
    assert(j + 1 <= s.len());
    assert(s.subrange(i, j) =~= e) by {
        assert forall|t: int| 0 <= t < e.len() implies s.subrange(i, j)[t] == e[t] by {
            assert(s.subrange(i, j)[t] == s.skip(i)[t]);
            assert((e + (t_quote() + rest))[t] == e[t]);
        }
    }
    assert(s[j] == s.skip(i)[e.len() as int]);
    assert((e + (t_quote() + rest))[e.len() as int] == t_quote()[0]);
    lemma_quoted_escaped(s, i, c);
    assert(s.skip(j + 1) =~= rest) by {
        assert forall|t: int| 0 <= t < rest.len() implies s.skip(j + 1)[t] == rest[t] by {
            assert(s.skip(j + 1)[t] == s.skip(i)[e.len() + 1 + t]);
            assert((e + (t_quote() + rest))[e.len() + 1 + t] == rest[t]);
        }
    }
}

/// A rendered number, followed by something that is not a digit, is read
/// back as the same number.
proof fn step_u64(s: Seq<char>, i: int, v: u64, rest: Seq<char>)
    requires
        0 <= i <= s.len(),
        s.skip(i) == text::dec_seq(v as nat) + rest,
        rest.len() >= 1,
        !text::is_digit(rest[0]),
    ensures
        sp_u64(s, i) == Some((v, i + text::dec_seq(v as nat).len())),
        i + text::dec_seq(v as nat).len() <= s.len(),
        s.skip(i + text::dec_seq(v as nat).len()) == rest,
{
    let d = text::dec_seq(v as nat);
    text::lemma_dec_seq(v as nat);
    let j = i + d.len() as int;
    assert(s.skip(i).len() == s.len() - i);
    assert(j < s.len());
    assert forall|k: int| i <= k < j implies text::is_digit(s[k]) by {
        assert(s[k] == s.skip(i)[k - i]);
        assert((d + rest)[k - i] == d[k - i]);
    }
    assert(s[j] == s.skip(i)[d.len() as int]);
    assert((d + rest)[d.len() as int] == rest[0]);
    text::lemma_digit_run_end(s, i, j);
    assert(s.subrange(i, j) =~= d) by {
        assert forall|t: int| 0 <= t < d.len() implies s.subrange(i, j)[t] == d[t] by {
            assert(s.subrange(i, j)[t] == s.skip(i)[t]);
            assert((d + rest)[t] == d[t]);
        }
    }
    assert(s.skip(j) =~= rest) by {
        assert forall|t: int| 0 <= t < rest.len() implies s.skip(j)[t] == rest[t] by {
            assert(s.skip(j)[t] == s.skip(i)[d.len() + t]);
            assert((d + rest)[d.len() + t] == rest[t]);
        }
    }
}

/// A rendered optional timestamp is read back as itself.
proof fn step_ts(s: Seq<char>, i: int, t: Option<i64>, rest: Seq<char>)
    requires
        0 <= i <= s.len(),
        s.skip(i) == render_ts(t) + rest,
        crate::progress::wf_timestamp(t),
        rest.len() >= 1,
        !text::is_digit(rest[0]),
    ensures
        sp_ts(s, i) == Some((t, i + render_ts(t).len())),
        i + render_ts(t).len() <= s.len(),
        s.skip(i + render_ts(t).len()) == rest,
{
    reveal_strlit("null");
    match t {
        None => {
            step_lit(s, i, t_null(), rest);
        },
        Some(v) => {
            let d = text::dec_seq(v as nat);
            text::lemma_dec_seq(v as nat);
            step_u64(s, i, v as u64, rest);
            assert(sp_lit(s, i, t_null()) is None) by {
                if sp_lit(s, i, t_null()) is Some {
                    assert(s.subrange(i, i + 4) == t_null());
                    assert(s[i] == t_null()[0]);
                    assert(s[i] == s.skip(i)[0]);
                    assert((d + rest)[0] == d[0]);
                    assert(text::is_digit(d[0]));
                }
            }
            assert(v as u64 <= i64::MAX as u64);
        },
    }
}

/// The three status words are plain text — they are persisted verbatim —
/// and their lengths differ pairwise.
proof fn lemma_status_words()
    ensures
        esc_seq(status_text(ExerciseStatus::Locked)) == status_text(ExerciseStatus::Locked),
        esc_seq(status_text(ExerciseStatus::Pending)) == status_text(ExerciseStatus::Pending),
        esc_seq(status_text(ExerciseStatus::Completed)) == status_text(ExerciseStatus::Completed),
        status_text(ExerciseStatus::Locked).len() == 6,
        status_text(ExerciseStatus::Pending).len() == 7,
        status_text(ExerciseStatus::Completed).len() == 9,
{
    reveal_strlit("Locked");
    reveal_strlit("Pending");
    reveal_strlit("Completed");
    assert(text::plain_seq(status_text(ExerciseStatus::Locked)));
    assert(text::plain_seq(status_text(ExerciseStatus::Pending)));
    assert(text::plain_seq(status_text(ExerciseStatus::Completed)));
    lemma_esc_plain(status_text(ExerciseStatus::Locked));
    lemma_esc_plain(status_text(ExerciseStatus::Pending));
    lemma_esc_plain(status_text(ExerciseStatus::Completed));
}

/// A rendered status word with its closing quote is read back as the same
/// status.
proof fn step_status(s: Seq<char>, i: int, st: ExerciseStatus, rest: Seq<char>)
    requires
        0 <= i <= s.len(),
        s.skip(i) == status_text(st) + (t_quote() + rest),
    ensures
        sp_status(s, i) == Some((st, i + status_text(st).len() + 1)),
        i + status_text(st).len() + 1 <= s.len(),
        s.skip(i + status_text(st).len() + 1) == rest,
{
    lemma_status_words();
    assert(s.skip(i) =~= esc_seq(status_text(st)) + (t_quote() + rest));
    step_quoted(s, i, status_text(st), rest);
}

/// A rendered exercise entry is read back as itself.
#[verifier::rlimit(80)]
proof fn step_entry(
    s: Seq<char>,
    i: int,
    e: (Seq<char>, ExerciseProgress),
    rest: Seq<char>,
)
    requires
        0 <= i <= s.len(),
        s.skip(i) == render_entry(e) + rest,
        crate::progress::wf_progress(e.1),
    ensures
        sp_entry(s, i) == Some((e, i + render_entry(e).len())),
        i + render_entry(e).len() <= s.len(),
        s.skip(i + render_entry(e).len()) == rest,
{
    reveal_strlit(",\n      \"attempts\": ");
    reveal_strlit(",\n      \"started_at\": ");
    reveal_strlit(",\n      \"completed_at\": ");
    reveal_strlit("\n    }");
    let p = e.1;
    let r13 = t_entry_close() + rest;
    let r12 = render_ts(p.completed_at) + r13;
    let r11 = t_completed() + r12;
    let r10 = render_ts(p.started_at) + r11;
    let r9 = t_started() + r10;
    let r8 = text::dec_seq(p.attempts as nat) + r9;
    let r7 = t_attempts() + r8;
    let r6 = t_quote() + r7;
    let r5 = status_text(p.status) + r6;
    let r4 = t_status() + r5;
    let r3 = t_quote() + r4;
    let r2 = esc_seq(e.0) + r3;
    assert(s.skip(i) =~= t_entry_key() + r2);
    step_lit(s, i, t_entry_key(), r2);
    let i1 = i + t_entry_key().len() as int;
    step_quoted(s, i1, e.0, r4);
    let i2 = i1 + esc_seq(e.0).len() + 1;
    step_lit(s, i2, t_status(), r5);
    let i3 = i2 + t_status().len() as int;
    step_status(s, i3, p.status, r7);
    let i4 = i3 + status_text(p.status).len() + 1;
    step_lit(s, i4, t_attempts(), r8);
    let i5 = i4 + t_attempts().len() as int;
    assert(t_started().len() >= 1 && !text::is_digit(r9[0]));
    step_u64(s, i5, p.attempts as u64, r9);
    let i6 = i5 + text::dec_seq(p.attempts as nat).len() as int;
    step_lit(s, i6, t_started(), r10);
    let i7 = i6 + t_started().len() as int;
    assert(t_completed().len() >= 1 && !text::is_digit(r11[0]));
    step_ts(s, i7, p.started_at, r11);
    let i8 = i7 + render_ts(p.started_at).len() as int;
    step_lit(s, i8, t_completed(), r12);
    let i9 = i8 + t_completed().len() as int;
    assert(t_entry_close().len() >= 1 && !text::is_digit(r13[0]));
    step_ts(s, i9, p.completed_at, r13);
    let i10 = i9 + render_ts(p.completed_at).len() as int;
    step_lit(s, i10, t_entry_close(), rest);
    let i11 = i10 + t_entry_close().len() as int;
    assert(i11 == i + render_entry(e).len());
    assert((p.attempts as u64) <= u32::MAX as u64);
    assert((p.attempts as u64) as u32 == p.attempts);
    assert(sp_entry(s, i) == Some((e, i11)));
}

/// A rendered entry list with the map's closing brace is read back as the
/// same entries.
proof fn step_entries(
    s: Seq<char>,
    i: int,
    es: Seq<(Seq<char>, ExerciseProgress)>,
    rest: Seq<char>,
)
    requires
        0 <= i <= s.len(),
        s.skip(i) == render_entries(es) + (t_map_close() + rest),
        es.len() >= 1,
        forall|k: int| 0 <= k < es.len() ==> crate::progress::wf_progress(#[trigger] es[k].1),
    ensures
        sp_entries(s, i) == Some(
            (es, i + render_entries(es).len() + t_map_close().len()),
        ),
        i + render_entries(es).len() + t_map_close().len() <= s.len(),
        s.skip(i + render_entries(es).len() + t_map_close().len()) == rest,
    decreases es.len(),
{
    reveal_strlit("    \"");
    reveal_strlit(",\n");
    reveal_strlit("\n  }");
    lemma_entry_len_positive(es[0]);
    if es.len() == 1 {
        assert(render_entries(es) == render_entry(es[0]));
        assert(s.skip(i) =~= render_entry(es[0]) + (t_map_close() + rest));
        step_entry(s, i, es[0], t_map_close() + rest);
        let j = i + render_entry(es[0]).len() as int;
        assert(j > i);
        assert(sp_lit(s, j, t_entry_sep()) is None) by {
            if sp_lit(s, j, t_entry_sep()) is Some {
                assert(s.subrange(j, j + 2) == t_entry_sep());
                assert(s[j] == t_entry_sep()[0]);
                assert(s[j] == s.skip(j)[0]);
                assert((t_map_close() + rest)[0] == t_map_close()[0]);
            }
        }
        step_lit(s, j, t_map_close(), rest);
        assert(seq![es[0]] =~= es);
    } else {
        assert(render_entries(es) == render_entry(es[0]) + t_entry_sep() + render_entries(
            es.drop_first(),
        ));
        let tail = t_entry_sep() + (render_entries(es.drop_first()) + (t_map_close() + rest));
        assert(s.skip(i) =~= render_entry(es[0]) + tail);
        step_entry(s, i, es[0], tail);
        let j = i + render_entry(es[0]).len() as int;
        assert(j > i);
        step_lit(s, j, t_entry_sep(), render_entries(es.drop_first()) + (t_map_close() + rest));
        let j2 = j + t_entry_sep().len() as int;
        assert(j2 > j);
        let dropped = es.drop_first();
        assert(forall|k: int|
            0 <= k < dropped.len() ==> crate::progress::wf_progress(#[trigger] dropped[k].1));
        step_entries(s, j2, dropped, rest);
        assert(seq![es[0]] + dropped =~= es);
    }
}

/// A rendered entry is never empty.
proof fn lemma_entry_len_positive(e: (Seq<char>, ExerciseProgress))
    ensures
        render_entry(e).len() >= 1,
{
    reveal_strlit("    \"");
    assert(t_entry_key().len() == 5);
}

/// A rendered exercise map is read back as the same entries.
proof fn step_map(
    s: Seq<char>,
    i: int,
    es: Seq<(Seq<char>, ExerciseProgress)>,
    rest: Seq<char>,
)
    requires
        0 <= i <= s.len(),
        s.skip(i) == render_map(es) + rest,
        forall|k: int| 0 <= k < es.len() ==> crate::progress::wf_progress(#[trigger] es[k].1),
    ensures
        sp_map(s, i) == Some((es, i + render_map(es).len())),
        i + render_map(es).len() <= s.len(),
        s.skip(i + render_map(es).len()) == rest,
{
    reveal_strlit("{}");
    reveal_strlit("{\n");
    if es.len() == 0 {
        step_lit(s, i, t_empty_map(), rest);
    } else {
        assert(sp_lit(s, i, t_empty_map()) is None) by {
            if sp_lit(s, i, t_empty_map()) is Some {
                assert(s.subrange(i, i + 2) == t_empty_map());
                assert(s[i + 1] == t_empty_map()[1]);
                assert(s[i + 1] == s.skip(i)[1]);
                assert((render_map(es) + rest)[1] == render_map(es)[1]);
                assert(render_map(es)[1] == t_map_open()[1]);
            }
        }
        let tail = render_entries(es) + (t_map_close() + rest);
        assert(s.skip(i) =~= t_map_open() + tail);
        step_lit(s, i, t_map_open(), tail);
        let i1 = i + t_map_open().len() as int;
        step_entries(s, i1, es, rest);
    }
}

/// The persisted text is stable: loading a saved record and saving it
/// again writes byte-for-byte the same text.
pub proof fn lemma_save_is_stable(m: StateModel)
    requires
        m.wf(),
    ensures
        parse_model(render_model(m)) matches Some(m2) && render_model(m2) == render_model(m),
{
    lemma_render_parse_round_trip(m);
}

/// The reader consumes the header and the three string fields of a
/// rendered record and arrives at the exercise map.
#[verifier::rlimit(100)]
proof fn round_trip_fields(m: StateModel)
    ensures
        ({
            let s = render_model(m);
            let i1 = t_head().len() as int;
            let i2 = i1 + esc_seq(m.user).len() + 1;
            let i3 = i2 + t_module().len() as int;
            let i4 = i3 + esc_seq(m.current_module).len() + 1;
            let i5 = i4 + t_exercise().len() as int;
            let i6 = i5 + esc_seq(m.current_exercise).len() + 1;
            let i7 = i6 + t_exercises().len() as int;
            &&& sp_lit(s, 0, t_head()) == Some(i1)
            &&& sp_quoted(s, i1) == Some((m.user, i2))
            &&& sp_lit(s, i2, t_module()) == Some(i3)
            &&& sp_quoted(s, i3) == Some((m.current_module, i4))
            &&& sp_lit(s, i4, t_exercise()) == Some(i5)
            &&& sp_quoted(s, i5) == Some((m.current_exercise, i6))
            &&& sp_lit(s, i6, t_exercises()) == Some(i7)
            &&& 0 <= i7 <= s.len()
            &&& s.skip(i7) == render_map(m.exercises) + (t_last() + (render_ts(m.last_session)
                + t_tail()))
        }),
{
    reveal_strlit("{\n  \"user\": \"");
    reveal_strlit(",\n  \"current_module\": \"");
    reveal_strlit(",\n  \"current_exercise\": \"");
    reveal_strlit(",\n  \"exercises\": ");
    let s = render_model(m);
    let r13 = t_tail();
    let r12 = render_ts(m.last_session) + r13;
    let r11 = t_last() + r12;
    let r10 = render_map(m.exercises) + r11;
    let r9 = t_exercises() + r10;
    let r8 = t_quote() + r9;
    let r7 = esc_seq(m.current_exercise) + r8;
    let r6 = t_exercise() + r7;
    let r5 = t_quote() + r6;
    let r4 = esc_seq(m.current_module) + r5;
    let r3 = t_module() + r4;
    let r2 = t_quote() + r3;
    let r1 = esc_seq(m.user) + r2;
    assert(s.skip(0) =~= t_head() + r1);
    step_lit(s, 0, t_head(), r1);
    let i1 = t_head().len() as int;
    step_quoted(s, i1, m.user, r3);
    let i2 = i1 + esc_seq(m.user).len() + 1;
    step_lit(s, i2, t_module(), r4);
    let i3 = i2 + t_module().len() as int;
    step_quoted(s, i3, m.current_module, r6);
    let i4 = i3 + esc_seq(m.current_module).len() + 1;
    step_lit(s, i4, t_exercise(), r7);
    let i5 = i4 + t_exercise().len() as int;
    step_quoted(s, i5, m.current_exercise, r9);
    let i6 = i5 + esc_seq(m.current_exercise).len() + 1;
    step_lit(s, i6, t_exercises(), r10);
}

/// The round-trip law of the store: a well-formed record, rendered and
/// read back, is recovered exactly, in all fields.
#[verifier::rlimit(100)]
pub proof fn lemma_render_parse_round_trip(m: StateModel)
    requires
        m.wf(),
    ensures
        parse_model(render_model(m)) == Some(m),
{
    reveal_strlit(",\n  \"last_session\": ");
    reveal_strlit("\n}");
    round_trip_fields(m);
    let s = render_model(m);
    let i1 = t_head().len() as int;
    let i2 = i1 + esc_seq(m.user).len() + 1;
    let i3 = i2 + t_module().len() as int;
    let i4 = i3 + esc_seq(m.current_module).len() + 1;
    let i5 = i4 + t_exercise().len() as int;
    let i6 = i5 + esc_seq(m.current_exercise).len() + 1;
    let i7 = i6 + t_exercises().len() as int;
    let r13 = t_tail();
    let r12 = render_ts(m.last_session) + r13;
    let r11 = t_last() + r12;
    assert(s.skip(i7) == render_map(m.exercises) + r11);
    step_map(s, i7, m.exercises, r11);
    let i8 = i7 + render_map(m.exercises).len() as int;
    step_lit(s, i8, t_last(), r12);
    let i9 = i8 + t_last().len() as int;
    assert(t_tail().len() >= 1 && !text::is_digit(r13[0]));
    step_ts(s, i9, m.last_session, r13);
    let i10 = i9 + render_ts(m.last_session).len() as int;
    step_lit(s, i10, t_tail(), Seq::<char>::empty());
    let i11 = i10 + t_tail().len() as int;
    assert(s.skip(i11).len() == 0);
    assert(i11 == s.len());
    assert(parse_model(s) == Some(
        StateModel {
            user: m.user,
            current_module: m.current_module,
            current_exercise: m.current_exercise,
            exercises: m.exercises,
            last_session: m.last_session,
        },
    ));
    assert(StateModel {
        user: m.user,
        current_module: m.current_module,
        current_exercise: m.current_exercise,
        exercises: m.exercises,
        last_session: m.last_session,
    } == m);
}

} // verus!
