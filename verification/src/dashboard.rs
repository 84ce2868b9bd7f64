//! The dashboard's decisions: what each key does, and how the next
//! exercise name is derived from the current one.
//!
//! The terminal loop itself — drawing, polling, spawning — lives outside
//! the library and only carries these decisions out.

use vstd::prelude::*;

use crate::text;

verus! {

/// The keys the dashboard reacts to.
#[derive(Clone, Copy, Debug, PartialEq, Eq, Structural)]
pub enum DashboardKey {
    Quit,
    RunTest,
    NextExercise,
    ScrollDown,
    ScrollUp,
    Other,
}

/// What the event loop does in response to a key.
#[derive(Clone, Copy, Debug, PartialEq, Eq, Structural)]
pub enum DashboardCmd {
    Quit,
    RunTest,
    NextExercise,
    Redraw,
}

/// The command and the new scroll position for a key press. Scrolling is
/// clamped to the window zero to one thousand; every other key leaves the
/// scroll position alone.
pub fn handle_key(key: DashboardKey, scroll: u16) -> (r: (DashboardCmd, u16))
    ensures
        key == DashboardKey::Quit ==> r == (DashboardCmd::Quit, scroll),
        key == DashboardKey::RunTest ==> r == (DashboardCmd::RunTest, scroll),
        key == DashboardKey::NextExercise ==> r == (DashboardCmd::NextExercise, scroll),
        key == DashboardKey::ScrollDown ==> r == (
            DashboardCmd::Redraw,
            if scroll < 1000 {
                (scroll + 1) as u16
            } else {
                scroll
            },
        ),
        key == DashboardKey::ScrollUp ==> r == (
            DashboardCmd::Redraw,
            if scroll > 0 {
                (scroll - 1) as u16
            } else {
                scroll
            },
        ),
        key == DashboardKey::Other ==> r == (DashboardCmd::Redraw, scroll),
{
    match key {
        DashboardKey::Quit => (DashboardCmd::Quit, scroll),
        DashboardKey::RunTest => (DashboardCmd::RunTest, scroll),
        DashboardKey::NextExercise => (DashboardCmd::NextExercise, scroll),
        DashboardKey::ScrollDown => {
            if scroll < 1000 {
                (DashboardCmd::Redraw, scroll + 1)
            } else {
                (DashboardCmd::Redraw, scroll)
            }
        },
        DashboardKey::ScrollUp => {
            if scroll > 0 {
                (DashboardCmd::Redraw, scroll - 1)
            } else {
                (DashboardCmd::Redraw, scroll)
            }
        },
        DashboardKey::Other => (DashboardCmd::Redraw, scroll),
    }
}

/// The first position of a decimal digit in `s`, or -1 when none occurs.
pub open spec fn first_digit(s: Seq<char>) -> int
    decreases s.len(),
{
    if s.len() == 0 {
        -1
    } else if text::is_digit(s[0]) {
        0
    } else if first_digit(s.drop_first()) == -1 {
        -1
    } else {
        first_digit(s.drop_first()) + 1
    }
}

/// A digit with no digit before it is the first digit.
proof fn lemma_first_digit_at(s: Seq<char>, i: int)
    requires
        0 <= i < s.len(),
        text::is_digit(s[i]),
        forall|j: int| 0 <= j < i ==> !text::is_digit(s[j]),
    ensures
        first_digit(s) == i,
    decreases s.len(),
{
    if i > 0 {
        lemma_first_digit_at(s.drop_first(), i - 1);
    }
}

/// Without any digit there is no first digit.
proof fn lemma_first_digit_none(s: Seq<char>)
    requires
        forall|j: int| 0 <= j < s.len() ==> !text::is_digit(s[j]),
    ensures
        first_digit(s) == -1,
    decreases s.len(),
{
    if s.len() > 0 {
        assert(forall|j: int| 0 <= j < s.len() - 1 ==> s.drop_first()[j] == s[j + 1]);
        lemma_first_digit_none(s.drop_first());
    }
}

/// The name of the exercise after this one: the part before the first
/// digit, then the numeric suffix increased by one. There is no next name
/// when no digit occurs, when the suffix is not purely numeric, or when
/// the counter cannot grow without leaving its type.
pub open spec fn next_name(s: Seq<char>) -> Option<Seq<char>> {
    let p = first_digit(s);
    if p < 0 {
        None
    } else if text::all_digits(s.skip(p)) && text::seq_val(s.skip(p)) + 1 <= u32::MAX {
        Some(s.take(p) + text::dec_seq(text::seq_val(s.skip(p)) + 1))
    } else {
        None
    }
}

/// Derive the next exercise name from the current one.
pub fn next_exercise_name(current: &str) -> (r: Option<String>)
    ensures
        match r {
            Some(name) => next_name(current@) == Some(name@),
            None => next_name(current@) is None,
        },
{
    let n = current.unicode_len();
    let mut p: usize = 0;
    while p < n && !text::is_digit_char(current.get_char(p))
        invariant
            0 <= p <= n,
            n == current@.len(),
            forall|j: int| 0 <= j < p ==> !text::is_digit(current@[j]),
        decreases n - p,
    {
        p += 1;
    }
    if p == n {
        proof {
            lemma_first_digit_none(current@);
        }
        return None;
    }
    proof {
        lemma_first_digit_at(current@, p as int);
    }
    let ghost d = current@.skip(p as int);
    let mut k = p;
    let mut acc: u64 = 0;
    while k < n
        invariant
            p <= k <= n,
            p < n,
            n == current@.len(),
            d == current@.skip(p as int),
            first_digit(current@) == p as int,
            forall|j: int| p <= j < k ==> text::is_digit(current@[j]),
            acc as nat == text::seq_val(current@.subrange(p as int, k as int)),
            acc <= u32::MAX,
        decreases n - k,
    {
        let c = current.get_char(k);
        if !text::is_digit_char(c) {
            proof {
                assert(d[k - p] == current@[k as int]);
                assert(!text::all_digits(d));
            }
            return None;
        }
        let dv = (c as u32 - '0' as u32) as u64;
        proof {
            assert(dv == text::digit_val(current@[k as int]));
            assert(current@.subrange(p as int, (k + 1) as int) =~= current@.subrange(
                p as int,
                k as int,
            ).push(current@[k as int]));
            text::lemma_seq_val_push(current@.subrange(p as int, k as int), current@[k as int]);
        }
        acc = acc * 10 + dv;
        k += 1;
        if acc > u32::MAX as u64 {
            proof {
                let pre = current@.subrange(p as int, k as int);
                assert(pre =~= d.subrange(0, (k - p) as int));
                text::lemma_seq_val_extend(pre, d);
                assert(text::seq_val(d) > u32::MAX);
            }
            return None;
        }
    }
    proof {
        assert(d =~= current@.subrange(p as int, n as int));
        assert(forall|j: int| 0 <= j < d.len() ==> text::is_digit(#[trigger] d[j]));
    }
    if acc >= u32::MAX as u64 {
        return None;
    }
    let mut out = current.substring_char(0, p).to_owned();
    out.append(text::u64_to_dec(acc + 1).as_str());
    proof {
        assert(out@ == current@.take(p as int) + text::dec_seq((acc + 1) as nat));
    }
    Some(out)
}

} // verus!
