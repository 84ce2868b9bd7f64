//! The learner's progress record and the operations on it.
//!
//! Timestamps are plain values: seconds since the Unix epoch, never
//! negative in a well-formed record.

use vstd::prelude::*;

use crate::text;

verus! {

/// The one hard error of the store: a persisted file that does not parse.
/// It is surfaced, never silently replaced by a default record.
#[derive(Clone, Copy, Debug, PartialEq, Eq, Structural)]
pub enum StoreError {
    Corrupt,
}

/// Completion status of a single exercise.
#[derive(Clone, Copy, Debug, PartialEq, Eq, Structural)]
pub enum ExerciseStatus {
    Locked,
    Pending,
    Completed,
}

/// Per-exercise progress: status, attempt counter, optional timestamps.
#[derive(Clone, Copy, Debug, PartialEq)]
pub struct ExerciseProgress {
    pub status: ExerciseStatus,
    pub attempts: u32,
    pub started_at: Option<i64>,
    pub completed_at: Option<i64>,
}

/// The persisted learner state. The exercise map is kept as a vector of
/// key/progress pairs with pairwise-distinct keys, in insertion order.
#[derive(Clone, Debug)]
pub struct LearningState {
    pub user: String,
    pub current_module: String,
    pub current_exercise: String,
    pub exercises: Vec<(String, ExerciseProgress)>,
    pub last_session: Option<i64>,
}

/// Mathematical model of a `LearningState`.
pub struct StateModel {
    pub user: Seq<char>,
    pub current_module: Seq<char>,
    pub current_exercise: Seq<char>,
    pub exercises: Seq<(Seq<char>, ExerciseProgress)>,
    pub last_session: Option<i64>,
}

/// The model of a vector of exercise entries.
pub open spec fn entries_model(v: Seq<(String, ExerciseProgress)>) -> Seq<
    (Seq<char>, ExerciseProgress),
> {
    Seq::new(v.len(), |i: int| (v[i].0@, v[i].1))
}

impl View for LearningState {
    type V = StateModel;

    open spec fn view(&self) -> StateModel {
        StateModel {
            user: self.user@,
            current_module: self.current_module@,
            current_exercise: self.current_exercise@,
            exercises: entries_model(self.exercises@),
            last_session: self.last_session,
        }
    }
}

/// There is an entry under key `k`.
pub open spec fn has_entry(es: Seq<(Seq<char>, ExerciseProgress)>, k: Seq<char>) -> bool {
    exists|i: int| 0 <= i < es.len() && es[i].0 == k
}

/// The index of the entry under key `k` (meaningful when keys are distinct).
pub open spec fn idx_of(es: Seq<(Seq<char>, ExerciseProgress)>, k: Seq<char>) -> int {
    choose|i: int| 0 <= i < es.len() && es[i].0 == k
}

/// All keys are pairwise distinct.
pub open spec fn unique_keys(es: Seq<(Seq<char>, ExerciseProgress)>) -> bool {
    forall|i: int, j: int| 0 <= i < es.len() && 0 <= j < es.len() && i != j ==> es[i].0 != es[j].0
}

/// An optional timestamp is never negative.
pub open spec fn wf_timestamp(t: Option<i64>) -> bool {
    match t {
        Some(v) => v >= 0,
        None => true,
    }
}

/// Well-formed per-exercise progress.
pub open spec fn wf_progress(p: ExerciseProgress) -> bool {
    wf_timestamp(p.started_at) && wf_timestamp(p.completed_at)
}

impl StateModel {
    /// Well-formed record: distinct keys and valid timestamps.
    pub open spec fn wf(self) -> bool {
        &&& unique_keys(self.exercises)
        &&& forall|i: int|
            0 <= i < self.exercises.len() ==> wf_progress(#[trigger] self.exercises[i].1)
        &&& wf_timestamp(self.last_session)
    }
}

/// The progress entry recorded at first completion.
pub open spec fn fresh_completed(now: i64) -> ExerciseProgress {
    ExerciseProgress {
        status: ExerciseStatus::Completed,
        attempts: 1,
        started_at: Some(now),
        completed_at: Some(now),
    }
}

/// An existing entry after a completion event: status and completion time
/// change, attempts and start time stay.
pub open spec fn completed_version(p: ExerciseProgress, now: i64) -> ExerciseProgress {
    ExerciseProgress {
        status: ExerciseStatus::Completed,
        attempts: p.attempts,
        started_at: p.started_at,
        completed_at: Some(now),
    }
}

/// What `mark_completed` does to the exercise map: update the entry under
/// `k` in place if there is one, otherwise append a fresh completed entry.
pub open spec fn mark_model(
    es: Seq<(Seq<char>, ExerciseProgress)>,
    k: Seq<char>,
    now: i64,
) -> Seq<(Seq<char>, ExerciseProgress)> {
    if has_entry(es, k) {
        let i = idx_of(es, k);
        es.update(i, (k, completed_version(es[i].1, now)))
    } else {
        es.push((k, fresh_completed(now)))
    }
}

/// The default record used when nothing has been persisted yet: the fixed
/// default user, the first module and exercise, no per-exercise entries,
/// and the given time as the last session.
pub open spec fn default_model(now: i64) -> StateModel {
    StateModel {
        user: "Student"@,
        current_module: "01_variables"@,
        current_exercise: "variables1"@,
        exercises: Seq::empty(),
        last_session: Some(now),
    }
}

impl LearningState {
    /// Well-formed record.
    pub open spec fn wf(self) -> bool {
        self@.wf()
    }

    /// The default record used when nothing has been persisted yet.
    pub fn default(now: i64) -> (s: LearningState)
        requires
            now >= 0,
        ensures
            s@ == default_model(now),
            s.wf(),
    {
        proof {
            reveal_strlit("Student");
            reveal_strlit("01_variables");
            reveal_strlit("variables1");
        }
        let s = LearningState {
            user: String::from_str("Student"),
            current_module: String::from_str("01_variables"),
            current_exercise: String::from_str("variables1"),
            exercises: Vec::new(),
            last_session: Some(now),
        };
        proof {
            assert(s@.exercises =~= Seq::<(Seq<char>, ExerciseProgress)>::empty());
            assert(s@ == default_model(now));
        }
        s
    }

    /// Record a completion event for `name` at time `now`. Does not persist;
    /// the caller saves afterwards.
    pub fn mark_completed(&mut self, name: &str, now: i64)
        requires
            old(self).wf(),
            now >= 0,
        ensures
            final(self)@.user == old(self)@.user,
            final(self)@.current_module == old(self)@.current_module,
            final(self)@.current_exercise == old(self)@.current_exercise,
            final(self)@.last_session == old(self)@.last_session,
            final(self)@.exercises == mark_model(old(self)@.exercises, name@, now),
            final(self).wf(),
    {
        let ghost es0 = self@.exercises;
        let n = self.exercises.len();
        let mut i: usize = 0;
        while i < n
            invariant
                i <= n,
                n == self.exercises.len(),
                self == old(self),
                old(self).wf(),
                now >= 0,
                forall|j: int| 0 <= j < i ==> es0[j].0 != name@,
                es0 == self@.exercises,
                es0 == old(self)@.exercises,
            decreases n - i,
        {
            if text::str_eq(self.exercises[i].0.as_str(), name) {
                proof {
                    assert(es0[i as int].0 == name@);
                    assert(has_entry(es0, name@));
                    assert(unique_keys(es0));
                    lemma_idx_unique(es0, name@, i as int);
                }
                let entry = self.exercises.remove(i);
                let p = entry.1;
                let updated = ExerciseProgress {
                    status: ExerciseStatus::Completed,
                    attempts: p.attempts,
                    started_at: p.started_at,
                    completed_at: Some(now),
                };
                self.exercises.insert(i, (entry.0, updated));
                proof {
                    assert(self@.exercises =~= mark_model(es0, name@, now));
                    lemma_mark_wf(old(self)@, name@, now);
                }
                return ;
            }
            i += 1;
        }
        self.exercises.push((String::from_str(name), ExerciseProgress {
            status: ExerciseStatus::Completed,
            attempts: 1,
            started_at: Some(now),
            completed_at: Some(now),
        }));
        proof {
            assert(!has_entry(es0, name@));
            assert(self@.exercises =~= mark_model(es0, name@, now));
            lemma_mark_wf(old(self)@, name@, now);
        }
    }
}

/// Whether an optional timestamp is valid.
fn ts_is_wf(t: &Option<i64>) -> (r: bool)
    ensures
        r == wf_timestamp(*t),
{
    match t {
        Some(v) => *v >= 0,
        None => true,
    }
}

impl LearningState {
    /// Decide well-formedness of the record: distinct keys and valid
    /// timestamps. Callers that obtained a record from outside the
    /// library test it here before persisting it.
    pub fn check_wf(&self) -> (r: bool)
        ensures
            r == self.wf(),
    {
        if !ts_is_wf(&self.last_session) {
            return false;
        }
        let n = self.exercises.len();
        let ghost es = self@.exercises;
        let mut i: usize = 0;
        while i < n
            invariant
                0 <= i <= n,
                n == self.exercises@.len(),
                es == self@.exercises,
                es == entries_model(self.exercises@),
                forall|j: int| 0 <= j < i ==> wf_progress(#[trigger] es[j].1),
                forall|a: int, b: int| 0 <= a < b < i ==> es[a].0 != es[b].0,
            decreases n - i,
        {
            let p = self.exercises[i].1;
            if !ts_is_wf(&p.started_at) {
                proof {
                    assert(es[i as int].1 == p);
                }
                return false;
            }
            if !ts_is_wf(&p.completed_at) {
                proof {
                    assert(es[i as int].1 == p);
                }
                return false;
            }
            let mut j: usize = 0;
            while j < i
                invariant
                    0 <= j <= i < n,
                    n == self.exercises@.len(),
                    es == self@.exercises,
                    es == entries_model(self.exercises@),
                    forall|b: int| 0 <= b < j ==> es[b].0 != es[i as int].0,
                decreases i - j,
            {
                if text::str_eq(self.exercises[j].0.as_str(), self.exercises[i].0.as_str()) {
                    proof {
                        assert(es[j as int].0 == es[i as int].0);
                        assert(!unique_keys(es));
                    }
                    return false;
                }
                j += 1;
            }
            i += 1;
        }
        proof {
            assert forall|a: int, b: int|
                0 <= a < es.len() && 0 <= b < es.len() && a != b implies es[a].0 != es[b].0 by {
                if a < b {
                } else {
                }
            }
        }
        true
    }
}

/// Under distinct keys, an index holding `k` is the index of `k`.
pub proof fn lemma_idx_unique(es: Seq<(Seq<char>, ExerciseProgress)>, k: Seq<char>, i: int)
    requires
        unique_keys(es),
        0 <= i < es.len(),
        es[i].0 == k,
    ensures
        has_entry(es, k),
        idx_of(es, k) == i,
{
    assert(has_entry(es, k));
    let j = idx_of(es, k);
    assert(0 <= j < es.len() && es[j].0 == k);
    if i != j {
        assert(es[i].0 != es[j].0);
    }
}

/// Marking a completion preserves well-formedness of the record.
pub proof fn lemma_mark_wf(m: StateModel, k: Seq<char>, now: i64)
    requires
        m.wf(),
        now >= 0,
    ensures
        (StateModel { exercises: mark_model(m.exercises, k, now), ..m }).wf(),
{
    let es = m.exercises;
    let es1 = mark_model(es, k, now);
    if has_entry(es, k) {
        let i = idx_of(es, k);
        assert(0 <= i < es.len() && es[i].0 == k);
        assert forall|a: int, b: int|
            0 <= a < es1.len() && 0 <= b < es1.len() && a != b implies es1[a].0 != es1[b].0 by {
            assert(es1[a].0 == es[a].0);
            assert(es1[b].0 == es[b].0);
        }
    } else {
        assert forall|a: int, b: int|
            0 <= a < es1.len() && 0 <= b < es1.len() && a != b implies es1[a].0 != es1[b].0 by {
            if a < es.len() && b < es.len() {
                assert(es1[a].0 == es[a].0);
                assert(es1[b].0 == es[b].0);
            } else if a < es.len() {
                assert(es1[b].0 == k);
                assert(!(es[a].0 == k)) by {
                    if es[a].0 == k {
                        assert(has_entry(es, k));
                    }
                }
            } else {
                assert(es1[a].0 == k);
                assert(!(es[b].0 == k)) by {
                    if es[b].0 == k {
                        assert(has_entry(es, k));
                    }
                }
            }
        }
    }
}

/// The attempt counter recorded under `k`.
pub open spec fn attempts_of(es: Seq<(Seq<char>, ExerciseProgress)>, k: Seq<char>) -> u32 {
    es[idx_of(es, k)].1.attempts
}

/// The status recorded under `k`.
pub open spec fn status_of(es: Seq<(Seq<char>, ExerciseProgress)>, k: Seq<char>) -> ExerciseStatus {
    es[idx_of(es, k)].1.status
}

/// Marking a completion always ends with status `Completed` under the key,
/// and is idempotent on status. It never changes the attempt counter of an
/// existing entry; only a fresh entry gets attempts equal to one.
pub proof fn lemma_mark_completed_law(
    es: Seq<(Seq<char>, ExerciseProgress)>,
    k: Seq<char>,
    t1: i64,
    t2: i64,
)
    requires
        unique_keys(es),
    ensures
        has_entry(mark_model(es, k, t1), k),
        status_of(mark_model(es, k, t1), k) == ExerciseStatus::Completed,
        status_of(mark_model(mark_model(es, k, t1), k, t2), k) == ExerciseStatus::Completed,
        attempts_of(mark_model(mark_model(es, k, t1), k, t2), k) == attempts_of(
            mark_model(es, k, t1),
            k,
        ),
        !has_entry(es, k) ==> attempts_of(mark_model(es, k, t1), k) == 1,
        has_entry(es, k) ==> attempts_of(mark_model(es, k, t1), k) == es[idx_of(es, k)].1.attempts,
{
    let es1 = mark_model(es, k, t1);
    if has_entry(es, k) {
        let i = idx_of(es, k);
        assert(0 <= i < es.len() && es[i].0 == k);
        lemma_unique_update(es, i, (k, completed_version(es[i].1, t1)));
        lemma_idx_unique(es1, k, i);
    } else {
        lemma_unique_push(es, k, fresh_completed(t1));
        lemma_idx_unique(es1, k, es.len() as int);
    }
    let i1 = idx_of(es1, k);
    let es2 = mark_model(es1, k, t2);
    lemma_unique_update(es1, i1, (k, completed_version(es1[i1].1, t2)));
    lemma_idx_unique(es2, k, i1);
}

/// Updating an entry without changing its key keeps keys distinct.
proof fn lemma_unique_update(
    es: Seq<(Seq<char>, ExerciseProgress)>,
    i: int,
    e: (Seq<char>, ExerciseProgress),
)
    requires
        unique_keys(es),
        0 <= i < es.len(),
        e.0 == es[i].0,
    ensures
        unique_keys(es.update(i, e)),
{
    let es1 = es.update(i, e);
    assert forall|a: int, b: int|
        0 <= a < es1.len() && 0 <= b < es1.len() && a != b implies es1[a].0 != es1[b].0 by {
        assert(es1[a].0 == es[a].0);
        assert(es1[b].0 == es[b].0);
    }
}

/// Appending an entry under an absent key keeps keys distinct.
proof fn lemma_unique_push(
    es: Seq<(Seq<char>, ExerciseProgress)>,
    k: Seq<char>,
    p: ExerciseProgress,
)
    requires
        unique_keys(es),
        !has_entry(es, k),
    ensures
        unique_keys(es.push((k, p))),
{
    let es1 = es.push((k, p));
    assert forall|a: int, b: int|
        0 <= a < es1.len() && 0 <= b < es1.len() && a != b implies es1[a].0 != es1[b].0 by {
        if a < es.len() && b < es.len() {
            assert(es1[a].0 == es[a].0);
            assert(es1[b].0 == es[b].0);
        } else if a < es.len() {
            if es[a].0 == k {
                assert(has_entry(es, k));
            }
        } else {
            if es[b].0 == k {
                assert(has_entry(es, k));
            }
        }
    }
}

} // verus!
