//! Change classification of an observation.

use vstd::prelude::*;

verus! {

/// How an observation changed the store.
///
/// The variants are ordered `New < Updated < Unchanged`; the classification of
/// an observation that touches several rows is the least of the rows'
/// classifications.
#[derive(Debug, Clone, Copy, PartialEq, Eq, Structural)]
pub enum ProcessStatus {
    /// The row did not exist and was inserted.
    New,
    /// The row existed and a tracked attribute differed.
    Updated,
    /// The row existed and no tracked attribute differed.
    Unchanged,
}

impl ProcessStatus {
    /// Position of the classification in the order `New < Updated < Unchanged`.
    pub open spec fn rank(self) -> int {
        match self {
            ProcessStatus::New => 0,
            ProcessStatus::Updated => 1,
            ProcessStatus::Unchanged => 2,
        }
    }

    /// The lesser of two classifications.
    pub open spec fn min(self, other: ProcessStatus) -> ProcessStatus {
        if other.rank() < self.rank() {
            other
        } else {
            self
        }
    }

    /// The least classification among `start` and the members of `rows`.
    pub open spec fn fold(start: ProcessStatus, rows: Seq<ProcessStatus>) -> ProcessStatus
        decreases rows.len(),
    {
        if rows.len() == 0 {
            start
        } else {
            Self::fold(start, rows.drop_last()).min(rows.last())
        }
    }

    /// The classification of a compound observation whose rows were classified
    /// as `rows`: `Unchanged` when there are none.
    pub open spec fn combined(rows: Seq<ProcessStatus>) -> ProcessStatus {
        Self::fold(ProcessStatus::Unchanged, rows)
    }

    /// Executable form of [`ProcessStatus::rank`].
    pub fn order(&self) -> (r: u8)
        ensures
            r as int == self.rank(),
    {
        match self {
            ProcessStatus::New => 0,
            ProcessStatus::Updated => 1,
            ProcessStatus::Unchanged => 2,
        }
    }

    /// Lowers `self` to `other` if `other` is the lesser classification.
    pub fn update(&mut self, other: ProcessStatus)
        ensures
            *final(self) == old(self).min(other),
    {
        if other.order() < self.order() {
            *self = other;
        }
    }

    /// Whether the classification reports a change, that is, is not `Unchanged`.
    pub fn changed(&self) -> (r: bool)
        ensures
            r == (*self != ProcessStatus::Unchanged),
    {
        match self {
            ProcessStatus::Unchanged => false,
            _ => true,
        }
    }
}

/// Taking the lesser of two classifications is idempotent, commutative and
/// associative; `Unchanged` changes nothing, and nothing changes `New`.
pub proof fn lemma_min_laws(a: ProcessStatus, b: ProcessStatus, c: ProcessStatus)
    ensures
        a.min(a) == a,
        a.min(b) == b.min(a),
        a.min(b).min(c) == a.min(b.min(c)),
        a.min(ProcessStatus::Unchanged) == a,
        ProcessStatus::Unchanged.min(a) == a,
        a.min(ProcessStatus::New) == ProcessStatus::New,
        a.min(b).rank() <= a.rank(),
        a.min(b).rank() <= b.rank(),
        a.min(b) == a || a.min(b) == b,
{
}

/// The classification of a compound observation is the least of its rows'
/// classifications: it is no greater than any of them, and it is one of them
/// unless there is no row, or every row is unchanged.
pub proof fn lemma_combined_is_least(rows: Seq<ProcessStatus>)
    ensures
        forall|i: int|
            0 <= i < rows.len() ==> ProcessStatus::combined(rows).rank() <= (#[trigger] rows[i]).rank(),
        ProcessStatus::combined(rows) == ProcessStatus::Unchanged || exists|i: int|
            0 <= i < rows.len() && #[trigger] rows[i] == ProcessStatus::combined(rows),
    decreases rows.len(),
{
    lemma_fold_is_least(ProcessStatus::Unchanged, rows);
}

/// Folding is taking the least: the result is no greater than the start and
/// than any row, and it is the start or one of the rows.
pub proof fn lemma_fold_is_least(start: ProcessStatus, rows: Seq<ProcessStatus>)
    ensures
        ProcessStatus::fold(start, rows).rank() <= start.rank(),
        forall|i: int|
            0 <= i < rows.len() ==> ProcessStatus::fold(start, rows).rank() <= (
            #[trigger] rows[i]).rank(),
        ProcessStatus::fold(start, rows) == start || exists|i: int|
            0 <= i < rows.len() && #[trigger] rows[i] == ProcessStatus::fold(start, rows),
    decreases rows.len(),
{
    if rows.len() > 0 {
        let front = rows.drop_last();
        lemma_fold_is_least(start, front);
        assert(forall|i: int| 0 <= i < front.len() ==> front[i] == rows[i]);
        let before = ProcessStatus::fold(start, front);
        let all = ProcessStatus::fold(start, rows);
        if all != start {
            if all == rows.last() {
                assert(rows[rows.len() - 1] == all);
            } else {
                let i = choose|i: int| 0 <= i < front.len() && #[trigger] front[i] == before;
                assert(rows[i] == all);
            }
        }
    }
}

/// Folding over rows from a start is the lesser of the start and the rows'
/// combined classification.
pub proof fn lemma_fold_from(start: ProcessStatus, rows: Seq<ProcessStatus>)
    ensures
        ProcessStatus::fold(start, rows) == start.min(ProcessStatus::combined(rows)),
    decreases rows.len(),
{
    if rows.len() > 0 {
        lemma_fold_from(start, rows.drop_last());
    }
}

/// The classification of a single row is its own, and that of two rows the
/// lesser of theirs.
pub proof fn lemma_combined_few(a: ProcessStatus, b: ProcessStatus)
    ensures
        ProcessStatus::combined(Seq::empty()) == ProcessStatus::Unchanged,
        ProcessStatus::combined(seq![a]) == a,
        ProcessStatus::combined(seq![a, b]) == a.min(b),
{
    assert(seq![a].drop_last() =~= Seq::<ProcessStatus>::empty());
    assert(seq![a, b].drop_last() =~= seq![a]);
    reveal_with_fuel(ProcessStatus::fold, 3);
}

/// The classification of two groups of rows together is the lesser of the
/// groups' classifications.
pub proof fn lemma_combined_concat(a: Seq<ProcessStatus>, b: Seq<ProcessStatus>)
    ensures
        ProcessStatus::combined(a + b) == ProcessStatus::combined(a).min(
            ProcessStatus::combined(b),
        ),
    decreases b.len(),
{
    if b.len() == 0 {
        assert(a + b =~= a);
    } else {
        assert((a + b).drop_last() =~= a + b.drop_last());
        assert((a + b).last() == b.last());
        lemma_combined_concat(a, b.drop_last());
    }
}

} // verus!
