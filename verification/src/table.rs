//! Searching a table, modelled as a sequence of rows.

use vstd::prelude::*;

verus! {

/// Index of the first row of `rows` that satisfies `pred`, if there is one.
pub open spec fn first_index<T>(rows: Seq<T>, pred: spec_fn(T) -> bool) -> Option<int>
    decreases rows.len(),
{
    if rows.len() == 0 {
        None
    } else {
        match first_index(rows.drop_last(), pred) {
            Some(i) => Some(i),
            None => if pred(rows.last()) {
                Some(rows.len() - 1)
            } else {
                None
            },
        }
    }
}

/// Whether at most one row of `rows` satisfies each of the predicates that
/// `key` yields, that is, whether `key` names a unique column.
pub open spec fn unique_by<T, K>(rows: Seq<T>, key: spec_fn(T) -> K) -> bool {
    forall|i: int, j: int|
        0 <= i < rows.len() && 0 <= j < rows.len() && key(#[trigger] rows[i]) == key(
            #[trigger] rows[j],
        ) ==> i == j
}

/// `first_index` finds a row exactly when one satisfies `pred`, and then it
/// is the one with the least index.
pub proof fn lemma_first_index<T>(rows: Seq<T>, pred: spec_fn(T) -> bool)
    ensures
        match first_index(rows, pred) {
            Some(i) => 0 <= i < rows.len() && pred(rows[i]) && forall|j: int|
                0 <= j < i ==> !pred(#[trigger] rows[j]),
            None => forall|j: int| 0 <= j < rows.len() ==> !pred(#[trigger] rows[j]),
        },
    decreases rows.len(),
{
    if rows.len() > 0 {
        let front = rows.drop_last();
        lemma_first_index(front, pred);
        assert(forall|j: int| 0 <= j < front.len() ==> front[j] == rows[j]);
        match first_index(front, pred) {
            Some(i) => {
                assert(rows[i] == front[i]);
                assert forall|j: int| 0 <= j < i implies !pred(#[trigger] rows[j]) by {
                    assert(front[j] == rows[j]);
                }
            },
            None => {
                assert forall|j: int| 0 <= j < rows.len() - 1 implies !pred(
                    #[trigger] rows[j],
                ) by {
                    assert(front[j] == rows[j]);
                }
            },
        }
    }
}

/// A row that satisfies `pred` and has none before it that does is the one
/// that `first_index` finds.
pub proof fn lemma_first_index_is<T>(rows: Seq<T>, pred: spec_fn(T) -> bool, i: int)
    requires
        0 <= i < rows.len(),
        pred(rows[i]),
        forall|j: int| 0 <= j < i ==> !pred(#[trigger] rows[j]),
    ensures
        first_index(rows, pred) == Some(i),
{
    lemma_first_index(rows, pred);
}

/// Where no row satisfies `pred`, `first_index` finds none.
pub proof fn lemma_first_index_none<T>(rows: Seq<T>, pred: spec_fn(T) -> bool)
    requires
        forall|j: int| 0 <= j < rows.len() ==> !pred(#[trigger] rows[j]),
    ensures
        first_index(rows, pred) is None,
{
    lemma_first_index(rows, pred);
}

/// Replacing a row by one with the same key keeps a column unique.
pub proof fn lemma_update_unique<T, K>(rows: Seq<T>, key: spec_fn(T) -> K, i: int, row: T)
    requires
        unique_by(rows, key),
        0 <= i < rows.len(),
        key(row) == key(rows[i]),
    ensures
        unique_by(rows.update(i, row), key),
{
    let updated = rows.update(i, row);
    assert forall|a: int, b: int|
        0 <= a < updated.len() && 0 <= b < updated.len() && key(#[trigger] updated[a]) == key(
            #[trigger] updated[b],
        ) implies a == b by {
        assert(key(updated[a]) == key(rows[a]));
        assert(key(updated[b]) == key(rows[b]));
    }
}

/// Adding a row whose key no row has keeps a column unique.
pub proof fn lemma_push_unique<T, K>(rows: Seq<T>, key: spec_fn(T) -> K, row: T)
    requires
        unique_by(rows, key),
        forall|j: int| 0 <= j < rows.len() ==> key(#[trigger] rows[j]) != key(row),
    ensures
        unique_by(rows.push(row), key),
{
    let pushed = rows.push(row);
    assert forall|a: int, b: int|
        0 <= a < pushed.len() && 0 <= b < pushed.len() && key(#[trigger] pushed[a]) == key(
            #[trigger] pushed[b],
        ) implies a == b by {
        if a < rows.len() {
            assert(pushed[a] == rows[a]);
        }
        if b < rows.len() {
            assert(pushed[b] == rows[b]);
        }
    }
}

/// Removing a row keeps a column unique.
pub proof fn lemma_remove_unique<T, K>(rows: Seq<T>, key: spec_fn(T) -> K, i: int)
    requires
        unique_by(rows, key),
        0 <= i < rows.len(),
    ensures
        unique_by(rows.remove(i), key),
{
    let rest = rows.remove(i);
    assert forall|a: int, b: int|
        0 <= a < rest.len() && 0 <= b < rest.len() && key(#[trigger] rest[a]) == key(
            #[trigger] rest[b],
        ) implies a == b by {
        let a0 = if a < i {
            a
        } else {
            a + 1
        };
        let b0 = if b < i {
            b
        } else {
            b + 1
        };
        assert(rest[a] == rows[a0]);
        assert(rest[b] == rows[b0]);
    }
}

} // verus!
