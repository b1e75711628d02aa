//! Reconciling the links of a parent with an observed set of members leaves
//! the parent linked to exactly the observed members.

use vstd::prelude::*;
use crate::database::links::{
    confirm, confirm_all, links_of, mark, reconcile, rows_where, stale_at, without_rows, Link,
};
use crate::database::schema::DatabaseView;
use crate::models::{Author, Label};
use crate::status::ProcessStatus;
use crate::table::{first_index, lemma_first_index};

verus! {

/// Whether a link that is not outdated links `member` to `parent`.
pub open spec fn has_fresh_link<L: Link>(links: Seq<L>, parent: usize, member: usize) -> bool {
    exists|i: int|
        0 <= i < links.len() && (#[trigger] links[i]).parent() == parent && links[i].member()
            == member && !links[i].outdated()
}

/// The members that `parent` is linked to by links that are not outdated.
pub open spec fn fresh_members<L: Link>(links: Seq<L>, parent: usize) -> Set<usize> {
    Set::new(|m: usize| has_fresh_link(links, parent, m))
}

/// The table after the links of `parent` were reconciled with `members` and
/// the links that were not confirmed were deleted.
pub open spec fn reconciled<L: Link>(links: Seq<L>, parent: usize, members: Seq<usize>) -> Seq<L> {
    let r = reconcile(links, parent, members);
    without_rows(r.links, r.outdated)
}

/// Whether `l` is not an outdated link of `parent`.
pub open spec fn not_stale_at<L: Link>(parent: usize) -> spec_fn(L) -> bool {
    |l: L| !(l.parent() == parent && l.outdated())
}

/// The rows that satisfy a predicate are listed by their indices.
pub proof fn lemma_rows_where<T>(rows: Seq<T>, pred: spec_fn(T) -> bool)
    requires
        rows.len() <= usize::MAX,
    ensures
        forall|i: int|
            0 <= i < rows.len() ==> (rows_where(rows, pred).contains(i as usize) <==> pred(
                #[trigger] rows[i],
            )),
        forall|k: int|
            0 <= k < rows_where(rows, pred).len() ==> (#[trigger] rows_where(rows, pred)[k])
                < rows.len(),
    decreases rows.len(),
{
    if rows.len() > 0 {
        let front = rows.drop_last();
        let last = (rows.len() - 1) as usize;
        lemma_rows_where(front, pred);
        let found = rows_where(rows, pred);
        let before = rows_where(front, pred);
        assert forall|i: int| 0 <= i < rows.len() implies (found.contains(i as usize) <==> pred(
            #[trigger] rows[i],
        )) by {
            if i < rows.len() - 1 {
                assert(front[i] == rows[i]);
                if pred(rows.last()) {
                    if before.contains(i as usize) {
                        let k = choose|k: int| 0 <= k < before.len() && before[k] == i as usize;
                        assert(found[k] == i as usize);
                    }
                    if found.contains(i as usize) {
                        let k = choose|k: int| 0 <= k < found.len() && found[k] == i as usize;
                        assert(k < before.len());
                        assert(before[k] == i as usize);
                    }
                }
            } else {
                if pred(rows.last()) {
                    assert(found[found.len() - 1] == last);
                } else {
                    if found.contains(i as usize) {
                        let k = choose|k: int| 0 <= k < found.len() && found[k] == i as usize;
                        assert(before[k] < front.len());
                    }
                }
            }
        }
    }
}

/// Deleting the rows that satisfy a predicate keeps the rows that do not.
pub proof fn lemma_without_rows_where<T>(rows: Seq<T>, pred: spec_fn(T) -> bool, dead: Seq<usize>)
    requires
        rows.len() <= usize::MAX,
        forall|i: int|
            0 <= i < rows.len() ==> (dead.contains(i as usize) <==> pred(#[trigger] rows[i])),
    ensures
        without_rows(rows, dead) == rows.filter(|r: T| !pred(r)),
    decreases rows.len(),
{
    reveal(Seq::filter);
    if rows.len() > 0 {
        let front = rows.drop_last();
        assert(forall|i: int| 0 <= i < front.len() ==> front[i] == rows[i]);
        lemma_without_rows_where(front, pred, dead);
        assert(dead.contains((rows.len() - 1) as usize) <==> pred(rows[rows.len() - 1]));
    }
}

/// A filter keeps no more rows than there are.
pub proof fn lemma_filter_len_le<T>(rows: Seq<T>, keep: spec_fn(T) -> bool)
    ensures
        rows.filter(keep).len() <= rows.len(),
    decreases rows.len(),
{
    reveal(Seq::filter);
    if rows.len() > 0 {
        lemma_filter_len_le(rows.drop_last(), keep);
    }
}

/// What a filter keeps are the rows that pass it.
pub proof fn lemma_filter_members<T>(rows: Seq<T>, keep: spec_fn(T) -> bool)
    ensures
        forall|k: int|
            0 <= k < rows.filter(keep).len() ==> keep(#[trigger] rows.filter(keep)[k])
                && rows.contains(rows.filter(keep)[k]),
        forall|i: int|
            0 <= i < rows.len() && keep(#[trigger] rows[i]) ==> rows.filter(keep).contains(rows[i]),
    decreases rows.len(),
{
    reveal(Seq::filter);
    if rows.len() > 0 {
        let front = rows.drop_last();
        lemma_filter_members(front, keep);
        let kept = rows.filter(keep);
        let before = front.filter(keep);
        assert forall|k: int| 0 <= k < kept.len() implies keep(#[trigger] kept[k])
            && rows.contains(kept[k]) by {
            if k < before.len() {
                assert(kept[k] == before[k]);
                let i = choose|i: int| 0 <= i < front.len() && front[i] == before[k];
                assert(rows[i] == kept[k]);
            } else {
                assert(kept[k] == rows.last());
                assert(rows[rows.len() - 1] == kept[k]);
            }
        }
        assert forall|i: int| 0 <= i < rows.len() && keep(#[trigger] rows[i]) implies kept.contains(
            rows[i],
        ) by {
            if i < front.len() {
                assert(front[i] == rows[i]);
                let k = choose|k: int| 0 <= k < before.len() && before[k] == front[i];
                assert(kept[k] == rows[i]);
            } else {
                assert(kept[kept.len() - 1] == rows[i]);
            }
        }
    }
}

/// Confirming links adds at most one row for each member.
pub proof fn lemma_confirm_all_len<L: Link>(links: Seq<L>, parent: usize, members: Seq<usize>)
    ensures
        links.len() <= confirm_all(links, parent, members).links.len() <= links.len()
            + members.len(),
    decreases members.len(),
{
    if members.len() > 0 {
        lemma_confirm_all_len(links, parent, members.drop_last());
        let before = confirm_all(links, parent, members.drop_last()).links;
        lemma_first_index(before, links_of::<L>(parent, members.last()));
    }
}

/// After the links of `parent` were marked and those of `members` confirmed,
/// the links of `parent` that are not outdated are those of `members`.
pub proof fn lemma_confirmed<L: Link>(links: Seq<L>, parent: usize, members: Seq<usize>)
    ensures
        forall|i: int|
            #![trigger confirm_all(mark(links, parent), parent, members).links[i]]
            {
                let confirmed = confirm_all(mark(links, parent), parent, members).links;
                0 <= i < confirmed.len() && confirmed[i].parent() == parent
                    && !confirmed[i].outdated() ==> members.contains(confirmed[i].member())
            },
        forall|k: int|
            0 <= k < members.len() ==> has_fresh_link(
                confirm_all(mark(links, parent), parent, members).links,
                parent,
                #[trigger] members[k],
            ),
    decreases members.len(),
{
    let marked = mark(links, parent);
    let confirmed = confirm_all(marked, parent, members).links;
    if members.len() == 0 {
        assert(confirmed == marked);
        assert forall|i: int|
            0 <= i < marked.len() && (#[trigger] marked[i]).parent() == parent implies marked[i].outdated() by {
            L::lemma_make(parent, links[i].member(), true);
        }
    } else {
        let front = members.drop_last();
        let m = members.last();
        lemma_confirmed(links, parent, front);
        let before = confirm_all(marked, parent, front).links;
        assert(confirmed == confirm(before, parent, m).links);
        L::lemma_make(parent, m, false);
        lemma_first_index(before, links_of::<L>(parent, m));
        assert(forall|k: int| 0 <= k < front.len() ==> front[k] == members[k]);
        let at = match first_index(before, links_of::<L>(parent, m)) {
            Some(i) => i,
            None => before.len() as int,
        };
        assert(confirmed[at] == L::make(parent, m, false));
        assert forall|i: int|
            0 <= i < confirmed.len() && (#[trigger] confirmed[i]).parent() == parent
                && !confirmed[i].outdated() implies members.contains(confirmed[i].member()) by {
            if i == at {
                assert(members[members.len() - 1] == m);
            } else {
                assert(confirmed[i] == before[i]);
                assert(front.contains(before[i].member()));
                let k = choose|k: int| 0 <= k < front.len() && front[k] == before[i].member();
                assert(members[k] == before[i].member());
            }
        }
        assert forall|k: int| 0 <= k < members.len() implies has_fresh_link(
            confirmed,
            parent,
            #[trigger] members[k],
        ) by {
            if members[k] == m {
                assert(confirmed[at].parent() == parent);
            } else {
                assert(front[k] == members[k]);
                assert(has_fresh_link(before, parent, front[k]));
                let i = choose|i: int|
                    0 <= i < before.len() && (#[trigger] before[i]).parent() == parent
                        && before[i].member() == front[k] && !before[i].outdated();
                assert(i != at);
                assert(confirmed[i] == before[i]);
                assert(confirmed[i].parent() == parent);
            }
        }
    }
}

/// What reconciling and deleting leaves are the links that are not outdated
/// links of the parent.
pub proof fn lemma_reconciliation_filter<L: Link>(links: Seq<L>, parent: usize, members: Seq<usize>)
    requires
        links.len() + members.len() <= usize::MAX,
    ensures
        reconciled(links, parent, members) == confirm_all(
            mark(links, parent),
            parent,
            members,
        ).links.filter(not_stale_at::<L>(parent)),
{
    let confirmed = confirm_all(mark(links, parent), parent, members).links;
    let dead = rows_where(confirmed, stale_at::<L>(parent));
    lemma_confirm_all_len(mark(links, parent), parent, members);
    lemma_rows_where(confirmed, stale_at::<L>(parent));
    lemma_without_rows_where(confirmed, stale_at::<L>(parent), dead);
    let keep = |l: L| !stale_at::<L>(parent)(l);
    assert(keep =~= not_stale_at::<L>(parent)) by {
        assert forall|l: L| #[trigger] keep(l) == not_stale_at::<L>(parent)(l) by {}
    }
}

/// After an observation of a parent with a set of members, the members that
/// the parent is linked to by links that are not outdated are exactly the
/// observed ones, and no outdated link of the parent is left.
pub proof fn lemma_reconciliation<L: Link>(links: Seq<L>, parent: usize, members: Seq<usize>)
    requires
        links.len() + members.len() <= usize::MAX,
    ensures
        fresh_members(reconciled(links, parent, members), parent) == members.to_set(),
        forall|i: int|
            0 <= i < reconciled(links, parent, members).len() && (#[trigger] reconciled(
                links,
                parent,
                members,
            )[i]).parent() == parent ==> !reconciled(links, parent, members)[i].outdated(),
        reconciled(links, parent, members) == confirm_all(
            mark(links, parent),
            parent,
            members,
        ).links.filter(not_stale_at::<L>(parent)),
{
    let confirmed = confirm_all(mark(links, parent), parent, members).links;
    let left = reconciled(links, parent, members);
    let keep = not_stale_at::<L>(parent);
    lemma_reconciliation_filter(links, parent, members);
    lemma_filter_members(confirmed, keep);
    lemma_confirmed(links, parent, members);
    assert forall|m: usize| fresh_members(left, parent).contains(m) <==> members.to_set().contains(
        m,
    ) by {
        if fresh_members(left, parent).contains(m) {
            assert(has_fresh_link(left, parent, m));
            let i = choose|i: int|
                0 <= i < left.len() && (#[trigger] left[i]).parent() == parent && left[i].member()
                    == m && !left[i].outdated();
            assert(confirmed.contains(left[i]));
            let j = choose|j: int| 0 <= j < confirmed.len() && confirmed[j] == left[i];
            assert(members.contains(confirmed[j].member()));
        }
        if members.to_set().contains(m) {
            assert(members.contains(m));
            let k = choose|k: int| 0 <= k < members.len() && members[k] == m;
            assert(has_fresh_link(confirmed, parent, members[k]));
            let j = choose|j: int|
                0 <= j < confirmed.len() && (#[trigger] confirmed[j]).parent() == parent
                    && confirmed[j].member() == members[k] && !confirmed[j].outdated();
            assert(keep(confirmed[j]));
            assert(left.contains(confirmed[j]));
            let i = choose|i: int| 0 <= i < left.len() && left[i] == confirmed[j];
            assert(left[i].parent() == parent);
            assert(has_fresh_link(left, parent, m));
        }
    }
    assert(fresh_members(left, parent) =~= members.to_set());
}

/// Bringing users into the store touches the user table only.
pub proof fn lemma_users_frame(db: DatabaseView, status: ProcessStatus, authors: Seq<Author>)
    ensures
        db.ensure_users_exist(status, authors).db == (DatabaseView {
            users: db.ensure_users_exist(status, authors).db.users,
            ..db
        }),
        db.ensure_users_exist(status, authors).rows.len() == authors.len(),
    decreases authors.len(),
{
    if authors.len() > 0 {
        lemma_users_frame(db, status, authors.drop_last());
    }
}

/// Bringing labels into the store touches the label table only.
pub proof fn lemma_labels_frame(db: DatabaseView, status: ProcessStatus, labels: Seq<Label>)
    ensures
        db.ensure_labels_exist(status, labels).db == (DatabaseView {
            labels: db.ensure_labels_exist(status, labels).db.labels,
            ..db
        }),
        db.ensure_labels_exist(status, labels).rows.len() == labels.len(),
    decreases labels.len(),
{
    if labels.len() > 0 {
        lemma_labels_frame(db, status, labels.drop_last());
    }
}

/// After an issue or pull request was observed with labels and assignees,
/// the labels that it is linked to are exactly the observed labels, and the
/// users that are assigned to it exactly the observed assignees; none of its
/// links is left outdated.
pub proof fn lemma_links_reconciled(
    db: DatabaseView,
    status: ProcessStatus,
    shared: usize,
    labels: Seq<Label>,
    assignees: Seq<Author>,
)
    requires
        db.label_links.len() + labels.len() <= usize::MAX,
        db.assignments.len() + assignees.len() <= usize::MAX,
    ensures
        ({
            let after = db.update_links(status, shared, labels, assignees).db;
            let label_rows = db.ensure_labels_exist(status, labels);
            let user_rows = label_rows.db.ensure_users_exist(label_rows.status, assignees);
            &&& fresh_members(after.label_links, shared) == label_rows.rows.to_set()
            &&& fresh_members(after.assignments, shared) == user_rows.rows.to_set()
            &&& forall|i: int|
                0 <= i < after.label_links.len() && (#[trigger] after.label_links[i]).parent()
                    == shared ==> !after.label_links[i].outdated()
            &&& forall|i: int|
                0 <= i < after.assignments.len() && (#[trigger] after.assignments[i]).parent()
                    == shared ==> !after.assignments[i].outdated()
        }),
{
    let label_rows = db.ensure_labels_exist(status, labels);
    lemma_labels_frame(db, status, labels);
    let label_links = label_rows.db.update_label_assignments(
        label_rows.status,
        shared,
        label_rows.rows,
    );
    lemma_users_frame(label_links.db, label_links.status, assignees);
    lemma_users_frame(label_rows.db, label_rows.status, assignees);
    let users = label_links.db.ensure_users_exist(label_links.status, assignees);
    crate::database::classification::lemma_users_status(
        label_links.db,
        label_links.status,
        assignees,
    );
    crate::database::classification::lemma_users_status(
        label_rows.db,
        label_rows.status,
        assignees,
    );
    lemma_users_rows_frame(label_rows.db, label_links.db, assignees);
    lemma_reconciliation(db.label_links, shared, label_rows.rows);
    lemma_reconciliation(db.assignments, shared, users.rows);
}

/// The rows that users are brought into depend on the user table only.
pub proof fn lemma_users_rows_frame(a: DatabaseView, b: DatabaseView, authors: Seq<Author>)
    requires
        a.users == b.users,
    ensures
        a.ensure_users_exist(ProcessStatus::Unchanged, authors).rows == b.ensure_users_exist(
            ProcessStatus::Unchanged,
            authors,
        ).rows,
        a.ensure_users_exist(ProcessStatus::Unchanged, authors).db.users == b.ensure_users_exist(
            ProcessStatus::Unchanged,
            authors,
        ).db.users,
    decreases authors.len(),
{
    if authors.len() > 0 {
        lemma_users_rows_frame(a, b, authors.drop_last());
    }
}

} // verus!
