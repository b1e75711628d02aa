//! What is brought into the store is held by it, stays held while the like
//! is brought in, and is left alone when it is brought in again.
//!
//! These are the parts of which the laws on observing an item or a page twice
//! are made: a user, a label or a row that was brought in is held; what is
//! held stays so while something that is reported alike is brought in; and
//! bringing in what is held changes nothing.

use vstd::prelude::*;
use crate::database::links::{
    confirm, confirm_all, links_of, mark, reconcile, rows_where, stale_at, without_rows, Link,
    Reconciled,
};
use crate::database::process::{EnsuredAll, EnsuredOptional};
use crate::database::reconciliation::{
    has_fresh_link, lemma_confirm_all_len, lemma_filter_members, lemma_reconciliation,
    lemma_rows_where, not_stale_at, reconciled,
};
use crate::database::schema::{DatabaseView, LabelView, UserView};
use crate::database::process::{closed_at, listed, lock_reason, observed_assignees};
use crate::database::reconciliation::{lemma_labels_frame, lemma_users_frame};
use crate::models::IssueState;
use crate::database::updates::{
    comment_with_id, issue_of, label_with_name, observed_or, pr_of, repo_is, shared_with_number,
    user_row, user_with_id, Ensured, Found,
};
use crate::models::{Author, Label};
use crate::repo::RepoView;
use crate::requests::opt_text;
use crate::status::ProcessStatus;
use crate::table::{first_index, lemma_first_index, lemma_first_index_is};

verus! {

/// Whether two users are reported alike if they are the same user.
pub open spec fn alike(a: Author, b: Author) -> bool {
    a.id as i64 == b.id as i64 ==> user_row(a) == user_row(b)
}

/// Whether the user table holds `author` as observed.
pub open spec fn holds_user(users: Seq<UserView>, author: Author) -> bool {
    first_index(users, user_with_id(author.id as i64)) matches Some(i) && users[i] == user_row(
        author,
    )
}

/// The row of the user table that holds the user `author`.
pub open spec fn row_of_user(users: Seq<UserView>, author: Author) -> usize {
    first_index(users, user_with_id(author.id as i64))->0 as usize
}

/// A user that was brought into the store is held by it.
pub proof fn lemma_user_held(db: DatabaseView, status: ProcessStatus, author: Author)
    ensures
        holds_user(db.ensure_user_exists(status, author).db.users, author),
        row_of_user(db.ensure_user_exists(status, author).db.users, author)
            == db.ensure_user_exists(status, author).row,
{
    let id = author.id as i64;
    let after = db.ensure_user_exists(status, author).db.users;
    lemma_first_index(db.users, user_with_id(id));
    match first_index(db.users, user_with_id(id)) {
        Some(i) => {
            assert forall|j: int| 0 <= j < i implies !user_with_id(id)(#[trigger] after[j]) by {
                assert(after[j] == db.users[j]);
            }
            lemma_first_index_is(after, user_with_id(id), i);
        },
        None => {
            let i = db.users.len() as int;
            assert forall|j: int| 0 <= j < i implies !user_with_id(id)(#[trigger] after[j]) by {
                assert(after[j] == db.users[j]);
            }
            lemma_first_index_is(after, user_with_id(id), i);
        },
    }
}

/// A user that the store holds stays held, in the same row, when a user
/// that is alike is brought in.
pub proof fn lemma_user_kept(db: DatabaseView, status: ProcessStatus, held: Author, other: Author)
    requires
        holds_user(db.users, held),
        alike(held, other),
    ensures
        holds_user(db.ensure_user_exists(status, other).db.users, held),
        row_of_user(db.ensure_user_exists(status, other).db.users, held) == row_of_user(
            db.users,
            held,
        ),
{
    let id = held.id as i64;
    let other_id = other.id as i64;
    let after = db.ensure_user_exists(status, other).db.users;
    lemma_first_index(db.users, user_with_id(id));
    lemma_first_index(db.users, user_with_id(other_id));
    let i = first_index(db.users, user_with_id(id))->0;
    assert forall|j: int| 0 <= j < i implies !user_with_id(id)(#[trigger] after[j]) by {
        if after[j] != db.users[j] {
            assert(after[j] == user_row(other));
        }
    }
    assert(after[i] == user_row(held)) by {
        if after[i] != db.users[i] {
            assert(after[i] == user_row(other));
        }
    }
    lemma_first_index_is(after, user_with_id(id), i);
}

/// Bringing a user into a store that holds it changes nothing.
pub proof fn lemma_user_settled(db: DatabaseView, status: ProcessStatus, author: Author)
    requires
        holds_user(db.users, author),
    ensures
        db.ensure_user_exists(status, author) == (Ensured {
            db,
            status,
            row: row_of_user(db.users, author),
        }),
{
    let i = first_index(db.users, user_with_id(author.id as i64))->0;
    lemma_first_index(db.users, user_with_id(author.id as i64));
    assert(db.users.update(i, user_row(author)) =~= db.users);
}

/// Whether the users `authors` are reported alike wherever one occurs more
/// than once.
pub open spec fn all_alike(authors: Seq<Author>) -> bool {
    forall|i: int, j: int|
        0 <= i < authors.len() && 0 <= j < authors.len() ==> alike(
            #[trigger] authors[i],
            #[trigger] authors[j],
        )
}

/// Whether the user `author` is alike every one of `authors`.
pub open spec fn alike_all(author: Author, authors: Seq<Author>) -> bool {
    forall|i: int| 0 <= i < authors.len() ==> alike(author, #[trigger] authors[i])
}

/// Whether the user table holds every one of `authors`.
pub open spec fn holds_users(users: Seq<UserView>, authors: Seq<Author>) -> bool {
    forall|i: int| 0 <= i < authors.len() ==> holds_user(users, #[trigger] authors[i])
}

/// The rows of the user table that hold the users `authors`.
pub open spec fn rows_of_users(users: Seq<UserView>, authors: Seq<Author>) -> Seq<usize> {
    Seq::new(authors.len(), |i: int| row_of_user(users, authors[i]))
}

/// A user that the store holds stays held, in the same row, when users that
/// are alike are brought in.
pub proof fn lemma_user_kept_by_all(
    db: DatabaseView,
    status: ProcessStatus,
    held: Author,
    authors: Seq<Author>,
)
    requires
        holds_user(db.users, held),
        alike_all(held, authors),
    ensures
        holds_user(db.ensure_users_exist(status, authors).db.users, held),
        row_of_user(db.ensure_users_exist(status, authors).db.users, held) == row_of_user(
            db.users,
            held,
        ),
    decreases authors.len(),
{
    if authors.len() > 0 {
        let front = authors.drop_last();
        assert(forall|i: int| 0 <= i < front.len() ==> front[i] == authors[i]);
        lemma_user_kept_by_all(db, status, held, front);
        let before = db.ensure_users_exist(status, front);
        assert(authors.last() == authors[authors.len() - 1]);
        lemma_user_kept(before.db, before.status, held, authors.last());
    }
}

/// Users that were brought into the store are held by it, in the rows that
/// were given, if they are reported alike.
pub proof fn lemma_users_held(db: DatabaseView, status: ProcessStatus, authors: Seq<Author>)
    requires
        all_alike(authors),
    ensures
        holds_users(db.ensure_users_exist(status, authors).db.users, authors),
        db.ensure_users_exist(status, authors).rows == rows_of_users(
            db.ensure_users_exist(status, authors).db.users,
            authors,
        ),
    decreases authors.len(),
{
    let after = db.ensure_users_exist(status, authors);
    if authors.len() > 0 {
        let front = authors.drop_last();
        let last = authors.last();
        assert(forall|i: int| 0 <= i < front.len() ==> front[i] == authors[i]);
        assert(last == authors[authors.len() - 1]);
        lemma_users_held(db, status, front);
        let before = db.ensure_users_exist(status, front);
        lemma_user_held(before.db, before.status, last);
        assert forall|i: int| 0 <= i < authors.len() implies holds_user(
            after.db.users,
            #[trigger] authors[i],
        ) && after.rows[i] == row_of_user(after.db.users, authors[i]) by {
            if i < front.len() {
                assert(holds_user(before.db.users, front[i]));
                lemma_user_kept(before.db, before.status, front[i], last);
                assert(after.rows[i] == before.rows[i]);
            }
        }
        assert(after.rows =~= rows_of_users(after.db.users, authors));
    } else {
        assert(after.rows =~= rows_of_users(after.db.users, authors));
    }
}

/// Bringing users into a store that holds them changes nothing.
pub proof fn lemma_users_settled(db: DatabaseView, status: ProcessStatus, authors: Seq<Author>)
    requires
        holds_users(db.users, authors),
    ensures
        db.ensure_users_exist(status, authors) == (EnsuredAll {
            db,
            status,
            rows: rows_of_users(db.users, authors),
        }),
    decreases authors.len(),
{
    let after = db.ensure_users_exist(status, authors);
    if authors.len() > 0 {
        let front = authors.drop_last();
        assert(forall|i: int| 0 <= i < front.len() ==> front[i] == authors[i]);
        lemma_users_settled(db, status, front);
        assert(authors.last() == authors[authors.len() - 1]);
        lemma_user_settled(db, status, authors.last());
        assert(after.rows =~= rows_of_users(db.users, authors));
    } else {
        assert(after.rows =~= rows_of_users(db.users, authors));
    }
}

/// Whether two labels are reported alike if they are the same label.
pub open spec fn labels_alike(a: Label, b: Label) -> bool {
    a.name@ == b.name@ ==> a.color@ == b.color@ && opt_text(a.description) == opt_text(
        b.description,
    )
}

/// Whether the label table holds `label` as observed.
pub open spec fn holds_label(labels: Seq<LabelView>, label: Label) -> bool {
    first_index(labels, label_with_name(label.name@)) matches Some(i) && labels[i].color
        == label.color@ && (label.description matches Some(d) ==> labels[i].description == d@)
}

/// The row of the label table that holds the label `label`.
pub open spec fn row_of_label(labels: Seq<LabelView>, label: Label) -> usize {
    first_index(labels, label_with_name(label.name@))->0 as usize
}

/// A label that was brought into the store is held by it.
pub proof fn lemma_label_held(db: DatabaseView, status: ProcessStatus, label: Label)
    ensures
        holds_label(db.ensure_label_exists(status, label).db.labels, label),
        row_of_label(db.ensure_label_exists(status, label).db.labels, label)
            == db.ensure_label_exists(status, label).row,
{
    let name = label.name@;
    let after = db.ensure_label_exists(status, label).db.labels;
    lemma_first_index(db.labels, label_with_name(name));
    let i = match first_index(db.labels, label_with_name(name)) {
        Some(i) => i,
        None => db.labels.len() as int,
    };
    assert forall|j: int| 0 <= j < i implies !label_with_name(name)(#[trigger] after[j]) by {
        assert(after[j] == db.labels[j]);
    }
    lemma_first_index_is(after, label_with_name(name), i);
}

/// A label that the store holds stays held, in the same row, when a label
/// that is alike is brought in.
pub proof fn lemma_label_kept(db: DatabaseView, status: ProcessStatus, held: Label, other: Label)
    requires
        holds_label(db.labels, held),
        labels_alike(held, other),
    ensures
        holds_label(db.ensure_label_exists(status, other).db.labels, held),
        row_of_label(db.ensure_label_exists(status, other).db.labels, held) == row_of_label(
            db.labels,
            held,
        ),
{
    let name = held.name@;
    let after = db.ensure_label_exists(status, other).db.labels;
    lemma_first_index(db.labels, label_with_name(name));
    lemma_first_index(db.labels, label_with_name(other.name@));
    let i = first_index(db.labels, label_with_name(name))->0;
    assert forall|j: int| 0 <= j < i implies !label_with_name(name)(#[trigger] after[j]) by {
        if after[j] != db.labels[j] {
            assert(after[j].name == other.name@);
        }
    }
    lemma_first_index_is(after, label_with_name(name), i);
}

/// Bringing a label into a store that holds it changes nothing.
pub proof fn lemma_label_settled(db: DatabaseView, status: ProcessStatus, label: Label)
    requires
        holds_label(db.labels, label),
    ensures
        db.ensure_label_exists(status, label) == (Ensured {
            db,
            status,
            row: row_of_label(db.labels, label),
        }),
{
    let i = first_index(db.labels, label_with_name(label.name@))->0;
    lemma_first_index(db.labels, label_with_name(label.name@));
    let stored = db.labels[i];
    let written = LabelView {
        name: label.name@,
        description: observed_or(opt_text(label.description), stored.description),
        color: label.color@,
    };
    assert(written == stored);
    assert(db.labels.update(i, written) =~= db.labels);
}

/// Whether the labels `labels` are reported alike wherever one occurs more
/// than once.
pub open spec fn all_labels_alike(labels: Seq<Label>) -> bool {
    forall|i: int, j: int|
        0 <= i < labels.len() && 0 <= j < labels.len() ==> labels_alike(
            #[trigger] labels[i],
            #[trigger] labels[j],
        )
}

/// Whether the label table holds every one of `labels`.
pub open spec fn holds_labels(table: Seq<LabelView>, labels: Seq<Label>) -> bool {
    forall|i: int| 0 <= i < labels.len() ==> holds_label(table, #[trigger] labels[i])
}

/// The rows of the label table that hold the labels `labels`.
pub open spec fn rows_of_labels(table: Seq<LabelView>, labels: Seq<Label>) -> Seq<usize> {
    Seq::new(labels.len(), |i: int| row_of_label(table, labels[i]))
}

/// Labels that were brought into the store are held by it, in the rows that
/// were given, if they are reported alike.
pub proof fn lemma_labels_held(db: DatabaseView, status: ProcessStatus, labels: Seq<Label>)
    requires
        all_labels_alike(labels),
    ensures
        holds_labels(db.ensure_labels_exist(status, labels).db.labels, labels),
        db.ensure_labels_exist(status, labels).rows == rows_of_labels(
            db.ensure_labels_exist(status, labels).db.labels,
            labels,
        ),
    decreases labels.len(),
{
    let after = db.ensure_labels_exist(status, labels);
    if labels.len() > 0 {
        let front = labels.drop_last();
        let last = labels.last();
        assert(forall|i: int| 0 <= i < front.len() ==> front[i] == labels[i]);
        assert(last == labels[labels.len() - 1]);
        lemma_labels_held(db, status, front);
        let before = db.ensure_labels_exist(status, front);
        lemma_label_held(before.db, before.status, last);
        assert forall|i: int| 0 <= i < labels.len() implies holds_label(
            after.db.labels,
            #[trigger] labels[i],
        ) && after.rows[i] == row_of_label(after.db.labels, labels[i]) by {
            if i < front.len() {
                assert(holds_label(before.db.labels, front[i]));
                lemma_label_kept(before.db, before.status, front[i], last);
                assert(after.rows[i] == before.rows[i]);
            }
        }
        assert(after.rows =~= rows_of_labels(after.db.labels, labels));
    } else {
        assert(after.rows =~= rows_of_labels(after.db.labels, labels));
    }
}

/// Bringing labels into a store that holds them changes nothing.
pub proof fn lemma_labels_settled(db: DatabaseView, status: ProcessStatus, labels: Seq<Label>)
    requires
        holds_labels(db.labels, labels),
    ensures
        db.ensure_labels_exist(status, labels) == (EnsuredAll {
            db,
            status,
            rows: rows_of_labels(db.labels, labels),
        }),
    decreases labels.len(),
{
    let after = db.ensure_labels_exist(status, labels);
    if labels.len() > 0 {
        let front = labels.drop_last();
        assert(forall|i: int| 0 <= i < front.len() ==> front[i] == labels[i]);
        lemma_labels_settled(db, status, front);
        assert(labels.last() == labels[labels.len() - 1]);
        lemma_label_settled(db, status, labels.last());
        assert(after.rows =~= rows_of_labels(db.labels, labels));
    } else {
        assert(after.rows =~= rows_of_labels(db.labels, labels));
    }
}

/// Whether every link of `links` that links to `parent` and is not outdated
/// is the first link of its member to `parent`.
pub open spec fn fresh_first<L: Link>(links: Seq<L>, parent: usize) -> bool {
    forall|i: int|
        0 <= i < links.len() && (#[trigger] links[i]).parent() == parent && !links[i].outdated()
            ==> first_index(links, links_of::<L>(parent, links[i].member())) == Some(i)
}

/// While links are confirmed, a link of the parent that is not outdated is
/// the first of its member.
proof fn lemma_confirm_fresh_first<L: Link>(links: Seq<L>, parent: usize, member: usize)
    requires
        fresh_first(links, parent),
    ensures
        fresh_first(confirm(links, parent, member).links, parent),
{
    let after = confirm(links, parent, member).links;
    L::lemma_make(parent, member, false);
    lemma_first_index(links, links_of::<L>(parent, member));
    let at = match first_index(links, links_of::<L>(parent, member)) {
        Some(i) => i,
        None => links.len() as int,
    };
    assert forall|i: int|
        0 <= i < after.len() && (#[trigger] after[i]).parent() == parent
            && !after[i].outdated() implies first_index(
        after,
        links_of::<L>(parent, after[i].member()),
    ) == Some(i) by {
        let m = after[i].member();
        let of_m = links_of::<L>(parent, m);
        if i != at {
            assert(after[i] == links[i]);
            lemma_first_index(links, of_m);
        }
        assert forall|j: int| 0 <= j < i implies !of_m(#[trigger] after[j]) by {
            if j == at {
                assert(at < links.len());
                if m == member {
                    assert(of_m(links[i]));
                }
            } else {
                assert(after[j] == links[j]);
                if i == at {
                    assert(!links_of::<L>(parent, member)(links[j]));
                }
            }
        }
        lemma_first_index_is(after, of_m, i);
    }
}

/// After the links of a parent were marked and links confirmed, a link of
/// the parent that is not outdated is the first of its member.
proof fn lemma_confirmed_fresh_first<L: Link>(links: Seq<L>, parent: usize, members: Seq<usize>)
    ensures
        fresh_first(confirm_all(mark(links, parent), parent, members).links, parent),
    decreases members.len(),
{
    let marked = mark(links, parent);
    if members.len() == 0 {
        assert forall|i: int|
            0 <= i < marked.len() && (#[trigger] marked[i]).parent() == parent implies marked[i].outdated() by {
            L::lemma_make(parent, links[i].member(), true);
        }
    } else {
        lemma_confirmed_fresh_first(links, parent, members.drop_last());
        lemma_confirm_fresh_first(
            confirm_all(marked, parent, members.drop_last()).links,
            parent,
            members.last(),
        );
    }
}

/// Whether no two links of `links` link the same member to `parent`.
pub open spec fn unique_at<L: Link>(links: Seq<L>, parent: usize) -> bool {
    forall|i: int, j: int|
        0 <= i < links.len() && 0 <= j < links.len() && (#[trigger] links[i]).parent() == parent
            && (#[trigger] links[j]).parent() == parent && links[i].member() == links[j].member()
            ==> i == j
}

/// What is left of the links that are not outdated, where each of those is
/// the first of its member, links no member twice.
proof fn lemma_filter_unique<L: Link>(links: Seq<L>, parent: usize)
    requires
        fresh_first(links, parent),
    ensures
        unique_at(links.filter(not_stale_at::<L>(parent)), parent),
    decreases links.len(),
{
    reveal(Seq::filter);
    let keep = not_stale_at::<L>(parent);
    if links.len() > 0 {
        let front = links.drop_last();
        let last = links.last();
        assert(forall|i: int| 0 <= i < front.len() ==> front[i] == links[i]);
        assert forall|i: int|
            0 <= i < front.len() && (#[trigger] front[i]).parent() == parent
                && !front[i].outdated() implies first_index(
            front,
            links_of::<L>(parent, front[i].member()),
        ) == Some(i) by {
            let of_m = links_of::<L>(parent, front[i].member());
            lemma_first_index(links, of_m);
            assert(first_index(links, of_m) == Some(i));
            lemma_first_index_is(front, of_m, i);
        }
        lemma_filter_unique(front, parent);
        lemma_filter_members(front, keep);
        let kept = front.filter(keep);
        let left = links.filter(keep);
        assert forall|i: int, j: int|
            0 <= i < left.len() && 0 <= j < left.len() && (#[trigger] left[i]).parent() == parent
                && (#[trigger] left[j]).parent() == parent && left[i].member()
                == left[j].member() implies i == j by {
            if i < kept.len() && j < kept.len() {
                assert(kept[i] == left[i] && kept[j] == left[j]);
            } else if i < kept.len() || j < kept.len() {
                let k = if i < kept.len() {
                    i
                } else {
                    j
                };
                assert(left[k] == kept[k]);
                let a = choose|a: int| 0 <= a < front.len() && front[a] == kept[k];
                assert(links[a] == kept[k]);
                let of_m = links_of::<L>(parent, last.member());
                lemma_first_index(links, of_m);
                assert(of_m(links[a]));
                assert(first_index(links, of_m) == Some(links.len() - 1));
            }
        }
    }
}

/// The table in which the links of `parent` whose member is among the first
/// `k` of `members` are as in `links`, and its other links are marked
/// outdated.
pub open spec fn partly_confirmed<L: Link>(
    links: Seq<L>,
    parent: usize,
    members: Seq<usize>,
    k: int,
) -> Seq<L> {
    Seq::new(
        links.len(),
        |i: int|
            if links[i].parent() == parent && !members.take(k).contains(links[i].member()) {
                L::make(parent, links[i].member(), true)
            } else {
                links[i]
            },
    )
}

/// In a table that links `parent` to exactly `members`, once each and by
/// links that are not outdated, marking the links of `parent` and confirming
/// the first `k` of `members` adds no link and leaves the table partly
/// confirmed.
proof fn lemma_confirm_settled<L: Link>(links: Seq<L>, parent: usize, members: Seq<usize>, k: int)
    requires
        0 <= k <= members.len(),
        unique_at(links, parent),
        forall|i: int|
            0 <= i < links.len() && (#[trigger] links[i]).parent() == parent
                ==> !links[i].outdated(),
        forall|j: int| 0 <= j < members.len() ==> has_fresh_link(links, parent, #[trigger] members[j]),
    ensures
        confirm_all(mark(links, parent), parent, members.take(k)).links == partly_confirmed(
            links,
            parent,
            members,
            k,
        ),
        !confirm_all(mark(links, parent), parent, members.take(k)).inserted,
    decreases k,
{
    let marked = mark(links, parent);
    if k == 0 {
        assert(members.take(0) =~= Seq::<usize>::empty());
        assert(marked =~= partly_confirmed(links, parent, members, 0));
    } else {
        lemma_confirm_settled(links, parent, members, k - 1);
        let m = members[k - 1];
        assert(members.take(k).drop_last() =~= members.take(k - 1));
        assert(members.take(k).last() == m);
        let before = partly_confirmed(links, parent, members, k - 1);
        let after = partly_confirmed(links, parent, members, k);
        let of_m = links_of::<L>(parent, m);
        let at = choose|i: int|
            0 <= i < links.len() && (#[trigger] links[i]).parent() == parent && links[i].member()
                == m && !links[i].outdated();
        assert forall|i: int| 0 <= i < links.len() implies (#[trigger] before[i]).parent()
            == links[i].parent() && before[i].member() == links[i].member() by {
            L::lemma_make(parent, links[i].member(), true);
        }
        assert forall|j: int| 0 <= j < at implies !of_m(#[trigger] before[j]) by {
            assert(links[j].parent() == before[j].parent());
        }
        assert(of_m(before[at]));
        lemma_first_index_is(before, of_m, at);
        links[at].lemma_made();
        assert forall|i: int| 0 <= i < links.len() implies #[trigger] before.update(
            at,
            L::make(parent, m, false),
        )[i] == after[i] by {
            let taken = members.take(k);
            let taken_before = members.take(k - 1);
            assert(taken[k - 1] == m);
            assert forall|x: usize| taken.contains(x) <==> (taken_before.contains(x) || x
                == m) by {
                if taken.contains(x) {
                    let a = choose|a: int| 0 <= a < taken.len() && taken[a] == x;
                    if a < k - 1 {
                        assert(taken_before[a] == x);
                    }
                }
                if taken_before.contains(x) {
                    let a = choose|a: int| 0 <= a < taken_before.len() && taken_before[a] == x;
                    assert(taken[a] == x);
                }
            }
            if i != at && links[i].parent() == parent {
                assert(links[i].member() != m);
            }
        }
        assert(before.update(at, L::make(parent, m, false)) =~= after);
    }
}

/// Whether `links` links `parent` to exactly `members`: by links that are
/// not outdated, and to no member twice.
pub open spec fn links_settled<L: Link>(links: Seq<L>, parent: usize, members: Seq<usize>) -> bool {
    &&& unique_at(links, parent)
    &&& forall|i: int|
        0 <= i < links.len() && (#[trigger] links[i]).parent() == parent ==> !links[i].outdated()
            && members.contains(links[i].member())
    &&& forall|j: int| 0 <= j < members.len() ==> has_fresh_link(links, parent, #[trigger] members[j])
}

/// After the links of a parent were reconciled with members, the table
/// links the parent to exactly these.
pub proof fn lemma_reconciled_settled<L: Link>(links: Seq<L>, parent: usize, members: Seq<usize>)
    requires
        links.len() + members.len() <= usize::MAX,
    ensures
        links_settled(reconciled(links, parent, members), parent, members),
        reconciled(links, parent, members).len() <= links.len() + members.len(),
{
    let settled = reconciled(links, parent, members);
    let confirmed = confirm_all(mark(links, parent), parent, members).links;
    lemma_reconciliation(links, parent, members);
    lemma_confirmed_fresh_first(links, parent, members);
    lemma_filter_unique(confirmed, parent);
    lemma_confirm_all_len(mark(links, parent), parent, members);
    crate::database::reconciliation::lemma_filter_len_le(confirmed, not_stale_at::<L>(parent));
    assert forall|j: int| 0 <= j < members.len() implies has_fresh_link(
        settled,
        parent,
        #[trigger] members[j],
    ) by {
        assert(members.to_set().contains(members[j]));
        assert(crate::database::reconciliation::fresh_members(settled, parent).contains(
            members[j],
        ));
    }
    assert forall|i: int|
        0 <= i < settled.len() && (#[trigger] settled[i]).parent() == parent implies members.contains(
        settled[i].member(),
    ) by {
        assert(has_fresh_link(settled, parent, settled[i].member()));
        assert(crate::database::reconciliation::fresh_members(settled, parent).contains(
            settled[i].member(),
        ));
        assert(members.to_set().contains(settled[i].member()));
    }
}

/// Reconciling the links of a parent with the members that the table links
/// it to adds no link, leaves none to delete, and leaves the table as it is.
pub proof fn lemma_settled_reconcile<L: Link>(links: Seq<L>, parent: usize, members: Seq<usize>)
    requires
        links_settled(links, parent, members),
        links.len() <= usize::MAX,
    ensures
        reconcile(links, parent, members) == (Reconciled {
            links,
            inserted: false,
            outdated: Seq::empty(),
        }),
        reconciled(links, parent, members) == links,
{
    lemma_confirm_settled(links, parent, members, members.len() as int);
    assert(members.take(members.len() as int) =~= members);
    let again = partly_confirmed(links, parent, members, members.len() as int);
    assert(again =~= links);
    lemma_rows_where(links, stale_at::<L>(parent));
    let stale = rows_where(links, stale_at::<L>(parent));
    if stale.len() > 0 {
        let i = stale[0];
        assert(stale.contains(i));
        assert(i < links.len());
        assert(stale_at::<L>(parent)(links[i as int]));
    }
    assert(stale =~= Seq::<usize>::empty());
    lemma_without_nothing(links);
}

/// Reconciling the links of a parent with the members that they were just
/// reconciled with adds no link, leaves none to delete, and leaves the table
/// as it is.
pub proof fn lemma_reconcile_settled<L: Link>(links: Seq<L>, parent: usize, members: Seq<usize>)
    requires
        links.len() + members.len() <= usize::MAX,
    ensures
        reconcile(reconciled(links, parent, members), parent, members) == (Reconciled {
            links: reconciled(links, parent, members),
            inserted: false,
            outdated: Seq::empty(),
        }),
        reconciled(reconciled(links, parent, members), parent, members) == reconciled(
            links,
            parent,
            members,
        ),
{
    lemma_reconciled_settled(links, parent, members);
    lemma_settled_reconcile(reconciled(links, parent, members), parent, members);
}

/// A table that links a parent to exactly some members still does so after
/// the links of another parent were reconciled.
pub proof fn lemma_settled_kept<L: Link>(
    links: Seq<L>,
    parent: usize,
    members: Seq<usize>,
    other: usize,
    others: Seq<usize>,
)
    requires
        links_settled(links, parent, members),
        parent != other,
        links.len() + others.len() <= usize::MAX,
    ensures
        links_settled(reconciled(links, other, others), parent, members),
{
    let confirmed = confirm_all(mark(links, other), other, others).links;
    lemma_confirmed_elsewhere(links, parent, other, others);
    let keep = not_stale_at::<L>(other);
    let left = confirmed.filter(keep);
    crate::database::reconciliation::lemma_reconciliation_filter(links, other, others);
    assert(reconciled(links, other, others) == left);
    lemma_filter_members(confirmed, keep);
    lemma_filter_order(confirmed, keep);
    assert forall|i: int, j: int|
        0 <= i < left.len() && 0 <= j < left.len() && (#[trigger] left[i]).parent() == parent
            && (#[trigger] left[j]).parent() == parent && left[i].member()
            == left[j].member() implies i == j by {
        let a = source_of(confirmed, keep, i);
        let b = source_of(confirmed, keep, j);
        assert(confirmed[a] == left[i] && confirmed[b] == left[j]);
        assert(a < links.len() && b < links.len());
        assert(links[a] == confirmed[a] && links[b] == confirmed[b]);
        if i < j {
            assert(a < b);
        } else if j < i {
            assert(b < a);
        }
    }
    assert forall|i: int|
        0 <= i < left.len() && (#[trigger] left[i]).parent() == parent implies !left[i].outdated()
        && members.contains(left[i].member()) by {
        let a = source_of(confirmed, keep, i);
        assert(confirmed[a] == left[i]);
        assert(links[a] == confirmed[a]);
    }
    assert forall|j: int| 0 <= j < members.len() implies has_fresh_link(
        left,
        parent,
        #[trigger] members[j],
    ) by {
        assert(has_fresh_link(links, parent, members[j]));
        let a = choose|a: int|
            0 <= a < links.len() && (#[trigger] links[a]).parent() == parent && links[a].member()
                == members[j] && !links[a].outdated();
        assert(confirmed[a] == links[a]);
        assert(keep(confirmed[a]));
        assert(left.contains(confirmed[a]));
        let i = choose|i: int| 0 <= i < left.len() && left[i] == confirmed[a];
        assert(left[i].parent() == parent);
    }
}

/// Marking and confirming the links of one parent leaves the links of every
/// other parent where and as they are, and adds none.
proof fn lemma_confirmed_elsewhere<L: Link>(
    links: Seq<L>,
    parent: usize,
    other: usize,
    others: Seq<usize>,
)
    requires
        parent != other,
    ensures
        ({
            let confirmed = confirm_all(mark(links, other), other, others).links;
            &&& links.len() <= confirmed.len()
            &&& forall|i: int|
                0 <= i < links.len() && (#[trigger] links[i]).parent() == parent ==> confirmed[i]
                    == links[i]
            &&& forall|i: int|
                0 <= i < confirmed.len() && (#[trigger] confirmed[i]).parent() == parent ==> i
                    < links.len() && confirmed[i] == links[i]
        }),
    decreases others.len(),
{
    let marked = mark(links, other);
    assert forall|i: int| 0 <= i < links.len() implies (#[trigger] marked[i]).parent()
        == links[i].parent() by {
        L::lemma_make(other, links[i].member(), true);
    }
    if others.len() > 0 {
        lemma_confirmed_elsewhere(links, parent, other, others.drop_last());
        let before = confirm_all(marked, other, others.drop_last()).links;
        let m = others.last();
        L::lemma_make(other, m, false);
        lemma_first_index(before, links_of::<L>(other, m));
    }
}

/// The row of `rows` that the row `k` of what a filter keeps of them was.
pub open spec fn source_of<T>(rows: Seq<T>, keep: spec_fn(T) -> bool, k: int) -> int
    decreases rows.len(),
{
    if rows.len() == 0 {
        0
    } else if keep(rows.last()) && k == rows.drop_last().filter(keep).len() {
        rows.len() - 1
    } else {
        source_of(rows.drop_last(), keep, k)
    }
}

/// What a filter keeps of a table are rows of the table, in their order.
pub proof fn lemma_filter_order<T>(rows: Seq<T>, keep: spec_fn(T) -> bool)
    ensures
        forall|k: int|
            0 <= k < rows.filter(keep).len() ==> 0 <= #[trigger] source_of(rows, keep, k)
                < rows.len() && rows[source_of(rows, keep, k)] == rows.filter(keep)[k],
        forall|k: int, l: int|
            0 <= k < l < rows.filter(keep).len() ==> #[trigger] source_of(rows, keep, k)
                < #[trigger] source_of(rows, keep, l),
    decreases rows.len(),
{
    reveal(Seq::filter);
    if rows.len() > 0 {
        let front = rows.drop_last();
        lemma_filter_order(front, keep);
        let kept = front.filter(keep);
        let left = rows.filter(keep);
        assert forall|k: int| 0 <= k < left.len() implies 0 <= #[trigger] source_of(
            rows,
            keep,
            k,
        ) < rows.len() && rows[source_of(rows, keep, k)] == left[k] by {
            if k < kept.len() {
                assert(source_of(rows, keep, k) == source_of(front, keep, k));
                assert(front[source_of(front, keep, k)] == kept[k]);
            }
        }
        assert forall|k: int, l: int| 0 <= k < l < left.len() implies #[trigger] source_of(
            rows,
            keep,
            k,
        ) < #[trigger] source_of(rows, keep, l) by {
            assert(source_of(rows, keep, k) == source_of(front, keep, k));
            if l < kept.len() {
                assert(source_of(rows, keep, l) == source_of(front, keep, l));
            }
        }
    }
}

/// Deleting no rows leaves the table as it is.
pub proof fn lemma_without_nothing<T>(rows: Seq<T>)
    ensures
        without_rows(rows, Seq::empty()) == rows,
    decreases rows.len(),
{
    if rows.len() > 0 {
        lemma_without_nothing(rows.drop_last());
        assert(rows.drop_last().push(rows.last()) =~= rows);
    }
}

/// Whether the label `label` is alike every one of `labels`.
pub open spec fn label_alike_all(label: Label, labels: Seq<Label>) -> bool {
    forall|i: int| 0 <= i < labels.len() ==> labels_alike(label, #[trigger] labels[i])
}

/// A label that the store holds stays held, in the same row, when labels
/// that are alike are brought in.
pub proof fn lemma_label_kept_by_all(
    db: DatabaseView,
    status: ProcessStatus,
    held: Label,
    labels: Seq<Label>,
)
    requires
        holds_label(db.labels, held),
        label_alike_all(held, labels),
    ensures
        holds_label(db.ensure_labels_exist(status, labels).db.labels, held),
        row_of_label(db.ensure_labels_exist(status, labels).db.labels, held) == row_of_label(
            db.labels,
            held,
        ),
    decreases labels.len(),
{
    if labels.len() > 0 {
        let front = labels.drop_last();
        assert(forall|i: int| 0 <= i < front.len() ==> front[i] == labels[i]);
        lemma_label_kept_by_all(db, status, held, front);
        let before = db.ensure_labels_exist(status, front);
        assert(labels.last() == labels[labels.len() - 1]);
        lemma_label_kept(before.db, before.status, held, labels.last());
    }
}

/// Labels that the store holds stay held, in the same rows, when labels
/// that are alike are brought in.
pub proof fn lemma_labels_kept(
    db: DatabaseView,
    status: ProcessStatus,
    held: Seq<Label>,
    labels: Seq<Label>,
)
    requires
        holds_labels(db.labels, held),
        forall|i: int| 0 <= i < held.len() ==> label_alike_all(#[trigger] held[i], labels),
    ensures
        holds_labels(db.ensure_labels_exist(status, labels).db.labels, held),
        rows_of_labels(db.ensure_labels_exist(status, labels).db.labels, held) == rows_of_labels(
            db.labels,
            held,
        ),
{
    let after = db.ensure_labels_exist(status, labels).db.labels;
    assert forall|i: int| 0 <= i < held.len() implies holds_label(after, #[trigger] held[i])
        && row_of_label(after, held[i]) == row_of_label(db.labels, held[i]) by {
        lemma_label_kept_by_all(db, status, held[i], labels);
    }
    assert(rows_of_labels(after, held) =~= rows_of_labels(db.labels, held));
}

/// A repository that the store holds is still held after another was found
/// or added.
pub proof fn lemma_repo_kept(db: DatabaseView, held: RepoView, other: RepoView)
    requires
        first_index(db.repos, repo_is(held)) is Some,
    ensures
        first_index(db.find_or_insert_repo(other).db.repos, repo_is(held)) is Some,
{
    let after = db.find_or_insert_repo(other).db.repos;
    lemma_first_index(db.repos, repo_is(held));
    let i = first_index(db.repos, repo_is(held))->0;
    assert(after[i] == db.repos[i]);
    assert forall|j: int| 0 <= j < i implies !repo_is(held)(#[trigger] after[j]) by {
        assert(after[j] == db.repos[j]);
    }
    lemma_first_index_is(after, repo_is(held), i);
}

/// A store whose shared table is as it was left when an issue or pull
/// request was brought in is left as it is, with the classification that it
/// is handed, when the same is brought in again.
pub proof fn lemma_shared_settled(
    before: DatabaseView,
    db: DatabaseView,
    status: ProcessStatus,
    again: ProcessStatus,
    user: usize,
    repo: usize,
    number: u64,
    title: Option<Seq<char>>,
    body: Option<Seq<char>>,
    lock_reason: Option<Seq<char>>,
    created_timestamp: i64,
    updated_timestamp: i64,
    closed_at_timestamp: Option<i64>,
    state_reason: Option<i64>,
    closed_by: Option<usize>,
    author_association: Option<Seq<char>>,
)
    requires
        db.shared == before.ensure_shared_exists(
            status,
            user,
            repo,
            number,
            title,
            body,
            lock_reason,
            created_timestamp,
            updated_timestamp,
            closed_at_timestamp,
            state_reason,
            closed_by,
            author_association,
        ).db.shared,
    ensures
        db.ensure_shared_exists(
            again,
            user,
            repo,
            number,
            title,
            body,
            lock_reason,
            created_timestamp,
            updated_timestamp,
            closed_at_timestamp,
            state_reason,
            closed_by,
            author_association,
        ) == (Ensured {
            db,
            status: again,
            row: before.ensure_shared_exists(
                status,
                user,
                repo,
                number,
                title,
                body,
                lock_reason,
                created_timestamp,
                updated_timestamp,
                closed_at_timestamp,
                state_reason,
                closed_by,
                author_association,
            ).row,
        }),
{
    let found = shared_with_number(number as i64);
    lemma_first_index(before.shared, found);
    let i = match first_index(before.shared, found) {
        Some(i) => i,
        None => before.shared.len() as int,
    };
    assert forall|j: int| 0 <= j < i implies !found(#[trigger] db.shared[j]) by {
        assert(db.shared[j] == before.shared[j]);
    }
    lemma_first_index_is(db.shared, found, i);
    assert(db.ensure_shared_exists(
        again,
        user,
        repo,
        number,
        title,
        body,
        lock_reason,
        created_timestamp,
        updated_timestamp,
        closed_at_timestamp,
        state_reason,
        closed_by,
        author_association,
    ).db.shared =~= db.shared);
}

/// A store whose pull request table is as it was left when a pull request's
/// own attributes were brought in is left as it is when the same are
/// brought in again.
pub proof fn lemma_pr_settled(
    before: DatabaseView,
    db: DatabaseView,
    status: ProcessStatus,
    again: ProcessStatus,
    shared: usize,
    draft: bool,
    maintainer_can_modify: bool,
    num_additions: i64,
    num_deletions: i64,
    num_changed_files: i64,
    num_commits: i64,
    merged_at_timestamp: Option<i64>,
    merge_commit_sha: Option<Seq<char>>,
    merged_by: Option<usize>,
    head_sha: Seq<char>,
    base_sha: Seq<char>,
    mergeable: bool,
    rebaseable: bool,
    mergeable_state: i64,
)
    requires
        db.pull_requests == before.ensure_pr_exists(
            status,
            shared,
            draft,
            maintainer_can_modify,
            num_additions,
            num_deletions,
            num_changed_files,
            num_commits,
            merged_at_timestamp,
            merge_commit_sha,
            merged_by,
            head_sha,
            base_sha,
            mergeable,
            rebaseable,
            mergeable_state,
        ).db.pull_requests,
    ensures
        db.ensure_pr_exists(
            again,
            shared,
            draft,
            maintainer_can_modify,
            num_additions,
            num_deletions,
            num_changed_files,
            num_commits,
            merged_at_timestamp,
            merge_commit_sha,
            merged_by,
            head_sha,
            base_sha,
            mergeable,
            rebaseable,
            mergeable_state,
        ) == (Ensured {
            db,
            status: again,
            row: before.ensure_pr_exists(
                status,
                shared,
                draft,
                maintainer_can_modify,
                num_additions,
                num_deletions,
                num_changed_files,
                num_commits,
                merged_at_timestamp,
                merge_commit_sha,
                merged_by,
                head_sha,
                base_sha,
                mergeable,
                rebaseable,
                mergeable_state,
            ).row,
        }),
{
    lemma_first_index(before.pull_requests, pr_of(shared));
    let i = match first_index(before.pull_requests, pr_of(shared)) {
        Some(i) => i,
        None => before.pull_requests.len() as int,
    };
    assert forall|j: int| 0 <= j < i implies !pr_of(shared)(#[trigger] db.pull_requests[j]) by {
        assert(db.pull_requests[j] == before.pull_requests[j]);
    }
    lemma_first_index_is(db.pull_requests, pr_of(shared), i);
    assert(db.ensure_pr_exists(
        again,
        shared,
        draft,
        maintainer_can_modify,
        num_additions,
        num_deletions,
        num_changed_files,
        num_commits,
        merged_at_timestamp,
        merge_commit_sha,
        merged_by,
        head_sha,
        base_sha,
        mergeable,
        rebaseable,
        mergeable_state,
    ).db.pull_requests =~= db.pull_requests);
}

/// A store whose comment table is as it was left when a comment was brought
/// in is left as it is when the same is brought in again.
pub proof fn lemma_comment_settled(
    before: DatabaseView,
    db: DatabaseView,
    status: ProcessStatus,
    again: ProcessStatus,
    comment_id: i64,
    author: usize,
    issue_or_pr: usize,
    text: Option<Seq<char>>,
    created_timestamp: i64,
    updated_timestamp: i64,
)
    requires
        db.comments == before.ensure_comment_exists(
            status,
            comment_id,
            author,
            issue_or_pr,
            text,
            created_timestamp,
            updated_timestamp,
        ).db.comments,
    ensures
        db.ensure_comment_exists(
            again,
            comment_id,
            author,
            issue_or_pr,
            text,
            created_timestamp,
            updated_timestamp,
        ) == (Ensured {
            db,
            status: again,
            row: before.ensure_comment_exists(
                status,
                comment_id,
                author,
                issue_or_pr,
                text,
                created_timestamp,
                updated_timestamp,
            ).row,
        }),
{
    let found = comment_with_id(comment_id);
    lemma_first_index(before.comments, found);
    let i = match first_index(before.comments, found) {
        Some(i) => i,
        None => before.comments.len() as int,
    };
    assert forall|j: int| 0 <= j < i implies !found(#[trigger] db.comments[j]) by {
        assert(db.comments[j] == before.comments[j]);
    }
    lemma_first_index_is(db.comments, found, i);
    assert(db.ensure_comment_exists(
        again,
        comment_id,
        author,
        issue_or_pr,
        text,
        created_timestamp,
        updated_timestamp,
    ).db.comments =~= db.comments);
}

/// The user, if there is one.
pub open spec fn optional(author: Option<Author>) -> Seq<Author> {
    match author {
        Some(a) => seq![a],
        None => Seq::empty(),
    }
}

/// The users that an issue is observed with: its author, the user who
/// closed it and its assignees.
pub open spec fn issue_authors(issue: crate::models::Issue) -> Seq<Author> {
    seq![issue.user] + optional(issue.closed_by) + issue.assignees@
}

/// Whether what is stored of `issue` does not depend on the time of its
/// observation: a closed issue comes with the time of its closing.
pub open spec fn issue_timed(issue: crate::models::Issue) -> bool {
    issue.state == IssueState::Closed ==> issue.closed_at is Some
}

/// Bringing an optional user into a store that holds it changes nothing.
pub proof fn lemma_optional_user_settled(
    db: DatabaseView,
    status: ProcessStatus,
    author: Option<Author>,
)
    requires
        author matches Some(a) ==> holds_user(db.users, a),
    ensures
        db.ensure_optional_user(status, author) == (EnsuredOptional {
            db,
            status,
            row: match author {
                Some(a) => Some(row_of_user(db.users, a)),
                None => None,
            },
        }),
{
    if let Some(a) = author {
        lemma_user_settled(db, status, a);
    }
}

/// The users of an issue that is reported alike: its assignees are alike
/// one another, and alike its author and the user who closed it.
proof fn lemma_issue_authors(issue: crate::models::Issue)
    requires
        all_alike(issue_authors(issue)),
    ensures
        all_alike(issue.assignees@),
        alike_all(issue.user, issue.assignees@),
        issue.closed_by matches Some(cb) ==> alike(issue.user, cb) && alike_all(
            cb,
            issue.assignees@,
        ),
{
    let authors = issue_authors(issue);
    let assignees = issue.assignees@;
    let offset = authors.len() - assignees.len();
    assert(authors[0] == issue.user);
    assert forall|k: int| 0 <= k < assignees.len() implies #[trigger] assignees[k]
        == authors[offset + k] by {}
    assert forall|i: int, j: int|
        0 <= i < assignees.len() && 0 <= j < assignees.len() implies alike(
        #[trigger] assignees[i],
        #[trigger] assignees[j],
    ) by {
        assert(alike(authors[offset + i], authors[offset + j]));
    }
    assert forall|i: int| 0 <= i < assignees.len() implies alike(
        issue.user,
        #[trigger] assignees[i],
    ) by {
        assert(alike(authors[0], authors[offset + i]));
    }
    if let Some(cb) = issue.closed_by {
        assert(authors[1] == cb);
        assert(alike(authors[0], authors[1]));
        assert forall|i: int| 0 <= i < assignees.len() implies alike(
            cb,
            #[trigger] assignees[i],
        ) by {
            assert(alike(authors[1], authors[offset + i]));
        }
    }
}

/// After an issue was brought into the store, the store holds its author
/// and the user who closed it in the rows that they were given, holds its
/// labels and assignees, and links its row to exactly these.
pub proof fn lemma_issue_observed(db: DatabaseView, repo: RepoView, issue: crate::models::Issue, now: i64)
    requires
        all_alike(issue_authors(issue)),
        all_labels_alike(issue.labels@),
    ensures
        ({
            let first = db.process_issue(repo, issue, now).db;
            let rows = db.issue_rows(repo, issue, now);
            let u = db.ensure_user_exists(ProcessStatus::Unchanged, issue.user);
            let c = u.db.find_or_insert_repo(repo).db.ensure_optional_user(
                u.status,
                issue.closed_by,
            );
            &&& holds_user(first.users, issue.user)
            &&& row_of_user(first.users, issue.user) == u.row
            &&& issue.closed_by matches Some(cb) ==> holds_user(first.users, cb) && Some(
                row_of_user(first.users, cb),
            ) == c.row
            &&& issue.closed_by is None ==> c.row is None
            &&& holds_labels(first.labels, issue.labels@)
            &&& holds_users(first.users, issue.assignees@)
            &&& first.repos == rows.db.repos
            &&& first.shared == rows.db.shared
            &&& first.issues == rows.db.issues
            &&& first.label_links == reconciled(
                db.label_links,
                rows.shared,
                rows_of_labels(first.labels, issue.labels@),
            )
            &&& first.assignments == reconciled(
                db.assignments,
                rows.shared,
                rows_of_users(first.users, issue.assignees@),
            )
        }),
{
    let unchanged = ProcessStatus::Unchanged;
    let labels = issue.labels@;
    let assignees = issue.assignees@;
    lemma_issue_authors(issue);
    let u = db.ensure_user_exists(unchanged, issue.user);
    lemma_user_held(db, unchanged, issue.user);
    let r = u.db.find_or_insert_repo(repo);
    let c = r.db.ensure_optional_user(u.status, issue.closed_by);
    if let Some(cb) = issue.closed_by {
        lemma_user_held(r.db, u.status, cb);
        lemma_user_kept(r.db, u.status, issue.user, cb);
    }
    let rows = db.issue_rows(repo, issue, now);
    assert(rows.db.users == c.db.users);
    assert(rows.db.label_links == db.label_links);
    assert(rows.db.assignments == db.assignments);
    let l = rows.db.ensure_labels_exist(rows.status, labels);
    lemma_labels_held(rows.db, rows.status, labels);
    lemma_labels_frame(rows.db, rows.status, labels);
    let ll = l.db.update_label_assignments(l.status, rows.shared, l.rows);
    lemma_users_held(ll.db, ll.status, assignees);
    lemma_users_frame(ll.db, ll.status, assignees);
    lemma_user_kept_by_all(ll.db, ll.status, issue.user, assignees);
    if let Some(cb) = issue.closed_by {
        lemma_user_kept_by_all(ll.db, ll.status, cb, assignees);
    }
}

/// Users that the store holds stay held, in the same rows, when users that
/// are alike are brought in.
pub proof fn lemma_users_kept(
    db: DatabaseView,
    status: ProcessStatus,
    held: Seq<Author>,
    authors: Seq<Author>,
)
    requires
        holds_users(db.users, held),
        forall|i: int| 0 <= i < held.len() ==> alike_all(#[trigger] held[i], authors),
    ensures
        holds_users(db.ensure_users_exist(status, authors).db.users, held),
        rows_of_users(db.ensure_users_exist(status, authors).db.users, held) == rows_of_users(
            db.users,
            held,
        ),
{
    let after = db.ensure_users_exist(status, authors).db.users;
    assert forall|i: int| 0 <= i < held.len() implies holds_user(after, #[trigger] held[i])
        && row_of_user(after, held[i]) == row_of_user(db.users, held[i]) by {
        lemma_user_kept_by_all(db, status, held[i], authors);
    }
    assert(rows_of_users(after, held) =~= rows_of_users(db.users, held));
}

/// The users that a pull request is observed with: its author, the user
/// who merged it, its assignees and the users who are asked to review it.
pub open spec fn pr_authors(pr: crate::models::PullRequest) -> Seq<Author> {
    optional(pr.user) + optional(pr.merged_by) + observed_assignees(pr.assignees, pr.assignee)
        + listed(pr.requested_reviewers)
}

/// Whether what is stored of `pr` does not depend on the time of its
/// observation: it comes with the time of its creation and, if it is
/// closed, with the time of its closing.
pub open spec fn pr_timed(pr: crate::models::PullRequest) -> bool {
    pr.created_at is Some && (pr.state == Some(IssueState::Closed) ==> pr.closed_at is Some)
}

/// The users of a pull request that is reported alike are alike one
/// another, group by group.
proof fn lemma_pr_authors(pr: crate::models::PullRequest, author: Author)
    requires
        pr.user == Some(author),
        all_alike(pr_authors(pr)),
    ensures
        ({
            let assignees = observed_assignees(pr.assignees, pr.assignee);
            let requested = listed(pr.requested_reviewers);
            &&& all_alike(assignees)
            &&& all_alike(requested)
            &&& alike_all(author, assignees)
            &&& alike_all(author, requested)
            &&& forall|i: int| 0 <= i < assignees.len() ==> alike_all(
                #[trigger] assignees[i],
                requested,
            )
            &&& pr.merged_by matches Some(m) ==> alike(author, m) && alike_all(m, assignees)
                && alike_all(m, requested)
        }),
{
    let authors = pr_authors(pr);
    let assignees = observed_assignees(pr.assignees, pr.assignee);
    let requested = listed(pr.requested_reviewers);
    let first = 1 + optional(pr.merged_by).len();
    let second = first + assignees.len();
    assert(authors[0] == author);
    assert forall|k: int| 0 <= k < assignees.len() implies #[trigger] assignees[k]
        == authors[first + k] by {}
    assert forall|k: int| 0 <= k < requested.len() implies #[trigger] requested[k]
        == authors[second + k] by {}
    assert forall|i: int, j: int|
        0 <= i < assignees.len() && 0 <= j < assignees.len() implies alike(
        #[trigger] assignees[i],
        #[trigger] assignees[j],
    ) by {
        assert(alike(authors[first + i], authors[first + j]));
    }
    assert forall|i: int, j: int|
        0 <= i < requested.len() && 0 <= j < requested.len() implies alike(
        #[trigger] requested[i],
        #[trigger] requested[j],
    ) by {
        assert(alike(authors[second + i], authors[second + j]));
    }
    assert forall|i: int| 0 <= i < assignees.len() implies alike(
        author,
        #[trigger] assignees[i],
    ) by {
        assert(alike(authors[0], authors[first + i]));
    }
    assert forall|i: int| 0 <= i < requested.len() implies alike(
        author,
        #[trigger] requested[i],
    ) by {
        assert(alike(authors[0], authors[second + i]));
    }
    assert forall|i: int| 0 <= i < assignees.len() implies alike_all(
        #[trigger] assignees[i],
        requested,
    ) by {
        assert forall|j: int| 0 <= j < requested.len() implies alike(
            assignees[i],
            #[trigger] requested[j],
        ) by {
            assert(alike(authors[first + i], authors[second + j]));
        }
    }
    if let Some(m) = pr.merged_by {
        assert(authors[1] == m);
        assert(alike(authors[0], authors[1]));
        assert forall|i: int| 0 <= i < assignees.len() implies alike(
            m,
            #[trigger] assignees[i],
        ) by {
            assert(alike(authors[1], authors[first + i]));
        }
        assert forall|i: int| 0 <= i < requested.len() implies alike(
            m,
            #[trigger] requested[i],
        ) by {
            assert(alike(authors[1], authors[second + i]));
        }
    }
}

/// After a pull request was brought into the store, the store holds its
/// author and the user who merged it in the rows that they were given,
/// holds its labels, its assignees and the users who are asked to review
/// it, and links its rows to exactly these.
pub proof fn lemma_pr_observed(
    db: DatabaseView,
    repo: RepoView,
    author: Author,
    pr: crate::models::PullRequest,
    now: i64,
)
    requires
        pr.user == Some(author),
        all_alike(pr_authors(pr)),
        all_labels_alike(listed(pr.labels)),
    ensures
        ({
            let first = db.process_pr(repo, pr, now).db;
            let rows = db.pr_rows(repo, author, pr, now);
            let labels = listed(pr.labels);
            let assignees = observed_assignees(pr.assignees, pr.assignee);
            let requested = listed(pr.requested_reviewers);
            let u = db.ensure_user_exists(ProcessStatus::Unchanged, author);
            let m = u.db.find_or_insert_repo(repo).db.ensure_optional_user(
                u.status,
                pr.merged_by,
            );
            &&& holds_user(first.users, author)
            &&& row_of_user(first.users, author) == u.row
            &&& pr.merged_by matches Some(by) ==> holds_user(first.users, by) && Some(
                row_of_user(first.users, by),
            ) == m.row
            &&& pr.merged_by is None ==> m.row is None
            &&& holds_labels(first.labels, labels)
            &&& holds_users(first.users, assignees)
            &&& holds_users(first.users, requested)
            &&& first.repos == rows.db.repos
            &&& first.shared == rows.db.shared
            &&& first.pull_requests == rows.db.pull_requests
            &&& first.label_links == reconciled(
                db.label_links,
                rows.shared,
                rows_of_labels(first.labels, labels),
            )
            &&& first.assignments == reconciled(
                db.assignments,
                rows.shared,
                rows_of_users(first.users, assignees),
            )
            &&& first.review_requests == reconciled(
                db.review_requests,
                rows.own,
                rows_of_users(first.users, requested),
            )
        }),
{
    let unchanged = ProcessStatus::Unchanged;
    let labels = listed(pr.labels);
    let assignees = observed_assignees(pr.assignees, pr.assignee);
    let requested = listed(pr.requested_reviewers);
    lemma_pr_authors(pr, author);
    let u = db.ensure_user_exists(unchanged, author);
    lemma_user_held(db, unchanged, author);
    let r = u.db.find_or_insert_repo(repo);
    let m = r.db.ensure_optional_user(u.status, pr.merged_by);
    if let Some(by) = pr.merged_by {
        lemma_user_held(r.db, u.status, by);
        lemma_user_kept(r.db, u.status, author, by);
    }
    let rows = db.pr_rows(repo, author, pr, now);
    assert(rows.db.users == m.db.users);
    assert(rows.db.label_links == db.label_links);
    assert(rows.db.assignments == db.assignments);
    assert(rows.db.review_requests == db.review_requests);
    let l = rows.db.ensure_labels_exist(rows.status, labels);
    lemma_labels_held(rows.db, rows.status, labels);
    lemma_labels_frame(rows.db, rows.status, labels);
    let ll = l.db.update_label_assignments(l.status, rows.shared, l.rows);
    let a = ll.db.ensure_users_exist(ll.status, assignees);
    lemma_users_held(ll.db, ll.status, assignees);
    lemma_users_frame(ll.db, ll.status, assignees);
    lemma_user_kept_by_all(ll.db, ll.status, author, assignees);
    if let Some(by) = pr.merged_by {
        lemma_user_kept_by_all(ll.db, ll.status, by, assignees);
    }
    let links = rows.db.update_links(rows.status, rows.shared, labels, assignees);
    assert(links.db.users == a.db.users);
    assert(links.db.labels == l.db.labels);
    assert(links.db.review_requests == db.review_requests);
    lemma_users_held(links.db, links.status, requested);
    lemma_users_frame(links.db, links.status, requested);
    lemma_user_kept_by_all(links.db, links.status, author, requested);
    if let Some(by) = pr.merged_by {
        lemma_user_kept_by_all(links.db, links.status, by, requested);
    }
    lemma_users_kept(links.db, links.status, assignees, requested);
}

} // verus!
