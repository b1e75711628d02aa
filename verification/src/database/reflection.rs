//! A store that reflects an issue is left alone by it, and goes on
//! reflecting it while other issues are observed.
//!
//! A store reflects an issue if it holds the users and labels of the issue
//! as observed, holds the issue under its number with nothing left to write,
//! and links its row to exactly the observed labels and assignees.

use vstd::prelude::*;
use crate::database::idempotence::{
    alike, alike_all, all_alike, all_labels_alike, holds_labels, holds_user, holds_users,
    issue_authors, issue_timed, lemma_labels_settled, lemma_optional_user_settled,
    lemma_reconciled_settled, lemma_settled_kept, lemma_settled_reconcile, lemma_user_settled,
    lemma_labels_kept, lemma_repo_kept, lemma_users_kept, lemma_users_settled,
    lemma_without_nothing, label_alike_all, links_settled, optional, row_of_user, rows_of_labels,
    rows_of_users,
};
use crate::database::process::{closed_at, lock_reason, Processed, Rows};
use crate::database::reconciliation::{lemma_labels_frame, lemma_users_frame, reconciled};
use crate::database::schema::DatabaseView;
use crate::database::updates::{
    association_text, issue_of, repo_is, shared_with_number, state_reason_code, Ensured,
};
use crate::models::{Author, IssueState, Label};
use crate::repo::RepoView;
use crate::requests::opt_text;
use crate::status::ProcessStatus;
use crate::table::{first_index, lemma_first_index, lemma_first_index_is};

verus! {

/// The rows of the user table that hold the user, if there is one.
pub open spec fn row_of_optional_user(db: DatabaseView, author: Option<Author>) -> Option<usize> {
    match author {
        Some(a) => Some(row_of_user(db.users, a)),
        None => None,
    }
}

impl DatabaseView {
    /// What writing the issue `issue` to the shared table leaves behind,
    /// where the store holds the issue and its users.
    pub open spec fn shared_step(self, issue: crate::models::Issue, now: i64) -> Ensured {
        self.ensure_shared_exists(
            ProcessStatus::Unchanged,
            row_of_user(self.users, issue.user),
            0,
            issue.number,
            Some(issue.title@),
            opt_text(issue.body),
            lock_reason(issue.locked, opt_text(issue.active_lock_reason)),
            issue.created_at,
            issue.updated_at,
            closed_at(issue.state == IssueState::Closed, issue.closed_at, now),
            state_reason_code(issue.state_reason),
            row_of_optional_user(self, issue.closed_by),
            association_text(issue.author_association),
        )
    }

    /// The row of the shared table with the number of the issue `issue`.
    pub open spec fn row_of_issue(self, issue: crate::models::Issue) -> usize {
        first_index(self.shared, shared_with_number(issue.number as i64))->0 as usize
    }

    /// Whether the store reflects the issue `issue` of `repo` as it was
    /// observed at the time `now`.
    pub open spec fn reflects_issue(self, repo: RepoView, issue: crate::models::Issue, now: i64)
        -> bool {
        &&& holds_user(self.users, issue.user)
        &&& issue.closed_by matches Some(cb) ==> holds_user(self.users, cb)
        &&& holds_users(self.users, issue.assignees@)
        &&& holds_labels(self.labels, issue.labels@)
        &&& first_index(self.repos, repo_is(repo)) is Some
        &&& first_index(self.shared, shared_with_number(issue.number as i64)) is Some
        &&& self.shared_step(issue, now).db.shared == self.shared
        &&& self.shared_step(issue, now).status == ProcessStatus::Unchanged
        &&& first_index(self.issues, issue_of(self.row_of_issue(issue))) is Some
        &&& links_settled(
            self.label_links,
            self.row_of_issue(issue),
            rows_of_labels(self.labels, issue.labels@),
        )
        &&& links_settled(
            self.assignments,
            self.row_of_issue(issue),
            rows_of_users(self.users, issue.assignees@),
        )
    }

    /// Whether the tables that refer to rows by their index are short enough
    /// for `more` rows to be added to each.
    pub open spec fn has_room(self, more: nat) -> bool {
        &&& self.users.len() + more <= usize::MAX
        &&& self.labels.len() + more <= usize::MAX
        &&& self.shared.len() + more <= usize::MAX
        &&& self.issues.len() + more <= usize::MAX
        &&& self.pull_requests.len() + more <= usize::MAX
        &&& self.label_links.len() + more <= usize::MAX
        &&& self.assignments.len() + more <= usize::MAX
        &&& self.review_requests.len() + more <= usize::MAX
    }
}

/// The most rows that observing the issue `issue` adds to any one table.
pub open spec fn issue_weight(issue: crate::models::Issue) -> nat {
    issue.labels@.len() + issue.assignees@.len() + 2
}

/// A store that holds labels and assignees and links a row to exactly these
/// is left as it is when they are brought in.
pub proof fn lemma_links_reflected(
    db: DatabaseView,
    status: ProcessStatus,
    shared: usize,
    labels: Seq<Label>,
    assignees: Seq<Author>,
)
    requires
        holds_labels(db.labels, labels),
        holds_users(db.users, assignees),
        links_settled(db.label_links, shared, rows_of_labels(db.labels, labels)),
        links_settled(db.assignments, shared, rows_of_users(db.users, assignees)),
        db.has_room(0),
    ensures
        db.update_links(status, shared, labels, assignees) == (Processed { db, status }),
{
    lemma_labels_settled(db, status, labels);
    lemma_settled_reconcile(db.label_links, shared, rows_of_labels(db.labels, labels));
    lemma_users_settled(db, status, assignees);
    lemma_settled_reconcile(db.assignments, shared, rows_of_users(db.users, assignees));
    lemma_without_nothing(db.assignments);
    lemma_without_nothing(db.label_links);
    let with_labels = db.ensure_labels_exist(status, labels);
    let links = with_labels.db.update_label_assignments(
        with_labels.status,
        shared,
        with_labels.rows,
    );
    assert(links.db == db);
    let with_users = links.db.ensure_users_exist(links.status, assignees);
    let assigned = with_users.db.update_assignments(with_users.status, shared, with_users.rows);
    assert(assigned.db == db);
    assert(assigned.db.delete_assignments(assigned.outdated) == db);
    assert(db.delete_label_links(links.outdated) == db);
}

/// An issue that the store reflects is classified as unchanged and leaves
/// the store as it is, at whatever time it is observed again, provided that
/// what is stored of it does not depend on that time.
pub proof fn lemma_reflected_issue(
    db: DatabaseView,
    repo: RepoView,
    issue: crate::models::Issue,
    now: i64,
    later: i64,
)
    requires
        db.reflects_issue(repo, issue, now),
        issue_timed(issue),
        db.has_room(0),
    ensures
        db.process_issue(repo, issue, later) == (Processed {
            db,
            status: ProcessStatus::Unchanged,
        }),
{
    let unchanged = ProcessStatus::Unchanged;
    lemma_user_settled(db, unchanged, issue.user);
    lemma_first_index(db.repos, repo_is(repo));
    lemma_optional_user_settled(db, unchanged, issue.closed_by);
    let found = shared_with_number(issue.number as i64);
    lemma_first_index(db.shared, found);
    let at = first_index(db.shared, found)->0;
    let repo_row = db.find_or_insert_repo(repo).row;
    let written = db.ensure_shared_exists(
        unchanged,
        row_of_user(db.users, issue.user),
        repo_row,
        issue.number,
        Some(issue.title@),
        opt_text(issue.body),
        lock_reason(issue.locked, opt_text(issue.active_lock_reason)),
        issue.created_at,
        issue.updated_at,
        closed_at(issue.state == IssueState::Closed, issue.closed_at, later),
        state_reason_code(issue.state_reason),
        row_of_optional_user(db, issue.closed_by),
        association_text(issue.author_association),
    );
    assert(written == db.shared_step(issue, now));
    assert(written.db == db);
    lemma_first_index(db.issues, issue_of(at as usize));
    let rows = db.issue_rows(repo, issue, later);
    assert(rows == Rows {
        db,
        status: unchanged,
        shared: at as usize,
        own: first_index(db.issues, issue_of(at as usize))->0 as usize,
    });
    lemma_links_reflected(db, unchanged, at as usize, issue.labels@, issue.assignees@);
}

/// The store reflects an issue that was just brought in.
pub proof fn lemma_issue_reflected(
    db: DatabaseView,
    repo: RepoView,
    issue: crate::models::Issue,
    now: i64,
)
    requires
        all_alike(issue_authors(issue)),
        all_labels_alike(issue.labels@),
        db.has_room(issue_weight(issue)),
    ensures
        db.process_issue(repo, issue, now).db.reflects_issue(repo, issue, now),
{
    let unchanged = ProcessStatus::Unchanged;
    let labels = issue.labels@;
    let assignees = issue.assignees@;
    crate::database::idempotence::lemma_issue_observed(db, repo, issue, now);
    let first = db.process_issue(repo, issue, now).db;
    let rows = db.issue_rows(repo, issue, now);
    let u = db.ensure_user_exists(unchanged, issue.user);
    let r = u.db.find_or_insert_repo(repo);
    let c = r.db.ensure_optional_user(u.status, issue.closed_by);
    let found = shared_with_number(issue.number as i64);
    let s = c.db.ensure_shared_exists(
        c.status,
        u.row,
        r.row,
        issue.number,
        Some(issue.title@),
        opt_text(issue.body),
        lock_reason(issue.locked, opt_text(issue.active_lock_reason)),
        issue.created_at,
        issue.updated_at,
        closed_at(issue.state == IssueState::Closed, issue.closed_at, now),
        state_reason_code(issue.state_reason),
        c.row,
        association_text(issue.author_association),
    );
    // The repository is there.
    lemma_first_index(u.db.repos, repo_is(repo));
    let repo_at = match first_index(u.db.repos, repo_is(repo)) {
        Some(i) => i,
        None => u.db.repos.len() as int,
    };
    assert forall|j: int| 0 <= j < repo_at implies !repo_is(repo)(#[trigger] first.repos[j]) by {
        assert(first.repos[j] == u.db.repos[j]);
    }
    lemma_first_index_is(first.repos, repo_is(repo), repo_at);
    // The shared row is there, with nothing left to write.
    lemma_first_index(c.db.shared, found);
    let at = match first_index(c.db.shared, found) {
        Some(i) => i,
        None => c.db.shared.len() as int,
    };
    assert forall|j: int| 0 <= j < at implies !found(#[trigger] first.shared[j]) by {
        assert(first.shared[j] == c.db.shared[j]);
    }
    lemma_first_index_is(first.shared, found, at);
    assert(first.row_of_issue(issue) == rows.shared);
    crate::database::idempotence::lemma_shared_settled(
        c.db,
        first,
        c.status,
        unchanged,
        u.row,
        r.row,
        issue.number,
        Some(issue.title@),
        opt_text(issue.body),
        lock_reason(issue.locked, opt_text(issue.active_lock_reason)),
        issue.created_at,
        issue.updated_at,
        closed_at(issue.state == IssueState::Closed, issue.closed_at, now),
        state_reason_code(issue.state_reason),
        c.row,
        association_text(issue.author_association),
    );
    assert(first.shared_step(issue, now) == first.ensure_shared_exists(
        unchanged,
        u.row,
        r.row,
        issue.number,
        Some(issue.title@),
        opt_text(issue.body),
        lock_reason(issue.locked, opt_text(issue.active_lock_reason)),
        issue.created_at,
        issue.updated_at,
        closed_at(issue.state == IssueState::Closed, issue.closed_at, now),
        state_reason_code(issue.state_reason),
        c.row,
        association_text(issue.author_association),
    ));
    // The issue row is there.
    lemma_first_index(s.db.issues, issue_of(s.row));
    let marked = match first_index(s.db.issues, issue_of(s.row)) {
        Some(i) => i,
        None => s.db.issues.len() as int,
    };
    assert forall|j: int| 0 <= j < marked implies !issue_of(s.row)(#[trigger] first.issues[j]) by {
        assert(first.issues[j] == s.db.issues[j]);
    }
    lemma_first_index_is(first.issues, issue_of(s.row), marked);
    // The links are those of the labels and assignees.
    lemma_reconciled_settled(db.label_links, rows.shared, rows_of_labels(first.labels, labels));
    lemma_reconciled_settled(db.assignments, rows.shared, rows_of_users(first.users, assignees));
}

/// What bringing users into the store does to the user table, and the rows
/// that it gives, depend on the user table only.
pub proof fn lemma_users_local(
    a: DatabaseView,
    b: DatabaseView,
    status: ProcessStatus,
    other: ProcessStatus,
    authors: Seq<Author>,
)
    requires
        a.users == b.users,
    ensures
        a.ensure_users_exist(status, authors).db.users == b.ensure_users_exist(
            other,
            authors,
        ).db.users,
        a.ensure_users_exist(status, authors).rows == b.ensure_users_exist(other, authors).rows,
    decreases authors.len(),
{
    if authors.len() > 0 {
        lemma_users_local(a, b, status, other, authors.drop_last());
    }
}

/// Bringing two lists of users into the store, one after the other, does to
/// the user table what bringing in the two as one list does.
pub proof fn lemma_users_concat(
    db: DatabaseView,
    status: ProcessStatus,
    first: Seq<Author>,
    second: Seq<Author>,
)
    ensures
        db.ensure_users_exist(status, first + second).db.users == db.ensure_users_exist(
            status,
            first,
        ).db.ensure_users_exist(status, second).db.users,
    decreases second.len(),
{
    if second.len() == 0 {
        assert(first + second =~= first);
    } else {
        let all = first + second;
        assert(all.drop_last() =~= first + second.drop_last());
        assert(all.last() == second.last());
        lemma_users_concat(db, status, first, second.drop_last());
        let a = db.ensure_users_exist(status, first + second.drop_last());
        let b = db.ensure_users_exist(status, first).db.ensure_users_exist(
            status,
            second.drop_last(),
        );
        crate::database::classification::lemma_users_status(db, status, all.drop_last());
        crate::database::classification::lemma_user_status(a.db, a.status, second.last());
        crate::database::classification::lemma_user_status(b.db, b.status, second.last());
        lemma_user_local(a.db, b.db, second.last());
    }
}

/// What bringing a user into the store does to the user table depends on
/// the user table only.
pub proof fn lemma_user_local(a: DatabaseView, b: DatabaseView, author: Author)
    requires
        a.users == b.users,
    ensures
        a.ensure_user_exists(ProcessStatus::Unchanged, author).db.users == b.ensure_user_exists(
            ProcessStatus::Unchanged,
            author,
        ).db.users,
        a.ensure_user_exists(ProcessStatus::Unchanged, author).row == b.ensure_user_exists(
            ProcessStatus::Unchanged,
            author,
        ).row,
{
}

/// Observing an issue does to the user table what bringing in its users
/// does, and to the label table what bringing in its labels does.
pub proof fn lemma_issue_brings(
    db: DatabaseView,
    repo: RepoView,
    issue: crate::models::Issue,
    now: i64,
)
    ensures
        db.process_issue(repo, issue, now).db.users == db.ensure_users_exist(
            ProcessStatus::Unchanged,
            issue_authors(issue),
        ).db.users,
        db.process_issue(repo, issue, now).db.labels == db.ensure_labels_exist(
            ProcessStatus::Unchanged,
            issue.labels@,
        ).db.labels,
{
    let unchanged = ProcessStatus::Unchanged;
    let head = seq![issue.user] + optional(issue.closed_by);
    let u = db.ensure_user_exists(unchanged, issue.user);
    let r = u.db.find_or_insert_repo(repo);
    let c = r.db.ensure_optional_user(u.status, issue.closed_by);
    let rows = db.issue_rows(repo, issue, now);
    let l = rows.db.ensure_labels_exist(rows.status, issue.labels@);
    lemma_labels_frame(rows.db, rows.status, issue.labels@);
    let ll = l.db.update_label_assignments(l.status, rows.shared, l.rows);
    lemma_users_frame(ll.db, ll.status, issue.assignees@);
    // The users.
    let first = db.ensure_users_exist(unchanged, head);
    assert(first.db.users == c.db.users) by {
        reveal_with_fuel(DatabaseView::ensure_users_exist, 3);
        assert(seq![issue.user].drop_last() =~= Seq::<Author>::empty());
        if let Some(cb) = issue.closed_by {
            assert(head.drop_last() =~= seq![issue.user]);
            assert(head.last() == cb);
            crate::database::classification::lemma_user_status(u.db, u.status, cb);
            lemma_user_local(r.db, u.db, cb);
        } else {
            assert(head =~= seq![issue.user]);
        }
    }
    lemma_users_concat(db, unchanged, head, issue.assignees@);
    lemma_users_local(first.db, ll.db, unchanged, ll.status, issue.assignees@);
    // The labels.
    lemma_labels_local(rows.db, db, rows.status, unchanged, issue.labels@);
}

/// What bringing labels into the store does to the label table, and the
/// rows that it gives, depend on the label table only.
pub proof fn lemma_labels_local(
    a: DatabaseView,
    b: DatabaseView,
    status: ProcessStatus,
    other: ProcessStatus,
    labels: Seq<Label>,
)
    requires
        a.labels == b.labels,
    ensures
        a.ensure_labels_exist(status, labels).db.labels == b.ensure_labels_exist(
            other,
            labels,
        ).db.labels,
        a.ensure_labels_exist(status, labels).rows == b.ensure_labels_exist(other, labels).rows,
    decreases labels.len(),
{
    if labels.len() > 0 {
        lemma_labels_local(a, b, status, other, labels.drop_last());
    }
}

/// Writing an issue or pull request to a shared table leaves it as it is
/// if it leaves another table so that holds the same row under the number.
pub proof fn lemma_shared_step_kept(
    before: DatabaseView,
    after: DatabaseView,
    user: usize,
    repo: usize,
    number: u64,
    title: Option<Seq<char>>,
    body: Option<Seq<char>>,
    lock_reason: Option<Seq<char>>,
    created_timestamp: i64,
    updated_timestamp: i64,
    closed_at_timestamp: Option<i64>,
    state_reason: Option<i64>,
    closed_by: Option<usize>,
    author_association: Option<Seq<char>>,
)
    requires
        first_index(before.shared, shared_with_number(number as i64)) is Some,
        first_index(after.shared, shared_with_number(number as i64)) == first_index(
            before.shared,
            shared_with_number(number as i64),
        ),
        after.shared[first_index(before.shared, shared_with_number(number as i64))->0]
            == before.shared[first_index(before.shared, shared_with_number(number as i64))->0],
        before.ensure_shared_exists(
            ProcessStatus::Unchanged,
            user,
            repo,
            number,
            title,
            body,
            lock_reason,
            created_timestamp,
            updated_timestamp,
            closed_at_timestamp,
            state_reason,
            closed_by,
            author_association,
        ).db.shared == before.shared,
        before.ensure_shared_exists(
            ProcessStatus::Unchanged,
            user,
            repo,
            number,
            title,
            body,
            lock_reason,
            created_timestamp,
            updated_timestamp,
            closed_at_timestamp,
            state_reason,
            closed_by,
            author_association,
        ).status == ProcessStatus::Unchanged,
    ensures
        after.ensure_shared_exists(
            ProcessStatus::Unchanged,
            user,
            repo,
            number,
            title,
            body,
            lock_reason,
            created_timestamp,
            updated_timestamp,
            closed_at_timestamp,
            state_reason,
            closed_by,
            author_association,
        ).db.shared == after.shared,
        after.ensure_shared_exists(
            ProcessStatus::Unchanged,
            user,
            repo,
            number,
            title,
            body,
            lock_reason,
            created_timestamp,
            updated_timestamp,
            closed_at_timestamp,
            state_reason,
            closed_by,
            author_association,
        ).status == ProcessStatus::Unchanged,
{
    let found = shared_with_number(number as i64);
    lemma_first_index(before.shared, found);
    lemma_first_index(after.shared, found);
    let at = first_index(before.shared, found)->0;
    let written = before.ensure_shared_exists(
        ProcessStatus::Unchanged,
        user,
        repo,
        number,
        title,
        body,
        lock_reason,
        created_timestamp,
        updated_timestamp,
        closed_at_timestamp,
        state_reason,
        closed_by,
        author_association,
    ).db.shared;
    assert(written[at] == before.shared[at]);
    assert(after.ensure_shared_exists(
        ProcessStatus::Unchanged,
        user,
        repo,
        number,
        title,
        body,
        lock_reason,
        created_timestamp,
        updated_timestamp,
        closed_at_timestamp,
        state_reason,
        closed_by,
        author_association,
    ).db.shared =~= after.shared);
}

/// Whether every user of `held` is alike every user of `others`.
pub open spec fn authors_alike(held: Seq<Author>, others: Seq<Author>) -> bool {
    forall|i: int| 0 <= i < held.len() ==> alike_all(#[trigger] held[i], others)
}

/// Whether every label of `held` is alike every label of `others`.
pub open spec fn labels_all_alike(held: Seq<Label>, others: Seq<Label>) -> bool {
    forall|i: int| 0 <= i < held.len() ==> label_alike_all(#[trigger] held[i], others)
}

/// Whether two issues can be observed one after the other without the one
/// undoing what the other wrote: they have different numbers, and a user or
/// label that occurs in both is reported alike in both.
pub open spec fn issues_agree(a: crate::models::Issue, b: crate::models::Issue) -> bool {
    &&& a.number as i64 != b.number as i64
    &&& authors_alike(issue_authors(a), issue_authors(b))
    &&& labels_all_alike(a.labels@, b.labels@)
}

/// The store holds the users of an issue exactly if it holds its author,
/// the user who closed it and its assignees.
pub proof fn lemma_issue_users(users: Seq<crate::database::schema::UserView>, issue: crate::models::Issue)
    ensures
        holds_users(users, issue_authors(issue)) <==> holds_user(users, issue.user) && (
        issue.closed_by matches Some(cb) ==> holds_user(users, cb)) && holds_users(
            users,
            issue.assignees@,
        ),
        rows_of_users(users, issue_authors(issue)).len() == issue_authors(issue).len(),
{
    let authors = issue_authors(issue);
    let assignees = issue.assignees@;
    let offset = authors.len() - assignees.len();
    assert(authors[0] == issue.user);
    if let Some(cb) = issue.closed_by {
        assert(authors[1] == cb);
    }
    assert forall|k: int| 0 <= k < assignees.len() implies #[trigger] assignees[k]
        == authors[offset + k] by {}
    if holds_users(users, authors) {
        assert(holds_user(users, authors[0]));
        if issue.closed_by is Some {
            assert(holds_user(users, authors[1]));
        }
        assert forall|k: int| 0 <= k < assignees.len() implies holds_user(
            users,
            #[trigger] assignees[k],
        ) by {
            assert(holds_user(users, authors[offset + k]));
        }
    }
    if holds_user(users, issue.user) && (issue.closed_by matches Some(cb) ==> holds_user(
        users,
        cb,
    )) && holds_users(users, assignees) {
        assert forall|i: int| 0 <= i < authors.len() implies holds_user(
            users,
            #[trigger] authors[i],
        ) by {
            if i >= offset {
                assert(authors[i] == assignees[i - offset]);
            }
        }
    }
}

/// The rows of the users of an issue, where two user tables hold its users
/// in the same rows.
proof fn lemma_issue_user_rows(
    before: Seq<crate::database::schema::UserView>,
    after: Seq<crate::database::schema::UserView>,
    issue: crate::models::Issue,
)
    requires
        rows_of_users(after, issue_authors(issue)) == rows_of_users(before, issue_authors(issue)),
    ensures
        row_of_user(after, issue.user) == row_of_user(before, issue.user),
        issue.closed_by matches Some(cb) ==> row_of_user(after, cb) == row_of_user(before, cb),
        rows_of_users(after, issue.assignees@) == rows_of_users(before, issue.assignees@),
{
    let authors = issue_authors(issue);
    let assignees = issue.assignees@;
    let offset = authors.len() - assignees.len();
    let rows_after = rows_of_users(after, authors);
    let rows_before = rows_of_users(before, authors);
    assert(authors[0] == issue.user);
    assert(rows_after[0] == rows_before[0]);
    if let Some(cb) = issue.closed_by {
        assert(authors[1] == cb);
        assert(rows_after[1] == rows_before[1]);
    }
    assert forall|k: int| 0 <= k < assignees.len() implies #[trigger] rows_of_users(
        after,
        assignees,
    )[k] == rows_of_users(before, assignees)[k] by {
        assert(assignees[k] == authors[offset + k]);
        assert(rows_after[offset + k] == rows_before[offset + k]);
    }
    assert(rows_of_users(after, assignees) =~= rows_of_users(before, assignees));
}

/// A store that reflects an issue still reflects it after another issue,
/// which agrees with it, was observed.
pub proof fn lemma_issue_reflection_kept(
    db: DatabaseView,
    repo: RepoView,
    issue: crate::models::Issue,
    now: i64,
    other_repo: RepoView,
    other: crate::models::Issue,
    then: i64,
)
    requires
        db.reflects_issue(repo, issue, now),
        issues_agree(issue, other),
        db.has_room(issue_weight(other)),
    ensures
        db.process_issue(other_repo, other, then).db.reflects_issue(repo, issue, now),
{
    let unchanged = ProcessStatus::Unchanged;
    let held = issue_authors(issue);
    let others = issue_authors(other);
    let after = db.process_issue(other_repo, other, then).db;
    lemma_issue_users(db.users, issue);
    // What observing the other issue does to the tables.
    let u = db.ensure_user_exists(unchanged, other.user);
    let r = u.db.find_or_insert_repo(other_repo);
    let c = r.db.ensure_optional_user(u.status, other.closed_by);
    let rows = db.issue_rows(other_repo, other, then);
    let l = rows.db.ensure_labels_exist(rows.status, other.labels@);
    lemma_labels_frame(rows.db, rows.status, other.labels@);
    let ll = l.db.update_label_assignments(l.status, rows.shared, l.rows);
    let a = ll.db.ensure_users_exist(ll.status, other.assignees@);
    lemma_users_frame(ll.db, ll.status, other.assignees@);
    assert(after.users == a.db.users);
    assert(after.labels == l.db.labels);
    assert(after.repos == r.db.repos);
    assert(after.shared == rows.db.shared);
    assert(after.issues == rows.db.issues);
    assert(after.label_links == reconciled(db.label_links, rows.shared, l.rows));
    assert(after.assignments == reconciled(db.assignments, rows.shared, a.rows));
    // The users and labels of the issue stay held, in their rows.
    lemma_issue_brings(db, other_repo, other, then);
    lemma_users_kept(db, unchanged, held, others);
    lemma_issue_users(after.users, issue);
    lemma_issue_user_rows(db.users, after.users, issue);
    lemma_labels_kept(db, unchanged, issue.labels@, other.labels@);
    // Its repository stays.
    lemma_repo_kept(u.db, repo, other_repo);
    // Its shared row stays, with nothing left to write.
    let found = shared_with_number(issue.number as i64);
    let other_found = shared_with_number(other.number as i64);
    lemma_first_index(db.shared, found);
    lemma_first_index(c.db.shared, other_found);
    let at = first_index(db.shared, found)->0;
    assert(c.db.shared == db.shared);
    let other_at = match first_index(c.db.shared, other_found) {
        Some(i) => i,
        None => c.db.shared.len() as int,
    };
    assert(after.shared[other_at].number == other.number as i64);
    assert forall|j: int| 0 <= j < after.shared.len() && j != other_at implies
        #[trigger] after.shared[j] == db.shared[j] by {}
    assert(at != other_at);
    assert forall|j: int| 0 <= j < at implies !found(#[trigger] after.shared[j]) by {
        if j != other_at {
            assert(after.shared[j] == db.shared[j]);
        }
    }
    lemma_first_index_is(after.shared, found, at);
    lemma_shared_step_kept(
        db,
        after,
        row_of_user(db.users, issue.user),
        0,
        issue.number,
        Some(issue.title@),
        opt_text(issue.body),
        lock_reason(issue.locked, opt_text(issue.active_lock_reason)),
        issue.created_at,
        issue.updated_at,
        closed_at(issue.state == IssueState::Closed, issue.closed_at, now),
        state_reason_code(issue.state_reason),
        row_of_optional_user(db, issue.closed_by),
        association_text(issue.author_association),
    );
    // Its issue row stays.
    lemma_first_index(db.issues, issue_of(at as usize));
    let marked = first_index(db.issues, issue_of(at as usize))->0;
    assert forall|j: int| 0 <= j <= marked implies #[trigger] after.issues[j]
        == db.issues[j] by {}
    lemma_first_index_is(after.issues, issue_of(at as usize), marked);
    // Its links stay, as the other issue has another row.
    assert(rows.shared == other_at as usize);
    assert(rows.shared != at as usize);
    lemma_settled_kept(
        db.label_links,
        at as usize,
        rows_of_labels(db.labels, issue.labels@),
        rows.shared,
        l.rows,
    );
    lemma_settled_kept(
        db.assignments,
        at as usize,
        rows_of_users(db.users, issue.assignees@),
        rows.shared,
        a.rows,
    );
}

/// Bringing a user into the store adds at most one row.
pub proof fn lemma_user_grows(db: DatabaseView, status: ProcessStatus, author: Author)
    ensures
        db.users.len() <= db.ensure_user_exists(status, author).db.users.len() <= db.users.len()
            + 1,
{
    lemma_first_index(db.users, crate::database::updates::user_with_id(author.id as i64));
}

/// Bringing users into the store adds at most one row for each.
pub proof fn lemma_users_grow(db: DatabaseView, status: ProcessStatus, authors: Seq<Author>)
    ensures
        db.users.len() <= db.ensure_users_exist(status, authors).db.users.len() <= db.users.len()
            + authors.len(),
    decreases authors.len(),
{
    if authors.len() > 0 {
        lemma_users_grow(db, status, authors.drop_last());
        let before = db.ensure_users_exist(status, authors.drop_last());
        lemma_user_grows(before.db, before.status, authors.last());
    }
}

/// Bringing labels into the store adds at most one row for each.
pub proof fn lemma_labels_grow(db: DatabaseView, status: ProcessStatus, labels: Seq<Label>)
    ensures
        db.labels.len() <= db.ensure_labels_exist(status, labels).db.labels.len()
            <= db.labels.len() + labels.len(),
    decreases labels.len(),
{
    if labels.len() > 0 {
        lemma_labels_grow(db, status, labels.drop_last());
        let before = db.ensure_labels_exist(status, labels.drop_last());
        lemma_first_index(
            before.db.labels,
            crate::database::updates::label_with_name(labels.last().name@),
        );
    }
}

/// Bringing the rows of an issue into the store adds at most two users and
/// one row to the shared table and to the issue table, and leaves the other
/// tables that refer to rows as they are.
pub proof fn lemma_issue_rows_grow(
    db: DatabaseView,
    repo: RepoView,
    issue: crate::models::Issue,
    now: i64,
)
    ensures
        ({
            let rows = db.issue_rows(repo, issue, now);
            &&& db.users.len() <= rows.db.users.len() <= db.users.len() + 2
            &&& db.shared.len() <= rows.db.shared.len() <= db.shared.len() + 1
            &&& db.issues.len() <= rows.db.issues.len() <= db.issues.len() + 1
            &&& rows.db.labels == db.labels
            &&& rows.db.pull_requests == db.pull_requests
            &&& rows.db.label_links == db.label_links
            &&& rows.db.assignments == db.assignments
            &&& rows.db.review_requests == db.review_requests
        }),
{
    let unchanged = ProcessStatus::Unchanged;
    let u = db.ensure_user_exists(unchanged, issue.user);
    lemma_user_grows(db, unchanged, issue.user);
    let r = u.db.find_or_insert_repo(repo);
    let c = r.db.ensure_optional_user(u.status, issue.closed_by);
    if let Some(cb) = issue.closed_by {
        lemma_user_grows(r.db, u.status, cb);
    }
    lemma_first_index(c.db.shared, shared_with_number(issue.number as i64));
    let s = c.db.ensure_shared_exists(
        c.status,
        u.row,
        r.row,
        issue.number,
        Some(issue.title@),
        opt_text(issue.body),
        lock_reason(issue.locked, opt_text(issue.active_lock_reason)),
        issue.created_at,
        issue.updated_at,
        closed_at(issue.state == IssueState::Closed, issue.closed_at, now),
        state_reason_code(issue.state_reason),
        c.row,
        association_text(issue.author_association),
    );
    lemma_first_index(s.db.issues, issue_of(s.row));
}

/// Observing an issue adds no more rows to a table than the issue weighs.
pub proof fn lemma_issue_room(
    db: DatabaseView,
    repo: RepoView,
    issue: crate::models::Issue,
    now: i64,
    more: nat,
)
    requires
        db.has_room(more + issue_weight(issue)),
    ensures
        db.process_issue(repo, issue, now).db.has_room(more),
{
    let rows = db.issue_rows(repo, issue, now);
    lemma_issue_rows_grow(db, repo, issue, now);
    let l = rows.db.ensure_labels_exist(rows.status, issue.labels@);
    lemma_labels_frame(rows.db, rows.status, issue.labels@);
    lemma_labels_grow(rows.db, rows.status, issue.labels@);
    let ll = l.db.update_label_assignments(l.status, rows.shared, l.rows);
    let a = ll.db.ensure_users_exist(ll.status, issue.assignees@);
    lemma_users_frame(ll.db, ll.status, issue.assignees@);
    lemma_users_grow(ll.db, ll.status, issue.assignees@);
    lemma_reconciled_settled(db.label_links, rows.shared, l.rows);
    lemma_reconciled_settled(db.assignments, rows.shared, a.rows);
    let after = db.process_issue(repo, issue, now).db;
    assert(after.label_links == reconciled(db.label_links, rows.shared, l.rows));
    assert(after.assignments == reconciled(db.assignments, rows.shared, a.rows));
    assert(after.users == a.db.users);
    assert(after.labels == l.db.labels);
    assert(after.shared == rows.db.shared);
    assert(after.issues == rows.db.issues);
    assert(after.pull_requests == db.pull_requests);
    assert(after.review_requests == db.review_requests);
}

/// An issue that is brought into the store a second time, right after the
/// first, is classified as unchanged and leaves the store as it is.
///
/// This is shown for an issue in which a user or label that occurs more
/// than once is reported alike each time, and which, if it is closed, comes
/// with the time of its closing.
pub proof fn lemma_issue_idempotent(
    db: DatabaseView,
    repo: RepoView,
    issue: crate::models::Issue,
    now: i64,
    later: i64,
)
    requires
        all_alike(issue_authors(issue)),
        all_labels_alike(issue.labels@),
        issue_timed(issue),
        db.has_room(issue_weight(issue)),
    ensures
        db.process_issue(repo, issue, now).db.process_issue(repo, issue, later) == (Processed {
            db: db.process_issue(repo, issue, now).db,
            status: ProcessStatus::Unchanged,
        }),
{
    lemma_issue_reflected(db, repo, issue, now);
    lemma_issue_room(db, repo, issue, now, 0);
    lemma_reflected_issue(db.process_issue(repo, issue, now).db, repo, issue, now, later);
}

} // verus!
