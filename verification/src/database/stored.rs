//! What the store holds of an issue or pull request after it was observed.

use vstd::prelude::*;
use crate::database::process::{closed_at, count, listed, lock_reason, observed_assignees};
use crate::database::reconciliation::{lemma_labels_frame, lemma_users_frame};
use crate::database::schema::{DatabaseView, PullRequestView};
use crate::database::updates::{
    association_text, issue_of, observed_or, observed_or_kept, pr_of, shared_with_number,
    state_reason_code,
};
use crate::models::{Author, IssueState, Label};
use crate::repo::RepoView;
use crate::requests::opt_text;
use crate::status::ProcessStatus;
use crate::table::{first_index, lemma_first_index, lemma_first_index_is};

verus! {

/// Bringing labels and assignees into the store leaves the shared table,
/// the issue table and the pull request table as they are.
pub proof fn lemma_update_links_frame(
    db: DatabaseView,
    status: ProcessStatus,
    shared: usize,
    labels: Seq<Label>,
    assignees: Seq<Author>,
)
    ensures
        db.update_links(status, shared, labels, assignees).db.shared == db.shared,
        db.update_links(status, shared, labels, assignees).db.issues == db.issues,
        db.update_links(status, shared, labels, assignees).db.pull_requests == db.pull_requests,
{
    let with_labels = db.ensure_labels_exist(status, labels);
    lemma_labels_frame(db, status, labels);
    let links = with_labels.db.update_label_assignments(
        with_labels.status,
        shared,
        with_labels.rows,
    );
    lemma_users_frame(links.db, links.status, assignees);
}

/// After an issue was observed, the store holds it under its number, as an
/// issue, with the observed title, times and lock reason. It has a closing
/// time exactly if it is closed, and a lock reason exactly if it is locked.
pub proof fn lemma_issue_stored(db: DatabaseView, repo: RepoView, issue: crate::models::Issue, now: i64)
    requires
        db.shared.len() < usize::MAX,
    ensures
        ({
            let after = db.process_issue(repo, issue, now).db;
            let at = db.issue_rows(repo, issue, now).shared;
            let row = after.shared[at as int];
            &&& first_index(after.shared, shared_with_number(issue.number as i64)) == Some(
                at as int,
            )
            &&& first_index(after.issues, issue_of(at)) is Some
            &&& row.title == issue.title@
            &&& row.created_timestamp == issue.created_at
            &&& row.updated_timestamp == issue.updated_at
            &&& row.closed_at_timestamp == closed_at(
                issue.state == IssueState::Closed,
                issue.closed_at,
                now,
            )
            &&& row.closed_at_timestamp is Some <==> issue.state == IssueState::Closed
            &&& row.lock_reason == lock_reason(issue.locked, opt_text(issue.active_lock_reason))
            &&& row.lock_reason is Some <==> issue.locked
            &&& issue.body matches Some(body) ==> row.description == body@
        }),
{
    let unchanged = ProcessStatus::Unchanged;
    let user = db.ensure_user_exists(unchanged, issue.user);
    let repo_row = user.db.find_or_insert_repo(repo);
    let closed_by = repo_row.db.ensure_optional_user(user.status, issue.closed_by);
    let found = shared_with_number(issue.number as i64);
    let shared = closed_by.db.ensure_shared_exists(
        closed_by.status,
        user.row,
        repo_row.row,
        issue.number,
        Some(issue.title@),
        opt_text(issue.body),
        lock_reason(issue.locked, opt_text(issue.active_lock_reason)),
        issue.created_at,
        issue.updated_at,
        closed_at(issue.state == IssueState::Closed, issue.closed_at, now),
        state_reason_code(issue.state_reason),
        closed_by.row,
        association_text(issue.author_association),
    );
    lemma_first_index(closed_by.db.shared, found);
    let at = match first_index(closed_by.db.shared, found) {
        Some(i) => i,
        None => closed_by.db.shared.len() as int,
    };
    assert forall|j: int| 0 <= j < at implies !found(#[trigger] shared.db.shared[j]) by {
        assert(shared.db.shared[j] == closed_by.db.shared[j]);
    }
    lemma_first_index_is(shared.db.shared, found, at);
    let own = shared.db.ensure_issue_exists(shared.status, shared.row);
    lemma_first_index(shared.db.issues, issue_of(shared.row));
    let marked = match first_index(shared.db.issues, issue_of(shared.row)) {
        Some(i) => i,
        None => shared.db.issues.len() as int,
    };
    assert forall|j: int| 0 <= j < marked implies !issue_of(shared.row)(
        #[trigger] own.db.issues[j],
    ) by {
        assert(own.db.issues[j] == shared.db.issues[j]);
    }
    lemma_first_index_is(own.db.issues, issue_of(shared.row), marked);
    lemma_update_links_frame(own.db, own.status, shared.row, issue.labels@, issue.assignees@);
}

/// Whether a pull request row has its merge time, its merge commit and the
/// user who merged it all together, or none of them.
pub open spec fn merged_together(row: PullRequestView) -> bool {
    (row.merged_at_timestamp is Some <==> row.merge_commit_sha is Some) && (
    row.merge_commit_sha is Some <==> row.merged_by is Some)
}

impl DatabaseView {
    /// Whether every pull request of the store has its merge attributes all
    /// together or not at all.
    pub open spec fn merges_complete(self) -> bool {
        forall|i: int|
            0 <= i < self.pull_requests.len() ==> merged_together(#[trigger] self.pull_requests[i])
    }
}

/// Whether a pull request is observed with its merge time, its merge commit
/// and the user who merged it all together, or with none of them.
pub open spec fn observed_together(pr: crate::models::PullRequest) -> bool {
    (pr.merged_at is Some <==> pr.merge_commit_sha is Some) && (pr.merge_commit_sha is Some
        <==> pr.merged_by is Some)
}

/// After a pull request was observed, the store holds it under its number,
/// as a pull request, with the observed heads and counts. Where pull
/// requests are observed with their merge attributes all together or not at
/// all, they are stored so.
pub proof fn lemma_pr_stored(
    db: DatabaseView,
    repo: RepoView,
    author: Author,
    pr: crate::models::PullRequest,
    now: i64,
)
    requires
        pr.user == Some(author),
        db.shared.len() < usize::MAX,
        db.pull_requests.len() < usize::MAX,
    ensures
        ({
            let after = db.process_pr(repo, pr, now).db;
            let rows = db.pr_rows(repo, author, pr, now);
            let row = after.shared[rows.shared as int];
            let own = after.pull_requests[rows.own as int];
            &&& first_index(after.shared, shared_with_number(pr.number as i64)) == Some(
                rows.shared as int,
            )
            &&& first_index(after.pull_requests, pr_of(rows.shared)) == Some(rows.own as int)
            &&& row.closed_at_timestamp is Some <==> pr.state == Some(IssueState::Closed)
            &&& row.lock_reason is Some <==> pr.locked
            &&& pr.updated_at matches Some(t) ==> row.updated_timestamp == t
            &&& own.shared == rows.shared
            &&& own.head_sha == Some(pr.head_sha@)
            &&& own.base_sha == Some(pr.base_sha@)
            &&& own.num_additions == count(pr.additions)
            &&& own.num_commits == count(pr.commits)
            &&& own.draft == observed_or(pr.draft, false)
            &&& db.merges_complete() && observed_together(pr) ==> after.merges_complete()
        }),
{
    let unchanged = ProcessStatus::Unchanged;
    let user = db.ensure_user_exists(unchanged, author);
    let repo_row = user.db.find_or_insert_repo(repo);
    let merged_by = repo_row.db.ensure_optional_user(user.status, pr.merged_by);
    let found = shared_with_number(pr.number as i64);
    let shared = merged_by.db.ensure_shared_exists(
        merged_by.status,
        user.row,
        repo_row.row,
        pr.number,
        opt_text(pr.title),
        opt_text(pr.body),
        lock_reason(pr.locked, opt_text(pr.active_lock_reason)),
        observed_or(pr.created_at, now),
        observed_or(observed_or_kept(pr.updated_at, pr.created_at), now),
        closed_at(pr.state == Some(IssueState::Closed), pr.closed_at, now),
        None,
        merged_by.row,
        association_text(pr.author_association),
    );
    lemma_first_index(merged_by.db.shared, found);
    let at = match first_index(merged_by.db.shared, found) {
        Some(i) => i,
        None => merged_by.db.shared.len() as int,
    };
    assert forall|j: int| 0 <= j < at implies !found(#[trigger] shared.db.shared[j]) by {
        assert(shared.db.shared[j] == merged_by.db.shared[j]);
    }
    lemma_first_index_is(shared.db.shared, found, at);
    let rows = db.pr_rows(repo, author, pr, now);
    lemma_first_index(shared.db.pull_requests, pr_of(shared.row));
    let own = match first_index(shared.db.pull_requests, pr_of(shared.row)) {
        Some(i) => i,
        None => shared.db.pull_requests.len() as int,
    };
    assert forall|j: int| 0 <= j < rows.db.pull_requests.len() && j != own implies
        #[trigger] rows.db.pull_requests[j] == shared.db.pull_requests[j] by {}
    lemma_first_index_is(rows.db.pull_requests, pr_of(shared.row), own);
    let labels = listed(pr.labels);
    let assignees = observed_assignees(pr.assignees, pr.assignee);
    lemma_update_links_frame(rows.db, rows.status, rows.shared, labels, assignees);
    let links = rows.db.update_links(rows.status, rows.shared, labels, assignees);
    lemma_users_frame(links.db, links.status, listed(pr.requested_reviewers));
    let after = db.process_pr(repo, pr, now).db;
    assert(after.pull_requests == rows.db.pull_requests);
    assert(after.shared == shared.db.shared);
    if db.merges_complete() && observed_together(pr) {
        assert(shared.db.pull_requests == db.pull_requests);
        assert forall|i: int| 0 <= i < after.pull_requests.len() implies merged_together(
            #[trigger] after.pull_requests[i],
        ) by {
            if i != own {
                assert(after.pull_requests[i] == db.pull_requests[i]);
            } else if own < db.pull_requests.len() {
                assert(merged_together(db.pull_requests[own]));
            }
        }
    }
}

} // verus!
