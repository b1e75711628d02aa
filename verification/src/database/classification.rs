//! The classification of a compound observation is the least of the
//! classifications of the rows that it touches.
//!
//! Every routine that brings something into the store is handed a
//! classification and lowers it. What it lowers it to is the lesser of what
//! it was handed and the classification of its own rows, and the store that
//! it leaves does not depend on what it was handed. So the classification
//! that a whole comment, issue or pull request ends up with is the least
//! among its rows.

use vstd::prelude::*;
use crate::database::links::{confirm, confirm_all, mark, Link};
use crate::database::process::{closed_at, count, listed, lock_reason, observed_assignees};
use crate::database::schema::DatabaseView;
use crate::database::updates::{
    association_text, observed_or, observed_or_kept, shared_with_number, state_reason_code,
};
use crate::models::{Author, IssueState, Label, MergeableState};
use crate::repo::RepoView;
use crate::requests::opt_text;
use crate::status::{lemma_combined_concat, lemma_combined_few, lemma_min_laws, ProcessStatus};
use crate::table::first_index;

verus! {

/// The classification of a row that was inserted or found.
pub open spec fn new_if(inserted: bool) -> ProcessStatus {
    if inserted {
        ProcessStatus::New
    } else {
        ProcessStatus::Unchanged
    }
}

/// The classifications of the links of `members` to `parent`, each as it is
/// confirmed in `links`, in order: `New` for a link that is added.
pub open spec fn link_statuses<L: Link>(links: Seq<L>, parent: usize, members: Seq<usize>) -> Seq<
    ProcessStatus,
>
    decreases members.len(),
{
    if members.len() == 0 {
        Seq::empty()
    } else {
        let before = confirm_all(links, parent, members.drop_last());
        link_statuses(links, parent, members.drop_last()).push(
            new_if(confirm(before.links, parent, members.last()).inserted),
        )
    }
}

/// A link was added exactly if the least classification among the links is
/// `New`.
pub proof fn lemma_link_statuses<L: Link>(links: Seq<L>, parent: usize, members: Seq<usize>)
    ensures
        ProcessStatus::combined(link_statuses(links, parent, members)) == new_if(
            confirm_all(links, parent, members).inserted,
        ),
    decreases members.len(),
{
    if members.len() > 0 {
        lemma_link_statuses(links, parent, members.drop_last());
        assert(link_statuses(links, parent, members).drop_last() =~= link_statuses(
            links,
            parent,
            members.drop_last(),
        ));
    }
}

impl DatabaseView {
    /// The classifications of the user rows of `authors`, each as it is
    /// brought into the store, in order.
    pub open spec fn user_statuses(self, authors: Seq<Author>) -> Seq<ProcessStatus>
        decreases authors.len(),
    {
        if authors.len() == 0 {
            Seq::empty()
        } else {
            let before = self.ensure_users_exist(ProcessStatus::Unchanged, authors.drop_last());
            self.user_statuses(authors.drop_last()).push(
                before.db.ensure_user_exists(ProcessStatus::Unchanged, authors.last()).status,
            )
        }
    }

    /// The classifications of the label rows of `labels`, each as it is
    /// brought into the store, in order.
    pub open spec fn label_statuses(self, labels: Seq<Label>) -> Seq<ProcessStatus>
        decreases labels.len(),
    {
        if labels.len() == 0 {
            Seq::empty()
        } else {
            let before = self.ensure_labels_exist(ProcessStatus::Unchanged, labels.drop_last());
            self.label_statuses(labels.drop_last()).push(
                before.db.ensure_label_exists(ProcessStatus::Unchanged, labels.last()).status,
            )
        }
    }

    /// The classification of the user row of `author`, if there is one.
    pub open spec fn optional_user_statuses(self, author: Option<Author>) -> Seq<ProcessStatus> {
        match author {
            Some(a) => seq![self.ensure_user_exists(ProcessStatus::Unchanged, a).status],
            None => Seq::empty(),
        }
    }

    /// The classifications of the rows that the labels and assignees of the
    /// row `shared` touch: the labels' rows, the label links, the users'
    /// rows, and the assignments.
    pub open spec fn link_row_statuses(self, shared: usize, labels: Seq<Label>, assignees: Seq<Author>)
        -> Seq<ProcessStatus> {
        let with_labels = self.ensure_labels_exist(ProcessStatus::Unchanged, labels);
        let label_links = with_labels.db.update_label_assignments(
            ProcessStatus::Unchanged,
            shared,
            with_labels.rows,
        );
        let with_users = label_links.db.ensure_users_exist(ProcessStatus::Unchanged, assignees);
        self.label_statuses(labels) + link_statuses(
            mark(with_labels.db.label_links, shared),
            shared,
            with_labels.rows,
        ) + label_links.db.user_statuses(assignees) + link_statuses(
            mark(with_users.db.assignments, shared),
            shared,
            with_users.rows,
        )
    }

    /// The classifications of the rows that a comment touches: its author's
    /// row and its own. A comment that is passed over touches none.
    pub open spec fn comment_row_statuses(self, comment: crate::models::Comment, issue_number: u64)
        -> Seq<ProcessStatus> {
        match first_index(self.shared, shared_with_number(issue_number as i64)) {
            None => Seq::empty(),
            Some(issue_or_pr) => {
                let author = self.ensure_user_exists(ProcessStatus::Unchanged, comment.user);
                seq![
                    author.status,
                    author.db.ensure_comment_exists(
                        ProcessStatus::Unchanged,
                        comment.id as i64,
                        author.row,
                        issue_or_pr as usize,
                        opt_text(comment.body),
                        comment.created_at,
                        observed_or(comment.updated_at, comment.created_at),
                    ).status,
                ]
            },
        }
    }

    /// The classifications of the rows that an issue touches: its author's
    /// row, the row of the user who closed it, its shared row, its issue row
    /// and the rows of its labels, assignees and assignments.
    pub open spec fn issue_row_statuses(self, repo: RepoView, issue: crate::models::Issue, now: i64)
        -> Seq<ProcessStatus> {
        let user = self.ensure_user_exists(ProcessStatus::Unchanged, issue.user);
        let repo_row = user.db.find_or_insert_repo(repo);
        let closed_by = repo_row.db.ensure_optional_user(
            ProcessStatus::Unchanged,
            issue.closed_by,
        );
        let shared = closed_by.db.ensure_shared_exists(
            ProcessStatus::Unchanged,
            user.row,
            repo_row.row,
            issue.number,
            Some(issue.title@),
            opt_text(issue.body),
            lock_reason(issue.locked, opt_text(issue.active_lock_reason)),
            issue.created_at,
            issue.updated_at,
            closed_at(issue.state == IssueState::Closed, issue.closed_at, now),
            state_reason_code(issue.state_reason),
            closed_by.row,
            association_text(issue.author_association),
        );
        let own = shared.db.ensure_issue_exists(ProcessStatus::Unchanged, shared.row);
        seq![user.status] + repo_row.db.optional_user_statuses(issue.closed_by) + seq![
            shared.status,
            own.status,
        ] + own.db.link_row_statuses(shared.row, issue.labels@, issue.assignees@)
    }

    /// The classifications of the rows that a pull request touches: its
    /// author's row, the row of the user who merged it, its shared row, its
    /// pull request row, the rows of its labels, assignees and assignments,
    /// and the rows of the users who are asked for a review and of the
    /// requests for it. A pull request that is passed over touches none.
    pub open spec fn pr_row_statuses(self, repo: RepoView, pr: crate::models::PullRequest, now: i64)
        -> Seq<ProcessStatus> {
        match pr.user {
            None => Seq::empty(),
            Some(author) => {
                let unchanged = ProcessStatus::Unchanged;
                let user = self.ensure_user_exists(unchanged, author);
                let repo_row = user.db.find_or_insert_repo(repo);
                let merged_by = repo_row.db.ensure_optional_user(unchanged, pr.merged_by);
                let shared = merged_by.db.ensure_shared_exists(
                    unchanged,
                    user.row,
                    repo_row.row,
                    pr.number,
                    opt_text(pr.title),
                    opt_text(pr.body),
                    lock_reason(pr.locked, opt_text(pr.active_lock_reason)),
                    observed_or(pr.created_at, now),
                    observed_or(observed_or_kept(pr.updated_at, pr.created_at), now),
                    closed_at(pr.state == Some(IssueState::Closed), pr.closed_at, now),
                    None,
                    merged_by.row,
                    association_text(pr.author_association),
                );
                let own = shared.db.ensure_pr_exists(
                    unchanged,
                    shared.row,
                    observed_or(pr.draft, false),
                    pr.maintainer_can_modify,
                    count(pr.additions),
                    count(pr.deletions),
                    count(pr.changed_files),
                    count(pr.commits),
                    pr.merged_at,
                    opt_text(pr.merge_commit_sha),
                    merged_by.row,
                    pr.head_sha@,
                    pr.base_sha@,
                    observed_or(pr.mergeable, false),
                    observed_or(pr.rebaseable, false),
                    observed_or(pr.mergeable_state, MergeableState::Unknown).spec_code(),
                );
                let links = own.db.update_links(
                    unchanged,
                    shared.row,
                    listed(pr.labels),
                    observed_assignees(pr.assignees, pr.assignee),
                );
                let reviewers = links.db.ensure_users_exist(
                    unchanged,
                    listed(pr.requested_reviewers),
                );
                seq![user.status] + repo_row.db.optional_user_statuses(pr.merged_by) + seq![
                    shared.status,
                    own.status,
                ] + own.db.link_row_statuses(
                    shared.row,
                    listed(pr.labels),
                    observed_assignees(pr.assignees, pr.assignee),
                ) + links.db.user_statuses(listed(pr.requested_reviewers)) + link_statuses(
                    mark(reviewers.db.review_requests, own.row),
                    own.row,
                    reviewers.rows,
                )
            },
        }
    }
}

/// What a user's row is classified as, and the store with the row, do not
/// depend on the classification that is handed in, which is only lowered.
pub proof fn lemma_user_status(db: DatabaseView, status: ProcessStatus, author: Author)
    ensures
        db.ensure_user_exists(status, author).db == db.ensure_user_exists(
            ProcessStatus::Unchanged,
            author,
        ).db,
        db.ensure_user_exists(status, author).row == db.ensure_user_exists(
            ProcessStatus::Unchanged,
            author,
        ).row,
        db.ensure_user_exists(status, author).status == status.min(
            db.ensure_user_exists(ProcessStatus::Unchanged, author).status,
        ),
{
}

/// As [`lemma_user_status`], for a list of users.
pub proof fn lemma_users_status(db: DatabaseView, status: ProcessStatus, authors: Seq<Author>)
    ensures
        db.ensure_users_exist(status, authors).db == db.ensure_users_exist(
            ProcessStatus::Unchanged,
            authors,
        ).db,
        db.ensure_users_exist(status, authors).rows == db.ensure_users_exist(
            ProcessStatus::Unchanged,
            authors,
        ).rows,
        db.ensure_users_exist(status, authors).status == status.min(
            ProcessStatus::combined(db.user_statuses(authors)),
        ),
    decreases authors.len(),
{
    if authors.len() > 0 {
        let front = authors.drop_last();
        lemma_users_status(db, status, front);
        lemma_users_status(db, ProcessStatus::Unchanged, front);
        let before = db.ensure_users_exist(ProcessStatus::Unchanged, front);
        let handed = db.ensure_users_exist(status, front);
        lemma_user_status(before.db, handed.status, authors.last());
        let own = before.db.ensure_user_exists(ProcessStatus::Unchanged, authors.last()).status;
        assert(db.user_statuses(authors).drop_last() =~= db.user_statuses(front));
        lemma_min_laws(status, ProcessStatus::combined(db.user_statuses(front)), own);
    }
}

/// As [`lemma_user_status`], for a list of labels.
pub proof fn lemma_labels_status(db: DatabaseView, status: ProcessStatus, labels: Seq<Label>)
    ensures
        db.ensure_labels_exist(status, labels).db == db.ensure_labels_exist(
            ProcessStatus::Unchanged,
            labels,
        ).db,
        db.ensure_labels_exist(status, labels).rows == db.ensure_labels_exist(
            ProcessStatus::Unchanged,
            labels,
        ).rows,
        db.ensure_labels_exist(status, labels).status == status.min(
            ProcessStatus::combined(db.label_statuses(labels)),
        ),
    decreases labels.len(),
{
    if labels.len() > 0 {
        let front = labels.drop_last();
        lemma_labels_status(db, status, front);
        lemma_labels_status(db, ProcessStatus::Unchanged, front);
        let before = db.ensure_labels_exist(ProcessStatus::Unchanged, front);
        let own = before.db.ensure_label_exists(ProcessStatus::Unchanged, labels.last()).status;
        assert(db.label_statuses(labels).drop_last() =~= db.label_statuses(front));
        lemma_min_laws(status, ProcessStatus::combined(db.label_statuses(front)), own);
    }
}

/// The classification that labels and assignees leave is the lesser of what
/// was handed in and the least among their rows.
pub proof fn lemma_links_status(
    db: DatabaseView,
    status: ProcessStatus,
    shared: usize,
    labels: Seq<Label>,
    assignees: Seq<Author>,
)
    ensures
        db.update_links(status, shared, labels, assignees).db == db.update_links(
            ProcessStatus::Unchanged,
            shared,
            labels,
            assignees,
        ).db,
        db.update_links(status, shared, labels, assignees).status == status.min(
            ProcessStatus::combined(db.link_row_statuses(shared, labels, assignees)),
        ),
{
    let unchanged = ProcessStatus::Unchanged;
    lemma_labels_status(db, status, labels);
    lemma_labels_status(db, unchanged, labels);
    let l_u = db.ensure_labels_exist(unchanged, labels);
    let l_h = db.ensure_labels_exist(status, labels);
    let label_marked = mark(l_u.db.label_links, shared);
    lemma_link_statuses(label_marked, shared, l_u.rows);
    let ll_u = l_u.db.update_label_assignments(l_u.status, shared, l_u.rows);
    let ll_h = l_h.db.update_label_assignments(l_h.status, shared, l_h.rows);
    let ll_0 = l_u.db.update_label_assignments(unchanged, shared, l_u.rows);
    assert(ll_h.db == ll_0.db && ll_u.db == ll_0.db);
    assert(ll_h.outdated == ll_0.outdated && ll_u.outdated == ll_0.outdated);
    lemma_users_status(ll_0.db, ll_h.status, assignees);
    lemma_users_status(ll_0.db, ll_u.status, assignees);
    let u_u = ll_u.db.ensure_users_exist(ll_u.status, assignees);
    let u_h = ll_h.db.ensure_users_exist(ll_h.status, assignees);
    let u_0 = ll_0.db.ensure_users_exist(unchanged, assignees);
    let marked = mark(u_0.db.assignments, shared);
    lemma_link_statuses(marked, shared, u_0.rows);
    let a_u = u_u.db.update_assignments(u_u.status, shared, u_u.rows);
    let a_h = u_h.db.update_assignments(u_h.status, shared, u_h.rows);
    assert(a_h.db == a_u.db);
    assert(a_h.outdated == a_u.outdated);
    let a = ProcessStatus::combined(db.label_statuses(labels));
    let b = ProcessStatus::combined(link_statuses(label_marked, shared, l_u.rows));
    let c = ProcessStatus::combined(ll_0.db.user_statuses(assignees));
    let d = ProcessStatus::combined(link_statuses(marked, shared, u_0.rows));
    assert(ll_h.status == status.min(a).min(b));
    assert(a_h.status == status.min(a).min(b).min(c).min(d));
    lemma_combined_concat(
        db.label_statuses(labels),
        link_statuses(label_marked, shared, l_u.rows),
    );
    lemma_combined_concat(
        db.label_statuses(labels) + link_statuses(label_marked, shared, l_u.rows),
        ll_0.db.user_statuses(assignees),
    );
    lemma_combined_concat(
        db.label_statuses(labels) + link_statuses(label_marked, shared, l_u.rows)
            + ll_0.db.user_statuses(assignees),
        link_statuses(marked, shared, u_0.rows),
    );
    lemma_min_laws(status, a, b);
    lemma_min_laws(status, a.min(b), c);
    lemma_min_laws(status, a.min(b).min(c), d);
}

/// The classification of a comment is the least among the classifications
/// of the rows that it touches.
pub proof fn lemma_comment_status(db: DatabaseView, comment: crate::models::Comment, issue_number: u64)
    ensures
        db.process_comment(comment, issue_number).status == ProcessStatus::combined(
            db.comment_row_statuses(comment, issue_number),
        ),
{
    let rows = db.comment_row_statuses(comment, issue_number);
    if rows.len() > 0 {
        assert(rows =~= seq![rows[0], rows[1]]);
        lemma_combined_few(rows[0], rows[1]);
        lemma_min_laws(ProcessStatus::Unchanged, rows[0], rows[1]);
    } else {
        lemma_combined_few(ProcessStatus::Unchanged, ProcessStatus::Unchanged);
    }
}

/// The classification of an issue is the least among the classifications of
/// the rows that it touches.
pub proof fn lemma_issue_status(db: DatabaseView, repo: RepoView, issue: crate::models::Issue, now: i64)
    ensures
        db.process_issue(repo, issue, now).status == ProcessStatus::combined(
            db.issue_row_statuses(repo, issue, now),
        ),
{
    let unchanged = ProcessStatus::Unchanged;
    let user = db.ensure_user_exists(unchanged, issue.user);
    let repo_row = user.db.find_or_insert_repo(repo);
    let closed_by = repo_row.db.ensure_optional_user(user.status, issue.closed_by);
    let closed_by_rows = repo_row.db.optional_user_statuses(issue.closed_by);
    let shared = closed_by.db.ensure_shared_exists(
        closed_by.status,
        user.row,
        repo_row.row,
        issue.number,
        Some(issue.title@),
        opt_text(issue.body),
        lock_reason(issue.locked, opt_text(issue.active_lock_reason)),
        issue.created_at,
        issue.updated_at,
        closed_at(issue.state == IssueState::Closed, issue.closed_at, now),
        state_reason_code(issue.state_reason),
        closed_by.row,
        association_text(issue.author_association),
    );
    let shared_own = closed_by.db.ensure_shared_exists(
        unchanged,
        user.row,
        repo_row.row,
        issue.number,
        Some(issue.title@),
        opt_text(issue.body),
        lock_reason(issue.locked, opt_text(issue.active_lock_reason)),
        issue.created_at,
        issue.updated_at,
        closed_at(issue.state == IssueState::Closed, issue.closed_at, now),
        state_reason_code(issue.state_reason),
        closed_by.row,
        association_text(issue.author_association),
    );
    let own = shared.db.ensure_issue_exists(shared.status, shared.row);
    let own_own = shared.db.ensure_issue_exists(unchanged, shared.row);
    lemma_links_status(own.db, own.status, shared.row, issue.labels@, issue.assignees@);
    let link_rows = own.db.link_row_statuses(shared.row, issue.labels@, issue.assignees@);
    let head = seq![user.status] + closed_by_rows;
    let middle = seq![shared_own.status, own_own.status];
    assert(db.issue_row_statuses(repo, issue, now) == head + middle + link_rows);
    lemma_combined_concat(seq![user.status], closed_by_rows);
    lemma_combined_concat(head, middle);
    lemma_combined_concat(head + middle, link_rows);
    lemma_combined_few(user.status, user.status);
    lemma_combined_few(shared_own.status, own_own.status);
    assert(closed_by.status == user.status.min(ProcessStatus::combined(closed_by_rows))) by {
        if issue.closed_by is Some {
            lemma_combined_few(closed_by_rows[0], closed_by_rows[0]);
            assert(closed_by_rows =~= seq![closed_by_rows[0]]);
        }
    }
    lemma_min_laws(closed_by.status, shared_own.status, own_own.status);
    lemma_min_laws(
        user.status.min(ProcessStatus::combined(closed_by_rows)),
        ProcessStatus::combined(middle),
        ProcessStatus::combined(link_rows),
    );
}

/// The classification of a pull request is the least among the
/// classifications of the rows that it touches.
pub proof fn lemma_pr_status(db: DatabaseView, repo: RepoView, pr: crate::models::PullRequest, now: i64)
    ensures
        db.process_pr(repo, pr, now).status == ProcessStatus::combined(
            db.pr_row_statuses(repo, pr, now),
        ),
{
    let unchanged = ProcessStatus::Unchanged;
    lemma_combined_few(unchanged, unchanged);
    if let Some(author) = pr.user {
        let labels = listed(pr.labels);
        let assignees = observed_assignees(pr.assignees, pr.assignee);
        let requested = listed(pr.requested_reviewers);
        let user = db.ensure_user_exists(unchanged, author);
        let repo_row = user.db.find_or_insert_repo(repo);
        let merged_by = repo_row.db.ensure_optional_user(user.status, pr.merged_by);
        let merged_by_rows = repo_row.db.optional_user_statuses(pr.merged_by);
        let shared = merged_by.db.ensure_shared_exists(
            merged_by.status,
            user.row,
            repo_row.row,
            pr.number,
            opt_text(pr.title),
            opt_text(pr.body),
            lock_reason(pr.locked, opt_text(pr.active_lock_reason)),
            observed_or(pr.created_at, now),
            observed_or(observed_or_kept(pr.updated_at, pr.created_at), now),
            closed_at(pr.state == Some(IssueState::Closed), pr.closed_at, now),
            None,
            merged_by.row,
            association_text(pr.author_association),
        );
        let shared_own = merged_by.db.ensure_shared_exists(
            unchanged,
            user.row,
            repo_row.row,
            pr.number,
            opt_text(pr.title),
            opt_text(pr.body),
            lock_reason(pr.locked, opt_text(pr.active_lock_reason)),
            observed_or(pr.created_at, now),
            observed_or(observed_or_kept(pr.updated_at, pr.created_at), now),
            closed_at(pr.state == Some(IssueState::Closed), pr.closed_at, now),
            None,
            merged_by.row,
            association_text(pr.author_association),
        );
        let own = shared.db.ensure_pr_exists(
            shared.status,
            shared.row,
            observed_or(pr.draft, false),
            pr.maintainer_can_modify,
            count(pr.additions),
            count(pr.deletions),
            count(pr.changed_files),
            count(pr.commits),
            pr.merged_at,
            opt_text(pr.merge_commit_sha),
            merged_by.row,
            pr.head_sha@,
            pr.base_sha@,
            observed_or(pr.mergeable, false),
            observed_or(pr.rebaseable, false),
            observed_or(pr.mergeable_state, MergeableState::Unknown).spec_code(),
        );
        let own_own = shared.db.ensure_pr_exists(
            unchanged,
            shared.row,
            observed_or(pr.draft, false),
            pr.maintainer_can_modify,
            count(pr.additions),
            count(pr.deletions),
            count(pr.changed_files),
            count(pr.commits),
            pr.merged_at,
            opt_text(pr.merge_commit_sha),
            merged_by.row,
            pr.head_sha@,
            pr.base_sha@,
            observed_or(pr.mergeable, false),
            observed_or(pr.rebaseable, false),
            observed_or(pr.mergeable_state, MergeableState::Unknown).spec_code(),
        );
        lemma_links_status(own.db, own.status, shared.row, labels, assignees);
        let links = own.db.update_links(own.status, shared.row, labels, assignees);
        let links_own = own.db.update_links(unchanged, shared.row, labels, assignees);
        lemma_users_status(links_own.db, links.status, requested);
        let reviewers = links.db.ensure_users_exist(links.status, requested);
        let reviewers_own = links_own.db.ensure_users_exist(unchanged, requested);
        let marked = mark(reviewers_own.db.review_requests, own.row);
        lemma_link_statuses(marked, own.row, reviewers_own.rows);
        let reviews = reviewers.db.update_review_requests(
            reviewers.status,
            own.row,
            reviewers.rows,
        );
        let head = seq![user.status] + merged_by_rows;
        let middle = seq![shared_own.status, own_own.status];
        let link_rows = own.db.link_row_statuses(shared.row, labels, assignees);
        let reviewer_rows = links_own.db.user_statuses(requested);
        let review_rows = link_statuses(marked, own.row, reviewers_own.rows);
        assert(db.pr_row_statuses(repo, pr, now) == head + middle + link_rows + reviewer_rows
            + review_rows);
        lemma_combined_concat(seq![user.status], merged_by_rows);
        lemma_combined_concat(head, middle);
        lemma_combined_concat(head + middle, link_rows);
        lemma_combined_concat(head + middle + link_rows, reviewer_rows);
        lemma_combined_concat(head + middle + link_rows + reviewer_rows, review_rows);
        lemma_combined_few(user.status, user.status);
        lemma_combined_few(shared_own.status, own_own.status);
        assert(merged_by.status == user.status.min(ProcessStatus::combined(merged_by_rows))) by {
            if pr.merged_by is Some {
                lemma_combined_few(merged_by_rows[0], merged_by_rows[0]);
                assert(merged_by_rows =~= seq![merged_by_rows[0]]);
            }
        }
        let h = ProcessStatus::combined(head);
        let m = ProcessStatus::combined(middle);
        let l = ProcessStatus::combined(link_rows);
        let r = ProcessStatus::combined(reviewer_rows);
        let v = ProcessStatus::combined(review_rows);
        lemma_min_laws(merged_by.status, shared_own.status, own_own.status);
        assert(own.status == h.min(m));
        assert(links.status == h.min(m).min(l));
        assert(reviewers.status == h.min(m).min(l).min(r));
        assert(reviews.status == h.min(m).min(l).min(r).min(v));
    }
}

} // verus!
