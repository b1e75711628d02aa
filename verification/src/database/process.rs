//! Bringing a whole comment, issue or pull request into the store: its
//! users and labels, its own row, and its links.

use vstd::prelude::*;
use crate::database::links::{delete_rows, reconcile, reconcile_links, without_rows};
use crate::database::schema::{Database, DatabaseView};
use crate::database::updates::{
    association_text, observed_or, observed_or_kept, shared_with_number, state_reason_code,
};
use crate::models::{Author, IssueState, Label, MergeableState};
use crate::repo::RepoView;
use crate::requests::opt_text;
use crate::table::first_index;
use crate::{GithubDb, GithubDbView};
use crate::status::ProcessStatus;

verus! {

/// What bringing a list of users or labels into the store leaves behind.
pub struct EnsuredAll {
    /// The store afterwards.
    pub db: DatabaseView,
    /// The classification afterwards.
    pub status: ProcessStatus,
    /// The rows that hold the observations, in their order.
    pub rows: Seq<usize>,
}

/// What bringing an optional user into the store leaves behind.
pub struct EnsuredOptional {
    /// The store afterwards.
    pub db: DatabaseView,
    /// The classification afterwards.
    pub status: ProcessStatus,
    /// The row that holds the user, if there is one.
    pub row: Option<usize>,
}

/// What reconciling the links of one parent leaves behind.
pub struct LinksUpdated {
    /// The store afterwards, with no link deleted yet.
    pub db: DatabaseView,
    /// The classification afterwards.
    pub status: ProcessStatus,
    /// The rows of the links that were not confirmed: those to delete.
    pub outdated: Seq<usize>,
}

impl DatabaseView {
    /// The store after each of `authors` was observed, in order.
    pub open spec fn ensure_users_exist(self, status: ProcessStatus, authors: Seq<Author>)
        -> EnsuredAll
        decreases authors.len(),
    {
        if authors.len() == 0 {
            EnsuredAll { db: self, status, rows: Seq::empty() }
        } else {
            let before = self.ensure_users_exist(status, authors.drop_last());
            let last = before.db.ensure_user_exists(before.status, authors.last());
            EnsuredAll { db: last.db, status: last.status, rows: before.rows.push(last.row) }
        }
    }

    /// The store after `author` was observed, if there is one.
    pub open spec fn ensure_optional_user(self, status: ProcessStatus, author: Option<Author>)
        -> EnsuredOptional {
        match author {
            Some(author) => {
                let e = self.ensure_user_exists(status, author);
                EnsuredOptional { db: e.db, status: e.status, row: Some(e.row) }
            },
            None => EnsuredOptional { db: self, status, row: None },
        }
    }

    /// The store after each of `labels` was observed, in order.
    pub open spec fn ensure_labels_exist(self, status: ProcessStatus, labels: Seq<Label>)
        -> EnsuredAll
        decreases labels.len(),
    {
        if labels.len() == 0 {
            EnsuredAll { db: self, status, rows: Seq::empty() }
        } else {
            let before = self.ensure_labels_exist(status, labels.drop_last());
            let last = before.db.ensure_label_exists(before.status, labels.last());
            EnsuredAll { db: last.db, status: last.status, rows: before.rows.push(last.row) }
        }
    }

    /// The store after the users `users` were observed to be assigned to the
    /// row `shared`. A link that is added lowers the classification to `New`.
    pub open spec fn update_assignments(self, status: ProcessStatus, shared: usize, users: Seq<usize>)
        -> LinksUpdated {
        let r = reconcile(self.assignments, shared, users);
        LinksUpdated {
            db: DatabaseView { assignments: r.links, ..self },
            status: if r.inserted {
                status.min(ProcessStatus::New)
            } else {
                status
            },
            outdated: r.outdated,
        }
    }

    /// The store after the labels `labels` were observed on the row `shared`.
    /// A link that is added lowers the classification to `New`.
    pub open spec fn update_label_assignments(
        self,
        status: ProcessStatus,
        shared: usize,
        labels: Seq<usize>,
    ) -> LinksUpdated {
        let r = reconcile(self.label_links, shared, labels);
        LinksUpdated {
            db: DatabaseView { label_links: r.links, ..self },
            status: if r.inserted {
                status.min(ProcessStatus::New)
            } else {
                status
            },
            outdated: r.outdated,
        }
    }

    /// The store after the users `users` were observed to be asked for a
    /// review of the pull request `pr`. A link that is added lowers the
    /// classification to `New`.
    pub open spec fn update_review_requests(
        self,
        status: ProcessStatus,
        pr: usize,
        users: Seq<usize>,
    ) -> LinksUpdated {
        let r = reconcile(self.review_requests, pr, users);
        LinksUpdated {
            db: DatabaseView { review_requests: r.links, ..self },
            status: if r.inserted {
                status.min(ProcessStatus::New)
            } else {
                status
            },
            outdated: r.outdated,
        }
    }

    /// The store without the assignments `rows`.
    pub open spec fn delete_assignments(self, rows: Seq<usize>) -> DatabaseView {
        DatabaseView { assignments: without_rows(self.assignments, rows), ..self }
    }

    /// The store without the label links `rows`.
    pub open spec fn delete_label_links(self, rows: Seq<usize>) -> DatabaseView {
        DatabaseView { label_links: without_rows(self.label_links, rows), ..self }
    }

    /// The store without the review requests `rows`.
    pub open spec fn delete_review_requests(self, rows: Seq<usize>) -> DatabaseView {
        DatabaseView { review_requests: without_rows(self.review_requests, rows), ..self }
    }
}

impl Database {
    /// Brings each of `authors` into the user table, in order, and gives
    /// their rows.
    pub fn ensure_users_exist(&mut self, status: &mut ProcessStatus, authors: &Vec<Author>) -> (rows:
        Vec<usize>)
        ensures
            final(self)@ == old(self)@.ensure_users_exist(*old(status), authors@).db,
            *final(status) == old(self)@.ensure_users_exist(*old(status), authors@).status,
            rows@ == old(self)@.ensure_users_exist(*old(status), authors@).rows,
    {
        let mut rows: Vec<usize> = Vec::new();
        let mut k: usize = 0;
        while k < authors.len()
            invariant
                k <= authors.len(),
                self@ == old(self)@.ensure_users_exist(*old(status), authors@.take(k as int)).db,
                *status == old(self)@.ensure_users_exist(
                    *old(status),
                    authors@.take(k as int),
                ).status,
                rows@ == old(self)@.ensure_users_exist(*old(status), authors@.take(k as int)).rows,
            decreases authors.len() - k,
        {
            proof {
                        assert(authors@.take(k + 1).drop_last() =~= authors@.take(k as int));
            }
            let row = self.ensure_user_exists(status, authors[k].clone());
            rows.push(row);
            k += 1;
        }
        assert(authors@.take(k as int) =~= authors@);
        rows
    }

    /// Brings `author` into the user table, if there is one.
    pub fn ensure_optional_user(&mut self, status: &mut ProcessStatus, author: Option<Author>) -> (row:
        Option<usize>)
        ensures
            final(self)@ == old(self)@.ensure_optional_user(*old(status), author).db,
            *final(status) == old(self)@.ensure_optional_user(*old(status), author).status,
            row == old(self)@.ensure_optional_user(*old(status), author).row,
    {
        match author {
            Some(author) => Some(self.ensure_user_exists(status, author)),
            None => None,
        }
    }

    /// Brings each of `labels` into the label table, in order, and gives
    /// their rows.
    pub fn ensure_labels_exist(&mut self, status: &mut ProcessStatus, labels: &Vec<Label>) -> (rows:
        Vec<usize>)
        ensures
            final(self)@ == old(self)@.ensure_labels_exist(*old(status), labels@).db,
            *final(status) == old(self)@.ensure_labels_exist(*old(status), labels@).status,
            rows@ == old(self)@.ensure_labels_exist(*old(status), labels@).rows,
    {
        let mut rows: Vec<usize> = Vec::new();
        let mut k: usize = 0;
        while k < labels.len()
            invariant
                k <= labels.len(),
                self@ == old(self)@.ensure_labels_exist(*old(status), labels@.take(k as int)).db,
                *status == old(self)@.ensure_labels_exist(
                    *old(status),
                    labels@.take(k as int),
                ).status,
                rows@ == old(self)@.ensure_labels_exist(*old(status), labels@.take(k as int)).rows,
            decreases labels.len() - k,
        {
            proof {
                        assert(labels@.take(k + 1).drop_last() =~= labels@.take(k as int));
            }
            let row = self.ensure_label_exists(status, labels[k].clone());
            rows.push(row);
            k += 1;
        }
        assert(labels@.take(k as int) =~= labels@);
        rows
    }

    /// Reconciles the assignments of the row `shared` with the observed
    /// `users`, and gives the rows of the assignments that are to be deleted.
    pub fn update_assignments(
        &mut self,
        status: &mut ProcessStatus,
        shared: usize,
        users: Vec<usize>,
    ) -> (outdated: Vec<usize>)
        ensures
            final(self)@ == old(self)@.update_assignments(*old(status), shared, users@).db,
            *final(status) == old(self)@.update_assignments(*old(status), shared, users@).status,
            outdated@ == old(self)@.update_assignments(*old(status), shared, users@).outdated,
    {
        let (inserted, outdated) = reconcile_links(&mut self.assignments, shared, &users);
        if inserted {
            status.update(ProcessStatus::New);
        }
        outdated
    }

    /// Reconciles the label links of the row `shared` with the observed
    /// `labels`, and gives the rows of the links that are to be deleted.
    pub fn update_label_assignments(
        &mut self,
        status: &mut ProcessStatus,
        shared: usize,
        labels: Vec<usize>,
    ) -> (outdated: Vec<usize>)
        ensures
            final(self)@ == old(self)@.update_label_assignments(*old(status), shared, labels@).db,
            *final(status) == old(self)@.update_label_assignments(
                *old(status),
                shared,
                labels@,
            ).status,
            outdated@ == old(self)@.update_label_assignments(
                *old(status),
                shared,
                labels@,
            ).outdated,
    {
        let (inserted, outdated) = reconcile_links(&mut self.label_links, shared, &labels);
        if inserted {
            status.update(ProcessStatus::New);
        }
        outdated
    }

    /// Reconciles the review requests of the pull request `pr` with the
    /// observed `users`, and gives the rows of the requests that are to be
    /// deleted.
    pub fn update_review_requests(
        &mut self,
        status: &mut ProcessStatus,
        pr: usize,
        users: Vec<usize>,
    ) -> (outdated: Vec<usize>)
        ensures
            final(self)@ == old(self)@.update_review_requests(*old(status), pr, users@).db,
            *final(status) == old(self)@.update_review_requests(*old(status), pr, users@).status,
            outdated@ == old(self)@.update_review_requests(*old(status), pr, users@).outdated,
    {
        let (inserted, outdated) = reconcile_links(&mut self.review_requests, pr, &users);
        if inserted {
            status.update(ProcessStatus::New);
        }
        outdated
    }

    /// Deletes the assignments `rows`.
    pub fn delete_assignments(&mut self, rows: &Vec<usize>)
        ensures
            final(self)@ == old(self)@.delete_assignments(rows@),
    {
        delete_rows(&mut self.assignments, rows);
    }

    /// Deletes the label links `rows`.
    pub fn delete_label_links(&mut self, rows: &Vec<usize>)
        ensures
            final(self)@ == old(self)@.delete_label_links(rows@),
    {
        delete_rows(&mut self.label_links, rows);
    }

    /// Deletes the review requests `rows`.
    pub fn delete_review_requests(&mut self, rows: &Vec<usize>)
        ensures
            final(self)@ == old(self)@.delete_review_requests(rows@),
    {
        delete_rows(&mut self.review_requests, rows);
    }
}

/// What bringing the rows of an issue or pull request into the store leaves
/// behind.
pub struct Rows {
    /// The store afterwards.
    pub db: DatabaseView,
    /// The classification afterwards.
    pub status: ProcessStatus,
    /// The row of the shared table.
    pub shared: usize,
    /// The row of the issue table or of the pull request table.
    pub own: usize,
}

/// What bringing an observation into the store leaves behind.
pub struct Processed {
    /// The store afterwards.
    pub db: DatabaseView,
    /// The classification of the observation.
    pub status: ProcessStatus,
}

/// The closing time to store: for a closed item the observed one, or `now`
/// where none was observed; for any other item none.
pub open spec fn closed_at(closed: bool, observed: Option<i64>, now: i64) -> Option<i64> {
    if closed {
        Some(observed_or(observed, now))
    } else {
        None
    }
}

/// The lock reason to store: none for an item that is not locked; for a
/// locked one the observed reason, or the empty text where none was observed.
pub open spec fn lock_reason(locked: bool, reason: Option<Seq<char>>) -> Option<Seq<char>> {
    if locked {
        Some(observed_or(reason, Seq::empty()))
    } else {
        None
    }
}

/// The count to store for an optional count: zero where none was observed.
pub open spec fn count(n: Option<u64>) -> i64 {
    match n {
        Some(n) => n as i64,
        None => 0,
    }
}

/// The observed members of an optional list: none where the list is absent.
pub open spec fn listed<T>(list: Option<Vec<T>>) -> Seq<T> {
    match list {
        Some(list) => list@,
        None => Seq::empty(),
    }
}

/// The observed assignees: the list where there is one, else the single
/// assignee where there is one.
pub open spec fn observed_assignees(list: Option<Vec<Author>>, single: Option<Author>) -> Seq<
    Author,
> {
    match list {
        Some(list) => list@,
        None => match single {
            Some(a) => seq![a],
            None => Seq::empty(),
        },
    }
}

/// Executable form of [`closed_at`].
pub fn closed_at_timestamp(closed: bool, observed: Option<i64>, now: i64) -> (r: Option<i64>)
    ensures
        r == closed_at(closed, observed, now),
{
    if closed {
        match observed {
            Some(t) => Some(t),
            None => Some(now),
        }
    } else {
        None
    }
}

/// Executable form of [`lock_reason`].
pub fn lock_reason_of(locked: bool, reason: Option<String>) -> (r: Option<String>)
    ensures
        opt_text(r) == lock_reason(locked, opt_text(reason)),
{
    if locked {
        match reason {
            Some(reason) => Some(reason),
            None => Some(String::new()),
        }
    } else {
        None
    }
}

/// Executable form of [`count`].
pub fn count_of(n: Option<u64>) -> (r: i64)
    ensures
        r == count(n),
{
    match n {
        Some(n) => #[verifier::truncate] (n as i64),
        None => 0,
    }
}

impl DatabaseView {
    /// The store after the row `shared` was observed with the labels
    /// `labels` and the assignees `assignees`: labels and users are brought
    /// into the store, the label links and then the assignments of the row
    /// are reconciled with them, and the links that were not confirmed are
    /// deleted.
    pub open spec fn update_links(
        self,
        status: ProcessStatus,
        shared: usize,
        labels: Seq<Label>,
        assignees: Seq<Author>,
    ) -> Processed {
        let labels = self.ensure_labels_exist(status, labels);
        let label_links = labels.db.update_label_assignments(
            labels.status,
            shared,
            labels.rows,
        );
        let assignees = label_links.db.ensure_users_exist(label_links.status, assignees);
        let assignments = assignees.db.update_assignments(
            assignees.status,
            shared,
            assignees.rows,
        );
        Processed {
            db: assignments.db.delete_assignments(assignments.outdated).delete_label_links(
                label_links.outdated,
            ),
            status: assignments.status,
        }
    }

    /// The store after a comment on the issue or pull request `issue_number`
    /// was observed. A comment on an item that the store does not hold is
    /// passed over.
    pub open spec fn process_comment(self, comment: crate::models::Comment, issue_number: u64)
        -> Processed {
        match first_index(self.shared, shared_with_number(issue_number as i64)) {
            None => Processed { db: self, status: ProcessStatus::Unchanged },
            Some(issue_or_pr) => {
                let author = self.ensure_user_exists(ProcessStatus::Unchanged, comment.user);
                let own = author.db.ensure_comment_exists(
                    author.status,
                    comment.id as i64,
                    author.row,
                    issue_or_pr as usize,
                    opt_text(comment.body),
                    comment.created_at,
                    observed_or(comment.updated_at, comment.created_at),
                );
                Processed { db: own.db, status: own.status }
            },
        }
    }

    /// The store after the rows of the pull request `pr` of `repo` by
    /// `author` were observed at the time `now`: the rows of its author and
    /// of the user who merged it, of its repository, its shared row and its
    /// pull request row.
    pub open spec fn pr_rows(
        self,
        repo: RepoView,
        author: Author,
        pr: crate::models::PullRequest,
        now: i64,
    ) -> Rows {
        let user = self.ensure_user_exists(ProcessStatus::Unchanged, author);
        let repo_row = user.db.find_or_insert_repo(repo);
        let merged_by = repo_row.db.ensure_optional_user(user.status, pr.merged_by);
        let shared = merged_by.db.ensure_shared_exists(
            merged_by.status,
            user.row,
            repo_row.row,
            pr.number,
            opt_text(pr.title),
            opt_text(pr.body),
            lock_reason(pr.locked, opt_text(pr.active_lock_reason)),
            observed_or(pr.created_at, now),
            observed_or(observed_or_kept(pr.updated_at, pr.created_at), now),
            closed_at(pr.state == Some(IssueState::Closed), pr.closed_at, now),
            None,
            merged_by.row,
            association_text(pr.author_association),
        );
        let own = shared.db.ensure_pr_exists(
            shared.status,
            shared.row,
            observed_or(pr.draft, false),
            pr.maintainer_can_modify,
            count(pr.additions),
            count(pr.deletions),
            count(pr.changed_files),
            count(pr.commits),
            pr.merged_at,
            opt_text(pr.merge_commit_sha),
            merged_by.row,
            pr.head_sha@,
            pr.base_sha@,
            observed_or(pr.mergeable, false),
            observed_or(pr.rebaseable, false),
            observed_or(pr.mergeable_state, MergeableState::Unknown).spec_code(),
        );
        Rows { db: own.db, status: own.status, shared: shared.row, own: own.row }
    }

    /// The store after the pull request `pr` was observed to await a review
    /// by the users `requested`: the users are brought into the store, the
    /// review requests of the pull request are reconciled with them, and
    /// those that were not confirmed are deleted.
    pub open spec fn update_reviews(self, status: ProcessStatus, pr: usize, requested: Seq<Author>)
        -> Processed {
        let users = self.ensure_users_exist(status, requested);
        let reviews = users.db.update_review_requests(users.status, pr, users.rows);
        Processed { db: reviews.db.delete_review_requests(reviews.outdated), status: reviews.status }
    }

    /// The store after the pull request `pr` of `repo` was observed at the
    /// time `now`. A pull request without author is passed over.
    pub open spec fn process_pr(self, repo: RepoView, pr: crate::models::PullRequest, now: i64)
        -> Processed {
        match pr.user {
            None => Processed { db: self, status: ProcessStatus::Unchanged },
            Some(author) => {
                let rows = self.pr_rows(repo, author, pr, now);
                let links = rows.db.update_links(
                    rows.status,
                    rows.shared,
                    listed(pr.labels),
                    observed_assignees(pr.assignees, pr.assignee),
                );
                links.db.update_reviews(links.status, rows.own, listed(pr.requested_reviewers))
            },
        }
    }

    /// The store after the rows of the issue `issue` of `repo` were observed
    /// at the time `now`: the rows of its author and of the user who closed
    /// it, of its repository, its shared row and its issue row.
    pub open spec fn issue_rows(self, repo: RepoView, issue: crate::models::Issue, now: i64)
        -> Rows {
        let user = self.ensure_user_exists(ProcessStatus::Unchanged, issue.user);
        let repo_row = user.db.find_or_insert_repo(repo);
        let closed_by = repo_row.db.ensure_optional_user(user.status, issue.closed_by);
        let shared = closed_by.db.ensure_shared_exists(
            closed_by.status,
            user.row,
            repo_row.row,
            issue.number,
            Some(issue.title@),
            opt_text(issue.body),
            lock_reason(issue.locked, opt_text(issue.active_lock_reason)),
            issue.created_at,
            issue.updated_at,
            closed_at(issue.state == IssueState::Closed, issue.closed_at, now),
            state_reason_code(issue.state_reason),
            closed_by.row,
            association_text(issue.author_association),
        );
        let own = shared.db.ensure_issue_exists(shared.status, shared.row);
        Rows { db: own.db, status: own.status, shared: shared.row, own: own.row }
    }

    /// The store after the issue `issue` of `repo` was observed at the time
    /// `now`.
    pub open spec fn process_issue(self, repo: RepoView, issue: crate::models::Issue, now: i64)
        -> Processed {
        let rows = self.issue_rows(repo, issue, now);
        rows.db.update_links(rows.status, rows.shared, issue.labels@, issue.assignees@)
    }
}

impl Database {
    /// Brings a comment on the issue or pull request `issue_number` into the
    /// store and classifies it.
    pub fn process_comment(&mut self, comment: crate::models::Comment, issue_number: u64) -> (status:
        ProcessStatus)
        ensures
            final(self)@ == old(self)@.process_comment(comment, issue_number).db,
            status == old(self)@.process_comment(comment, issue_number).status,
            old(self)@.wf() ==> final(self)@.wf(),
    {
        proof {
            if self@.wf() {
                crate::database::wellformed::lemma_process_comment_wf(
                    self@,
                    comment,
                    issue_number,
                );
            }
        }
        let mut status = ProcessStatus::Unchanged;
        let number = #[verifier::truncate] (issue_number as i64);
        let issue_or_pr = match self.find_shared(number) {
            Some(row) => row,
            None => {
                return status;
            },
        };
        let crate::models::Comment { id, body, user, created_at, updated_at } = comment;
        let author = self.ensure_user_exists(&mut status, user);
        let updated = match updated_at {
            Some(t) => t,
            None => created_at,
        };
        self.ensure_comment_exists(
            &mut status,
            #[verifier::truncate] (id as i64),
            author,
            issue_or_pr,
            body,
            created_at,
            updated,
        );
        status
    }
}

/// The observed value, or `default` where none was observed.
pub fn value_or<T: Copy>(observed: Option<T>, default: T) -> (r: T)
    ensures
        r == observed_or(observed, default),
{
    match observed {
        Some(v) => v,
        None => default,
    }
}

/// Whether the observed state is `Closed`.
pub fn is_closed(state: Option<IssueState>) -> (r: bool)
    ensures
        r == (state == Some(IssueState::Closed)),
{
    match state {
        Some(IssueState::Closed) => true,
        _ => false,
    }
}

/// The members of an optional list.
pub fn listed_or_empty<T>(list: Option<Vec<T>>) -> (r: Vec<T>)
    ensures
        r@ == listed(list),
{
    match list {
        Some(list) => list,
        None => Vec::new(),
    }
}

/// The assignees to reconcile with: the list where there is one, else the
/// single assignee where there is one.
pub fn assignees_of(list: Option<Vec<Author>>, single: Option<Author>) -> (r: Vec<Author>)
    ensures
        r@ == observed_assignees(list, single),
{
    match list {
        Some(list) => list,
        None => {
            let mut r: Vec<Author> = Vec::new();
            if let Some(a) = single {
                r.push(a);
                assert(r@ =~= seq![a]);
            }
            r
        },
    }
}

impl Database {
    /// Brings the observed labels and assignees of the row `shared` into the
    /// store, reconciles the row's label links and assignments with them, and
    /// deletes the links that were not confirmed.
    pub fn update_links(
        &mut self,
        status: &mut ProcessStatus,
        shared: usize,
        labels: &Vec<Label>,
        assignees: &Vec<Author>,
    )
        ensures
            final(self)@ == old(self)@.update_links(*old(status), shared, labels@, assignees@).db,
            *final(status) == old(self)@.update_links(
                *old(status),
                shared,
                labels@,
                assignees@,
            ).status,
    {
        let labels = self.ensure_labels_exist(status, labels);
        let outdated_labels = self.update_label_assignments(status, shared, labels);
        let assigned_users = self.ensure_users_exist(status, assignees);
        let outdated_assignments = self.update_assignments(status, shared, assigned_users);
        self.delete_assignments(&outdated_assignments);
        self.delete_label_links(&outdated_labels);
    }

    /// Reconciles the review requests of the pull request `pr` with the
    /// users `requested`, and deletes those that were not confirmed.
    pub fn update_reviews(&mut self, status: &mut ProcessStatus, pr: usize, requested: &Vec<Author>)
        ensures
            final(self)@ == old(self)@.update_reviews(*old(status), pr, requested@).db,
            *final(status) == old(self)@.update_reviews(*old(status), pr, requested@).status,
    {
        let users = self.ensure_users_exist(status, requested);
        let outdated = self.update_review_requests(status, pr, users);
        self.delete_review_requests(&outdated);
    }

    /// Brings the rows of a pull request of `repo` by `author` into the
    /// store: what the pull request is observed with, but for its labels,
    /// its assignees and the users asked for a review. Gives the rows of
    /// the shared table and of the pull request table.
    fn ensure_pr_rows(
        &mut self,
        status: &mut ProcessStatus,
        repo: crate::repo::Repo,
        author: Author,
        pr: PullRequestRows,
        now: i64,
    ) -> (rows: (usize, usize))
        requires
            *old(status) == ProcessStatus::Unchanged,
        ensures
            forall|whole: crate::models::PullRequest|
                pr.part_of(whole) ==> {
                    let r = #[trigger] old(self)@.pr_rows(repo@, author, whole, now);
                    &&& final(self)@ == r.db
                    &&& *final(status) == r.status
                    &&& rows == (r.shared, r.own)
                },
    {
        let PullRequestRows {
            number,
            state,
            locked,
            maintainer_can_modify,
            title,
            body,
            active_lock_reason,
            created_at,
            updated_at,
            closed_at,
            mergeable,
            mergeable_state,
            merged_at,
            merged_by,
            merge_commit_sha,
            rebaseable,
            head_sha,
            base_sha,
            author_association,
            draft,
            additions,
            deletions,
            changed_files,
            commits,
        } = pr;
        let user = self.ensure_user_exists(status, author);
        let repo = self.find_or_insert_repo(repo);
        let closed_at = closed_at_timestamp(is_closed(state), closed_at, now);
        let closed_by = self.ensure_optional_user(status, merged_by);
        let created = value_or(created_at, now);
        let updated = value_or(updated_at, created);
        let shared = self.ensure_shared_exists(
            status,
            user,
            repo,
            number,
            title,
            body,
            lock_reason_of(locked, active_lock_reason),
            created,
            updated,
            closed_at,
            None,
            closed_by,
            author_association,
        );
        let own = self.ensure_pr_exists(
            status,
            shared,
            value_or(draft, false),
            maintainer_can_modify,
            count_of(additions),
            count_of(deletions),
            count_of(changed_files),
            count_of(commits),
            merged_at,
            merge_commit_sha,
            closed_by,
            head_sha,
            base_sha,
            value_or(mergeable, false),
            value_or(rebaseable, false),
            value_or(mergeable_state, MergeableState::Unknown),
        );
        (shared, own)
    }

    /// Brings the pull request `pr` of `repo`, observed at the time `now`,
    /// into the store and classifies it.
    pub fn process_pr(&mut self, repo: crate::repo::Repo, pr: crate::models::PullRequest, now: i64) -> (status:
        ProcessStatus)
        ensures
            final(self)@ == old(self)@.process_pr(repo@, pr, now).db,
            status == old(self)@.process_pr(repo@, pr, now).status,
            old(self)@.wf() ==> final(self)@.wf(),
    {
        proof {
            if self@.wf() {
                crate::database::wellformed::lemma_process_pr_wf(self@, repo@, pr, now);
            }
        }
        let mut status = ProcessStatus::Unchanged;
        let crate::models::PullRequest {
            number,
            state,
            locked,
            maintainer_can_modify,
            title,
            user,
            body,
            labels,
            active_lock_reason,
            created_at,
            updated_at,
            closed_at,
            mergeable,
            mergeable_state,
            merged_at,
            merged_by,
            merge_commit_sha,
            assignee,
            assignees,
            requested_reviewers,
            rebaseable,
            head_sha,
            base_sha,
            author_association,
            draft,
            additions,
            deletions,
            changed_files,
            commits,
        } = pr;
        let author = match user {
            Some(author) => author,
            None => {
                return status;
            },
        };
        let rows = PullRequestRows {
            number,
            state,
            locked,
            maintainer_can_modify,
            title,
            body,
            active_lock_reason,
            created_at,
            updated_at,
            closed_at,
            mergeable,
            mergeable_state,
            merged_at,
            merged_by,
            merge_commit_sha,
            rebaseable,
            head_sha,
            base_sha,
            author_association,
            draft,
            additions,
            deletions,
            changed_files,
            commits,
        };
        assert(rows.part_of(pr));
        let (shared, own) = self.ensure_pr_rows(&mut status, repo, author, rows, now);
        let labels = listed_or_empty(labels);
        let assignees = assignees_of(assignees, assignee);
        self.update_links(&mut status, shared, &labels, &assignees);
        let requested = listed_or_empty(requested_reviewers);
        self.update_reviews(&mut status, own, &requested);
        status
    }

    /// Brings the rows of the issue `issue` of `repo` into the store: what
    /// the issue is observed with, but for its labels and assignees, which
    /// are given back with the row of the shared table.
    fn ensure_issue_rows(
        &mut self,
        status: &mut ProcessStatus,
        repo: crate::repo::Repo,
        issue: crate::models::Issue,
        now: i64,
    ) -> (rows: (usize, Vec<Label>, Vec<Author>))
        requires
            *old(status) == ProcessStatus::Unchanged,
        ensures
            final(self)@ == old(self)@.issue_rows(repo@, issue, now).db,
            *final(status) == old(self)@.issue_rows(repo@, issue, now).status,
            rows.0 == old(self)@.issue_rows(repo@, issue, now).shared,
            rows.1 == issue.labels,
            rows.2 == issue.assignees,
    {
        let crate::models::Issue {
            number,
            state,
            state_reason,
            title,
            body,
            user,
            labels,
            assignees,
            author_association,
            locked,
            active_lock_reason,
            closed_at,
            closed_by,
            created_at,
            updated_at,
        } = issue;
        let user = self.ensure_user_exists(status, user);
        let repo = self.find_or_insert_repo(repo);
        let closed = match state {
            IssueState::Closed => true,
            IssueState::Open => false,
        };
        let closed_at = closed_at_timestamp(closed, closed_at, now);
        let closed_by = self.ensure_optional_user(status, closed_by);
        let shared = self.ensure_shared_exists(
            status,
            user,
            repo,
            number,
            Some(title),
            body,
            lock_reason_of(locked, active_lock_reason),
            created_at,
            updated_at,
            closed_at,
            state_reason,
            closed_by,
            author_association,
        );
        self.ensure_issue_exists(status, shared);
        (shared, labels, assignees)
    }

    /// Brings the issue `issue` of `repo`, observed at the time `now`, into
    /// the store and classifies it.
    pub fn process_issue(&mut self, repo: crate::repo::Repo, issue: crate::models::Issue, now: i64) -> (status:
        ProcessStatus)
        ensures
            final(self)@ == old(self)@.process_issue(repo@, issue, now).db,
            status == old(self)@.process_issue(repo@, issue, now).status,
            old(self)@.wf() ==> final(self)@.wf(),
    {
        proof {
            if self@.wf() {
                crate::database::wellformed::lemma_process_issue_wf(self@, repo@, issue, now);
            }
        }
        let mut status = ProcessStatus::Unchanged;
        let (shared, labels, assignees) = self.ensure_issue_rows(&mut status, repo, issue, now);
        self.update_links(&mut status, shared, &labels, &assignees);
        status
    }
}

/// The attributes of a pull request that fill its own rows: all but its
/// author, its labels, its assignees and the users asked for a review.
struct PullRequestRows {
    number: u64,
    state: Option<IssueState>,
    locked: bool,
    maintainer_can_modify: bool,
    title: Option<String>,
    body: Option<String>,
    active_lock_reason: Option<String>,
    created_at: Option<i64>,
    updated_at: Option<i64>,
    closed_at: Option<i64>,
    mergeable: Option<bool>,
    mergeable_state: Option<MergeableState>,
    merged_at: Option<i64>,
    merged_by: Option<Author>,
    merge_commit_sha: Option<String>,
    rebaseable: Option<bool>,
    head_sha: String,
    base_sha: String,
    author_association: Option<crate::models::AuthorAssociation>,
    draft: Option<bool>,
    additions: Option<u64>,
    deletions: Option<u64>,
    changed_files: Option<u64>,
    commits: Option<u64>,
}

impl PullRequestRows {
    /// Whether these are the attributes of the pull request `whole`.
    spec fn part_of(self, whole: crate::models::PullRequest) -> bool {
        &&& self.number == whole.number
        &&& self.state == whole.state
        &&& self.locked == whole.locked
        &&& self.maintainer_can_modify == whole.maintainer_can_modify
        &&& self.title == whole.title
        &&& self.body == whole.body
        &&& self.active_lock_reason == whole.active_lock_reason
        &&& self.created_at == whole.created_at
        &&& self.updated_at == whole.updated_at
        &&& self.closed_at == whole.closed_at
        &&& self.mergeable == whole.mergeable
        &&& self.mergeable_state == whole.mergeable_state
        &&& self.merged_at == whole.merged_at
        &&& self.merged_by == whole.merged_by
        &&& self.merge_commit_sha == whole.merge_commit_sha
        &&& self.rebaseable == whole.rebaseable
        &&& self.head_sha == whole.head_sha
        &&& self.base_sha == whole.base_sha
        &&& self.author_association == whole.author_association
        &&& self.draft == whole.draft
        &&& self.additions == whole.additions
        &&& self.deletions == whole.deletions
        &&& self.changed_files == whole.changed_files
        &&& self.commits == whole.commits
    }
}

/// What bringing an observation into the mirror leaves behind.
pub struct Observed {
    /// The mirror afterwards.
    pub state: GithubDbView,
    /// The classification of the observation.
    pub status: ProcessStatus,
}

impl GithubDbView {
    /// The mirror after a comment on the issue or pull request
    /// `issue_number` was observed.
    pub open spec fn process_comment(self, comment: crate::models::Comment, issue_number: u64)
        -> Observed {
        let p = self.db.process_comment(comment, issue_number);
        Observed { state: GithubDbView { db: p.db, ..self }, status: p.status }
    }

    /// The mirror after the pull request `pr` of `repo` was observed at the
    /// time `now`.
    pub open spec fn process_pr(self, repo: RepoView, pr: crate::models::PullRequest, now: i64)
        -> Observed {
        let p = self.db.process_pr(repo, pr, now);
        Observed { state: GithubDbView { db: p.db, ..self }, status: p.status }
    }

    /// The mirror after the issue `issue` of `repo` was observed at the time
    /// `now`: the issue is brought into the store, and unless it is
    /// unchanged a request for its comments is queued.
    pub open spec fn process_issue(self, repo: RepoView, issue: crate::models::Issue, now: i64)
        -> Observed {
        let p = self.db.process_issue(repo, issue, now);
        Observed {
            state: GithubDbView { db: p.db, ..self }.add_comments_updated_req(
                p.status,
                repo,
                Some(issue.updated_at),
                issue.number,
            ),
            status: p.status,
        }
    }
}

impl GithubDb {
    /// Brings a comment on the issue or pull request `issue_number` into the
    /// store and classifies it.
    pub fn process_comment(
        &mut self,
        _repo: crate::repo::Repo,
        comment: crate::models::Comment,
        issue_number: u64,
    ) -> (status: ProcessStatus)
        ensures
            final(self)@ == old(self)@.process_comment(comment, issue_number).state,
            status == old(self)@.process_comment(comment, issue_number).status,
            old(self)@.wf() ==> final(self)@.wf(),
    {
        self.db.process_comment(comment, issue_number)
    }

    /// Brings the pull request `pr` of `repo`, observed at the time `now`,
    /// into the store and classifies it.
    pub fn process_pr_at(
        &mut self,
        repo: crate::repo::Repo,
        pr: crate::models::PullRequest,
        now: i64,
    ) -> (status: ProcessStatus)
        ensures
            final(self)@ == old(self)@.process_pr(repo@, pr, now).state,
            status == old(self)@.process_pr(repo@, pr, now).status,
            old(self)@.wf() ==> final(self)@.wf(),
    {
        self.db.process_pr(repo, pr, now)
    }

    /// Brings the pull request `pr` of `repo` into the store and classifies
    /// it. The time of the observation is read from the clock.
    pub fn process_pr(&mut self, repo: crate::repo::Repo, pr: crate::models::PullRequest) -> (status:
        ProcessStatus)
        ensures
            exists|now: i64|
                {
                    &&& final(self)@ == (#[trigger] old(self)@.process_pr(repo@, pr, now)).state
                    &&& status == old(self)@.process_pr(repo@, pr, now).status
                },
            old(self)@.wf() ==> final(self)@.wf(),
    {
        let now = crate::clock::utc_now();
        self.process_pr_at(repo, pr, now)
    }

    /// Brings the issue `issue` of `repo`, observed at the time `now`, into
    /// the store, classifies it, and queues a request for its comments
    /// unless it is unchanged.
    pub fn process_issue_at(
        &mut self,
        repo: crate::repo::Repo,
        issue: crate::models::Issue,
        now: i64,
    ) -> (status: ProcessStatus)
        ensures
            final(self)@ == old(self)@.process_issue(repo@, issue, now).state,
            status == old(self)@.process_issue(repo@, issue, now).status,
            old(self)@.wf() ==> final(self)@.wf(),
    {
        proof {
            if self@.wf() {
                crate::wellformed::lemma_process_issue_mirror_wf(self@, repo@, issue, now);
            }
        }
        let updated_at = issue.updated_at;
        let number = issue.number;
        let status = self.db.process_issue(repo.clone(), issue, now);
        self.add_comments_updated_req(status, repo, Some(updated_at), number);
        status
    }

    /// Brings the issue `issue` of `repo` into the store, classifies it, and
    /// queues a request for its comments unless it is unchanged. The time of
    /// the observation is read from the clock.
    pub fn process_issue(&mut self, repo: crate::repo::Repo, issue: crate::models::Issue) -> (status:
        ProcessStatus)
        ensures
            exists|now: i64|
                {
                    &&& final(self)@ == (#[trigger] old(self)@.process_issue(
                        repo@,
                        issue,
                        now,
                    )).state
                    &&& status == old(self)@.process_issue(repo@, issue, now).status
                },
            old(self)@.wf() ==> final(self)@.wf(),
    {
        let now = crate::clock::utc_now();
        self.process_issue_at(repo, issue, now)
    }
}

} // verus!
