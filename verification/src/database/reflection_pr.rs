//! A store that reflects a pull request is left alone by it, and goes on
//! reflecting it while other pull requests are observed.

use vstd::prelude::*;
use crate::database::idempotence::{
    all_alike, all_labels_alike, holds_labels, holds_user, holds_users, lemma_labels_kept,
    lemma_optional_user_settled, lemma_pr_observed, lemma_pr_settled, lemma_reconciled_settled,
    lemma_repo_kept, lemma_settled_kept, lemma_settled_reconcile, lemma_shared_settled,
    lemma_user_settled, lemma_users_kept, lemma_users_settled, lemma_without_nothing,
    links_settled, optional, pr_authors, pr_timed, row_of_user, rows_of_labels, rows_of_users,
};
use crate::database::process::{
    closed_at, count, listed, lock_reason, observed_assignees, Processed, Rows,
};
use crate::database::reconciliation::{lemma_labels_frame, lemma_users_frame, reconciled};
use crate::database::reflection::{
    authors_alike, labels_all_alike, lemma_labels_grow, lemma_labels_local, lemma_links_reflected,
    lemma_shared_step_kept, lemma_user_local, lemma_users_concat, lemma_users_grow,
    lemma_users_local, row_of_optional_user,
};
use crate::database::schema::{DatabaseView, UserView};
use crate::database::updates::{
    association_text, observed_or, observed_or_kept, pr_of, repo_is, shared_with_number, Ensured,
};
use crate::models::{Author, IssueState, MergeableState};
use crate::repo::RepoView;
use crate::requests::opt_text;
use crate::status::ProcessStatus;
use crate::table::{first_index, lemma_first_index, lemma_first_index_is};

verus! {

impl DatabaseView {
    /// What writing the pull request `pr` by `author` to the shared table
    /// leaves behind, where the store holds the pull request and its users.
    pub open spec fn shared_step_pr(self, author: Author, pr: crate::models::PullRequest, now: i64)
        -> Ensured {
        self.ensure_shared_exists(
            ProcessStatus::Unchanged,
            row_of_user(self.users, author),
            0,
            pr.number,
            opt_text(pr.title),
            opt_text(pr.body),
            lock_reason(pr.locked, opt_text(pr.active_lock_reason)),
            observed_or(pr.created_at, now),
            observed_or(observed_or_kept(pr.updated_at, pr.created_at), now),
            closed_at(pr.state == Some(IssueState::Closed), pr.closed_at, now),
            None,
            row_of_optional_user(self, pr.merged_by),
            association_text(pr.author_association),
        )
    }

    /// What writing the own attributes of the pull request `pr` to the pull
    /// request table leaves behind, where the store holds the pull request
    /// in the row `shared` of the shared table.
    pub open spec fn own_step(self, pr: crate::models::PullRequest, shared: usize) -> Ensured {
        self.ensure_pr_exists(
            ProcessStatus::Unchanged,
            shared,
            observed_or(pr.draft, false),
            pr.maintainer_can_modify,
            count(pr.additions),
            count(pr.deletions),
            count(pr.changed_files),
            count(pr.commits),
            pr.merged_at,
            opt_text(pr.merge_commit_sha),
            row_of_optional_user(self, pr.merged_by),
            pr.head_sha@,
            pr.base_sha@,
            observed_or(pr.mergeable, false),
            observed_or(pr.rebaseable, false),
            observed_or(pr.mergeable_state, MergeableState::Unknown).spec_code(),
        )
    }

    /// The row of the shared table with the number of the pull request `pr`.
    pub open spec fn row_of_pr(self, pr: crate::models::PullRequest) -> usize {
        first_index(self.shared, shared_with_number(pr.number as i64))->0 as usize
    }

    /// The row of the pull request table that extends the row of the pull
    /// request `pr`.
    pub open spec fn own_row_of_pr(self, pr: crate::models::PullRequest) -> usize {
        first_index(self.pull_requests, pr_of(self.row_of_pr(pr)))->0 as usize
    }

    /// Whether the store reflects the pull request `pr` of `repo` as it was
    /// observed at the time `now`. A pull request without author is passed
    /// over, and so reflected by every store.
    pub open spec fn reflects_pr(self, repo: RepoView, pr: crate::models::PullRequest, now: i64)
        -> bool {
        pr.user matches Some(author) ==> {
            &&& holds_users(self.users, pr_authors(pr))
            &&& holds_labels(self.labels, listed(pr.labels))
            &&& first_index(self.repos, repo_is(repo)) is Some
            &&& first_index(self.shared, shared_with_number(pr.number as i64)) is Some
            &&& self.shared_step_pr(author, pr, now).db.shared == self.shared
            &&& self.shared_step_pr(author, pr, now).status == ProcessStatus::Unchanged
            &&& first_index(self.pull_requests, pr_of(self.row_of_pr(pr))) is Some
            &&& self.own_step(pr, self.row_of_pr(pr)).db.pull_requests == self.pull_requests
            &&& links_settled(
                self.label_links,
                self.row_of_pr(pr),
                rows_of_labels(self.labels, listed(pr.labels)),
            )
            &&& links_settled(
                self.assignments,
                self.row_of_pr(pr),
                rows_of_users(self.users, observed_assignees(pr.assignees, pr.assignee)),
            )
            &&& links_settled(
                self.review_requests,
                self.own_row_of_pr(pr),
                rows_of_users(self.users, listed(pr.requested_reviewers)),
            )
        }
    }
}

/// The most rows that observing the pull request `pr` adds to any one
/// table.
pub open spec fn pr_weight(pr: crate::models::PullRequest) -> nat {
    listed(pr.labels).len() + observed_assignees(pr.assignees, pr.assignee).len() + listed(
        pr.requested_reviewers,
    ).len() + 2
}

/// The store holds two lists of users exactly if it holds them as one list.
pub proof fn lemma_holds_both(users: Seq<UserView>, first: Seq<Author>, second: Seq<Author>)
    ensures
        holds_users(users, first + second) <==> holds_users(users, first) && holds_users(
            users,
            second,
        ),
{
    let both = first + second;
    if holds_users(users, both) {
        assert forall|i: int| 0 <= i < first.len() implies holds_user(
            users,
            #[trigger] first[i],
        ) by {
            assert(both[i] == first[i]);
        }
        assert forall|i: int| 0 <= i < second.len() implies holds_user(
            users,
            #[trigger] second[i],
        ) by {
            assert(both[first.len() + i] == second[i]);
        }
    }
    if holds_users(users, first) && holds_users(users, second) {
        assert forall|i: int| 0 <= i < both.len() implies holds_user(users, #[trigger] both[i]) by {
            if i >= first.len() {
                assert(both[i] == second[i - first.len()]);
            }
        }
    }
}

/// Two user tables that hold a list of users in the same rows hold each
/// part of the list in the same rows.
pub proof fn lemma_rows_of_both(
    before: Seq<UserView>,
    after: Seq<UserView>,
    first: Seq<Author>,
    second: Seq<Author>,
)
    requires
        rows_of_users(after, first + second) == rows_of_users(before, first + second),
    ensures
        rows_of_users(after, first) == rows_of_users(before, first),
        rows_of_users(after, second) == rows_of_users(before, second),
{
    let both = first + second;
    let rows_after = rows_of_users(after, both);
    let rows_before = rows_of_users(before, both);
    assert forall|i: int| 0 <= i < first.len() implies #[trigger] rows_of_users(after, first)[i]
        == rows_of_users(before, first)[i] by {
        assert(both[i] == first[i]);
        assert(rows_after[i] == rows_before[i]);
    }
    assert forall|i: int| 0 <= i < second.len() implies #[trigger] rows_of_users(
        after,
        second,
    )[i] == rows_of_users(before, second)[i] by {
        assert(both[first.len() + i] == second[i]);
        assert(rows_after[first.len() + i] == rows_before[first.len() + i]);
    }
    assert(rows_of_users(after, first) =~= rows_of_users(before, first));
    assert(rows_of_users(after, second) =~= rows_of_users(before, second));
}

/// A store holds the users of a pull request exactly if it holds its
/// author, the user who merged it, its assignees and the users who are
/// asked to review it.
pub proof fn lemma_pr_users(users: Seq<UserView>, author: Author, pr: crate::models::PullRequest)
    requires
        pr.user == Some(author),
    ensures
        holds_users(users, pr_authors(pr)) <==> {
            &&& holds_user(users, author)
            &&& pr.merged_by matches Some(by) ==> holds_user(users, by)
            &&& holds_users(users, observed_assignees(pr.assignees, pr.assignee))
            &&& holds_users(users, listed(pr.requested_reviewers))
        },
{
    let head = optional(pr.user) + optional(pr.merged_by);
    let assignees = observed_assignees(pr.assignees, pr.assignee);
    let requested = listed(pr.requested_reviewers);
    lemma_holds_both(users, head + assignees, requested);
    lemma_holds_both(users, head, assignees);
    lemma_holds_both(users, optional(pr.user), optional(pr.merged_by));
    assert(optional(pr.user)[0] == author);
    if let Some(by) = pr.merged_by {
        assert(optional(pr.merged_by)[0] == by);
    }
}

/// Two user tables that hold the users of a pull request in the same rows
/// hold its author, the user who merged it, its assignees and the users who
/// are asked to review it in the same rows.
pub proof fn lemma_pr_user_rows(
    before: Seq<UserView>,
    after: Seq<UserView>,
    author: Author,
    pr: crate::models::PullRequest,
)
    requires
        pr.user == Some(author),
        rows_of_users(after, pr_authors(pr)) == rows_of_users(before, pr_authors(pr)),
    ensures
        row_of_user(after, author) == row_of_user(before, author),
        pr.merged_by matches Some(by) ==> row_of_user(after, by) == row_of_user(before, by),
        rows_of_users(after, observed_assignees(pr.assignees, pr.assignee)) == rows_of_users(
            before,
            observed_assignees(pr.assignees, pr.assignee),
        ),
        rows_of_users(after, listed(pr.requested_reviewers)) == rows_of_users(
            before,
            listed(pr.requested_reviewers),
        ),
{
    let head = optional(pr.user) + optional(pr.merged_by);
    let assignees = observed_assignees(pr.assignees, pr.assignee);
    let requested = listed(pr.requested_reviewers);
    lemma_rows_of_both(before, after, head + assignees, requested);
    lemma_rows_of_both(before, after, head, assignees);
    lemma_rows_of_both(before, after, optional(pr.user), optional(pr.merged_by));
    assert(optional(pr.user)[0] == author);
    assert(rows_of_users(after, optional(pr.user))[0] == rows_of_users(
        before,
        optional(pr.user),
    )[0]);
    if let Some(by) = pr.merged_by {
        assert(optional(pr.merged_by)[0] == by);
        assert(rows_of_users(after, optional(pr.merged_by))[0] == rows_of_users(
            before,
            optional(pr.merged_by),
        )[0]);
    }
}

/// A store that holds the users who are asked to review a pull request and
/// links the pull request to exactly these is left as it is when they are
/// brought in.
pub proof fn lemma_reviews_reflected(
    db: DatabaseView,
    status: ProcessStatus,
    pr: usize,
    requested: Seq<Author>,
)
    requires
        holds_users(db.users, requested),
        links_settled(db.review_requests, pr, rows_of_users(db.users, requested)),
        db.has_room(0),
    ensures
        db.update_reviews(status, pr, requested) == (Processed { db, status }),
{
    lemma_users_settled(db, status, requested);
    lemma_settled_reconcile(db.review_requests, pr, rows_of_users(db.users, requested));
    lemma_without_nothing(db.review_requests);
    let users = db.ensure_users_exist(status, requested);
    let reviews = users.db.update_review_requests(users.status, pr, users.rows);
    assert(reviews.db == db);
}

/// A pull request that the store reflects is classified as unchanged and
/// leaves the store as it is, at whatever time it is observed again,
/// provided that what is stored of it does not depend on that time.
pub proof fn lemma_reflected_pr(
    db: DatabaseView,
    repo: RepoView,
    pr: crate::models::PullRequest,
    now: i64,
    later: i64,
)
    requires
        db.reflects_pr(repo, pr, now),
        pr_timed(pr),
        db.has_room(0),
    ensures
        db.process_pr(repo, pr, later) == (Processed { db, status: ProcessStatus::Unchanged }),
{
    if let Some(author) = pr.user {
        let unchanged = ProcessStatus::Unchanged;
        lemma_pr_users(db.users, author, pr);
        lemma_user_settled(db, unchanged, author);
        lemma_first_index(db.repos, repo_is(repo));
        lemma_optional_user_settled(db, unchanged, pr.merged_by);
        let found = shared_with_number(pr.number as i64);
        lemma_first_index(db.shared, found);
        let at = first_index(db.shared, found)->0;
        let repo_row = db.find_or_insert_repo(repo).row;
        let written = db.ensure_shared_exists(
            unchanged,
            row_of_user(db.users, author),
            repo_row,
            pr.number,
            opt_text(pr.title),
            opt_text(pr.body),
            lock_reason(pr.locked, opt_text(pr.active_lock_reason)),
            observed_or(pr.created_at, later),
            observed_or(observed_or_kept(pr.updated_at, pr.created_at), later),
            closed_at(pr.state == Some(IssueState::Closed), pr.closed_at, later),
            None,
            row_of_optional_user(db, pr.merged_by),
            association_text(pr.author_association),
        );
        assert(written == db.shared_step_pr(author, pr, now));
        assert(written.db == db);
        lemma_first_index(db.pull_requests, pr_of(at as usize));
        let own = first_index(db.pull_requests, pr_of(at as usize))->0;
        let own_written = db.own_step(pr, at as usize);
        assert(own_written.db == db);
        let rows = db.pr_rows(repo, author, pr, later);
        assert(rows == Rows { db, status: unchanged, shared: at as usize, own: own as usize });
        lemma_links_reflected(
            db,
            unchanged,
            at as usize,
            listed(pr.labels),
            observed_assignees(pr.assignees, pr.assignee),
        );
        lemma_reviews_reflected(db, unchanged, own as usize, listed(pr.requested_reviewers));
    }
}

/// After a pull request was brought in, the store holds its repository and
/// holds it in the shared table, with nothing left to write.
proof fn lemma_pr_reflected_shared(
    db: DatabaseView,
    repo: RepoView,
    author: Author,
    pr: crate::models::PullRequest,
    now: i64,
)
    requires
        pr.user == Some(author),
        all_alike(pr_authors(pr)),
        all_labels_alike(listed(pr.labels)),
        db.has_room(pr_weight(pr)),
    ensures
        ({
            let first = db.process_pr(repo, pr, now).db;
            &&& first_index(first.repos, repo_is(repo)) is Some
            &&& first_index(first.shared, shared_with_number(pr.number as i64)) is Some
            &&& first.row_of_pr(pr) == db.pr_rows(repo, author, pr, now).shared
            &&& first.shared_step_pr(author, pr, now).db.shared == first.shared
            &&& first.shared_step_pr(author, pr, now).status == ProcessStatus::Unchanged
        }),
{
    let unchanged = ProcessStatus::Unchanged;
    lemma_pr_observed(db, repo, author, pr, now);
    let first = db.process_pr(repo, pr, now).db;
    let u = db.ensure_user_exists(unchanged, author);
    let r = u.db.find_or_insert_repo(repo);
    let m = r.db.ensure_optional_user(u.status, pr.merged_by);
    let found = shared_with_number(pr.number as i64);
    lemma_first_index(u.db.repos, repo_is(repo));
    let repo_at = match first_index(u.db.repos, repo_is(repo)) {
        Some(i) => i,
        None => u.db.repos.len() as int,
    };
    assert forall|j: int| 0 <= j < repo_at implies !repo_is(repo)(#[trigger] first.repos[j]) by {
        assert(first.repos[j] == u.db.repos[j]);
    }
    lemma_first_index_is(first.repos, repo_is(repo), repo_at);
    lemma_first_index(m.db.shared, found);
    let at = match first_index(m.db.shared, found) {
        Some(i) => i,
        None => m.db.shared.len() as int,
    };
    assert forall|j: int| 0 <= j < at implies !found(#[trigger] first.shared[j]) by {
        assert(first.shared[j] == m.db.shared[j]);
    }
    lemma_first_index_is(first.shared, found, at);
    lemma_shared_settled(
        m.db,
        first,
        m.status,
        unchanged,
        u.row,
        r.row,
        pr.number,
        opt_text(pr.title),
        opt_text(pr.body),
        lock_reason(pr.locked, opt_text(pr.active_lock_reason)),
        observed_or(pr.created_at, now),
        observed_or(observed_or_kept(pr.updated_at, pr.created_at), now),
        closed_at(pr.state == Some(IssueState::Closed), pr.closed_at, now),
        None,
        m.row,
        association_text(pr.author_association),
    );
    assert(first.shared_step_pr(author, pr, now) == first.ensure_shared_exists(
        unchanged,
        u.row,
        r.row,
        pr.number,
        opt_text(pr.title),
        opt_text(pr.body),
        lock_reason(pr.locked, opt_text(pr.active_lock_reason)),
        observed_or(pr.created_at, now),
        observed_or(observed_or_kept(pr.updated_at, pr.created_at), now),
        closed_at(pr.state == Some(IssueState::Closed), pr.closed_at, now),
        None,
        m.row,
        association_text(pr.author_association),
    ));
}

/// After a pull request was brought in, the store holds it in the pull
/// request table, with nothing left to write.
proof fn lemma_pr_reflected_own(
    db: DatabaseView,
    repo: RepoView,
    author: Author,
    pr: crate::models::PullRequest,
    now: i64,
)
    requires
        pr.user == Some(author),
        all_alike(pr_authors(pr)),
        all_labels_alike(listed(pr.labels)),
        db.has_room(pr_weight(pr)),
    ensures
        ({
            let first = db.process_pr(repo, pr, now).db;
            let rows = db.pr_rows(repo, author, pr, now);
            &&& first_index(first.pull_requests, pr_of(rows.shared)) is Some
            &&& first_index(first.pull_requests, pr_of(rows.shared))->0 as usize == rows.own
            &&& first.own_step(pr, rows.shared).db.pull_requests == first.pull_requests
        }),
{
    let unchanged = ProcessStatus::Unchanged;
    lemma_pr_observed(db, repo, author, pr, now);
    let first = db.process_pr(repo, pr, now).db;
    let u = db.ensure_user_exists(unchanged, author);
    let r = u.db.find_or_insert_repo(repo);
    let m = r.db.ensure_optional_user(u.status, pr.merged_by);
    let s = m.db.ensure_shared_exists(
        m.status,
        u.row,
        r.row,
        pr.number,
        opt_text(pr.title),
        opt_text(pr.body),
        lock_reason(pr.locked, opt_text(pr.active_lock_reason)),
        observed_or(pr.created_at, now),
        observed_or(observed_or_kept(pr.updated_at, pr.created_at), now),
        closed_at(pr.state == Some(IssueState::Closed), pr.closed_at, now),
        None,
        m.row,
        association_text(pr.author_association),
    );
    lemma_first_index(s.db.pull_requests, pr_of(s.row));
    let own = match first_index(s.db.pull_requests, pr_of(s.row)) {
        Some(i) => i,
        None => s.db.pull_requests.len() as int,
    };
    assert forall|j: int| 0 <= j < first.pull_requests.len() && j != own implies
        #[trigger] first.pull_requests[j] == s.db.pull_requests[j] by {}
    lemma_first_index_is(first.pull_requests, pr_of(s.row), own);
    lemma_pr_settled(
        s.db,
        first,
        s.status,
        unchanged,
        s.row,
        observed_or(pr.draft, false),
        pr.maintainer_can_modify,
        count(pr.additions),
        count(pr.deletions),
        count(pr.changed_files),
        count(pr.commits),
        pr.merged_at,
        opt_text(pr.merge_commit_sha),
        m.row,
        pr.head_sha@,
        pr.base_sha@,
        observed_or(pr.mergeable, false),
        observed_or(pr.rebaseable, false),
        observed_or(pr.mergeable_state, MergeableState::Unknown).spec_code(),
    );
}

/// The store reflects a pull request that was just brought in.
pub proof fn lemma_pr_reflected(
    db: DatabaseView,
    repo: RepoView,
    pr: crate::models::PullRequest,
    now: i64,
)
    requires
        all_alike(pr_authors(pr)),
        all_labels_alike(listed(pr.labels)),
        db.has_room(pr_weight(pr)),
    ensures
        db.process_pr(repo, pr, now).db.reflects_pr(repo, pr, now),
{
    if let Some(author) = pr.user {
        let first = db.process_pr(repo, pr, now).db;
        let rows = db.pr_rows(repo, author, pr, now);
        lemma_pr_observed(db, repo, author, pr, now);
        lemma_pr_users(first.users, author, pr);
        lemma_pr_reflected_shared(db, repo, author, pr, now);
        lemma_pr_reflected_own(db, repo, author, pr, now);
        lemma_reconciled_settled(
            db.label_links,
            rows.shared,
            rows_of_labels(first.labels, listed(pr.labels)),
        );
        lemma_reconciled_settled(
            db.assignments,
            rows.shared,
            rows_of_users(first.users, observed_assignees(pr.assignees, pr.assignee)),
        );
        lemma_reconciled_settled(
            db.review_requests,
            rows.own,
            rows_of_users(first.users, listed(pr.requested_reviewers)),
        );
    }
}

/// Whether two pull requests can be observed one after the other without
/// the one undoing what the other wrote: they have different numbers, and a
/// user or label that occurs in both is reported alike in both.
pub open spec fn prs_agree(a: crate::models::PullRequest, b: crate::models::PullRequest) -> bool {
    &&& a.number as i64 != b.number as i64
    &&& authors_alike(pr_authors(a), pr_authors(b))
    &&& labels_all_alike(listed(a.labels), listed(b.labels))
}

/// Observing a pull request does to the user table what bringing in its
/// users does, and to the label table what bringing in its labels does.
pub proof fn lemma_pr_brings(
    db: DatabaseView,
    repo: RepoView,
    author: Author,
    pr: crate::models::PullRequest,
    now: i64,
)
    requires
        pr.user == Some(author),
    ensures
        db.process_pr(repo, pr, now).db.users == db.ensure_users_exist(
            ProcessStatus::Unchanged,
            pr_authors(pr),
        ).db.users,
        db.process_pr(repo, pr, now).db.labels == db.ensure_labels_exist(
            ProcessStatus::Unchanged,
            listed(pr.labels),
        ).db.labels,
{
    let unchanged = ProcessStatus::Unchanged;
    let labels = listed(pr.labels);
    let assignees = observed_assignees(pr.assignees, pr.assignee);
    let requested = listed(pr.requested_reviewers);
    let head = optional(pr.user) + optional(pr.merged_by);
    let u = db.ensure_user_exists(unchanged, author);
    let r = u.db.find_or_insert_repo(repo);
    let m = r.db.ensure_optional_user(u.status, pr.merged_by);
    let rows = db.pr_rows(repo, author, pr, now);
    assert(rows.db.users == m.db.users);
    assert(rows.db.labels == db.labels);
    let l = rows.db.ensure_labels_exist(rows.status, labels);
    lemma_labels_frame(rows.db, rows.status, labels);
    let ll = l.db.update_label_assignments(l.status, rows.shared, l.rows);
    lemma_users_frame(ll.db, ll.status, assignees);
    let links = rows.db.update_links(rows.status, rows.shared, labels, assignees);
    lemma_users_frame(links.db, links.status, requested);
    // The users.
    let first = db.ensure_users_exist(unchanged, head);
    assert(first.db.users == m.db.users) by {
        reveal_with_fuel(DatabaseView::ensure_users_exist, 3);
        assert(optional(pr.user) =~= seq![author]);
        assert(seq![author].drop_last() =~= Seq::<Author>::empty());
        if let Some(by) = pr.merged_by {
            assert(head.drop_last() =~= seq![author]);
            assert(head.last() == by);
            crate::database::classification::lemma_user_status(u.db, u.status, by);
            lemma_user_local(r.db, u.db, by);
        } else {
            assert(head =~= seq![author]);
        }
    }
    lemma_users_concat(db, unchanged, head, assignees);
    lemma_users_local(first.db, ll.db, unchanged, ll.status, assignees);
    let second = db.ensure_users_exist(unchanged, head + assignees);
    assert(second.db.users == links.db.users);
    lemma_users_concat(db, unchanged, head + assignees, requested);
    lemma_users_local(second.db, links.db, unchanged, links.status, requested);
    // The labels.
    lemma_labels_local(rows.db, db, rows.status, unchanged, labels);
}

/// While another pull request is observed, a pull request that the store
/// holds keeps its row of the shared table, and the row stays as it is.
proof fn lemma_pr_shared_kept(
    db: DatabaseView,
    pr: crate::models::PullRequest,
    other_repo: RepoView,
    author: Author,
    other: crate::models::PullRequest,
    then: i64,
)
    requires
        other.user == Some(author),
        pr.number as i64 != other.number as i64,
        first_index(db.shared, shared_with_number(pr.number as i64)) is Some,
        db.has_room(1),
    ensures
        ({
            let after = db.process_pr(other_repo, other, then).db;
            let at = first_index(db.shared, shared_with_number(pr.number as i64))->0;
            &&& first_index(after.shared, shared_with_number(pr.number as i64)) == Some(at)
            &&& after.shared[at] == db.shared[at]
            &&& db.pr_rows(other_repo, author, other, then).shared != at as usize
        }),
{
    let unchanged = ProcessStatus::Unchanged;
    let after = db.process_pr(other_repo, other, then).db;
    let u = db.ensure_user_exists(unchanged, author);
    let r = u.db.find_or_insert_repo(other_repo);
    let m = r.db.ensure_optional_user(u.status, other.merged_by);
    let rows = db.pr_rows(other_repo, author, other, then);
    let labels = listed(other.labels);
    let assignees = observed_assignees(other.assignees, other.assignee);
    crate::database::stored::lemma_update_links_frame(
        rows.db,
        rows.status,
        rows.shared,
        labels,
        assignees,
    );
    let links = rows.db.update_links(rows.status, rows.shared, labels, assignees);
    lemma_users_frame(links.db, links.status, listed(other.requested_reviewers));
    assert(after.shared == rows.db.shared);
    assert(m.db.shared == db.shared);
    let found = shared_with_number(pr.number as i64);
    let other_found = shared_with_number(other.number as i64);
    lemma_first_index(db.shared, found);
    lemma_first_index(db.shared, other_found);
    let at = first_index(db.shared, found)->0;
    let other_at = match first_index(db.shared, other_found) {
        Some(i) => i,
        None => db.shared.len() as int,
    };
    assert(after.shared[other_at].number == other.number as i64);
    assert forall|j: int| 0 <= j < after.shared.len() && j != other_at implies
        #[trigger] after.shared[j] == db.shared[j] by {}
    assert(at != other_at);
    assert forall|j: int| 0 <= j < at implies !found(#[trigger] after.shared[j]) by {
        if j != other_at {
            assert(after.shared[j] == db.shared[j]);
        }
    }
    lemma_first_index_is(after.shared, found, at);
    assert(rows.shared == other_at as usize);
}

/// While another pull request is observed, a pull request that the store
/// holds keeps its row of the pull request table, and the row stays as it
/// is.
proof fn lemma_pr_own_kept(
    db: DatabaseView,
    shared: usize,
    other_repo: RepoView,
    author: Author,
    other: crate::models::PullRequest,
    then: i64,
)
    requires
        other.user == Some(author),
        db.pr_rows(other_repo, author, other, then).shared != shared,
        first_index(db.pull_requests, pr_of(shared)) is Some,
        db.has_room(1),
    ensures
        ({
            let after = db.process_pr(other_repo, other, then).db;
            let own = first_index(db.pull_requests, pr_of(shared))->0;
            &&& first_index(after.pull_requests, pr_of(shared)) == Some(own)
            &&& after.pull_requests[own] == db.pull_requests[own]
            &&& db.pr_rows(other_repo, author, other, then).own != own as usize
        }),
{
    let unchanged = ProcessStatus::Unchanged;
    let after = db.process_pr(other_repo, other, then).db;
    let rows = db.pr_rows(other_repo, author, other, then);
    let labels = listed(other.labels);
    let assignees = observed_assignees(other.assignees, other.assignee);
    crate::database::stored::lemma_update_links_frame(
        rows.db,
        rows.status,
        rows.shared,
        labels,
        assignees,
    );
    let links = rows.db.update_links(rows.status, rows.shared, labels, assignees);
    lemma_users_frame(links.db, links.status, listed(other.requested_reviewers));
    assert(after.pull_requests == rows.db.pull_requests);
    let found = pr_of(shared);
    let other_found = pr_of(rows.shared);
    lemma_first_index(db.pull_requests, found);
    lemma_first_index(db.pull_requests, other_found);
    let own = first_index(db.pull_requests, found)->0;
    let other_own = match first_index(db.pull_requests, other_found) {
        Some(i) => i,
        None => db.pull_requests.len() as int,
    };
    assert(after.pull_requests[other_own].shared == rows.shared);
    assert forall|j: int| 0 <= j < after.pull_requests.len() && j != other_own implies
        #[trigger] after.pull_requests[j] == db.pull_requests[j] by {}
    assert(own != other_own);
    assert forall|j: int| 0 <= j < own implies !found(#[trigger] after.pull_requests[j]) by {
        if j != other_own {
            assert(after.pull_requests[j] == db.pull_requests[j]);
        }
    }
    lemma_first_index_is(after.pull_requests, found, own);
    assert(rows.own == other_own as usize);
}

/// While another pull request is observed, the links of a row of the shared
/// table and of a row of the pull request table stay as they are, if the
/// other pull request has other rows.
proof fn lemma_pr_links_kept(
    db: DatabaseView,
    shared: usize,
    own: usize,
    labels: Seq<usize>,
    assignees: Seq<usize>,
    requested: Seq<usize>,
    other_repo: RepoView,
    author: Author,
    other: crate::models::PullRequest,
    then: i64,
)
    requires
        other.user == Some(author),
        db.pr_rows(other_repo, author, other, then).shared != shared,
        db.pr_rows(other_repo, author, other, then).own != own,
        links_settled(db.label_links, shared, labels),
        links_settled(db.assignments, shared, assignees),
        links_settled(db.review_requests, own, requested),
        db.has_room(pr_weight(other)),
    ensures
        ({
            let after = db.process_pr(other_repo, other, then).db;
            &&& links_settled(after.label_links, shared, labels)
            &&& links_settled(after.assignments, shared, assignees)
            &&& links_settled(after.review_requests, own, requested)
        }),
{
    let after = db.process_pr(other_repo, other, then).db;
    let rows = db.pr_rows(other_repo, author, other, then);
    let other_labels = listed(other.labels);
    let other_assignees = observed_assignees(other.assignees, other.assignee);
    let other_requested = listed(other.requested_reviewers);
    assert(rows.db.label_links == db.label_links);
    assert(rows.db.assignments == db.assignments);
    assert(rows.db.review_requests == db.review_requests);
    let l = rows.db.ensure_labels_exist(rows.status, other_labels);
    lemma_labels_frame(rows.db, rows.status, other_labels);
    let ll = l.db.update_label_assignments(l.status, rows.shared, l.rows);
    let a = ll.db.ensure_users_exist(ll.status, other_assignees);
    lemma_users_frame(ll.db, ll.status, other_assignees);
    let links = rows.db.update_links(rows.status, rows.shared, other_labels, other_assignees);
    let v = links.db.ensure_users_exist(links.status, other_requested);
    lemma_users_frame(links.db, links.status, other_requested);
    assert(after.label_links == reconciled(db.label_links, rows.shared, l.rows));
    assert(after.assignments == reconciled(db.assignments, rows.shared, a.rows));
    assert(after.review_requests == reconciled(db.review_requests, rows.own, v.rows));
    lemma_settled_kept(db.label_links, shared, labels, rows.shared, l.rows);
    lemma_settled_kept(db.assignments, shared, assignees, rows.shared, a.rows);
    lemma_settled_kept(db.review_requests, own, requested, rows.own, v.rows);
}

/// Writing the own attributes of a pull request to a pull request table
/// leaves it as it is if it leaves another table so that holds the same row
/// for the pull request.
proof fn lemma_own_step_kept(
    before: DatabaseView,
    after: DatabaseView,
    pr: crate::models::PullRequest,
    shared: usize,
    merged_by: Option<usize>,
)
    requires
        first_index(before.pull_requests, pr_of(shared)) is Some,
        first_index(after.pull_requests, pr_of(shared)) == first_index(
            before.pull_requests,
            pr_of(shared),
        ),
        after.pull_requests[first_index(before.pull_requests, pr_of(shared))->0]
            == before.pull_requests[first_index(before.pull_requests, pr_of(shared))->0],
        row_of_optional_user(before, pr.merged_by) == merged_by,
        row_of_optional_user(after, pr.merged_by) == merged_by,
        before.own_step(pr, shared).db.pull_requests == before.pull_requests,
    ensures
        after.own_step(pr, shared).db.pull_requests == after.pull_requests,
{
    lemma_first_index(before.pull_requests, pr_of(shared));
    lemma_first_index(after.pull_requests, pr_of(shared));
    let own = first_index(before.pull_requests, pr_of(shared))->0;
    let written = before.own_step(pr, shared).db.pull_requests;
    assert(written[own] == before.pull_requests[own]);
    assert(after.own_step(pr, shared).db.pull_requests =~= after.pull_requests);
}

/// A store that reflects a pull request still reflects it after another
/// pull request, which agrees with it, was observed.
pub proof fn lemma_pr_reflection_kept(
    db: DatabaseView,
    repo: RepoView,
    pr: crate::models::PullRequest,
    now: i64,
    other_repo: RepoView,
    other: crate::models::PullRequest,
    then: i64,
)
    requires
        db.reflects_pr(repo, pr, now),
        prs_agree(pr, other),
        db.has_room(pr_weight(other)),
    ensures
        db.process_pr(other_repo, other, then).db.reflects_pr(repo, pr, now),
{
    if let (Some(author), Some(other_author)) = (pr.user, other.user) {
        let unchanged = ProcessStatus::Unchanged;
        let after = db.process_pr(other_repo, other, then).db;
        let at = db.row_of_pr(pr);
        let own = db.own_row_of_pr(pr);
        // Its users and labels stay held, in their rows.
        lemma_pr_brings(db, other_repo, other_author, other, then);
        lemma_users_kept(db, unchanged, pr_authors(pr), pr_authors(other));
        lemma_pr_user_rows(db.users, after.users, author, pr);
        lemma_pr_users(after.users, author, pr);
        lemma_pr_users(db.users, author, pr);
        lemma_labels_kept(db, unchanged, listed(pr.labels), listed(other.labels));
        // Its repository stays.
        let u = db.ensure_user_exists(unchanged, other_author);
        lemma_repo_kept(u.db, repo, other_repo);
        assert(after.repos == u.db.find_or_insert_repo(other_repo).db.repos) by {
            lemma_pr_shared_kept(db, pr, other_repo, other_author, other, then);
            let rows = db.pr_rows(other_repo, other_author, other, then);
            let labels = listed(other.labels);
            let assignees = observed_assignees(other.assignees, other.assignee);
            lemma_labels_frame(rows.db, rows.status, labels);
            let l = rows.db.ensure_labels_exist(rows.status, labels);
            let ll = l.db.update_label_assignments(l.status, rows.shared, l.rows);
            lemma_users_frame(ll.db, ll.status, assignees);
            let links = rows.db.update_links(rows.status, rows.shared, labels, assignees);
            lemma_users_frame(links.db, links.status, listed(other.requested_reviewers));
        }
        // Its rows stay, with nothing left to write.
        lemma_pr_shared_kept(db, pr, other_repo, other_author, other, then);
        lemma_first_index(db.shared, shared_with_number(pr.number as i64));
        assert(after.row_of_pr(pr) == at);
        lemma_shared_step_kept(
            db,
            after,
            row_of_user(db.users, author),
            0,
            pr.number,
            opt_text(pr.title),
            opt_text(pr.body),
            lock_reason(pr.locked, opt_text(pr.active_lock_reason)),
            observed_or(pr.created_at, now),
            observed_or(observed_or_kept(pr.updated_at, pr.created_at), now),
            closed_at(pr.state == Some(IssueState::Closed), pr.closed_at, now),
            None,
            row_of_optional_user(db, pr.merged_by),
            association_text(pr.author_association),
        );
        assert(row_of_optional_user(after, pr.merged_by) == row_of_optional_user(
            db,
            pr.merged_by,
        ));
        lemma_pr_own_kept(db, at, other_repo, other_author, other, then);
        lemma_first_index(db.pull_requests, pr_of(at));
        assert(after.own_row_of_pr(pr) == own);
        lemma_own_step_kept(db, after, pr, at, row_of_optional_user(db, pr.merged_by));
        // Its links stay.
        lemma_pr_links_kept(
            db,
            at,
            own,
            rows_of_labels(db.labels, listed(pr.labels)),
            rows_of_users(db.users, observed_assignees(pr.assignees, pr.assignee)),
            rows_of_users(db.users, listed(pr.requested_reviewers)),
            other_repo,
            other_author,
            other,
            then,
        );
    }
}

/// Observing a pull request adds no more rows to a table than the pull
/// request weighs.
pub proof fn lemma_pr_room(
    db: DatabaseView,
    repo: RepoView,
    pr: crate::models::PullRequest,
    now: i64,
    more: nat,
)
    requires
        db.has_room(more + pr_weight(pr)),
    ensures
        db.process_pr(repo, pr, now).db.has_room(more),
{
    if let Some(author) = pr.user {
        let unchanged = ProcessStatus::Unchanged;
        let labels = listed(pr.labels);
        let assignees = observed_assignees(pr.assignees, pr.assignee);
        let requested = listed(pr.requested_reviewers);
        lemma_pr_brings(db, repo, author, pr, now);
        lemma_users_grow(db, unchanged, pr_authors(pr));
        lemma_labels_grow(db, unchanged, labels);
        let u = db.ensure_user_exists(unchanged, author);
        let r = u.db.find_or_insert_repo(repo);
        let m = r.db.ensure_optional_user(u.status, pr.merged_by);
        lemma_first_index(m.db.shared, shared_with_number(pr.number as i64));
        let rows = db.pr_rows(repo, author, pr, now);
        lemma_first_index(db.pull_requests, pr_of(rows.shared));
        let l = rows.db.ensure_labels_exist(rows.status, labels);
        lemma_labels_frame(rows.db, rows.status, labels);
        let ll = l.db.update_label_assignments(l.status, rows.shared, l.rows);
        let a = ll.db.ensure_users_exist(ll.status, assignees);
        lemma_users_frame(ll.db, ll.status, assignees);
        let links = rows.db.update_links(rows.status, rows.shared, labels, assignees);
        let v = links.db.ensure_users_exist(links.status, requested);
        lemma_users_frame(links.db, links.status, requested);
        lemma_reconciled_settled(db.label_links, rows.shared, l.rows);
        lemma_reconciled_settled(db.assignments, rows.shared, a.rows);
        lemma_reconciled_settled(db.review_requests, rows.own, v.rows);
        let after = db.process_pr(repo, pr, now).db;
        assert(after.label_links == reconciled(db.label_links, rows.shared, l.rows));
        assert(after.assignments == reconciled(db.assignments, rows.shared, a.rows));
        assert(after.review_requests == reconciled(db.review_requests, rows.own, v.rows));
        assert(after.shared == rows.db.shared);
        assert(after.pull_requests == rows.db.pull_requests);
        assert(after.issues == db.issues);
        assert(pr_authors(pr).len() <= pr_weight(pr));
    }
}

/// A pull request that is brought into the store a second time, right
/// after the first, is classified as unchanged and leaves the store as it
/// is.
///
/// This is shown for a pull request in which a user or label that occurs
/// more than once is reported alike each time, and which comes with the
/// time of its creation and, if it is closed, with the time of its closing.
pub proof fn lemma_pr_idempotent(
    db: DatabaseView,
    repo: RepoView,
    pr: crate::models::PullRequest,
    now: i64,
    later: i64,
)
    requires
        all_alike(pr_authors(pr)),
        all_labels_alike(listed(pr.labels)),
        pr_timed(pr),
        db.has_room(pr_weight(pr)),
    ensures
        db.process_pr(repo, pr, now).db.process_pr(repo, pr, later) == (Processed {
            db: db.process_pr(repo, pr, now).db,
            status: ProcessStatus::Unchanged,
        }),
{
    lemma_pr_reflected(db, repo, pr, now);
    lemma_pr_room(db, repo, pr, now, 0);
    lemma_reflected_pr(db.process_pr(repo, pr, now).db, repo, pr, now, later);
}

} // verus!
