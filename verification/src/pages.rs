//! Handling the same page twice in a row finds nothing to do the second
//! time.
//!
//! This is shown for pages whose items are different items, report a user or
//! label that occurs more than once alike each time, and do not lean on the
//! time of the observation for a time that the upstream left out.

use vstd::prelude::*;
use crate::database::idempotence::{
    all_alike, all_labels_alike, issue_authors, issue_timed, pr_authors, pr_timed,
};
use crate::database::process::listed;
use crate::database::reflection_comment::{
    comments_agree, lemma_comment_reflected, lemma_comment_reflection_kept,
    lemma_reflected_comment,
};
use crate::database::reflection_pr::{
    lemma_pr_reflected, lemma_pr_reflection_kept, lemma_pr_room, lemma_reflected_pr, pr_weight,
    prs_agree,
};
use crate::database::reflection::{
    issue_weight, issues_agree, lemma_issue_reflected, lemma_issue_reflection_kept,
    lemma_issue_room, lemma_reflected_issue,
};
use crate::repo::RepoView;
use crate::requests::handle::PageHandled;
use crate::GithubDbView;

verus! {

/// Whether an issue reports a user or label that occurs in it more than
/// once alike each time and, if it is closed, comes with the time of its
/// closing.
pub open spec fn issue_consistent(issue: crate::models::Issue) -> bool {
    all_alike(issue_authors(issue)) && all_labels_alike(issue.labels@) && issue_timed(issue)
}

/// Whether the issues of a page are consistent, each in itself and with one
/// another.
pub open spec fn issues_consistent(items: Seq<crate::models::Issue>) -> bool {
    &&& forall|i: int| 0 <= i < items.len() ==> issue_consistent(#[trigger] items[i])
    &&& forall|i: int, j: int|
        0 <= i < items.len() && 0 <= j < items.len() && i != j ==> issues_agree(
            #[trigger] items[i],
            #[trigger] items[j],
        )
}

/// The most rows that observing the issues `items` adds to any one table.
pub open spec fn issues_weight(items: Seq<crate::models::Issue>) -> nat
    decreases items.len(),
{
    if items.len() == 0 {
        0
    } else {
        issues_weight(items.drop_last()) + issue_weight(items.last())
    }
}

/// Whether the store of the mirror reflects every issue of `items`.
pub open spec fn reflects_issues(
    s: GithubDbView,
    repo: RepoView,
    items: Seq<crate::models::Issue>,
    now: i64,
) -> bool {
    forall|k: int| 0 <= k < items.len() ==> s.db.reflects_issue(repo, #[trigger] items[k], now)
}

/// After the issues of a consistent page were observed, the store reflects
/// every one of them.
pub proof fn lemma_issues_reflected(
    s: GithubDbView,
    repo: RepoView,
    items: Seq<crate::models::Issue>,
    now: i64,
    more: nat,
)
    requires
        issues_consistent(items),
        s.db.has_room(more + issues_weight(items)),
    ensures
        reflects_issues(s.process_issues(repo, items, now).state, repo, items, now),
        s.process_issues(repo, items, now).state.db.has_room(more),
    decreases items.len(),
{
    if items.len() > 0 {
        let front = items.drop_last();
        let last = items.last();
        assert(forall|i: int| 0 <= i < front.len() ==> front[i] == items[i]);
        assert(last == items[items.len() - 1]);
        lemma_issues_reflected(s, repo, front, now, more + issue_weight(last));
        let before = s.process_issues(repo, front, now).state;
        let after = s.process_issues(repo, items, now).state;
        lemma_issue_room(before.db, repo, last, now, more);
        lemma_issue_reflected(before.db, repo, last, now);
        assert forall|k: int| 0 <= k < items.len() implies after.db.reflects_issue(
            repo,
            #[trigger] items[k],
            now,
        ) by {
            let observed = before.db.process_issue(repo, last, now).db;
            if k < front.len() {
                assert(before.db.reflects_issue(repo, front[k], now));
                assert(issues_agree(items[k], items[items.len() - 1]));
                lemma_issue_reflection_kept(before.db, repo, items[k], now, repo, last, now);
            }
            assert(observed.reflects_issue(repo, items[k], now));
            lemma_reflection_frame(observed, after.db, repo, items[k], now);
        }
    }
}

/// Whether a store reflects an issue does not depend on its queue.
pub proof fn lemma_reflection_frame(
    a: crate::database::schema::DatabaseView,
    b: crate::database::schema::DatabaseView,
    repo: RepoView,
    issue: crate::models::Issue,
    now: i64,
)
    requires
        b == (crate::database::schema::DatabaseView { requests: b.requests, ..a }),
        a.reflects_issue(repo, issue, now),
    ensures
        b.reflects_issue(repo, issue, now),
{
}

/// A store that reflects the issues of a page is left as it is when the
/// page is observed, and none of the issues is classified as changed.
pub proof fn lemma_reflected_issues(
    s: GithubDbView,
    repo: RepoView,
    items: Seq<crate::models::Issue>,
    now: i64,
    later: i64,
)
    requires
        reflects_issues(s, repo, items, now),
        forall|k: int| 0 <= k < items.len() ==> issue_timed(#[trigger] items[k]),
        s.db.has_room(0),
    ensures
        s.process_issues(repo, items, later) == (PageHandled { state: s, any_updated: false }),
    decreases items.len(),
{
    if items.len() > 0 {
        let front = items.drop_last();
        assert(forall|i: int| 0 <= i < front.len() ==> front[i] == items[i]);
        lemma_reflected_issues(s, repo, front, now, later);
        assert(items.last() == items[items.len() - 1]);
        lemma_reflected_issue(s.db, repo, items.last(), now, later);
    }
}

/// A page of issues that is observed a second time, right after the first,
/// leaves the mirror as it is, and none of its issues is classified as
/// changed.
pub proof fn lemma_issue_page_idempotent(
    s: GithubDbView,
    repo: RepoView,
    items: Seq<crate::models::Issue>,
    now: i64,
    later: i64,
)
    requires
        issues_consistent(items),
        s.db.has_room(issues_weight(items)),
    ensures
        s.process_issues(repo, items, now).state.process_issues(repo, items, later) == (
        PageHandled { state: s.process_issues(repo, items, now).state, any_updated: false }),
{
    lemma_issues_reflected(s, repo, items, now, 0);
    lemma_reflected_issues(s.process_issues(repo, items, now).state, repo, items, now, later);
}

/// Whether a pull request reports a user or label that occurs in it more
/// than once alike each time, and comes with the time of its creation and,
/// if it is closed, with the time of its closing.
pub open spec fn pr_consistent(pr: crate::models::PullRequest) -> bool {
    all_alike(pr_authors(pr)) && all_labels_alike(listed(pr.labels)) && pr_timed(pr)
}

/// Whether the pull requests of a page are consistent, each in itself and
/// with one another.
pub open spec fn prs_consistent(items: Seq<crate::models::PullRequest>) -> bool {
    &&& forall|i: int| 0 <= i < items.len() ==> pr_consistent(#[trigger] items[i])
    &&& forall|i: int, j: int|
        0 <= i < items.len() && 0 <= j < items.len() && i != j ==> prs_agree(
            #[trigger] items[i],
            #[trigger] items[j],
        )
}

/// The most rows that observing the pull requests `items` adds to any one
/// table.
pub open spec fn prs_weight(items: Seq<crate::models::PullRequest>) -> nat
    decreases items.len(),
{
    if items.len() == 0 {
        0
    } else {
        prs_weight(items.drop_last()) + pr_weight(items.last())
    }
}

/// Whether the store of the mirror reflects every pull request of `items`.
pub open spec fn reflects_prs(
    s: GithubDbView,
    repo: RepoView,
    items: Seq<crate::models::PullRequest>,
    now: i64,
) -> bool {
    forall|k: int| 0 <= k < items.len() ==> s.db.reflects_pr(repo, #[trigger] items[k], now)
}

/// After the pull requests of a consistent page were observed, the store
/// reflects every one of them.
pub proof fn lemma_prs_reflected(
    s: GithubDbView,
    repo: RepoView,
    items: Seq<crate::models::PullRequest>,
    now: i64,
    more: nat,
)
    requires
        prs_consistent(items),
        s.db.has_room(more + prs_weight(items)),
    ensures
        reflects_prs(s.process_prs(repo, items, now).state, repo, items, now),
        s.process_prs(repo, items, now).state.db.has_room(more),
    decreases items.len(),
{
    if items.len() > 0 {
        let front = items.drop_last();
        let last = items.last();
        assert(forall|i: int| 0 <= i < front.len() ==> front[i] == items[i]);
        assert(last == items[items.len() - 1]);
        lemma_prs_reflected(s, repo, front, now, more + pr_weight(last));
        let before = s.process_prs(repo, front, now).state;
        let after = s.process_prs(repo, items, now).state;
        lemma_pr_room(before.db, repo, last, now, more);
        lemma_pr_reflected(before.db, repo, last, now);
        assert forall|k: int| 0 <= k < items.len() implies after.db.reflects_pr(
            repo,
            #[trigger] items[k],
            now,
        ) by {
            if k < front.len() {
                assert(before.db.reflects_pr(repo, front[k], now));
                assert(prs_agree(items[k], items[items.len() - 1]));
                lemma_pr_reflection_kept(before.db, repo, items[k], now, repo, last, now);
            }
        }
    }
}

/// A store that reflects the pull requests of a page is left as it is when
/// the page is observed, and none of them is classified as changed.
pub proof fn lemma_reflected_prs(
    s: GithubDbView,
    repo: RepoView,
    items: Seq<crate::models::PullRequest>,
    now: i64,
    later: i64,
)
    requires
        reflects_prs(s, repo, items, now),
        forall|k: int| 0 <= k < items.len() ==> pr_timed(#[trigger] items[k]),
        s.db.has_room(0),
    ensures
        s.process_prs(repo, items, later) == (PageHandled { state: s, any_updated: false }),
    decreases items.len(),
{
    if items.len() > 0 {
        let front = items.drop_last();
        assert(forall|i: int| 0 <= i < front.len() ==> front[i] == items[i]);
        lemma_reflected_prs(s, repo, front, now, later);
        assert(items.last() == items[items.len() - 1]);
        lemma_reflected_pr(s.db, repo, items.last(), now, later);
    }
}

/// A page of pull requests that is observed a second time, right after the
/// first, leaves the mirror as it is, and none of its pull requests is
/// classified as changed.
pub proof fn lemma_pr_page_idempotent(
    s: GithubDbView,
    repo: RepoView,
    items: Seq<crate::models::PullRequest>,
    now: i64,
    later: i64,
)
    requires
        prs_consistent(items),
        s.db.has_room(prs_weight(items)),
    ensures
        s.process_prs(repo, items, now).state.process_prs(repo, items, later) == (PageHandled {
            state: s.process_prs(repo, items, now).state,
            any_updated: false,
        }),
{
    lemma_prs_reflected(s, repo, items, now, 0);
    lemma_reflected_prs(s.process_prs(repo, items, now).state, repo, items, now, later);
}

/// Whether the comments of a page are different comments whose authors are
/// reported alike where one occurs more than once.
pub open spec fn comments_consistent(items: Seq<crate::models::Comment>) -> bool {
    forall|i: int, j: int|
        0 <= i < items.len() && 0 <= j < items.len() && i != j ==> comments_agree(
            #[trigger] items[i],
            #[trigger] items[j],
        )
}

/// Whether the store of the mirror reflects every comment of `items`.
pub open spec fn reflects_comments(
    s: GithubDbView,
    items: Seq<crate::models::Comment>,
    issue_number: u64,
) -> bool {
    forall|k: int| 0 <= k < items.len() ==> s.db.reflects_comment(#[trigger] items[k], issue_number)
}

/// After the comments of a consistent page were observed, the store
/// reflects every one of them.
pub proof fn lemma_comments_reflected(
    s: GithubDbView,
    items: Seq<crate::models::Comment>,
    issue_number: u64,
)
    requires
        comments_consistent(items),
    ensures
        reflects_comments(s.process_comments(items, issue_number).state, items, issue_number),
    decreases items.len(),
{
    if items.len() > 0 {
        let front = items.drop_last();
        let last = items.last();
        assert(forall|i: int| 0 <= i < front.len() ==> front[i] == items[i]);
        assert(last == items[items.len() - 1]);
        lemma_comments_reflected(s, front, issue_number);
        let before = s.process_comments(front, issue_number).state;
        let after = s.process_comments(items, issue_number).state;
        lemma_comment_reflected(before.db, last, issue_number);
        assert forall|k: int| 0 <= k < items.len() implies after.db.reflects_comment(
            #[trigger] items[k],
            issue_number,
        ) by {
            if k < front.len() {
                assert(before.db.reflects_comment(front[k], issue_number));
                assert(comments_agree(items[k], items[items.len() - 1]));
                lemma_comment_reflection_kept(before.db, items[k], last, issue_number);
            }
        }
    }
}

/// A store that reflects the comments of a page is left as it is when the
/// page is observed, and none of them is classified as changed.
pub proof fn lemma_reflected_comments(
    s: GithubDbView,
    items: Seq<crate::models::Comment>,
    issue_number: u64,
)
    requires
        reflects_comments(s, items, issue_number),
    ensures
        s.process_comments(items, issue_number) == (PageHandled { state: s, any_updated: false }),
    decreases items.len(),
{
    if items.len() > 0 {
        let front = items.drop_last();
        assert(forall|i: int| 0 <= i < front.len() ==> front[i] == items[i]);
        lemma_reflected_comments(s, front, issue_number);
        assert(items.last() == items[items.len() - 1]);
        lemma_reflected_comment(s.db, items.last(), issue_number);
    }
}

/// A page of comments that is observed a second time, right after the
/// first, leaves the mirror as it is, and none of its comments is
/// classified as changed.
pub proof fn lemma_comment_page_idempotent(
    s: GithubDbView,
    items: Seq<crate::models::Comment>,
    issue_number: u64,
)
    requires
        comments_consistent(items),
    ensures
        s.process_comments(items, issue_number).state.process_comments(items, issue_number) == (
        PageHandled { state: s.process_comments(items, issue_number).state, any_updated: false }),
{
    lemma_comments_reflected(s, items, issue_number);
    lemma_reflected_comments(s.process_comments(items, issue_number).state, items, issue_number);
}

} // verus!
