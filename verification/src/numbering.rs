//! Sequence numbers on a queue that a mirror finds when it is set up.
//!
//! Whatever order the rows that are found are in, every request that the
//! mirror queues is numbered above all of them, the requests are numbered
//! one by one in the order in which they are queued, and the rows that were
//! found stay where and as they are.

use vstd::prelude::*;
use crate::database::schema::{DatabaseView, RequestRow};
use crate::order::{below, extends, lemma_max_is_greatest};
use crate::repo::RepoView;
use crate::requests::add::request_with_number;
use crate::requests::{Priority, RequestView};
use crate::table::{first_index, lemma_first_index};
use crate::GithubDbView;

verus! {

impl GithubDbView {
    /// Whether every queue entry has a sequence number less than the next
    /// one to hand out.
    pub open spec fn numbered(self) -> bool {
        below(self.db.requests, self.request_sequence_number)
    }

    /// Whether `after` is this mirror with at most `most` entries added at
    /// the end of its queue and numbered one by one from this mirror's next
    /// sequence number on, and with nothing else changed.
    pub open spec fn appended(self, after: GithubDbView, most: int) -> bool {
        let found = self.db.requests.len() as int;
        let added = after.db.requests.len() - found;
        &&& extends(after.db.requests, self.db.requests)
        &&& added <= most
        &&& after.request_sequence_number == self.request_sequence_number + added
        &&& forall|k: int|
            found <= k < after.db.requests.len() ==> (
            #[trigger] after.db.requests[k]).sequence_number == self.request_sequence_number + (k
                - found)
        &&& after == (GithubDbView {
            db: DatabaseView { requests: after.db.requests, ..self.db },
            request_sequence_number: after.request_sequence_number,
            ..self
        })
    }
}

/// The queue entry for the request `r` at `Update` priority under the
/// sequence number `number`.
pub open spec fn update_row(r: RequestView, number: int) -> RequestRow {
    RequestRow {
        category: Priority::Update.spec_code(),
        sequence_number: number as i64,
        data: Some(r),
        name: r.name(),
    }
}

/// The queue entries that a refresh of `repos` makes, numbered from `first`
/// on: for each repository in turn a request for its newest pull requests
/// and then one for its newest issues, each for the page zero.
pub open spec fn refresh_rows(repos: Seq<RepoView>, first: int) -> Seq<RequestRow> {
    Seq::new(
        2 * repos.len(),
        |k: int|
            if k % 2 == 0 {
                update_row(RequestView::NewPr { repo: repos[k / 2], page: 0, url: None }, first + k)
            } else {
                update_row(
                    RequestView::NewIssue { repo: repos[k / 2], page: 0, url: None },
                    first + k,
                )
            },
    )
}

/// A request that is queued goes to the end of the queue under the next
/// sequence number, whatever order the queue is in.
pub proof fn lemma_add_req_appended(s: GithubDbView, c: Priority, r: RequestView)
    requires
        s.numbered(),
        s.request_sequence_number < i64::MAX,
    ensures
        s.add_req(c, r).db.requests == s.db.requests.push(s.new_row(c, r)),
        s.appended(s.add_req(c, r), 1),
        s.add_req(c, r).numbered(),
{
    lemma_first_index(s.db.requests, request_with_number(s.request_sequence_number));
    let after = s.add_req(c, r);
    assert(after.db.requests.take(s.db.requests.len() as int) =~= s.db.requests);
}

/// Entries that are added after entries were added are added to the first.
pub proof fn lemma_appended_again(
    s: GithubDbView,
    then: GithubDbView,
    after: GithubDbView,
    most: int,
    more: int,
)
    requires
        s.appended(then, most),
        then.appended(after, more),
    ensures
        s.appended(after, most + more),
{
    let found = s.db.requests.len() as int;
    assert(after.db.requests.take(found) =~= then.db.requests.take(found)) by {
        assert(then.db.requests == after.db.requests.take(then.db.requests.len() as int));
    }
    assert forall|k: int| found <= k < after.db.requests.len() implies (
    #[trigger] after.db.requests[k]).sequence_number == s.request_sequence_number + (k - found) by {
        if k < then.db.requests.len() {
            assert(after.db.requests.take(then.db.requests.len() as int)[k]
                == after.db.requests[k]);
            assert(then.db.requests[k] == after.db.requests[k]);
        }
    }
}

/// A refresh queues exactly two requests for each repository, at `Update`
/// priority: one for its newest pull requests and then one for its newest
/// issues. No other request is queued, and no queue entry is taken out or
/// changed.
pub proof fn lemma_refresh_rows(s: GithubDbView, repos: Seq<RepoView>)
    requires
        s.numbered(),
        s.request_sequence_number + 2 * repos.len() <= i64::MAX,
    ensures
        s.refresh_repos(repos) == (GithubDbView {
            db: DatabaseView {
                requests: s.db.requests + refresh_rows(repos, s.request_sequence_number as int),
                ..s.db
            },
            request_sequence_number: (s.request_sequence_number + 2 * repos.len()) as i64,
            ..s
        }),
        s.refresh_repos(repos).numbered(),
    decreases repos.len(),
{
    let first = s.request_sequence_number as int;
    if repos.len() == 0 {
        assert(s.db.requests + refresh_rows(repos, first) =~= s.db.requests);
    } else {
        let front = repos.drop_last();
        lemma_refresh_rows(s, front);
        let before = s.refresh_repos(front);
        let repo = repos.last();
        let new_pr = RequestView::NewPr { repo, page: 0, url: None };
        let new_issue = RequestView::NewIssue { repo, page: 0, url: None };
        lemma_add_req_appended(before, Priority::Update, new_pr);
        let between = before.add_req(Priority::Update, new_pr);
        lemma_add_req_appended(between, Priority::Update, new_issue);
        let n = front.len() as int;
        assert(before.new_row(Priority::Update, new_pr) == update_row(new_pr, first + 2 * n));
        assert(between.new_row(Priority::Update, new_issue) == update_row(
            new_issue,
            first + 2 * n + 1,
        ));
        assert(refresh_rows(repos, first) =~= refresh_rows(front, first).push(
            update_row(new_pr, first + 2 * n),
        ).push(update_row(new_issue, first + 2 * n + 1)));
        assert(s.db.requests + refresh_rows(repos, first) =~= (s.db.requests + refresh_rows(
            front,
            first,
        )).push(update_row(new_pr, first + 2 * n)).push(update_row(new_issue, first + 2 * n + 1)));
    }
}

/// Starting the traversals of repositories adds at most four entries for
/// each at the end of the queue, whatever order the queue is in.
pub proof fn lemma_seed_repos_appended(s: GithubDbView, repos: Seq<RepoView>)
    requires
        s.numbered(),
        s.request_sequence_number + 4 * repos.len() <= i64::MAX,
    ensures
        s.appended(s.seed_repos(repos), 4 * (repos.len() as int)),
        s.seed_repos(repos).numbered(),
    decreases repos.len(),
{
    if repos.len() == 0 {
        assert(s.db.requests.take(s.db.requests.len() as int) =~= s.db.requests);
    } else {
        let front = repos.drop_last();
        lemma_seed_repos_appended(s, front);
        let before = s.seed_repos(front);
        let repo = repos.last();
        let old_pr = RequestView::OldPr { repo, page: 0, url: None };
        let old_issue = RequestView::OldIssue { repo, page: 0, url: None };
        let new_pr = RequestView::NewPr { repo, page: 0, url: None };
        let new_issue = RequestView::NewIssue { repo, page: 0, url: None };
        let most = 4 * (front.len() as int);
        let with_prs = if first_index(before.db.requests, crate::old_pr_of(repo)) is Some {
            before
        } else {
            before.add_req(Priority::Index, old_pr)
        };
        if first_index(before.db.requests, crate::old_pr_of(repo)) is None {
            lemma_add_req_appended(before, Priority::Index, old_pr);
            lemma_appended_again(s, before, with_prs, most, 1);
        }
        assert(s.appended(with_prs, most + 1));
        let with_issues = if first_index(with_prs.db.requests, crate::old_issue_of(repo))
            is Some {
            with_prs
        } else {
            with_prs.add_req(Priority::Index, old_issue)
        };
        if first_index(with_prs.db.requests, crate::old_issue_of(repo)) is None {
            lemma_add_req_appended(with_prs, Priority::Index, old_issue);
            lemma_appended_again(s, with_prs, with_issues, most + 1, 1);
        }
        assert(s.appended(with_issues, most + 2));
        lemma_add_req_appended(with_issues, Priority::Update, new_pr);
        let with_new = with_issues.add_req(Priority::Update, new_pr);
        lemma_appended_again(s, with_issues, with_new, most + 2, 1);
        lemma_add_req_appended(with_new, Priority::Update, new_issue);
        lemma_appended_again(
            s,
            with_new,
            with_new.add_req(Priority::Update, new_issue),
            most + 3,
            1,
        );
    }
}

/// A mirror that is set up on a queue numbers what it queues above what it
/// found.
///
/// It starts with the number after the greatest one in the queue, or with
/// one on an empty queue. The requests that it queues when it starts go to
/// the end of the queue and are numbered from there on, one by one, so that
/// each has a greater number than every entry that was found and than every
/// request queued before it. The entries that were found stay as they are.
pub proof fn lemma_restart_numbers(
    db: DatabaseView,
    credentials: nat,
    requests_per_hour: usize,
    repos: Seq<RepoView>,
    now: u64,
)
    requires
        below(db.requests, i64::MAX),
        crate::first_sequence_number(db.requests) + 4 * repos.len() <= i64::MAX,
    ensures
        ({
            let start = GithubDbView::make(db, credentials, requests_per_hour, repos, now);
            let first = match crate::max_sequence_number(db.requests) {
                Some(m) => m + 1,
                None => 1,
            };
            &&& start.db == db
            &&& start.request_sequence_number == first
            &&& start.numbered()
            &&& start.appended(start.startup_requests(), 4 * (repos.len() as int))
            &&& start.startup_requests().numbered()
            &&& forall|i: int, k: int|
                0 <= i < db.requests.len() <= k < start.startup_requests().db.requests.len()
                    ==> (#[trigger] db.requests[i]).sequence_number < (
                #[trigger] start.startup_requests().db.requests[k]).sequence_number
        }),
{
    let start = GithubDbView::make(db, credentials, requests_per_hour, repos, now);
    lemma_max_is_greatest(db.requests);
    lemma_seed_repos_appended(start, repos);
}

} // verus!
