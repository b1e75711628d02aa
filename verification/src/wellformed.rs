//! Every routine of the mirror keeps it well formed.

use vstd::prelude::*;
use crate::database::schema::{DatabaseView, RequestRow};
use crate::database::wellformed::{
    lemma_process_comment_wf, lemma_process_issue_wf, lemma_process_pr_wf,
};
use crate::queue::{lemma_oldest, oldest};
use crate::repo::RepoView;
use crate::requests::add::request_with_number;
use crate::requests::handle::{comments_follow_up, list_follow_up, FollowUpView, ItemKind, Page};
use crate::requests::limits::{drain, RequestLimits};
use crate::requests::{opt_text, ListType, Priority, RequestView};
use crate::status::ProcessStatus;
use crate::table::{first_index, lemma_first_index, lemma_push_unique, lemma_remove_unique};
use crate::GithubDbView;

verus! {

impl GithubDbView {
    /// The mirror is well formed: its store is, and it has an identity to
    /// call the upstream with.
    pub open spec fn wf(self) -> bool {
        self.db.wf() && self.octocrabs.len() > 0
    }

    /// Whether `other` differs from this mirror in its store and in its
    /// next sequence number at most.
    pub open spec fn same_setup(self, other: GithubDbView) -> bool {
        other == (GithubDbView {
            db: other.db,
            request_sequence_number: other.request_sequence_number,
            ..self
        })
    }
}

/// Queuing a request leaves a well-formed mirror well formed, and changes
/// nothing but the queue and the next sequence number.
pub proof fn lemma_add_req_wf(s: GithubDbView, c: Priority, r: RequestView)
    requires
        s.wf(),
    ensures
        s.add_req(c, r).wf(),
        s.same_setup(s.add_req(c, r)),
        s.add_req(c, r).db == (DatabaseView { requests: s.add_req(c, r).db.requests, ..s.db }),
{
    let key = |r: RequestRow| r.sequence_number;
    let after = s.add_req(c, r);
    lemma_first_index(s.db.requests, request_with_number(s.request_sequence_number));
    if first_index(s.db.requests, request_with_number(s.request_sequence_number)) is None {
        let row = after.db.requests[s.db.requests.len() as int];
        lemma_push_unique(s.db.requests, key, row);
        assert forall|i: int| 0 <= i < after.db.requests.len() implies ({
            let q = #[trigger] after.db.requests[i];
            q.data matches Some(d) ==> q.name == d.name()
        }) by {
            if i < s.db.requests.len() {
                assert(after.db.requests[i] == s.db.requests[i]);
            }
        }
    }
}

/// Queuing an optional follow-up leaves a well-formed mirror well formed.
pub proof fn lemma_enqueue_wf(s: GithubDbView, follow_up: Option<FollowUpView>)
    requires
        s.wf(),
    ensures
        s.enqueue(follow_up).wf(),
        s.same_setup(s.enqueue(follow_up)),
{
    if let Some(f) = follow_up {
        lemma_add_req_wf(s, f.priority, f.request);
    }
}

/// Taking a request out of the queue leaves a well-formed store well
/// formed, and changes nothing but the queue.
pub proof fn lemma_next_request_wf(db: DatabaseView, c: Priority)
    requires
        db.wf(),
    ensures
        db.next_request(c).db.wf(),
        db.next_request(c).db == (DatabaseView { requests: db.next_request(c).db.requests, ..db }),
    decreases db.requests.len(),
{
    lemma_oldest(db.requests, c.spec_code());
    if let Some(i) = oldest(db.requests, c.spec_code()) {
        let rest = DatabaseView { requests: db.requests.remove(i), ..db };
        lemma_remove_unique(db.requests, |r: RequestRow| r.sequence_number, i);
        assert forall|k: int| 0 <= k < rest.requests.len() implies ({
            let q = #[trigger] rest.requests[k];
            q.data matches Some(d) ==> q.name == d.name()
        }) by {
            let k0 = if k < i {
                k
            } else {
                k + 1
            };
            assert(rest.requests[k] == db.requests[k0]);
        }
        if db.requests[i].data is None {
            lemma_next_request_wf(rest, c);
        }
    }
}

/// Handing out requests against an account leaves a well-formed store well
/// formed.
pub proof fn lemma_drain_wf(db: DatabaseView, c: Priority, tokens: u128)
    requires
        db.wf(),
    ensures
        drain(db, c, tokens).db.wf(),
        drain(db, c, tokens).db == (DatabaseView {
            requests: drain(db, c, tokens).db.requests,
            ..db
        }),
    decreases db.requests.len(),
{
    if tokens >= crate::requests::limits::UNIT {
        lemma_next_request_wf(db, c);
        let d = db.next_request(c);
        if d.row is Some {
            crate::queue::lemma_next_request_shrinks(db, c);
            lemma_drain_wf(d.db, c, (tokens - crate::requests::limits::UNIT) as u128);
        }
    }
}

/// A round of the budget leaves a well-formed store well formed.
pub proof fn lemma_round_wf(limits: RequestLimits, db: DatabaseView, now: u64)
    requires
        db.wf(),
    ensures
        limits.updated(db, now).db.wf(),
        limits.updated(db, now).db == (DatabaseView {
            requests: limits.updated(db, now).db.requests,
            ..db
        }),
{
    let first = limits.step(db, Priority::Update, now, limits.saved_up);
    lemma_drain_wf(
        db,
        Priority::Update,
        limits.account(Priority::Update).accrued(
            limits.global_limit,
            Priority::Update,
            now,
            limits.saved_up,
        ).tokens,
    );
    let second = first.limits.step(first.db, Priority::Comments, now, first.carried);
    lemma_drain_wf(
        first.db,
        Priority::Comments,
        first.limits.account(Priority::Comments).accrued(
            first.limits.global_limit,
            Priority::Comments,
            now,
            first.carried,
        ).tokens,
    );
    lemma_drain_wf(
        second.db,
        Priority::Index,
        second.limits.account(Priority::Index).accrued(
            second.limits.global_limit,
            Priority::Index,
            now,
            second.carried,
        ).tokens,
    );
}

/// Refreshing repositories leaves a well-formed mirror well formed.
pub proof fn lemma_refresh_repos_wf(s: GithubDbView, repos: Seq<RepoView>)
    requires
        s.wf(),
    ensures
        s.refresh_repos(repos).wf(),
        s.same_setup(s.refresh_repos(repos)),
    decreases repos.len(),
{
    if repos.len() > 0 {
        lemma_refresh_repos_wf(s, repos.drop_last());
        let before = s.refresh_repos(repos.drop_last());
        let repo = repos.last();
        lemma_add_req_wf(
            before,
            Priority::Update,
            RequestView::NewPr { repo, page: 0, url: None },
        );
        lemma_add_req_wf(
            before.add_req(Priority::Update, RequestView::NewPr { repo, page: 0, url: None }),
            Priority::Update,
            RequestView::NewIssue { repo, page: 0, url: None },
        );
    }
}

/// Starting the traversals of repositories leaves a well-formed mirror well
/// formed.
pub proof fn lemma_seed_repos_wf(s: GithubDbView, repos: Seq<RepoView>)
    requires
        s.wf(),
    ensures
        s.seed_repos(repos).wf(),
        s.same_setup(s.seed_repos(repos)),
    decreases repos.len(),
{
    if repos.len() > 0 {
        lemma_seed_repos_wf(s, repos.drop_last());
        let before = s.seed_repos(repos.drop_last());
        let repo = repos.last();
        let old_pr = RequestView::OldPr { repo, page: 0, url: None };
        let old_issue = RequestView::OldIssue { repo, page: 0, url: None };
        lemma_add_req_wf(before, Priority::Index, old_pr);
        let with_prs = if first_index(before.db.requests, crate::old_pr_of(repo)) is Some {
            before
        } else {
            before.add_req(Priority::Index, old_pr)
        };
        lemma_add_req_wf(with_prs, Priority::Index, old_issue);
        let with_issues = if first_index(with_prs.db.requests, crate::old_issue_of(repo))
            is Some {
            with_prs
        } else {
            with_prs.add_req(Priority::Index, old_issue)
        };
        lemma_refresh_repos_wf(with_issues, seq![repo]);
        assert(seq![repo].drop_last() =~= Seq::<RepoView>::empty());
        assert(with_issues.refresh_repos(seq![repo]) == with_issues.refresh_repo(repo)) by {
            reveal_with_fuel(GithubDbView::refresh_repos, 2);
        }
    }
}

/// The periodic entry point leaves a well-formed mirror well formed.
pub proof fn lemma_update_wf(s: GithubDbView, now: u64)
    requires
        s.wf(),
    ensures
        s.update(now).wf(),
{
    let polled = GithubDbView { refresh: s.refresh.polled(now), ..s };
    lemma_refresh_repos_wf(polled, polled.repos);
    let refreshed = if s.refresh.due(now) {
        polled.refresh()
    } else {
        polled
    };
    lemma_round_wf(refreshed.limits, refreshed.db, now);
}

/// Taking an identity for a call leaves a well-formed mirror well formed.
pub proof fn lemma_octocrab_wf(s: GithubDbView)
    requires
        s.wf(),
    ensures
        s.octocrab().wf(),
        s.octocrab().octocrabs.len() == s.octocrabs.len(),
        s.octocrab().octocrabs.to_multiset() == s.octocrabs.to_multiset(),
{
    let rotated = s.octocrab().octocrabs;
    assert(seq![s.octocrabs[0]] + s.octocrabs.drop_first() =~= s.octocrabs);
    assert(s.octocrabs.drop_first() + seq![s.octocrabs[0]] =~= rotated);
    vstd::seq_lib::lemma_multiset_commutative(seq![s.octocrabs[0]], s.octocrabs.drop_first());
    vstd::seq_lib::lemma_multiset_commutative(s.octocrabs.drop_first(), seq![s.octocrabs[0]]);
}

/// Observing pull requests leaves a well-formed mirror well formed and the
/// queue as it is.
pub proof fn lemma_process_prs_wf(
    s: GithubDbView,
    repo: RepoView,
    items: Seq<crate::models::PullRequest>,
    now: i64,
)
    requires
        s.wf(),
    ensures
        s.process_prs(repo, items, now).state.wf(),
        s.same_setup(s.process_prs(repo, items, now).state),
        s.process_prs(repo, items, now).state.db.requests == s.db.requests,
        s.process_prs(repo, items, now).state.request_sequence_number
            == s.request_sequence_number,
    decreases items.len(),
{
    if items.len() > 0 {
        lemma_process_prs_wf(s, repo, items.drop_last(), now);
        let before = s.process_prs(repo, items.drop_last(), now).state;
        lemma_process_pr_wf(before.db, repo, items.last(), now);
    }
}

/// Observing issues leaves a well-formed mirror well formed.
pub proof fn lemma_process_issues_wf(
    s: GithubDbView,
    repo: RepoView,
    items: Seq<crate::models::Issue>,
    now: i64,
)
    requires
        s.wf(),
    ensures
        s.process_issues(repo, items, now).state.wf(),
        s.same_setup(s.process_issues(repo, items, now).state),
    decreases items.len(),
{
    if items.len() > 0 {
        lemma_process_issues_wf(s, repo, items.drop_last(), now);
        let before = s.process_issues(repo, items.drop_last(), now).state;
        lemma_process_issue_mirror_wf(before, repo, items.last(), now);
    }
}

/// Observing an issue leaves a well-formed mirror well formed.
pub proof fn lemma_process_issue_mirror_wf(
    s: GithubDbView,
    repo: RepoView,
    issue: crate::models::Issue,
    now: i64,
)
    requires
        s.wf(),
    ensures
        s.process_issue(repo, issue, now).state.wf(),
        s.same_setup(s.process_issue(repo, issue, now).state),
{
    lemma_process_issue_wf(s.db, repo, issue, now);
    let p = s.db.process_issue(repo, issue, now);
    let observed = GithubDbView { db: p.db, ..s };
    if p.status != ProcessStatus::Unchanged {
        lemma_add_req_wf(
            observed,
            Priority::Comments,
            RequestView::Comments {
                repo,
                issue_number: issue.number,
                since_timestamp: crate::requests::add::comments_since(
                    p.status,
                    Some(issue.updated_at),
                ),
                page: 0,
                url: None,
            },
        );
    }
}

/// Observing comments leaves a well-formed mirror well formed and the queue
/// as it is.
pub proof fn lemma_process_comments_wf(
    s: GithubDbView,
    items: Seq<crate::models::Comment>,
    issue_number: u64,
)
    requires
        s.wf(),
    ensures
        s.process_comments(items, issue_number).state.wf(),
        s.same_setup(s.process_comments(items, issue_number).state),
    decreases items.len(),
{
    if items.len() > 0 {
        lemma_process_comments_wf(s, items.drop_last(), issue_number);
        let before = s.process_comments(items.drop_last(), issue_number).state;
        lemma_process_comment_wf(before.db, items.last(), issue_number);
    }
}

/// Handling a page leaves a well-formed mirror well formed.
pub proof fn lemma_handle_request_wf(s: GithubDbView, r: RequestView, page: Page, now: i64)
    requires
        s.wf(),
    ensures
        s.handle_request(r, page, now).wf(),
        s.same_setup(s.handle_request(r, page, now)),
{
    match (r, page) {
        (RequestView::OldPr { repo, page, .. }, Page::Pulls { items, next }) => {
            lemma_handle_list_prs_wf(s, repo, page, ListType::Old, items@, opt_text(next), now);
        },
        (RequestView::NewPr { repo, page, .. }, Page::Pulls { items, next }) => {
            lemma_handle_list_prs_wf(s, repo, page, ListType::New, items@, opt_text(next), now);
        },
        (RequestView::OldIssue { repo, page, .. }, Page::Issues { items, next }) => {
            lemma_handle_list_issues_wf(s, repo, page, ListType::Old, items@, opt_text(next), now);
        },
        (RequestView::NewIssue { repo, page, .. }, Page::Issues { items, next }) => {
            lemma_handle_list_issues_wf(s, repo, page, ListType::New, items@, opt_text(next), now);
        },
        (
            RequestView::Comments { repo, issue_number, since_timestamp, page, .. },
            Page::Comments { items, next },
        ) => {
            lemma_process_comments_wf(s, items@, issue_number);
            let handled = s.process_comments(items@, issue_number);
            lemma_enqueue_wf(
                handled.state,
                comments_follow_up(
                    repo,
                    issue_number,
                    since_timestamp,
                    page,
                    handled.any_updated,
                    opt_text(next),
                ),
            );
        },
        _ => {},
    }
}

/// Handling a page of pull requests leaves a well-formed mirror well formed.
pub proof fn lemma_handle_list_prs_wf(
    s: GithubDbView,
    repo: RepoView,
    page_num: usize,
    list_type: ListType,
    items: Seq<crate::models::PullRequest>,
    next: Option<Seq<char>>,
    now: i64,
)
    requires
        s.wf(),
    ensures
        s.handle_list_prs(repo, page_num, list_type, items, next, now).wf(),
        s.same_setup(s.handle_list_prs(repo, page_num, list_type, items, next, now)),
{
    lemma_process_prs_wf(s, repo, items, now);
    let handled = s.process_prs(repo, items, now);
    lemma_enqueue_wf(
        handled.state,
        list_follow_up(ItemKind::Pulls, list_type, repo, page_num, handled.any_updated, next),
    );
}

/// Handling a page of issues leaves a well-formed mirror well formed.
pub proof fn lemma_handle_list_issues_wf(
    s: GithubDbView,
    repo: RepoView,
    page_num: usize,
    list_type: ListType,
    items: Seq<crate::models::Issue>,
    next: Option<Seq<char>>,
    now: i64,
)
    requires
        s.wf(),
    ensures
        s.handle_list_issues(repo, page_num, list_type, items, next, now).wf(),
        s.same_setup(s.handle_list_issues(repo, page_num, list_type, items, next, now)),
{
    lemma_process_issues_wf(s, repo, items, now);
    let handled = s.process_issues(repo, items, now);
    lemma_enqueue_wf(
        handled.state,
        list_follow_up(ItemKind::Issues, list_type, repo, page_num, handled.any_updated, next),
    );
}

} // verus!
