//! The order of the queue: sequence numbers grow with every request that is
//! queued, and each category hands its requests out oldest first.

use vstd::prelude::*;
use crate::database::reconciliation::{lemma_labels_frame, lemma_users_frame};
use crate::database::schema::{DatabaseView, RequestRow};
use crate::models::{Author, Label};
use crate::queue::{lemma_next_request_shrinks, lemma_oldest, oldest};
use crate::repo::RepoView;
use crate::requests::add::{comments_since, request_with_number};
use crate::requests::handle::{comments_follow_up, list_follow_up, FollowUpView, ItemKind, Page};
use crate::requests::limits::{drain, RequestLimits, UNIT};
use crate::requests::{opt_text, ListType, Priority, RequestView};
use crate::status::ProcessStatus;
use crate::table::{first_index, lemma_first_index};
use crate::GithubDbView;

verus! {

/// Whether the sequence numbers of `requests` grow along the queue.
pub open spec fn ascending(requests: Seq<RequestRow>) -> bool {
    forall|i: int, j: int|
        0 <= i < j < requests.len() ==> (#[trigger] requests[i]).sequence_number < (
        #[trigger] requests[j]).sequence_number
}

/// Whether every sequence number of `requests` is less than `bound`.
pub open spec fn below(requests: Seq<RequestRow>, bound: i64) -> bool {
    forall|i: int| 0 <= i < requests.len() ==> (#[trigger] requests[i]).sequence_number < bound
}

/// Whether `row` is a request of the category `c` that can be read.
pub open spec fn readable_in(row: RequestRow, c: Priority) -> bool {
    row.category == c.spec_code() && row.data is Some
}

impl GithubDbView {
    /// The queue is in order: the sequence numbers grow along it, and the
    /// next number to hand out is greater than all of them.
    pub open spec fn queue_ordered(self) -> bool {
        ascending(self.db.requests) && below(self.db.requests, self.request_sequence_number)
    }

    /// The queue entry that `add_req` makes of the request `r` in the
    /// category `c`.
    pub open spec fn new_row(self, c: Priority, r: RequestView) -> RequestRow {
        RequestRow {
            category: c.spec_code(),
            sequence_number: self.request_sequence_number,
            data: Some(r),
            name: r.name(),
        }
    }
}

/// A request that is queued gets a sequence number greater than that of
/// every request queued before it, and goes to the end of the queue, which
/// stays in order. This holds until the sequence numbers run out.
pub proof fn lemma_add_req_ordered(s: GithubDbView, c: Priority, r: RequestView)
    requires
        s.queue_ordered(),
        s.request_sequence_number < i64::MAX,
    ensures
        s.add_req(c, r).db.requests == s.db.requests.push(s.new_row(c, r)),
        s.add_req(c, r).request_sequence_number == s.request_sequence_number + 1,
        forall|i: int|
            0 <= i < s.db.requests.len() ==> (#[trigger] s.db.requests[i]).sequence_number
                < s.new_row(c, r).sequence_number,
        s.add_req(c, r).queue_ordered(),
{
    lemma_first_index(s.db.requests, request_with_number(s.request_sequence_number));
}

/// Of two requests queued one after the other, the later gets the greater
/// sequence number, and both are in the queue in that order.
pub proof fn lemma_sequence_monotonic(
    s: GithubDbView,
    c1: Priority,
    r1: RequestView,
    c2: Priority,
    r2: RequestView,
)
    requires
        s.queue_ordered(),
        s.request_sequence_number < i64::MAX - 1,
    ensures
        ({
            let first = s.new_row(c1, r1);
            let second = s.add_req(c1, r1).new_row(c2, r2);
            &&& first.sequence_number < second.sequence_number
            &&& s.add_req(c1, r1).add_req(c2, r2).db.requests == s.db.requests.push(first).push(
                second,
            )
        }),
{
    lemma_add_req_ordered(s, c1, r1);
    lemma_add_req_ordered(s.add_req(c1, r1), c2, r2);
}

/// In a queue whose sequence numbers grow along it, the oldest row of a
/// category is the first row of the category.
pub proof fn lemma_oldest_is_first(requests: Seq<RequestRow>, category: i64)
    requires
        ascending(requests),
    ensures
        match oldest(requests, category) {
            Some(i) => 0 <= i < requests.len() && requests[i].category == category && forall|
                j: int,
            |
                0 <= j < i ==> (#[trigger] requests[j]).category != category,
            None => forall|j: int|
                0 <= j < requests.len() ==> (#[trigger] requests[j]).category != category,
        },
{
    lemma_oldest(requests, category);
}

/// What is left of a queue that is in order is in order.
pub proof fn lemma_remove_ordered(requests: Seq<RequestRow>, i: int, bound: i64)
    requires
        ascending(requests),
        below(requests, bound),
        0 <= i < requests.len(),
    ensures
        ascending(requests.remove(i)),
        below(requests.remove(i), bound),
{
    let rest = requests.remove(i);
    assert forall|a: int, b: int| 0 <= a < b < rest.len() implies (
    #[trigger] rest[a]).sequence_number < (#[trigger] rest[b]).sequence_number by {
        let a0 = if a < i {
            a
        } else {
            a + 1
        };
        let b0 = if b < i {
            b
        } else {
            b + 1
        };
        assert(rest[a] == requests[a0]);
        assert(rest[b] == requests[b0]);
    }
    assert forall|a: int| 0 <= a < rest.len() implies (#[trigger] rest[a]).sequence_number
        < bound by {
        let a0 = if a < i {
            a
        } else {
            a + 1
        };
        assert(rest[a] == requests[a0]);
    }
}

/// The rows of `requests` that stay when the category `category` hands
/// out the row with the sequence number `handed`: those of other categories
/// and the younger ones.
pub open spec fn stays(category: i64, handed: i64) -> spec_fn(RequestRow) -> bool {
    |r: RequestRow| r.category != category || r.sequence_number > handed
}

/// The rows of other categories than `category`.
pub open spec fn other_than(category: i64) -> spec_fn(RequestRow) -> bool {
    |r: RequestRow| r.category != category
}

/// What taking a request of the category `c` out of the queue `requests`
/// must leave behind for the queue to be first in, first out.
pub open spec fn first_out(
    requests: Seq<RequestRow>,
    c: Priority,
    row: Option<RequestRow>,
    left: Seq<RequestRow>,
) -> bool {
    match row {
        Some(row) => {
            &&& readable_in(row, c)
            &&& requests.contains(row)
            &&& forall|j: int|
                0 <= j < requests.len() && readable_in(#[trigger] requests[j], c)
                    ==> row.sequence_number <= requests[j].sequence_number
            &&& left == requests.filter(stays(c.spec_code(), row.sequence_number))
        },
        None => {
            &&& forall|j: int| 0 <= j < requests.len() ==> !readable_in(#[trigger] requests[j], c)
            &&& left == requests.filter(other_than(c.spec_code()))
        },
    }
}

/// Where the oldest row of the category can be read, handing it out is first
/// in, first out.
proof fn lemma_first_out_taken(requests: Seq<RequestRow>, c: Priority, i: int)
    requires
        ascending(requests),
        oldest(requests, c.spec_code()) == Some(i),
        0 <= i < requests.len(),
        requests[i].data is Some,
    ensures
        first_out(requests, c, Some(requests[i]), requests.remove(i)),
{
    let category = c.spec_code();
    lemma_oldest_is_first(requests, category);
    let keep = stays(category, requests[i].sequence_number);
    assert forall|j: int| 0 <= j < requests.len() implies (keep(#[trigger] requests[j]) <==> j
        != i) by {
        if j < i {
            assert(requests[j].category != category);
        } else if j > i {
            assert(requests[i].sequence_number < requests[j].sequence_number);
        }
    }
    lemma_filter_one_out(requests, keep, i);
    assert(requests.contains(requests[i]));
}

/// Where the oldest row of the category cannot be read, dropping it and
/// going on with the rest is first in, first out if it is so for the rest.
proof fn lemma_first_out_skipped(
    requests: Seq<RequestRow>,
    c: Priority,
    i: int,
    row: Option<RequestRow>,
    left: Seq<RequestRow>,
)
    requires
        ascending(requests),
        oldest(requests, c.spec_code()) == Some(i),
        0 <= i < requests.len(),
        requests[i].data is None,
        first_out(requests.remove(i), c, row, left),
    ensures
        first_out(requests, c, row, left),
{
    let category = c.spec_code();
    let rest = requests.remove(i);
    let taken = requests[i];
    lemma_oldest_is_first(requests, category);
    assert forall|j: int| 0 <= j < requests.len() && j != i implies ({
        let k = if j < i {
            j
        } else {
            j - 1
        };
        0 <= k < rest.len() && rest[k] == #[trigger] requests[j]
    }) by {}
    match row {
        Some(row) => {
            let k = choose|k: int| 0 <= k < rest.len() && rest[k] == row;
            let k0 = if k < i {
                k
            } else {
                k + 1
            };
            assert(requests[k0] == row);
            assert(k0 > i) by {
                if k0 < i {
                    assert(requests[k0].category != category);
                }
            }
            assert(taken.sequence_number < row.sequence_number);
            assert(!stays(category, row.sequence_number)(taken));
            lemma_filter_remove(requests, stays(category, row.sequence_number), i);
            assert forall|j: int|
                0 <= j < requests.len() && readable_in(
                    #[trigger] requests[j],
                    c,
                ) implies row.sequence_number <= requests[j].sequence_number by {
                let k = if j < i {
                    j
                } else {
                    j - 1
                };
                assert(rest[k] == requests[j]);
            }
        },
        None => {
            assert(!other_than(category)(taken));
            lemma_filter_remove(requests, other_than(category), i);
            assert forall|j: int| 0 <= j < requests.len() implies !readable_in(
                #[trigger] requests[j],
                c,
            ) by {
                if j != i {
                    let k = if j < i {
                        j
                    } else {
                        j - 1
                    };
                    assert(rest[k] == requests[j]);
                }
            }
        },
    }
}

/// Requests leave the queue first in, first out within their category.
///
/// From a queue in order, the request that is handed out is older than every
/// other request of its category that can be read, and those all stay in the
/// queue, in their order. Where none is handed out, the category holds none
/// that can be read. Rows of other categories are not touched, and the
/// queue stays in order.
pub proof fn lemma_fifo(db: DatabaseView, c: Priority, bound: i64)
    requires
        ascending(db.requests),
        below(db.requests, bound),
    ensures
        ascending(db.next_request(c).db.requests),
        below(db.next_request(c).db.requests, bound),
        first_out(db.requests, c, db.next_request(c).row, db.next_request(c).db.requests),
    decreases db.requests.len(),
{
    let requests = db.requests;
    let category = c.spec_code();
    lemma_oldest_is_first(requests, category);
    match oldest(requests, category) {
        None => {
            lemma_filter_all(requests, other_than(category));
        },
        Some(i) => {
            let rest = DatabaseView { requests: requests.remove(i), ..db };
            lemma_remove_ordered(requests, i, bound);
            if requests[i].data is Some {
                lemma_first_out_taken(requests, c, i);
            } else {
                lemma_fifo(rest, c, bound);
                lemma_first_out_skipped(
                    requests,
                    c,
                    i,
                    rest.next_request(c).row,
                    rest.next_request(c).db.requests,
                );
            }
        },
    }
}

/// The rows that are requests of the category `c` and can be read.
pub open spec fn can_read(c: Priority) -> spec_fn(RequestRow) -> bool {
    |r: RequestRow| readable_in(r, c)
}

/// The number of requests of the category `c` in `requests` that can be
/// read.
pub open spec fn readable_count(requests: Seq<RequestRow>, c: Priority) -> nat {
    requests.filter(can_read(c)).len()
}

/// Taking a request out of the queue consumes exactly one request.
///
/// Where a request is handed out, the queue holds one readable request of
/// the category less than before; where none is, it held none. The
/// readable requests of every other category stay as they are. So if what
/// was handed out is lost, one request of that category is lost and no
/// more.
pub proof fn lemma_dequeue_takes_one(db: DatabaseView, c: Priority, other: Priority)
    ensures
        match db.next_request(c).row {
            Some(row) => {
                &&& readable_in(row, c)
                &&& readable_count(db.next_request(c).db.requests, c) + 1 == readable_count(
                    db.requests,
                    c,
                )
            },
            None => {
                &&& readable_count(db.requests, c) == 0
                &&& readable_count(db.next_request(c).db.requests, c) == 0
            },
        },
        other != c ==> db.next_request(c).db.requests.filter(can_read(other))
            == db.requests.filter(can_read(other)),
    decreases db.requests.len(),
{
    let requests = db.requests;
    lemma_oldest(requests, c.spec_code());
    match oldest(requests, c.spec_code()) {
        None => {
            lemma_filter_none(requests, can_read(c));
        },
        Some(i) => {
            let rest = DatabaseView { requests: requests.remove(i), ..db };
            lemma_filter_remove_len(requests, can_read(c), i);
            if other != c {
                lemma_filter_remove(requests, can_read(other), i);
            }
            if requests[i].data is None {
                lemma_dequeue_takes_one(rest, c, other);
            }
        },
    }
}

/// A filter that no row passes leaves nothing.
pub proof fn lemma_filter_none<T>(rows: Seq<T>, keep: spec_fn(T) -> bool)
    requires
        forall|j: int| 0 <= j < rows.len() ==> !keep(#[trigger] rows[j]),
    ensures
        rows.filter(keep).len() == 0,
    decreases rows.len(),
{
    reveal(Seq::filter);
    if rows.len() > 0 {
        let front = rows.drop_last();
        assert(forall|j: int| 0 <= j < front.len() ==> front[j] == rows[j]);
        lemma_filter_none(front, keep);
    }
}

/// Removing a row takes one row from what a filter leaves if the row passes
/// the filter, and none if it does not.
pub proof fn lemma_filter_remove_len<T>(rows: Seq<T>, keep: spec_fn(T) -> bool, i: int)
    requires
        0 <= i < rows.len(),
    ensures
        rows.remove(i).filter(keep).len() + (if keep(rows[i]) {
            1int
        } else {
            0int
        }) == rows.filter(keep).len(),
    decreases rows.len(),
{
    reveal(Seq::filter);
    let front = rows.drop_last();
    if i == rows.len() - 1 {
        assert(rows.remove(i) =~= front);
    } else {
        lemma_filter_remove_len(front, keep, i);
        assert(rows.remove(i).drop_last() =~= front.remove(i));
        assert(rows.remove(i).last() == rows.last());
    }
}

/// A filter that every row passes keeps the table as it is.
pub proof fn lemma_filter_all<T>(rows: Seq<T>, keep: spec_fn(T) -> bool)
    requires
        forall|j: int| 0 <= j < rows.len() ==> keep(#[trigger] rows[j]),
    ensures
        rows.filter(keep) == rows,
    decreases rows.len(),
{
    reveal(Seq::filter);
    if rows.len() > 0 {
        let front = rows.drop_last();
        assert(forall|j: int| 0 <= j < front.len() ==> front[j] == rows[j]);
        lemma_filter_all(front, keep);
        assert(front.push(rows.last()) =~= rows);
    }
}

/// A filter that all rows pass but the row `i` removes that row.
pub proof fn lemma_filter_one_out<T>(rows: Seq<T>, keep: spec_fn(T) -> bool, i: int)
    requires
        0 <= i < rows.len(),
        forall|j: int| 0 <= j < rows.len() ==> (keep(#[trigger] rows[j]) <==> j != i),
    ensures
        rows.filter(keep) == rows.remove(i),
    decreases rows.len(),
{
    reveal(Seq::filter);
    let front = rows.drop_last();
    assert(forall|j: int| 0 <= j < front.len() ==> front[j] == rows[j]);
    if i == rows.len() - 1 {
        lemma_filter_all(front, keep);
        assert(rows.remove(i) =~= front);
    } else {
        lemma_filter_one_out(front, keep, i);
        assert(front.remove(i).push(rows.last()) =~= rows.remove(i));
    }
}

/// A row that does not pass a filter can be removed before filtering.
pub proof fn lemma_filter_remove<T>(rows: Seq<T>, keep: spec_fn(T) -> bool, i: int)
    requires
        0 <= i < rows.len(),
        !keep(rows[i]),
    ensures
        rows.filter(keep) == rows.remove(i).filter(keep),
    decreases rows.len(),
{
    reveal(Seq::filter);
    let front = rows.drop_last();
    if i == rows.len() - 1 {
        assert(rows.remove(i) =~= front);
    } else {
        lemma_filter_remove(front, keep, i);
        assert(rows.remove(i).drop_last() =~= front.remove(i));
        assert(rows.remove(i).last() == rows.last());
    }
}

impl GithubDbView {
    /// Whether `after` is this mirror after at most `most` requests were
    /// queued and none was taken out of order: the queue of `after` is in
    /// order, and its next sequence number is that of this mirror or up to
    /// `most` more.
    pub open spec fn queued_up_to(self, after: GithubDbView, most: int) -> bool {
        &&& after.queue_ordered()
        &&& self.request_sequence_number <= after.request_sequence_number
            <= self.request_sequence_number + most
    }
}

/// Queuing an optional follow-up keeps the queue in order.
pub proof fn lemma_enqueue_ordered(s: GithubDbView, follow_up: Option<FollowUpView>)
    requires
        s.queue_ordered(),
        s.request_sequence_number < i64::MAX,
    ensures
        s.queued_up_to(s.enqueue(follow_up), 1),
{
    if let Some(f) = follow_up {
        lemma_add_req_ordered(s, f.priority, f.request);
    }
}

/// Refreshing repositories queues two requests for each and keeps the queue
/// in order.
pub proof fn lemma_refresh_repos_ordered(s: GithubDbView, repos: Seq<RepoView>)
    requires
        s.queue_ordered(),
        s.request_sequence_number + 2 * repos.len() <= i64::MAX,
    ensures
        s.refresh_repos(repos).queue_ordered(),
        s.refresh_repos(repos).request_sequence_number == s.request_sequence_number + 2
            * repos.len(),
    decreases repos.len(),
{
    if repos.len() > 0 {
        lemma_refresh_repos_ordered(s, repos.drop_last());
        let before = s.refresh_repos(repos.drop_last());
        let repo = repos.last();
        let new_pr = RequestView::NewPr { repo, page: 0, url: None };
        let new_issue = RequestView::NewIssue { repo, page: 0, url: None };
        lemma_add_req_ordered(before, Priority::Update, new_pr);
        lemma_add_req_ordered(before.add_req(Priority::Update, new_pr), Priority::Update, new_issue);
    }
}

/// Starting the traversals of repositories queues at most four requests for
/// each and keeps the queue in order.
pub proof fn lemma_seed_repos_ordered(s: GithubDbView, repos: Seq<RepoView>)
    requires
        s.queue_ordered(),
        s.request_sequence_number + 4 * repos.len() <= i64::MAX,
    ensures
        s.queued_up_to(s.seed_repos(repos), 4 * (repos.len() as int)),
    decreases repos.len(),
{
    if repos.len() > 0 {
        lemma_seed_repos_ordered(s, repos.drop_last());
        let before = s.seed_repos(repos.drop_last());
        let repo = repos.last();
        let old_pr = RequestView::OldPr { repo, page: 0, url: None };
        let old_issue = RequestView::OldIssue { repo, page: 0, url: None };
        lemma_add_req_ordered(before, Priority::Index, old_pr);
        let with_prs = if first_index(before.db.requests, crate::old_pr_of(repo)) is Some {
            before
        } else {
            before.add_req(Priority::Index, old_pr)
        };
        lemma_add_req_ordered(with_prs, Priority::Index, old_issue);
        let with_issues = if first_index(with_prs.db.requests, crate::old_issue_of(repo))
            is Some {
            with_prs
        } else {
            with_prs.add_req(Priority::Index, old_issue)
        };
        let new_pr = RequestView::NewPr { repo, page: 0, url: None };
        let new_issue = RequestView::NewIssue { repo, page: 0, url: None };
        lemma_add_req_ordered(with_issues, Priority::Update, new_pr);
        lemma_add_req_ordered(
            with_issues.add_req(Priority::Update, new_pr),
            Priority::Update,
            new_issue,
        );
    }
}

/// Bringing labels and assignees into the store leaves the queue as it is.
pub proof fn lemma_update_links_queue(
    db: DatabaseView,
    status: ProcessStatus,
    shared: usize,
    labels: Seq<Label>,
    assignees: Seq<Author>,
)
    ensures
        db.update_links(status, shared, labels, assignees).db.requests == db.requests,
{
    let with_labels = db.ensure_labels_exist(status, labels);
    lemma_labels_frame(db, status, labels);
    let links = with_labels.db.update_label_assignments(
        with_labels.status,
        shared,
        with_labels.rows,
    );
    lemma_users_frame(links.db, links.status, assignees);
}

/// Observing an issue leaves the queue of the store as it is.
pub proof fn lemma_process_issue_queue(
    db: DatabaseView,
    repo: RepoView,
    issue: crate::models::Issue,
    now: i64,
)
    ensures
        db.process_issue(repo, issue, now).db.requests == db.requests,
{
    let rows = db.issue_rows(repo, issue, now);
    lemma_update_links_queue(rows.db, rows.status, rows.shared, issue.labels@, issue.assignees@);
}

/// Observing a pull request leaves the queue of the store as it is.
pub proof fn lemma_process_pr_queue(
    db: DatabaseView,
    repo: RepoView,
    pr: crate::models::PullRequest,
    now: i64,
)
    ensures
        db.process_pr(repo, pr, now).db.requests == db.requests,
{
    if let Some(author) = pr.user {
        let rows = db.pr_rows(repo, author, pr, now);
        let labels = crate::database::process::listed(pr.labels);
        let assignees = crate::database::process::observed_assignees(pr.assignees, pr.assignee);
        lemma_update_links_queue(rows.db, rows.status, rows.shared, labels, assignees);
        let links = rows.db.update_links(rows.status, rows.shared, labels, assignees);
        lemma_users_frame(
            links.db,
            links.status,
            crate::database::process::listed(pr.requested_reviewers),
        );
    }
}

/// Observing an issue queues at most one request and keeps the queue in
/// order.
pub proof fn lemma_process_issue_ordered(
    s: GithubDbView,
    repo: RepoView,
    issue: crate::models::Issue,
    now: i64,
)
    requires
        s.queue_ordered(),
        s.request_sequence_number < i64::MAX,
    ensures
        s.queued_up_to(s.process_issue(repo, issue, now).state, 1),
{
    let p = s.db.process_issue(repo, issue, now);
    lemma_process_issue_queue(s.db, repo, issue, now);
    let observed = GithubDbView { db: p.db, ..s };
    if p.status != ProcessStatus::Unchanged {
        lemma_add_req_ordered(
            observed,
            Priority::Comments,
            RequestView::Comments {
                repo,
                issue_number: issue.number,
                since_timestamp: comments_since(p.status, Some(issue.updated_at)),
                page: 0,
                url: None,
            },
        );
    }
}

/// Observing issues queues at most one request for each and keeps the queue
/// in order.
pub proof fn lemma_process_issues_ordered(
    s: GithubDbView,
    repo: RepoView,
    items: Seq<crate::models::Issue>,
    now: i64,
)
    requires
        s.queue_ordered(),
        s.request_sequence_number + items.len() <= i64::MAX,
    ensures
        s.queued_up_to(s.process_issues(repo, items, now).state, items.len() as int),
    decreases items.len(),
{
    if items.len() > 0 {
        lemma_process_issues_ordered(s, repo, items.drop_last(), now);
        let before = s.process_issues(repo, items.drop_last(), now).state;
        lemma_process_issue_ordered(before, repo, items.last(), now);
    }
}

/// Observing pull requests leaves the queue and the next sequence number as
/// they are.
pub proof fn lemma_process_prs_queue(
    s: GithubDbView,
    repo: RepoView,
    items: Seq<crate::models::PullRequest>,
    now: i64,
)
    ensures
        s.process_prs(repo, items, now).state.db.requests == s.db.requests,
        s.process_prs(repo, items, now).state.request_sequence_number
            == s.request_sequence_number,
    decreases items.len(),
{
    if items.len() > 0 {
        lemma_process_prs_queue(s, repo, items.drop_last(), now);
        let before = s.process_prs(repo, items.drop_last(), now).state;
        lemma_process_pr_queue(before.db, repo, items.last(), now);
    }
}

/// Observing comments leaves the queue and the next sequence number as they
/// are.
pub proof fn lemma_process_comments_queue(
    s: GithubDbView,
    items: Seq<crate::models::Comment>,
    issue_number: u64,
)
    ensures
        s.process_comments(items, issue_number).state.db.requests == s.db.requests,
        s.process_comments(items, issue_number).state.request_sequence_number
            == s.request_sequence_number,
    decreases items.len(),
{
    if items.len() > 0 {
        lemma_process_comments_queue(s, items.drop_last(), issue_number);
    }
}

/// The number of items that a page holds.
pub open spec fn page_len(page: Page) -> nat {
    match page {
        Page::Pulls { items, .. } => items@.len(),
        Page::Issues { items, .. } => items@.len(),
        Page::Comments { items, .. } => items@.len(),
    }
}

/// Handling a page queues at most one request for each of its items and one
/// more, and keeps the queue in order.
pub proof fn lemma_handle_request_ordered(s: GithubDbView, r: RequestView, page: Page, now: i64)
    requires
        s.queue_ordered(),
        s.request_sequence_number + page_len(page) + 1 <= i64::MAX,
    ensures
        s.queued_up_to(s.handle_request(r, page, now), page_len(page) as int + 1),
{
    match (r, page) {
        (RequestView::OldPr { repo, page, .. }, Page::Pulls { items, next }) => {
            lemma_process_prs_queue(s, repo, items@, now);
            let handled = s.process_prs(repo, items@, now);
            lemma_enqueue_ordered(
                handled.state,
                list_follow_up(
                    ItemKind::Pulls,
                    ListType::Old,
                    repo,
                    page,
                    handled.any_updated,
                    opt_text(next),
                ),
            );
        },
        (RequestView::NewPr { repo, page, .. }, Page::Pulls { items, next }) => {
            lemma_process_prs_queue(s, repo, items@, now);
            let handled = s.process_prs(repo, items@, now);
            lemma_enqueue_ordered(
                handled.state,
                list_follow_up(
                    ItemKind::Pulls,
                    ListType::New,
                    repo,
                    page,
                    handled.any_updated,
                    opt_text(next),
                ),
            );
        },
        (RequestView::OldIssue { repo, page, .. }, Page::Issues { items, next }) => {
            lemma_process_issues_ordered(s, repo, items@, now);
            let handled = s.process_issues(repo, items@, now);
            lemma_enqueue_ordered(
                handled.state,
                list_follow_up(
                    ItemKind::Issues,
                    ListType::Old,
                    repo,
                    page,
                    handled.any_updated,
                    opt_text(next),
                ),
            );
        },
        (RequestView::NewIssue { repo, page, .. }, Page::Issues { items, next }) => {
            lemma_process_issues_ordered(s, repo, items@, now);
            let handled = s.process_issues(repo, items@, now);
            lemma_enqueue_ordered(
                handled.state,
                list_follow_up(
                    ItemKind::Issues,
                    ListType::New,
                    repo,
                    page,
                    handled.any_updated,
                    opt_text(next),
                ),
            );
        },
        (
            RequestView::Comments { repo, issue_number, since_timestamp, page, .. },
            Page::Comments { items, next },
        ) => {
            lemma_process_comments_queue(s, items@, issue_number);
            let handled = s.process_comments(items@, issue_number);
            lemma_enqueue_ordered(
                handled.state,
                comments_follow_up(
                    repo,
                    issue_number,
                    since_timestamp,
                    page,
                    handled.any_updated,
                    opt_text(next),
                ),
            );
        },
        _ => {},
    }
}

/// Handing out requests against an account keeps the queue in order.
pub proof fn lemma_drain_ordered(db: DatabaseView, c: Priority, tokens: u128, bound: i64)
    requires
        ascending(db.requests),
        below(db.requests, bound),
    ensures
        ascending(drain(db, c, tokens).db.requests),
        below(drain(db, c, tokens).db.requests, bound),
    decreases db.requests.len(),
{
    if tokens >= UNIT {
        lemma_fifo(db, c, bound);
        let d = db.next_request(c);
        if d.row is Some {
            lemma_next_request_shrinks(db, c);
            lemma_drain_ordered(d.db, c, (tokens - UNIT) as u128, bound);
        }
    }
}

/// A round of the budget keeps the queue in order.
pub proof fn lemma_round_ordered(limits: RequestLimits, db: DatabaseView, now: u64, bound: i64)
    requires
        ascending(db.requests),
        below(db.requests, bound),
    ensures
        ascending(limits.updated(db, now).db.requests),
        below(limits.updated(db, now).db.requests, bound),
{
    let first = limits.step(db, Priority::Update, now, limits.saved_up);
    lemma_drain_ordered(
        db,
        Priority::Update,
        limits.account(Priority::Update).accrued(
            limits.global_limit,
            Priority::Update,
            now,
            limits.saved_up,
        ).tokens,
        bound,
    );
    let second = first.limits.step(first.db, Priority::Comments, now, first.carried);
    lemma_drain_ordered(
        first.db,
        Priority::Comments,
        first.limits.account(Priority::Comments).accrued(
            first.limits.global_limit,
            Priority::Comments,
            now,
            first.carried,
        ).tokens,
        bound,
    );
    lemma_drain_ordered(
        second.db,
        Priority::Index,
        second.limits.account(Priority::Index).accrued(
            second.limits.global_limit,
            Priority::Index,
            now,
            second.carried,
        ).tokens,
        bound,
    );
}

/// The periodic entry point queues at most two requests for each repository
/// and keeps the queue in order.
pub proof fn lemma_update_ordered(s: GithubDbView, now: u64)
    requires
        s.queue_ordered(),
        s.request_sequence_number + 2 * s.repos.len() <= i64::MAX,
    ensures
        s.queued_up_to(s.update(now), 2 * (s.repos.len() as int)),
{
    let polled = GithubDbView { refresh: s.refresh.polled(now), ..s };
    lemma_refresh_repos_ordered(polled, polled.repos);
    let refreshed = if s.refresh.due(now) {
        polled.refresh()
    } else {
        polled
    };
    lemma_round_ordered(
        refreshed.limits,
        refreshed.db,
        now,
        refreshed.request_sequence_number,
    );
}

/// A mirror that is set up on a queue in order starts with its queue in
/// order: on an empty queue with the sequence number one, else with the
/// number after the greatest in the queue.
pub proof fn lemma_make_ordered(
    db: DatabaseView,
    credentials: nat,
    requests_per_hour: usize,
    repos: Seq<RepoView>,
    now: u64,
)
    requires
        ascending(db.requests),
        below(db.requests, i64::MAX),
    ensures
        GithubDbView::make(db, credentials, requests_per_hour, repos, now).queue_ordered(),
{
    lemma_max_is_greatest(db.requests);
}

/// The greatest sequence number of a queue is one of its sequence numbers,
/// and no less than any of them.
pub proof fn lemma_max_is_greatest(requests: Seq<RequestRow>)
    ensures
        match crate::max_sequence_number(requests) {
            Some(m) => {
                &&& forall|i: int|
                    0 <= i < requests.len() ==> (#[trigger] requests[i]).sequence_number <= m
                &&& exists|i: int|
                    0 <= i < requests.len() && (#[trigger] requests[i]).sequence_number == m
            },
            None => requests.len() == 0,
        },
    decreases requests.len(),
{
    if requests.len() > 0 {
        let front = requests.drop_last();
        lemma_max_is_greatest(front);
        assert(forall|i: int| 0 <= i < front.len() ==> front[i] == requests[i]);
        let m = crate::max_sequence_number(requests)->0;
        if m == requests.last().sequence_number {
            assert(requests[requests.len() - 1].sequence_number == m);
        } else {
            let i = choose|i: int|
                0 <= i < front.len() && (#[trigger] front[i]).sequence_number == m;
            assert(requests[i].sequence_number == m);
        }
    }
}

/// Whether `longer` is `shorter` with rows added at its end.
pub open spec fn extends(longer: Seq<RequestRow>, shorter: Seq<RequestRow>) -> bool {
    shorter.len() <= longer.len() && longer.take(shorter.len() as int) == shorter
}

/// A row that a queue holds is held by every queue that extends it.
pub proof fn lemma_extends_holds(
    longer: Seq<RequestRow>,
    shorter: Seq<RequestRow>,
    pred: spec_fn(RequestRow) -> bool,
)
    requires
        extends(longer, shorter),
        first_index(shorter, pred) is Some,
    ensures
        first_index(longer, pred) is Some,
{
    lemma_first_index(shorter, pred);
    lemma_first_index(longer, pred);
    let i = first_index(shorter, pred)->0;
    assert(longer.take(shorter.len() as int)[i] == longer[i]);
}

/// Starting the traversals of a repository leaves the queue with a request
/// for its oldest pull requests and one for its oldest issues, and takes
/// nothing out of the queue.
pub proof fn lemma_seed_repo_holds(s: GithubDbView, repo: RepoView)
    requires
        s.queue_ordered(),
        s.request_sequence_number + 4 <= i64::MAX,
    ensures
        first_index(s.seed_repo(repo).db.requests, crate::old_pr_of(repo)) is Some,
        first_index(s.seed_repo(repo).db.requests, crate::old_issue_of(repo)) is Some,
        extends(s.seed_repo(repo).db.requests, s.db.requests),
{
    let old_pr = RequestView::OldPr { repo, page: 0, url: None };
    let old_issue = RequestView::OldIssue { repo, page: 0, url: None };
    let new_pr = RequestView::NewPr { repo, page: 0, url: None };
    let new_issue = RequestView::NewIssue { repo, page: 0, url: None };
    lemma_add_req_ordered(s, Priority::Index, old_pr);
    let with_prs = if first_index(s.db.requests, crate::old_pr_of(repo)) is Some {
        s
    } else {
        s.add_req(Priority::Index, old_pr)
    };
    assert(extends(with_prs.db.requests, s.db.requests)) by {
        assert(s.db.requests.push(s.new_row(Priority::Index, old_pr)).take(
            s.db.requests.len() as int,
        ) =~= s.db.requests);
        assert(s.db.requests.take(s.db.requests.len() as int) =~= s.db.requests);
    }
    assert(first_index(with_prs.db.requests, crate::old_pr_of(repo)) is Some) by {
        if first_index(s.db.requests, crate::old_pr_of(repo)) is None {
            let row = s.new_row(Priority::Index, old_pr);
            assert(with_prs.db.requests[s.db.requests.len() as int] == row);
            assert(crate::old_pr_of(repo)(row));
            lemma_first_index(with_prs.db.requests, crate::old_pr_of(repo));
        }
    }
    lemma_add_req_ordered(with_prs, Priority::Index, old_issue);
    let with_issues = if first_index(with_prs.db.requests, crate::old_issue_of(repo)) is Some {
        with_prs
    } else {
        with_prs.add_req(Priority::Index, old_issue)
    };
    assert(extends(with_issues.db.requests, with_prs.db.requests)) by {
        assert(with_prs.db.requests.push(with_prs.new_row(Priority::Index, old_issue)).take(
            with_prs.db.requests.len() as int,
        ) =~= with_prs.db.requests);
        assert(with_prs.db.requests.take(with_prs.db.requests.len() as int)
            =~= with_prs.db.requests);
    }
    assert(first_index(with_issues.db.requests, crate::old_issue_of(repo)) is Some) by {
        if first_index(with_prs.db.requests, crate::old_issue_of(repo)) is None {
            let row = with_prs.new_row(Priority::Index, old_issue);
            assert(with_issues.db.requests[with_prs.db.requests.len() as int] == row);
            assert(crate::old_issue_of(repo)(row));
            lemma_first_index(with_issues.db.requests, crate::old_issue_of(repo));
        }
    }
    lemma_add_req_ordered(with_issues, Priority::Update, new_pr);
    let with_new_pr = with_issues.add_req(Priority::Update, new_pr);
    lemma_add_req_ordered(with_new_pr, Priority::Update, new_issue);
    let after = s.seed_repo(repo);
    assert(after.db.requests == with_issues.db.requests.push(
        with_issues.new_row(Priority::Update, new_pr),
    ).push(with_new_pr.new_row(Priority::Update, new_issue)));
    assert(extends(after.db.requests, with_issues.db.requests)) by {
        assert(after.db.requests.take(with_issues.db.requests.len() as int)
            =~= with_issues.db.requests);
    }
    assert(extends(after.db.requests, with_prs.db.requests)) by {
        assert(after.db.requests.take(with_prs.db.requests.len() as int)
            =~= with_issues.db.requests.take(with_prs.db.requests.len() as int));
    }
    assert(extends(after.db.requests, s.db.requests)) by {
        assert(after.db.requests.take(s.db.requests.len() as int) =~= with_prs.db.requests.take(
            s.db.requests.len() as int,
        ));
    }
    lemma_extends_holds(after.db.requests, with_prs.db.requests, crate::old_pr_of(repo));
    lemma_extends_holds(after.db.requests, with_issues.db.requests, crate::old_issue_of(repo));
}

/// No traversal is lost over a restart: after a mirror has queued what it
/// queues when it starts, the queue holds, for every repository of `repos`,
/// a request for its oldest pull requests and one for its oldest issues.
pub proof fn lemma_seeded(s: GithubDbView, repos: Seq<RepoView>)
    requires
        s.queue_ordered(),
        s.request_sequence_number + 4 * repos.len() <= i64::MAX,
    ensures
        forall|k: int|
            0 <= k < repos.len() ==> first_index(
                s.seed_repos(repos).db.requests,
                crate::old_pr_of(#[trigger] repos[k]),
            ) is Some && first_index(
                s.seed_repos(repos).db.requests,
                crate::old_issue_of(repos[k]),
            ) is Some,
        extends(s.seed_repos(repos).db.requests, s.db.requests),
    decreases repos.len(),
{
    if repos.len() == 0 {
        assert(s.db.requests.take(s.db.requests.len() as int) =~= s.db.requests);
    } else {
        let front = repos.drop_last();
        let last = repos.last();
        lemma_seeded(s, front);
        lemma_seed_repos_ordered(s, front);
        let before = s.seed_repos(front);
        let after = s.seed_repos(repos);
        lemma_seed_repo_holds(before, last);
        assert(extends(after.db.requests, s.db.requests)) by {
            assert(after.db.requests.take(s.db.requests.len() as int) =~= before.db.requests.take(
                s.db.requests.len() as int,
            ));
        }
        assert forall|k: int| 0 <= k < repos.len() implies first_index(
            after.db.requests,
            crate::old_pr_of(#[trigger] repos[k]),
        ) is Some && first_index(after.db.requests, crate::old_issue_of(repos[k])) is Some by {
            if k < front.len() {
                assert(front[k] == repos[k]);
                lemma_extends_holds(
                    after.db.requests,
                    before.db.requests,
                    crate::old_pr_of(repos[k]),
                );
                lemma_extends_holds(
                    after.db.requests,
                    before.db.requests,
                    crate::old_issue_of(repos[k]),
                );
            }
        }
    }
}

} // verus!
