//! Verified core of a mirror that keeps the issues, pull requests and comments
//! of a set of repositories in a relational store.
//!
//! The store doubles as a queue of paginated list requests. A rate budget
//! decides when a request leaves the queue, the page that comes back for it
//! is brought into the store item by item, and what the items changed
//! decides which page is asked for next. All of that is decided here, on
//! plain values: calling the upstream service and writing to disk is left to
//! the caller, who hands in pages and the time and takes out requests.
//!
//! Every routine states what it leaves behind as a function of what it was
//! given, and is proved to meet that. On top of the routines' contracts the
//! following is proved:
//!
//! - the classification of an observation is the least classification of
//!   the rows that it touches ([`database::classification`]);
//! - reconciling the links of an item leaves it linked to exactly the
//!   observed members ([`database::reconciliation`]);
//! - observing the same item, or the same page, twice in a row changes
//!   nothing the second time ([`database::reflection`], [`pages`]);
//! - sequence numbers grow with every request that is queued, and requests
//!   leave the queue first in, first out within their category, one with
//!   every call ([`order`]);
//! - a mirror that is set up on a queue numbers what it queues above what it
//!   found, and a refresh queues exactly two requests for each repository
//!   ([`numbering`]);
//! - the periodic requests are queued once in every period ([`timer`]);
//! - the budget hands out no more requests than its rate grants, and a
//!   fifth of an hour's grant on top ([`requests::budget`]);
//! - while no queue runs dry, each category is handed its share of the
//!   budget to within one request ([`requests::fairness`]);
//! - the identities under which the upstream is called take turns
//!   ([`rotation`]);
//! - every routine keeps the store well formed ([`wellformed`],
//!   [`database::wellformed`]).

use vstd::prelude::*;

pub mod clock;
pub mod database;
pub mod models;
pub mod numbering;
pub mod order;
pub mod pages;
pub mod queue;
pub mod repo;
pub mod requests;
pub mod rotation;
pub mod status;
pub mod table;
pub mod timer;
pub mod wellformed;

pub use crate::database::schema;
pub use crate::repo::Repo;
pub use crate::requests::{ListType, Priority, Request};
pub use crate::status::ProcessStatus;

use std::collections::VecDeque;
use crate::database::schema::{views, Database, DatabaseView, RequestRow};
use crate::queue::payloads;
use crate::repo::RepoView;
use crate::requests::add::next_sequence_number;
use crate::requests::limits::RequestLimits;
use crate::requests::RequestView;
use crate::table::{first_index, lemma_first_index_is, lemma_first_index_none};

verus! {

/// An identity under which the upstream service is called.
#[derive(Debug, PartialEq, Eq)]
pub struct GithubCredentials {
    pub app_id: String,
    pub app_secret: String,
}

/// The time between two refreshes, in nanoseconds: a minute.
pub const REFRESH_PERIOD: u64 = 60_000_000_000;

/// A timer that is due once in every period.
#[derive(Debug, Clone, Copy, PartialEq, Eq, Structural)]
pub struct Interval {
    /// The time between two deadlines, in nanoseconds.
    pub period: u64,
    /// The time at which the timer is next due.
    pub deadline: u64,
}

/// The time `period` after `time`, or the last time there is.
pub open spec fn later(time: u64, period: u64) -> u64 {
    if time + period > u64::MAX {
        u64::MAX
    } else {
        (time + period) as u64
    }
}

impl Interval {
    /// The timer that is first due one period after `now`.
    pub open spec fn starting(period: u64, now: u64) -> Interval {
        Interval { period, deadline: later(now, period) }
    }

    /// Whether the timer is due at the time `now`.
    pub open spec fn due(self, now: u64) -> bool {
        now >= self.deadline
    }

    /// The timer after it was asked at the time `now`: a timer that was due
    /// is next due one period after its deadline, so that a timer that was
    /// not asked for several periods is due several times in a row.
    pub open spec fn polled(self, now: u64) -> Interval {
        if self.due(now) {
            Interval { deadline: later(self.deadline, self.period), ..self }
        } else {
            self
        }
    }

    /// A timer that is first due one period after `now`.
    pub fn new(period: u64, now: u64) -> (r: Interval)
        ensures
            r == Interval::starting(period, now),
    {
        Interval { period, deadline: now.saturating_add(period) }
    }

    /// Tells whether the timer is due at the time `now`, and if so sets the
    /// next deadline.
    pub fn poll_tick(&mut self, now: u64) -> (due: bool)
        ensures
            due == old(self).due(now),
            *final(self) == old(self).polled(now),
    {
        if now >= self.deadline {
            self.deadline = self.deadline.saturating_add(self.period);
            true
        } else {
            false
        }
    }
}

/// The mirror: the store with its request queue, and what steers them.
#[derive(Debug)]
pub struct GithubDb {
    /// The store.
    pub db: Database,
    /// The upstream identities, by their position among the credentials, in
    /// the order of their rotation.
    pub octocrabs: VecDeque<usize>,
    /// The rate budget.
    pub limits: RequestLimits,
    /// The sequence number that the next queue entry gets.
    pub request_sequence_number: i64,
    /// The timer of the periodic refresh.
    pub refresh: Interval,
    /// The repositories that are mirrored.
    pub repos: Vec<Repo>,
}

/// What a [`GithubDb`] denotes.
pub struct GithubDbView {
    pub db: DatabaseView,
    pub octocrabs: Seq<usize>,
    pub limits: RequestLimits,
    pub request_sequence_number: i64,
    pub refresh: Interval,
    pub repos: Seq<RepoView>,
}

impl View for GithubDb {
    type V = GithubDbView;

    open spec fn view(&self) -> GithubDbView {
        GithubDbView {
            db: self.db@,
            octocrabs: self.octocrabs@,
            limits: self.limits,
            request_sequence_number: self.request_sequence_number,
            refresh: self.refresh,
            repos: views(self.repos@),
        }
    }
}

/// The queue entries that ask for the oldest pull requests of `repo`.
pub open spec fn old_pr_of(repo: RepoView) -> spec_fn(RequestRow) -> bool {
    |r: RequestRow| r.data matches Some(d) && d.is_old_pr_of(repo)
}

/// The queue entries that ask for the oldest issues of `repo`.
pub open spec fn old_issue_of(repo: RepoView) -> spec_fn(RequestRow) -> bool {
    |r: RequestRow| r.data matches Some(d) && d.is_old_issue_of(repo)
}

impl GithubDbView {
    /// The mirror after the requests for the newest pull requests and the
    /// newest issues of `repo` were queued, at `Update` priority.
    pub open spec fn refresh_repo(self, repo: RepoView) -> GithubDbView {
        self.add_req(Priority::Update, RequestView::NewPr { repo, page: 0, url: None }).add_req(
            Priority::Update,
            RequestView::NewIssue { repo, page: 0, url: None },
        )
    }

    /// The mirror after each of `repos` was refreshed, in order.
    pub open spec fn refresh_repos(self, repos: Seq<RepoView>) -> GithubDbView
        decreases repos.len(),
    {
        if repos.len() == 0 {
            self
        } else {
            self.refresh_repos(repos.drop_last()).refresh_repo(repos.last())
        }
    }

    /// The mirror after every mirrored repository was refreshed.
    pub open spec fn refresh(self) -> GithubDbView {
        self.refresh_repos(self.repos)
    }

    /// The mirror after the traversals of `repo` were started: a request for
    /// its oldest pull requests and one for its oldest issues are queued at
    /// `Index` priority, each unless the queue holds one for the repository
    /// already; then the repository is refreshed.
    pub open spec fn seed_repo(self, repo: RepoView) -> GithubDbView {
        let with_prs = if first_index(self.db.requests, old_pr_of(repo)) is Some {
            self
        } else {
            self.add_req(Priority::Index, RequestView::OldPr { repo, page: 0, url: None })
        };
        let with_issues = if first_index(with_prs.db.requests, old_issue_of(repo)) is Some {
            with_prs
        } else {
            with_prs.add_req(Priority::Index, RequestView::OldIssue { repo, page: 0, url: None })
        };
        with_issues.refresh_repo(repo)
    }

    /// The mirror after the traversals of each of `repos` were started, in
    /// order.
    pub open spec fn seed_repos(self, repos: Seq<RepoView>) -> GithubDbView
        decreases repos.len(),
    {
        if repos.len() == 0 {
            self
        } else {
            self.seed_repos(repos.drop_last()).seed_repo(repos.last())
        }
    }

    /// The mirror after the traversals of every mirrored repository were
    /// started.
    pub open spec fn startup_requests(self) -> GithubDbView {
        self.seed_repos(self.repos)
    }
}

impl Database {
    /// Whether the queue holds a request for the oldest pull requests of
    /// `repo`.
    pub fn has_old_pr(&self, repo: &Repo) -> (r: bool)
        ensures
            r == (first_index(self@.requests, old_pr_of(repo@)) is Some),
    {
        let mut i: usize = 0;
        while i < self.requests.len()
            invariant
                i <= self.requests.len(),
                forall|j: int| 0 <= j < i ==> !old_pr_of(repo@)(#[trigger] self@.requests[j]),
            decreases self.requests.len() - i,
        {
            let found = match &self.requests[i].data {
                Some(d) => d.is_old_pr_of(repo),
                None => false,
            };
            if found {
                proof {
                    lemma_first_index_is(self@.requests, old_pr_of(repo@), i as int);
                }
                return true;
            }
            i += 1;
        }
        proof {
            lemma_first_index_none(self@.requests, old_pr_of(repo@));
        }
        false
    }

    /// Whether the queue holds a request for the oldest issues of `repo`.
    pub fn has_old_issue(&self, repo: &Repo) -> (r: bool)
        ensures
            r == (first_index(self@.requests, old_issue_of(repo@)) is Some),
    {
        let mut i: usize = 0;
        while i < self.requests.len()
            invariant
                i <= self.requests.len(),
                forall|j: int| 0 <= j < i ==> !old_issue_of(repo@)(#[trigger] self@.requests[j]),
            decreases self.requests.len() - i,
        {
            let found = match &self.requests[i].data {
                Some(d) => d.is_old_issue_of(repo),
                None => false,
            };
            if found {
                proof {
                    lemma_first_index_is(self@.requests, old_issue_of(repo@), i as int);
                }
                return true;
            }
            i += 1;
        }
        proof {
            lemma_first_index_none(self@.requests, old_issue_of(repo@));
        }
        false
    }
}

impl GithubDb {
    /// Queues the requests for the newest pull requests and the newest issues
    /// of `repo`.
    pub fn refresh_repo(&mut self, repo: &Repo)
        ensures
            final(self)@ == old(self)@.refresh_repo(repo@),
    {
        self.add_req(Priority::Update, Request::NewPr { repo: repo.clone(), page: 0, url: None });
        self.add_req(
            Priority::Update,
            Request::NewIssue { repo: repo.clone(), page: 0, url: None },
        );
    }

    /// Queues, for every mirrored repository, the requests for its newest
    /// pull requests and its newest issues. This is the only producer that
    /// runs periodically.
    pub fn refresh(&mut self)
        ensures
            final(self)@ == old(self)@.refresh(),
            old(self)@.wf() ==> final(self)@.wf(),
    {
        proof {
            if self@.wf() {
                crate::wellformed::lemma_refresh_repos_wf(self@, self@.repos);
            }
        }
        let mut k: usize = 0;
        while k < self.repos.len()
            invariant
                k <= self.repos.len(),
                self@.repos == old(self)@.repos,
                self.repos.len() == old(self).repos.len(),
                self@ == old(self)@.refresh_repos(old(self)@.repos.take(k as int)),
            decreases self.repos.len() - k,
        {
            proof {
                assert(old(self)@.repos.take(k + 1).drop_last() =~= old(self)@.repos.take(
                    k as int,
                ));
            }
            let repo = self.repos[k].clone();
            self.refresh_repo(&repo);
            assert(self@.repos.len() == self.repos.len());
            k += 1;
        }
        assert(old(self)@.repos.take(k as int) =~= old(self)@.repos);
    }

    /// Starts the traversals of `repo`.
    pub fn seed_repo(&mut self, repo: &Repo)
        ensures
            final(self)@ == old(self)@.seed_repo(repo@),
    {
        if !self.db.has_old_pr(repo) {
            self.add_req(
                Priority::Index,
                Request::OldPr { repo: repo.clone(), page: 0, url: None },
            );
        }
        if !self.db.has_old_issue(repo) {
            self.add_req(
                Priority::Index,
                Request::OldIssue { repo: repo.clone(), page: 0, url: None },
            );
        }
        self.refresh_repo(repo);
    }

    /// Starts the traversals of every mirrored repository: what a mirror
    /// queues when it starts.
    pub fn startup_requests(&mut self)
        ensures
            final(self)@ == old(self)@.startup_requests(),
            old(self)@.wf() ==> final(self)@.wf(),
    {
        proof {
            if self@.wf() {
                crate::wellformed::lemma_seed_repos_wf(self@, self@.repos);
            }
        }
        let mut k: usize = 0;
        while k < self.repos.len()
            invariant
                k <= self.repos.len(),
                self@.repos == old(self)@.repos,
                self.repos.len() == old(self).repos.len(),
                self@ == old(self)@.seed_repos(old(self)@.repos.take(k as int)),
            decreases self.repos.len() - k,
        {
            proof {
                assert(old(self)@.repos.take(k + 1).drop_last() =~= old(self)@.repos.take(
                    k as int,
                ));
            }
            let repo = self.repos[k].clone();
            self.seed_repo(&repo);
            assert(self@.repos.len() == self.repos.len());
            k += 1;
        }
        assert(old(self)@.repos.take(k as int) =~= old(self)@.repos);
    }
}

/// What the mirror counts of itself.
#[derive(Debug, Clone, Copy, PartialEq, Eq, Structural)]
pub struct Stats {
    pub num_prs: usize,
    pub num_issues: usize,
    pub num_shared: usize,
    pub num_users: usize,
    pub num_comments: usize,
    pub num_labels: usize,
    /// The length of the request queue.
    pub num_requests: usize,
    /// The budget, in requests per hour.
    pub requests_per_hour: usize,
}

/// The greatest sequence number among `requests`, if there is a row.
pub open spec fn max_sequence_number(requests: Seq<RequestRow>) -> Option<i64>
    decreases requests.len(),
{
    if requests.len() == 0 {
        None
    } else {
        match max_sequence_number(requests.drop_last()) {
            Some(m) => if requests.last().sequence_number > m {
                Some(requests.last().sequence_number)
            } else {
                Some(m)
            },
            None => Some(requests.last().sequence_number),
        }
    }
}

/// The sequence number with which a mirror starts on the queue `requests`:
/// the number after the greatest one in the queue, or after zero where the
/// queue is empty.
pub open spec fn first_sequence_number(requests: Seq<RequestRow>) -> i64 {
    match max_sequence_number(requests) {
        Some(m) => next_sequence_number(m),
        None => 1,
    }
}

/// The first `n` positions, in order.
pub open spec fn positions(n: nat) -> Seq<usize> {
    Seq::new(n, |i: int| i as usize)
}

/// Whether every text of `repos` names a repository.
pub open spec fn all_parse(repos: Seq<&str>) -> bool {
    forall|i: int| 0 <= i < repos.len() ==> RepoView::parse((#[trigger] repos[i])@) is Some
}

/// The repositories that the texts `repos` name.
pub open spec fn parsed(repos: Seq<&str>) -> Seq<RepoView> {
    Seq::new(repos.len(), |i: int| RepoView::parse(repos[i]@)->0)
}

impl GithubDbView {
    /// The mirror that is set up at the time `now` on the store `db` with
    /// `credentials` identities, a budget of `requests_per_hour` and the
    /// repositories `repos`, before it has queued anything.
    pub open spec fn make(
        db: DatabaseView,
        credentials: nat,
        requests_per_hour: usize,
        repos: Seq<RepoView>,
        now: u64,
    ) -> GithubDbView {
        GithubDbView {
            db,
            octocrabs: positions(credentials),
            limits: RequestLimits::make(requests_per_hour, now),
            request_sequence_number: first_sequence_number(db.requests),
            refresh: Interval::starting(REFRESH_PERIOD, now),
            repos,
        }
    }

    /// The mirror after an identity was taken for a call: the identities
    /// rotate by one place, and the one that then stands first is used.
    pub open spec fn octocrab(self) -> GithubDbView {
        GithubDbView { octocrabs: self.octocrabs.drop_first().push(self.octocrabs[0]), ..self }
    }

    /// The mirror after its periodic entry point was called at the time
    /// `now`: the repositories are refreshed if the timer is due, then the
    /// budget runs a round over the queue.
    pub open spec fn update(self, now: u64) -> GithubDbView {
        let polled = GithubDbView { refresh: self.refresh.polled(now), ..self };
        let refreshed = if self.refresh.due(now) {
            polled.refresh()
        } else {
            polled
        };
        let round = refreshed.limits.updated(refreshed.db, now);
        GithubDbView { db: round.db, limits: round.limits, ..refreshed }
    }

    /// The queue entries that are handed out when the periodic entry point
    /// is called at the time `now`, in order.
    pub open spec fn handed_out(self, now: u64) -> Seq<RequestRow> {
        let polled = GithubDbView { refresh: self.refresh.polled(now), ..self };
        let refreshed = if self.refresh.due(now) {
            polled.refresh()
        } else {
            polled
        };
        refreshed.limits.updated(refreshed.db, now).handed
    }

    /// What the mirror counts of itself.
    pub open spec fn stats(self) -> Stats {
        Stats {
            num_prs: self.db.pull_requests.len() as usize,
            num_issues: self.db.issues.len() as usize,
            num_shared: self.db.shared.len() as usize,
            num_users: self.db.users.len() as usize,
            num_comments: self.db.comments.len() as usize,
            num_labels: self.db.labels.len() as usize,
            num_requests: self.db.requests.len() as usize,
            requests_per_hour: self.limits.global_limit,
        }
    }
}

impl Database {
    /// The greatest sequence number in the queue, if the queue holds a row.
    pub fn max_sequence_number(&self) -> (r: Option<i64>)
        ensures
            r == max_sequence_number(self@.requests),
    {
        let mut max: Option<i64> = None;
        let mut k: usize = 0;
        while k < self.requests.len()
            invariant
                k <= self.requests.len(),
                max == max_sequence_number(self@.requests.take(k as int)),
            decreases self.requests.len() - k,
        {
            proof {
                assert(self@.requests.take(k + 1).drop_last() =~= self@.requests.take(k as int));
            }
            let n = self.requests[k].sequence_number;
            max = match max {
                Some(m) => if n > m {
                    Some(n)
                } else {
                    Some(m)
                },
                None => Some(n),
            };
            k += 1;
        }
        assert(self@.requests.take(k as int) =~= self@.requests);
        max
    }
}

/// Reads each text of `repos` as a repository. Fails with the position of
/// the first text that names none.
pub fn parse_repos(repos: &[&str]) -> (r: Result<Vec<Repo>, usize>)
    ensures
        match r {
            Ok(parsed_repos) => all_parse(repos@) && views(parsed_repos@) == parsed(repos@),
            Err(i) => i < repos.len() && RepoView::parse(repos@[i as int]@) is None && all_parse(
                repos@.take(i as int),
            ),
        },
{
    let mut parsed_repos: Vec<Repo> = Vec::new();
    let mut k: usize = 0;
    while k < repos.len()
        invariant
            k <= repos.len(),
            all_parse(repos@.take(k as int)),
            views(parsed_repos@) == parsed(repos@.take(k as int)),
        decreases repos.len() - k,
    {
        match Repo::from_str(repos[k]) {
            Ok(repo) => {
                proof {
                    let shorter = repos@.take(k as int);
                    let longer = repos@.take(k + 1);
                    assert(longer[k as int] == repos@[k as int]);
                    assert(forall|j: int| 0 <= j < k ==> longer[j] == shorter[j]);
                    assert(RepoView::parse(repos@[k as int]@) == Some(repo@));
                    let pushed = views(parsed_repos@.push(repo));
                    assert(views(parsed_repos@).len() == parsed_repos@.len());
                    assert(parsed(shorter).len() == shorter.len());
                    assert(parsed(longer).len() == longer.len());
                    assert(pushed.len() == parsed_repos@.len() + 1);
                    assert forall|j: int| 0 <= j < pushed.len() implies pushed[j] == parsed(
                        longer,
                    )[j] by {
                        if j < k {
                            assert(views(parsed_repos@)[j] == parsed(shorter)[j]);
                            assert(parsed_repos@.push(repo)[j] == parsed_repos@[j]);
                        }
                    }
                    assert(pushed =~= parsed(longer));
                }
                parsed_repos.push(repo);
            },
            Err(_) => {
                return Err(k);
            },
        }
        k += 1;
    }
    assert(repos@.take(k as int) =~= repos@);
    Ok(parsed_repos)
}

/// The first `n` positions, in order.
pub fn first_positions(n: usize) -> (r: VecDeque<usize>)
    ensures
        r@ == positions(n as nat),
{
    let mut r: VecDeque<usize> = VecDeque::new();
    let mut k: usize = 0;
    while k < n
        invariant
            k <= n,
            r@ == positions(k as nat),
        decreases n - k,
    {
        r.push_back(k);
        assert(r@ =~= positions((k + 1) as nat));
        k += 1;
    }
    r
}

impl GithubDb {
    /// Sets a mirror up at the time `now` on the store `db`, and queues the
    /// requests that start the traversals of its repositories.
    ///
    /// There must be an identity to call the upstream with, and every text
    /// of `repos` must name a repository; [`parse_repos`] tells whether one
    /// does not.
    pub fn new(
        db: Database,
        credentials: &[GithubCredentials],
        requests_per_hour: usize,
        repos: &[&str],
        now: u64,
    ) -> (mirror: GithubDb)
        requires
            credentials.len() > 0,
            all_parse(repos@),
        ensures
            mirror@ == GithubDbView::make(
                db@,
                credentials@.len(),
                requests_per_hour,
                parsed(repos@),
                now,
            ).startup_requests(),
            db@.wf() ==> mirror@.wf(),
    {
        let repos = match parse_repos(repos) {
            Ok(repos) => repos,
            Err(_) => vstd::pervasive::unreached(),
        };
        let request_sequence_number = match db.max_sequence_number() {
            Some(m) => m.wrapping_add(1),
            None => 1,
        };
        let mut mirror = GithubDb {
            db,
            octocrabs: first_positions(credentials.len()),
            limits: RequestLimits::new(requests_per_hour, now),
            request_sequence_number,
            refresh: Interval::new(REFRESH_PERIOD, now),
            repos,
        };
        proof {
            if db@.wf() {
                crate::wellformed::lemma_seed_repos_wf(mirror@, mirror@.repos);
            }
        }
        mirror.startup_requests();
        mirror
    }

    /// Takes an identity for a call upstream: the identities rotate by one
    /// place, and the position of the one that then stands first is given.
    pub fn octocrab(&mut self) -> (r: usize)
        requires
            old(self)@.octocrabs.len() > 0,
        ensures
            final(self)@ == old(self)@.octocrab(),
            r == final(self)@.octocrabs[0],
            old(self)@.wf() ==> final(self)@.wf(),
    {
        let first = self.octocrabs.pop_front();
        match first {
            Some(first) => {
                self.octocrabs.push_back(first);
            },
            None => {},
        }
        assert(self@.octocrabs =~= old(self)@.octocrab().octocrabs);
        self.octocrabs[0]
    }

    /// Runs `f` on the store and gives what it returns.
    pub fn transaction<R, F: FnOnce(&Database) -> R>(&self, f: F) -> (r: R)
        requires
            f.requires((&self.db,)),
        ensures
            f.ensures((&self.db,), r),
    {
        f(&self.db)
    }

    /// The periodic entry point, called at the time `now`: refreshes the
    /// repositories if the timer is due, then lets the budget run a round
    /// over the queue. Gives the requests that were taken out of the queue
    /// and are to be handled, in order.
    pub fn update(&mut self, now: u64) -> (handed: Vec<Request>)
        ensures
            final(self)@ == old(self)@.update(now),
            views(handed@) == payloads(old(self)@.handed_out(now)),
            old(self)@.wf() ==> final(self)@.wf(),
    {
        proof {
            if self@.wf() {
                crate::wellformed::lemma_update_wf(self@, now);
            }
        }
        if self.refresh.poll_tick(now) {
            self.refresh();
        }
        self.limits.update(now, &mut self.db)
    }

    /// What the mirror counts of itself.
    pub fn stats(&self) -> (r: Stats)
        ensures
            r == self@.stats(),
    {
        Stats {
            num_prs: self.db.pull_requests.len(),
            num_issues: self.db.issues.len(),
            num_shared: self.db.shared.len(),
            num_users: self.db.users.len(),
            num_comments: self.db.comments.len(),
            num_labels: self.db.labels.len(),
            num_requests: self.db.requests.len(),
            requests_per_hour: self.limits.global_limit,
        }
    }
}

} // verus!
