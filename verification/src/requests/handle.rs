//! Handling a request: what to ask the upstream for, and what to do with the
//! page that comes back.

use vstd::prelude::*;
use crate::clock::{utc_from_timestamp_secs, utc_timestamp};
use crate::repo::{Repo, RepoView};
use crate::requests::add::{subtract_slack, with_slack};
use crate::requests::{opt_text, ListType, Priority, Request, RequestView};
use crate::status::ProcessStatus;
use crate::{GithubDb, GithubDbView};

verus! {

/// The number of items that a page is asked to hold.
pub const PAGE_SIZE: u8 = 100;

/// The order in which the upstream lists items, by the time of their update.
#[derive(Debug, Clone, Copy, PartialEq, Eq, Structural)]
pub enum Direction {
    Ascending,
    Descending,
}

/// What a list call lists.
#[derive(Debug, Clone, Copy, PartialEq, Eq, Structural)]
pub enum ItemKind {
    Pulls,
    Issues,
}

/// What the upstream sorts a list by.
#[derive(Debug, Clone, Copy, PartialEq, Eq, Structural)]
pub enum SortKey {
    Created,
    Updated,
}

/// The items that a list holds, by their state.
#[derive(Debug, Clone, Copy, PartialEq, Eq, Structural)]
pub enum StateFilter {
    Open,
    Closed,
    All,
}

/// A call against the upstream service.
#[derive(Debug, PartialEq, Eq)]
pub enum Query {
    /// Follow the link to the next page that the upstream handed out.
    Link { url: String },
    /// List the pull requests or the issues of a repository that are in the
    /// state `state`, sorted by `sort` in the order `direction`.
    List {
        kind: ItemKind,
        repo: Repo,
        sort: SortKey,
        direction: Direction,
        state: StateFilter,
        page: u32,
        per_page: u8,
    },
    /// List the comments of an issue or pull request, updated at or after
    /// `since` where that is given.
    Comments { repo: Repo, issue_number: u64, since: Option<i64>, page: u32, per_page: u8 },
}

/// What a [`Query`] denotes.
pub enum QueryView {
    Link { url: Seq<char> },
    List {
        kind: ItemKind,
        repo: RepoView,
        sort: SortKey,
        direction: Direction,
        state: StateFilter,
        page: u32,
        per_page: u8,
    },
    Comments { repo: RepoView, issue_number: u64, since: Option<i64>, page: u32, per_page: u8 },
}

impl View for Query {
    type V = QueryView;

    open spec fn view(&self) -> QueryView {
        match *self {
            Query::Link { url } => QueryView::Link { url: url@ },
            Query::List { kind, repo, sort, direction, state, page, per_page } => QueryView::List {
                kind,
                repo: repo@,
                sort,
                direction,
                state,
                page,
                per_page,
            },
            Query::Comments { repo, issue_number, since, page, per_page } => QueryView::Comments {
                repo: repo@,
                issue_number,
                since,
                page,
                per_page,
            },
        }
    }
}

/// What `http::Uri::from_str` says of `url`: whether it is a URI.
pub uninterp spec fn uri_parses(url: Seq<char>) -> bool;

/// Calls `http::Uri::from_str` and tells whether it succeeded.
///
/// Trusted: the answer is a function of the text alone.
#[verifier::external_body]
fn is_uri(url: &str) -> (r: bool)
    ensures
        r == uri_parses(url@),
{
    <http::Uri as std::str::FromStr>::from_str(url).is_ok()
}

impl ListType {
    /// The order in which the traversal lists: the newest first, or the
    /// oldest first.
    pub open spec fn spec_direction(self) -> Direction {
        match self {
            ListType::New => Direction::Descending,
            ListType::Old => Direction::Ascending,
        }
    }

    /// The order in which the traversal lists.
    #[verifier::when_used_as_spec(spec_direction)]
    pub fn direction(self) -> (r: Direction)
        ensures
            r == self.spec_direction(),
    {
        match self {
            ListType::New => Direction::Descending,
            ListType::Old => Direction::Ascending,
        }
    }
}

impl RequestView {
    /// The link to the page, if the request carries one.
    pub open spec fn url(self) -> Option<Seq<char>> {
        match self {
            RequestView::OldPr { url, .. } => url,
            RequestView::NewPr { url, .. } => url,
            RequestView::NewIssue { url, .. } => url,
            RequestView::OldIssue { url, .. } => url,
            RequestView::Comments { url, .. } => url,
        }
    }

    /// The number of the page.
    pub open spec fn page(self) -> usize {
        match self {
            RequestView::OldPr { page, .. } => page,
            RequestView::NewPr { page, .. } => page,
            RequestView::NewIssue { page, .. } => page,
            RequestView::OldIssue { page, .. } => page,
            RequestView::Comments { page, .. } => page,
        }
    }

    /// The time from which the comments are wanted, less the slack; `None`
    /// for a request that wants them all, or other things than comments.
    pub open spec fn since(self) -> Option<i64> {
        match self {
            RequestView::Comments { since_timestamp: Some(t), .. } => Some(with_slack(t)),
            _ => None,
        }
    }

    /// The call that fetches the page when there is no link to follow: by
    /// repository and page number, a hundred items to the page. Pull
    /// requests and issues of every state are listed, sorted by the time of
    /// their update; comments are listed from `since` on.
    pub open spec fn listing(self, since: Option<i64>) -> QueryView {
        match self {
            RequestView::OldPr { repo, page, .. } => QueryView::List {
                kind: ItemKind::Pulls,
                repo,
                sort: SortKey::Updated,
                direction: Direction::Ascending,
                state: StateFilter::All,
                page: page as u32,
                per_page: PAGE_SIZE,
            },
            RequestView::NewPr { repo, page, .. } => QueryView::List {
                kind: ItemKind::Pulls,
                repo,
                sort: SortKey::Updated,
                direction: Direction::Descending,
                state: StateFilter::All,
                page: page as u32,
                per_page: PAGE_SIZE,
            },
            RequestView::OldIssue { repo, page, .. } => QueryView::List {
                kind: ItemKind::Issues,
                repo,
                sort: SortKey::Updated,
                direction: Direction::Ascending,
                state: StateFilter::All,
                page: page as u32,
                per_page: PAGE_SIZE,
            },
            RequestView::NewIssue { repo, page, .. } => QueryView::List {
                kind: ItemKind::Issues,
                repo,
                sort: SortKey::Updated,
                direction: Direction::Descending,
                state: StateFilter::All,
                page: page as u32,
                per_page: PAGE_SIZE,
            },
            RequestView::Comments { repo, issue_number, page, .. } => QueryView::Comments {
                repo,
                issue_number,
                since,
                page: page as u32,
                per_page: PAGE_SIZE,
            },
        }
    }

    /// The call that fetches the page, given whether the request's link can
    /// be followed and from when on comments are to be listed: the link is
    /// followed where there is one and it can be; else the page is listed.
    pub open spec fn query_with(self, link_is_valid: bool, since: Option<i64>) -> QueryView {
        match self.url() {
            Some(url) if link_is_valid => QueryView::Link { url },
            _ => self.listing(since),
        }
    }

    /// The call that fetches the page: the request's link is followed if it
    /// is a URI, and comments are listed from the wanted time, less the
    /// slack, if that time can be represented.
    pub open spec fn query(self) -> QueryView {
        self.query_with(
            match self.url() {
                Some(url) => uri_parses(url),
                None => false,
            },
            match self.since() {
                Some(t) => utc_timestamp(t),
                None => None,
            },
        )
    }
}

impl Request {
    /// The link to the page, if the request carries one.
    pub fn url(&self) -> (r: &Option<String>)
        ensures
            opt_text(*r) == self@.url(),
    {
        match self {
            Request::OldPr { url, .. } => url,
            Request::NewPr { url, .. } => url,
            Request::NewIssue { url, .. } => url,
            Request::OldIssue { url, .. } => url,
            Request::Comments { url, .. } => url,
        }
    }

    /// The number of the page.
    pub fn page(&self) -> (r: usize)
        ensures
            r == self@.page(),
    {
        match self {
            Request::OldPr { page, .. } => *page,
            Request::NewPr { page, .. } => *page,
            Request::NewIssue { page, .. } => *page,
            Request::OldIssue { page, .. } => *page,
            Request::Comments { page, .. } => *page,
        }
    }

    /// The time from which the comments are wanted, less the slack.
    pub fn since(&self) -> (r: Option<i64>)
        ensures
            r == self@.since(),
    {
        match self {
            Request::Comments { since_timestamp: Some(t), .. } => Some(subtract_slack(*t)),
            _ => None,
        }
    }

    /// The call that fetches the page when there is no link to follow.
    pub fn listing(&self, since: Option<i64>) -> (q: Query)
        ensures
            q@ == self@.listing(since),
    {
        let page = #[verifier::truncate] (self.page() as u32);
        match self {
            Request::OldPr { repo, .. } => Query::List {
                kind: ItemKind::Pulls,
                repo: repo.clone(),
                sort: SortKey::Updated,
                direction: Direction::Ascending,
                state: StateFilter::All,
                page,
                per_page: PAGE_SIZE,
            },
            Request::NewPr { repo, .. } => Query::List {
                kind: ItemKind::Pulls,
                repo: repo.clone(),
                sort: SortKey::Updated,
                direction: Direction::Descending,
                state: StateFilter::All,
                page,
                per_page: PAGE_SIZE,
            },
            Request::OldIssue { repo, .. } => Query::List {
                kind: ItemKind::Issues,
                repo: repo.clone(),
                sort: SortKey::Updated,
                direction: Direction::Ascending,
                state: StateFilter::All,
                page,
                per_page: PAGE_SIZE,
            },
            Request::NewIssue { repo, .. } => Query::List {
                kind: ItemKind::Issues,
                repo: repo.clone(),
                sort: SortKey::Updated,
                direction: Direction::Descending,
                state: StateFilter::All,
                page,
                per_page: PAGE_SIZE,
            },
            Request::Comments { repo, issue_number, .. } => Query::Comments {
                repo: repo.clone(),
                issue_number: *issue_number,
                since,
                page,
                per_page: PAGE_SIZE,
            },
        }
    }

    /// The call that fetches the page, given whether the request's link can
    /// be followed and from when on comments are to be listed.
    pub fn query_with(&self, link_is_valid: bool, since: Option<i64>) -> (q: Query)
        ensures
            q@ == self@.query_with(link_is_valid, since),
    {
        match self.url() {
            Some(url) if link_is_valid => Query::Link { url: url.clone() },
            _ => self.listing(since),
        }
    }

    /// The call that fetches the page of this request.
    pub fn query(&self) -> (q: Query)
        ensures
            q@ == self@.query(),
    {
        let link_is_valid = match self.url() {
            Some(url) => is_uri(url.as_str()),
            None => false,
        };
        let since = match self.since() {
            Some(t) => utc_from_timestamp_secs(t),
            None => None,
        };
        self.query_with(link_is_valid, since)
    }
}

/// A page of a list as the upstream returns it.
#[derive(Debug, PartialEq, Eq)]
#[allow(inconsistent_fields)]
pub enum Page {
    Pulls { items: Vec<crate::models::PullRequest>, next: Option<String> },
    Issues { items: Vec<crate::models::Issue>, next: Option<String> },
    Comments { items: Vec<crate::models::Comment>, next: Option<String> },
}

/// A request to queue in a category.
pub struct FollowUp {
    pub priority: Priority,
    pub request: Request,
}

/// What a [`FollowUp`] denotes.
pub struct FollowUpView {
    pub priority: Priority,
    pub request: RequestView,
}

impl View for FollowUp {
    type V = FollowUpView;

    open spec fn view(&self) -> FollowUpView {
        FollowUpView { priority: self.priority, request: self.request@ }
    }
}

/// What an optional follow-up denotes.
pub open spec fn opt_follow_up(f: Option<FollowUp>) -> Option<FollowUpView> {
    match f {
        Some(f) => Some(f@),
        None => None,
    }
}

/// The number of the page after `page_num`: the next number where the
/// upstream handed out a link to a next page; else zero, so that the
/// traversal starts over.
pub open spec fn next_page(page_num: usize, has_next: bool) -> usize {
    if !has_next {
        0
    } else if page_num == usize::MAX {
        usize::MAX
    } else {
        (page_num + 1) as usize
    }
}

/// The request for the page `page` of a list of `kind`, traversed as
/// `list_type` says.
pub open spec fn list_request(
    kind: ItemKind,
    list_type: ListType,
    repo: RepoView,
    page: usize,
    url: Option<Seq<char>>,
) -> RequestView {
    match (kind, list_type) {
        (ItemKind::Pulls, ListType::New) => RequestView::NewPr { repo, page, url },
        (ItemKind::Pulls, ListType::Old) => RequestView::OldPr { repo, page, url },
        (ItemKind::Issues, ListType::New) => RequestView::NewIssue { repo, page, url },
        (ItemKind::Issues, ListType::Old) => RequestView::OldIssue { repo, page, url },
    }
}

/// What to queue after the page `page_num` of a list was handled.
///
/// A traversal from the newest goes on, at `Update` priority, only while
/// pages hold changes. A traversal from the oldest always goes on: at
/// `Update` priority after a page with changes, else at `Index` priority.
pub open spec fn list_follow_up(
    kind: ItemKind,
    list_type: ListType,
    repo: RepoView,
    page_num: usize,
    any_updated: bool,
    next: Option<Seq<char>>,
) -> Option<FollowUpView> {
    let request = list_request(kind, list_type, repo, next_page(page_num, next is Some), next);
    match list_type {
        ListType::New => if any_updated {
            Some(FollowUpView { priority: Priority::Update, request })
        } else {
            None
        },
        ListType::Old => Some(
            FollowUpView {
                priority: if any_updated {
                    Priority::Update
                } else {
                    Priority::Index
                },
                request,
            },
        ),
    }
}

/// What to queue after the page `page_num` of an item's comments was
/// handled: the next page, where the page held changes and the upstream
/// handed out a link to a next one.
pub open spec fn comments_follow_up(
    repo: RepoView,
    issue_number: u64,
    since_timestamp: Option<i64>,
    page_num: usize,
    any_updated: bool,
    next: Option<Seq<char>>,
) -> Option<FollowUpView> {
    match next {
        Some(url) if any_updated => Some(
            FollowUpView {
                priority: Priority::Comments,
                request: RequestView::Comments {
                    repo,
                    issue_number,
                    since_timestamp,
                    page: next_page(page_num, true),
                    url: Some(url),
                },
            },
        ),
        _ => None,
    }
}

/// Executable form of [`next_page`].
pub fn next_page_number(page_num: usize, has_next: bool) -> (r: usize)
    ensures
        r == next_page(page_num, has_next),
{
    if !has_next {
        0
    } else if page_num == usize::MAX {
        usize::MAX
    } else {
        page_num + 1
    }
}

/// Executable form of [`list_request`].
pub fn make_list_request(
    kind: ItemKind,
    list_type: ListType,
    repo: Repo,
    page: usize,
    url: Option<String>,
) -> (r: Request)
    ensures
        r@ == list_request(kind, list_type, repo@, page, opt_text(url)),
{
    match (kind, list_type) {
        (ItemKind::Pulls, ListType::New) => Request::NewPr { repo, page, url },
        (ItemKind::Pulls, ListType::Old) => Request::OldPr { repo, page, url },
        (ItemKind::Issues, ListType::New) => Request::NewIssue { repo, page, url },
        (ItemKind::Issues, ListType::Old) => Request::OldIssue { repo, page, url },
    }
}

/// Decides what to queue after the page `page_num` of a list was handled.
pub fn follow_up_list(
    kind: ItemKind,
    list_type: ListType,
    repo: Repo,
    page_num: usize,
    any_updated: bool,
    next: Option<String>,
) -> (r: Option<FollowUp>)
    ensures
        opt_follow_up(r) == list_follow_up(
            kind,
            list_type,
            repo@,
            page_num,
            any_updated,
            opt_text(next),
        ),
{
    let page = next_page_number(page_num, next.is_some());
    match list_type {
        ListType::New => {
            if any_updated {
                Some(
                    FollowUp {
                        priority: Priority::Update,
                        request: make_list_request(kind, list_type, repo, page, next),
                    },
                )
            } else {
                None
            }
        },
        ListType::Old => {
            let priority = if any_updated {
                Priority::Update
            } else {
                Priority::Index
            };
            Some(FollowUp { priority, request: make_list_request(kind, list_type, repo, page, next) })
        },
    }
}

/// Decides what to queue after the page `page_num` of an item's comments
/// was handled.
pub fn follow_up_comments(
    repo: Repo,
    issue_number: u64,
    since_timestamp: Option<i64>,
    page_num: usize,
    any_updated: bool,
    next: Option<String>,
) -> (r: Option<FollowUp>)
    ensures
        opt_follow_up(r) == comments_follow_up(
            repo@,
            issue_number,
            since_timestamp,
            page_num,
            any_updated,
            opt_text(next),
        ),
{
    match next {
        Some(url) if any_updated => Some(
            FollowUp {
                priority: Priority::Comments,
                request: Request::Comments {
                    repo,
                    issue_number,
                    since_timestamp,
                    page: next_page_number(page_num, true),
                    url: Some(url),
                },
            },
        ),
        _ => None,
    }
}

/// What handling the items of a page leaves behind.
pub struct PageHandled {
    /// The mirror afterwards.
    pub state: GithubDbView,
    /// Whether an item was classified as other than unchanged.
    pub any_updated: bool,
}

impl GithubDbView {
    /// The mirror after the pull requests `items` of `repo` were observed,
    /// in the order of the page.
    pub open spec fn process_prs(
        self,
        repo: RepoView,
        items: Seq<crate::models::PullRequest>,
        now: i64,
    ) -> PageHandled
        decreases items.len(),
    {
        if items.len() == 0 {
            PageHandled { state: self, any_updated: false }
        } else {
            let before = self.process_prs(repo, items.drop_last(), now);
            let last = before.state.process_pr(repo, items.last(), now);
            PageHandled {
                state: last.state,
                any_updated: before.any_updated || last.status != ProcessStatus::Unchanged,
            }
        }
    }

    /// The mirror after the issues `items` of `repo` were observed, in the
    /// order of the page.
    pub open spec fn process_issues(self, repo: RepoView, items: Seq<crate::models::Issue>, now: i64)
        -> PageHandled
        decreases items.len(),
    {
        if items.len() == 0 {
            PageHandled { state: self, any_updated: false }
        } else {
            let before = self.process_issues(repo, items.drop_last(), now);
            let last = before.state.process_issue(repo, items.last(), now);
            PageHandled {
                state: last.state,
                any_updated: before.any_updated || last.status != ProcessStatus::Unchanged,
            }
        }
    }

    /// The mirror after the comments `items` on the issue or pull request
    /// `issue_number` were observed, in the order of the page.
    pub open spec fn process_comments(self, items: Seq<crate::models::Comment>, issue_number: u64)
        -> PageHandled
        decreases items.len(),
    {
        if items.len() == 0 {
            PageHandled { state: self, any_updated: false }
        } else {
            let before = self.process_comments(items.drop_last(), issue_number);
            let last = before.state.process_comment(items.last(), issue_number);
            PageHandled {
                state: last.state,
                any_updated: before.any_updated || last.status != ProcessStatus::Unchanged,
            }
        }
    }

    /// The mirror after `follow_up` was queued, if there is one.
    pub open spec fn enqueue(self, follow_up: Option<FollowUpView>) -> GithubDbView {
        match follow_up {
            Some(f) => self.add_req(f.priority, f.request),
            None => self,
        }
    }

    /// The mirror after the page `page_num` of the pull requests of `repo`
    /// was handled: its items are observed, then the follow-up is queued.
    pub open spec fn handle_list_prs(
        self,
        repo: RepoView,
        page_num: usize,
        list_type: ListType,
        items: Seq<crate::models::PullRequest>,
        next: Option<Seq<char>>,
        now: i64,
    ) -> GithubDbView {
        let handled = self.process_prs(repo, items, now);
        handled.state.enqueue(
            list_follow_up(ItemKind::Pulls, list_type, repo, page_num, handled.any_updated, next),
        )
    }

    /// The mirror after the page `page_num` of the issues of `repo` was
    /// handled: its items are observed, then the follow-up is queued.
    pub open spec fn handle_list_issues(
        self,
        repo: RepoView,
        page_num: usize,
        list_type: ListType,
        items: Seq<crate::models::Issue>,
        next: Option<Seq<char>>,
        now: i64,
    ) -> GithubDbView {
        let handled = self.process_issues(repo, items, now);
        handled.state.enqueue(
            list_follow_up(ItemKind::Issues, list_type, repo, page_num, handled.any_updated, next),
        )
    }

    /// The mirror after the page `page_num` of the comments on the issue or
    /// pull request `issue_number` was handled.
    pub open spec fn handle_list_comments(
        self,
        repo: RepoView,
        issue_number: u64,
        since_timestamp: Option<i64>,
        page_num: usize,
        items: Seq<crate::models::Comment>,
        next: Option<Seq<char>>,
    ) -> GithubDbView {
        let handled = self.process_comments(items, issue_number);
        handled.state.enqueue(
            comments_follow_up(
                repo,
                issue_number,
                since_timestamp,
                page_num,
                handled.any_updated,
                next,
            ),
        )
    }

    /// The mirror after the page that the request `r` asked for came back
    /// and was handled at the time `now`. A page of another kind than the
    /// request asked for is passed over.
    pub open spec fn handle_request(self, r: RequestView, page: Page, now: i64) -> GithubDbView {
        match (r, page) {
            (RequestView::OldPr { repo, page, .. }, Page::Pulls { items, next }) => {
                self.handle_list_prs(repo, page, ListType::Old, items@, opt_text(next), now)
            },
            (RequestView::NewPr { repo, page, .. }, Page::Pulls { items, next }) => {
                self.handle_list_prs(repo, page, ListType::New, items@, opt_text(next), now)
            },
            (RequestView::OldIssue { repo, page, .. }, Page::Issues { items, next }) => {
                self.handle_list_issues(repo, page, ListType::Old, items@, opt_text(next), now)
            },
            (RequestView::NewIssue { repo, page, .. }, Page::Issues { items, next }) => {
                self.handle_list_issues(repo, page, ListType::New, items@, opt_text(next), now)
            },
            (
                RequestView::Comments { repo, issue_number, since_timestamp, page, .. },
                Page::Comments { items, next },
            ) => self.handle_list_comments(
                repo,
                issue_number,
                since_timestamp,
                page,
                items@,
                opt_text(next),
            ),
            _ => self,
        }
    }
}

impl GithubDb {
    /// Queues `follow_up`, if there is one.
    pub fn enqueue(&mut self, follow_up: Option<FollowUp>)
        ensures
            final(self)@ == old(self)@.enqueue(opt_follow_up(follow_up)),
    {
        match follow_up {
            Some(f) => {
                self.add_req(f.priority, f.request);
            },
            None => {},
        }
    }

    /// Observes the pull requests `items` of `repo` in the order of the
    /// page, and tells whether one was classified as other than unchanged.
    pub fn process_prs(&mut self, repo: &Repo, items: Vec<crate::models::PullRequest>, now: i64) -> (any_updated:
        bool)
        ensures
            final(self)@ == old(self)@.process_prs(repo@, items@, now).state,
            any_updated == old(self)@.process_prs(repo@, items@, now).any_updated,
    {
        let mut items = items;
        let ghost all = items@;
        let mut any_updated = false;
        let ghost mut k: int = 0;
        while items.len() > 0
            invariant
                0 <= k,
                k + items.len() == all.len(),
                items@ == all.skip(k),
                self@ == old(self)@.process_prs(repo@, all.take(k), now).state,
                any_updated == old(self)@.process_prs(repo@, all.take(k), now).any_updated,
            decreases items.len(),
        {
            proof {
                assert(all.take(k + 1).drop_last() =~= all.take(k));
                assert(all.take(k + 1).last() == items@[0]);
                assert(items@.remove(0) =~= all.skip(k + 1));
            }
            let item = items.remove(0);
            let status = self.process_pr_at(repo.clone(), item, now);
            any_updated = any_updated || status.changed();
            proof {
                k = k + 1;
            }
        }
        assert(all.take(k) =~= all);
        any_updated
    }

    /// Observes the issues `items` of `repo` in the order of the page, and
    /// tells whether one was classified as other than unchanged.
    pub fn process_issues(&mut self, repo: &Repo, items: Vec<crate::models::Issue>, now: i64) -> (any_updated:
        bool)
        ensures
            final(self)@ == old(self)@.process_issues(repo@, items@, now).state,
            any_updated == old(self)@.process_issues(repo@, items@, now).any_updated,
    {
        let mut items = items;
        let ghost all = items@;
        let mut any_updated = false;
        let ghost mut k: int = 0;
        while items.len() > 0
            invariant
                0 <= k,
                k + items.len() == all.len(),
                items@ == all.skip(k),
                self@ == old(self)@.process_issues(repo@, all.take(k), now).state,
                any_updated == old(self)@.process_issues(
                    repo@,
                    all.take(k),
                    now,
                ).any_updated,
            decreases items.len(),
        {
            proof {
                assert(all.take(k + 1).drop_last() =~= all.take(k));
                assert(all.take(k + 1).last() == items@[0]);
                assert(items@.remove(0) =~= all.skip(k + 1));
            }
            let item = items.remove(0);
            let status = self.process_issue_at(repo.clone(), item, now);
            any_updated = any_updated || status.changed();
            proof {
                k = k + 1;
            }
        }
        assert(all.take(k) =~= all);
        any_updated
    }

    /// Observes the comments `items` on the issue or pull request
    /// `issue_number` in the order of the page, and tells whether one was
    /// classified as other than unchanged.
    pub fn process_comments(
        &mut self,
        repo: &Repo,
        items: Vec<crate::models::Comment>,
        issue_number: u64,
    ) -> (any_updated: bool)
        ensures
            final(self)@ == old(self)@.process_comments(items@, issue_number).state,
            any_updated == old(self)@.process_comments(items@, issue_number).any_updated,
    {
        let mut items = items;
        let ghost all = items@;
        let mut any_updated = false;
        let ghost mut k: int = 0;
        while items.len() > 0
            invariant
                0 <= k,
                k + items.len() == all.len(),
                items@ == all.skip(k),
                self@ == old(self)@.process_comments(all.take(k), issue_number).state,
                any_updated == old(self)@.process_comments(
                    all.take(k),
                    issue_number,
                ).any_updated,
            decreases items.len(),
        {
            proof {
                assert(all.take(k + 1).drop_last() =~= all.take(k));
                assert(all.take(k + 1).last() == items@[0]);
                assert(items@.remove(0) =~= all.skip(k + 1));
            }
            let item = items.remove(0);
            let status = self.process_comment(repo.clone(), item, issue_number);
            any_updated = any_updated || status.changed();
            proof {
                k = k + 1;
            }
        }
        assert(all.take(k) =~= all);
        any_updated
    }

    /// Handles the page `page_num` of the pull requests of `repo`: observes
    /// its items and queues the follow-up.
    pub fn handle_list_prs(
        &mut self,
        repo: Repo,
        page_num: usize,
        list_type: ListType,
        items: Vec<crate::models::PullRequest>,
        next: Option<String>,
        now: i64,
    )
        ensures
            final(self)@ == old(self)@.handle_list_prs(
                repo@,
                page_num,
                list_type,
                items@,
                opt_text(next),
                now,
            ),
    {
        let any_updated = self.process_prs(&repo, items, now);
        self.enqueue(follow_up_list(ItemKind::Pulls, list_type, repo, page_num, any_updated, next));
    }

    /// Handles the page `page_num` of the issues of `repo`: observes its
    /// items and queues the follow-up.
    pub fn handle_list_issues(
        &mut self,
        repo: Repo,
        page_num: usize,
        list_type: ListType,
        items: Vec<crate::models::Issue>,
        next: Option<String>,
        now: i64,
    )
        ensures
            final(self)@ == old(self)@.handle_list_issues(
                repo@,
                page_num,
                list_type,
                items@,
                opt_text(next),
                now,
            ),
    {
        let any_updated = self.process_issues(&repo, items, now);
        self.enqueue(
            follow_up_list(ItemKind::Issues, list_type, repo, page_num, any_updated, next),
        );
    }

    /// Handles the page `page_num` of the comments on the issue or pull
    /// request `issue_number`: observes its items and queues the follow-up.
    pub fn handle_list_comments(
        &mut self,
        repo: Repo,
        issue_number: u64,
        since_timestamp: Option<i64>,
        page_num: usize,
        items: Vec<crate::models::Comment>,
        next: Option<String>,
    )
        ensures
            final(self)@ == old(self)@.handle_list_comments(
                repo@,
                issue_number,
                since_timestamp,
                page_num,
                items@,
                opt_text(next),
            ),
    {
        let any_updated = self.process_comments(&repo, items, issue_number);
        self.enqueue(
            follow_up_comments(repo, issue_number, since_timestamp, page_num, any_updated, next),
        );
    }

    /// Handles the page that came back for the request `r`, at the time
    /// `now`.
    pub fn handle_request_at(&mut self, r: Request, page: Page, now: i64)
        ensures
            final(self)@ == old(self)@.handle_request(r@, page, now),
            old(self)@.wf() ==> final(self)@.wf(),
    {
        proof {
            if self@.wf() {
                crate::wellformed::lemma_handle_request_wf(self@, r@, page, now);
            }
        }
        match (r, page) {
            (Request::OldPr { repo, page, .. }, Page::Pulls { items, next }) => {
                self.handle_list_prs(repo, page, ListType::Old, items, next, now)
            },
            (Request::NewPr { repo, page, .. }, Page::Pulls { items, next }) => {
                self.handle_list_prs(repo, page, ListType::New, items, next, now)
            },
            (Request::OldIssue { repo, page, .. }, Page::Issues { items, next }) => {
                self.handle_list_issues(repo, page, ListType::Old, items, next, now)
            },
            (Request::NewIssue { repo, page, .. }, Page::Issues { items, next }) => {
                self.handle_list_issues(repo, page, ListType::New, items, next, now)
            },
            (
                Request::Comments { repo, issue_number, since_timestamp, page, .. },
                Page::Comments { items, next },
            ) => self.handle_list_comments(repo, issue_number, since_timestamp, page, items, next),
            _ => {},
        }
    }

    /// Handles the page that came back for the request `r`. The time of the
    /// observation is read from the clock.
    pub fn handle_request(&mut self, r: Request, page: Page)
        ensures
            exists|now: i64| final(self)@ == #[trigger] old(self)@.handle_request(r@, page, now),
            old(self)@.wf() ==> final(self)@.wf(),
    {
        let now = crate::clock::utc_now();
        self.handle_request_at(r, page, now)
    }
}

} // verus!
