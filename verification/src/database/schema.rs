//! The tables of the store.
//!
//! A table is a sequence of rows, and a row is referred to by its index.
//! Rows are never removed from the entity tables, so such a reference stays
//! valid; only queue entries and links are deleted. Flags are `bool`, and
//! timestamps are seconds since the epoch.

use vstd::prelude::*;
use crate::repo::RepoView;
use crate::requests::{opt_text, RequestView};
use crate::table::unique_by;

verus! {

/// The version of the layout that this library reads and writes.
pub const VERSION: i64 = 1;

/// The oldest version of the layout that can be brought up to date.
pub const OLDEST_VERSION: i64 = 0;

/// Why a store cannot be opened.
#[derive(Debug, Clone, Copy, PartialEq, Eq, Structural)]
pub enum MigrateError {
    /// The store is older than the oldest layout that can be migrated.
    Older,
    /// The store was written by a newer version of the layout.
    Newer,
}

/// The number of versions that a store of the version `stored` has to be
/// brought forward; a store that is too old or newer than [`VERSION`] is
/// refused. Stores are never brought backward.
pub fn migrate(stored: i64) -> (r: Result<u64, MigrateError>)
    ensures
        match r {
            Ok(steps) => OLDEST_VERSION <= stored <= VERSION && steps == VERSION - stored,
            Err(MigrateError::Older) => stored < OLDEST_VERSION,
            Err(MigrateError::Newer) => stored > VERSION,
        },
{
    if stored < OLDEST_VERSION {
        Err(MigrateError::Older)
    } else if stored > VERSION {
        Err(MigrateError::Newer)
    } else {
        Ok((VERSION - stored) as u64)
    }
}

/// The lock reason of a row that was written before lock reasons were
/// stored, when a row only told whether the item was locked: none for an
/// item that was not locked, the empty text for one that was.
pub fn lock_reason_from_locked(locked: bool) -> (r: Option<String>)
    ensures
        opt_text(r) == if locked {
            Some(Seq::<char>::empty())
        } else {
            None
        },
{
    if locked {
        Some(String::new())
    } else {
        None
    }
}

/// What each row of `rows` denotes.
pub open spec fn views<T: View>(rows: Seq<T>) -> Seq<T::V> {
    Seq::new(rows.len(), |i: int| rows[i]@)
}

/// A key and its value; the version of the schema is kept here.
#[derive(Debug, Clone, PartialEq, Eq)]
pub struct Config {
    /// Unique.
    pub key: String,
    pub value: String,
}

pub struct ConfigView {
    pub key: Seq<char>,
    pub value: Seq<char>,
}

impl View for Config {
    type V = ConfigView;

    open spec fn view(&self) -> ConfigView {
        ConfigView { key: self.key@, value: self.value@ }
    }
}

/// An entry of the request queue.
#[derive(Debug, Clone, PartialEq, Eq)]
pub struct Request {
    /// The code of the budget category.
    pub category: i64,
    /// Unique; entries leave the queue in the order of their numbers.
    pub sequence_number: i64,
    /// The request, or `None` where what is stored cannot be read as one.
    pub data: Option<crate::requests::Request>,
    /// The tag of the request's variant.
    pub name: String,
}

pub struct RequestRow {
    pub category: i64,
    pub sequence_number: i64,
    pub data: Option<RequestView>,
    pub name: Seq<char>,
}

impl View for Request {
    type V = RequestRow;

    open spec fn view(&self) -> RequestRow {
        RequestRow {
            category: self.category,
            sequence_number: self.sequence_number,
            data: match self.data {
                Some(r) => Some(r@),
                None => None,
            },
            name: self.name@,
        }
    }
}

/// A user account.
#[derive(Debug, Clone, PartialEq, Eq)]
pub struct User {
    /// Unique.
    pub github_id: i64,
    pub name: String,
    pub display_name: String,
}

pub struct UserView {
    pub github_id: i64,
    pub name: Seq<char>,
    pub display_name: Seq<char>,
}

impl View for User {
    type V = UserView;

    open spec fn view(&self) -> UserView {
        UserView {
            github_id: self.github_id,
            name: self.name@,
            display_name: self.display_name@,
        }
    }
}

/// A repository; unique by organization and name.
#[derive(Debug, Clone, PartialEq, Eq)]
pub struct Repo {
    pub organization: String,
    pub name: String,
}

impl View for Repo {
    type V = RepoView;

    open spec fn view(&self) -> RepoView {
        RepoView { organization: self.organization@, name: self.name@ }
    }
}

/// What issues and pull requests have in common.
#[derive(Debug, Clone, PartialEq, Eq)]
pub struct IssuePullRequestShared {
    /// Unique.
    pub number: i64,
    pub title: String,
    pub description: String,
    /// A row of the user table.
    pub author: usize,
    pub created_timestamp: i64,
    pub updated_timestamp: i64,
    /// `Some` while the item is closed.
    pub closed_at_timestamp: Option<i64>,
    /// `None` while the item is not locked; the empty text where it is
    /// locked and no reason was given.
    pub lock_reason: Option<String>,
    /// A row of the repository table.
    pub repo: usize,
    pub state_reason: Option<i64>,
    /// A row of the user table.
    pub closed_by: Option<usize>,
    pub author_association: String,
}

pub struct SharedView {
    pub number: i64,
    pub title: Seq<char>,
    pub description: Seq<char>,
    pub author: usize,
    pub created_timestamp: i64,
    pub updated_timestamp: i64,
    pub closed_at_timestamp: Option<i64>,
    pub lock_reason: Option<Seq<char>>,
    pub repo: usize,
    pub state_reason: Option<i64>,
    pub closed_by: Option<usize>,
    pub author_association: Seq<char>,
}

impl View for IssuePullRequestShared {
    type V = SharedView;

    open spec fn view(&self) -> SharedView {
        SharedView {
            number: self.number,
            title: self.title@,
            description: self.description@,
            author: self.author,
            created_timestamp: self.created_timestamp,
            updated_timestamp: self.updated_timestamp,
            closed_at_timestamp: self.closed_at_timestamp,
            lock_reason: opt_text(self.lock_reason),
            repo: self.repo,
            state_reason: self.state_reason,
            closed_by: self.closed_by,
            author_association: self.author_association@,
        }
    }
}

/// A user is assigned to an issue or pull request; unique by the pair.
#[derive(Debug, Clone, Copy, PartialEq, Eq, Structural)]
pub struct Assignment {
    /// A row of the user table.
    pub user: usize,
    /// A row of the shared table.
    pub issue_or_pr: usize,
    /// Set while the link awaits confirmation by the current observation.
    pub outdated: bool,
}

/// What only pull requests have.
#[derive(Debug, Clone, PartialEq, Eq)]
pub struct PullRequest {
    /// A row of the shared table; unique.
    pub shared: usize,
    pub draft: bool,
    pub maintainer_can_modify: bool,
    pub num_additions: i64,
    pub num_deletions: i64,
    pub num_changed_files: i64,
    pub num_commits: i64,
    pub merged_at_timestamp: Option<i64>,
    pub merge_commit_sha: Option<String>,
    /// A row of the user table.
    pub merged_by: Option<usize>,
    pub head_sha: Option<String>,
    pub base_sha: Option<String>,
    pub mergeable: bool,
    pub rebaseable: bool,
    pub mergeable_state: i64,
}

pub struct PullRequestView {
    pub shared: usize,
    pub draft: bool,
    pub maintainer_can_modify: bool,
    pub num_additions: i64,
    pub num_deletions: i64,
    pub num_changed_files: i64,
    pub num_commits: i64,
    pub merged_at_timestamp: Option<i64>,
    pub merge_commit_sha: Option<Seq<char>>,
    pub merged_by: Option<usize>,
    pub head_sha: Option<Seq<char>>,
    pub base_sha: Option<Seq<char>>,
    pub mergeable: bool,
    pub rebaseable: bool,
    pub mergeable_state: i64,
}

impl View for PullRequest {
    type V = PullRequestView;

    open spec fn view(&self) -> PullRequestView {
        PullRequestView {
            shared: self.shared,
            draft: self.draft,
            maintainer_can_modify: self.maintainer_can_modify,
            num_additions: self.num_additions,
            num_deletions: self.num_deletions,
            num_changed_files: self.num_changed_files,
            num_commits: self.num_commits,
            merged_at_timestamp: self.merged_at_timestamp,
            merge_commit_sha: opt_text(self.merge_commit_sha),
            merged_by: self.merged_by,
            head_sha: opt_text(self.head_sha),
            base_sha: opt_text(self.base_sha),
            mergeable: self.mergeable,
            rebaseable: self.rebaseable,
            mergeable_state: self.mergeable_state,
        }
    }
}

/// Marks a row of the shared table as an issue.
#[derive(Debug, Clone, Copy, PartialEq, Eq, Structural)]
pub struct Issue {
    /// A row of the shared table; unique.
    pub shared: usize,
}

/// One item refers to another; unique by the pair.
#[derive(Debug, Clone, Copy, PartialEq, Eq, Structural)]
pub struct IssuePrLink {
    /// A row of the shared table.
    pub from: usize,
    /// A row of the shared table.
    pub to: usize,
    pub pr_closes_issue: bool,
}

/// An issue or pull request carries a label; unique by the pair.
#[derive(Debug, Clone, Copy, PartialEq, Eq, Structural)]
pub struct LabelLink {
    /// A row of the shared table.
    pub issue_or_pr: usize,
    /// A row of the label table.
    pub label: usize,
    /// Set while the link awaits confirmation by the current observation.
    pub outdated: bool,
}

/// A user is asked to review a pull request; unique by the pair.
#[derive(Debug, Clone, Copy, PartialEq, Eq, Structural)]
pub struct ReviewRequest {
    /// A row of the user table.
    pub user: usize,
    /// A row of the pull request table.
    pub pr: usize,
    /// Set while the link awaits confirmation by the current observation.
    pub outdated: bool,
}

/// A label.
#[derive(Debug, Clone, PartialEq, Eq)]
pub struct Label {
    /// Unique.
    pub name: String,
    pub description: String,
    pub color: String,
}

pub struct LabelView {
    pub name: Seq<char>,
    pub description: Seq<char>,
    pub color: Seq<char>,
}

impl View for Label {
    type V = LabelView;

    open spec fn view(&self) -> LabelView {
        LabelView { name: self.name@, description: self.description@, color: self.color@ }
    }
}

/// A comment on an issue or pull request.
#[derive(Debug, Clone, PartialEq, Eq)]
pub struct Comment {
    /// Unique.
    pub comment_id: i64,
    /// A row of the user table.
    pub author: usize,
    pub text: String,
    /// A row of the shared table.
    pub issue_or_pr: usize,
    pub created_timestamp: i64,
    pub updated_timestamp: i64,
}

pub struct CommentView {
    pub comment_id: i64,
    pub author: usize,
    pub text: Seq<char>,
    pub issue_or_pr: usize,
    pub created_timestamp: i64,
    pub updated_timestamp: i64,
}

impl View for Comment {
    type V = CommentView;

    open spec fn view(&self) -> CommentView {
        CommentView {
            comment_id: self.comment_id,
            author: self.author,
            text: self.text@,
            issue_or_pr: self.issue_or_pr,
            created_timestamp: self.created_timestamp,
            updated_timestamp: self.updated_timestamp,
        }
    }
}

/// The store: one sequence of rows per table.
#[derive(Debug, Clone, PartialEq, Eq)]
pub struct Database {
    pub configs: Vec<Config>,
    pub requests: Vec<Request>,
    pub users: Vec<User>,
    pub repos: Vec<Repo>,
    pub shared: Vec<IssuePullRequestShared>,
    pub assignments: Vec<Assignment>,
    pub pull_requests: Vec<PullRequest>,
    pub issues: Vec<Issue>,
    pub issue_pr_links: Vec<IssuePrLink>,
    pub label_links: Vec<LabelLink>,
    pub review_requests: Vec<ReviewRequest>,
    pub labels: Vec<Label>,
    pub comments: Vec<Comment>,
}

/// What a [`Database`] denotes.
pub struct DatabaseView {
    pub configs: Seq<ConfigView>,
    pub requests: Seq<RequestRow>,
    pub users: Seq<UserView>,
    pub repos: Seq<RepoView>,
    pub shared: Seq<SharedView>,
    pub assignments: Seq<Assignment>,
    pub pull_requests: Seq<PullRequestView>,
    pub issues: Seq<Issue>,
    pub issue_pr_links: Seq<IssuePrLink>,
    pub label_links: Seq<LabelLink>,
    pub review_requests: Seq<ReviewRequest>,
    pub labels: Seq<LabelView>,
    pub comments: Seq<CommentView>,
}

impl View for Database {
    type V = DatabaseView;

    open spec fn view(&self) -> DatabaseView {
        DatabaseView {
            configs: views(self.configs@),
            requests: views(self.requests@),
            users: views(self.users@),
            repos: views(self.repos@),
            shared: views(self.shared@),
            assignments: self.assignments@,
            pull_requests: views(self.pull_requests@),
            issues: self.issues@,
            issue_pr_links: self.issue_pr_links@,
            label_links: self.label_links@,
            review_requests: self.review_requests@,
            labels: views(self.labels@),
            comments: views(self.comments@),
        }
    }
}

impl DatabaseView {
    /// The store without a row.
    pub open spec fn empty() -> DatabaseView {
        DatabaseView {
            configs: Seq::empty(),
            requests: Seq::empty(),
            users: Seq::empty(),
            repos: Seq::empty(),
            shared: Seq::empty(),
            assignments: Seq::empty(),
            pull_requests: Seq::empty(),
            issues: Seq::empty(),
            issue_pr_links: Seq::empty(),
            label_links: Seq::empty(),
            review_requests: Seq::empty(),
            labels: Seq::empty(),
            comments: Seq::empty(),
        }
    }

    /// Every column that the schema declares unique is so.
    pub open spec fn keys_unique(self) -> bool {
        &&& unique_by(self.configs, |r: ConfigView| r.key)
        &&& unique_by(self.requests, |r: RequestRow| r.sequence_number)
        &&& unique_by(self.users, |r: UserView| r.github_id)
        &&& unique_by(self.repos, |r: RepoView| r)
        &&& unique_by(self.shared, |r: SharedView| r.number)
        &&& unique_by(self.assignments, |r: Assignment| (r.user, r.issue_or_pr))
        &&& unique_by(self.pull_requests, |r: PullRequestView| r.shared)
        &&& unique_by(self.issues, |r: Issue| r.shared)
        &&& unique_by(self.issue_pr_links, |r: IssuePrLink| (r.from, r.to))
        &&& unique_by(self.label_links, |r: LabelLink| (r.issue_or_pr, r.label))
        &&& unique_by(self.review_requests, |r: ReviewRequest| (r.user, r.pr))
        &&& unique_by(self.labels, |r: LabelView| r.name)
        &&& unique_by(self.comments, |r: CommentView| r.comment_id)
    }

    /// Every reference to a row names a row that exists.
    pub open spec fn references_valid(self) -> bool {
        &&& forall|i: int|
            0 <= i < self.shared.len() ==> {
                let r = #[trigger] self.shared[i];
                &&& r.author < self.users.len()
                &&& r.repo < self.repos.len()
                &&& r.closed_by matches Some(u) ==> u < self.users.len()
            }
        &&& forall|i: int|
            0 <= i < self.assignments.len() ==> {
                let r = #[trigger] self.assignments[i];
                r.user < self.users.len() && r.issue_or_pr < self.shared.len()
            }
        &&& forall|i: int|
            0 <= i < self.pull_requests.len() ==> {
                let r = #[trigger] self.pull_requests[i];
                &&& r.shared < self.shared.len()
                &&& r.merged_by matches Some(u) ==> u < self.users.len()
            }
        &&& forall|i: int|
            0 <= i < self.issues.len() ==> (#[trigger] self.issues[i]).shared < self.shared.len()
        &&& forall|i: int|
            0 <= i < self.issue_pr_links.len() ==> {
                let r = #[trigger] self.issue_pr_links[i];
                r.from < self.shared.len() && r.to < self.shared.len()
            }
        &&& forall|i: int|
            0 <= i < self.label_links.len() ==> {
                let r = #[trigger] self.label_links[i];
                r.issue_or_pr < self.shared.len() && r.label < self.labels.len()
            }
        &&& forall|i: int|
            0 <= i < self.review_requests.len() ==> {
                let r = #[trigger] self.review_requests[i];
                r.user < self.users.len() && r.pr < self.pull_requests.len()
            }
        &&& forall|i: int|
            0 <= i < self.comments.len() ==> {
                let r = #[trigger] self.comments[i];
                r.author < self.users.len() && r.issue_or_pr < self.shared.len()
            }
    }

    /// The tag of every queue entry that can be read is that of its request.
    pub open spec fn names_match(self) -> bool {
        forall|i: int|
            0 <= i < self.requests.len() ==> {
                let r = #[trigger] self.requests[i];
                r.data matches Some(d) ==> r.name == d.name()
            }
    }

    /// The store is well formed.
    pub open spec fn wf(self) -> bool {
        &&& self.keys_unique()
        &&& self.references_valid()
        &&& self.names_match()
    }
}

impl Database {
    /// The store without a row.
    pub fn new() -> (db: Database)
        ensures
            db@ == DatabaseView::empty(),
            db@.wf(),
    {
        let db = Database {
            configs: Vec::new(),
            requests: Vec::new(),
            users: Vec::new(),
            repos: Vec::new(),
            shared: Vec::new(),
            assignments: Vec::new(),
            pull_requests: Vec::new(),
            issues: Vec::new(),
            issue_pr_links: Vec::new(),
            label_links: Vec::new(),
            review_requests: Vec::new(),
            labels: Vec::new(),
            comments: Vec::new(),
        };
        assert(db@.configs =~= Seq::empty());
        assert(db@.requests =~= Seq::empty());
        assert(db@.users =~= Seq::empty());
        assert(db@.repos =~= Seq::empty());
        assert(db@.shared =~= Seq::empty());
        assert(db@.pull_requests =~= Seq::empty());
        assert(db@.labels =~= Seq::empty());
        assert(db@.comments =~= Seq::empty());
        db
    }
}

} // verus!
