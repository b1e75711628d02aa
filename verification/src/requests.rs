//! The requests that the mirror queues: paginated list calls against the
//! upstream service, each in one budget category.

use vstd::prelude::*;
use crate::repo::{Repo, RepoView};

pub mod add;
pub mod budget;
pub mod fairness;
pub mod handle;
pub mod limits;

verus! {

/// Direction of a list traversal.
#[derive(Debug, Clone, Copy, PartialEq, Eq, Structural)]
pub enum ListType {
    /// Most recently updated first.
    New,
    /// Least recently updated first.
    Old,
}

impl ListType {
    /// The lower-case name of the traversal.
    pub fn as_str(&self) -> (r: &'static str)
        ensures
            r@ == match *self {
                ListType::New => "new"@,
                ListType::Old => "old"@,
            },
    {
        match self {
            ListType::New => "new",
            ListType::Old => "old",
        }
    }
}

/// The budget category of a request.
#[derive(Debug, Clone, Copy, PartialEq, Eq, Structural)]
pub enum Priority {
    /// High priority: refresh what changed recently.
    Update,
    /// Very low priority: visit every item once in a while.
    Index,
    /// Catch up on the comments of items that changed.
    Comments,
}

impl Priority {
    /// The number that stands for the category in the store.
    pub open spec fn spec_code(self) -> i64 {
        match self {
            Priority::Update => 0,
            Priority::Index => 1,
            Priority::Comments => 2,
        }
    }

    /// The number that stands for the category in the store.
    #[verifier::when_used_as_spec(spec_code)]
    pub fn code(self) -> (r: i64)
        ensures
            r == self.spec_code(),
    {
        match self {
            Priority::Update => 0,
            Priority::Index => 1,
            Priority::Comments => 2,
        }
    }

    /// The category that `code` stands for, if it stands for one.
    pub fn from_code(code: i64) -> (r: Option<Priority>)
        ensures
            match r {
                Some(c) => c.spec_code() == code,
                None => forall|c: Priority| c.spec_code() != code,
            },
    {
        if code == 0 {
            Some(Priority::Update)
        } else if code == 1 {
            Some(Priority::Index)
        } else if code == 2 {
            Some(Priority::Comments)
        } else {
            None
        }
    }

    /// The categories in the order in which the budget is handed out.
    pub open spec fn spec_all() -> Seq<Priority> {
        seq![Priority::Update, Priority::Comments, Priority::Index]
    }

    /// The categories in the order in which the budget is handed out.
    pub fn all() -> (r: [Priority; 3])
        ensures
            r@ == Self::spec_all(),
    {
        let r = [Priority::Update, Priority::Comments, Priority::Index];
        assert(r@ =~= Self::spec_all());
        r
    }

    /// The category's share of the budget, in tenths. The shares add up to
    /// ten tenths.
    pub open spec fn spec_tenths(self) -> u64 {
        match self {
            Priority::Update => 3,
            Priority::Comments => 6,
            Priority::Index => 1,
        }
    }

    /// The category's share of the budget, in tenths.
    #[verifier::when_used_as_spec(spec_tenths)]
    pub fn tenths(self) -> (r: u64)
        ensures
            r == self.spec_tenths(),
    {
        match self {
            Priority::Update => 3,
            Priority::Comments => 6,
            Priority::Index => 1,
        }
    }
}

/// A list call against the upstream service.
#[derive(Debug, PartialEq, Eq)]
pub enum Request {
    /// List the least recently updated pull requests. While a page still
    /// holds changes, little has been indexed, and the next page is asked
    /// for at `Update` priority; otherwise at `Index` priority, so that
    /// nothing is missed.
    OldPr { repo: Repo, page: usize, url: Option<String> },
    /// List the most recently updated pull requests. The next page is asked
    /// for as long as a page holds changes.
    NewPr { repo: Repo, page: usize, url: Option<String> },
    /// As `NewPr`, for issues.
    NewIssue { repo: Repo, page: usize, url: Option<String> },
    /// As `OldPr`, for issues.
    OldIssue { repo: Repo, page: usize, url: Option<String> },
    /// List the comments of one issue or pull request, from `since_timestamp`
    /// on if it is given.
    Comments {
        repo: Repo,
        issue_number: u64,
        since_timestamp: Option<i64>,
        page: usize,
        url: Option<String>,
    },
}

/// The text of an optional string.
pub open spec fn opt_text(s: Option<String>) -> Option<Seq<char>> {
    match s {
        Some(s) => Some(s@),
        None => None,
    }
}

/// What a [`Request`] denotes.
pub enum RequestView {
    OldPr { repo: RepoView, page: usize, url: Option<Seq<char>> },
    NewPr { repo: RepoView, page: usize, url: Option<Seq<char>> },
    NewIssue { repo: RepoView, page: usize, url: Option<Seq<char>> },
    OldIssue { repo: RepoView, page: usize, url: Option<Seq<char>> },
    Comments {
        repo: RepoView,
        issue_number: u64,
        since_timestamp: Option<i64>,
        page: usize,
        url: Option<Seq<char>>,
    },
}

impl View for Request {
    type V = RequestView;

    open spec fn view(&self) -> RequestView {
        match *self {
            Request::OldPr { repo, page, url } => RequestView::OldPr {
                repo: repo@,
                page,
                url: opt_text(url),
            },
            Request::NewPr { repo, page, url } => RequestView::NewPr {
                repo: repo@,
                page,
                url: opt_text(url),
            },
            Request::NewIssue { repo, page, url } => RequestView::NewIssue {
                repo: repo@,
                page,
                url: opt_text(url),
            },
            Request::OldIssue { repo, page, url } => RequestView::OldIssue {
                repo: repo@,
                page,
                url: opt_text(url),
            },
            Request::Comments {
                repo,
                issue_number,
                since_timestamp,
                page,
                url,
            } => RequestView::Comments {
                repo: repo@,
                issue_number,
                since_timestamp,
                page,
                url: opt_text(url),
            },
        }
    }
}

impl RequestView {
    /// The tag under which the variant is stored.
    pub open spec fn name(self) -> Seq<char> {
        match self {
            RequestView::OldPr { .. } => "OldPr"@,
            RequestView::NewPr { .. } => "NewPr"@,
            RequestView::NewIssue { .. } => "NewIssue"@,
            RequestView::OldIssue { .. } => "OldIssue"@,
            RequestView::Comments { .. } => "Comments"@,
        }
    }

    /// The repository that the request is about.
    pub open spec fn repo(self) -> RepoView {
        match self {
            RequestView::OldPr { repo, .. } => repo,
            RequestView::NewPr { repo, .. } => repo,
            RequestView::NewIssue { repo, .. } => repo,
            RequestView::OldIssue { repo, .. } => repo,
            RequestView::Comments { repo, .. } => repo,
        }
    }
}

impl RequestView {
    /// Whether this is a request for the oldest pull requests of `repo`.
    pub open spec fn is_old_pr_of(self, repo: RepoView) -> bool {
        self matches RequestView::OldPr { repo: r, .. } && r == repo
    }

    /// Whether this is a request for the oldest issues of `repo`.
    pub open spec fn is_old_issue_of(self, repo: RepoView) -> bool {
        self matches RequestView::OldIssue { repo: r, .. } && r == repo
    }
}

impl Request {
    /// Whether this is a request for the oldest pull requests of `repo`.
    pub fn is_old_pr_of(&self, repo: &Repo) -> (r: bool)
        ensures
            r == self@.is_old_pr_of(repo@),
    {
        match self {
            Request::OldPr { repo: r, .. } => r.same_as(repo),
            _ => false,
        }
    }

    /// Whether this is a request for the oldest issues of `repo`.
    pub fn is_old_issue_of(&self, repo: &Repo) -> (r: bool)
        ensures
            r == self@.is_old_issue_of(repo@),
    {
        match self {
            Request::OldIssue { repo: r, .. } => r.same_as(repo),
            _ => false,
        }
    }

    /// The tag under which the variant is stored.
    pub fn name(&self) -> (r: &'static str)
        ensures
            r@ == self@.name(),
    {
        match self {
            Request::OldPr { .. } => "OldPr",
            Request::NewPr { .. } => "NewPr",
            Request::NewIssue { .. } => "NewIssue",
            Request::OldIssue { .. } => "OldIssue",
            Request::Comments { .. } => "Comments",
        }
    }

    /// The repository that the request is about.
    pub fn repo(&self) -> (r: &Repo)
        ensures
            r@ == self@.repo(),
    {
        match self {
            Request::OldPr { repo, .. } => repo,
            Request::NewPr { repo, .. } => repo,
            Request::NewIssue { repo, .. } => repo,
            Request::OldIssue { repo, .. } => repo,
            Request::Comments { repo, .. } => repo,
        }
    }
}

impl Clone for Request {
    fn clone(&self) -> (r: Self)
        ensures
            r == *self,
    {
        match self {
            Request::OldPr { repo, page, url } => Request::OldPr {
                repo: repo.clone(),
                page: *page,
                url: clone_opt_string(url),
            },
            Request::NewPr { repo, page, url } => Request::NewPr {
                repo: repo.clone(),
                page: *page,
                url: clone_opt_string(url),
            },
            Request::NewIssue { repo, page, url } => Request::NewIssue {
                repo: repo.clone(),
                page: *page,
                url: clone_opt_string(url),
            },
            Request::OldIssue { repo, page, url } => Request::OldIssue {
                repo: repo.clone(),
                page: *page,
                url: clone_opt_string(url),
            },
            Request::Comments { repo, issue_number, since_timestamp, page, url } => {
                Request::Comments {
                    repo: repo.clone(),
                    issue_number: *issue_number,
                    since_timestamp: *since_timestamp,
                    page: *page,
                    url: clone_opt_string(url),
                }
            },
        }
    }
}

/// A copy of an optional string.
pub fn clone_opt_string(s: &Option<String>) -> (r: Option<String>)
    ensures
        r == *s,
{
    match s {
        Some(s) => Some(s.clone()),
        None => None,
    }
}

/// The five tags are pairwise different, so a tag determines the variant.
pub proof fn lemma_names_distinct()
    ensures
        "OldPr"@ != "NewPr"@,
        "OldPr"@ != "NewIssue"@,
        "OldPr"@ != "OldIssue"@,
        "OldPr"@ != "Comments"@,
        "NewPr"@ != "NewIssue"@,
        "NewPr"@ != "OldIssue"@,
        "NewPr"@ != "Comments"@,
        "NewIssue"@ != "OldIssue"@,
        "NewIssue"@ != "Comments"@,
        "OldIssue"@ != "Comments"@,
{
    reveal_strlit("OldPr");
    reveal_strlit("NewPr");
    reveal_strlit("NewIssue");
    reveal_strlit("OldIssue");
    reveal_strlit("Comments");
    assert("OldPr"@[0] == 'O' && "OldPr"@[3] == 'P' && "OldPr"@.len() == 5);
    assert("NewPr"@[0] == 'N' && "NewPr"@[3] == 'P' && "NewPr"@.len() == 5);
    assert("NewIssue"@[0] == 'N' && "NewIssue"@.len() == 8);
    assert("OldIssue"@[0] == 'O' && "OldIssue"@.len() == 8);
    assert("Comments"@[0] == 'C' && "Comments"@.len() == 8);
}

} // verus!
