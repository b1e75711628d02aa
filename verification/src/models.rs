//! What the upstream service reports of users, labels, comments, issues and
//! pull requests: the attributes that the mirror stores, as plain values.
//! Timestamps are seconds since the epoch.

use vstd::prelude::*;

verus! {

/// A user account as the upstream reports it.
#[derive(Debug, PartialEq, Eq)]
pub struct Author {
    pub id: u64,
    pub login: String,
    pub name: Option<String>,
}

impl Clone for Author {
    fn clone(&self) -> (r: Self)
        ensures
            r == *self,
    {
        Author {
            id: self.id,
            login: self.login.clone(),
            name: crate::requests::clone_opt_string(&self.name),
        }
    }
}

impl Author {
    /// The name to show for the user: the given name, or else the login.
    pub open spec fn display_name(self) -> Seq<char> {
        match self.name {
            Some(name) => name@,
            None => self.login@,
        }
    }
}

/// A label as the upstream reports it.
#[derive(Debug, PartialEq, Eq)]
pub struct Label {
    pub name: String,
    pub description: Option<String>,
    pub color: String,
}

impl Clone for Label {
    fn clone(&self) -> (r: Self)
        ensures
            r == *self,
    {
        Label {
            name: self.name.clone(),
            description: crate::requests::clone_opt_string(&self.description),
            color: self.color.clone(),
        }
    }
}

/// A comment as the upstream reports it.
#[derive(Debug, PartialEq, Eq)]
pub struct Comment {
    pub id: u64,
    pub body: Option<String>,
    pub user: Author,
    pub created_at: i64,
    pub updated_at: Option<i64>,
}

/// Whether an issue or pull request is open.
#[derive(Debug, Clone, Copy, PartialEq, Eq, Structural)]
pub enum IssueState {
    Open,
    Closed,
}

/// Why an issue is in its state.
#[derive(Debug, Clone, Copy, PartialEq, Eq, Structural)]
pub enum IssueStateReason {
    Completed,
    NotPlanned,
    Reopened,
    Duplicate,
}

impl IssueStateReason {
    /// The number under which the reason is stored.
    pub open spec fn spec_code(self) -> i64 {
        match self {
            IssueStateReason::Completed => 0,
            IssueStateReason::NotPlanned => 1,
            IssueStateReason::Reopened => 2,
            IssueStateReason::Duplicate => 3,
        }
    }

    /// The number under which the reason is stored.
    #[verifier::when_used_as_spec(spec_code)]
    pub fn code(self) -> (r: i64)
        ensures
            r == self.spec_code(),
    {
        match self {
            IssueStateReason::Completed => 0,
            IssueStateReason::NotPlanned => 1,
            IssueStateReason::Reopened => 2,
            IssueStateReason::Duplicate => 3,
        }
    }
}

/// Whether and how a pull request can be merged.
#[derive(Debug, Clone, Copy, PartialEq, Eq, Structural)]
pub enum MergeableState {
    Behind,
    Blocked,
    Clean,
    Dirty,
    Draft,
    HasHooks,
    Unknown,
    Unstable,
}

impl MergeableState {
    /// The number under which the state is stored.
    pub open spec fn spec_code(self) -> i64 {
        match self {
            MergeableState::Behind => 0,
            MergeableState::Blocked => 1,
            MergeableState::Clean => 2,
            MergeableState::Dirty => 3,
            MergeableState::Draft => 4,
            MergeableState::HasHooks => 5,
            MergeableState::Unknown => 6,
            MergeableState::Unstable => 7,
        }
    }

    /// The number under which the state is stored.
    #[verifier::when_used_as_spec(spec_code)]
    pub fn code(self) -> (r: i64)
        ensures
            r == self.spec_code(),
    {
        match self {
            MergeableState::Behind => 0,
            MergeableState::Blocked => 1,
            MergeableState::Clean => 2,
            MergeableState::Dirty => 3,
            MergeableState::Draft => 4,
            MergeableState::HasHooks => 5,
            MergeableState::Unknown => 6,
            MergeableState::Unstable => 7,
        }
    }
}

/// How the author of an issue or pull request relates to the repository.
#[derive(Debug, PartialEq, Eq)]
pub enum AuthorAssociation {
    Collaborator,
    Contributor,
    FirstTimer,
    FirstTimeContributor,
    Mannequin,
    Member,
    /// No relation; stored as `None`.
    Unrelated,
    Owner,
    /// A relation that the upstream names and this library does not know.
    Other(String),
}

impl AuthorAssociation {
    /// The text under which the relation is stored: its name where it is
    /// known, the upstream's own word where it is not.
    pub open spec fn text(self) -> Seq<char> {
        match self {
            AuthorAssociation::Collaborator => "Collaborator"@,
            AuthorAssociation::Contributor => "Contributor"@,
            AuthorAssociation::FirstTimer => "FirstTimer"@,
            AuthorAssociation::FirstTimeContributor => "FirstTimeContributor"@,
            AuthorAssociation::Mannequin => "Mannequin"@,
            AuthorAssociation::Member => "Member"@,
            AuthorAssociation::Unrelated => "None"@,
            AuthorAssociation::Owner => "Owner"@,
            AuthorAssociation::Other(o) => o@,
        }
    }

    /// The text under which the relation is stored.
    pub fn into_string(self) -> (r: String)
        ensures
            r@ == self.text(),
    {
        match self {
            AuthorAssociation::Collaborator => "Collaborator".to_owned(),
            AuthorAssociation::Contributor => "Contributor".to_owned(),
            AuthorAssociation::FirstTimer => "FirstTimer".to_owned(),
            AuthorAssociation::FirstTimeContributor => "FirstTimeContributor".to_owned(),
            AuthorAssociation::Mannequin => "Mannequin".to_owned(),
            AuthorAssociation::Member => "Member".to_owned(),
            AuthorAssociation::Unrelated => "None".to_owned(),
            AuthorAssociation::Owner => "Owner".to_owned(),
            AuthorAssociation::Other(o) => o,
        }
    }
}

/// An issue as the upstream reports it.
#[derive(Debug, PartialEq, Eq)]
pub struct Issue {
    pub number: u64,
    pub state: IssueState,
    pub state_reason: Option<IssueStateReason>,
    pub title: String,
    pub body: Option<String>,
    pub user: Author,
    pub labels: Vec<Label>,
    pub assignees: Vec<Author>,
    pub author_association: Option<AuthorAssociation>,
    pub locked: bool,
    pub active_lock_reason: Option<String>,
    pub closed_at: Option<i64>,
    pub closed_by: Option<Author>,
    pub created_at: i64,
    pub updated_at: i64,
}

/// A pull request as the upstream reports it.
#[derive(Debug, PartialEq, Eq)]
pub struct PullRequest {
    pub number: u64,
    pub state: Option<IssueState>,
    pub locked: bool,
    pub maintainer_can_modify: bool,
    pub title: Option<String>,
    pub user: Option<Author>,
    pub body: Option<String>,
    pub labels: Option<Vec<Label>>,
    pub active_lock_reason: Option<String>,
    pub created_at: Option<i64>,
    pub updated_at: Option<i64>,
    pub closed_at: Option<i64>,
    pub mergeable: Option<bool>,
    pub mergeable_state: Option<MergeableState>,
    pub merged_at: Option<i64>,
    pub merged_by: Option<Author>,
    pub merge_commit_sha: Option<String>,
    pub assignee: Option<Author>,
    pub assignees: Option<Vec<Author>>,
    pub requested_reviewers: Option<Vec<Author>>,
    pub rebaseable: Option<bool>,
    pub head_sha: String,
    pub base_sha: String,
    pub author_association: Option<AuthorAssociation>,
    pub draft: Option<bool>,
    pub additions: Option<u64>,
    pub deletions: Option<u64>,
    pub changed_files: Option<u64>,
    pub commits: Option<u64>,
}

} // verus!
