//! Bringing an observation into the store.
//!
//! Each `ensure_*` routine looks a row up by its unique key, inserts it where
//! it is missing and writes the observed attributes through where it is
//! there. It lowers the classification that it is handed: to `New` where it
//! inserts, to `Updated` where a tracked attribute differs.

use vstd::prelude::*;
use crate::database::schema::{
    Comment, CommentView, Database, DatabaseView, Issue, IssuePullRequestShared, Label, LabelView,
    PullRequest, PullRequestView, Repo, SharedView, User, UserView,
};
use crate::models::{Author, AuthorAssociation, IssueStateReason, MergeableState};
use crate::repo::RepoView;
use crate::requests::opt_text;
use crate::status::ProcessStatus;
use crate::table::{first_index, lemma_first_index, lemma_first_index_is, lemma_first_index_none};

verus! {

/// What an `ensure_*` routine leaves behind.
pub struct Ensured {
    /// The store afterwards.
    pub db: DatabaseView,
    /// The classification afterwards.
    pub status: ProcessStatus,
    /// The row that now holds the observation.
    pub row: usize,
}

/// The rows of the user table with the identifier `github_id`.
pub open spec fn user_with_id(github_id: i64) -> spec_fn(UserView) -> bool {
    |u: UserView| u.github_id == github_id
}

/// The row that stands for `author`.
pub open spec fn user_row(author: Author) -> UserView {
    UserView {
        github_id: author.id as i64,
        name: author.login@,
        display_name: author.display_name(),
    }
}

impl DatabaseView {
    /// The store after `author` was observed: the user's row holds the
    /// observed login and display name, and is new if there was none with the
    /// user's identifier.
    pub open spec fn ensure_user_exists(self, status: ProcessStatus, author: Author) -> Ensured {
        match first_index(self.users, user_with_id(author.id as i64)) {
            Some(i) => Ensured {
                db: DatabaseView { users: self.users.update(i, user_row(author)), ..self },
                status,
                row: i as usize,
            },
            None => Ensured {
                db: DatabaseView { users: self.users.push(user_row(author)), ..self },
                status: status.min(ProcessStatus::New),
                row: self.users.len() as usize,
            },
        }
    }
}

impl Database {
    /// The first row of the user table with the identifier `github_id`.
    pub fn find_user(&self, github_id: i64) -> (r: Option<usize>)
        ensures
            match r {
                Some(i) => i < self.users.len() && first_index(
                    self@.users,
                    user_with_id(github_id),
                ) == Some(i as int),
                None => first_index(self@.users, user_with_id(github_id)) is None,
            },
    {
        let mut i: usize = 0;
        while i < self.users.len()
            invariant
                i <= self.users.len(),
                forall|j: int| 0 <= j < i ==> !user_with_id(github_id)(#[trigger] self@.users[j]),
            decreases self.users.len() - i,
        {
            if self.users[i].github_id == github_id {
                proof {
                    lemma_first_index_is(self@.users, user_with_id(github_id), i as int);
                }
                return Some(i);
            }
            i += 1;
        }
        proof {
            lemma_first_index_none(self@.users, user_with_id(github_id));
        }
        None
    }

    /// Makes sure that the user table holds `author`, with the observed login
    /// and display name.
    pub fn ensure_user_exists(&mut self, status: &mut ProcessStatus, author: Author) -> (row: usize)
        ensures
            final(self)@ == old(self)@.ensure_user_exists(*old(status), author).db,
            *final(status) == old(self)@.ensure_user_exists(*old(status), author).status,
            row == old(self)@.ensure_user_exists(*old(status), author).row,
            old(self)@.wf() ==> final(self)@.wf() && row < final(self)@.users.len(),
    {
        proof {
            if self@.wf() {
                crate::database::wellformed::lemma_ensure_user_wf(self@, *status, author);
            }
        }
        let github_id = #[verifier::truncate] (author.id as i64);
        let Author { id: _, login, name } = author;
        let display_name = match name {
            Some(name) => name,
            None => login.clone(),
        };
        match self.find_user(github_id) {
            Some(i) => {
                self.users[i].name = login;
                self.users[i].display_name = display_name;
                proof {
                    lemma_first_index(old(self)@.users, user_with_id(github_id));
                }
                assert(self@.users =~= old(self)@.users.update(i as int, user_row(author)));
                i
            },
            None => {
                let row = self.users.len();
                self.users.push(User { github_id, name: login, display_name });
                status.update(ProcessStatus::New);
                assert(self@.users =~= old(self)@.users.push(user_row(author)));
                row
            },
        }
    }
}

/// The text of an optional string, empty where there is none.
pub open spec fn text_or_empty(s: Option<String>) -> Seq<char> {
    match s {
        Some(s) => s@,
        None => Seq::empty(),
    }
}

/// The string, or the empty string where there is none.
pub fn string_or_empty(s: Option<String>) -> (r: String)
    ensures
        r@ == text_or_empty(s),
{
    match s {
        Some(s) => s,
        None => String::new(),
    }
}

/// The rows of the label table with the name `name`.
pub open spec fn label_with_name(name: Seq<char>) -> spec_fn(LabelView) -> bool {
    |l: LabelView| l.name == name
}

/// The rows of the repository table that stand for `repo`.
pub open spec fn repo_is(repo: RepoView) -> spec_fn(RepoView) -> bool {
    |r: RepoView| r == repo
}

/// The rows of the comment table with the identifier `comment_id`.
pub open spec fn comment_with_id(comment_id: i64) -> spec_fn(CommentView) -> bool {
    |c: CommentView| c.comment_id == comment_id
}

/// The rows of the shared table with the number `number`.
pub open spec fn shared_with_number(number: i64) -> spec_fn(SharedView) -> bool {
    |s: SharedView| s.number == number
}

/// The rows of the pull request table that extend the row `shared`.
pub open spec fn pr_of(shared: usize) -> spec_fn(PullRequestView) -> bool {
    |p: PullRequestView| p.shared == shared
}

/// The rows of the issue table that extend the row `shared`.
pub open spec fn issue_of(shared: usize) -> spec_fn(Issue) -> bool {
    |i: Issue| i.shared == shared
}

/// What is found in, or added to, the repository table.
pub struct Found {
    /// The store afterwards.
    pub db: DatabaseView,
    /// The row that was found or added.
    pub row: usize,
}

/// The value to store for an attribute that the upstream may leave out:
/// the observed value, or else what is stored.
pub open spec fn observed_or<T>(observed: Option<T>, stored: T) -> T {
    match observed {
        Some(v) => v,
        None => stored,
    }
}

/// The optional value to store for an attribute that is never cleared:
/// the observed value, or else what is stored.
pub open spec fn observed_or_kept<T>(observed: Option<T>, stored: Option<T>) -> Option<T> {
    match observed {
        Some(v) => Some(v),
        None => stored,
    }
}

impl DatabaseView {
    /// The store after `label` was observed. A new row takes the empty text
    /// where no description was observed; a row that is there keeps its
    /// description then.
    pub open spec fn ensure_label_exists(
        self,
        status: ProcessStatus,
        label: crate::models::Label,
    ) -> Ensured {
        match first_index(self.labels, label_with_name(label.name@)) {
            Some(i) => Ensured {
                db: DatabaseView {
                    labels: self.labels.update(
                        i,
                        LabelView {
                            name: label.name@,
                            description: observed_or(
                                opt_text(label.description),
                                self.labels[i].description,
                            ),
                            color: label.color@,
                        },
                    ),
                    ..self
                },
                status,
                row: i as usize,
            },
            None => Ensured {
                db: DatabaseView {
                    labels: self.labels.push(
                        LabelView {
                            name: label.name@,
                            description: text_or_empty(label.description),
                            color: label.color@,
                        },
                    ),
                    ..self
                },
                status: status.min(ProcessStatus::New),
                row: self.labels.len() as usize,
            },
        }
    }

    /// The store with a row for `repo`: the first that stands for it, or a
    /// new one.
    pub open spec fn find_or_insert_repo(self, repo: RepoView) -> Found {
        match first_index(self.repos, repo_is(repo)) {
            Some(i) => Found { db: self, row: i as usize },
            None => Found {
                db: DatabaseView { repos: self.repos.push(repo), ..self },
                row: self.repos.len() as usize,
            },
        }
    }

    /// The store after a comment was observed. Of a row that is there, the
    /// author, the creation time and, where one was observed, the text are
    /// written through; only a different update time lowers the
    /// classification to `Updated`.
    pub open spec fn ensure_comment_exists(
        self,
        status: ProcessStatus,
        comment_id: i64,
        author: usize,
        issue_or_pr: usize,
        text: Option<Seq<char>>,
        created_timestamp: i64,
        updated_timestamp: i64,
    ) -> Ensured {
        match first_index(self.comments, comment_with_id(comment_id)) {
            Some(i) => {
                let stored = self.comments[i];
                Ensured {
                    db: DatabaseView {
                        comments: self.comments.update(
                            i,
                            CommentView {
                                comment_id: stored.comment_id,
                                author,
                                text: observed_or(text, stored.text),
                                issue_or_pr: stored.issue_or_pr,
                                created_timestamp,
                                updated_timestamp,
                            },
                        ),
                        ..self
                    },
                    status: if stored.updated_timestamp != updated_timestamp {
                        status.min(ProcessStatus::Updated)
                    } else {
                        status
                    },
                    row: i as usize,
                }
            },
            None => Ensured {
                db: DatabaseView {
                    comments: self.comments.push(
                        CommentView {
                            comment_id,
                            author,
                            text: observed_or(text, Seq::empty()),
                            issue_or_pr,
                            created_timestamp,
                            updated_timestamp,
                        },
                    ),
                    ..self
                },
                status: status.min(ProcessStatus::New),
                row: self.comments.len() as usize,
            },
        }
    }

    /// The store after the row `shared` was observed to be an issue.
    pub open spec fn ensure_issue_exists(self, status: ProcessStatus, shared: usize) -> Ensured {
        match first_index(self.issues, issue_of(shared)) {
            Some(i) => Ensured { db: self, status, row: i as usize },
            None => Ensured {
                db: DatabaseView { issues: self.issues.push(Issue { shared }), ..self },
                status: status.min(ProcessStatus::New),
                row: self.issues.len() as usize,
            },
        }
    }
}

impl Database {
    /// The first row of the label table with the name `name`.
    pub fn find_label(&self, name: &String) -> (r: Option<usize>)
        ensures
            match r {
                Some(i) => i < self.labels.len() && first_index(
                    self@.labels,
                    label_with_name(name@),
                ) == Some(i as int),
                None => first_index(self@.labels, label_with_name(name@)) is None,
            },
    {
        let mut i: usize = 0;
        while i < self.labels.len()
            invariant
                i <= self.labels.len(),
                forall|j: int| 0 <= j < i ==> !label_with_name(name@)(#[trigger] self@.labels[j]),
            decreases self.labels.len() - i,
        {
            if self.labels[i].name == *name {
                proof {
                    lemma_first_index_is(self@.labels, label_with_name(name@), i as int);
                }
                return Some(i);
            }
            i += 1;
        }
        proof {
            lemma_first_index_none(self@.labels, label_with_name(name@));
        }
        None
    }

    /// Makes sure that the label table holds `label`, with the observed color
    /// and, where one was observed, description.
    pub fn ensure_label_exists(
        &mut self,
        status: &mut ProcessStatus,
        label: crate::models::Label,
    ) -> (row: usize)
        ensures
            final(self)@ == old(self)@.ensure_label_exists(*old(status), label).db,
            *final(status) == old(self)@.ensure_label_exists(*old(status), label).status,
            row == old(self)@.ensure_label_exists(*old(status), label).row,
            old(self)@.wf() ==> final(self)@.wf() && row < final(self)@.labels.len(),
    {
        proof {
            if self@.wf() {
                crate::database::wellformed::lemma_ensure_label_wf(self@, *status, label);
            }
        }
        let crate::models::Label { name, description, color } = label;
        match self.find_label(&name) {
            Some(i) => {
                proof {
                    lemma_first_index(old(self)@.labels, label_with_name(name@));
                }
                self.labels[i].color = color;
                if let Some(description) = description {
                    self.labels[i].description = description;
                }
                assert(self@.labels =~= old(self)@.ensure_label_exists(
                    *old(status),
                    label,
                ).db.labels);
                i
            },
            None => {
                let row = self.labels.len();
                self.labels.push(Label { name, description: string_or_empty(description), color });
                status.update(ProcessStatus::New);
                assert(self@.labels =~= old(self)@.ensure_label_exists(
                    *old(status),
                    label,
                ).db.labels);
                row
            },
        }
    }

    /// The first row of the repository table that stands for `repo`.
    pub fn find_repo(&self, repo: &crate::repo::Repo) -> (r: Option<usize>)
        ensures
            match r {
                Some(i) => i < self.repos.len() && first_index(self@.repos, repo_is(repo@))
                    == Some(i as int),
                None => first_index(self@.repos, repo_is(repo@)) is None,
            },
    {
        let mut i: usize = 0;
        while i < self.repos.len()
            invariant
                i <= self.repos.len(),
                forall|j: int| 0 <= j < i ==> !repo_is(repo@)(#[trigger] self@.repos[j]),
            decreases self.repos.len() - i,
        {
            if self.repos[i].organization == repo.organization && self.repos[i].name == repo.name {
                proof {
                    lemma_first_index_is(self@.repos, repo_is(repo@), i as int);
                }
                return Some(i);
            }
            i += 1;
        }
        proof {
            lemma_first_index_none(self@.repos, repo_is(repo@));
        }
        None
    }

    /// The row of the repository table that stands for `repo`, added where
    /// there was none.
    pub fn find_or_insert_repo(&mut self, repo: crate::repo::Repo) -> (row: usize)
        ensures
            final(self)@ == old(self)@.find_or_insert_repo(repo@).db,
            row == old(self)@.find_or_insert_repo(repo@).row,
            old(self)@.wf() ==> final(self)@.wf() && row < final(self)@.repos.len(),
    {
        proof {
            if self@.wf() {
                crate::database::wellformed::lemma_find_or_insert_repo_wf(self@, repo@);
            }
        }
        match self.find_repo(&repo) {
            Some(i) => i,
            None => {
                let row = self.repos.len();
                self.repos.push(Repo { organization: repo.organization, name: repo.name });
                assert(self@.repos =~= old(self)@.repos.push(repo@));
                row
            },
        }
    }

    /// The first row of the comment table with the identifier `comment_id`.
    pub fn find_comment(&self, comment_id: i64) -> (r: Option<usize>)
        ensures
            match r {
                Some(i) => i < self.comments.len() && first_index(
                    self@.comments,
                    comment_with_id(comment_id),
                ) == Some(i as int),
                None => first_index(self@.comments, comment_with_id(comment_id)) is None,
            },
    {
        let mut i: usize = 0;
        while i < self.comments.len()
            invariant
                i <= self.comments.len(),
                forall|j: int|
                    0 <= j < i ==> !comment_with_id(comment_id)(#[trigger] self@.comments[j]),
            decreases self.comments.len() - i,
        {
            if self.comments[i].comment_id == comment_id {
                proof {
                    lemma_first_index_is(self@.comments, comment_with_id(comment_id), i as int);
                }
                return Some(i);
            }
            i += 1;
        }
        proof {
            lemma_first_index_none(self@.comments, comment_with_id(comment_id));
        }
        None
    }

    /// Makes sure that the comment table holds the comment `comment_id`.
    pub fn ensure_comment_exists(
        &mut self,
        status: &mut ProcessStatus,
        comment_id: i64,
        author: usize,
        issue_or_pr: usize,
        text: Option<String>,
        created_timestamp: i64,
        updated_timestamp: i64,
    ) -> (row: usize)
        ensures
            final(self)@ == old(self)@.ensure_comment_exists(
                *old(status),
                comment_id,
                author,
                issue_or_pr,
                opt_text(text),
                created_timestamp,
                updated_timestamp,
            ).db,
            *final(status) == old(self)@.ensure_comment_exists(
                *old(status),
                comment_id,
                author,
                issue_or_pr,
                opt_text(text),
                created_timestamp,
                updated_timestamp,
            ).status,
            row == old(self)@.ensure_comment_exists(
                *old(status),
                comment_id,
                author,
                issue_or_pr,
                opt_text(text),
                created_timestamp,
                updated_timestamp,
            ).row,
            old(self)@.wf() && author < old(self)@.users.len() && issue_or_pr
                < old(self)@.shared.len() ==> final(self)@.wf(),
    {
        proof {
            if self@.wf() && author < self@.users.len() && issue_or_pr < self@.shared.len() {
                crate::database::wellformed::lemma_ensure_comment_wf(
                    self@,
                    *status,
                    comment_id,
                    author,
                    issue_or_pr,
                    opt_text(text),
                    created_timestamp,
                    updated_timestamp,
                );
            }
        }
        let ghost after = old(self)@.ensure_comment_exists(
            *old(status),
            comment_id,
            author,
            issue_or_pr,
            opt_text(text),
            created_timestamp,
            updated_timestamp,
        );
        match self.find_comment(comment_id) {
            Some(i) => {
                proof {
                    lemma_first_index(old(self)@.comments, comment_with_id(comment_id));
                }
                self.comments[i].author = author;
                if let Some(text) = text {
                    self.comments[i].text = text;
                }
                self.comments[i].created_timestamp = created_timestamp;
                if self.comments[i].updated_timestamp != updated_timestamp {
                    status.update(ProcessStatus::Updated);
                    self.comments[i].updated_timestamp = updated_timestamp;
                }
                assert(self@.comments =~= after.db.comments);
                i
            },
            None => {
                let row = self.comments.len();
                self.comments.push(
                    Comment {
                        comment_id,
                        author,
                        text: string_or_empty(text),
                        issue_or_pr,
                        created_timestamp,
                        updated_timestamp,
                    },
                );
                status.update(ProcessStatus::New);
                assert(self@.comments =~= after.db.comments);
                row
            },
        }
    }

    /// The first row of the issue table that extends the row `shared`.
    pub fn find_issue(&self, shared: usize) -> (r: Option<usize>)
        ensures
            match r {
                Some(i) => i < self.issues.len() && first_index(self@.issues, issue_of(shared))
                    == Some(i as int),
                None => first_index(self@.issues, issue_of(shared)) is None,
            },
    {
        let mut i: usize = 0;
        while i < self.issues.len()
            invariant
                i <= self.issues.len(),
                forall|j: int| 0 <= j < i ==> !issue_of(shared)(#[trigger] self@.issues[j]),
            decreases self.issues.len() - i,
        {
            if self.issues[i].shared == shared {
                proof {
                    lemma_first_index_is(self@.issues, issue_of(shared), i as int);
                }
                return Some(i);
            }
            i += 1;
        }
        proof {
            lemma_first_index_none(self@.issues, issue_of(shared));
        }
        None
    }

    /// Makes sure that the issue table marks the row `shared` as an issue.
    pub fn ensure_issue_exists(&mut self, status: &mut ProcessStatus, shared: usize) -> (row: usize)
        ensures
            final(self)@ == old(self)@.ensure_issue_exists(*old(status), shared).db,
            *final(status) == old(self)@.ensure_issue_exists(*old(status), shared).status,
            row == old(self)@.ensure_issue_exists(*old(status), shared).row,
            old(self)@.wf() && shared < old(self)@.shared.len() ==> final(self)@.wf(),
    {
        proof {
            if self@.wf() && shared < self@.shared.len() {
                crate::database::wellformed::lemma_ensure_issue_wf(self@, *status, shared);
            }
        }
        match self.find_issue(shared) {
            Some(i) => i,
            None => {
                let row = self.issues.len();
                self.issues.push(Issue { shared });
                status.update(ProcessStatus::New);
                row
            },
        }
    }
}

/// The number under which an optional state reason is stored.
pub open spec fn state_reason_code(state_reason: Option<IssueStateReason>) -> Option<i64> {
    match state_reason {
        Some(r) => Some(r.spec_code()),
        None => None,
    }
}

/// The text under which an optional relation of the author is stored.
pub open spec fn association_text(association: Option<AuthorAssociation>) -> Option<Seq<char>> {
    match association {
        Some(a) => Some(a.text()),
        None => None,
    }
}

impl DatabaseView {
    /// The store after an issue or pull request was observed.
    ///
    /// A new row takes the empty text for a title or body that was not
    /// observed, and `None` for a relation of the author that was not.
    /// Of a row that is there, author, creation time, update time, closing
    /// time and lock reason are written through; title, body, state reason,
    /// closing user and the author's relation only where they were observed.
    /// Only a different update time lowers the classification to `Updated`.
    pub open spec fn ensure_shared_exists(
        self,
        status: ProcessStatus,
        user: usize,
        repo: usize,
        number: u64,
        title: Option<Seq<char>>,
        body: Option<Seq<char>>,
        lock_reason: Option<Seq<char>>,
        created_timestamp: i64,
        updated_timestamp: i64,
        closed_at_timestamp: Option<i64>,
        state_reason: Option<i64>,
        closed_by: Option<usize>,
        author_association: Option<Seq<char>>,
    ) -> Ensured {
        match first_index(self.shared, shared_with_number(number as i64)) {
            Some(i) => {
                let stored = self.shared[i];
                Ensured {
                    db: DatabaseView {
                        shared: self.shared.update(
                            i,
                            SharedView {
                                number: stored.number,
                                title: observed_or(title, stored.title),
                                description: observed_or(body, stored.description),
                                author: user,
                                created_timestamp,
                                updated_timestamp,
                                closed_at_timestamp,
                                lock_reason,
                                repo: stored.repo,
                                state_reason: observed_or_kept(state_reason, stored.state_reason),
                                closed_by: observed_or_kept(closed_by, stored.closed_by),
                                author_association: observed_or(
                                    author_association,
                                    stored.author_association,
                                ),
                            },
                        ),
                        ..self
                    },
                    status: if stored.updated_timestamp != updated_timestamp {
                        status.min(ProcessStatus::Updated)
                    } else {
                        status
                    },
                    row: i as usize,
                }
            },
            None => Ensured {
                db: DatabaseView {
                    shared: self.shared.push(
                        SharedView {
                            number: number as i64,
                            title: observed_or(title, Seq::empty()),
                            description: observed_or(body, Seq::empty()),
                            author: user,
                            created_timestamp,
                            updated_timestamp,
                            closed_at_timestamp,
                            lock_reason,
                            repo,
                            state_reason,
                            closed_by,
                            author_association: observed_or(
                                author_association,
                                AuthorAssociation::Unrelated.text(),
                            ),
                        },
                    ),
                    ..self
                },
                status: status.min(ProcessStatus::New),
                row: self.shared.len() as usize,
            },
        }
    }

    /// The store after a pull request's own attributes were observed.
    ///
    /// Of a row that is there, every attribute is written through, except
    /// that merge time, merge commit and merging user are kept where none was
    /// observed. The classification is lowered only where the row is new.
    pub open spec fn ensure_pr_exists(
        self,
        status: ProcessStatus,
        shared: usize,
        draft: bool,
        maintainer_can_modify: bool,
        num_additions: i64,
        num_deletions: i64,
        num_changed_files: i64,
        num_commits: i64,
        merged_at_timestamp: Option<i64>,
        merge_commit_sha: Option<Seq<char>>,
        merged_by: Option<usize>,
        head_sha: Seq<char>,
        base_sha: Seq<char>,
        mergeable: bool,
        rebaseable: bool,
        mergeable_state: i64,
    ) -> Ensured {
        let fresh = PullRequestView {
            shared,
            draft,
            maintainer_can_modify,
            num_additions,
            num_deletions,
            num_changed_files,
            num_commits,
            merged_at_timestamp,
            merge_commit_sha,
            merged_by,
            head_sha: Some(head_sha),
            base_sha: Some(base_sha),
            mergeable,
            rebaseable,
            mergeable_state,
        };
        match first_index(self.pull_requests, pr_of(shared)) {
            Some(i) => {
                let stored = self.pull_requests[i];
                Ensured {
                    db: DatabaseView {
                        pull_requests: self.pull_requests.update(
                            i,
                            PullRequestView {
                                merged_at_timestamp: observed_or_kept(
                                    merged_at_timestamp,
                                    stored.merged_at_timestamp,
                                ),
                                merge_commit_sha: observed_or_kept(
                                    merge_commit_sha,
                                    stored.merge_commit_sha,
                                ),
                                merged_by: observed_or_kept(merged_by, stored.merged_by),
                                ..fresh
                            },
                        ),
                        ..self
                    },
                    status,
                    row: i as usize,
                }
            },
            None => Ensured {
                db: DatabaseView { pull_requests: self.pull_requests.push(fresh), ..self },
                status: status.min(ProcessStatus::New),
                row: self.pull_requests.len() as usize,
            },
        }
    }
}

impl Database {
    /// The first row of the shared table with the number `number`.
    pub fn find_shared(&self, number: i64) -> (r: Option<usize>)
        ensures
            match r {
                Some(i) => i < self.shared.len() && first_index(
                    self@.shared,
                    shared_with_number(number),
                ) == Some(i as int),
                None => first_index(self@.shared, shared_with_number(number)) is None,
            },
    {
        let mut i: usize = 0;
        while i < self.shared.len()
            invariant
                i <= self.shared.len(),
                forall|j: int|
                    0 <= j < i ==> !shared_with_number(number)(#[trigger] self@.shared[j]),
            decreases self.shared.len() - i,
        {
            if self.shared[i].number == number {
                proof {
                    lemma_first_index_is(self@.shared, shared_with_number(number), i as int);
                }
                return Some(i);
            }
            i += 1;
        }
        proof {
            lemma_first_index_none(self@.shared, shared_with_number(number));
        }
        None
    }

    /// Makes sure that the shared table holds the issue or pull request
    /// `number`.
    pub fn ensure_shared_exists(
        &mut self,
        status: &mut ProcessStatus,
        user: usize,
        repo: usize,
        number: u64,
        title: Option<String>,
        body: Option<String>,
        lock_reason: Option<String>,
        created_timestamp: i64,
        updated_timestamp: i64,
        closed_at_timestamp: Option<i64>,
        state_reason: Option<IssueStateReason>,
        closed_by: Option<usize>,
        author_association: Option<AuthorAssociation>,
    ) -> (row: usize)
        ensures
            final(self)@ == old(self)@.ensure_shared_exists(
                *old(status),
                user,
                repo,
                number,
                opt_text(title),
                opt_text(body),
                opt_text(lock_reason),
                created_timestamp,
                updated_timestamp,
                closed_at_timestamp,
                state_reason_code(state_reason),
                closed_by,
                association_text(author_association),
            ).db,
            *final(status) == old(self)@.ensure_shared_exists(
                *old(status),
                user,
                repo,
                number,
                opt_text(title),
                opt_text(body),
                opt_text(lock_reason),
                created_timestamp,
                updated_timestamp,
                closed_at_timestamp,
                state_reason_code(state_reason),
                closed_by,
                association_text(author_association),
            ).status,
            row == old(self)@.ensure_shared_exists(
                *old(status),
                user,
                repo,
                number,
                opt_text(title),
                opt_text(body),
                opt_text(lock_reason),
                created_timestamp,
                updated_timestamp,
                closed_at_timestamp,
                state_reason_code(state_reason),
                closed_by,
                association_text(author_association),
            ).row,
            old(self)@.wf() && user < old(self)@.users.len() && repo < old(self)@.repos.len() && (
            closed_by matches Some(u) ==> u < old(self)@.users.len()) ==> final(self)@.wf() && row
                < final(self)@.shared.len(),
    {
        proof {
            if self@.wf() && user < self@.users.len() && repo < self@.repos.len() && (
            closed_by matches Some(u) ==> u < self@.users.len()) {
                crate::database::wellformed::lemma_ensure_shared_wf(
                    self@,
                    *status,
                    user,
                    repo,
                    number,
                    opt_text(title),
                    opt_text(body),
                    opt_text(lock_reason),
                    created_timestamp,
                    updated_timestamp,
                    closed_at_timestamp,
                    state_reason_code(state_reason),
                    closed_by,
                    association_text(author_association),
                );
            }
        }
        let ghost after = old(self)@.ensure_shared_exists(
            *old(status),
            user,
            repo,
            number,
            opt_text(title),
            opt_text(body),
            opt_text(lock_reason),
            created_timestamp,
            updated_timestamp,
            closed_at_timestamp,
            state_reason_code(state_reason),
            closed_by,
            association_text(author_association),
        );
        let key = #[verifier::truncate] (number as i64);
        let state_reason = match state_reason {
            Some(r) => Some(r.code()),
            None => None,
        };
        match self.find_shared(key) {
            Some(i) => {
                proof {
                    lemma_first_index(old(self)@.shared, shared_with_number(key));
                }
                if let Some(title) = title {
                    self.shared[i].title = title;
                }
                if let Some(body) = body {
                    self.shared[i].description = body;
                }
                self.shared[i].lock_reason = lock_reason;
                self.shared[i].author = user;
                self.shared[i].created_timestamp = created_timestamp;
                if self.shared[i].updated_timestamp != updated_timestamp {
                    status.update(ProcessStatus::Updated);
                    self.shared[i].updated_timestamp = updated_timestamp;
                }
                self.shared[i].closed_at_timestamp = closed_at_timestamp;
                if state_reason.is_some() {
                    self.shared[i].state_reason = state_reason;
                }
                if closed_by.is_some() {
                    self.shared[i].closed_by = closed_by;
                }
                if let Some(association) = author_association {
                    self.shared[i].author_association = association.into_string();
                }
                assert(self@.shared =~= after.db.shared);
                i
            },
            None => {
                let row = self.shared.len();
                let author_association = match author_association {
                    Some(association) => association.into_string(),
                    None => AuthorAssociation::Unrelated.into_string(),
                };
                self.shared.push(
                    IssuePullRequestShared {
                        number: key,
                        title: string_or_empty(title),
                        description: string_or_empty(body),
                        author: user,
                        created_timestamp,
                        updated_timestamp,
                        closed_at_timestamp,
                        lock_reason,
                        repo,
                        state_reason,
                        closed_by,
                        author_association,
                    },
                );
                status.update(ProcessStatus::New);
                assert(self@.shared =~= after.db.shared);
                row
            },
        }
    }

    /// The first row of the pull request table that extends the row `shared`.
    pub fn find_pr(&self, shared: usize) -> (r: Option<usize>)
        ensures
            match r {
                Some(i) => i < self.pull_requests.len() && first_index(
                    self@.pull_requests,
                    pr_of(shared),
                ) == Some(i as int),
                None => first_index(self@.pull_requests, pr_of(shared)) is None,
            },
    {
        let mut i: usize = 0;
        while i < self.pull_requests.len()
            invariant
                i <= self.pull_requests.len(),
                forall|j: int| 0 <= j < i ==> !pr_of(shared)(#[trigger] self@.pull_requests[j]),
            decreases self.pull_requests.len() - i,
        {
            if self.pull_requests[i].shared == shared {
                proof {
                    lemma_first_index_is(self@.pull_requests, pr_of(shared), i as int);
                }
                return Some(i);
            }
            i += 1;
        }
        proof {
            lemma_first_index_none(self@.pull_requests, pr_of(shared));
        }
        None
    }

    /// Makes sure that the pull request table extends the row `shared`, with
    /// the observed attributes.
    pub fn ensure_pr_exists(
        &mut self,
        status: &mut ProcessStatus,
        shared: usize,
        draft: bool,
        maintainer_can_modify: bool,
        num_additions: i64,
        num_deletions: i64,
        num_changed_files: i64,
        num_commits: i64,
        merged_at_timestamp: Option<i64>,
        merge_commit_sha: Option<String>,
        merged_by: Option<usize>,
        head_sha: String,
        base_sha: String,
        mergeable: bool,
        rebaseable: bool,
        mergeable_state: MergeableState,
    ) -> (row: usize)
        ensures
            final(self)@ == old(self)@.ensure_pr_exists(
                *old(status),
                shared,
                draft,
                maintainer_can_modify,
                num_additions,
                num_deletions,
                num_changed_files,
                num_commits,
                merged_at_timestamp,
                opt_text(merge_commit_sha),
                merged_by,
                head_sha@,
                base_sha@,
                mergeable,
                rebaseable,
                mergeable_state.spec_code(),
            ).db,
            *final(status) == old(self)@.ensure_pr_exists(
                *old(status),
                shared,
                draft,
                maintainer_can_modify,
                num_additions,
                num_deletions,
                num_changed_files,
                num_commits,
                merged_at_timestamp,
                opt_text(merge_commit_sha),
                merged_by,
                head_sha@,
                base_sha@,
                mergeable,
                rebaseable,
                mergeable_state.spec_code(),
            ).status,
            row == old(self)@.ensure_pr_exists(
                *old(status),
                shared,
                draft,
                maintainer_can_modify,
                num_additions,
                num_deletions,
                num_changed_files,
                num_commits,
                merged_at_timestamp,
                opt_text(merge_commit_sha),
                merged_by,
                head_sha@,
                base_sha@,
                mergeable,
                rebaseable,
                mergeable_state.spec_code(),
            ).row,
            old(self)@.wf() && shared < old(self)@.shared.len() && (merged_by matches Some(u) ==> u
                < old(self)@.users.len()) ==> final(self)@.wf() && row
                < final(self)@.pull_requests.len(),
    {
        proof {
            if self@.wf() && shared < self@.shared.len() && (merged_by matches Some(u) ==> u
                < self@.users.len()) {
                crate::database::wellformed::lemma_ensure_pr_wf(
                    self@,
                    *status,
                    shared,
                    draft,
                    maintainer_can_modify,
                    num_additions,
                    num_deletions,
                    num_changed_files,
                    num_commits,
                    merged_at_timestamp,
                    opt_text(merge_commit_sha),
                    merged_by,
                    head_sha@,
                    base_sha@,
                    mergeable,
                    rebaseable,
                    mergeable_state.spec_code(),
                );
            }
        }
        let fresh = PullRequest {
            shared,
            draft,
            maintainer_can_modify,
            num_additions,
            num_deletions,
            num_changed_files,
            num_commits,
            merged_at_timestamp,
            merge_commit_sha,
            merged_by,
            head_sha: Some(head_sha),
            base_sha: Some(base_sha),
            mergeable,
            rebaseable,
            mergeable_state: mergeable_state.code(),
        };
        match self.find_pr(shared) {
            Some(i) => {
                proof {
                    lemma_first_index(old(self)@.pull_requests, pr_of(shared));
                }
                self.overwrite_pr(i, fresh);
                i
            },
            None => {
                let row = self.pull_requests.len();
                self.pull_requests.push(fresh);
                status.update(ProcessStatus::New);
                assert(self@.pull_requests =~= old(self)@.pull_requests.push(fresh@));
                row
            },
        }
    }

    /// Replaces the row `i` of the pull request table by `fresh`, except
    /// that merge time, merge commit and merging user are kept where `fresh`
    /// has none.
    pub fn overwrite_pr(&mut self, i: usize, fresh: PullRequest)
        requires
            i < old(self)@.pull_requests.len(),
        ensures
            final(self)@ == (DatabaseView {
                pull_requests: old(self)@.pull_requests.update(
                    i as int,
                    PullRequestView {
                        merged_at_timestamp: observed_or_kept(
                            fresh@.merged_at_timestamp,
                            old(self)@.pull_requests[i as int].merged_at_timestamp,
                        ),
                        merge_commit_sha: observed_or_kept(
                            fresh@.merge_commit_sha,
                            old(self)@.pull_requests[i as int].merge_commit_sha,
                        ),
                        merged_by: observed_or_kept(
                            fresh@.merged_by,
                            old(self)@.pull_requests[i as int].merged_by,
                        ),
                        ..fresh@
                    },
                ),
                ..old(self)@
            }),
    {
        let mut fresh = fresh;
        if fresh.merged_at_timestamp.is_none() {
            fresh.merged_at_timestamp = self.pull_requests[i].merged_at_timestamp;
        }
        if fresh.merge_commit_sha.is_none() {
            fresh.merge_commit_sha = self.pull_requests[i].merge_commit_sha.take();
        }
        if fresh.merged_by.is_none() {
            fresh.merged_by = self.pull_requests[i].merged_by;
        }
        let ghost merged = fresh@;
        self.pull_requests[i] = fresh;
        assert(self@.pull_requests =~= old(self)@.pull_requests.update(i as int, merged));
    }
}

} // verus!
