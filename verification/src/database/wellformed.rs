//! Every routine that changes the store keeps it well formed: unique columns
//! stay unique, and references keep naming rows that exist.

use vstd::prelude::*;
use crate::database::links::{
    confirm, confirm_all, links_of, mark, reconcile, without_rows, Link,
};
use crate::database::schema::{
    Assignment, CommentView, DatabaseView, Issue, LabelLink, LabelView, PullRequestView,
    ReviewRequest, SharedView, UserView,
};
use crate::database::updates::{
    comment_with_id, issue_of, label_with_name, pr_of, repo_is, shared_with_number, user_row,
    user_with_id,
};
use crate::database::process::{
    closed_at, count, listed, lock_reason, observed_assignees,
};
use crate::database::updates::{
    association_text, observed_or, observed_or_kept, state_reason_code,
};
use crate::models::{Author, IssueState, Label, MergeableState};
use crate::requests::opt_text;
use crate::repo::RepoView;
use crate::status::ProcessStatus;
use crate::table::{
    first_index, lemma_first_index, lemma_push_unique, lemma_update_unique, unique_by,
};

verus! {

/// Bringing a user into a well-formed store leaves it well formed, and the
/// row that is given is a row of the user table.
pub proof fn lemma_ensure_user_wf(db: DatabaseView, status: ProcessStatus, author: Author)
    requires
        db.wf(),
    ensures
        db.ensure_user_exists(status, author).db.wf(),
        db.ensure_user_exists(status, author).row < db.ensure_user_exists(
            status,
            author,
        ).db.users.len(),
        db.users.len() <= db.ensure_user_exists(status, author).db.users.len(),
        db.ensure_user_exists(status, author).db == (DatabaseView {
            users: db.ensure_user_exists(status, author).db.users,
            ..db
        }),
{
    let key = |r: UserView| r.github_id;
    let row = user_row(author);
    lemma_first_index(db.users, user_with_id(author.id as i64));
    match first_index(db.users, user_with_id(author.id as i64)) {
        Some(i) => {
            lemma_update_unique(db.users, key, i, row);
        },
        None => {
            lemma_push_unique(db.users, key, row);
        },
    }
}

/// Bringing a label into a well-formed store leaves it well formed, and the
/// row that is given is a row of the label table.
pub proof fn lemma_ensure_label_wf(db: DatabaseView, status: ProcessStatus, label: Label)
    requires
        db.wf(),
    ensures
        db.ensure_label_exists(status, label).db.wf(),
        db.ensure_label_exists(status, label).row < db.ensure_label_exists(
            status,
            label,
        ).db.labels.len(),
        db.labels.len() <= db.ensure_label_exists(status, label).db.labels.len(),
        db.ensure_label_exists(status, label).db == (DatabaseView {
            labels: db.ensure_label_exists(status, label).db.labels,
            ..db
        }),
{
    let key = |r: LabelView| r.name;
    let after = db.ensure_label_exists(status, label).db;
    lemma_first_index(db.labels, label_with_name(label.name@));
    match first_index(db.labels, label_with_name(label.name@)) {
        Some(i) => {
            lemma_update_unique(db.labels, key, i, after.labels[i]);
        },
        None => {
            lemma_push_unique(db.labels, key, after.labels[db.labels.len() as int]);
        },
    }
}

/// Finding or adding a repository in a well-formed store leaves it well
/// formed, and the row that is given is a row of the repository table.
pub proof fn lemma_find_or_insert_repo_wf(db: DatabaseView, repo: RepoView)
    requires
        db.wf(),
    ensures
        db.find_or_insert_repo(repo).db.wf(),
        db.find_or_insert_repo(repo).row < db.find_or_insert_repo(repo).db.repos.len(),
        db.find_or_insert_repo(repo).db == (DatabaseView {
            repos: db.find_or_insert_repo(repo).db.repos,
            ..db
        }),
        db.repos.len() <= db.find_or_insert_repo(repo).db.repos.len(),
{
    let key = |r: RepoView| r;
    lemma_first_index(db.repos, repo_is(repo));
    if first_index(db.repos, repo_is(repo)) is None {
        lemma_push_unique(db.repos, key, repo);
    }
}

/// Bringing a comment into a well-formed store leaves it well formed,
/// provided that its author and its issue or pull request are rows of their
/// tables.
pub proof fn lemma_ensure_comment_wf(
    db: DatabaseView,
    status: ProcessStatus,
    comment_id: i64,
    author: usize,
    issue_or_pr: usize,
    text: Option<Seq<char>>,
    created_timestamp: i64,
    updated_timestamp: i64,
)
    requires
        db.wf(),
        author < db.users.len(),
        issue_or_pr < db.shared.len(),
    ensures
        db.ensure_comment_exists(
            status,
            comment_id,
            author,
            issue_or_pr,
            text,
            created_timestamp,
            updated_timestamp,
        ).db.wf(),
{
    let key = |r: CommentView| r.comment_id;
    let after = db.ensure_comment_exists(
        status,
        comment_id,
        author,
        issue_or_pr,
        text,
        created_timestamp,
        updated_timestamp,
    ).db;
    lemma_first_index(db.comments, comment_with_id(comment_id));
    match first_index(db.comments, comment_with_id(comment_id)) {
        Some(i) => {
            lemma_update_unique(db.comments, key, i, after.comments[i]);
            assert forall|j: int| 0 <= j < after.comments.len() implies ({
                let r = #[trigger] after.comments[j];
                r.author < after.users.len() && r.issue_or_pr < after.shared.len()
            }) by {
                if j != i {
                    assert(after.comments[j] == db.comments[j]);
                }
            }
        },
        None => {
            lemma_push_unique(db.comments, key, after.comments[db.comments.len() as int]);
            assert forall|j: int| 0 <= j < after.comments.len() implies ({
                let r = #[trigger] after.comments[j];
                r.author < after.users.len() && r.issue_or_pr < after.shared.len()
            }) by {
                if j < db.comments.len() {
                    assert(after.comments[j] == db.comments[j]);
                }
            }
        },
    }
}

/// Marking a row of the shared table as an issue leaves a well-formed store
/// well formed.
pub proof fn lemma_ensure_issue_wf(db: DatabaseView, status: ProcessStatus, shared: usize)
    requires
        db.wf(),
        shared < db.shared.len(),
    ensures
        db.ensure_issue_exists(status, shared).db.wf(),
        db.ensure_issue_exists(status, shared).db == (DatabaseView {
            issues: db.ensure_issue_exists(status, shared).db.issues,
            ..db
        }),
{
    let key = |r: Issue| r.shared;
    let after = db.ensure_issue_exists(status, shared).db;
    lemma_first_index(db.issues, issue_of(shared));
    if first_index(db.issues, issue_of(shared)) is None {
        lemma_push_unique(db.issues, key, Issue { shared });
        assert forall|j: int| 0 <= j < after.issues.len() implies (
        #[trigger] after.issues[j]).shared < after.shared.len() by {
            if j < db.issues.len() {
                assert(after.issues[j] == db.issues[j]);
            }
        }
    }
}

/// Bringing an issue or pull request into a well-formed store leaves it
/// well formed, provided that its author, its repository and the user who
/// closed it are rows of their tables; the row that is given is a row of
/// the shared table.
pub proof fn lemma_ensure_shared_wf(
    db: DatabaseView,
    status: ProcessStatus,
    user: usize,
    repo: usize,
    number: u64,
    title: Option<Seq<char>>,
    body: Option<Seq<char>>,
    lock_reason: Option<Seq<char>>,
    created_timestamp: i64,
    updated_timestamp: i64,
    closed_at_timestamp: Option<i64>,
    state_reason: Option<i64>,
    closed_by: Option<usize>,
    author_association: Option<Seq<char>>,
)
    requires
        db.wf(),
        user < db.users.len(),
        repo < db.repos.len(),
        closed_by matches Some(u) ==> u < db.users.len(),
    ensures
        ({
            let e = db.ensure_shared_exists(
                status,
                user,
                repo,
                number,
                title,
                body,
                lock_reason,
                created_timestamp,
                updated_timestamp,
                closed_at_timestamp,
                state_reason,
                closed_by,
                author_association,
            );
            &&& e.db.wf()
            &&& e.row < e.db.shared.len()
            &&& db.shared.len() <= e.db.shared.len()
            &&& e.db == DatabaseView { shared: e.db.shared, ..db }
        }),
{
    let key = |r: SharedView| r.number;
    let after = db.ensure_shared_exists(
        status,
        user,
        repo,
        number,
        title,
        body,
        lock_reason,
        created_timestamp,
        updated_timestamp,
        closed_at_timestamp,
        state_reason,
        closed_by,
        author_association,
    ).db;
    lemma_first_index(db.shared, shared_with_number(number as i64));
    match first_index(db.shared, shared_with_number(number as i64)) {
        Some(i) => {
            lemma_update_unique(db.shared, key, i, after.shared[i]);
            assert forall|j: int| 0 <= j < after.shared.len() implies ({
                let r = #[trigger] after.shared[j];
                &&& r.author < after.users.len()
                &&& r.repo < after.repos.len()
                &&& r.closed_by matches Some(u) ==> u < after.users.len()
            }) by {
                if j != i {
                    assert(after.shared[j] == db.shared[j]);
                } else {
                    assert(db.shared[i].repo < db.repos.len());
                }
            }
        },
        None => {
            lemma_push_unique(db.shared, key, after.shared[db.shared.len() as int]);
            assert forall|j: int| 0 <= j < after.shared.len() implies ({
                let r = #[trigger] after.shared[j];
                &&& r.author < after.users.len()
                &&& r.repo < after.repos.len()
                &&& r.closed_by matches Some(u) ==> u < after.users.len()
            }) by {
                if j < db.shared.len() {
                    assert(after.shared[j] == db.shared[j]);
                }
            }
        },
    }
    lemma_shared_grows(db, after);
}

/// References into the shared table stay valid when the table grows.
proof fn lemma_shared_grows(db: DatabaseView, after: DatabaseView)
    requires
        db.references_valid(),
        after == (DatabaseView { shared: after.shared, ..db }),
        db.shared.len() <= after.shared.len(),
        forall|j: int|
            0 <= j < after.shared.len() ==> {
                let r = #[trigger] after.shared[j];
                &&& r.author < after.users.len()
                &&& r.repo < after.repos.len()
                &&& r.closed_by matches Some(u) ==> u < after.users.len()
            },
    ensures
        after.references_valid(),
{
}

/// Bringing a pull request's own attributes into a well-formed store leaves
/// it well formed, provided that its shared row and the user who merged it
/// are rows of their tables; the row that is given is a row of the pull
/// request table.
pub proof fn lemma_ensure_pr_wf(
    db: DatabaseView,
    status: ProcessStatus,
    shared: usize,
    draft: bool,
    maintainer_can_modify: bool,
    num_additions: i64,
    num_deletions: i64,
    num_changed_files: i64,
    num_commits: i64,
    merged_at_timestamp: Option<i64>,
    merge_commit_sha: Option<Seq<char>>,
    merged_by: Option<usize>,
    head_sha: Seq<char>,
    base_sha: Seq<char>,
    mergeable: bool,
    rebaseable: bool,
    mergeable_state: i64,
)
    requires
        db.wf(),
        shared < db.shared.len(),
        merged_by matches Some(u) ==> u < db.users.len(),
    ensures
        ({
            let e = db.ensure_pr_exists(
                status,
                shared,
                draft,
                maintainer_can_modify,
                num_additions,
                num_deletions,
                num_changed_files,
                num_commits,
                merged_at_timestamp,
                merge_commit_sha,
                merged_by,
                head_sha,
                base_sha,
                mergeable,
                rebaseable,
                mergeable_state,
            );
            &&& e.db.wf()
            &&& e.row < e.db.pull_requests.len()
            &&& db.pull_requests.len() <= e.db.pull_requests.len()
            &&& e.db == DatabaseView { pull_requests: e.db.pull_requests, ..db }
        }),
{
    let key = |r: PullRequestView| r.shared;
    let after = db.ensure_pr_exists(
        status,
        shared,
        draft,
        maintainer_can_modify,
        num_additions,
        num_deletions,
        num_changed_files,
        num_commits,
        merged_at_timestamp,
        merge_commit_sha,
        merged_by,
        head_sha,
        base_sha,
        mergeable,
        rebaseable,
        mergeable_state,
    ).db;
    lemma_first_index(db.pull_requests, pr_of(shared));
    match first_index(db.pull_requests, pr_of(shared)) {
        Some(i) => {
            lemma_update_unique(db.pull_requests, key, i, after.pull_requests[i]);
            assert forall|j: int| 0 <= j < after.pull_requests.len() implies ({
                let r = #[trigger] after.pull_requests[j];
                &&& r.shared < after.shared.len()
                &&& r.merged_by matches Some(u) ==> u < after.users.len()
            }) by {
                if j != i {
                    assert(after.pull_requests[j] == db.pull_requests[j]);
                } else {
                    let stored = db.pull_requests[i];
                    assert(stored.merged_by matches Some(u) ==> u < db.users.len());
                }
            }
        },
        None => {
            lemma_push_unique(
                db.pull_requests,
                key,
                after.pull_requests[db.pull_requests.len() as int],
            );
            assert forall|j: int| 0 <= j < after.pull_requests.len() implies ({
                let r = #[trigger] after.pull_requests[j];
                &&& r.shared < after.shared.len()
                &&& r.merged_by matches Some(u) ==> u < after.users.len()
            }) by {
                if j < db.pull_requests.len() {
                    assert(after.pull_requests[j] == db.pull_requests[j]);
                }
            }
        },
    }
}

/// Whether no two links of `links` link the same member to the same parent,
/// every parent is one of the first `parents` rows of its table, and every
/// member one of the first `members` rows of its table.
pub open spec fn links_wf<L: Link>(links: Seq<L>, parents: nat, members: nat) -> bool {
    &&& forall|i: int, j: int|
        0 <= i < links.len() && 0 <= j < links.len() && (#[trigger] links[i]).parent() == (
        #[trigger] links[j]).parent() && links[i].member() == links[j].member() ==> i == j
    &&& forall|i: int|
        0 <= i < links.len() ==> (#[trigger] links[i]).parent() < parents && links[i].member()
            < members
}

/// Marking links outdated keeps a link table well formed.
pub proof fn lemma_mark_wf<L: Link>(links: Seq<L>, parent: usize, parents: nat, members: nat)
    requires
        links_wf(links, parents, members),
    ensures
        links_wf(mark(links, parent), parents, members),
{
    let marked = mark(links, parent);
    assert forall|i: int| 0 <= i < marked.len() implies (#[trigger] marked[i]).parent()
        == links[i].parent() && marked[i].member() == links[i].member() by {
        L::lemma_make(parent, links[i].member(), true);
    }
    assert forall|i: int, j: int|
        0 <= i < marked.len() && 0 <= j < marked.len() && (#[trigger] marked[i]).parent() == (
        #[trigger] marked[j]).parent() && marked[i].member() == marked[j].member() implies i
        == j by {
        assert(links[i].parent() == links[j].parent());
    }
    assert forall|i: int| 0 <= i < marked.len() implies (#[trigger] marked[i]).parent() < parents
        && marked[i].member() < members by {
        assert(links[i].parent() < parents);
    }
}

/// Confirming a link keeps a link table well formed.
pub proof fn lemma_confirm_wf<L: Link>(
    links: Seq<L>,
    parent: usize,
    member: usize,
    parents: nat,
    members: nat,
)
    requires
        links_wf(links, parents, members),
        parent < parents,
        member < members,
    ensures
        links_wf(confirm(links, parent, member).links, parents, members),
{
    let after = confirm(links, parent, member).links;
    L::lemma_make(parent, member, false);
    lemma_first_index(links, links_of::<L>(parent, member));
    let at = match first_index(links, links_of::<L>(parent, member)) {
        Some(i) => i,
        None => links.len() as int,
    };
    assert forall|i: int| 0 <= i < after.len() && i != at implies #[trigger] after[i]
        == links[i] by {}
    assert forall|i: int, j: int|
        0 <= i < after.len() && 0 <= j < after.len() && (#[trigger] after[i]).parent() == (
        #[trigger] after[j]).parent() && after[i].member() == after[j].member() implies i
        == j by {
        if i != at && j != at {
            assert(links[i].parent() == links[j].parent());
        } else if i == at && j != at {
            assert(after[j] == links[j]);
            if at < links.len() {
                assert(links[at].parent() == links[j].parent());
            } else {
                assert(links_of::<L>(parent, member)(links[j]));
            }
        } else if j == at && i != at {
            assert(after[i] == links[i]);
            if at < links.len() {
                assert(links[at].parent() == links[i].parent());
            } else {
                assert(links_of::<L>(parent, member)(links[i]));
            }
        }
    }
    assert forall|i: int| 0 <= i < after.len() implies (#[trigger] after[i]).parent() < parents
        && after[i].member() < members by {
        if i != at {
            assert(links[i].parent() < parents);
        }
    }
}

/// Confirming links keeps a link table well formed.
pub proof fn lemma_confirm_all_wf<L: Link>(
    links: Seq<L>,
    parent: usize,
    confirmed: Seq<usize>,
    parents: nat,
    members: nat,
)
    requires
        links_wf(links, parents, members),
        parent < parents,
        forall|k: int| 0 <= k < confirmed.len() ==> #[trigger] confirmed[k] < members,
    ensures
        links_wf(confirm_all(links, parent, confirmed).links, parents, members),
    decreases confirmed.len(),
{
    if confirmed.len() > 0 {
        let front = confirmed.drop_last();
        assert(forall|k: int| 0 <= k < front.len() ==> front[k] == confirmed[k]);
        lemma_confirm_all_wf(links, parent, front, parents, members);
        assert(confirmed.last() == confirmed[confirmed.len() - 1]);
        lemma_confirm_wf(
            confirm_all(links, parent, front).links,
            parent,
            confirmed.last(),
            parents,
            members,
        );
    }
}

/// Deleting rows keeps a link table well formed, and leaves only rows that
/// were there.
pub proof fn lemma_without_rows_wf<L: Link>(
    links: Seq<L>,
    dead: Seq<usize>,
    parents: nat,
    members: nat,
)
    requires
        links_wf(links, parents, members),
    ensures
        links_wf(without_rows(links, dead), parents, members),
        forall|k: int|
            0 <= k < without_rows(links, dead).len() ==> links.contains(
                #[trigger] without_rows(links, dead)[k],
            ),
    decreases links.len(),
{
    if links.len() > 0 {
        let front = links.drop_last();
        assert(forall|i: int| 0 <= i < front.len() ==> front[i] == links[i]);
        lemma_without_rows_wf(front, dead, parents, members);
        let kept = without_rows(front, dead);
        let left = without_rows(links, dead);
        assert forall|k: int| 0 <= k < left.len() implies links.contains(#[trigger] left[k]) by {
            if k < kept.len() {
                assert(left[k] == kept[k]);
                let i = choose|i: int| 0 <= i < front.len() && front[i] == kept[k];
                assert(links[i] == left[k]);
            } else {
                assert(links[links.len() - 1] == left[k]);
            }
        }
        assert forall|i: int, j: int|
            0 <= i < left.len() && 0 <= j < left.len() && (#[trigger] left[i]).parent() == (
            #[trigger] left[j]).parent() && left[i].member() == left[j].member() implies i
            == j by {
            if i < kept.len() && j < kept.len() {
                assert(kept[i] == left[i] && kept[j] == left[j]);
            } else if i < kept.len() {
                let a = choose|a: int| 0 <= a < front.len() && front[a] == kept[i];
                assert(links[a].parent() == links[links.len() - 1].parent());
            } else if j < kept.len() {
                let a = choose|a: int| 0 <= a < front.len() && front[a] == kept[j];
                assert(links[a].parent() == links[links.len() - 1].parent());
            }
        }
        assert forall|i: int| 0 <= i < left.len() implies (#[trigger] left[i]).parent() < parents
            && left[i].member() < members by {
            let a = choose|a: int| 0 <= a < links.len() && links[a] == left[i];
            assert(links[a].parent() < parents);
        }
    }
}

/// Reconciling the links of a parent and deleting those that were not
/// confirmed keeps a link table well formed.
pub proof fn lemma_reconcile_wf<L: Link>(
    links: Seq<L>,
    parent: usize,
    confirmed: Seq<usize>,
    parents: nat,
    members: nat,
)
    requires
        links_wf(links, parents, members),
        parent < parents,
        forall|k: int| 0 <= k < confirmed.len() ==> #[trigger] confirmed[k] < members,
    ensures
        links_wf(reconcile(links, parent, confirmed).links, parents, members),
        links_wf(
            without_rows(
                reconcile(links, parent, confirmed).links,
                reconcile(links, parent, confirmed).outdated,
            ),
            parents,
            members,
        ),
{
    lemma_mark_wf(links, parent, parents, members);
    lemma_confirm_all_wf(mark(links, parent), parent, confirmed, parents, members);
    let r = reconcile(links, parent, confirmed);
    lemma_without_rows_wf(r.links, r.outdated, parents, members);
}

/// A table of assignments is well formed as a table of links exactly if its
/// pairs are unique and its references name rows of their tables.
pub proof fn lemma_assignments_wf(links: Seq<Assignment>, shared: nat, users: nat)
    ensures
        links_wf(links, shared, users) <==> unique_by(
            links,
            |r: Assignment| (r.user, r.issue_or_pr),
        ) && forall|i: int|
            0 <= i < links.len() ==> (#[trigger] links[i]).user < users && links[i].issue_or_pr
                < shared,
{
    let key = |r: Assignment| (r.user, r.issue_or_pr);
    if links_wf(links, shared, users) {
        assert forall|i: int, j: int|
            0 <= i < links.len() && 0 <= j < links.len() && key(#[trigger] links[i]) == key(
                #[trigger] links[j],
            ) implies i == j by {
            assert(links[i].parent() == links[j].parent());
        }
        assert forall|i: int| 0 <= i < links.len() implies (#[trigger] links[i]).user < users
            && links[i].issue_or_pr < shared by {
            assert(links[i].parent() < shared);
        }
    }
    if unique_by(links, key) && forall|i: int|
        0 <= i < links.len() ==> (#[trigger] links[i]).user < users && links[i].issue_or_pr
            < shared {
        assert forall|i: int, j: int|
            0 <= i < links.len() && 0 <= j < links.len() && (#[trigger] links[i]).parent() == (
            #[trigger] links[j]).parent() && links[i].member() == links[j].member() implies i
            == j by {
            assert(key(links[i]) == key(links[j]));
        }
        assert forall|i: int| 0 <= i < links.len() implies (#[trigger] links[i]).parent() < shared
            && links[i].member() < users by {
            assert(links[i].user < users);
        }
    }
}

/// As [`lemma_assignments_wf`], for label links.
pub proof fn lemma_label_links_wf(links: Seq<LabelLink>, shared: nat, labels: nat)
    ensures
        links_wf(links, shared, labels) <==> unique_by(
            links,
            |r: LabelLink| (r.issue_or_pr, r.label),
        ) && forall|i: int|
            0 <= i < links.len() ==> (#[trigger] links[i]).issue_or_pr < shared && links[i].label
                < labels,
{
    let key = |r: LabelLink| (r.issue_or_pr, r.label);
    if links_wf(links, shared, labels) {
        assert forall|i: int, j: int|
            0 <= i < links.len() && 0 <= j < links.len() && key(#[trigger] links[i]) == key(
                #[trigger] links[j],
            ) implies i == j by {
            assert(links[i].parent() == links[j].parent());
        }
        assert forall|i: int| 0 <= i < links.len() implies (#[trigger] links[i]).issue_or_pr
            < shared && links[i].label < labels by {
            assert(links[i].parent() < shared);
        }
    }
    if unique_by(links, key) && forall|i: int|
        0 <= i < links.len() ==> (#[trigger] links[i]).issue_or_pr < shared && links[i].label
            < labels {
        assert forall|i: int, j: int|
            0 <= i < links.len() && 0 <= j < links.len() && (#[trigger] links[i]).parent() == (
            #[trigger] links[j]).parent() && links[i].member() == links[j].member() implies i
            == j by {
            assert(key(links[i]) == key(links[j]));
        }
        assert forall|i: int| 0 <= i < links.len() implies (#[trigger] links[i]).parent() < shared
            && links[i].member() < labels by {
            assert(links[i].label < labels);
        }
    }
}

/// As [`lemma_assignments_wf`], for review requests.
pub proof fn lemma_review_requests_wf(links: Seq<ReviewRequest>, prs: nat, users: nat)
    ensures
        links_wf(links, prs, users) <==> unique_by(links, |r: ReviewRequest| (r.user, r.pr))
            && forall|i: int|
            0 <= i < links.len() ==> (#[trigger] links[i]).user < users && links[i].pr < prs,
{
    let key = |r: ReviewRequest| (r.user, r.pr);
    if links_wf(links, prs, users) {
        assert forall|i: int, j: int|
            0 <= i < links.len() && 0 <= j < links.len() && key(#[trigger] links[i]) == key(
                #[trigger] links[j],
            ) implies i == j by {
            assert(links[i].parent() == links[j].parent());
        }
        assert forall|i: int| 0 <= i < links.len() implies (#[trigger] links[i]).user < users
            && links[i].pr < prs by {
            assert(links[i].parent() < prs);
        }
    }
    if unique_by(links, key) && forall|i: int|
        0 <= i < links.len() ==> (#[trigger] links[i]).user < users && links[i].pr < prs {
        assert forall|i: int, j: int|
            0 <= i < links.len() && 0 <= j < links.len() && (#[trigger] links[i]).parent() == (
            #[trigger] links[j]).parent() && links[i].member() == links[j].member() implies i
            == j by {
            assert(key(links[i]) == key(links[j]));
        }
        assert forall|i: int| 0 <= i < links.len() implies (#[trigger] links[i]).parent() < prs
            && links[i].member() < users by {
            assert(links[i].user < users);
        }
    }
}

/// Bringing users into a well-formed store leaves it well formed; the rows
/// that are given are rows of the user table, which is the only table that
/// changes.
pub proof fn lemma_ensure_users_wf(db: DatabaseView, status: ProcessStatus, authors: Seq<Author>)
    requires
        db.wf(),
    ensures
        ({
            let e = db.ensure_users_exist(status, authors);
            &&& e.db.wf()
            &&& forall|k: int| 0 <= k < e.rows.len() ==> #[trigger] e.rows[k] < e.db.users.len()
            &&& db.users.len() <= e.db.users.len()
            &&& e.db == DatabaseView { users: e.db.users, ..db }
        }),
    decreases authors.len(),
{
    if authors.len() > 0 {
        let front = authors.drop_last();
        lemma_ensure_users_wf(db, status, front);
        let before = db.ensure_users_exist(status, front);
        lemma_ensure_user_wf(before.db, before.status, authors.last());
        let e = db.ensure_users_exist(status, authors);
        assert forall|k: int| 0 <= k < e.rows.len() implies #[trigger] e.rows[k]
            < e.db.users.len() by {
            if k < before.rows.len() {
                assert(e.rows[k] == before.rows[k]);
            }
        }
    }
}

/// Bringing an optional user into a well-formed store leaves it well
/// formed.
pub proof fn lemma_ensure_optional_user_wf(
    db: DatabaseView,
    status: ProcessStatus,
    author: Option<Author>,
)
    requires
        db.wf(),
    ensures
        ({
            let e = db.ensure_optional_user(status, author);
            &&& e.db.wf()
            &&& e.row matches Some(u) ==> u < e.db.users.len()
            &&& db.users.len() <= e.db.users.len()
            &&& e.db == DatabaseView { users: e.db.users, ..db }
        }),
{
    if let Some(a) = author {
        lemma_ensure_user_wf(db, status, a);
    }
}

/// Bringing labels into a well-formed store leaves it well formed; the rows
/// that are given are rows of the label table, which is the only table that
/// changes.
pub proof fn lemma_ensure_labels_wf(db: DatabaseView, status: ProcessStatus, labels: Seq<Label>)
    requires
        db.wf(),
    ensures
        ({
            let e = db.ensure_labels_exist(status, labels);
            &&& e.db.wf()
            &&& forall|k: int| 0 <= k < e.rows.len() ==> #[trigger] e.rows[k] < e.db.labels.len()
            &&& db.labels.len() <= e.db.labels.len()
            &&& e.db == DatabaseView { labels: e.db.labels, ..db }
        }),
    decreases labels.len(),
{
    if labels.len() > 0 {
        let front = labels.drop_last();
        lemma_ensure_labels_wf(db, status, front);
        let before = db.ensure_labels_exist(status, front);
        lemma_ensure_label_wf(before.db, before.status, labels.last());
        let e = db.ensure_labels_exist(status, labels);
        assert forall|k: int| 0 <= k < e.rows.len() implies #[trigger] e.rows[k]
            < e.db.labels.len() by {
            if k < before.rows.len() {
                assert(e.rows[k] == before.rows[k]);
            }
        }
    }
}

/// Reconciling the assignments of a row of the shared table with rows of
/// the user table, and deleting those that were not confirmed, leaves a
/// well-formed store well formed.
pub proof fn lemma_assignments_reconciled_wf(
    db: DatabaseView,
    status: ProcessStatus,
    shared: usize,
    users: Seq<usize>,
)
    requires
        db.wf(),
        shared < db.shared.len(),
        forall|k: int| 0 <= k < users.len() ==> #[trigger] users[k] < db.users.len(),
    ensures
        ({
            let u = db.update_assignments(status, shared, users);
            &&& u.db.wf()
            &&& u.db.delete_assignments(u.outdated).wf()
            &&& u.db == DatabaseView { assignments: u.db.assignments, ..db }
        }),
{
    lemma_assignments_wf(db.assignments, db.shared.len(), db.users.len());
    lemma_reconcile_wf(db.assignments, shared, users, db.shared.len(), db.users.len());
    let u = db.update_assignments(status, shared, users);
    lemma_assignments_wf(u.db.assignments, db.shared.len(), db.users.len());
    lemma_assignments_wf(
        u.db.delete_assignments(u.outdated).assignments,
        db.shared.len(),
        db.users.len(),
    );
}

/// Reconciling the label links of a row of the shared table with rows of
/// the label table, and deleting those that were not confirmed, leaves a
/// well-formed store well formed.
pub proof fn lemma_label_links_reconciled_wf(
    db: DatabaseView,
    status: ProcessStatus,
    shared: usize,
    labels: Seq<usize>,
)
    requires
        db.wf(),
        shared < db.shared.len(),
        forall|k: int| 0 <= k < labels.len() ==> #[trigger] labels[k] < db.labels.len(),
    ensures
        ({
            let u = db.update_label_assignments(status, shared, labels);
            &&& u.db.wf()
            &&& u.db.delete_label_links(u.outdated).wf()
            &&& u.db == DatabaseView { label_links: u.db.label_links, ..db }
        }),
{
    lemma_label_links_wf(db.label_links, db.shared.len(), db.labels.len());
    lemma_reconcile_wf(db.label_links, shared, labels, db.shared.len(), db.labels.len());
    let u = db.update_label_assignments(status, shared, labels);
    lemma_label_links_wf(u.db.label_links, db.shared.len(), db.labels.len());
    lemma_label_links_wf(
        u.db.delete_label_links(u.outdated).label_links,
        db.shared.len(),
        db.labels.len(),
    );
}

/// Reconciling the review requests of a row of the pull request table with
/// rows of the user table, and deleting those that were not confirmed,
/// leaves a well-formed store well formed.
pub proof fn lemma_review_requests_reconciled_wf(
    db: DatabaseView,
    status: ProcessStatus,
    pr: usize,
    users: Seq<usize>,
)
    requires
        db.wf(),
        pr < db.pull_requests.len(),
        forall|k: int| 0 <= k < users.len() ==> #[trigger] users[k] < db.users.len(),
    ensures
        ({
            let u = db.update_review_requests(status, pr, users);
            &&& u.db.wf()
            &&& u.db.delete_review_requests(u.outdated).wf()
            &&& u.db == DatabaseView { review_requests: u.db.review_requests, ..db }
        }),
{
    lemma_review_requests_wf(db.review_requests, db.pull_requests.len(), db.users.len());
    lemma_reconcile_wf(db.review_requests, pr, users, db.pull_requests.len(), db.users.len());
    let u = db.update_review_requests(status, pr, users);
    lemma_review_requests_wf(u.db.review_requests, db.pull_requests.len(), db.users.len());
    lemma_review_requests_wf(
        u.db.delete_review_requests(u.outdated).review_requests,
        db.pull_requests.len(),
        db.users.len(),
    );
}

/// Bringing the labels and assignees of a row of the shared table into a
/// well-formed store leaves it well formed; the shared table and the pull
/// request table stay as they are.
pub proof fn lemma_update_links_wf(
    db: DatabaseView,
    status: ProcessStatus,
    shared: usize,
    labels: Seq<Label>,
    assignees: Seq<Author>,
)
    requires
        db.wf(),
        shared < db.shared.len(),
    ensures
        ({
            let p = db.update_links(status, shared, labels, assignees);
            &&& p.db.wf()
            &&& p.db.shared == db.shared
            &&& p.db.pull_requests == db.pull_requests
            &&& p.db.review_requests == db.review_requests
            &&& p.db.requests == db.requests
            &&& db.users.len() <= p.db.users.len()
        }),
{
    let with_labels = db.ensure_labels_exist(status, labels);
    lemma_ensure_labels_wf(db, status, labels);
    let label_links = with_labels.db.update_label_assignments(
        with_labels.status,
        shared,
        with_labels.rows,
    );
    lemma_label_links_reconciled_wf(with_labels.db, with_labels.status, shared, with_labels.rows);
    let with_users = label_links.db.ensure_users_exist(label_links.status, assignees);
    lemma_ensure_users_wf(label_links.db, label_links.status, assignees);
    let assignments = with_users.db.update_assignments(with_users.status, shared, with_users.rows);
    lemma_assignments_reconciled_wf(with_users.db, with_users.status, shared, with_users.rows);
    let swept = assignments.db.delete_assignments(assignments.outdated);
    lemma_label_links_wf(swept.label_links, swept.shared.len(), swept.labels.len());
    lemma_label_links_wf(label_links.db.label_links, swept.shared.len(), swept.labels.len());
    lemma_without_rows_wf(
        swept.label_links,
        label_links.outdated,
        swept.shared.len(),
        swept.labels.len(),
    );
    let last = swept.delete_label_links(label_links.outdated);
    lemma_label_links_wf(last.label_links, swept.shared.len(), swept.labels.len());
}

/// Bringing a comment into a well-formed store leaves it well formed.
pub proof fn lemma_process_comment_wf(
    db: DatabaseView,
    comment: crate::models::Comment,
    issue_number: u64,
)
    requires
        db.wf(),
    ensures
        db.process_comment(comment, issue_number).db.wf(),
        db.process_comment(comment, issue_number).db.requests == db.requests,
{
    lemma_first_index(db.shared, shared_with_number(issue_number as i64));
    if let Some(issue_or_pr) = first_index(db.shared, shared_with_number(issue_number as i64)) {
        let author = db.ensure_user_exists(ProcessStatus::Unchanged, comment.user);
        lemma_ensure_user_wf(db, ProcessStatus::Unchanged, comment.user);
        lemma_ensure_comment_wf(
            author.db,
            author.status,
            comment.id as i64,
            author.row,
            issue_or_pr as usize,
            opt_text(comment.body),
            comment.created_at,
            observed_or(comment.updated_at, comment.created_at),
        );
    }
}

/// Bringing an issue into a well-formed store leaves it well formed.
pub proof fn lemma_process_issue_wf(
    db: DatabaseView,
    repo: RepoView,
    issue: crate::models::Issue,
    now: i64,
)
    requires
        db.wf(),
    ensures
        db.process_issue(repo, issue, now).db.wf(),
        db.process_issue(repo, issue, now).db.requests == db.requests,
{
    let unchanged = ProcessStatus::Unchanged;
    let user = db.ensure_user_exists(unchanged, issue.user);
    lemma_ensure_user_wf(db, unchanged, issue.user);
    let repo_row = user.db.find_or_insert_repo(repo);
    lemma_find_or_insert_repo_wf(user.db, repo);
    let closed_by = repo_row.db.ensure_optional_user(user.status, issue.closed_by);
    lemma_ensure_optional_user_wf(repo_row.db, user.status, issue.closed_by);
    let shared = closed_by.db.ensure_shared_exists(
        closed_by.status,
        user.row,
        repo_row.row,
        issue.number,
        Some(issue.title@),
        opt_text(issue.body),
        lock_reason(issue.locked, opt_text(issue.active_lock_reason)),
        issue.created_at,
        issue.updated_at,
        closed_at(issue.state == IssueState::Closed, issue.closed_at, now),
        state_reason_code(issue.state_reason),
        closed_by.row,
        association_text(issue.author_association),
    );
    lemma_ensure_shared_wf(
        closed_by.db,
        closed_by.status,
        user.row,
        repo_row.row,
        issue.number,
        Some(issue.title@),
        opt_text(issue.body),
        lock_reason(issue.locked, opt_text(issue.active_lock_reason)),
        issue.created_at,
        issue.updated_at,
        closed_at(issue.state == IssueState::Closed, issue.closed_at, now),
        state_reason_code(issue.state_reason),
        closed_by.row,
        association_text(issue.author_association),
    );
    let own = shared.db.ensure_issue_exists(shared.status, shared.row);
    lemma_ensure_issue_wf(shared.db, shared.status, shared.row);
    lemma_update_links_wf(own.db, own.status, shared.row, issue.labels@, issue.assignees@);
}

/// Bringing a pull request into a well-formed store leaves it well formed.
pub proof fn lemma_process_pr_wf(
    db: DatabaseView,
    repo: RepoView,
    pr: crate::models::PullRequest,
    now: i64,
)
    requires
        db.wf(),
    ensures
        db.process_pr(repo, pr, now).db.wf(),
        db.process_pr(repo, pr, now).db.requests == db.requests,
{
    if let Some(author) = pr.user {
        let unchanged = ProcessStatus::Unchanged;
        let labels = listed(pr.labels);
        let assignees = observed_assignees(pr.assignees, pr.assignee);
        let requested = listed(pr.requested_reviewers);
        let user = db.ensure_user_exists(unchanged, author);
        lemma_ensure_user_wf(db, unchanged, author);
        let repo_row = user.db.find_or_insert_repo(repo);
        lemma_find_or_insert_repo_wf(user.db, repo);
        let merged_by = repo_row.db.ensure_optional_user(user.status, pr.merged_by);
        lemma_ensure_optional_user_wf(repo_row.db, user.status, pr.merged_by);
        let shared = merged_by.db.ensure_shared_exists(
            merged_by.status,
            user.row,
            repo_row.row,
            pr.number,
            opt_text(pr.title),
            opt_text(pr.body),
            lock_reason(pr.locked, opt_text(pr.active_lock_reason)),
            observed_or(pr.created_at, now),
            observed_or(observed_or_kept(pr.updated_at, pr.created_at), now),
            closed_at(pr.state == Some(IssueState::Closed), pr.closed_at, now),
            None,
            merged_by.row,
            association_text(pr.author_association),
        );
        lemma_ensure_shared_wf(
            merged_by.db,
            merged_by.status,
            user.row,
            repo_row.row,
            pr.number,
            opt_text(pr.title),
            opt_text(pr.body),
            lock_reason(pr.locked, opt_text(pr.active_lock_reason)),
            observed_or(pr.created_at, now),
            observed_or(observed_or_kept(pr.updated_at, pr.created_at), now),
            closed_at(pr.state == Some(IssueState::Closed), pr.closed_at, now),
            None,
            merged_by.row,
            association_text(pr.author_association),
        );
        let own = shared.db.ensure_pr_exists(
            shared.status,
            shared.row,
            observed_or(pr.draft, false),
            pr.maintainer_can_modify,
            count(pr.additions),
            count(pr.deletions),
            count(pr.changed_files),
            count(pr.commits),
            pr.merged_at,
            opt_text(pr.merge_commit_sha),
            merged_by.row,
            pr.head_sha@,
            pr.base_sha@,
            observed_or(pr.mergeable, false),
            observed_or(pr.rebaseable, false),
            observed_or(pr.mergeable_state, MergeableState::Unknown).spec_code(),
        );
        lemma_ensure_pr_wf(
            shared.db,
            shared.status,
            shared.row,
            observed_or(pr.draft, false),
            pr.maintainer_can_modify,
            count(pr.additions),
            count(pr.deletions),
            count(pr.changed_files),
            count(pr.commits),
            pr.merged_at,
            opt_text(pr.merge_commit_sha),
            merged_by.row,
            pr.head_sha@,
            pr.base_sha@,
            observed_or(pr.mergeable, false),
            observed_or(pr.rebaseable, false),
            observed_or(pr.mergeable_state, MergeableState::Unknown).spec_code(),
        );
        let links = own.db.update_links(own.status, shared.row, labels, assignees);
        lemma_update_links_wf(own.db, own.status, shared.row, labels, assignees);
        let users = links.db.ensure_users_exist(links.status, requested);
        lemma_ensure_users_wf(links.db, links.status, requested);
        lemma_review_requests_reconciled_wf(users.db, users.status, own.row, users.rows);
    }
}

} // verus!
