use github_db::models::{
    Author, AuthorAssociation, Comment, Issue, IssueState, IssueStateReason, Label, MergeableState,
    PullRequest,
};
use github_db::schema::{self, Database};
use github_db::{ProcessStatus, Repo};

fn widget() -> Repo {
    Repo { organization: "acme".to_string(), name: "widget".to_string() }
}

fn author(id: u64, login: &str) -> Author {
    Author { id, login: login.to_string(), name: None }
}

fn label(name: &str, color: &str) -> Label {
    Label { name: name.to_string(), description: None, color: color.to_string() }
}

fn issue(number: u64, updated_at: i64) -> Issue {
    Issue {
        number,
        state: IssueState::Open,
        state_reason: None,
        title: "a title".to_string(),
        body: Some("a body".to_string()),
        user: author(1, "ann"),
        labels: vec![],
        assignees: vec![],
        author_association: Some(AuthorAssociation::Member),
        locked: false,
        active_lock_reason: None,
        closed_at: None,
        closed_by: None,
        created_at: 100,
        updated_at,
    }
}

fn pull(number: u64, updated_at: i64) -> PullRequest {
    PullRequest {
        number,
        state: Some(IssueState::Open),
        locked: false,
        maintainer_can_modify: true,
        title: Some("a pull".to_string()),
        user: Some(author(1, "ann")),
        body: None,
        labels: None,
        active_lock_reason: None,
        created_at: Some(100),
        updated_at: Some(updated_at),
        closed_at: None,
        mergeable: None,
        mergeable_state: None,
        merged_at: None,
        merged_by: None,
        merge_commit_sha: None,
        assignee: None,
        assignees: None,
        requested_reviewers: None,
        rebaseable: None,
        head_sha: "h1".to_string(),
        base_sha: "b1".to_string(),
        author_association: None,
        draft: None,
        additions: Some(10),
        deletions: Some(2),
        changed_files: None,
        commits: Some(1),
    }
}

#[test]
fn a_user_is_inserted_once_and_written_through() {
    let mut db = Database::new();
    let mut status = ProcessStatus::Unchanged;
    let row = db.ensure_user_exists(&mut status, author(7, "ann"));
    assert_eq!(row, 0);
    assert_eq!(status, ProcessStatus::New);
    assert_eq!(
        db.users,
        vec![schema::User { github_id: 7, name: "ann".to_string(), display_name: "ann".to_string() }]
    );

    let mut status = ProcessStatus::Unchanged;
    let renamed = Author { id: 7, login: "anna".to_string(), name: Some("Anna A.".to_string()) };
    let row = db.ensure_user_exists(&mut status, renamed);
    assert_eq!(row, 0);
    assert_eq!(status, ProcessStatus::Unchanged);
    assert_eq!(
        db.users,
        vec![schema::User {
            github_id: 7,
            name: "anna".to_string(),
            display_name: "Anna A.".to_string()
        }]
    );

    let mut status = ProcessStatus::Updated;
    assert_eq!(db.ensure_user_exists(&mut status, author(8, "bob")), 1);
    assert_eq!(status, ProcessStatus::New);
    assert_eq!(db.find_user(8), Some(1));
    assert_eq!(db.find_user(9), None);
}

#[test]
fn a_label_keeps_its_description_where_none_is_observed() {
    let mut db = Database::new();
    let mut status = ProcessStatus::Unchanged;
    let with_description = Label {
        name: "bug".to_string(),
        description: Some("it is broken".to_string()),
        color: "red".to_string(),
    };
    assert_eq!(db.ensure_label_exists(&mut status, with_description), 0);
    assert_eq!(status, ProcessStatus::New);

    let mut status = ProcessStatus::Unchanged;
    assert_eq!(db.ensure_label_exists(&mut status, label("bug", "blue")), 0);
    assert_eq!(status, ProcessStatus::Unchanged);
    assert_eq!(
        db.labels,
        vec![schema::Label {
            name: "bug".to_string(),
            description: "it is broken".to_string(),
            color: "blue".to_string()
        }]
    );

    let mut status = ProcessStatus::Unchanged;
    assert_eq!(db.ensure_label_exists(&mut status, label("docs", "green")), 1);
    assert_eq!(db.labels[1].description, "");
    assert_eq!(db.find_label(&"docs".to_string()), Some(1));
    assert_eq!(db.find_label(&"doc".to_string()), None);
}

#[test]
fn a_repo_is_found_or_inserted() {
    let mut db = Database::new();
    assert_eq!(db.find_or_insert_repo(widget()), 0);
    assert_eq!(
        db.find_or_insert_repo(Repo { organization: "acme".to_string(), name: "gadget".to_string() }),
        1
    );
    assert_eq!(db.find_or_insert_repo(widget()), 0);
    assert_eq!(db.repos.len(), 2);
    assert_eq!(db.repos[1].name, "gadget");
}

#[test]
fn only_the_update_time_of_a_comment_is_tracked() {
    let mut db = Database::new();
    let mut status = ProcessStatus::Unchanged;
    let row = db.ensure_comment_exists(&mut status, 50, 0, 3, Some("first".to_string()), 10, 20);
    assert_eq!((row, status), (0, ProcessStatus::New));

    let mut status = ProcessStatus::Unchanged;
    db.ensure_comment_exists(&mut status, 50, 4, 9, Some("edited".to_string()), 11, 20);
    assert_eq!(status, ProcessStatus::Unchanged);
    assert_eq!(
        db.comments,
        vec![schema::Comment {
            comment_id: 50,
            author: 4,
            text: "edited".to_string(),
            issue_or_pr: 3,
            created_timestamp: 11,
            updated_timestamp: 20,
        }]
    );

    let mut status = ProcessStatus::Unchanged;
    db.ensure_comment_exists(&mut status, 50, 4, 3, None, 11, 21);
    assert_eq!(status, ProcessStatus::Updated);
    assert_eq!(db.comments[0].text, "edited");
    assert_eq!(db.comments[0].updated_timestamp, 21);
}

#[test]
fn a_new_shared_row_takes_defaults_for_what_is_absent() {
    let mut db = Database::new();
    let mut status = ProcessStatus::Unchanged;
    let row = db.ensure_shared_exists(
        &mut status, 2, 1, 44, None, None, None, 10, 20, None, None, None, None,
    );
    assert_eq!((row, status), (0, ProcessStatus::New));
    assert_eq!(
        db.shared,
        vec![schema::IssuePullRequestShared {
            number: 44,
            title: String::new(),
            description: String::new(),
            author: 2,
            created_timestamp: 10,
            updated_timestamp: 20,
            closed_at_timestamp: None,
            lock_reason: None,
            repo: 1,
            state_reason: None,
            closed_by: None,
            author_association: "None".to_string(),
        }]
    );
}

#[test]
fn a_shared_row_is_written_through_and_classified_by_its_update_time() {
    let mut db = Database::new();
    let mut status = ProcessStatus::Unchanged;
    db.ensure_shared_exists(
        &mut status,
        2,
        1,
        44,
        Some("title".to_string()),
        Some("body".to_string()),
        Some("spam".to_string()),
        10,
        20,
        Some(30),
        Some(IssueStateReason::NotPlanned),
        Some(5),
        Some(AuthorAssociation::Owner),
    );

    let mut status = ProcessStatus::Unchanged;
    let row = db.ensure_shared_exists(
        &mut status, 3, 9, 44, None, None, None, 11, 20, None, None, None, None,
    );
    assert_eq!((row, status), (0, ProcessStatus::Unchanged));
    assert_eq!(
        db.shared,
        vec![schema::IssuePullRequestShared {
            number: 44,
            title: "title".to_string(),
            description: "body".to_string(),
            author: 3,
            created_timestamp: 11,
            updated_timestamp: 20,
            closed_at_timestamp: None,
            lock_reason: None,
            repo: 1,
            state_reason: Some(1),
            closed_by: Some(5),
            author_association: "Owner".to_string(),
        }]
    );

    let mut status = ProcessStatus::Unchanged;
    db.ensure_shared_exists(
        &mut status,
        3,
        9,
        44,
        Some("new title".to_string()),
        None,
        Some(String::new()),
        11,
        25,
        Some(40),
        Some(IssueStateReason::Duplicate),
        Some(6),
        Some(AuthorAssociation::Other("FRIEND".to_string())),
    );
    assert_eq!(status, ProcessStatus::Updated);
    let row = &db.shared[0];
    assert_eq!(row.title, "new title");
    assert_eq!(row.description, "body");
    assert_eq!(row.lock_reason, Some(String::new()));
    assert_eq!(row.updated_timestamp, 25);
    assert_eq!(row.closed_at_timestamp, Some(40));
    assert_eq!(row.state_reason, Some(3));
    assert_eq!(row.closed_by, Some(6));
    assert_eq!(row.author_association, "FRIEND");
}

#[test]
fn the_relations_of_an_author_are_stored_by_name() {
    let names = [
        (AuthorAssociation::Collaborator, "Collaborator"),
        (AuthorAssociation::Contributor, "Contributor"),
        (AuthorAssociation::FirstTimer, "FirstTimer"),
        (AuthorAssociation::FirstTimeContributor, "FirstTimeContributor"),
        (AuthorAssociation::Mannequin, "Mannequin"),
        (AuthorAssociation::Member, "Member"),
        (AuthorAssociation::Unrelated, "None"),
        (AuthorAssociation::Owner, "Owner"),
        (AuthorAssociation::Other("SOMETHING_ELSE".to_string()), "SOMETHING_ELSE"),
    ];
    for (association, name) in names {
        assert_eq!(association.into_string(), name);
    }
    assert_eq!(IssueStateReason::Completed.code(), 0);
    assert_eq!(IssueStateReason::NotPlanned.code(), 1);
    assert_eq!(IssueStateReason::Reopened.code(), 2);
    assert_eq!(IssueStateReason::Duplicate.code(), 3);
    let states = [
        MergeableState::Behind,
        MergeableState::Blocked,
        MergeableState::Clean,
        MergeableState::Dirty,
        MergeableState::Draft,
        MergeableState::HasHooks,
        MergeableState::Unknown,
        MergeableState::Unstable,
    ];
    for (code, state) in states.iter().enumerate() {
        assert_eq!(state.code(), code as i64);
    }
}

#[test]
fn merge_attributes_are_never_cleared() {
    let mut db = Database::new();
    let mut status = ProcessStatus::Unchanged;
    let row = db.ensure_pr_exists(
        &mut status,
        0,
        true,
        false,
        1,
        2,
        3,
        4,
        Some(500),
        Some("abc".to_string()),
        Some(7),
        "head1".to_string(),
        "base1".to_string(),
        true,
        false,
        MergeableState::Clean,
    );
    assert_eq!((row, status), (0, ProcessStatus::New));

    let mut status = ProcessStatus::Unchanged;
    db.ensure_pr_exists(
        &mut status,
        0,
        false,
        true,
        5,
        6,
        7,
        8,
        None,
        None,
        None,
        "head2".to_string(),
        "base2".to_string(),
        false,
        true,
        MergeableState::Dirty,
    );
    assert_eq!(status, ProcessStatus::Unchanged);
    assert_eq!(
        db.pull_requests,
        vec![schema::PullRequest {
            shared: 0,
            draft: false,
            maintainer_can_modify: true,
            num_additions: 5,
            num_deletions: 6,
            num_changed_files: 7,
            num_commits: 8,
            merged_at_timestamp: Some(500),
            merge_commit_sha: Some("abc".to_string()),
            merged_by: Some(7),
            head_sha: Some("head2".to_string()),
            base_sha: Some("base2".to_string()),
            mergeable: false,
            rebaseable: true,
            mergeable_state: 3,
        }]
    );
    assert_eq!(db.find_pr(0), Some(0));
    assert_eq!(db.find_pr(1), None);
}

#[test]
fn an_issue_row_marks_a_shared_row_once() {
    let mut db = Database::new();
    let mut status = ProcessStatus::Unchanged;
    assert_eq!(db.ensure_issue_exists(&mut status, 4), 0);
    assert_eq!(status, ProcessStatus::New);
    let mut status = ProcessStatus::Unchanged;
    assert_eq!(db.ensure_issue_exists(&mut status, 4), 0);
    assert_eq!(status, ProcessStatus::Unchanged);
    assert_eq!(db.issues, vec![schema::Issue { shared: 4 }]);
}

#[test]
fn an_issue_is_new_then_unchanged_then_updated() {
    let mut db = Database::new();
    assert_eq!(db.process_issue(widget(), issue(5, 200), 1_000), ProcessStatus::New);
    let after_first = format!("{:?}", db);
    assert_eq!(db.process_issue(widget(), issue(5, 200), 2_000), ProcessStatus::Unchanged);
    assert_eq!(format!("{:?}", db), after_first);
    assert_eq!(db.process_issue(widget(), issue(5, 201), 2_000), ProcessStatus::Updated);
    assert_eq!(db.shared.len(), 1);
    assert_eq!(db.shared[0].updated_timestamp, 201);
    assert_eq!(db.issues, vec![schema::Issue { shared: 0 }]);
    assert_eq!(db.repos.len(), 1);
    assert!(db.pull_requests.is_empty());
}

#[test]
fn an_untracked_change_is_written_but_not_classified() {
    let mut db = Database::new();
    db.process_issue(widget(), issue(5, 200), 1_000);
    let mut retitled = issue(5, 200);
    retitled.title = "another title".to_string();
    retitled.body = None;
    assert_eq!(db.process_issue(widget(), retitled, 1_000), ProcessStatus::Unchanged);
    assert_eq!(db.shared[0].title, "another title");
    assert_eq!(db.shared[0].description, "a body");
}

#[test]
fn a_closed_item_has_a_closing_time_and_an_open_one_has_none() {
    let mut db = Database::new();
    let mut closed = issue(5, 200);
    closed.state = IssueState::Closed;
    closed.closed_at = Some(150);
    closed.state_reason = Some(IssueStateReason::Completed);
    closed.closed_by = Some(author(2, "bob"));
    db.process_issue(widget(), closed, 1_000);
    assert_eq!(db.shared[0].closed_at_timestamp, Some(150));
    assert_eq!(db.shared[0].state_reason, Some(0));
    assert_eq!(db.shared[0].closed_by, Some(1));

    let mut closed_without_time = issue(6, 200);
    closed_without_time.state = IssueState::Closed;
    db.process_issue(widget(), closed_without_time, 1_000);
    assert_eq!(db.shared[1].closed_at_timestamp, Some(1_000));

    let mut reopened = issue(5, 300);
    reopened.closed_at = Some(150);
    db.process_issue(widget(), reopened, 2_000);
    assert_eq!(db.shared[0].closed_at_timestamp, None);
    assert_eq!(db.shared[0].state_reason, Some(0));
}

#[test]
fn the_lock_reason_tells_locked_from_unlocked() {
    let mut db = Database::new();
    let mut unlocked = issue(1, 200);
    unlocked.active_lock_reason = Some("ignored".to_string());
    db.process_issue(widget(), unlocked, 0);
    assert_eq!(db.shared[0].lock_reason, None);

    let mut locked = issue(1, 200);
    locked.locked = true;
    db.process_issue(widget(), locked, 0);
    assert_eq!(db.shared[0].lock_reason, Some(String::new()));

    let mut locked_for_spam = issue(1, 200);
    locked_for_spam.locked = true;
    locked_for_spam.active_lock_reason = Some("spam".to_string());
    db.process_issue(widget(), locked_for_spam, 0);
    assert_eq!(db.shared[0].lock_reason, Some("spam".to_string()));

    db.process_issue(widget(), issue(1, 200), 0);
    assert_eq!(db.shared[0].lock_reason, None);
}

#[test]
fn a_pull_request_without_author_is_passed_over() {
    let mut db = Database::new();
    let mut orphan = pull(9, 200);
    orphan.user = None;
    assert_eq!(db.process_pr(widget(), orphan, 0), ProcessStatus::Unchanged);
    assert_eq!(db, Database::new());
}

#[test]
fn a_pull_request_fills_its_rows() {
    let mut db = Database::new();
    let mut merged = pull(9, 200);
    merged.state = Some(IssueState::Closed);
    merged.merged_at = Some(180);
    merged.merged_by = Some(author(2, "bob"));
    merged.merge_commit_sha = Some("abc".to_string());
    merged.labels = Some(vec![label("bug", "red")]);
    merged.assignee = Some(author(3, "cat"));
    merged.requested_reviewers = Some(vec![author(2, "bob"), author(4, "dan")]);
    merged.mergeable_state = Some(MergeableState::Clean);
    merged.draft = Some(true);
    assert_eq!(db.process_pr(widget(), merged, 1_000), ProcessStatus::New);
    assert_eq!(db.shared[0].number, 9);
    assert_eq!(db.shared[0].author, 0);
    assert_eq!(db.shared[0].closed_at_timestamp, Some(1_000));
    assert_eq!(db.shared[0].closed_by, Some(1));
    assert_eq!(
        db.pull_requests,
        vec![schema::PullRequest {
            shared: 0,
            draft: true,
            maintainer_can_modify: true,
            num_additions: 10,
            num_deletions: 2,
            num_changed_files: 0,
            num_commits: 1,
            merged_at_timestamp: Some(180),
            merge_commit_sha: Some("abc".to_string()),
            merged_by: Some(1),
            head_sha: Some("h1".to_string()),
            base_sha: Some("b1".to_string()),
            mergeable: false,
            rebaseable: false,
            mergeable_state: 2,
        }]
    );
    let logins: Vec<&str> = db.users.iter().map(|u| u.name.as_str()).collect();
    assert_eq!(logins, vec!["ann", "bob", "cat", "dan"]);
    assert_eq!(db.label_links, vec![schema::LabelLink { issue_or_pr: 0, label: 0, outdated: false }]);
    assert_eq!(db.assignments, vec![schema::Assignment { user: 2, issue_or_pr: 0, outdated: false }]);
    assert_eq!(
        db.review_requests,
        vec![
            schema::ReviewRequest { user: 1, pr: 0, outdated: false },
            schema::ReviewRequest { user: 3, pr: 0, outdated: false },
        ]
    );
    assert!(db.issues.is_empty());
}

#[test]
fn a_pull_request_without_times_takes_the_time_of_its_observation() {
    let mut db = Database::new();
    let mut timeless = pull(9, 0);
    timeless.created_at = None;
    timeless.updated_at = None;
    db.process_pr(widget(), timeless, 777);
    assert_eq!(db.shared[0].created_timestamp, 777);
    assert_eq!(db.shared[0].updated_timestamp, 777);

    let mut created_only = pull(10, 0);
    created_only.updated_at = None;
    db.process_pr(widget(), created_only, 777);
    assert_eq!(db.shared[1].created_timestamp, 100);
    assert_eq!(db.shared[1].updated_timestamp, 100);
}

#[test]
fn a_pull_request_is_unchanged_on_the_second_pass() {
    let mut db = Database::new();
    let observed = || {
        let mut p = pull(9, 200);
        p.labels = Some(vec![label("bug", "red"), label("docs", "green")]);
        p.assignees = Some(vec![author(3, "cat"), author(1, "ann")]);
        p.requested_reviewers = Some(vec![author(4, "dan")]);
        p
    };
    assert_eq!(db.process_pr(widget(), observed(), 1_000), ProcessStatus::New);
    let after_first = format!("{:?}", db);
    assert_eq!(db.process_pr(widget(), observed(), 2_000), ProcessStatus::Unchanged);
    assert_eq!(format!("{:?}", db), after_first);
}

#[test]
fn a_comment_needs_its_issue() {
    let mut db = Database::new();
    let comment = |id, updated_at| Comment {
        id,
        body: Some("hello".to_string()),
        user: author(2, "bob"),
        created_at: 10,
        updated_at,
    };
    assert_eq!(db.process_comment(comment(1, None), 5), ProcessStatus::Unchanged);
    assert_eq!(db, Database::new());

    db.process_issue(widget(), issue(5, 200), 0);
    assert_eq!(db.process_comment(comment(1, None), 5), ProcessStatus::New);
    assert_eq!(
        db.comments,
        vec![schema::Comment {
            comment_id: 1,
            author: 1,
            text: "hello".to_string(),
            issue_or_pr: 0,
            created_timestamp: 10,
            updated_timestamp: 10,
        }]
    );
    assert_eq!(db.process_comment(comment(1, None), 5), ProcessStatus::Unchanged);
    assert_eq!(db.process_comment(comment(1, Some(12)), 5), ProcessStatus::Updated);
    assert_eq!(db.comments[0].updated_timestamp, 12);
    assert_eq!(db.find_comment(1), Some(0));
    assert_eq!(db.find_comment(2), None);
    assert_eq!(db.find_shared(5), Some(0));
    assert_eq!(db.find_issue(0), Some(0));
}

#[test]
fn a_new_user_alone_makes_an_observation_new() {
    let mut db = Database::new();
    db.process_issue(widget(), issue(5, 200), 0);
    let mut assigned = issue(5, 200);
    assigned.assignees = vec![author(1, "ann")];
    assert_eq!(db.process_issue(widget(), assigned, 0), ProcessStatus::New);
    let mut labelled = issue(5, 200);
    labelled.assignees = vec![author(1, "ann")];
    labelled.labels = vec![label("bug", "red")];
    assert_eq!(db.process_issue(widget(), labelled, 0), ProcessStatus::New);
    let mut relabelled = issue(5, 200);
    relabelled.assignees = vec![author(1, "ann")];
    relabelled.labels = vec![label("bug", "blue")];
    assert_eq!(db.process_issue(widget(), relabelled, 0), ProcessStatus::Unchanged);
    assert_eq!(db.labels[0].color, "blue");
}

#[test]
fn a_new_label_link_alone_makes_an_observation_new() {
    let mut db = Database::new();
    let mut labelled = issue(5, 200);
    labelled.labels = vec![label("bug", "red")];
    db.process_issue(widget(), labelled, 0);
    db.process_issue(widget(), issue(6, 200), 0);
    assert_eq!(db.process_issue(widget(), issue(6, 200), 0), ProcessStatus::Unchanged);
    let links = db.label_links.len();
    let labels = db.labels.len();

    let mut gained = issue(6, 200);
    gained.labels = vec![label("bug", "red")];
    assert_eq!(db.process_issue(widget(), gained, 0), ProcessStatus::New);
    assert_eq!(db.labels.len(), labels);
    assert_eq!(db.label_links.len(), links + 1);
    let mut again = issue(6, 200);
    again.labels = vec![label("bug", "red")];
    assert_eq!(db.process_issue(widget(), again, 0), ProcessStatus::Unchanged);
}
