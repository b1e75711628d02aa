use github_db::database::links::{contains_row, find_link};
use github_db::database::process::{
    assignees_of, closed_at_timestamp, count_of, is_closed, listed_or_empty, lock_reason_of,
    value_or,
};
use github_db::models::{Author, Comment, Issue, IssueState, Label};
use github_db::schema::{
    lock_reason_from_locked, migrate, Assignment, Database, MigrateError, OLDEST_VERSION, VERSION,
};
use github_db::{first_positions, parse_repos, GithubCredentials, GithubDb, ProcessStatus, Repo};

fn widget() -> Repo {
    Repo { organization: "acme".to_string(), name: "widget".to_string() }
}

fn author(id: u64, login: &str) -> Author {
    Author { id, login: login.to_string(), name: None }
}

fn issue(number: u64, user: Author, assignees: Vec<Author>, labels: Vec<&str>) -> Issue {
    Issue {
        number,
        state: IssueState::Open,
        state_reason: None,
        title: format!("issue {}", number),
        body: None,
        user,
        labels: labels
            .into_iter()
            .map(|name| Label { name: name.to_string(), description: None, color: "red".to_string() })
            .collect(),
        assignees,
        author_association: None,
        locked: false,
        active_lock_reason: None,
        closed_at: None,
        closed_by: None,
        created_at: 100,
        updated_at: 200,
    }
}

#[test]
fn a_store_is_brought_forward_and_never_backward() {
    assert_eq!((OLDEST_VERSION, VERSION), (0, 1));
    assert_eq!(migrate(0), Ok(1));
    assert_eq!(migrate(1), Ok(0));
    assert_eq!(migrate(2), Err(MigrateError::Newer));
    assert_eq!(migrate(i64::MAX), Err(MigrateError::Newer));
    assert_eq!(migrate(-1), Err(MigrateError::Older));
}

#[test]
fn a_lock_reason_is_made_of_the_old_flag() {
    assert_eq!(lock_reason_from_locked(false), None);
    assert_eq!(lock_reason_from_locked(true), Some(String::new()));
}

#[test]
fn what_is_stored_for_what_the_upstream_left_out() {
    assert_eq!(closed_at_timestamp(true, Some(5), 9), Some(5));
    assert_eq!(closed_at_timestamp(true, None, 9), Some(9));
    assert_eq!(closed_at_timestamp(false, Some(5), 9), None);
    assert_eq!(lock_reason_of(false, Some("spam".to_string())), None);
    assert_eq!(lock_reason_of(true, None), Some(String::new()));
    assert_eq!(lock_reason_of(true, Some("spam".to_string())), Some("spam".to_string()));
    assert_eq!(count_of(None), 0);
    assert_eq!(count_of(Some(17)), 17);
    assert_eq!(count_of(Some(u64::MAX)), -1);
    assert_eq!(value_or(None, 4), 4);
    assert_eq!(value_or(Some(3), 4), 3);
    assert!(is_closed(Some(IssueState::Closed)));
    assert!(!is_closed(Some(IssueState::Open)));
    assert!(!is_closed(None));
    assert_eq!(listed_or_empty::<u8>(None), Vec::<u8>::new());
    assert_eq!(listed_or_empty(Some(vec![1, 2])), vec![1, 2]);
    assert_eq!(assignees_of(None, None), vec![]);
    assert_eq!(assignees_of(None, Some(author(1, "ann"))), vec![author(1, "ann")]);
    assert_eq!(
        assignees_of(Some(vec![author(2, "bob")]), Some(author(1, "ann"))),
        vec![author(2, "bob")]
    );
    assert_eq!(assignees_of(Some(vec![]), Some(author(1, "ann"))), vec![]);
}

#[test]
fn links_are_found_by_parent_and_member() {
    let links = vec![
        Assignment { user: 1, issue_or_pr: 7, outdated: false },
        Assignment { user: 2, issue_or_pr: 7, outdated: true },
        Assignment { user: 1, issue_or_pr: 8, outdated: false },
    ];
    assert_eq!(find_link(&links, 7, 2), Some(1));
    assert_eq!(find_link(&links, 8, 1), Some(2));
    assert_eq!(find_link(&links, 8, 2), None);
    assert!(contains_row(&vec![4, 9], 9));
    assert!(!contains_row(&vec![4, 9], 5));
}

#[test]
fn repos_are_read_in_order() {
    assert_eq!(parse_repos(&[]), Ok(vec![]));
    assert_eq!(
        parse_repos(&["acme/widget", "rust-lang/rust"]),
        Ok(vec![widget(), Repo { organization: "rust-lang".to_string(), name: "rust".to_string() }])
    );
    assert_eq!(parse_repos(&["nothing", "acme/widget", "neither"]), Err(0));
    assert_eq!(first_positions(0), Vec::<usize>::new());
    assert_eq!(first_positions(3), vec![0, 1, 2]);
}

#[test]
fn a_page_that_shares_users_and_labels_is_unchanged_on_the_second_pass() {
    let credentials =
        vec![GithubCredentials { app_id: "id".to_string(), app_secret: "sec".to_string() }];
    let mut m = GithubDb::new(Database::new(), &credentials, 0, &[], 0);
    let page = || {
        vec![
            issue(1, author(1, "ann"), vec![author(2, "bob"), author(1, "ann")], vec!["bug"]),
            issue(2, author(2, "bob"), vec![author(1, "ann")], vec!["bug", "docs"]),
            issue(3, author(3, "cat"), vec![], vec!["docs"]),
        ]
    };
    assert!(m.process_issues(&widget(), page(), 1_000));
    assert_eq!(m.db.requests.len(), 3);
    let after_first = format!("{:?}", m);
    assert!(!m.process_issues(&widget(), page(), 2_000));
    assert_eq!(format!("{:?}", m), after_first);
    assert_eq!(m.db.users.len(), 3);
    assert_eq!(m.db.labels.len(), 2);
    assert_eq!(m.db.assignments.len(), 3);
    assert_eq!(m.db.label_links.len(), 4);
}

#[test]
fn a_page_of_comments_is_unchanged_on_the_second_pass() {
    let credentials =
        vec![GithubCredentials { app_id: "id".to_string(), app_secret: "sec".to_string() }];
    let mut m = GithubDb::new(Database::new(), &credentials, 0, &[], 0);
    m.db.process_issue(widget(), issue(1, author(1, "ann"), vec![], vec![]), 0);
    let page = || {
        (10..13)
            .map(|id| Comment {
                id,
                body: Some(format!("comment {}", id)),
                user: author(id % 2 + 1, "someone"),
                created_at: 5,
                updated_at: None,
            })
            .collect::<Vec<_>>()
    };
    assert!(m.process_comments(&widget(), page(), 1));
    let after_first = format!("{:?}", m.db);
    assert!(!m.process_comments(&widget(), page(), 1));
    assert_eq!(format!("{:?}", m.db), after_first);
    assert!(!m.process_comments(&widget(), page(), 99));
    assert_eq!(format!("{:?}", m.db), after_first);
    assert_eq!(m.process_comment(widget(), page().remove(0), 1), ProcessStatus::Unchanged);
}
