use github_db::database::links::{
    confirm_link, delete_rows, mark_outdated, outdated_rows, reconcile_links,
};
use github_db::models::{Author, Issue, IssueState, Label};
use github_db::schema::{Assignment, Database, LabelLink, ReviewRequest};
use github_db::{ProcessStatus, Repo};

fn widget() -> Repo {
    Repo { organization: "acme".to_string(), name: "widget".to_string() }
}

fn author(id: u64) -> Author {
    Author { id, login: format!("user{}", id), name: None }
}

fn issue(number: u64, assignees: Vec<Author>, labels: Vec<&str>) -> Issue {
    Issue {
        number,
        state: IssueState::Open,
        state_reason: None,
        title: "a title".to_string(),
        body: None,
        user: author(100),
        labels: labels
            .into_iter()
            .map(|name| Label { name: name.to_string(), description: None, color: "red".to_string() })
            .collect(),
        assignees,
        author_association: None,
        locked: false,
        active_lock_reason: None,
        closed_at: None,
        closed_by: None,
        created_at: 100,
        updated_at: 200,
    }
}

#[test]
fn assignments_follow_the_observed_set() {
    let mut db = Database::new();
    db.process_issue(widget(), issue(1, vec![author(1), author(2)], vec![]), 0);
    let u1 = db.find_user(1).unwrap();
    let u2 = db.find_user(2).unwrap();
    let s = db.find_shared(1).unwrap();
    assert_eq!(
        db.assignments,
        vec![
            Assignment { user: u1, issue_or_pr: s, outdated: false },
            Assignment { user: u2, issue_or_pr: s, outdated: false },
        ]
    );

    db.process_issue(widget(), issue(1, vec![author(2), author(3)], vec![]), 0);
    let u3 = db.find_user(3).unwrap();
    assert_eq!(
        db.assignments,
        vec![
            Assignment { user: u2, issue_or_pr: s, outdated: false },
            Assignment { user: u3, issue_or_pr: s, outdated: false },
        ]
    );
    assert_eq!(db.users.len(), 4);
}

#[test]
fn label_links_follow_the_observed_set() {
    let mut db = Database::new();
    db.process_issue(widget(), issue(1, vec![], vec!["bug", "docs"]), 0);
    db.process_issue(widget(), issue(2, vec![], vec!["docs"]), 0);
    db.process_issue(widget(), issue(1, vec![], vec!["docs", "easy"]), 0);
    assert_eq!(
        db.label_links,
        vec![
            LabelLink { issue_or_pr: 0, label: 1, outdated: false },
            LabelLink { issue_or_pr: 1, label: 1, outdated: false },
            LabelLink { issue_or_pr: 0, label: 2, outdated: false },
        ]
    );
    assert_eq!(db.labels.len(), 3);
}

#[test]
fn the_links_of_other_parents_are_left_alone() {
    let mut db = Database::new();
    db.process_issue(widget(), issue(1, vec![author(1)], vec![]), 0);
    db.process_issue(widget(), issue(2, vec![author(1), author(2)], vec![]), 0);
    db.process_issue(widget(), issue(1, vec![], vec![]), 0);
    assert_eq!(
        db.assignments,
        vec![
            Assignment { user: 1, issue_or_pr: 1, outdated: false },
            Assignment { user: 2, issue_or_pr: 1, outdated: false },
        ]
    );
}

#[test]
fn reconciliation_marks_confirms_and_reports() {
    let mut links = vec![
        Assignment { user: 1, issue_or_pr: 7, outdated: false },
        Assignment { user: 2, issue_or_pr: 7, outdated: false },
        Assignment { user: 1, issue_or_pr: 8, outdated: false },
    ];
    let (inserted, outdated) = reconcile_links(&mut links, 7, &vec![2, 3]);
    assert!(inserted);
    assert_eq!(outdated, vec![0]);
    assert_eq!(
        links,
        vec![
            Assignment { user: 1, issue_or_pr: 7, outdated: true },
            Assignment { user: 2, issue_or_pr: 7, outdated: false },
            Assignment { user: 1, issue_or_pr: 8, outdated: false },
            Assignment { user: 3, issue_or_pr: 7, outdated: false },
        ]
    );
    delete_rows(&mut links, &outdated);
    assert_eq!(
        links,
        vec![
            Assignment { user: 2, issue_or_pr: 7, outdated: false },
            Assignment { user: 1, issue_or_pr: 8, outdated: false },
            Assignment { user: 3, issue_or_pr: 7, outdated: false },
        ]
    );
    let (inserted, outdated) = reconcile_links(&mut links, 7, &vec![2, 3]);
    assert!(!inserted);
    assert!(outdated.is_empty());
}

#[test]
fn the_steps_of_reconciliation() {
    let mut links = vec![
        LabelLink { issue_or_pr: 1, label: 4, outdated: false },
        LabelLink { issue_or_pr: 2, label: 4, outdated: false },
        LabelLink { issue_or_pr: 1, label: 5, outdated: true },
    ];
    mark_outdated(&mut links, 1);
    assert_eq!(
        links,
        vec![
            LabelLink { issue_or_pr: 1, label: 4, outdated: true },
            LabelLink { issue_or_pr: 2, label: 4, outdated: false },
            LabelLink { issue_or_pr: 1, label: 5, outdated: true },
        ]
    );
    assert_eq!(outdated_rows(&links, 1), vec![0, 2]);
    assert_eq!(outdated_rows(&links, 2), Vec::<usize>::new());
    assert!(!confirm_link(&mut links, 1, 5));
    assert!(confirm_link(&mut links, 1, 6));
    assert_eq!(outdated_rows(&links, 1), vec![0]);
    assert_eq!(links.len(), 4);
    assert_eq!(links[3], LabelLink { issue_or_pr: 1, label: 6, outdated: false });
}

#[test]
fn a_link_that_is_added_makes_the_observation_new() {
    let mut db = Database::new();
    let mut status = ProcessStatus::Unchanged;
    let outdated = db.update_label_assignments(&mut status, 0, vec![1, 2]);
    assert!(outdated.is_empty());
    assert_eq!(status, ProcessStatus::New);
    assert_eq!(db.label_links.len(), 2);

    let mut status = ProcessStatus::Updated;
    let outdated = db.update_label_assignments(&mut status, 0, vec![2, 1]);
    assert!(outdated.is_empty());
    assert_eq!(status, ProcessStatus::Updated);
    assert_eq!(db.label_links.len(), 2);

    let mut status = ProcessStatus::Unchanged;
    let outdated = db.update_label_assignments(&mut status, 0, vec![2]);
    assert_eq!(outdated, vec![0]);
    assert_eq!(status, ProcessStatus::Unchanged);

    let mut status = ProcessStatus::Unchanged;
    let outdated = db.update_assignments(&mut status, 0, vec![1]);
    assert!(outdated.is_empty());
    assert_eq!(status, ProcessStatus::New);

    let mut status = ProcessStatus::Unchanged;
    let outdated = db.update_assignments(&mut status, 0, vec![]);
    assert_eq!(outdated, vec![0]);
    assert_eq!(status, ProcessStatus::Unchanged);
    db.delete_assignments(&outdated);
    assert!(db.assignments.is_empty());

    let mut status = ProcessStatus::Unchanged;
    db.update_review_requests(&mut status, 3, vec![9]);
    assert_eq!(status, ProcessStatus::New);
    assert_eq!(db.review_requests, vec![ReviewRequest { user: 9, pr: 3, outdated: false }]);
}

#[test]
fn deleting_rows_keeps_the_order_of_the_rest() {
    let mut rows = vec![10, 11, 12, 13, 14];
    delete_rows(&mut rows, &vec![3, 0, 9]);
    assert_eq!(rows, vec![11, 12, 14]);
    delete_rows(&mut rows, &vec![]);
    assert_eq!(rows, vec![11, 12, 14]);
}
