use github_db::requests::{ListType, Priority, Request};
use github_db::schema::{self, Database};
use github_db::{GithubCredentials, GithubDb, ProcessStatus, Repo};

fn widget() -> Repo {
    Repo { organization: "acme".to_string(), name: "widget".to_string() }
}

fn mirror() -> GithubDb {
    let credentials =
        vec![GithubCredentials { app_id: "id".to_string(), app_secret: "sec".to_string() }];
    GithubDb::new(Database::new(), &credentials, 1200, &[], 0)
}

fn comments(issue_number: u64) -> Request {
    Request::Comments { repo: widget(), issue_number, since_timestamp: None, page: 0, url: None }
}

fn new_pr(page: usize) -> Request {
    Request::NewPr { repo: widget(), page, url: None }
}

#[test]
fn sequence_numbers_grow_with_every_request() {
    let mut m = mirror();
    assert_eq!(m.request_sequence_number, 1);
    m.add_req(Priority::Update, new_pr(0));
    m.add_req(Priority::Comments, comments(7));
    m.add_req(Priority::Index, new_pr(1));
    let numbers: Vec<i64> = m.db.requests.iter().map(|r| r.sequence_number).collect();
    assert_eq!(numbers, vec![1, 2, 3]);
    assert_eq!(m.request_sequence_number, 4);
}

#[test]
fn a_row_holds_category_tag_and_request() {
    let mut m = mirror();
    m.add_req(Priority::Comments, comments(7));
    assert_eq!(
        m.db.requests,
        vec![schema::Request {
            category: 2,
            sequence_number: 1,
            data: Some(comments(7)),
            name: "Comments".to_string(),
        }]
    );
}

#[test]
fn the_tags_name_the_variants() {
    let repo = widget();
    assert_eq!(Request::OldPr { repo: repo.clone(), page: 0, url: None }.name(), "OldPr");
    assert_eq!(Request::NewPr { repo: repo.clone(), page: 0, url: None }.name(), "NewPr");
    assert_eq!(Request::OldIssue { repo: repo.clone(), page: 0, url: None }.name(), "OldIssue");
    assert_eq!(Request::NewIssue { repo: repo.clone(), page: 0, url: None }.name(), "NewIssue");
    assert_eq!(comments(1).name(), "Comments");
}

#[test]
fn categories_have_their_codes_and_shares() {
    assert_eq!(Priority::Update.code(), 0);
    assert_eq!(Priority::Index.code(), 1);
    assert_eq!(Priority::Comments.code(), 2);
    assert_eq!(Priority::from_code(0), Some(Priority::Update));
    assert_eq!(Priority::from_code(1), Some(Priority::Index));
    assert_eq!(Priority::from_code(2), Some(Priority::Comments));
    assert_eq!(Priority::from_code(3), None);
    assert_eq!(Priority::from_code(-1), None);
    assert_eq!(Priority::all(), [Priority::Update, Priority::Comments, Priority::Index]);
    assert_eq!(Priority::Update.tenths(), 3);
    assert_eq!(Priority::Comments.tenths(), 6);
    assert_eq!(Priority::Index.tenths(), 1);
    let total: u64 = Priority::all().iter().map(|c| c.tenths()).sum();
    assert_eq!(total, 10);
    assert_eq!(ListType::New.as_str(), "new");
    assert_eq!(ListType::Old.as_str(), "old");
}

#[test]
fn requests_leave_first_in_first_out_within_a_category() {
    let mut m = mirror();
    m.add_req(Priority::Update, new_pr(0));
    m.add_req(Priority::Comments, comments(1));
    m.add_req(Priority::Update, new_pr(1));
    m.add_req(Priority::Comments, comments(2));
    m.add_req(Priority::Update, new_pr(2));
    assert_eq!(m.db.next_request(Priority::Comments), Some(comments(1)));
    assert_eq!(m.db.next_request(Priority::Update), Some(new_pr(0)));
    assert_eq!(m.db.next_request(Priority::Update), Some(new_pr(1)));
    assert_eq!(m.db.next_request(Priority::Comments), Some(comments(2)));
    assert_eq!(m.db.next_request(Priority::Comments), None);
    assert_eq!(m.db.next_request(Priority::Index), None);
    assert_eq!(m.db.next_request(Priority::Update), Some(new_pr(2)));
    assert_eq!(m.db.next_request(Priority::Update), None);
    assert!(m.db.requests.is_empty());
}

#[test]
fn the_least_sequence_number_leaves_first_wherever_it_stands() {
    let mut db = Database::new();
    for (n, page) in [(9i64, 9usize), (3, 3), (5, 5)] {
        db.requests.push(schema::Request {
            category: 0,
            sequence_number: n,
            data: Some(new_pr(page)),
            name: "NewPr".to_string(),
        });
    }
    assert_eq!(db.find_oldest(0), Some(1));
    assert_eq!(db.find_oldest(1), None);
    assert_eq!(db.next_request(Priority::Update), Some(new_pr(3)));
    assert_eq!(db.next_request(Priority::Update), Some(new_pr(5)));
    assert_eq!(db.next_request(Priority::Update), Some(new_pr(9)));
}

#[test]
fn a_row_that_cannot_be_read_does_not_block_the_queue() {
    let mut m = mirror();
    m.db.requests.push(schema::Request {
        category: 0,
        sequence_number: -5,
        data: None,
        name: "Gone".to_string(),
    });
    m.add_req(Priority::Update, new_pr(0));
    m.add_req(Priority::Index, new_pr(4));
    assert_eq!(m.db.next_request(Priority::Update), Some(new_pr(0)));
    let left: Vec<i64> = m.db.requests.iter().map(|r| r.sequence_number).collect();
    assert_eq!(left, vec![2]);
}

#[test]
fn a_queue_of_unreadable_rows_is_emptied() {
    let mut db = Database::new();
    for n in 0..3 {
        db.requests.push(schema::Request {
            category: 2,
            sequence_number: n,
            data: None,
            name: "Gone".to_string(),
        });
    }
    db.requests.push(schema::Request {
        category: 1,
        sequence_number: 3,
        data: None,
        name: "Gone".to_string(),
    });
    assert_eq!(db.next_request(Priority::Comments), None);
    assert_eq!(db.requests.len(), 1);
    assert_eq!(db.requests[0].category, 1);
}

#[test]
fn a_sequence_number_is_never_used_twice() {
    let mut m = mirror();
    m.db.requests.push(schema::Request {
        category: 0,
        sequence_number: 1,
        data: Some(new_pr(8)),
        name: "NewPr".to_string(),
    });
    m.add_req(Priority::Update, new_pr(0));
    assert_eq!(m.db.requests.len(), 1);
    assert_eq!(m.db.requests[0].data, Some(new_pr(8)));
    assert_eq!(m.request_sequence_number, 2);
    m.add_req(Priority::Update, new_pr(0));
    assert_eq!(m.db.requests.len(), 2);
    assert_eq!(m.db.requests[1].sequence_number, 2);
}

#[test]
fn the_count_starts_over_after_the_greatest_number() {
    let mut m = mirror();
    m.request_sequence_number = i64::MAX;
    m.add_req(Priority::Update, new_pr(0));
    assert_eq!(m.db.requests[0].sequence_number, i64::MAX);
    assert_eq!(m.request_sequence_number, i64::MIN);
}

#[test]
fn a_mirror_resumes_after_the_greatest_sequence_number() {
    let mut db = Database::new();
    for n in [4i64, 17, 9] {
        db.requests.push(schema::Request {
            category: 1,
            sequence_number: n,
            data: Some(new_pr(0)),
            name: "NewPr".to_string(),
        });
    }
    assert_eq!(db.max_sequence_number(), Some(17));
    let credentials =
        vec![GithubCredentials { app_id: "id".to_string(), app_secret: "sec".to_string() }];
    let m = GithubDb::new(db, &credentials, 1200, &[], 0);
    assert_eq!(m.request_sequence_number, 18);
    assert_eq!(Database::new().max_sequence_number(), None);
}

#[test]
fn comment_requests_follow_the_classification() {
    let mut m = mirror();
    m.add_comments_updated_req(ProcessStatus::Unchanged, widget(), Some(1_000), 5);
    assert!(m.db.requests.is_empty());
    m.add_comments_updated_req(ProcessStatus::New, widget(), Some(1_000), 5);
    m.add_comments_updated_req(ProcessStatus::Updated, widget(), Some(1_000), 6);
    m.add_comments_updated_req(ProcessStatus::Updated, widget(), None, 7);
    m.add_comments_updated_req(ProcessStatus::Updated, widget(), Some(i64::MIN + 3), 8);
    let queued: Vec<(i64, Request)> =
        m.db.requests.iter().map(|r| (r.category, r.data.clone().unwrap())).collect();
    let with_since = |issue_number, since_timestamp| Request::Comments {
        repo: widget(),
        issue_number,
        since_timestamp,
        page: 0,
        url: None,
    };
    assert_eq!(
        queued,
        vec![
            (2, with_since(5, None)),
            (2, with_since(6, Some(900))),
            (2, with_since(7, None)),
            (2, with_since(8, Some(i64::MIN))),
        ]
    );
}

#[test]
fn what_is_queued_after_a_restart_is_numbered_above_what_was_found() {
    let mut db = Database::new();
    for n in [4i64, 17, 9] {
        db.requests.push(schema::Request {
            category: 1,
            sequence_number: n,
            data: Some(new_pr(0)),
            name: "NewPr".to_string(),
        });
    }
    let found = db.requests.clone();
    let credentials =
        vec![GithubCredentials { app_id: "id".to_string(), app_secret: "sec".to_string() }];
    let mut m = GithubDb::new(db, &credentials, 1200, &["acme/widget"], 0);
    m.add_req(Priority::Comments, comments(7));
    assert_eq!(m.db.requests[..3], found[..]);
    let numbers: Vec<i64> = m.db.requests[3..].iter().map(|r| r.sequence_number).collect();
    assert_eq!(numbers, vec![18, 19, 20, 21, 22]);
    assert_eq!(m.request_sequence_number, 23);
}

#[test]
fn a_call_takes_one_readable_request_and_no_more() {
    let mut m = mirror();
    m.add_req(Priority::Comments, comments(1));
    m.add_req(Priority::Update, new_pr(0));
    m.add_req(Priority::Comments, comments(2));
    m.db.requests[0].data = None;
    m.add_req(Priority::Comments, comments(3));
    let readable = |m: &GithubDb, c: Priority| {
        m.db.requests.iter().filter(|r| r.category == c.code() && r.data.is_some()).count()
    };
    assert_eq!(readable(&m, Priority::Comments), 2);
    assert_eq!(m.db.next_request(Priority::Comments), Some(comments(2)));
    assert_eq!(readable(&m, Priority::Comments), 1);
    assert_eq!(readable(&m, Priority::Update), 1);
    assert_eq!(m.db.next_request(Priority::Index), None);
    assert_eq!(readable(&m, Priority::Comments), 1);
    assert_eq!(readable(&m, Priority::Update), 1);
}
