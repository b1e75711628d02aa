use github_db::requests::{Priority, Request};
use github_db::schema::{self, Database};
use github_db::{GithubCredentials, GithubDb, Interval, Repo, Stats, REFRESH_PERIOD};

const SECOND: u64 = 1_000_000_000;

fn widget() -> Repo {
    Repo { organization: "acme".to_string(), name: "widget".to_string() }
}

fn gadget() -> Repo {
    Repo { organization: "acme".to_string(), name: "gadget".to_string() }
}

fn credentials(n: usize) -> Vec<GithubCredentials> {
    (0..n)
        .map(|i| GithubCredentials { app_id: format!("id{}", i), app_secret: "sec".to_string() })
        .collect()
}

fn names(m: &GithubDb) -> Vec<(i64, String)> {
    m.db.requests.iter().map(|r| (r.category, r.name.clone())).collect()
}

#[test]
fn the_refresh_timer_is_due_once_a_minute() {
    assert_eq!(REFRESH_PERIOD, 60 * SECOND);
    let mut timer = Interval::new(REFRESH_PERIOD, 5 * SECOND);
    assert_eq!(timer, Interval { period: 60 * SECOND, deadline: 65 * SECOND });
    assert!(!timer.poll_tick(64 * SECOND));
    assert!(timer.poll_tick(65 * SECOND));
    assert_eq!(timer.deadline, 125 * SECOND);
    assert!(!timer.poll_tick(66 * SECOND));
    assert!(timer.poll_tick(400 * SECOND));
    assert!(timer.poll_tick(400 * SECOND));
    assert_eq!(timer.deadline, 245 * SECOND);
    let mut late = Interval::new(REFRESH_PERIOD, u64::MAX - 1);
    assert_eq!(late.deadline, u64::MAX);
    assert!(late.poll_tick(u64::MAX));
    assert_eq!(late.deadline, u64::MAX);
}

#[test]
fn a_minute_of_ticks_queues_one_refresh() {
    let mut m = GithubDb::new(Database::new(), &credentials(1), 0, &["acme/widget"], 0);
    assert_eq!(m.db.requests.len(), 4);
    let mut handed = 0;
    for tick in 1..=12 {
        handed += m.update(tick * 5 * SECOND).len();
        if tick < 12 {
            assert_eq!(m.db.requests.len(), 4);
        }
    }
    assert_eq!(handed, 0);
    assert_eq!(
        names(&m),
        vec![
            (1, "OldPr".to_string()),
            (1, "OldIssue".to_string()),
            (0, "NewPr".to_string()),
            (0, "NewIssue".to_string()),
            (0, "NewPr".to_string()),
            (0, "NewIssue".to_string()),
        ]
    );
    assert_eq!(
        m.db.requests[4].data,
        Some(Request::NewPr { repo: widget(), page: 0, url: None })
    );
    assert_eq!(
        m.db.requests[5].data,
        Some(Request::NewIssue { repo: widget(), page: 0, url: None })
    );
    assert_eq!(m.request_sequence_number, 7);
}

#[test]
fn a_tick_hands_out_what_the_budget_pays_for() {
    let mut m = GithubDb::new(Database::new(), &credentials(1), 100, &["acme/widget"], 0);
    let handed = m.update(0);
    assert_eq!(
        handed,
        vec![
            Request::NewPr { repo: widget(), page: 0, url: None },
            Request::NewIssue { repo: widget(), page: 0, url: None },
            Request::OldPr { repo: widget(), page: 0, url: None },
            Request::OldIssue { repo: widget(), page: 0, url: None },
        ]
    );
    assert!(m.db.requests.is_empty());
    assert!(m.update(59 * SECOND).is_empty());
    let handed = m.update(60 * SECOND);
    assert_eq!(
        handed,
        vec![
            Request::NewPr { repo: widget(), page: 0, url: None },
            Request::NewIssue { repo: widget(), page: 0, url: None },
        ]
    );
    assert_eq!(m.request_sequence_number, 7);
}

#[test]
fn a_small_budget_waits_for_its_tokens() {
    let mut m = GithubDb::new(Database::new(), &credentials(1), 10, &["acme/widget"], 0);
    assert!(m.update(0).is_empty());
    assert_eq!(m.db.requests.len(), 4);
    let handed = m.update(360 * SECOND);
    assert_eq!(handed, vec![Request::OldPr { repo: widget(), page: 0, url: None }]);
    let left: Vec<i64> = m.db.requests.iter().map(|r| r.sequence_number).collect();
    assert_eq!(left, vec![2, 3, 4, 5, 6]);
}

#[test]
fn a_traversal_from_the_oldest_is_started_once_for_each_repo() {
    let mut db = Database::new();
    db.requests.push(schema::Request {
        category: Priority::Update.code(),
        sequence_number: 40,
        data: Some(Request::OldPr { repo: widget(), page: 17, url: None }),
        name: "OldPr".to_string(),
    });
    db.requests.push(schema::Request {
        category: Priority::Index.code(),
        sequence_number: 41,
        data: Some(Request::OldIssue { repo: gadget(), page: 3, url: None }),
        name: "OldIssue".to_string(),
    });
    db.requests.push(schema::Request {
        category: Priority::Index.code(),
        sequence_number: 42,
        data: None,
        name: "OldIssue".to_string(),
    });
    assert!(db.has_old_pr(&widget()));
    assert!(!db.has_old_pr(&gadget()));
    assert!(!db.has_old_issue(&widget()));
    assert!(db.has_old_issue(&gadget()));
    let m = GithubDb::new(db, &credentials(1), 100, &["acme/widget", "acme/gadget"], 0);
    let queued: Vec<(i64, i64, Option<Request>)> =
        m.db.requests.iter().skip(3).map(|r| (r.sequence_number, r.category, r.data.clone())).collect();
    let request = |r| Some(r);
    assert_eq!(
        queued,
        vec![
            (43, 1, request(Request::OldIssue { repo: widget(), page: 0, url: None })),
            (44, 0, request(Request::NewPr { repo: widget(), page: 0, url: None })),
            (45, 0, request(Request::NewIssue { repo: widget(), page: 0, url: None })),
            (46, 1, request(Request::OldPr { repo: gadget(), page: 0, url: None })),
            (47, 0, request(Request::NewPr { repo: gadget(), page: 0, url: None })),
            (48, 0, request(Request::NewIssue { repo: gadget(), page: 0, url: None })),
        ]
    );
}

#[test]
fn a_refresh_queues_two_requests_for_each_repo() {
    let mut m =
        GithubDb::new(Database::new(), &credentials(1), 0, &["acme/widget", "acme/gadget"], 0);
    m.db.requests.clear();
    m.refresh();
    assert_eq!(
        m.db.requests.iter().map(|r| r.data.clone().unwrap()).collect::<Vec<_>>(),
        vec![
            Request::NewPr { repo: widget(), page: 0, url: None },
            Request::NewIssue { repo: widget(), page: 0, url: None },
            Request::NewPr { repo: gadget(), page: 0, url: None },
            Request::NewIssue { repo: gadget(), page: 0, url: None },
        ]
    );
    assert!(m.db.requests.iter().all(|r| r.category == 0));
}

#[test]
fn the_identities_take_turns() {
    let mut m = GithubDb::new(Database::new(), &credentials(3), 0, &[], 0);
    assert_eq!(m.octocrabs, vec![0, 1, 2]);
    let turns: Vec<usize> = (0..7).map(|_| m.octocrab()).collect();
    assert_eq!(turns, vec![1, 2, 0, 1, 2, 0, 1]);
    let mut single = GithubDb::new(Database::new(), &credentials(1), 0, &[], 0);
    assert_eq!(single.octocrab(), 0);
    assert_eq!(single.octocrab(), 0);
}

#[test]
fn the_mirror_counts_its_rows() {
    let mut m = GithubDb::new(Database::new(), &credentials(1), 1200, &["acme/widget"], 0);
    assert_eq!(
        m.stats(),
        Stats {
            num_prs: 0,
            num_issues: 0,
            num_shared: 0,
            num_users: 0,
            num_comments: 0,
            num_labels: 0,
            num_requests: 4,
            requests_per_hour: 1200,
        }
    );
    m.db.users.push(schema::User {
        github_id: 1,
        name: "ann".to_string(),
        display_name: "Ann".to_string(),
    });
    m.db.issues.push(schema::Issue { shared: 0 });
    assert_eq!(m.stats().num_users, 1);
    assert_eq!(m.stats().num_issues, 1);
    assert_eq!(m.transaction(|db| db.users[0].display_name.clone()), "Ann");
}
