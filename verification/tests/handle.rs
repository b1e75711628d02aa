use github_db::clock::{UTC_MAX, UTC_MIN};
use github_db::models::{Author, Comment, Issue, IssueState, PullRequest};
use github_db::requests::handle::{
    follow_up_comments, follow_up_list, next_page_number, Direction, ItemKind, Page, Query,
    SortKey, StateFilter, PAGE_SIZE,
};
use github_db::requests::{ListType, Priority, Request};
use github_db::schema::Database;
use github_db::{GithubCredentials, GithubDb, Repo};

fn widget() -> Repo {
    Repo { organization: "acme".to_string(), name: "widget".to_string() }
}

fn mirror() -> GithubDb {
    let credentials =
        vec![GithubCredentials { app_id: "id".to_string(), app_secret: "sec".to_string() }];
    GithubDb::new(Database::new(), &credentials, 1200, &[], 0)
}

fn author() -> Author {
    Author { id: 1, login: "ann".to_string(), name: None }
}

fn pull(number: u64, updated_at: i64) -> PullRequest {
    PullRequest {
        number,
        state: Some(IssueState::Open),
        locked: false,
        maintainer_can_modify: false,
        title: Some(format!("pull {}", number)),
        user: Some(author()),
        body: None,
        labels: Some(vec![]),
        active_lock_reason: None,
        created_at: Some(100),
        updated_at: Some(updated_at),
        closed_at: None,
        mergeable: None,
        mergeable_state: None,
        merged_at: None,
        merged_by: None,
        merge_commit_sha: None,
        assignee: None,
        assignees: Some(vec![]),
        requested_reviewers: Some(vec![]),
        rebaseable: None,
        head_sha: "h".to_string(),
        base_sha: "b".to_string(),
        author_association: None,
        draft: None,
        additions: None,
        deletions: None,
        changed_files: None,
        commits: None,
    }
}

fn issue(number: u64, updated_at: i64) -> Issue {
    Issue {
        number,
        state: IssueState::Open,
        state_reason: None,
        title: format!("issue {}", number),
        body: None,
        user: author(),
        labels: vec![],
        assignees: vec![],
        author_association: None,
        locked: false,
        active_lock_reason: None,
        closed_at: None,
        closed_by: None,
        created_at: 100,
        updated_at,
    }
}

fn queued(m: &GithubDb) -> Vec<(i64, Request)> {
    m.db.requests.iter().map(|r| (r.category, r.data.clone().unwrap())).collect()
}

fn new_pr(page: usize, url: Option<&str>) -> Request {
    Request::NewPr { repo: widget(), page, url: url.map(|u| u.to_string()) }
}

const NEXT: &str = "https://api.example.com/repositories/1/pulls?page=2";

#[test]
fn a_page_with_changes_is_chased() {
    let mut m = mirror();
    let first: Vec<PullRequest> = (1..=100).map(|n| pull(n, 1_000)).collect();
    m.handle_request_at(new_pr(0, None), Page::Pulls { items: first, next: None }, 5_000);
    assert_eq!(queued(&m), vec![(0, new_pr(0, None))]);
    m.db.requests.clear();

    let second: Vec<PullRequest> =
        (1..=100).map(|n| pull(n, if n <= 3 { 2_000 } else { 1_000 })).collect();
    m.handle_request_at(
        new_pr(0, None),
        Page::Pulls { items: second, next: Some(NEXT.to_string()) },
        6_000,
    );
    assert_eq!(queued(&m), vec![(Priority::Update.code(), new_pr(1, Some(NEXT)))]);
    assert_eq!(m.db.shared.len(), 100);
    assert_eq!(m.db.shared[2].updated_timestamp, 2_000);
    assert_eq!(m.db.shared[3].updated_timestamp, 1_000);
}

#[test]
fn a_page_without_changes_is_not_chased() {
    let mut m = mirror();
    let page = || Page::Pulls {
        items: (1..=100).map(|n| pull(n, 1_000)).collect(),
        next: Some(NEXT.to_string()),
    };
    m.handle_request_at(new_pr(0, None), page(), 5_000);
    m.db.requests.clear();
    let before = format!("{:?}", m.db);
    m.handle_request_at(new_pr(0, None), page(), 6_000);
    assert!(m.db.requests.is_empty());
    assert_eq!(format!("{:?}", m.db), before);
}

#[test]
fn a_traversal_from_the_oldest_always_goes_on() {
    let mut m = mirror();
    let old = |page| Request::OldPr { repo: widget(), page, url: None };
    let page = |next: Option<&str>| Page::Pulls {
        items: vec![pull(1, 1_000), pull(2, 1_000)],
        next: next.map(|u| u.to_string()),
    };
    m.handle_request_at(old(4), page(Some(NEXT)), 0);
    m.handle_request_at(old(5), page(Some(NEXT)), 0);
    m.handle_request_at(old(6), page(None), 0);
    assert_eq!(
        queued(&m),
        vec![
            (
                Priority::Update.code(),
                Request::OldPr { repo: widget(), page: 5, url: Some(NEXT.to_string()) }
            ),
            (
                Priority::Index.code(),
                Request::OldPr { repo: widget(), page: 6, url: Some(NEXT.to_string()) }
            ),
            (Priority::Index.code(), Request::OldPr { repo: widget(), page: 0, url: None }),
        ]
    );
}

#[test]
fn issues_that_changed_get_their_comments_fetched() {
    let mut m = mirror();
    let new_issue = |page| Request::NewIssue { repo: widget(), page, url: None };
    m.handle_request_at(
        new_issue(0),
        Page::Issues { items: vec![issue(1, 1_000), issue(2, 1_000)], next: None },
        0,
    );
    let comments = |issue_number, since_timestamp| Request::Comments {
        repo: widget(),
        issue_number,
        since_timestamp,
        page: 0,
        url: None,
    };
    assert_eq!(
        queued(&m),
        vec![(2, comments(1, None)), (2, comments(2, None)), (0, new_issue(0))]
    );
    m.db.requests.clear();

    m.handle_request_at(
        new_issue(0),
        Page::Issues { items: vec![issue(1, 1_000), issue(2, 1_500)], next: None },
        0,
    );
    assert_eq!(queued(&m), vec![(2, comments(2, Some(1_400))), (0, new_issue(0))]);
    m.db.requests.clear();

    let old_issue = |page| Request::OldIssue { repo: widget(), page, url: None };
    m.handle_request_at(
        old_issue(3),
        Page::Issues { items: vec![issue(1, 1_000)], next: Some(NEXT.to_string()) },
        0,
    );
    assert_eq!(
        queued(&m),
        vec![(1, Request::OldIssue { repo: widget(), page: 4, url: Some(NEXT.to_string()) })]
    );
}

#[test]
fn comments_are_chased_while_they_change_and_a_next_page_exists() {
    let mut m = mirror();
    m.db.process_issue(widget(), issue(7, 1_000), 0);
    let comment = |id, updated_at| Comment {
        id,
        body: Some("text".to_string()),
        user: author(),
        created_at: 10,
        updated_at: Some(updated_at),
    };
    let request = |page, url: Option<&str>| Request::Comments {
        repo: widget(),
        issue_number: 7,
        since_timestamp: Some(900),
        page,
        url: url.map(|u| u.to_string()),
    };
    m.handle_request_at(
        request(0, None),
        Page::Comments { items: vec![comment(1, 20), comment(2, 20)], next: None },
        0,
    );
    assert!(m.db.requests.is_empty());
    assert_eq!(m.db.comments.len(), 2);

    m.handle_request_at(
        request(0, None),
        Page::Comments { items: vec![comment(1, 20), comment(2, 20)], next: Some(NEXT.to_string()) },
        0,
    );
    assert!(m.db.requests.is_empty());

    m.handle_request_at(
        request(0, None),
        Page::Comments { items: vec![comment(1, 20), comment(2, 21)], next: Some(NEXT.to_string()) },
        0,
    );
    assert_eq!(queued(&m), vec![(2, request(1, Some(NEXT)))]);
}

#[test]
fn a_page_of_another_kind_is_passed_over() {
    let mut m = mirror();
    m.handle_request_at(
        new_pr(0, None),
        Page::Issues { items: vec![issue(1, 1_000)], next: None },
        0,
    );
    m.handle_request_at(
        Request::Comments {
            repo: widget(),
            issue_number: 1,
            since_timestamp: None,
            page: 0,
            url: None,
        },
        Page::Pulls { items: vec![pull(1, 1_000)], next: Some(NEXT.to_string()) },
        0,
    );
    assert_eq!(m.db, Database::new());
    assert_eq!(m.request_sequence_number, 1);
}

#[test]
fn the_follow_up_of_a_list_page() {
    let none = follow_up_list(ItemKind::Pulls, ListType::New, widget(), 3, false, None);
    assert!(none.is_none());
    let f = follow_up_list(ItemKind::Issues, ListType::New, widget(), 3, true, None).unwrap();
    assert_eq!(f.priority, Priority::Update);
    assert_eq!(f.request, Request::NewIssue { repo: widget(), page: 0, url: None });
    let f = follow_up_list(
        ItemKind::Issues,
        ListType::Old,
        widget(),
        3,
        false,
        Some(NEXT.to_string()),
    )
    .unwrap();
    assert_eq!(f.priority, Priority::Index);
    assert_eq!(
        f.request,
        Request::OldIssue { repo: widget(), page: 4, url: Some(NEXT.to_string()) }
    );
    let f =
        follow_up_list(ItemKind::Pulls, ListType::Old, widget(), 3, true, Some(NEXT.to_string()))
            .unwrap();
    assert_eq!(f.priority, Priority::Update);
    assert_eq!(f.request, Request::OldPr { repo: widget(), page: 4, url: Some(NEXT.to_string()) });
}

#[test]
fn the_follow_up_of_a_comment_page() {
    assert!(follow_up_comments(widget(), 7, Some(5), 2, true, None).is_none());
    assert!(follow_up_comments(widget(), 7, Some(5), 2, false, Some(NEXT.to_string())).is_none());
    let f = follow_up_comments(widget(), 7, Some(5), 2, true, Some(NEXT.to_string())).unwrap();
    assert_eq!(f.priority, Priority::Comments);
    assert_eq!(
        f.request,
        Request::Comments {
            repo: widget(),
            issue_number: 7,
            since_timestamp: Some(5),
            page: 3,
            url: Some(NEXT.to_string()),
        }
    );
}

#[test]
fn the_next_page_number() {
    assert_eq!(next_page_number(0, true), 1);
    assert_eq!(next_page_number(41, true), 42);
    assert_eq!(next_page_number(41, false), 0);
    assert_eq!(next_page_number(usize::MAX, true), usize::MAX);
    assert_eq!(next_page_number(usize::MAX, false), 0);
}

#[test]
fn a_request_without_link_lists_by_page() {
    assert_eq!(PAGE_SIZE, 100);
    assert_eq!(ListType::New.direction(), Direction::Descending);
    assert_eq!(ListType::Old.direction(), Direction::Ascending);
    let list = |kind, direction, page| Query::List {
        kind,
        repo: widget(),
        sort: SortKey::Updated,
        direction,
        state: StateFilter::All,
        page,
        per_page: 100,
    };
    assert_eq!(new_pr(3, None).query(), list(ItemKind::Pulls, Direction::Descending, 3));
    assert_eq!(
        Request::OldPr { repo: widget(), page: 4, url: None }.query(),
        list(ItemKind::Pulls, Direction::Ascending, 4)
    );
    assert_eq!(
        Request::NewIssue { repo: widget(), page: 5, url: None }.query(),
        list(ItemKind::Issues, Direction::Descending, 5)
    );
    assert_eq!(
        Request::OldIssue { repo: widget(), page: 6, url: None }.query(),
        list(ItemKind::Issues, Direction::Ascending, 6)
    );
}

#[test]
fn a_link_is_followed_only_if_it_is_a_uri() {
    assert_eq!(new_pr(3, Some(NEXT)).query(), Query::Link { url: NEXT.to_string() });
    assert_eq!(new_pr(3, Some("/relative/path?page=2")).query(), Query::Link {
        url: "/relative/path?page=2".to_string()
    });
    for broken in ["", "http://[::1", "not a uri", "https://exa mple.com/"] {
        assert_eq!(
            new_pr(3, Some(broken)).query(),
            Query::List {
                kind: ItemKind::Pulls,
                repo: widget(),
                sort: SortKey::Updated,
            direction: Direction::Descending,
            state: StateFilter::All,
                page: 3,
                per_page: 100,
            }
        );
    }
    assert_eq!(new_pr(3, Some("")).query_with(true, None), Query::Link { url: String::new() });
    assert_eq!(
        new_pr(3, Some(NEXT)).query_with(false, None),
        Query::List {
            kind: ItemKind::Pulls,
            repo: widget(),
            sort: SortKey::Updated,
            direction: Direction::Descending,
            state: StateFilter::All,
            page: 3,
            per_page: 100,
        }
    );
}

#[test]
fn comments_are_listed_from_the_wanted_time_less_the_slack() {
    let request = |since_timestamp, url: Option<&str>| Request::Comments {
        repo: widget(),
        issue_number: 7,
        since_timestamp,
        page: 2,
        url: url.map(|u| u.to_string()),
    };
    let listed = |since| Query::Comments {
        repo: widget(),
        issue_number: 7,
        since,
        page: 2,
        per_page: 100,
    };
    assert_eq!(request(None, None).query(), listed(None));
    assert_eq!(request(Some(1_700_000_000), None).query(), listed(Some(1_699_999_900)));
    assert_eq!(request(Some(50), None).query(), listed(Some(-50)));
    assert_eq!(request(Some(i64::MAX), None).query(), listed(None));
    assert_eq!(request(Some(i64::MIN), None).query(), listed(None));
    assert_eq!(request(Some(UTC_MAX + 100), None).query(), listed(Some(UTC_MAX)));
    assert_eq!(request(Some(UTC_MAX + 101), None).query(), listed(None));
    assert_eq!(request(Some(UTC_MIN + 100), None).query(), listed(Some(UTC_MIN)));
    assert_eq!(request(Some(UTC_MIN + 99), None).query(), listed(None));
    assert_eq!((UTC_MIN, UTC_MAX), (-8_334_601_228_800, 8_210_266_876_799));
    assert_eq!(request(Some(i64::MIN + 50), None).since(), Some(i64::MIN));
    assert_eq!(request(Some(1_000), None).since(), Some(900));
    assert_eq!(request(None, None).since(), None);
    assert_eq!(new_pr(0, None).since(), None);
    assert_eq!(request(Some(1_000), Some(NEXT)).query(), Query::Link { url: NEXT.to_string() });
    assert_eq!(request(Some(1_000), None).query_with(false, Some(3)), listed(Some(3)));
}

#[test]
fn a_page_number_is_cut_to_what_the_upstream_takes() {
    let big = Request::NewPr { repo: widget(), page: 5_000_000_000, url: None };
    assert_eq!(
        big.listing(None),
        Query::List {
            kind: ItemKind::Pulls,
            repo: widget(),
            sort: SortKey::Updated,
            direction: Direction::Descending,
            state: StateFilter::All,
            page: 5_000_000_000u64 as u32,
            per_page: 100,
        }
    );
    assert_eq!(big.page(), 5_000_000_000);
    assert_eq!(big.url(), &None);
    assert_eq!(big.repo(), &widget());
}

#[test]
fn the_clock_is_read_where_no_time_is_given() {
    let mut m = mirror();
    let mut closed = issue(1, 1_000);
    closed.state = IssueState::Closed;
    m.handle_request(
        Request::NewIssue { repo: widget(), page: 0, url: None },
        Page::Issues { items: vec![closed], next: None },
    );
    let stamped = m.db.shared[0].closed_at_timestamp.unwrap();
    assert!(stamped > 1_600_000_000);

    let mut closed = pull(2, 1_000);
    closed.state = Some(IssueState::Closed);
    m.process_pr(widget(), closed);
    assert!(m.db.shared[1].closed_at_timestamp.unwrap() >= stamped);

    let mut closed = issue(3, 1_000);
    closed.state = IssueState::Closed;
    m.process_issue(widget(), closed);
    assert!(m.db.shared[2].closed_at_timestamp.unwrap() >= stamped);
}
