use github_db::requests::{Priority, Request};
use github_db::schema::Database;
use github_db::{parse_repos, GithubCredentials, GithubDb, Repo};

fn credentials() -> Vec<GithubCredentials> {
    vec![GithubCredentials { app_id: "id".to_string(), app_secret: "sec".to_string() }]
}

fn widget() -> Repo {
    Repo { organization: "acme".to_string(), name: "widget".to_string() }
}

fn queue(mirror: &GithubDb) -> Vec<(i64, i64, Request)> {
    mirror
        .db
        .requests
        .iter()
        .map(|r| (r.sequence_number, r.category, r.data.clone().unwrap()))
        .collect()
}

#[test]
fn cold_start_queues_the_four_traversals() {
    let mirror = GithubDb::new(Database::new(), &credentials(), 1200, &["acme/widget"], 0);
    assert_eq!(
        queue(&mirror),
        vec![
            (1, Priority::Index.code(), Request::OldPr { repo: widget(), page: 0, url: None }),
            (2, Priority::Index.code(), Request::OldIssue { repo: widget(), page: 0, url: None }),
            (3, Priority::Update.code(), Request::NewPr { repo: widget(), page: 0, url: None }),
            (4, Priority::Update.code(), Request::NewIssue { repo: widget(), page: 0, url: None }),
        ]
    );
    assert_eq!(mirror.request_sequence_number, 5);
    assert_eq!(mirror.repos, vec![widget()]);
    let names: Vec<&str> = mirror.db.requests.iter().map(|r| r.name.as_str()).collect();
    assert_eq!(names, vec!["OldPr", "OldIssue", "NewPr", "NewIssue"]);
}

#[test]
fn a_repo_without_slash_is_found_before_setting_up() {
    assert_eq!(parse_repos(&["acme/widget", "widget"]), Err(1));
    assert_eq!(parse_repos(&["acme/widget", "acme/gadget"]).map(|r| r.len()), Ok(2));
}
