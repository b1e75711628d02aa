use github_db::requests::limits::{
    ceiling_of, drain_queue, grant_of, saved_ceiling_of, CategoryLimit, RequestLimits,
    CEILING_PER_TENTH, CEILING_SAVED, UNIT,
};
use github_db::requests::{Priority, Request};
use github_db::schema::{self, Database};
use github_db::Repo;

const SECOND: u64 = 1_000_000_000;
const HOUR: u64 = 3_600 * SECOND;

fn widget() -> Repo {
    Repo { organization: "acme".to_string(), name: "widget".to_string() }
}

fn saturated(per_category: i64) -> Database {
    let mut db = Database::new();
    let mut n = 0;
    for _ in 0..per_category {
        for category in 0..3 {
            db.requests.push(schema::Request {
                category,
                sequence_number: n,
                data: Some(Request::NewPr { repo: widget(), page: n as usize, url: None }),
                name: "NewPr".to_string(),
            });
            n += 1;
        }
    }
    db
}

fn counts(db: &Database) -> [usize; 3] {
    let mut counts = [0; 3];
    for r in &db.requests {
        counts[r.category as usize] += 1;
    }
    counts
}

#[test]
fn the_units_of_the_budget() {
    assert_eq!(UNIT, 10 * HOUR as u128);
    assert_eq!(CEILING_PER_TENTH * 50, UNIT);
    assert_eq!(CEILING_SAVED * 5, UNIT);
    assert_eq!(grant_of(100, Priority::Update, HOUR, 0), 30 * UNIT);
    assert_eq!(grant_of(100, Priority::Comments, HOUR, 0), 60 * UNIT);
    assert_eq!(grant_of(100, Priority::Index, HOUR, 0), 10 * UNIT);
    assert_eq!(grant_of(1200, Priority::Update, 10 * SECOND, 0), UNIT);
    assert_eq!(grant_of(1200, Priority::Update, 7, 2), 5 * 3 * 1200);
    assert_eq!(grant_of(1200, Priority::Update, 2, 7), 0);
    assert_eq!(grant_of(usize::MAX, Priority::Comments, u64::MAX, 0), u128::MAX);
    assert_eq!(ceiling_of(100, Priority::Update), 6 * UNIT);
    assert_eq!(ceiling_of(100, Priority::Comments), 12 * UNIT);
    assert_eq!(ceiling_of(100, Priority::Index), 2 * UNIT);
    assert_eq!(saved_ceiling_of(100), 20 * UNIT);
}

#[test]
fn a_budget_starts_with_full_accounts() {
    let limits = RequestLimits::new(100, 42);
    assert_eq!(
        limits,
        RequestLimits {
            global_limit: 100,
            update: CategoryLimit { tokens: 6 * UNIT, last_time: 42 },
            comments: CategoryLimit { tokens: 12 * UNIT, last_time: 42 },
            index: CategoryLimit { tokens: 2 * UNIT, last_time: 42 },
            saved_up: 0,
        }
    );
    assert_eq!(limits.get(Priority::Comments), limits.comments);
}

#[test]
fn an_account_is_granted_for_the_time_that_passed() {
    let mut account = CategoryLimit { tokens: 5, last_time: 10 * SECOND };
    account.accrue(1200, Priority::Update, 20 * SECOND, 7);
    assert_eq!(account, CategoryLimit { tokens: UNIT + 12, last_time: 20 * SECOND });
    account.accrue(1200, Priority::Update, 15 * SECOND, 0);
    assert_eq!(account, CategoryLimit { tokens: UNIT + 12, last_time: 20 * SECOND });
    let mut full = CategoryLimit { tokens: u128::MAX - 1, last_time: 0 };
    full.accrue(1200, Priority::Update, SECOND, 5);
    assert_eq!(full.tokens, u128::MAX);
}

#[test]
fn an_account_hands_on_what_exceeds_its_ceiling() {
    let mut account = CategoryLimit { tokens: 7 * UNIT + 3, last_time: 0 };
    assert_eq!(account.settle(100, Priority::Update), UNIT + 3);
    assert_eq!(account.tokens, 6 * UNIT);
    assert_eq!(account.settle(100, Priority::Update), 0);
    let mut low = CategoryLimit { tokens: UNIT, last_time: 0 };
    assert_eq!(low.settle(100, Priority::Update), 0);
    assert_eq!(low.tokens, UNIT);
}

#[test]
fn requests_are_handed_out_while_the_tokens_last() {
    let mut db = saturated(5);
    let mut handed = Vec::new();
    let left = drain_queue(&mut db, Priority::Update, 3 * UNIT + 9, &mut handed);
    assert_eq!(left, 9);
    let pages: Vec<usize> = handed.iter().map(|r| r.page()).collect();
    assert_eq!(pages, vec![0, 3, 6]);
    assert_eq!(counts(&db), [2, 5, 5]);

    let left = drain_queue(&mut db, Priority::Update, 10 * UNIT, &mut handed);
    assert_eq!(left, 8 * UNIT);
    assert_eq!(handed.len(), 5);
    let left = drain_queue(&mut db, Priority::Index, UNIT - 1, &mut handed);
    assert_eq!(left, UNIT - 1);
    assert_eq!(counts(&db), [0, 5, 5]);
}

#[test]
fn the_first_round_spends_what_the_accounts_start_with() {
    let mut db = saturated(50);
    let mut limits = RequestLimits::new(100, 0);
    let handed = limits.update(0, &mut db);
    assert_eq!(handed.len(), 20);
    assert_eq!(counts(&db), [50 - 6, 50 - 2, 50 - 12]);
    assert_eq!(limits.update.tokens, 0);
    assert_eq!(limits.comments.tokens, 0);
    assert_eq!(limits.index.tokens, 0);
    assert_eq!(limits.saved_up, 0);
}

#[test]
fn saturated_queues_are_served_by_their_shares() {
    let mut db = saturated(200);
    let mut limits = RequestLimits::new(100, 0);
    limits.update(0, &mut db);
    let before = counts(&db);
    let mut handed = 0;
    let mut now = 0;
    while now < HOUR {
        now += 5 * SECOND;
        handed += limits.update(now, &mut db).len();
    }
    let after = counts(&db);
    assert_eq!(before[0] - after[0], 30);
    assert_eq!(before[2] - after[2], 60);
    assert_eq!(before[1] - after[1], 10);
    assert_eq!(handed, 100);
}

#[test]
fn the_rate_stays_within_the_budget_and_its_slack() {
    let mut db = saturated(400);
    let mut limits = RequestLimits::new(100, 0);
    let mut handed = 0;
    let mut now = 0;
    while now < 3 * HOUR {
        handed += limits.update(now, &mut db).len();
        now += 7 * SECOND;
    }
    assert!(handed <= 300 + 20);
    assert!(handed >= 300);
    assert!(handed * 5 <= 300 * 6);
}

#[test]
fn what_an_idle_category_cannot_hold_flows_on() {
    let mut db = Database::new();
    let mut n = 0;
    for _ in 0..100 {
        db.requests.push(schema::Request {
            category: Priority::Index.code(),
            sequence_number: n,
            data: Some(Request::OldPr { repo: widget(), page: 0, url: None }),
            name: "OldPr".to_string(),
        });
        n += 1;
    }
    let mut limits = RequestLimits::new(100, 0);
    let handed = limits.update(0, &mut db);
    assert_eq!(handed.len(), 2);
    assert_eq!(limits.update.tokens, 6 * UNIT);
    assert_eq!(limits.comments.tokens, 12 * UNIT);
    assert_eq!(limits.saved_up, 0);

    let handed = limits.update(HOUR / 10, &mut db);
    assert_eq!(handed.len(), 10);
    assert_eq!(limits.update.tokens, 6 * UNIT);
    assert_eq!(limits.comments.tokens, 12 * UNIT);
    assert_eq!(limits.index.tokens, 0);
    assert_eq!(limits.saved_up, 0);
}

#[test]
fn what_no_category_can_hold_is_kept_up_to_a_ceiling() {
    let mut db = Database::new();
    let mut limits = RequestLimits::new(100, 0);
    assert!(limits.update(HOUR / 10, &mut db).is_empty());
    assert_eq!(limits.saved_up, 10 * UNIT);
    assert!(limits.update(HOUR, &mut db).is_empty());
    assert_eq!(limits.saved_up, 20 * UNIT);
    assert_eq!(limits.update.tokens, 6 * UNIT);
    assert_eq!(limits.comments.tokens, 12 * UNIT);
    assert_eq!(limits.index.tokens, 2 * UNIT);
    assert_eq!(limits.index.last_time, HOUR);

    let mut db = saturated(100);
    let handed = limits.update(HOUR, &mut db);
    assert_eq!(handed.len(), 40);
    assert_eq!(counts(&db), [100 - 26, 100 - 2, 100 - 12]);
    assert_eq!(limits.saved_up, 0);
}

#[test]
fn a_budget_of_nothing_hands_nothing_out() {
    let mut db = saturated(3);
    let mut limits = RequestLimits::new(0, 0);
    assert!(limits.update(HOUR, &mut db).is_empty());
    assert_eq!(counts(&db), [3, 3, 3]);
    assert_eq!(limits.saved_up, 0);
}
