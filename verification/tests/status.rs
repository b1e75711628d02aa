use github_db::ProcessStatus;

#[test]
fn update_keeps_the_lesser_classification() {
    let all = [ProcessStatus::New, ProcessStatus::Updated, ProcessStatus::Unchanged];
    for (i, a) in all.iter().enumerate() {
        for (j, b) in all.iter().enumerate() {
            let mut status = *a;
            status.update(*b);
            assert_eq!(status, all[i.min(j)]);
        }
    }
}

#[test]
fn new_is_least_and_unchanged_is_greatest() {
    assert_eq!(ProcessStatus::New.order(), 0);
    assert_eq!(ProcessStatus::Updated.order(), 1);
    assert_eq!(ProcessStatus::Unchanged.order(), 2);
}

#[test]
fn a_compound_observation_is_classified_by_its_least_row() {
    let rows = [
        ProcessStatus::Unchanged,
        ProcessStatus::Updated,
        ProcessStatus::Unchanged,
        ProcessStatus::New,
        ProcessStatus::Updated,
    ];
    let mut status = ProcessStatus::Unchanged;
    for row in rows {
        status.update(row);
    }
    assert_eq!(status, ProcessStatus::New);

    let mut status = ProcessStatus::Unchanged;
    for row in [ProcessStatus::Unchanged, ProcessStatus::Updated, ProcessStatus::Unchanged] {
        status.update(row);
    }
    assert_eq!(status, ProcessStatus::Updated);
}

#[test]
fn only_unchanged_reports_no_change() {
    assert!(ProcessStatus::New.changed());
    assert!(ProcessStatus::Updated.changed());
    assert!(!ProcessStatus::Unchanged.changed());
}
