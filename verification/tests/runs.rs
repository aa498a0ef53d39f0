use ci_logs_to_otel::run::{Run, RunSelector};
use ci_logs_to_otel::timestamp::Timestamp;

fn run(id: u64, name: &str, status: &str, conclusion: Option<&str>) -> Run {
    Run {
        id,
        name: name.to_string(),
        branch: "main".to_string(),
        status: status.to_string(),
        conclusion: conclusion.map(|c| c.to_string()),
        created_at: Timestamp { secs: 1_704_067_200, nanos: 0 },
        updated_at: Timestamp { secs: 1_704_067_500, nanos: 0 },
    }
}

#[test]
fn a_completed_run_of_the_target_is_eligible() {
    let selector = RunSelector::new("test".to_string());
    assert!(selector.is_eligible(&run(1, "test", "completed", Some("success"))));
}

#[test]
fn the_conclusion_has_no_say() {
    let selector = RunSelector::new("test".to_string());
    assert!(selector.is_eligible(&run(1, "test", "completed", Some("failure"))));
    assert!(selector.is_eligible(&run(2, "test", "completed", Some("cancelled"))));
    assert!(selector.is_eligible(&run(3, "test", "completed", None)));
}

#[test]
fn another_name_or_another_status_is_excluded() {
    let selector = RunSelector::new("test".to_string());
    assert!(!selector.is_eligible(&run(1, "build", "completed", Some("success"))));
    assert!(!selector.is_eligible(&run(2, "test", "in_progress", None)));
    assert!(!selector.is_eligible(&run(3, "test", "queued", None)));
    assert!(!selector.is_eligible(&run(4, "build", "queued", None)));
    assert!(!selector.is_eligible(&run(5, "Test", "completed", None)));
    assert!(!selector.is_eligible(&run(6, "test", "Completed", None)));
    assert!(!selector.is_eligible(&run(7, "test", "", None)));
}

#[test]
fn select_keeps_the_eligible_runs_in_order() {
    let selector = RunSelector::new("test".to_string());
    let listed = vec![
        run(5, "test", "completed", Some("failure")),
        run(4, "build", "completed", Some("success")),
        run(3, "test", "in_progress", None),
        run(2, "test", "completed", Some("success")),
        run(1, "deploy", "queued", None),
    ];
    let kept = selector.select(&listed);
    assert_eq!(kept.len(), 2);
    assert_eq!(kept[0], listed[0]);
    assert_eq!(kept[1], listed[3]);
}

#[test]
fn select_of_nothing_is_nothing() {
    let selector = RunSelector::new("test".to_string());
    assert!(selector.select(&Vec::new()).is_empty());
    let none = vec![run(1, "build", "completed", None), run(2, "test", "queued", None)];
    assert!(selector.select(&none).is_empty());
}

#[test]
fn selection_goes_page_by_page() {
    let selector = RunSelector::new("test".to_string());
    let page = vec![run(1, "test", "completed", None), run(2, "x", "completed", None)];
    let next = vec![run(3, "test", "queued", None), run(4, "test", "completed", None)];
    let mut whole = page.clone();
    whole.extend(next.iter().cloned());
    let mut by_page = selector.select(&page);
    by_page.extend(selector.select(&next));
    assert_eq!(selector.select(&whole), by_page);
}

#[test]
fn a_cloned_run_is_the_same_run() {
    let r = run(9, "test", "completed", Some("success"));
    assert_eq!(r.clone(), r);
}
