use oeis_tui::models::SearchQuery;
use oeis_tui::supervisor::JobOutcome;
use oeis_tui::supervisor::JobRequest;
use oeis_tui::supervisor::JobSupervisor;
use oeis_tui::supervisor::PageContext;
use oeis_tui::supervisor::SlotKind;
use oeis_tui::supervisor::TaskTermination;

fn search_request(text: &str) -> JobRequest {
    JobRequest::Search { query: SearchQuery::new(text), page: PageContext::Initial }
}

#[test]
fn test_single_flight_discards_superseded_result() {
    let mut sup = JobSupervisor::new();

    let first = sup.start(search_request("fibonacci"), 0);
    assert!(first.abort.is_none());
    assert!(sup.is_busy(SlotKind::Search));

    // before the first search resolves, a second one starts
    let second = sup.start(search_request("primes"), 1);
    assert_eq!(second.abort, Some(first.job_id));

    // the superseded job's result is never delivered
    let stale = sup.finish(SlotKind::Search, first.job_id, TaskTermination::Done);
    assert!(stale.is_none());
    assert!(sup.is_busy(SlotKind::Search));

    // only the newest job's outcome is observed
    let event = sup.finish(SlotKind::Search, second.job_id, TaskTermination::Done).unwrap();
    assert!(matches!(event.outcome, JobOutcome::Success));
    match event.request {
        JobRequest::Search { query, .. } => assert_eq!(query.query, "primes"),
        _ => panic!("wrong request delivered"),
    }
    assert!(!sup.is_busy(SlotKind::Search));
}

#[test]
fn test_cancel_marks_slot_and_discards_outcome() {
    let mut sup = JobSupervisor::new();

    let cmd = sup.start(JobRequest::RandomPick, 0);
    assert!(sup.is_busy(SlotKind::RandomPick));

    let abort = sup.cancel(SlotKind::RandomPick);
    assert_eq!(abort, Some(cmd.job_id));
    assert!(!sup.is_busy(SlotKind::RandomPick));

    // when the cancelled task eventually reports, its outcome is dropped
    let event = sup.finish(SlotKind::RandomPick, cmd.job_id, TaskTermination::Aborted);
    assert!(event.is_none());

    // and the slot is free for a new job
    let again = sup.start(JobRequest::RandomPick, 1);
    assert!(again.abort.is_none());
}

#[test]
fn test_failure_and_panic_classification() {
    let mut sup = JobSupervisor::new();

    let cmd = sup.start(JobRequest::ExtendedFetch { entity_id: 45 }, 0);
    let event = sup
        .finish(SlotKind::ExtendedFetch, cmd.job_id, TaskTermination::Error("timed out".to_string()))
        .unwrap();
    match event.outcome {
        JobOutcome::Failure(message) => assert_eq!(message, "timed out"),
        _ => panic!("expected a failure outcome"),
    }
    assert!(!event.abnormal);

    let cmd = sup.start(JobRequest::ExtendedFetch { entity_id: 45 }, 1);
    let event = sup.finish(SlotKind::ExtendedFetch, cmd.job_id, TaskTermination::Panicked).unwrap();
    assert!(matches!(event.outcome, JobOutcome::Cancelled));
    assert!(event.abnormal);
}

#[test]
fn test_slots_are_independent() {
    let mut sup = JobSupervisor::new();

    let search = sup.start(search_request("fibonacci"), 0);
    let random = sup.start(JobRequest::RandomPick, 0);
    assert!(random.abort.is_none());
    assert!(sup.is_busy(SlotKind::Search));
    assert!(sup.is_busy(SlotKind::RandomPick));

    // a random pick may complete before an earlier search
    let event = sup.finish(SlotKind::RandomPick, random.job_id, TaskTermination::Done);
    assert!(event.is_some());
    assert!(sup.is_busy(SlotKind::Search));

    let event = sup.finish(SlotKind::Search, search.job_id, TaskTermination::Done);
    assert!(event.is_some());
}

#[test]
fn test_single_flight_holds_for_random_slot() {
    let mut sup = JobSupervisor::new();

    let first = sup.start(JobRequest::RandomPick, 0);
    let second = sup.start(JobRequest::RandomPick, 1);
    assert_eq!(second.abort, Some(first.job_id));

    let stale = sup.finish(SlotKind::RandomPick, first.job_id, TaskTermination::Done);
    assert!(stale.is_none());
    let event = sup.finish(SlotKind::RandomPick, second.job_id, TaskTermination::Done);
    assert!(event.is_some());
}

#[test]
fn test_unknown_report_is_ignored() {
    let mut sup = JobSupervisor::new();
    let event = sup.finish(SlotKind::Search, 17, TaskTermination::Done);
    assert!(event.is_none());

    let cmd = sup.start(search_request("x"), 0);
    let event = sup.finish(SlotKind::Search, cmd.job_id + 1, TaskTermination::Done);
    assert!(event.is_none());
    assert!(sup.is_busy(SlotKind::Search));
}
