use oeis_tui::appstate::ApplicationState;
use oeis_tui::models::{OEISResponse, SearchQuery, Sequence};
use oeis_tui::store::LocalStore;
use oeis_tui::supervisor::{JobRequest, JobSupervisor, PageContext, SlotKind, TaskTermination};
use oeis_tui::ui::Screen;

fn sample_sequence(number: i32) -> Sequence {
    Sequence {
        number,
        id: String::new(),
        data: "1,2,3".to_string(),
        name: "Sample".to_string(),
        offset: "0,1".to_string(),
        comment: vec![],
        reference: vec![],
        link: vec![],
        formula: vec![],
        example: vec![],
        maple: vec![],
        mathematica: vec![],
        program: vec![],
        xref: vec![],
        keyword: String::new(),
        author: String::new(),
        created: String::new(),
        time: String::new(),
        references: 0,
        revision: 0,
    }
}

#[test]
fn test_begin_and_cancel_drive_busy_flag() {
    let mut state = ApplicationState::new();
    let mut sup = JobSupervisor::new();

    let cmd = state.begin_job(&mut sup, JobRequest::RandomPick, 0);
    assert!(state.searching);
    assert!(cmd.abort.is_none());

    let abort = state.cancel_job(&mut sup, SlotKind::RandomPick);
    assert_eq!(abort, Some(cmd.job_id));
    assert!(!state.searching);
}

#[test]
fn test_search_success_updates_results_and_history() {
    let mut state = ApplicationState::new();
    let mut store = LocalStore::open_in_memory().unwrap();

    let response = OEISResponse {
        count: 2,
        results: Some(vec![sample_sequence(1), sample_sequence(2)]),
    };
    state.complete_search_success(
        &mut store,
        SearchQuery::new("sample"),
        PageContext::Initial,
        response,
        Some("[]"),
        7,
    );

    assert!(!state.searching);
    assert!(state.error_message.is_none());
    assert_eq!(state.search_results.len(), 2);
    assert_eq!(state.selected_result, 0);
    assert_eq!(state.result_count, 2);
    assert_eq!(state.current_query.as_ref().unwrap().query, "sample");
    // the fresh search was written through
    assert_eq!(store.get_search_history(10), vec![("sample".to_string(), 7)]);
    assert_eq!(store.get_cached_search("sample", 10, 7).as_deref(), Some("[]"));
}

#[test]
fn test_search_failure_banner_carries_kind() {
    let mut state = ApplicationState::new();
    state.complete_search_failure(PageContext::NextPage, "timed out");
    assert_eq!(
        state.error_message.as_deref(),
        Some("Failed to load next page: timed out")
    );

    state.complete_search_abnormal(PageContext::Initial, true);
    assert_eq!(state.error_message.as_deref(), Some("Search task panicked"));

    state.error_message = None;
    state.complete_search_abnormal(PageContext::Initial, false);
    assert!(state.error_message.is_none());
}

#[test]
fn test_random_success_opens_detail_and_records_view() {
    let mut state = ApplicationState::new();
    let mut store = LocalStore::open_in_memory().unwrap();

    state.complete_random_success(&mut store, sample_sequence(45), Some("payload"), 3);
    assert!(matches!(state.screen, Screen::Detail));
    assert_eq!(state.current_sequence.as_ref().unwrap().number, 45);
    assert_eq!(store.get_recently_viewed(8), vec![45]);
    assert_eq!(store.get_cached_sequence(45, 10, 3).as_deref(), Some("payload"));
}

#[test]
fn test_abnormal_random_and_bfile_banners() {
    let mut state = ApplicationState::new();

    state.searching = true;
    state.complete_random_abnormal(false);
    assert!(!state.searching);
    assert!(state.error_message.is_none());

    state.complete_random_abnormal(true);
    assert_eq!(state.error_message.as_deref(), Some("Random sequence task panicked"));

    state.searching = true;
    state.bfile_data = Some(vec![]);
    state.complete_bfile_abnormal("task 7 was cancelled");
    assert!(!state.searching);
    assert!(state.bfile_data.is_none());
    assert_eq!(
        state.bfile_error.as_deref(),
        Some("B-file fetch failed: task 7 was cancelled")
    );
}

#[test]
fn test_search_success_writes_response_cache_for_fresh_search_only() {
    let mut state = ApplicationState::new();
    let mut store = LocalStore::open_in_memory().unwrap();

    let response = OEISResponse { count: 1, results: Some(vec![sample_sequence(1)]) };
    state.complete_search_success(
        &mut store,
        SearchQuery::new("q"),
        PageContext::NextPage,
        response,
        Some("[page]"),
        5,
    );
    // a page move writes nothing through
    assert!(store.get_cached_search("q", i64::MAX, 5).is_none());
    assert!(store.get_search_history(10).is_empty());

    let response = OEISResponse { count: 1, results: Some(vec![sample_sequence(1)]) };
    state.complete_search_success(
        &mut store,
        SearchQuery::new("q"),
        PageContext::Initial,
        response,
        Some("[fresh]"),
        6,
    );
    assert_eq!(store.get_cached_search("q", i64::MAX, 6).as_deref(), Some("[fresh]"));
}

#[test]
fn test_selection_moves_stay_in_range() {
    let mut state = ApplicationState::new();
    state.search_results = vec![sample_sequence(1), sample_sequence(2)];

    state.select_next_result();
    assert_eq!(state.selected_result, 1);
    state.select_next_result();
    assert_eq!(state.selected_result, 1);
    state.select_previous_result();
    assert_eq!(state.selected_result, 0);
    state.select_previous_result();
    assert_eq!(state.selected_result, 0);
}

#[test]
fn test_toggle_bookmark_round_trip_with_snapshot() {
    let mut state = ApplicationState::new();
    let mut store = LocalStore::open_in_memory().unwrap();
    state.current_sequence = Some(sample_sequence(45));

    state.toggle_bookmark(&mut store, 1);
    assert!(store.is_bookmarked(45));
    assert_eq!(state.bookmarks.len(), 1);

    state.toggle_bookmark(&mut store, 2);
    assert!(!store.is_bookmarked(45));
    assert!(state.bookmarks.is_empty());
    assert_eq!(state.bookmarks_selected, 0);
}

#[test]
fn test_outcome_flow_through_supervisor() {
    let mut state = ApplicationState::new();
    let mut sup = JobSupervisor::new();
    let mut store = LocalStore::open_in_memory().unwrap();

    let request = JobRequest::Search {
        query: SearchQuery::new("fibonacci"),
        page: PageContext::Initial,
    };
    let cmd = state.begin_job(&mut sup, request, 0);
    let event = sup
        .finish(SlotKind::Search, cmd.job_id, TaskTermination::Done)
        .unwrap();
    match event.request {
        JobRequest::Search { query, page } => {
            let response = OEISResponse { count: 1, results: Some(vec![sample_sequence(45)]) };
            state.complete_search_success(&mut store, query, page, response, None, 1);
        }
        _ => panic!("wrong slot delivered"),
    }
    assert!(!state.searching);
    assert_eq!(state.search_results.len(), 1);
}
