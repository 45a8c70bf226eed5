//! The application state: the single source of truth the presentation
//! layer reads once per tick.
//!
//! It consumes supervisor completions and store results: starting a job
//! raises the busy flag, every terminal outcome lowers it and lands in
//! the fields below, and successful fetches are opportunistically
//! written through to the store — persistence is best effort and never
//! blocks the user-visible flow. The projections of store data (recent
//! views, bookmarks) are explicit snapshots, refreshed after mutations,
//! not kept in sync automatically.

use vstd::prelude::*;

use crate::models::BFileEntry;
use crate::models::OEISResponse;
use crate::models::SearchQuery;
use crate::models::Sequence;
use crate::store::lookup_bookmark;
use crate::store::upsert_bookmarks;
use crate::store::drop_bookmark;
use crate::store::max_i64;
use crate::store::LocalStore;
use crate::supervisor::JobRequest;
use crate::supervisor::JobSupervisor;
use crate::supervisor::PageContext;
use crate::supervisor::SlotKind;
use crate::supervisor::StartCommand;
use crate::ui::Screen;

verus! {

/// The state the render loop reads: busy flag, latest outcomes, error
/// banner and store-derived snapshots.
pub struct ApplicationState {
    /// The screen currently shown.
    pub screen: Screen,
    /// Whether a background job is in flight.
    pub searching: bool,
    /// The error banner, if any.
    pub error_message: Option<String>,
    /// The latest search results.
    pub search_results: Vec<Sequence>,
    /// The selected index in the result list.
    pub selected_result: usize,
    /// The estimated result count of the latest search.
    pub result_count: i32,
    /// The query the current result page belongs to.
    pub current_query: Option<SearchQuery>,
    /// The entry currently shown in the detail view.
    pub current_sequence: Option<Sequence>,
    /// Extended data loaded for the current entry.
    pub bfile_data: Option<Vec<BFileEntry>>,
    /// The error of the last extended-data fetch, if any.
    pub bfile_error: Option<String>,
    /// Snapshot of the recently-viewed listing, with display names.
    pub recent_rows: Vec<(i64, String, i64, i64)>,
    /// Snapshot of the bookmarks.
    pub bookmarks: Vec<(i64, Option<String>)>,
    /// The selected index in the bookmarks panel.
    pub bookmarks_selected: usize,
}

/// The error-banner prefix for a failed search of the given kind.
pub open spec fn search_failure_prefix(page: PageContext) -> Seq<char> {
    match page {
        PageContext::Initial => "Search failed: "@,
        PageContext::NextPage => "Failed to load next page: "@,
        PageContext::PreviousPage => "Failed to load previous page: "@,
    }
}

/// The error banner for an abnormally ended search task of the given
/// kind.
pub open spec fn search_panic_message(page: PageContext) -> Seq<char> {
    match page {
        PageContext::Initial => "Search task panicked"@,
        PageContext::NextPage => "Next page task panicked"@,
        PageContext::PreviousPage => "Previous page task panicked"@,
    }
}

impl ApplicationState {
    /// Selections stay inside their lists.
    pub open spec fn wf(self) -> bool {
        &&& self.search_results@.len() > 0 ==> self.selected_result < self.search_results@.len()
        &&& self.search_results@.len() == 0 ==> self.selected_result == 0
        &&& self.bookmarks@.len() > 0 ==> self.bookmarks_selected < self.bookmarks@.len()
        &&& self.bookmarks@.len() == 0 ==> self.bookmarks_selected == 0
    }

    /// The initial state: the search screen, nothing in flight, nothing
    /// loaded.
    pub fn new() -> (r: ApplicationState)
        ensures
            r.wf(),
            r.screen is Search,
            !r.searching,
            r.error_message is None,
            r.search_results@.len() == 0,
            r.current_query is None,
            r.current_sequence is None,
            r.bfile_data is None,
    {
        ApplicationState {
            screen: Screen::Search,
            searching: false,
            error_message: None,
            search_results: Vec::new(),
            selected_result: 0,
            result_count: 0,
            current_query: None,
            current_sequence: None,
            bfile_data: None,
            bfile_error: None,
            recent_rows: Vec::new(),
            bookmarks: Vec::new(),
            bookmarks_selected: 0,
        }
    }

    /// Start a background job: the busy flag rises, the error banner
    /// clears, and the supervisor reassigns the request's slot, naming
    /// the superseded task the caller must abort.
    pub fn begin_job(
        &mut self,
        sup: &mut JobSupervisor,
        request: JobRequest,
        now: i64,
    ) -> (r: StartCommand)
        requires
            old(self).wf(),
            old(sup).wf(),
            old(sup).next_id < u64::MAX,
        ensures
            final(self).wf(),
            final(sup).wf(),
            *final(sup) == old(sup).spec_start(request, now),
            r.job_id == old(sup).next_id,
            r.abort == match old(sup).spec_slot(request.spec_slot()) {
                Some(j) => Some(j.id),
                None => None,
            },
            *final(self) == (ApplicationState {
                searching: true,
                error_message: None,
                ..*old(self)
            }),
    {
        self.searching = true;
        self.error_message = None;
        sup.start(request, now)
    }

    /// Cancel the job in slot `k`, if any: the busy flag drops and the
    /// returned id names the task the caller should abort.
    pub fn cancel_job(&mut self, sup: &mut JobSupervisor, k: SlotKind) -> (r: Option<u64>)
        requires
            old(self).wf(),
            old(sup).wf(),
        ensures
            final(self).wf(),
            final(sup).wf(),
            *final(sup) == old(sup).spec_cancel(k),
            r == match old(sup).spec_slot(k) {
                Some(j) => Some(j.id),
                None => None,
            },
            *final(self) == (ApplicationState { searching: false, ..*old(self) }),
    {
        self.searching = false;
        sup.cancel(k)
    }

    /// Consume a successful search outcome: the results replace the
    /// current page, selection resets, and for a fresh search the
    /// response and query are written through to the store, best effort
    /// (`payload` is the serialized response, absent when serialization
    /// failed).
    pub fn complete_search_success(
        &mut self,
        store: &mut LocalStore,
        query: SearchQuery,
        page: PageContext,
        response: OEISResponse,
        payload: Option<&str>,
        now: i64,
    )
        requires
            old(self).wf(),
            old(store).wf(),
        ensures
            final(self).wf(),
            final(store).wf(),
            !final(self).searching,
            final(self).error_message is None,
            final(self).selected_result == 0,
            final(self).search_results@ == match response.results {
                Some(r) => r@,
                None => Seq::<Sequence>::empty(),
            },
            final(self).result_count == if page is Initial {
                response.count
            } else {
                old(self).result_count
            },
            final(self).current_query == Some(query),
            *final(self) == (ApplicationState {
                searching: false,
                error_message: None,
                search_results: final(self).search_results,
                selected_result: 0,
                result_count: final(self).result_count,
                current_query: final(self).current_query,
                ..*old(self)
            }),
            page is Initial ==> final(store).clock == max_i64(old(store).clock, now),
            page is Initial ==> final(store).history_view() == seq![
                (query.query@, final(store).clock as int),
            ] + old(store).history_view(),
            page is Initial ==> final(store).searches_view() == match payload {
                Some(p) => crate::store::upsert_cache(
                    old(store).searches_view(),
                    query.query@,
                    p@,
                    final(store).clock as int,
                ),
                None => old(store).searches_view(),
            },
            page is Initial ==> final(store).entities_view() == old(store).entities_view()
                && final(store).views_view() == old(store).views_view()
                && final(store).bookmarks_view() == old(store).bookmarks_view(),
            !(page is Initial) ==> *final(store) == *old(store),
    {
        self.searching = false;
        self.error_message = None;
        self.search_results = match response.results {
            Some(r) => r,
            None => Vec::new(),
        };
        self.selected_result = 0;
        if matches!(page, PageContext::Initial) {
            self.result_count = response.count;
            if let Some(serialized) = payload {
                store.cache_search(query.query.as_str(), serialized, now);
            }
            store.add_search_history(query.query.as_str(), now);
        }
        self.current_query = Some(query);
    }

    /// Consume a failed search outcome: the busy flag drops and the
    /// banner carries the collaborator's message under a kind-specific
    /// prefix.
    pub fn complete_search_failure(&mut self, page: PageContext, message: &str)
        requires
            old(self).wf(),
        ensures
            final(self).wf(),
            !final(self).searching,
            final(self).error_message matches Some(m) && m@ == search_failure_prefix(page)
                + message@,
            *final(self) == (ApplicationState {
                searching: false,
                error_message: final(self).error_message,
                ..*old(self)
            }),
    {
        self.searching = false;
        let mut banner = match page {
            PageContext::Initial => String::from_str("Search failed: "),
            PageContext::NextPage => String::from_str("Failed to load next page: "),
            PageContext::PreviousPage => String::from_str("Failed to load previous page: "),
        };
        banner.append(message);
        self.error_message = Some(banner);
    }

    /// Consume an abnormally ended search task: a panic raises a
    /// kind-specific banner; a plain abort changes nothing but the busy
    /// flag.
    pub fn complete_search_abnormal(&mut self, page: PageContext, panicked: bool)
        requires
            old(self).wf(),
        ensures
            final(self).wf(),
            !final(self).searching,
            panicked ==> (final(self).error_message matches Some(m) && m@ == search_panic_message(
                page,
            )),
            !panicked ==> final(self).error_message == old(self).error_message,
            *final(self) == (ApplicationState {
                searching: false,
                error_message: final(self).error_message,
                ..*old(self)
            }),
    {
        self.searching = false;
        if panicked {
            self.error_message = Some(
                match page {
                    PageContext::Initial => String::from_str("Search task panicked"),
                    PageContext::NextPage => String::from_str("Next page task panicked"),
                    PageContext::PreviousPage => String::from_str("Previous page task panicked"),
                },
            );
        }
    }

    /// Consume a successful random pick: the entry opens in the detail
    /// view, and its view and payload are written through to the store,
    /// best effort (`payload` is the serialized entry, absent when
    /// serialization failed).
    pub fn complete_random_success(
        &mut self,
        store: &mut LocalStore,
        sequence: Sequence,
        payload: Option<&str>,
        now: i64,
    )
        requires
            old(self).wf(),
            old(store).wf(),
        ensures
            final(self).wf(),
            final(store).wf(),
            !final(self).searching,
            final(self).error_message is None,
            final(self).screen is Detail,
            final(self).current_sequence == Some(sequence),
            final(store).clock == max_i64(old(store).clock, now),
            final(store).views_view() == crate::store::bump_views(
                old(store).views_view(),
                sequence.number as int,
                final(store).clock as int,
            ),
            final(store).entities_view() == match payload {
                Some(p) => crate::store::upsert_entities(
                    old(store).entities_view(),
                    sequence.number as int,
                    p@,
                    final(store).clock as int,
                ),
                None => old(store).entities_view(),
            },
            final(store).searches_view() == old(store).searches_view(),
            final(store).history_view() == old(store).history_view(),
            final(store).bookmarks_view() == old(store).bookmarks_view(),
            *final(self) == (ApplicationState {
                searching: false,
                error_message: None,
                screen: Screen::Detail,
                current_sequence: Some(sequence),
                ..*old(self)
            }),
    {
        self.searching = false;
        self.error_message = None;
        self.screen = Screen::Detail;
        let number = sequence.number;
        self.current_sequence = Some(sequence);
        if let Some(serialized) = payload {
            store.cache_sequence(i64::from(number), serialized, now);
        }
        store.record_view(i64::from(number), now);
    }

    /// Consume an empty random pick: nothing was found.
    pub fn complete_random_none(&mut self)
        requires
            old(self).wf(),
        ensures
            final(self).wf(),
            !final(self).searching,
            final(self).error_message matches Some(m) && m@ == "No random sequence found"@,
            *final(self) == (ApplicationState {
                searching: false,
                error_message: final(self).error_message,
                ..*old(self)
            }),
    {
        self.searching = false;
        self.error_message = Some(String::from_str("No random sequence found"));
    }

    /// Consume a failed random pick.
    pub fn complete_random_failure(&mut self, message: &str)
        requires
            old(self).wf(),
        ensures
            final(self).wf(),
            !final(self).searching,
            final(self).error_message matches Some(m) && m@ == "Failed to load random sequence: "@
                + message@,
            *final(self) == (ApplicationState {
                searching: false,
                error_message: final(self).error_message,
                ..*old(self)
            }),
    {
        self.searching = false;
        let mut banner = String::from_str("Failed to load random sequence: ");
        banner.append(message);
        self.error_message = Some(banner);
    }

    /// Consume an abnormally ended random-pick task: a panic raises a
    /// banner; a plain abort changes nothing but the busy flag.
    pub fn complete_random_abnormal(&mut self, panicked: bool)
        requires
            old(self).wf(),
        ensures
            final(self).wf(),
            !final(self).searching,
            panicked ==> (final(self).error_message matches Some(m) && m@
                == "Random sequence task panicked"@),
            !panicked ==> final(self).error_message == old(self).error_message,
            *final(self) == (ApplicationState {
                searching: false,
                error_message: final(self).error_message,
                ..*old(self)
            }),
    {
        self.searching = false;
        if panicked {
            self.error_message = Some(String::from_str("Random sequence task panicked"));
        }
    }

    /// Consume a successful extended-data fetch.
    pub fn complete_bfile_success(&mut self, data: Vec<BFileEntry>)
        requires
            old(self).wf(),
        ensures
            final(self).wf(),
            !final(self).searching,
            final(self).bfile_data == Some(data),
            final(self).bfile_error is None,
            *final(self) == (ApplicationState {
                searching: false,
                bfile_data: Some(data),
                bfile_error: None,
                ..*old(self)
            }),
    {
        self.searching = false;
        self.bfile_data = Some(data);
        self.bfile_error = None;
    }

    /// Consume a failed extended-data fetch.
    pub fn complete_bfile_failure(&mut self, message: &str)
        requires
            old(self).wf(),
        ensures
            final(self).wf(),
            !final(self).searching,
            final(self).bfile_data is None,
            final(self).bfile_error matches Some(m) && m@ == "B-file not available: "@ + message@,
            *final(self) == (ApplicationState {
                searching: false,
                bfile_data: None,
                bfile_error: final(self).bfile_error,
                ..*old(self)
            }),
    {
        self.searching = false;
        self.bfile_data = None;
        let mut banner = String::from_str("B-file not available: ");
        banner.append(message);
        self.bfile_error = Some(banner);
    }

    /// Consume an abnormally ended extended-data task: the runtime's
    /// message lands in the banner whatever the reason, and any loaded
    /// data is dropped.
    pub fn complete_bfile_abnormal(&mut self, message: &str)
        requires
            old(self).wf(),
        ensures
            final(self).wf(),
            !final(self).searching,
            final(self).bfile_data is None,
            final(self).bfile_error matches Some(m) && m@ == "B-file fetch failed: "@ + message@,
            *final(self) == (ApplicationState {
                searching: false,
                bfile_data: None,
                bfile_error: final(self).bfile_error,
                ..*old(self)
            }),
    {
        self.searching = false;
        self.bfile_data = None;
        let mut banner = String::from_str("B-file fetch failed: ");
        banner.append(message);
        self.bfile_error = Some(banner);
    }

    /// Move the result selection down one entry, clamped to the list.
    pub fn select_next_result(&mut self)
        requires
            old(self).wf(),
        ensures
            final(self).wf(),
            final(self).selected_result == if old(self).search_results@.len() == 0 {
                0int
            } else if old(self).selected_result + 1 < old(self).search_results@.len() {
                old(self).selected_result + 1
            } else {
                old(self).search_results@.len() - 1
            },
            *final(self) == (ApplicationState {
                selected_result: final(self).selected_result,
                ..*old(self)
            }),
    {
        let n = self.search_results.len();
        if n > 0 && self.selected_result + 1 < n {
            self.selected_result = self.selected_result + 1;
        }
    }

    /// Move the result selection up one entry, clamped to the list.
    pub fn select_previous_result(&mut self)
        requires
            old(self).wf(),
        ensures
            final(self).wf(),
            final(self).selected_result == if old(self).selected_result > 0 {
                old(self).selected_result - 1
            } else {
                0int
            },
            *final(self) == (ApplicationState {
                selected_result: final(self).selected_result,
                ..*old(self)
            }),
    {
        if self.selected_result > 0 {
            self.selected_result = self.selected_result - 1;
        }
    }

    /// Toggle the bookmark of the entry in the detail view, and refresh
    /// the bookmarks snapshot from the store; without an entry nothing
    /// changes.
    pub fn toggle_bookmark(&mut self, store: &mut LocalStore, now: i64)
        requires
            old(self).wf(),
            old(store).wf(),
        ensures
            final(self).wf(),
            final(store).wf(),
            match old(self).current_sequence {
                Some(seq) => {
                    let n = seq.number as int;
                    if lookup_bookmark(old(store).bookmarks_view(), n) is Some {
                        final(store).bookmarks_view() == drop_bookmark(
                            old(store).bookmarks_view(),
                            n,
                        )
                    } else {
                        final(store).bookmarks_view() == upsert_bookmarks(
                            old(store).bookmarks_view(),
                            n,
                            None,
                            max_i64(old(store).clock, now) as int,
                        )
                    }
                },
                None => *final(store) == *old(store) && *final(self) == *old(self),
            },
            old(self).current_sequence is Some ==> final(self).bookmarks@.len() == final(store).bookmarks_view().len(),
    {
        let number = match &self.current_sequence {
            Some(seq) => seq.number,
            None => {
                return;
            },
        };
        let n = i64::from(number);
        if store.is_bookmarked(n) {
            store.remove_bookmark(n);
        } else {
            store.add_bookmark(n, None, now);
        }
        self.refresh_bookmarks(store);
    }

    /// Refresh the bookmarks snapshot from the store, keeping the
    /// selection inside the list.
    pub fn refresh_bookmarks(&mut self, store: &LocalStore)
        requires
            old(self).wf(),
        ensures
            final(self).wf(),
            final(self).bookmarks@.len() == store.bookmarks_view().len(),
            forall|k: int|
                #![trigger final(self).bookmarks@[k]]
                0 <= k < final(self).bookmarks@.len() ==> final(self).bookmarks@[k].0 as int
                    == store.bookmarks_view()[k].0,
    {
        self.bookmarks = store.get_bookmarks();
        if self.bookmarks.len() == 0 {
            self.bookmarks_selected = 0;
        } else if self.bookmarks_selected >= self.bookmarks.len() {
            self.bookmarks_selected = self.bookmarks.len() - 1;
        }
    }
}

} // verus!
