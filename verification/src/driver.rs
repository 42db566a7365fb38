//! The pagination driver: which page is fetched next, when paging stops,
//! and how a run ends.

use vstd::prelude::*;
use crate::page::{page_count, page_count_of, PER_PAGE};

verus! {

/// Where a run stands.
#[derive(Debug, Clone, Copy, PartialEq, Eq, Structural)]
pub enum Phase {
    /// Nothing was fetched yet.
    Start,
    /// Pages are fetched one after the other.
    Paging,
    /// No further page is fetched; the scheduled resolutions are awaited.
    Draining,
    /// The run is over.
    Done,
}

/// What happened since the driver last spoke.
#[derive(Debug, Clone, Copy, PartialEq, Eq, Structural)]
pub enum Event {
    /// The earlier manifest is loaded and the run can begin.
    Begin { cancelled: bool },
    /// The requested page arrived and its entries are scheduled.
    PageReceived { total_results: u32, cancelled: bool },
    /// The requested page could not be fetched or read.
    PageFailed,
    /// Every scheduled resolution has ended.
    Drained { failed: bool },
}

/// What is to be done next.
#[derive(Debug, Clone, Copy, PartialEq, Eq, Structural)]
pub enum Action {
    /// Fetch this page and schedule a resolution for each of its entries.
    FetchPage { page: u32, per_page: u32 },
    /// Await every scheduled resolution.
    Drain,
    /// Sort the manifest by key and write it.
    Persist,
    /// End with success and write nothing.
    Exit,
    /// End with failure and write nothing.
    Abort,
    /// The event does not belong to the phase: nothing changes.
    Stay,
}

/// The state of a driver.
pub ghost struct DriverView {
    pub phase: Phase,
    pub test_mode: bool,
    pub per_page: u32,
    /// The number of pages received.
    pub fetched: u32,
    /// The number of pages of the listing: 1 until the first page tells.
    pub total_pages: u32,
}

/// The page size of a run: 1 in test mode.
pub open spec fn per_page_for(test_mode: bool) -> u32 {
    if test_mode {
        1
    } else {
        PER_PAGE
    }
}

/// The state in which a run starts.
pub open spec fn initial(test_mode: bool) -> DriverView {
    DriverView {
        phase: Phase::Start,
        test_mode,
        per_page: per_page_for(test_mode),
        fetched: 0,
        total_pages: 1,
    }
}

/// The number of pages known once a page reporting `total_results` has
/// arrived: the first page tells it, later pages change nothing.
pub open spec fn pages_after(s: DriverView, total_results: u32) -> u32 {
    if s.fetched == 0 {
        page_count_of(total_results as nat, s.per_page as nat) as u32
    } else {
        s.total_pages
    }
}

/// The state that follows `s` on `event`.
pub open spec fn next_state(s: DriverView, event: Event) -> DriverView {
    match (s.phase, event) {
        (Phase::Start, Event::Begin { cancelled }) => DriverView {
            phase: if cancelled {
                Phase::Draining
            } else {
                Phase::Paging
            },
            ..s
        },
        (Phase::Paging, Event::PageReceived { total_results, cancelled }) => {
            let total_pages = pages_after(s, total_results);
            let fetched = (s.fetched + 1) as u32;
            DriverView {
                phase: if s.test_mode {
                    Phase::Done
                } else if fetched < total_pages && !cancelled {
                    Phase::Paging
                } else {
                    Phase::Draining
                },
                fetched,
                total_pages,
                ..s
            }
        },
        (Phase::Paging, Event::PageFailed) => DriverView { phase: Phase::Done, ..s },
        (Phase::Draining, Event::Drained { failed }) => DriverView { phase: Phase::Done, ..s },
        _ => s,
    }
}

/// The action that `s` answers `event` with.
pub open spec fn next_action(s: DriverView, event: Event) -> Action {
    let after = next_state(s, event);
    match (s.phase, event) {
        (Phase::Start, Event::Begin { cancelled }) => if cancelled {
            Action::Drain
        } else {
            Action::FetchPage { page: 1, per_page: s.per_page }
        },
        (Phase::Paging, Event::PageReceived { total_results, cancelled }) => if s.test_mode {
            Action::Exit
        } else if after.phase == Phase::Paging {
            Action::FetchPage { page: (after.fetched + 1) as u32, per_page: s.per_page }
        } else {
            Action::Drain
        },
        (Phase::Paging, Event::PageFailed) => Action::Abort,
        (Phase::Draining, Event::Drained { failed }) => if failed {
            Action::Abort
        } else {
            Action::Persist
        },
        _ => Action::Stay,
    }
}

/// Every step leaves a driver well-formed.
pub proof fn lemma_step_keeps_wf(s: DriverView, event: Event)
    requires
        driver_wf(s),
    ensures
        driver_wf(next_state(s, event)),
{
}

/// Pages are asked for in order and never beyond the last: a page that is
/// to be fetched is the one after those received, and it exists.
pub proof fn lemma_pages_in_order(s: DriverView, event: Event)
    requires
        driver_wf(s),
    ensures
        next_action(s, event) matches Action::FetchPage { page, per_page } ==> {
            &&& next_state(s, event).phase == Phase::Paging
            &&& page == next_state(s, event).fetched + 1
            &&& page <= next_state(s, event).total_pages
            &&& per_page == s.per_page
        },
{
}

/// Once cancellation is seen no further page is fetched, and the run is
/// neither ended nor aborted by it: what was scheduled is still awaited.
pub proof fn lemma_cancellation_stops_paging(s: DriverView, total_results: u32)
    requires
        driver_wf(s),
    ensures
        next_action(s, Event::Begin { cancelled: true }) !is FetchPage,
        next_action(s, Event::PageReceived { total_results, cancelled: true }) !is FetchPage,
        s.phase == Phase::Start ==> next_action(s, Event::Begin { cancelled: true })
            == Action::Drain,
        s.phase == Phase::Paging && !s.test_mode ==> next_action(
            s,
            Event::PageReceived { total_results, cancelled: true },
        ) == Action::Drain,
{
}

/// In test mode a run fetches the first page with page size 1 and ends with
/// success once that page has arrived, whatever the listing's length: no
/// second page is fetched, nothing is awaited and nothing is written.
pub proof fn lemma_test_mode_ends_after_first_page(
    total_results: u32,
    cancelled: bool,
    later: Event,
)
    ensures
        ({
            let begun = next_state(initial(true), Event::Begin { cancelled: false });
            let received = Event::PageReceived { total_results, cancelled };
            &&& next_action(initial(true), Event::Begin { cancelled: false })
                == Action::FetchPage { page: 1, per_page: 1 }
            &&& next_action(begun, received) == Action::Exit
            &&& next_state(begun, received).phase == Phase::Done
            &&& next_action(next_state(begun, received), later) == Action::Stay
        }),
{
}

/// A run that is over stays over: every event is answered with `Stay`.
pub proof fn lemma_done_is_final(s: DriverView, event: Event)
    requires
        s.phase == Phase::Done,
    ensures
        next_state(s, event) == s,
        next_action(s, event) == Action::Stay,
{
}

/// The driver of a run.
#[derive(Clone, Copy)]
pub struct Driver {
    phase: Phase,
    test_mode: bool,
    per_page: u32,
    fetched: u32,
    total_pages: u32,
}

impl View for Driver {
    type V = DriverView;

    closed spec fn view(&self) -> DriverView {
        DriverView {
            phase: self.phase,
            test_mode: self.test_mode,
            per_page: self.per_page,
            fetched: self.fetched,
            total_pages: self.total_pages,
        }
    }
}

/// What holds of every driver: a page has at least one entry, and while
/// pages are fetched the next one exists.
pub open spec fn driver_wf(s: DriverView) -> bool {
    &&& s.per_page > 0
    &&& s.phase == Phase::Start ==> s.fetched == 0 && s.total_pages == 1
    &&& s.phase == Phase::Paging ==> s.fetched < s.total_pages
}

impl Driver {
    #[verifier::type_invariant]
    spec fn well_formed(self) -> bool {
        driver_wf(self@)
    }

    /// A driver at the start of a run.
    pub fn new(test_mode: bool) -> (driver: Driver)
        ensures
            driver@ == initial(test_mode),
            driver_wf(driver@),
    {
        Driver {
            phase: Phase::Start,
            test_mode,
            per_page: if test_mode {
                1
            } else {
                PER_PAGE
            },
            fetched: 0,
            total_pages: 1,
        }
    }

    /// The phase of the run.
    pub fn phase(&self) -> (phase: Phase)
        ensures
            phase == self@.phase,
    {
        self.phase
    }

    /// The number of pages of the listing, as far as it is known.
    pub fn total_pages(&self) -> (pages: u32)
        ensures
            pages == self@.total_pages,
    {
        self.total_pages
    }

    /// Takes `event` and says what is to be done next.
    pub fn step(&mut self, event: Event) -> (action: Action)
        ensures
            driver_wf(old(self)@),
            driver_wf(final(self)@),
            final(self)@ == next_state(old(self)@, event),
            action == next_action(old(self)@, event),
    {
        proof {
            use_type_invariant(&*self);
        }
        let Driver { phase, test_mode, per_page, fetched, total_pages } = *self;
        match (phase, event) {
            (Phase::Start, Event::Begin { cancelled }) => {
                if cancelled {
                    self.phase = Phase::Draining;
                    Action::Drain
                } else {
                    self.phase = Phase::Paging;
                    Action::FetchPage { page: 1, per_page }
                }
            },
            (Phase::Paging, Event::PageReceived { total_results, cancelled }) => {
                let total_pages = if fetched == 0 {
                    page_count(total_results, per_page)
                } else {
                    total_pages
                };
                let fetched = fetched + 1;
                let goes_on = !test_mode && fetched < total_pages && !cancelled;
                let phase = if test_mode {
                    Phase::Done
                } else if goes_on {
                    Phase::Paging
                } else {
                    Phase::Draining
                };
                *self = Driver { phase, test_mode, per_page, fetched, total_pages };
                if test_mode {
                    Action::Exit
                } else if goes_on {
                    Action::FetchPage { page: fetched + 1, per_page }
                } else {
                    Action::Drain
                }
            },
            (Phase::Paging, Event::PageFailed) => {
                self.phase = Phase::Done;
                Action::Abort
            },
            (Phase::Draining, Event::Drained { failed }) => {
                self.phase = Phase::Done;
                if failed {
                    Action::Abort
                } else {
                    Action::Persist
                }
            },
            _ => Action::Stay,
        }
    }
}

} // verus!
