//! Cursor-driven backward pagination with progress and backpressure
//! guards.
//!
//! A fetch is triggered only when a cursor is present, no fetch is in
//! flight, and the remaining buffer above the scroll position is below
//! the fetch-ahead threshold.  After a batch is applied, a follow-up
//! fetch is considered only when the batch yielded at least one net-new
//! message: a batch of pure duplicates stalls pagination until the next
//! user-driven check, which prevents a retry storm against a backend
//! that keeps returning known events.

use vstd::prelude::*;

verus! {

/// The remaining-buffer size below which another backward fetch is
/// triggered.
pub const FETCH_AHEAD_THRESHOLD: usize = 25;

/// The spec value of an optional cursor string.
pub open spec fn cursor_view(o: &Option<String>) -> Option<Seq<char>> {
    match o {
        Option::Some(c) => Option::Some(c@),
        Option::None => Option::None,
    }
}

/// The backward-pagination state machine.
pub struct PaginationController {
    next_cursor: Option<String>,
    fetching: bool,
}

impl PaginationController {
    /// The stored continuation token; `None` means no earlier history
    /// remains.
    pub closed spec fn cursor(&self) -> Option<Seq<char>> {
        cursor_view(&self.next_cursor)
    }

    /// Whether a fetch is currently in flight.
    pub closed spec fn fetching(&self) -> bool {
        self.fetching
    }

    /// Opening a room always issues an initial fetch, so the controller
    /// starts with no cursor and a fetch in flight.
    pub fn new() -> (r: PaginationController)
        ensures
            r.cursor() is None,
            r.fetching(),
    {
        PaginationController { next_cursor: Option::None, fetching: true }
    }

    /// Whether the conditions for a backward fetch hold for this buffer.
    pub open spec fn would_fetch(&self, buffer: usize) -> bool {
        &&& self.cursor() is Some
        &&& !self.fetching()
        &&& buffer < FETCH_AHEAD_THRESHOLD
    }

    /// Triggers a backward fetch when a cursor is present, none is in
    /// flight, and the buffer above the scroll position is low.  Returns
    /// the cursor to fetch from, when a fetch should be issued.
    pub fn maybe_fetch_more(&mut self, buffer: usize) -> (r: Option<String>)
        ensures
            r is Some == old(self).would_fetch(buffer),
            cursor_view(&r) == (if old(self).would_fetch(buffer) {
                old(self).cursor()
            } else {
                Option::<Seq<char>>::None
            }),
            final(self).cursor() == old(self).cursor(),
            final(self).fetching() == (old(self).fetching() || old(self).would_fetch(buffer)),
    {
        if self.fetching {
            return Option::None;
        }
        if buffer >= FETCH_AHEAD_THRESHOLD {
            return Option::None;
        }
        match &self.next_cursor {
            Option::Some(c) => {
                let cur = c.clone();
                self.fetching = true;
                Option::Some(cur)
            },
            Option::None => Option::None,
        }
    }

    /// Records an applied fetch batch: stores the new cursor, clears the
    /// in-flight flag, and re-evaluates the fetch condition only when the
    /// batch yielded at least one net-new message.  A batch without
    /// progress never triggers an immediate re-fetch, whatever cursor it
    /// carried.
    pub fn on_batch_applied(
        &mut self,
        previous_count: usize,
        new_count: usize,
        new_cursor: Option<String>,
        buffer: usize,
    ) -> (r: Option<String>)
        ensures
            final(self).cursor() == cursor_view(&new_cursor),
            new_count <= previous_count ==> r is None && !final(self).fetching(),
            r is Some == (new_count > previous_count && cursor_view(&new_cursor) is Some && buffer
                < FETCH_AHEAD_THRESHOLD),
            cursor_view(&r) == (if r is Some {
                cursor_view(&new_cursor)
            } else {
                Option::<Seq<char>>::None
            }),
            final(self).fetching() == (r is Some),
    {
        self.next_cursor = new_cursor;
        self.fetching = false;
        if new_count > previous_count {
            self.maybe_fetch_more(buffer)
        } else {
            Option::None
        }
    }
}

} // verus!
