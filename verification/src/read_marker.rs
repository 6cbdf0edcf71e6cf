//! Focus-gated read-position reporting.
//!
//! A read receipt is sent only while the view has focus and only when the
//! head of the message list actually moved.  The stored marker is updated
//! optimistically, before any backend acknowledgement, which suppresses
//! redundant sends on rapid successive changes.

use vstd::prelude::*;

use crate::pagination::cursor_view;

verus! {

/// What one head-change notification does to the marker, and what it
/// emits: `(new_marker, emitted_receipt)`.
pub open spec fn marker_step(
    focus: bool,
    marker: Option<Seq<char>>,
    head: Option<Seq<char>>,
) -> (Option<Seq<char>>, Option<Seq<char>>) {
    if !focus || head == marker {
        (marker, Option::None)
    } else {
        match head {
            Option::Some(id) => (Option::Some(id), Option::Some(id)),
            Option::None => (marker, Option::None),
        }
    }
}

/// Read-marker suppression: after one notification for a head, a second
/// notification for the same head emits nothing and changes nothing.
pub proof fn lemma_marker_suppression(
    focus: bool,
    marker: Option<Seq<char>>,
    head: Option<Seq<char>>,
)
    requires
        ({
            let (m1, e1) = marker_step(focus, marker, head);
            e1 is Some
        }),
    ensures
        ({
            let (m1, _e1) = marker_step(focus, marker, head);
            let (m2, e2) = marker_step(focus, m1, head);
            m2 == m1 && e2 is None
        }),
{
}

/// The read-marker state machine.
pub struct ReadMarkerTracker {
    focus: bool,
    read_to: Option<String>,
}

impl ReadMarkerTracker {
    /// Whether the view currently has focus.
    pub closed spec fn focus(&self) -> bool {
        self.focus
    }

    /// The last event id reported as read, `None` before the first
    /// report.
    pub closed spec fn marker(&self) -> Option<Seq<char>> {
        cursor_view(&self.read_to)
    }

    /// A room view opens focused, with nothing reported yet.
    pub fn new() -> (r: ReadMarkerTracker)
        ensures
            r.focus(),
            r.marker() is None,
    {
        ReadMarkerTracker { focus: true, read_to: Option::None }
    }

    /// The view gained focus.
    pub fn on_focus_gained(&mut self)
        ensures
            final(self).focus(),
            final(self).marker() == old(self).marker(),
    {
        self.focus = true;
    }

    /// The view lost focus; the marker stays where it was.
    pub fn on_focus_lost(&mut self)
        ensures
            !final(self).focus(),
            final(self).marker() == old(self).marker(),
    {
        self.focus = false;
    }

    /// The head of the message list changed (or may have): emits a read
    /// receipt for the head id only when the view has focus and the head
    /// differs from the last-reported marker, updating the marker
    /// immediately.
    pub fn on_message_list_changed(&mut self, head: &Option<String>) -> (emit: Option<String>)
        ensures
            final(self).focus() == old(self).focus(),
            (final(self).marker(), cursor_view(&emit)) == marker_step(
                old(self).focus(),
                old(self).marker(),
                cursor_view(head),
            ),
    {
        if !self.focus {
            return Option::None;
        }
        let same = match (head, &self.read_to) {
            (Option::Some(h), Option::Some(m)) => *h == *m,
            (Option::None, Option::None) => true,
            _ => false,
        };
        if same {
            return Option::None;
        }
        match head {
            Option::Some(id) => {
                self.read_to = Option::Some(id.clone());
                Option::Some(id.clone())
            },
            Option::None => Option::None,
        }
    }
}

} // verus!
