//! The cursor over the rendered message list.
//!
//! The index is clamped into the current list on every move.  It is not
//! remapped when the underlying list is rebuilt: after a rebuild changes
//! the list's size, the apparent selection may shift until the next move
//! clamps it again.  This module deliberately does not track message
//! identity across rebuilds; a position is just a position.

use vstd::prelude::*;

verus! {

/// What a move toward older messages yields.
pub open spec fn move_up_spec(sel: Option<usize>, len: usize) -> Option<usize> {
    if len == 0 {
        Option::None
    } else {
        match sel {
            Option::None => Option::Some(0usize),
            Option::Some(i) => if i + 1 < len {
                Option::Some((i + 1) as usize)
            } else {
                Option::Some((len - 1) as usize)
            },
        }
    }
}

/// What a move toward newer messages yields.
pub open spec fn move_down_spec(sel: Option<usize>, len: usize) -> Option<usize> {
    if len == 0 {
        Option::None
    } else {
        match sel {
            Option::None => Option::Some(0usize),
            Option::Some(i) => if i == 0 {
                Option::Some(0usize)
            } else if i - 1 < len {
                Option::Some((i - 1) as usize)
            } else {
                Option::Some((len - 1) as usize)
            },
        }
    }
}

/// The selection cursor.
pub struct SelectionState {
    selected: Option<usize>,
}

impl SelectionState {
    /// The selected index, `None` before any move on a non-empty list.
    pub closed spec fn sel(&self) -> Option<usize> {
        self.selected
    }

    /// No selection yet.
    pub fn new() -> (r: SelectionState)
        ensures
            r.sel() is None,
    {
        SelectionState { selected: Option::None }
    }

    /// Selects the newest message.
    pub fn reset_to_newest(&mut self)
        ensures
            final(self).sel() == Option::Some(0usize),
    {
        self.selected = Option::Some(0);
    }

    /// Moves the selection one message toward older history, clamped to
    /// the end of the list.
    pub fn move_up(&mut self, len: usize)
        ensures
            final(self).sel() == move_up_spec(old(self).sel(), len),
    {
        if len == 0 {
            self.selected = Option::None;
            return ;
        }
        let i = match self.selected {
            Option::None => 0,
            Option::Some(i) => if i < len - 1 {
                i + 1
            } else {
                len - 1
            },
        };
        self.selected = Option::Some(i);
    }

    /// Moves the selection one message toward newer history, clamped to
    /// the start of the list.
    pub fn move_down(&mut self, len: usize)
        ensures
            final(self).sel() == move_down_spec(old(self).sel(), len),
    {
        if len == 0 {
            self.selected = Option::None;
            return ;
        }
        let i = match self.selected {
            Option::None => 0,
            Option::Some(i) => if i == 0 {
                0
            } else if i - 1 < len {
                i - 1
            } else {
                len - 1
            },
        };
        self.selected = Option::Some(i);
    }

    /// The selected index.
    pub fn selected(&self) -> (r: Option<usize>)
        ensures
            r == self.sel(),
    {
        self.selected
    }
}

} // verus!
