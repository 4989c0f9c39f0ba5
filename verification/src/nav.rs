//! Pane focus and row selection.
//!
//! Three panes are shown at once; exactly one has focus, and each keeps
//! its own optional selected row. Selection moves wrap around the pane;
//! on an empty pane they are a safe no-op and the selection stays absent.
//! Moving out of a stale position (at or past the row count) lands back
//! inside the pane.

use vstd::prelude::*;

verus! {

/// Which pane has focus.
#[derive(PartialEq, Eq, Structural, Clone, Copy, Debug)]
pub enum Focus {
    Projects,
    Tasks,
    Contexts,
}

/// The pane focused after one forward step of the fixed cycle
/// Tasks -> Projects -> Contexts -> Tasks.
pub open spec fn focus_next_spec(f: Focus) -> Focus {
    match f {
        Focus::Tasks => Focus::Projects,
        Focus::Projects => Focus::Contexts,
        Focus::Contexts => Focus::Tasks,
    }
}

/// The pane focused after one backward step of the cycle.
pub open spec fn focus_prev_spec(f: Focus) -> Focus {
    match f {
        Focus::Tasks => Focus::Contexts,
        Focus::Contexts => Focus::Projects,
        Focus::Projects => Focus::Tasks,
    }
}

/// The selection after moving down in a pane of `len` rows: absent stays
/// absent only on an empty pane; no selection settles on the first row;
/// the last row wraps to the first.
pub open spec fn next_sel_spec(sel: Option<usize>, len: nat) -> Option<usize> {
    if len == 0 {
        None
    } else {
        match sel {
            None => Some(0usize),
            Some(i) => if i + 1 >= len {
                Some(0usize)
            } else {
                Some((i + 1) as usize)
            },
        }
    }
}

/// The selection after moving up in a pane of `len` rows: no selection
/// settles on the first row; the first row wraps to the last.
pub open spec fn prev_sel_spec(sel: Option<usize>, len: nat) -> Option<usize> {
    if len == 0 {
        None
    } else {
        match sel {
            None => Some(0usize),
            Some(i) => if i == 0 || i >= len {
                Some((len - 1) as usize)
            } else {
                Some((i - 1) as usize)
            },
        }
    }
}

/// Both moves land inside the pane.
pub proof fn lemma_sel_in_range(sel: Option<usize>, len: nat)
    requires
        len <= usize::MAX,
    ensures
        next_sel_spec(sel, len) matches Some(i) ==> i < len,
        prev_sel_spec(sel, len) matches Some(i) ==> i < len,
        next_sel_spec(sel, len) is Some <==> len > 0,
        prev_sel_spec(sel, len) is Some <==> len > 0,
{
}

/// Navigation wraparound: in a pane with rows, moving down from the last
/// row selects the first, and moving up from the first selects the last.
pub proof fn lemma_nav_wraparound(len: nat)
    requires
        0 < len <= usize::MAX,
    ensures
        next_sel_spec(Some((len - 1) as usize), len) == Some(0usize),
        prev_sel_spec(Some(0usize), len) == Some((len - 1) as usize),
{
}

/// Moves the selection down one row, wrapping at the bottom.
pub fn next_sel(sel: Option<usize>, len: usize) -> (r: Option<usize>)
    ensures
        r == next_sel_spec(sel, len as nat),
{
    if len == 0 {
        None
    } else {
        match sel {
            None => Some(0),
            Some(i) => if i >= len - 1 {
                Some(0)
            } else {
                Some(i + 1)
            },
        }
    }
}

/// Moves the selection up one row, wrapping at the top.
pub fn prev_sel(sel: Option<usize>, len: usize) -> (r: Option<usize>)
    ensures
        r == prev_sel_spec(sel, len as nat),
{
    if len == 0 {
        None
    } else {
        match sel {
            None => Some(0),
            Some(i) => if i == 0 || i >= len {
                Some(len - 1)
            } else {
                Some(i - 1)
            },
        }
    }
}

} // verus!
