//! Selection state for list and table browsing.
//!
//! The widgets themselves are a caller's business; this module holds the
//! widget identifiers and the wraparound rules a selection follows when
//! the user moves up or down a listing.

use vstd::prelude::*;

verus! {

/// The widgets a catalog-browsing session can have in focus.
#[derive(Clone, Copy, Debug, PartialEq, Eq, Structural)]
pub enum AppWidgets {
    FileSelector,
    FileAction,
    CBMBrowser,
    Help,
}

/// The selection after a move downwards: the next row, wrapping to the
/// top at the end; an empty listing has no selection.
pub open spec fn spec_next_selection(selected: Option<usize>, len: usize) -> Option<usize> {
    if len == 0 {
        None
    } else {
        match selected {
            Option::Some(i) => if i + 1 < len {
                Some((i + 1) as usize)
            } else {
                Some(0usize)
            },
            Option::None => Some(0usize),
        }
    }
}

/// The selection after a move upwards: the previous row, wrapping to
/// the bottom at the top, and a selection that ran past the end coming
/// back in at the bottom; an empty listing has no selection.
pub open spec fn spec_previous_selection(selected: Option<usize>, len: usize) -> Option<usize> {
    if len == 0 {
        None
    } else {
        match selected {
            Option::Some(i) => if i == 0 || i >= len {
                Some((len - 1) as usize)
            } else {
                Some((i - 1) as usize)
            },
            Option::None => Some(0usize),
        }
    }
}

/// Move a listing's selection one row down, wrapping around.
pub fn next_selection(selected: Option<usize>, len: usize) -> (r: Option<usize>)
    ensures
        r == spec_next_selection(selected, len),
        r matches Some(i) ==> i < len,
{
    if len == 0 {
        return None;
    }
    match selected {
        Some(i) => {
            if i >= len - 1 {
                Some(0)
            } else {
                Some(i + 1)
            }
        },
        None => Some(0),
    }
}

/// Move a listing's selection one row up, wrapping around.
pub fn previous_selection(selected: Option<usize>, len: usize) -> (r: Option<usize>)
    ensures
        r == spec_previous_selection(selected, len),
        r matches Some(i) ==> i < len,
{
    if len == 0 {
        return None;
    }
    match selected {
        Some(i) => {
            if i == 0 || i >= len {
                Some(len - 1)
            } else {
                Some(i - 1)
            }
        },
        None => Some(0),
    }
}

} // verus!
