use vstd::prelude::*;

verus! {

/// A key press as the screens' event handlers see it.
#[derive(Clone, Copy, PartialEq, Eq, Structural, Debug)]
pub enum Key {
    Char(char),
    Enter,
    Esc,
    Backspace,
    Up,
    Down,
}

/// Where one press of the down key moves a list selection: one row down,
/// wrapping at the end; an empty list keeps no selection, and a first press
/// selects the top row.
pub open spec fn spec_select_next(current: Option<usize>, count: int) -> Option<usize> {
    if count <= 0 {
        None
    } else {
        match current {
            Some(c) => Some(((c + 1) % count) as usize),
            None => Some(0usize),
        }
    }
}

/// Where one press of the up key moves a list selection: one row up,
/// wrapping at the top.
pub open spec fn spec_select_prev(current: Option<usize>, count: int) -> Option<usize> {
    if count <= 0 {
        None
    } else {
        match current {
            Some(c) => Some(
                (if c >= 1 {
                    c - 1
                } else {
                    count - 1
                }) as usize,
            ),
            None => Some(0usize),
        }
    }
}

/// A selection that fell off the end of a shrunken list counts as no
/// selection.
pub open spec fn spec_clamp_selection(current: Option<usize>, count: int) -> Option<usize> {
    match current {
        Some(c) => if c < count {
            Some(c)
        } else {
            None
        },
        None => None,
    }
}

/// Moves a list selection one row down, wrapping at the end.
pub fn select_next(current: Option<usize>, count: usize) -> (r: Option<usize>)
    requires
        current matches Some(c) ==> c < count,
    ensures
        r == spec_select_next(current, count as int),
{
    if count == 0 {
        None
    } else {
        match current {
            Some(c) => Some((c + 1) % count),
            None => Some(0),
        }
    }
}

/// Moves a list selection one row up, wrapping at the top.
pub fn select_prev(current: Option<usize>, count: usize) -> (r: Option<usize>)
    requires
        current matches Some(c) ==> c < count,
    ensures
        r == spec_select_prev(current, count as int),
{
    if count == 0 {
        None
    } else {
        match current {
            Some(c) => Some(
                if c >= 1 {
                    c - 1
                } else {
                    count - 1
                },
            ),
            None => Some(0),
        }
    }
}

} // verus!
