use vstd::prelude::*;

verus! {

/// Tri-state selection value held by every node of the tree.
#[derive(Debug, Clone, Copy, PartialEq, Eq, Structural)]
pub enum SelectionState {
    Included,
    Excluded,
    /// Some descendant files included, some excluded (directories only).
    Partial,
}

/// The value of `toggle` on a state.
pub open spec fn toggled(s: SelectionState) -> SelectionState {
    match s {
        SelectionState::Included => SelectionState::Excluded,
        SelectionState::Excluded => SelectionState::Included,
        SelectionState::Partial => SelectionState::Included,
    }
}

impl Default for SelectionState {
    fn default() -> (r: Self)
        ensures
            r == SelectionState::Excluded,
    {
        SelectionState::Excluded
    }
}

impl SelectionState {
    /// True for `Included` and `Partial`.
    pub fn is_included(&self) -> (r: bool)
        ensures
            r == (*self == SelectionState::Included || *self == SelectionState::Partial),
    {
        match self {
            SelectionState::Included | SelectionState::Partial => true,
            SelectionState::Excluded => false,
        }
    }

    pub fn is_excluded(&self) -> (r: bool)
        ensures
            r == (*self == SelectionState::Excluded),
    {
        match self {
            SelectionState::Excluded => true,
            _ => false,
        }
    }

    pub fn is_partial(&self) -> (r: bool)
        ensures
            r == (*self == SelectionState::Partial),
    {
        match self {
            SelectionState::Partial => true,
            _ => false,
        }
    }

    /// Included and Excluded swap; Partial resolves to Included, never to Partial.
    pub fn toggle(&self) -> (r: Self)
        ensures
            r == toggled(*self),
            r != SelectionState::Partial,
    {
        match self {
            SelectionState::Included => SelectionState::Excluded,
            SelectionState::Excluded => SelectionState::Included,
            SelectionState::Partial => SelectionState::Included,
        }
    }
}

} // verus!
