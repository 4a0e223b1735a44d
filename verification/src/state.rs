//! Whether an entity is highlighted.

use vstd::prelude::*;

verus! {

/// Hover and selection flags of one entity. The two are independent.
#[derive(Clone, Copy, Debug, PartialEq, Eq, Structural)]
pub struct ActiveState {
    pub hover: bool,
    pub selected: bool,
}

impl ActiveState {
    /// An entity is active while the pointer is over it or while it is selected.
    pub open spec fn spec_is_active(&self) -> bool {
        self.hover || self.selected
    }

    #[verifier::when_used_as_spec(spec_is_active)]
    pub fn is_active(&self) -> (active: bool)
        ensures
            active == (self.hover || self.selected),
    {
        if self.hover || self.selected {
            true
        } else {
            false
        }
    }

    /// The same state with the hover flag replaced.
    pub open spec fn spec_with_hover(self, hover: bool) -> ActiveState {
        ActiveState { hover, selected: self.selected }
    }

    #[verifier::when_used_as_spec(spec_with_hover)]
    pub fn with_hover(self, hover: bool) -> (next: ActiveState)
        ensures
            next == (ActiveState { hover, selected: self.selected }),
    {
        ActiveState { hover, selected: self.selected }
    }
}

impl Default for ActiveState {
    /// Neither hovered nor selected.
    fn default() -> (state: ActiveState)
        ensures
            state == (ActiveState { hover: false, selected: false }),
    {
        ActiveState { hover: false, selected: false }
    }
}

} // verus!
