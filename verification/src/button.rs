//! How a button reacts, from its disabled, loading and selected states:
//! whether a click reaches its handler, whether hover and press styles
//! apply, and what it shows in place of its icon.
use vstd::prelude::*;

verus! {

/// The states of a button that decide how it reacts.
pub struct ButtonState {
    pub disabled: bool,
    pub loading: bool,
    pub selected: bool,
}

impl ButtonState {
    /// A click reaches the handler, where there is one, only while the
    /// button is neither disabled nor loading.
    pub fn accepts_click(&self, has_handler: bool) -> (r: bool)
        ensures
            r == (has_handler && !self.disabled && !self.loading),
    {
        has_handler && !self.disabled && !self.loading
    }

    /// Hover and press styles apply only while the button is neither
    /// disabled nor selected.
    pub fn reacts_to_hover(&self) -> (r: bool)
        ensures
            r == (!self.disabled && !self.selected),
    {
        !self.disabled && !self.selected
    }

    /// A loading button shows the loading indicator in place of its icon.
    pub fn shows_indicator(&self) -> (r: bool)
        ensures
            r == self.loading,
    {
        self.loading
    }

    /// A loading button that is not disabled is drawn faded.
    pub fn faded(&self) -> (r: bool)
        ensures
            r == (self.loading && !self.disabled),
    {
        self.loading && !self.disabled
    }
}

} // verus!
