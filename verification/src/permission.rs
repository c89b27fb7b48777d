//! The Accessibility permission that cursor tracking needs on macOS, as last
//! observed.

use vstd::prelude::*;

verus! {

/// Whether the Accessibility permission was granted, as last observed.
pub struct AccessibilityPermissionState {
    granted: bool,
}

impl AccessibilityPermissionState {
    /// Whether the permission is granted.
    pub closed spec fn is_granted(&self) -> bool {
        self.granted
    }

    /// The state first observed.
    pub fn new(granted: bool) -> (r: AccessibilityPermissionState)
        ensures
            r.is_granted() == granted,
    {
        AccessibilityPermissionState { granted }
    }

    /// Records a new observation; answers whether it changed the state.
    pub fn replace(&mut self, granted: bool) -> (changed: bool)
        ensures
            final(self).is_granted() == granted,
            changed == (old(self).is_granted() != granted),
    {
        let previous = self.granted;
        self.granted = granted;
        previous != granted
    }

    /// Whether the permission is granted.
    pub fn granted(&self) -> (r: bool)
        ensures
            r == self.is_granted(),
    {
        self.granted
    }
}

} // verus!
