//! Window identity.

use vstd::prelude::*;

verus! {

/// Opaque identifier of a top-level window, as handed out by the window system.
#[derive(Clone, Copy, Debug, PartialEq, Eq, Structural, Hash)]
pub struct WindowHandle(pub isize);

impl WindowHandle {
    /// The raw identifier.
    pub fn raw(&self) -> (r: isize)
        ensures
            r == self.0,
    {
        self.0
    }
}

} // verus!
