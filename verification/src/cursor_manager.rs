use vstd::prelude::*;

verus! {

/// Holds the cursor resource id the manager attaches to the root window.
/// Loading the cursor is connection work done by the caller; the manager only
/// keeps the resulting id.
#[derive(Clone, Copy, Debug, PartialEq, Eq, Structural)]
pub struct CursorManager {
    pub arrow: u32,
}

impl CursorManager {
    pub fn new(arrow: u32) -> (r: Self)
        ensures
            r.arrow == arrow,
    {
        CursorManager { arrow }
    }

    /// The cursor to install on the root window at startup.
    pub fn default_cursor(&self) -> (r: u32)
        ensures
            r == self.arrow,
    {
        self.arrow
    }
}

} // verus!
