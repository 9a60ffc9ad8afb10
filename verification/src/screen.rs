use vstd::prelude::*;

verus! {

/// The facts about one screen that the manager consumes: the root window id,
/// the root visual id, and the default colormap id, supplied once at
/// construction by whoever opened the connection.
#[derive(Clone, Copy, Debug, PartialEq, Eq, Structural)]
pub struct Screen {
    pub root: u32,
    pub root_visual: u32,
    pub default_colormap: u32,
}

impl Screen {
    pub fn new(root: u32, root_visual: u32, default_colormap: u32) -> (r: Self)
        ensures
            r.root == root,
            r.root_visual == root_visual,
            r.default_colormap == default_colormap,
    {
        Screen { root, root_visual, default_colormap }
    }

    pub fn root_window_of_screen(&self) -> (r: u32)
        ensures
            r == self.root,
    {
        self.root
    }
}

} // verus!
