use vstd::prelude::*;

verus! {

/// A window's geometry as the server reports it: position relative to the
/// parent, inner size, and border width. Read from a client at frame time and
/// copied onto the new frame so the frame exactly occludes the client.
#[derive(Clone, Copy, Debug, PartialEq, Eq, Structural)]
pub struct Geometry {
    pub x: i16,
    pub y: i16,
    pub width: u16,
    pub height: u16,
    pub border_width: u16,
}

} // verus!
