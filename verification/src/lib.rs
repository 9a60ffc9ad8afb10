//! Core of a reparenting window manager: the client/frame registry, the
//! bootstrap sequencer with single-manager detection, and the event
//! dispatcher, each verified against an explicit model of the ordered
//! protocol requests it issues. Connection I/O lives outside the library:
//! callers perform the planned requests and hand server-reported outcomes
//! back in.

pub mod error;
pub mod events;
pub mod geometry;
pub mod registry;
pub mod requests;
pub mod screen;
pub mod cursor_manager;
pub mod window_manager;
