use vstd::prelude::*;
use crate::error::ProtocolError;
use crate::geometry::Geometry;
use crate::requests::ConfigureChanges;

verus! {

/// A configure request as received from a client: the target window plus the
/// requested changes and their mask.
#[derive(Clone, Copy, Debug, PartialEq, Eq, Structural)]
pub struct ConfigureRequestEvent {
    pub window: u32,
    pub changes: ConfigureChanges,
}

/// One received event together with everything the connection reported while
/// the event was handled: fresh resource ids the manager asked for, query
/// replies, and the first failure (if any) among the checked requests of each
/// operation. The manager decides; performing requests and collecting these
/// outcomes is the caller's connection work.
#[derive(Clone, Copy, Debug, PartialEq, Eq)]
pub enum EventInput {
    /// A client asked to be mapped. `frame_id` is the fresh id allocated for
    /// the decoration window; `geometry` is the reply to the geometry fetch;
    /// `frame_outcome` is the first failure among the framing requests;
    /// `map_outcome` is the outcome of mapping the client afterwards.
    MapRequest {
        window: u32,
        frame_id: u32,
        geometry: Result<Geometry, ProtocolError>,
        frame_outcome: Option<ProtocolError>,
        map_outcome: Option<ProtocolError>,
    },
    /// A window was unmapped. `outcome` is the first failure among the
    /// unframing requests (meaningful only if the window was tracked).
    UnmapNotify { window: u32, outcome: Option<ProtocolError> },
    /// A client asked for a configure. `frame_outcome` is the outcome of
    /// configuring the tracked frame (if one exists), `client_outcome` that
    /// of configuring the client itself.
    ConfigureRequest {
        event: ConfigureRequestEvent,
        frame_outcome: Option<ProtocolError>,
        client_outcome: Option<ProtocolError>,
    },
    /// Any other event kind: create/destroy/reparent/map/configure notify and
    /// the rest. Observability only; the manager ignores them.
    Other,
}

/// One pre-existing top-level window found while enumerating the root's
/// children at bootstrap: its id, the fresh id allocated for its frame, the
/// reply to its geometry fetch, and the first failure among its framing
/// requests.
#[derive(Clone, Copy, Debug, PartialEq, Eq)]
pub struct ChildInput {
    pub window: u32,
    pub frame_id: u32,
    pub geometry: Result<Geometry, ProtocolError>,
    pub outcome: Option<ProtocolError>,
}

/// A whole session as the manager sees it: the outcome of selecting
/// substructure events on the root (the single-manager check), the root's
/// children at enumeration time, and the finite stream of events up to the
/// point the connection closed.
#[derive(Debug, PartialEq, Eq)]
pub struct SessionInput {
    pub root_select: Option<ProtocolError>,
    pub children: Vec<ChildInput>,
    pub events: Vec<EventInput>,
}

} // verus!
