use vstd::prelude::*;
use crate::error::{ProtocolError, WMError};
use crate::events::{ChildInput, ConfigureRequestEvent, EventInput, SessionInput};
use crate::geometry::Geometry;
use crate::registry::{
    client_index, has_client, has_frame, lemma_lookup_has_client, lemma_wf_push, lemma_wf_remove,
    lookup, remove_client, wf_entries, ClientRegistry,
};
use crate::requests::{Request, BORDER_WIDTH, WM_EVENT_MASK};
use crate::screen::Screen;

verus! {

/// The reparenting window manager's state: the root window it manages, the
/// visual its frames are created with, and the registry of managed clients.
pub struct WindowManager {
    pub root: u32,
    pub root_visual: u32,
    pub clients: ClientRegistry,
}

/// A fresh framing is admissible: neither the client nor the chosen frame id
/// collides with any tracked client or frame, and the two differ. Violating
/// this would corrupt the registry's injectivity, so it marks a dispatch bug.
pub open spec fn frame_guard(reg: Seq<(u32, u32)>, window: u32, frame_id: u32) -> bool {
    &&& !has_client(reg, window)
    &&& !has_frame(reg, window)
    &&& !has_client(reg, frame_id)
    &&& !has_frame(reg, frame_id)
    &&& window != frame_id
}

/// The framing requests for one client, in the required order: create the
/// frame at the client's geometry, select substructure events on it, insert
/// the client into the save set, reparent the client into the frame, map the
/// frame. The order matters: events are selected before the reparent so no
/// substructure event is missed, and the save-set insert precedes the
/// reparent so the client survives a manager crash mid-operation.
pub open spec fn frame_request_seq(
    root: u32,
    visual: u32,
    window: u32,
    frame_id: u32,
    g: Geometry,
) -> Seq<Request> {
    seq![
        (Request::CreateWindow {
            window: frame_id,
            parent: root,
            x: g.x,
            y: g.y,
            width: g.width,
            height: g.height,
            border_width: BORDER_WIDTH,
            visual: visual,
        }),
        (Request::SelectSubstructureEvents { window: frame_id, event_mask: WM_EVENT_MASK }),
        (Request::AddToSaveSet { window: window }),
        (Request::ReparentWindow { window: window, parent: frame_id, x: 0, y: 0 }),
        (Request::MapWindow { window: frame_id }),
    ]
}

/// The unframing requests for one tracked client, in order: unmap the frame,
/// reparent the client back to the root, remove it from the save set, and
/// destroy the now-empty frame. Destroying the frame is this library's
/// resource policy: a frame id is manager-created and is released as soon as
/// its client is no longer managed.
pub open spec fn unframe_request_seq(root: u32, window: u32, frame_id: u32) -> Seq<Request> {
    seq![
        (Request::UnmapWindow { window: frame_id }),
        (Request::ReparentWindow { window: window, parent: root, x: 0, y: 0 }),
        (Request::RemoveFromSaveSet { window: window }),
        (Request::DestroyWindow { window: frame_id }),
    ]
}

/// Registry after an unframe: the entry goes away only if the client was
/// tracked and every unframing request succeeded; a failure mid-sequence
/// leaves the entry in place, as the removal is the operation's last step.
pub open spec fn spec_unframe(
    reg: Seq<(u32, u32)>,
    window: u32,
    outcome: Option<ProtocolError>,
) -> Seq<(u32, u32)> {
    if has_client(reg, window) && outcome is None {
        remove_client(reg, window)
    } else {
        reg
    }
}

/// Result of an unframe: success for an untracked window (a no-op), otherwise
/// the first failed request's error, if any.
pub open spec fn spec_unframe_result(
    reg: Seq<(u32, u32)>,
    window: u32,
    outcome: Option<ProtocolError>,
) -> Result<(), ProtocolError> {
    if has_client(reg, window) {
        match outcome {
            Some(e) => Err(e),
            None => Ok(()),
        }
    } else {
        Ok(())
    }
}

/// Registry after a map request: the client is recorded only when its
/// geometry was fetched and every framing request succeeded.
pub open spec fn spec_map_request(
    reg: Seq<(u32, u32)>,
    window: u32,
    frame_id: u32,
    geometry: Result<Geometry, ProtocolError>,
    frame_outcome: Option<ProtocolError>,
) -> Seq<(u32, u32)> {
    if geometry is Ok && frame_outcome is None {
        reg.push((window, frame_id))
    } else {
        reg
    }
}

/// Result of a map request: the first failure among geometry fetch, framing,
/// and mapping the client, in that order.
pub open spec fn spec_map_request_result(
    geometry: Result<Geometry, ProtocolError>,
    frame_outcome: Option<ProtocolError>,
    map_outcome: Option<ProtocolError>,
) -> Result<(), ProtocolError> {
    match geometry {
        Err(e) => Err(e),
        Ok(_) => match frame_outcome {
            Some(e) => Err(e),
            None => match map_outcome {
                Some(e) => Err(e),
                None => Ok(()),
            },
        },
    }
}

/// Result of a configure request: configuring the tracked frame (if any)
/// comes first and aborts the relay on failure; otherwise the outcome of
/// configuring the client decides.
pub open spec fn spec_configure_result(
    reg: Seq<(u32, u32)>,
    e: ConfigureRequestEvent,
    frame_outcome: Option<ProtocolError>,
    client_outcome: Option<ProtocolError>,
) -> Result<(), ProtocolError> {
    if has_client(reg, e.window) {
        match frame_outcome {
            Some(err) => Err(err),
            None => match client_outcome {
                Some(err) => Err(err),
                None => Ok(()),
            },
        }
    } else {
        match client_outcome {
            Some(err) => Err(err),
            None => Ok(()),
        }
    }
}

/// Registry after dispatching one event. Only map requests and unmap notifies
/// touch it; a map request for a window that fails the freshness guard is
/// rejected without any change.
pub open spec fn spec_dispatch(reg: Seq<(u32, u32)>, ev: EventInput) -> Seq<(u32, u32)> {
    match ev {
        EventInput::MapRequest { window, frame_id, geometry, frame_outcome, .. } => {
            if frame_guard(reg, window, frame_id) {
                spec_map_request(reg, window, frame_id, geometry, frame_outcome)
            } else {
                reg
            }
        },
        EventInput::UnmapNotify { window, outcome } => spec_unframe(reg, window, outcome),
        EventInput::ConfigureRequest { .. } => reg,
        EventInput::Other => reg,
    }
}

/// Result of dispatching one event.
pub open spec fn spec_dispatch_result(reg: Seq<(u32, u32)>, ev: EventInput) -> Result<
    (),
    WMError,
> {
    match ev {
        EventInput::MapRequest { window, frame_id, geometry, frame_outcome, map_outcome } => {
            if !frame_guard(reg, window, frame_id) {
                Err(WMError::InvariantViolation)
            } else {
                match spec_map_request_result(geometry, frame_outcome, map_outcome) {
                    Ok(u) => Ok(u),
                    Err(e) => Err(WMError::Protocol(e)),
                }
            }
        },
        EventInput::UnmapNotify { window, outcome } => {
            match spec_unframe_result(reg, window, outcome) {
                Ok(u) => Ok(u),
                Err(e) => Err(WMError::Protocol(e)),
            }
        },
        EventInput::ConfigureRequest { event, frame_outcome, client_outcome } => {
            match spec_configure_result(reg, event, frame_outcome, client_outcome) {
                Ok(u) => Ok(u),
                Err(e) => Err(WMError::Protocol(e)),
            }
        },
        EventInput::Other => Ok(()),
    }
}

/// The ordered requests one event makes the manager issue. Requests come in
/// stages: a later stage is issued only if the earlier one succeeded (the
/// client is mapped only after successful framing; the client's configure is
/// issued only after the frame's succeeded). Within a stage each request is
/// checked and a failure stops the stage early.
pub open spec fn spec_event_plan(
    root: u32,
    visual: u32,
    reg: Seq<(u32, u32)>,
    ev: EventInput,
) -> Seq<Request> {
    match ev {
        EventInput::MapRequest { window, frame_id, geometry, frame_outcome, .. } => {
            if !frame_guard(reg, window, frame_id) {
                Seq::<Request>::empty()
            } else {
                match geometry {
                    Err(_) => Seq::<Request>::empty(),
                    Ok(g) => {
                        let fr = frame_request_seq(root, visual, window, frame_id, g);
                        if frame_outcome is None {
                            fr.push(Request::MapWindow { window })
                        } else {
                            fr
                        }
                    },
                }
            }
        },
        EventInput::UnmapNotify { window, .. } => {
            match lookup(reg, window) {
                None => Seq::<Request>::empty(),
                Some(f) => unframe_request_seq(root, window, f),
            }
        },
        EventInput::ConfigureRequest { event, frame_outcome, .. } => {
            match lookup(reg, event.window) {
                None => seq![
                    (Request::ConfigureWindow { window: event.window, changes: event.changes }),
                ],
                Some(f) => {
                    if frame_outcome is None {
                        seq![
                            (Request::ConfigureWindow { window: f, changes: event.changes }),
                            (Request::ConfigureWindow {
                                window: event.window,
                                changes: event.changes,
                            }),
                        ]
                    } else {
                        seq![(Request::ConfigureWindow { window: f, changes: event.changes })]
                    }
                },
            }
        },
        EventInput::Other => Seq::<Request>::empty(),
    }
}

/// A child enumerated at bootstrap gets a framing plan when its geometry
/// fetch succeeded and the freshness guard holds against the registry built
/// so far; a child that fails either check is skipped, never aborting the
/// adoption of the remaining children.
pub open spec fn spec_child_planned(reg: Seq<(u32, u32)>, c: ChildInput) -> bool {
    c.geometry is Ok && frame_guard(reg, c.window, c.frame_id)
}

/// The child is adopted when additionally all its framing requests succeeded.
pub open spec fn spec_adoptable(reg: Seq<(u32, u32)>, c: ChildInput) -> bool {
    spec_child_planned(reg, c) && c.outcome is None
}

pub open spec fn spec_adopt(reg: Seq<(u32, u32)>, c: ChildInput) -> Seq<(u32, u32)> {
    if spec_adoptable(reg, c) {
        reg.push((c.window, c.frame_id))
    } else {
        reg
    }
}

/// Registry after adopting the enumerated children in order.
pub open spec fn spec_adopt_all(reg: Seq<(u32, u32)>, cs: Seq<ChildInput>) -> Seq<(u32, u32)>
    decreases cs.len(),
{
    if cs.len() == 0 {
        reg
    } else {
        spec_adopt_all(spec_adopt(reg, cs[0]), cs.subrange(1, cs.len() as int))
    }
}

/// The framing requests planned for one enumerated child.
pub open spec fn spec_adopt_plan(
    root: u32,
    visual: u32,
    reg: Seq<(u32, u32)>,
    c: ChildInput,
) -> Seq<Request> {
    if spec_child_planned(reg, c) {
        frame_request_seq(root, visual, c.window, c.frame_id, c.geometry->Ok_0)
    } else {
        Seq::<Request>::empty()
    }
}

/// The framing requests planned for all enumerated children, in order.
pub open spec fn spec_adopt_all_plan(
    root: u32,
    visual: u32,
    reg: Seq<(u32, u32)>,
    cs: Seq<ChildInput>,
) -> Seq<Request>
    decreases cs.len(),
{
    if cs.len() == 0 {
        Seq::<Request>::empty()
    } else {
        spec_adopt_plan(root, visual, reg, cs[0]) + spec_adopt_all_plan(
            root,
            visual,
            spec_adopt(reg, cs[0]),
            cs.subrange(1, cs.len() as int),
        )
    }
}

/// Outcome of the single-manager check: an access-denied error on selecting
/// substructure events on the root means a competing manager is active; any
/// other error there is startup-fatal as itself.
pub open spec fn spec_bootstrap_result(root_select: Option<ProtocolError>) -> Result<
    (),
    WMError,
> {
    match root_select {
        Some(e) => if e.spec_is_access_denied() {
            Err(WMError::AnotherManagerActive)
        } else {
            Err(WMError::Protocol(e))
        },
        None => Ok(()),
    }
}

/// The full bootstrap transcript when no competing manager was detected:
/// claim the root, grab the server, adopt each enumerated child while the
/// grab is held, release the grab.
pub open spec fn spec_bootstrap_plan(
    root: u32,
    visual: u32,
    reg: Seq<(u32, u32)>,
    cs: Seq<ChildInput>,
) -> Seq<Request> {
    seq![
        (Request::SelectSubstructureEvents { window: root, event_mask: WM_EVENT_MASK }),
        (Request::GrabServer),
    ] + spec_adopt_all_plan(root, visual, reg, cs) + seq![(Request::UngrabServer)]
}

/// Registry after dispatching a finite event stream in order.
pub open spec fn spec_dispatch_all(reg: Seq<(u32, u32)>, evs: Seq<EventInput>) -> Seq<(u32, u32)>
    decreases evs.len(),
{
    if evs.len() == 0 {
        reg
    } else {
        spec_dispatch_all(spec_dispatch(reg, evs[0]), evs.subrange(1, evs.len() as int))
    }
}

/// Registry at the end of a session that got past the single-manager check:
/// the enumerated children adopted, then every event dispatched.
pub open spec fn spec_session_clients(
    reg: Seq<(u32, u32)>,
    children: Seq<ChildInput>,
    events: Seq<EventInput>,
) -> Seq<(u32, u32)> {
    spec_dispatch_all(spec_adopt_all(reg, children), events)
}

pub proof fn lemma_adopt_all_snoc(reg: Seq<(u32, u32)>, cs: Seq<ChildInput>, c: ChildInput)
    ensures
        spec_adopt_all(reg, cs.push(c)) == spec_adopt(spec_adopt_all(reg, cs), c),
    decreases cs.len(),
{
    let t = cs.push(c);
    if cs.len() == 0 {
        assert(t[0] == c);
        assert(t.subrange(1, t.len() as int) =~= Seq::<ChildInput>::empty());
        assert(spec_adopt_all(spec_adopt(reg, c), Seq::<ChildInput>::empty()) == spec_adopt(
            reg,
            c,
        ));
        assert(spec_adopt_all(reg, Seq::<ChildInput>::empty()) == reg);
    } else {
        let rest = cs.subrange(1, cs.len() as int);
        assert(t[0] == cs[0]);
        assert(t.subrange(1, t.len() as int) =~= rest.push(c));
        lemma_adopt_all_snoc(spec_adopt(reg, cs[0]), rest, c);
        assert(spec_adopt_all(reg, t) == spec_adopt_all(spec_adopt(reg, cs[0]), rest.push(c)));
        assert(spec_adopt_all(reg, cs) == spec_adopt_all(spec_adopt(reg, cs[0]), rest));
    }
}

pub proof fn lemma_adopt_all_plan_snoc(
    root: u32,
    visual: u32,
    reg: Seq<(u32, u32)>,
    cs: Seq<ChildInput>,
    c: ChildInput,
)
    ensures
        spec_adopt_all_plan(root, visual, reg, cs.push(c)) == spec_adopt_all_plan(
            root,
            visual,
            reg,
            cs,
        ) + spec_adopt_plan(root, visual, spec_adopt_all(reg, cs), c),
    decreases cs.len(),
{
    let t = cs.push(c);
    if cs.len() == 0 {
        assert(t[0] == c);
        assert(t.subrange(1, t.len() as int) =~= Seq::<ChildInput>::empty());
        assert(spec_adopt_all_plan(root, visual, spec_adopt(reg, c), Seq::<ChildInput>::empty())
            == Seq::<Request>::empty());
        assert(spec_adopt_all_plan(root, visual, reg, Seq::<ChildInput>::empty())
            == Seq::<Request>::empty());
        assert(spec_adopt_all(reg, Seq::<ChildInput>::empty()) == reg);
        assert(spec_adopt_all_plan(root, visual, reg, t) =~= spec_adopt_all_plan(
            root,
            visual,
            reg,
            cs,
        ) + spec_adopt_plan(root, visual, spec_adopt_all(reg, cs), c));
    } else {
        let rest = cs.subrange(1, cs.len() as int);
        assert(t[0] == cs[0]);
        assert(t.subrange(1, t.len() as int) =~= rest.push(c));
        lemma_adopt_all_plan_snoc(root, visual, spec_adopt(reg, cs[0]), rest, c);
        lemma_adopt_all_snoc(reg, cs, c);
        assert(spec_adopt_all_plan(root, visual, reg, t) == spec_adopt_plan(root, visual, reg, cs[0])
            + spec_adopt_all_plan(root, visual, spec_adopt(reg, cs[0]), rest.push(c)));
        assert(spec_adopt_all_plan(root, visual, reg, cs) == spec_adopt_plan(
            root,
            visual,
            reg,
            cs[0],
        ) + spec_adopt_all_plan(root, visual, spec_adopt(reg, cs[0]), rest));
        assert(spec_adopt_all(reg, cs) == spec_adopt_all(spec_adopt(reg, cs[0]), rest));
        assert(spec_adopt_all_plan(root, visual, reg, t) =~= spec_adopt_all_plan(
            root,
            visual,
            reg,
            cs,
        ) + spec_adopt_plan(root, visual, spec_adopt_all(reg, cs), c));
    }
}

pub proof fn lemma_dispatch_all_snoc(reg: Seq<(u32, u32)>, evs: Seq<EventInput>, ev: EventInput)
    ensures
        spec_dispatch_all(reg, evs.push(ev)) == spec_dispatch(spec_dispatch_all(reg, evs), ev),
    decreases evs.len(),
{
    let t = evs.push(ev);
    if evs.len() == 0 {
        assert(t[0] == ev);
        assert(t.subrange(1, t.len() as int) =~= Seq::<EventInput>::empty());
        assert(spec_dispatch_all(spec_dispatch(reg, ev), Seq::<EventInput>::empty())
            == spec_dispatch(reg, ev));
        assert(spec_dispatch_all(reg, Seq::<EventInput>::empty()) == reg);
    } else {
        let rest = evs.subrange(1, evs.len() as int);
        assert(t[0] == evs[0]);
        assert(t.subrange(1, t.len() as int) =~= rest.push(ev));
        lemma_dispatch_all_snoc(spec_dispatch(reg, evs[0]), rest, ev);
        assert(spec_dispatch_all(reg, t) == spec_dispatch_all(spec_dispatch(reg, evs[0]), rest.push(ev)));
        assert(spec_dispatch_all(reg, evs) == spec_dispatch_all(spec_dispatch(reg, evs[0]), rest));
    }
}

/// Law: bootstrap adopts every enumerated window exactly once. When the
/// children are pairwise distinct, their fresh frame ids disjoint from
/// everything, each geometry fetched and each framing successful, the
/// registry gains exactly one entry per child, mapping it to its frame, and
/// whatever was tracked before is untouched.
pub proof fn lemma_bootstrap_adopts_all(reg: Seq<(u32, u32)>, cs: Seq<ChildInput>)
    requires
        wf_entries(reg),
        forall|i: int| 0 <= i < cs.len() ==> (#[trigger] cs[i]).geometry is Ok,
        forall|i: int| 0 <= i < cs.len() ==> (#[trigger] cs[i]).outcome is None,
        forall|i: int| 0 <= i < cs.len() ==> (#[trigger] cs[i]).window != cs[i].frame_id,
        forall|i: int|
            0 <= i < cs.len() ==> !has_client(reg, (#[trigger] cs[i]).window) && !has_frame(
                reg,
                cs[i].window,
            ) && !has_client(reg, cs[i].frame_id) && !has_frame(reg, cs[i].frame_id),
        forall|i: int, j: int|
            0 <= i < j < cs.len() ==> (#[trigger] cs[i]).window != (#[trigger] cs[j]).window
                && cs[i].frame_id != cs[j].frame_id && cs[i].window != cs[j].frame_id
                && cs[i].frame_id != cs[j].window,
    ensures
        wf_entries(spec_adopt_all(reg, cs)),
        spec_adopt_all(reg, cs).len() == reg.len() + cs.len(),
        forall|i: int|
            0 <= i < cs.len() ==> lookup(spec_adopt_all(reg, cs), (#[trigger] cs[i]).window)
                == Some(cs[i].frame_id),
        forall|x: u32|
            (forall|i: int| 0 <= i < cs.len() ==> (#[trigger] cs[i]).window != x) ==> lookup(
                spec_adopt_all(reg, cs),
                x,
            ) == lookup(reg, x),
    decreases cs.len(),
{
    if cs.len() == 0 {
    } else {
        let c = cs[0];
        let rest = cs.subrange(1, cs.len() as int);
        assert(spec_adoptable(reg, c));
        let reg1 = reg.push((c.window, c.frame_id));
        lemma_wf_push(reg, c.window, c.frame_id);
        assert(spec_adopt(reg, c) == reg1);
        assert forall|i: int| 0 <= i < rest.len() implies (#[trigger] rest[i]).geometry is Ok
            && rest[i].outcome is None && rest[i].window != rest[i].frame_id by {
            assert(rest[i] == cs[i + 1]);
        }
        assert forall|i: int|
            0 <= i < rest.len() implies !has_client(reg1, (#[trigger] rest[i]).window)
            && !has_frame(reg1, rest[i].window) && !has_client(reg1, rest[i].frame_id)
            && !has_frame(reg1, rest[i].frame_id) by {
            assert(rest[i] == cs[i + 1]);
            assert(has_client(reg1, rest[i].window) <==> has_client(reg, rest[i].window)
                || rest[i].window == c.window);
            assert(has_frame(reg1, rest[i].window) <==> has_frame(reg, rest[i].window)
                || rest[i].window == c.frame_id);
            assert(has_client(reg1, rest[i].frame_id) <==> has_client(reg, rest[i].frame_id)
                || rest[i].frame_id == c.window);
            assert(has_frame(reg1, rest[i].frame_id) <==> has_frame(reg, rest[i].frame_id)
                || rest[i].frame_id == c.frame_id);
        }
        assert forall|i: int, j: int|
            0 <= i < j < rest.len() implies (#[trigger] rest[i]).window
            != (#[trigger] rest[j]).window && rest[i].frame_id != rest[j].frame_id
            && rest[i].window != rest[j].frame_id && rest[i].frame_id != rest[j].window by {
            assert(rest[i] == cs[i + 1]);
            assert(rest[j] == cs[j + 1]);
        }
        lemma_bootstrap_adopts_all(reg1, rest);
        assert(spec_adopt_all(reg, cs) == spec_adopt_all(reg1, rest));
        assert forall|i: int|
            0 <= i < cs.len() implies lookup(
            spec_adopt_all(reg, cs),
            (#[trigger] cs[i]).window,
        ) == Some(cs[i].frame_id) by {
            if i == 0 {
                assert forall|j: int| 0 <= j < rest.len() implies (#[trigger] rest[j]).window
                    != c.window by {
                    assert(rest[j] == cs[j + 1]);
                }
                assert(lookup(spec_adopt_all(reg1, rest), c.window) == lookup(reg1, c.window));
            } else {
                assert(rest[i - 1] == cs[i]);
            }
        }
        assert forall|x: u32|
            (forall|i: int| 0 <= i < cs.len() ==> (#[trigger] cs[i]).window != x) implies lookup(
            spec_adopt_all(reg, cs),
            x,
        ) == lookup(reg, x) by {
            assert(cs[0].window != x);
            assert forall|j: int| 0 <= j < rest.len() implies (#[trigger] rest[j]).window != x by {
                assert(rest[j] == cs[j + 1]);
            }
            assert(lookup(spec_adopt_all(reg1, rest), x) == lookup(reg1, x));
        }
    }
}

/// Law: an adopted child's frame is created at exactly the geometry the
/// child had at enumeration time, as the first of its five framing requests.
pub proof fn lemma_adopted_frame_matches_geometry(
    root: u32,
    visual: u32,
    reg: Seq<(u32, u32)>,
    c: ChildInput,
)
    requires
        spec_child_planned(reg, c),
    ensures
        spec_adopt_plan(root, visual, reg, c).len() == 5,
        spec_adopt_plan(root, visual, reg, c)[0] == (Request::CreateWindow {
            window: c.frame_id,
            parent: root,
            x: c.geometry->Ok_0.x,
            y: c.geometry->Ok_0.y,
            width: c.geometry->Ok_0.width,
            height: c.geometry->Ok_0.height,
            border_width: BORDER_WIDTH,
            visual: visual,
        }),
{
}

/// Law: a map request for a window already tracked as a client is rejected
/// as an invariant violation — the registry is never silently overwritten.
pub proof fn lemma_map_request_rejects_tracked(
    reg: Seq<(u32, u32)>,
    window: u32,
    frame_id: u32,
    geometry: Result<Geometry, ProtocolError>,
    frame_outcome: Option<ProtocolError>,
    map_outcome: Option<ProtocolError>,
)
    requires
        has_client(reg, window),
    ensures
        spec_dispatch(
            reg,
            (EventInput::MapRequest { window, frame_id, geometry, frame_outcome, map_outcome }),
        ) == reg,
        spec_dispatch_result(
            reg,
            (EventInput::MapRequest { window, frame_id, geometry, frame_outcome, map_outcome }),
        ) == Err::<(), WMError>(WMError::InvariantViolation),
{
}

/// Law: unframing a window that is not tracked is a successful no-op, not an
/// error, and changes nothing.
pub proof fn lemma_unframe_untracked(
    reg: Seq<(u32, u32)>,
    window: u32,
    outcome: Option<ProtocolError>,
)
    requires
        !has_client(reg, window),
    ensures
        spec_unframe(reg, window, outcome) == reg,
        spec_unframe_result(reg, window, outcome) == Ok::<(), ProtocolError>(()),
{
}

/// Law: framing then immediately unframing the same client restores the
/// registry exactly — no entry for that client remains — and the unframe
/// plan reparents the client back to the root.
pub proof fn lemma_frame_then_unframe(root: u32, reg: Seq<(u32, u32)>, window: u32, frame_id: u32)
    requires
        wf_entries(reg),
        frame_guard(reg, window, frame_id),
    ensures
        spec_unframe(reg.push((window, frame_id)), window, None) == reg,
        !has_client(spec_unframe(reg.push((window, frame_id)), window, None), window),
        unframe_request_seq(root, window, frame_id)[1] == (Request::ReparentWindow {
            window,
            parent: root,
            x: 0,
            y: 0,
        }),
{
    let r1 = reg.push((window, frame_id));
    lemma_wf_push(reg, window, frame_id);
    let n = reg.len() as int;
    assert(r1[n].0 == window);
    assert(has_client(r1, window));
    let k = client_index(r1, window);
    assert(0 <= k < r1.len() && r1[k].0 == window);
    if k != n {
        assert(r1[k] == reg[k]);
        assert(has_client(reg, window));
        assert(false);
    }
    assert(remove_client(r1, window) == r1.remove(n));
    assert(r1.remove(n) =~= reg);
}

/// Law: an access-denied error while claiming the root means a competing
/// manager is active; bootstrap reports `AnotherManagerActive` — and, by
/// `bootstrap`'s contract, leaves the registry untouched with nothing but
/// the one selection request issued.
pub proof fn lemma_competing_manager_detected(e: ProtocolError)
    requires
        e.spec_is_access_denied(),
    ensures
        spec_bootstrap_result(Some(e)) == Err::<(), WMError>(WMError::AnotherManagerActive),
{
}

/// Law: a configure request for a tracked client is relayed to both the
/// frame and the client, each carrying the identical masked changes.
pub proof fn lemma_configure_relayed_identically(
    root: u32,
    visual: u32,
    reg: Seq<(u32, u32)>,
    event: ConfigureRequestEvent,
)
    requires
        has_client(reg, event.window),
    ensures
        ({
            let p = spec_event_plan(
                root,
                visual,
                reg,
                (EventInput::ConfigureRequest { event, frame_outcome: None, client_outcome: None }),
            );
            &&& p.len() == 2
            &&& p[0] == (Request::ConfigureWindow {
                window: lookup(reg, event.window).unwrap(),
                changes: event.changes,
            })
            &&& p[1] == (Request::ConfigureWindow { window: event.window, changes: event.changes })
        }),
{
    lemma_lookup_has_client(reg, event.window);
}

impl WindowManager {
    /// All registry invariants hold.
    pub open spec fn wf(&self) -> bool {
        wf_entries(self.clients@)
    }

    pub fn new(screen: &Screen) -> (r: WindowManager)
        ensures
            r.root == screen.root,
            r.root_visual == screen.root_visual,
            r.clients@ == Seq::<(u32, u32)>::empty(),
            r.wf(),
    {
        WindowManager {
            root: screen.root,
            root_visual: screen.root_visual,
            clients: ClientRegistry::new(),
        }
    }

    /// The request that claims window-manager duty over `window`: select
    /// substructure-redirect and substructure-notify on it.
    pub fn select_window_wm_events(&self, window: u32) -> (r: Request)
        ensures
            r == (Request::SelectSubstructureEvents { window, event_mask: WM_EVENT_MASK }),
    {
        Request::SelectSubstructureEvents { window, event_mask: WM_EVENT_MASK }
    }

    /// Is `window` a tracked client?
    pub fn is_managed(&self, window: u32) -> (r: bool)
        ensures
            r == has_client(self.clients@, window),
    {
        self.clients.contains_client(window)
    }

    /// May `window` be framed under the fresh id `frame_id`?
    pub fn can_frame(&self, window: u32, frame_id: u32) -> (r: bool)
        ensures
            r == frame_guard(self.clients@, window, frame_id),
    {
        !self.clients.contains_client(window) && !self.clients.contains_frame(window)
            && !self.clients.contains_client(frame_id) && !self.clients.contains_frame(frame_id)
            && window != frame_id
    }

    /// The frame tracked for `window`, if any.
    pub fn frame_of(&self, window: u32) -> (r: Option<u32>)
        ensures
            r == lookup(self.clients@, window),
            r is Some <==> has_client(self.clients@, window),
    {
        proof {
            lemma_lookup_has_client(self.clients@, window);
        }
        self.clients.get(window)
    }

    pub fn client_count(&self) -> (r: usize)
        ensures
            r == self.clients@.len(),
    {
        self.clients.len()
    }

    /// The ordered framing requests for `window` at geometry `g` under the
    /// fresh frame id `frame_id`.
    pub fn frame_requests(&self, window: u32, frame_id: u32, g: &Geometry) -> (r: Vec<Request>)
        ensures
            r@ == frame_request_seq(self.root, self.root_visual, window, frame_id, *g),
    {
        let mut v: Vec<Request> = Vec::new();
        v.push(
            Request::CreateWindow {
                window: frame_id,
                parent: self.root,
                x: g.x,
                y: g.y,
                width: g.width,
                height: g.height,
                border_width: BORDER_WIDTH,
                visual: self.root_visual,
            },
        );
        v.push(Request::SelectSubstructureEvents { window: frame_id, event_mask: WM_EVENT_MASK });
        v.push(Request::AddToSaveSet { window });
        v.push(Request::ReparentWindow { window, parent: frame_id, x: 0, y: 0 });
        v.push(Request::MapWindow { window: frame_id });
        proof {
            assert(v@ =~= frame_request_seq(self.root, self.root_visual, window, frame_id, *g));
        }
        v
    }

    /// Record `(window, frame_id)` if every framing request succeeded;
    /// propagate the first failure otherwise, recording nothing. A client
    /// already tracked must never reach this: the `frame_guard` precondition
    /// is the no-double-framing assertion.
    pub fn frame(&mut self, window: u32, frame_id: u32, outcome: Option<ProtocolError>) -> (r:
        Result<(), ProtocolError>)
        requires
            old(self).wf(),
            frame_guard(old(self).clients@, window, frame_id),
        ensures
            final(self).wf(),
            final(self).root == old(self).root,
            final(self).root_visual == old(self).root_visual,
            outcome is None ==> final(self).clients@ == old(self).clients@.push(
                (window, frame_id),
            ) && r is Ok,
            outcome matches Some(e) ==> final(self).clients@ == old(self).clients@ && r == Err::<
                (),
                ProtocolError,
            >(e),
    {
        match outcome {
            None => {
                proof {
                    lemma_wf_push(self.clients@, window, frame_id);
                }
                self.clients.insert(window, frame_id);
                Ok(())
            },
            Some(e) => Err(e),
        }
    }

    /// The ordered unframing requests for `window`: empty when untracked.
    pub fn unframe_requests(&self, window: u32) -> (r: Vec<Request>)
        ensures
            has_client(self.clients@, window) ==> r@ == unframe_request_seq(
                self.root,
                window,
                lookup(self.clients@, window).unwrap(),
            ),
            !has_client(self.clients@, window) ==> r@ == Seq::<Request>::empty(),
    {
        proof {
            lemma_lookup_has_client(self.clients@, window);
        }
        match self.clients.get(window) {
            None => Vec::new(),
            Some(frame_id) => {
                let mut v: Vec<Request> = Vec::new();
                v.push(Request::UnmapWindow { window: frame_id });
                v.push(Request::ReparentWindow { window, parent: self.root, x: 0, y: 0 });
                v.push(Request::RemoveFromSaveSet { window });
                v.push(Request::DestroyWindow { window: frame_id });
                proof {
                    assert(v@ =~= unframe_request_seq(self.root, window, frame_id));
                }
                v
            },
        }
    }

    /// Drop `window`'s registry entry if it is tracked and every unframing
    /// request succeeded. Unframing an untracked window is a successful
    /// no-op, never an error.
    pub fn unframe(&mut self, window: u32, outcome: Option<ProtocolError>) -> (r: Result<
        (),
        ProtocolError,
    >)
        requires
            old(self).wf(),
        ensures
            final(self).wf(),
            final(self).root == old(self).root,
            final(self).root_visual == old(self).root_visual,
            final(self).clients@ == spec_unframe(old(self).clients@, window, outcome),
            r == spec_unframe_result(old(self).clients@, window, outcome),
    {
        if self.clients.contains_client(window) {
            match outcome {
                Some(e) => Err(e),
                None => {
                    proof {
                        lemma_wf_remove(self.clients@, window);
                    }
                    self.clients.remove(window);
                    Ok(())
                },
            }
        } else {
            Ok(())
        }
    }

    /// An unmap of a tracked client ends its management; an unmap of anything
    /// else is ignored.
    pub fn on_unmap_notify(&mut self, window: u32, outcome: Option<ProtocolError>) -> (r: Result<
        (),
        ProtocolError,
    >)
        requires
            old(self).wf(),
        ensures
            final(self).wf(),
            final(self).root == old(self).root,
            final(self).root_visual == old(self).root_visual,
            final(self).clients@ == spec_unframe(old(self).clients@, window, outcome),
            r == spec_unframe_result(old(self).clients@, window, outcome),
    {
        self.unframe(window, outcome)
    }

    /// Handle a map request: with the geometry fetched, frame the window,
    /// then have the original client mapped. The client is recorded only on
    /// fully successful framing; the first failure is propagated.
    pub fn on_map_request(
        &mut self,
        window: u32,
        frame_id: u32,
        geometry: Result<Geometry, ProtocolError>,
        frame_outcome: Option<ProtocolError>,
        map_outcome: Option<ProtocolError>,
    ) -> (r: Result<(), ProtocolError>)
        requires
            old(self).wf(),
            frame_guard(old(self).clients@, window, frame_id),
        ensures
            final(self).wf(),
            final(self).root == old(self).root,
            final(self).root_visual == old(self).root_visual,
            final(self).clients@ == spec_map_request(
                old(self).clients@,
                window,
                frame_id,
                geometry,
                frame_outcome,
            ),
            r == spec_map_request_result(geometry, frame_outcome, map_outcome),
    {
        match geometry {
            Err(e) => Err(e),
            Ok(_) => {
                match self.frame(window, frame_id, frame_outcome) {
                    Err(e) => Err(e),
                    Ok(u) => {
                        match map_outcome {
                            Some(e) => Err(e),
                            None => Ok(u),
                        }
                    },
                }
            },
        }
    }

    /// Relay a configure request: the tracked frame (if any) is configured
    /// first, then the client itself, with the identical masked changes. The
    /// registry is never touched.
    pub fn on_configure_request(
        &self,
        e: &ConfigureRequestEvent,
        frame_outcome: Option<ProtocolError>,
        client_outcome: Option<ProtocolError>,
    ) -> (r: Result<(), ProtocolError>)
        ensures
            r == spec_configure_result(self.clients@, *e, frame_outcome, client_outcome),
    {
        if self.clients.contains_client(e.window) {
            if let Some(err) = frame_outcome {
                return Err(err);
            }
        }
        match client_outcome {
            Some(err) => Err(err),
            None => Ok(()),
        }
    }

    /// The routing table: the ordered requests this event makes the manager
    /// issue against the current registry.
    pub fn dispatch_requests(&self, ev: &EventInput) -> (r: Vec<Request>)
        ensures
            r@ == spec_event_plan(self.root, self.root_visual, self.clients@, *ev),
    {
        match *ev {
            EventInput::MapRequest { window, frame_id, geometry, frame_outcome, map_outcome: _ } => {
                if !self.can_frame(window, frame_id) {
                    return Vec::new();
                }
                match geometry {
                    Err(_) => Vec::new(),
                    Ok(g) => {
                        let mut v = self.frame_requests(window, frame_id, &g);
                        if frame_outcome.is_none() {
                            v.push(Request::MapWindow { window });
                        }
                        proof {
                            assert(v@ =~= spec_event_plan(
                                self.root,
                                self.root_visual,
                                self.clients@,
                                *ev,
                            ));
                        }
                        v
                    },
                }
            },
            EventInput::UnmapNotify { window, outcome: _ } => {
                proof {
                    lemma_lookup_has_client(self.clients@, window);
                }
                self.unframe_requests(window)
            },
            EventInput::ConfigureRequest { event, frame_outcome, client_outcome: _ } => {
                let mut v: Vec<Request> = Vec::new();
                match self.clients.get(event.window) {
                    Some(f) => {
                        v.push(Request::ConfigureWindow { window: f, changes: event.changes });
                        if frame_outcome.is_none() {
                            v.push(
                                Request::ConfigureWindow {
                                    window: event.window,
                                    changes: event.changes,
                                },
                            );
                        }
                    },
                    None => {
                        v.push(
                            Request::ConfigureWindow { window: event.window, changes: event.changes },
                        );
                    },
                }
                proof {
                    assert(v@ =~= spec_event_plan(self.root, self.root_visual, self.clients@, *ev));
                }
                v
            },
            EventInput::Other => Vec::new(),
        }
    }

    /// Classify one event and route it to its handler. Any failure is
    /// returned to the caller for logging and must be confined to this event;
    /// a map request that fails the freshness guard is rejected as an
    /// invariant violation without touching any state.
    pub fn dispatch(&mut self, ev: &EventInput) -> (r: Result<(), WMError>)
        requires
            old(self).wf(),
        ensures
            final(self).wf(),
            final(self).root == old(self).root,
            final(self).root_visual == old(self).root_visual,
            final(self).clients@ == spec_dispatch(old(self).clients@, *ev),
            r == spec_dispatch_result(old(self).clients@, *ev),
    {
        match *ev {
            EventInput::MapRequest { window, frame_id, geometry, frame_outcome, map_outcome } => {
                if !self.can_frame(window, frame_id) {
                    return Err(WMError::InvariantViolation);
                }
                match self.on_map_request(window, frame_id, geometry, frame_outcome, map_outcome) {
                    Ok(u) => Ok(u),
                    Err(e) => Err(WMError::Protocol(e)),
                }
            },
            EventInput::UnmapNotify { window, outcome } => {
                match self.on_unmap_notify(window, outcome) {
                    Ok(u) => Ok(u),
                    Err(e) => Err(WMError::Protocol(e)),
                }
            },
            EventInput::ConfigureRequest { event, frame_outcome, client_outcome } => {
                match self.on_configure_request(&event, frame_outcome, client_outcome) {
                    Ok(u) => Ok(u),
                    Err(e) => Err(WMError::Protocol(e)),
                }
            },
            EventInput::Other => Ok(()),
        }
    }

    /// The bootstrap sequencer. Claim window-manager duty over the root via
    /// a checked event-mask selection; `root_select` is its outcome. An
    /// access-denied error there means a competing manager is active: fail
    /// with `AnotherManagerActive` before any framing. Otherwise grab the
    /// server, adopt every enumerated child at its reported geometry while
    /// the grab is held (skipping, not aborting on, children whose geometry
    /// fetch or framing failed), and release the grab. Returns the result
    /// alongside the ordered requests issued.
    pub fn bootstrap(&mut self, root_select: Option<ProtocolError>, children: &Vec<ChildInput>) -> (r: (
        Result<(), WMError>,
        Vec<Request>,
    ))
        requires
            old(self).wf(),
        ensures
            final(self).wf(),
            final(self).root == old(self).root,
            final(self).root_visual == old(self).root_visual,
            r.0 == spec_bootstrap_result(root_select),
            root_select is Some ==> final(self).clients@ == old(self).clients@ && r.1@ == seq![
                (Request::SelectSubstructureEvents {
                    window: old(self).root,
                    event_mask: WM_EVENT_MASK,
                }),
            ],
            root_select is None ==> final(self).clients@ == spec_adopt_all(
                old(self).clients@,
                children@,
            ) && r.1@ == spec_bootstrap_plan(
                old(self).root,
                old(self).root_visual,
                old(self).clients@,
                children@,
            ),
    {
        let mut reqs: Vec<Request> = Vec::new();
        let root = self.root;
        reqs.push(self.select_window_wm_events(root));
        proof {
            assert(reqs@ =~= seq![
                (Request::SelectSubstructureEvents { window: root, event_mask: WM_EVENT_MASK }),
            ]);
        }
        match root_select {
            Some(e) => {
                if e.is_access_denied() {
                    return (Err(WMError::AnotherManagerActive), reqs);
                }
                return (Err(WMError::Protocol(e)), reqs);
            },
            None => {},
        }
        reqs.push(Request::GrabServer);
        let ghost reg0 = self.clients@;
        let ghost root0 = self.root;
        let ghost visual0 = self.root_visual;
        let ghost setup = seq![
            (Request::SelectSubstructureEvents { window: root0, event_mask: WM_EVENT_MASK }),
            (Request::GrabServer),
        ];
        proof {
            assert(reqs@ =~= setup + spec_adopt_all_plan(
                root0,
                visual0,
                reg0,
                children@.subrange(0, 0),
            ));
        }
        let n = children.len();
        let mut i: usize = 0;
        while i < n
            invariant
                self.wf(),
                self.root == root0,
                self.root_visual == visual0,
                n == children@.len(),
                i <= n,
                self.clients@ == spec_adopt_all(reg0, children@.subrange(0, i as int)),
                reqs@ == setup + spec_adopt_all_plan(
                    root0,
                    visual0,
                    reg0,
                    children@.subrange(0, i as int),
                ),
            decreases n - i,
        {
            let c = children[i];
            let ghost pre = self.clients@;
            match c.geometry {
                Ok(g) => {
                    if self.can_frame(c.window, c.frame_id) {
                        let mut fr = self.frame_requests(c.window, c.frame_id, &g);
                        reqs.append(&mut fr);
                        let _ = self.frame(c.window, c.frame_id, c.outcome);
                    }
                },
                Err(_) => {},
            }
            proof {
                let done = children@.subrange(0, i as int);
                assert(children@.subrange(0, i + 1) =~= done.push(children@[i as int]));
                lemma_adopt_all_snoc(reg0, done, children@[i as int]);
                lemma_adopt_all_plan_snoc(root0, visual0, reg0, done, children@[i as int]);
                assert(reqs@ =~= setup + spec_adopt_all_plan(
                    root0,
                    visual0,
                    reg0,
                    children@.subrange(0, i + 1),
                ));
            }
            i = i + 1;
        }
        proof {
            assert(children@.subrange(0, n as int) =~= children@);
        }
        reqs.push(Request::UngrabServer);
        proof {
            assert(reqs@ =~= spec_bootstrap_plan(root0, visual0, reg0, children@));
        }
        (Ok(()), reqs)
    }

    /// The whole session: bootstrap, then dispatch every event of the finite
    /// stream in order. A failure while handling one event is confined to
    /// that event and the loop continues; exhaustion of the stream (the
    /// connection closed) is the normal, successful end of the run. Only a
    /// bootstrap failure — a competing manager, or an error while claiming
    /// the root — aborts the session.
    pub fn run(&mut self, input: &SessionInput) -> (r: Result<(), WMError>)
        requires
            old(self).wf(),
        ensures
            final(self).wf(),
            final(self).root == old(self).root,
            final(self).root_visual == old(self).root_visual,
            r == spec_bootstrap_result(input.root_select),
            input.root_select is Some ==> final(self).clients@ == old(self).clients@,
            input.root_select is None ==> final(self).clients@ == spec_session_clients(
                old(self).clients@,
                input.children@,
                input.events@,
            ),
    {
        let (res, _setup) = self.bootstrap(input.root_select, &input.children);
        match res {
            Err(e) => {
                return Err(e);
            },
            Ok(_) => {},
        }
        let ghost reg1 = self.clients@;
        let ghost root0 = self.root;
        let ghost visual0 = self.root_visual;
        let n = input.events.len();
        let mut i: usize = 0;
        while i < n
            invariant
                self.wf(),
                self.root == root0,
                self.root_visual == visual0,
                n == input.events@.len(),
                i <= n,
                self.clients@ == spec_dispatch_all(reg1, input.events@.subrange(0, i as int)),
            decreases n - i,
        {
            let ev = input.events[i];
            // A per-event failure is logged by the caller and the loop goes on.
            let _ = self.dispatch(&ev);
            proof {
                let done = input.events@.subrange(0, i as int);
                assert(input.events@.subrange(0, i + 1) =~= done.push(input.events@[i as int]));
                lemma_dispatch_all_snoc(reg1, done, input.events@[i as int]);
            }
            i = i + 1;
        }
        proof {
            assert(input.events@.subrange(0, n as int) =~= input.events@);
        }
        Ok(())
    }
}

} // verus!
