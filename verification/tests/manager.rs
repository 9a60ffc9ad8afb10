use rwm::cursor_manager::CursorManager;
use rwm::error::{ProtocolError, WMError, BAD_ACCESS};
use rwm::events::{ChildInput, ConfigureRequestEvent, EventInput, SessionInput};
use rwm::geometry::Geometry;
use rwm::requests::{
    configure_values, ConfigValue, ConfigureChanges, Request, BORDER_WIDTH, CONFIG_WINDOW_HEIGHT,
    CONFIG_WINDOW_WIDTH, CONFIG_WINDOW_X, WM_EVENT_MASK,
};
use rwm::screen::Screen;
use rwm::window_manager::WindowManager;

fn test_screen() -> Screen {
    Screen::new(0x10, 0x21, 0x32)
}

fn denied() -> ProtocolError {
    ProtocolError { error_code: BAD_ACCESS, major_code: 2, resource_id: 0x10 }
}

fn some_failure() -> ProtocolError {
    ProtocolError { error_code: 3, major_code: 12, resource_id: 0x77 }
}

fn geom(x: i16, y: i16, w: u16, h: u16, bw: u16) -> Geometry {
    Geometry { x, y, width: w, height: h, border_width: bw }
}

#[test]
fn screen_reports_root() {
    let s = Screen::new(7, 8, 9);
    assert_eq!(s.root_window_of_screen(), 7);
    assert_eq!(s.root_visual, 8);
    assert_eq!(s.default_colormap, 9);
}

#[test]
fn cursor_manager_keeps_id() {
    let cm = CursorManager::new(0x55);
    assert_eq!(cm.arrow, 0x55);
    assert_eq!(cm.default_cursor(), 0x55);
}

#[test]
fn protocol_error_class() {
    assert!(denied().is_access_denied());
    assert!(!some_failure().is_access_denied());
    assert_eq!(WMError::from(some_failure()), WMError::Protocol(some_failure()));
}

// Each window present at startup becomes exactly one registry entry, framed
// at its enumerated geometry.
#[test]
fn bootstrap_adopts_every_child() {
    let mut wm = WindowManager::new(&test_screen());
    let children = vec![
        ChildInput { window: 0x100, frame_id: 0x200, geometry: Ok(geom(1, 2, 30, 40, 5)), outcome: None },
        ChildInput { window: 0x101, frame_id: 0x201, geometry: Ok(geom(-3, -4, 50, 60, 0)), outcome: None },
        ChildInput { window: 0x102, frame_id: 0x202, geometry: Ok(geom(0, 0, 1, 1, 1)), outcome: None },
    ];
    let (res, reqs) = wm.bootstrap(None, &children);
    assert_eq!(res, Ok(()));
    assert_eq!(wm.client_count(), 3);
    assert_eq!(wm.frame_of(0x100), Some(0x200));
    assert_eq!(wm.frame_of(0x101), Some(0x201));
    assert_eq!(wm.frame_of(0x102), Some(0x202));
    // select on root, grab, 3 x 5 framing requests, ungrab
    assert_eq!(reqs.len(), 2 + 15 + 1);
    assert_eq!(
        reqs[0],
        Request::SelectSubstructureEvents { window: 0x10, event_mask: WM_EVENT_MASK }
    );
    assert_eq!(reqs[1], Request::GrabServer);
    // First child's frame is created at the child's enumerated geometry.
    assert_eq!(
        reqs[2],
        Request::CreateWindow {
            window: 0x200,
            parent: 0x10,
            x: 1,
            y: 2,
            width: 30,
            height: 40,
            border_width: BORDER_WIDTH,
            visual: 0x21,
        }
    );
    assert_eq!(
        reqs[7],
        Request::CreateWindow {
            window: 0x201,
            parent: 0x10,
            x: -3,
            y: -4,
            width: 50,
            height: 60,
            border_width: BORDER_WIDTH,
            visual: 0x21,
        }
    );
    assert_eq!(reqs[17], Request::UngrabServer);
}

// A child whose geometry fetch or framing failed is skipped; the others are
// still adopted and the grab is still released.
#[test]
fn bootstrap_skips_failed_children() {
    let mut wm = WindowManager::new(&test_screen());
    let children = vec![
        ChildInput { window: 0x100, frame_id: 0x200, geometry: Err(some_failure()), outcome: None },
        ChildInput { window: 0x101, frame_id: 0x201, geometry: Ok(geom(0, 0, 9, 9, 0)), outcome: Some(some_failure()) },
        ChildInput { window: 0x102, frame_id: 0x202, geometry: Ok(geom(5, 6, 7, 8, 9)), outcome: None },
    ];
    let (res, reqs) = wm.bootstrap(None, &children);
    assert_eq!(res, Ok(()));
    assert_eq!(wm.client_count(), 1);
    assert_eq!(wm.frame_of(0x100), None);
    assert_eq!(wm.frame_of(0x101), None);
    assert_eq!(wm.frame_of(0x102), Some(0x202));
    assert_eq!(*reqs.last().unwrap(), Request::UngrabServer);
}

#[test]
fn bootstrap_with_no_children() {
    let mut wm = WindowManager::new(&test_screen());
    let (res, reqs) = wm.bootstrap(None, &Vec::new());
    assert_eq!(res, Ok(()));
    assert_eq!(wm.client_count(), 0);
    assert_eq!(
        reqs,
        vec![
            Request::SelectSubstructureEvents { window: 0x10, event_mask: WM_EVENT_MASK },
            Request::GrabServer,
            Request::UngrabServer,
        ]
    );
}

// A competing manager (access denied on the root event-mask selection)
// aborts bootstrap with AnotherManagerActive and zero framing operations.
#[test]
fn bootstrap_detects_competing_manager() {
    let mut wm = WindowManager::new(&test_screen());
    let children = vec![
        ChildInput { window: 0x100, frame_id: 0x200, geometry: Ok(geom(1, 2, 3, 4, 5)), outcome: None },
    ];
    let (res, reqs) = wm.bootstrap(Some(denied()), &children);
    assert_eq!(res, Err(WMError::AnotherManagerActive));
    assert_eq!(wm.client_count(), 0);
    assert_eq!(
        reqs,
        vec![Request::SelectSubstructureEvents { window: 0x10, event_mask: WM_EVENT_MASK }]
    );
}

// A non-access-denied error while claiming the root is fatal as itself.
#[test]
fn bootstrap_propagates_other_root_errors() {
    let mut wm = WindowManager::new(&test_screen());
    let (res, _reqs) = wm.bootstrap(Some(some_failure()), &Vec::new());
    assert_eq!(res, Err(WMError::Protocol(some_failure())));
    assert_eq!(wm.client_count(), 0);
}

// Scenario: client 0x123 with geometry (10, 20, 300, 200, border 1) sends a
// map request: a frame is created at (10, 20, 300, 200), the client is
// reparented into it at (0, 0), the client is mapped afterwards, and the
// registry maps 0x123 to the frame.
#[test]
fn map_request_frames_and_maps_client() {
    let mut wm = WindowManager::new(&test_screen());
    let ev = EventInput::MapRequest {
        window: 0x123,
        frame_id: 0x900,
        geometry: Ok(geom(10, 20, 300, 200, 1)),
        frame_outcome: None,
        map_outcome: None,
    };
    let plan = wm.dispatch_requests(&ev);
    assert_eq!(
        plan,
        vec![
            Request::CreateWindow {
                window: 0x900,
                parent: 0x10,
                x: 10,
                y: 20,
                width: 300,
                height: 200,
                border_width: BORDER_WIDTH,
                visual: 0x21,
            },
            Request::SelectSubstructureEvents { window: 0x900, event_mask: WM_EVENT_MASK },
            Request::AddToSaveSet { window: 0x123 },
            Request::ReparentWindow { window: 0x123, parent: 0x900, x: 0, y: 0 },
            Request::MapWindow { window: 0x900 },
            Request::MapWindow { window: 0x123 },
        ]
    );
    assert_eq!(wm.dispatch(&ev), Ok(()));
    assert_eq!(wm.client_count(), 1);
    assert_eq!(wm.frame_of(0x123), Some(0x900));
}

// Framing a window that is already a registry key is rejected, never
// silently overwritten.
#[test]
fn map_request_for_tracked_client_is_rejected() {
    let mut wm = WindowManager::new(&test_screen());
    let ev = EventInput::MapRequest {
        window: 0x123,
        frame_id: 0x900,
        geometry: Ok(geom(0, 0, 10, 10, 0)),
        frame_outcome: None,
        map_outcome: None,
    };
    assert_eq!(wm.dispatch(&ev), Ok(()));
    let again = EventInput::MapRequest {
        window: 0x123,
        frame_id: 0x901,
        geometry: Ok(geom(0, 0, 10, 10, 0)),
        frame_outcome: None,
        map_outcome: None,
    };
    assert!(!wm.can_frame(0x123, 0x901));
    assert_eq!(wm.dispatch(&again), Err(WMError::InvariantViolation));
    assert_eq!(wm.client_count(), 1);
    assert_eq!(wm.frame_of(0x123), Some(0x900));
    assert_eq!(wm.dispatch_requests(&again), Vec::new());
}

// A failed framing records nothing and propagates the error.
#[test]
fn failed_framing_records_nothing() {
    let mut wm = WindowManager::new(&test_screen());
    let ev = EventInput::MapRequest {
        window: 0x123,
        frame_id: 0x900,
        geometry: Ok(geom(0, 0, 10, 10, 0)),
        frame_outcome: Some(some_failure()),
        map_outcome: None,
    };
    // The framing stage was planned, but the client-map stage is not issued.
    let plan = wm.dispatch_requests(&ev);
    assert_eq!(plan.len(), 5);
    assert!(!plan.contains(&Request::MapWindow { window: 0x123 }));
    assert_eq!(wm.dispatch(&ev), Err(WMError::Protocol(some_failure())));
    assert_eq!(wm.client_count(), 0);
    assert!(!wm.is_managed(0x123));
}

// A failed geometry fetch aborts the map request before any framing.
#[test]
fn map_request_without_geometry_does_nothing() {
    let mut wm = WindowManager::new(&test_screen());
    let ev = EventInput::MapRequest {
        window: 0x123,
        frame_id: 0x900,
        geometry: Err(some_failure()),
        frame_outcome: None,
        map_outcome: None,
    };
    assert_eq!(wm.dispatch_requests(&ev), Vec::new());
    assert_eq!(wm.dispatch(&ev), Err(WMError::Protocol(some_failure())));
    assert_eq!(wm.client_count(), 0);
}

// Unframing a window not present in the registry is a no-op that returns
// success, not an error.
#[test]
fn unmap_of_untracked_window_is_noop() {
    let mut wm = WindowManager::new(&test_screen());
    let ev = EventInput::UnmapNotify { window: 0xABC, outcome: None };
    assert_eq!(wm.dispatch_requests(&ev), Vec::new());
    assert_eq!(wm.dispatch(&ev), Ok(()));
    assert_eq!(wm.client_count(), 0);
    assert_eq!(wm.unframe(0xABC, None), Ok(()));
}

// Frame then immediately unframe: no entry remains and the client is
// reparented back to the root.
#[test]
fn frame_then_unframe_leaves_no_entry() {
    let mut wm = WindowManager::new(&test_screen());
    let map = EventInput::MapRequest {
        window: 0x123,
        frame_id: 0x900,
        geometry: Ok(geom(10, 20, 300, 200, 1)),
        frame_outcome: None,
        map_outcome: None,
    };
    assert_eq!(wm.dispatch(&map), Ok(()));
    let unmap = EventInput::UnmapNotify { window: 0x123, outcome: None };
    let plan = wm.dispatch_requests(&unmap);
    assert_eq!(
        plan,
        vec![
            Request::UnmapWindow { window: 0x900 },
            Request::ReparentWindow { window: 0x123, parent: 0x10, x: 0, y: 0 },
            Request::RemoveFromSaveSet { window: 0x123 },
            Request::DestroyWindow { window: 0x900 },
        ]
    );
    assert_eq!(wm.dispatch(&unmap), Ok(()));
    assert_eq!(wm.client_count(), 0);
    assert_eq!(wm.frame_of(0x123), None);
    assert!(!wm.is_managed(0x123));
}

// A failed unframe keeps the entry (the removal is the last step).
#[test]
fn failed_unframe_keeps_entry() {
    let mut wm = WindowManager::new(&test_screen());
    let map = EventInput::MapRequest {
        window: 0x123,
        frame_id: 0x900,
        geometry: Ok(geom(0, 0, 5, 5, 0)),
        frame_outcome: None,
        map_outcome: None,
    };
    assert_eq!(wm.dispatch(&map), Ok(()));
    let unmap = EventInput::UnmapNotify { window: 0x123, outcome: Some(some_failure()) };
    assert_eq!(wm.dispatch(&unmap), Err(WMError::Protocol(some_failure())));
    assert_eq!(wm.frame_of(0x123), Some(0x900));
}

// A mask naming only width and height yields a value list with exactly
// those two entries; x, y, border, sibling and stacking are left untouched.
#[test]
fn configure_values_follow_the_mask() {
    let c = ConfigureChanges {
        x: 11,
        y: 22,
        width: 330,
        height: 440,
        border_width: 2,
        sibling: 0x5,
        stack_mode: 1,
        value_mask: CONFIG_WINDOW_WIDTH | CONFIG_WINDOW_HEIGHT,
    };
    assert_eq!(
        configure_values(&c),
        vec![ConfigValue::Width(330), ConfigValue::Height(440)]
    );
    let all = ConfigureChanges { value_mask: 0x7F, ..c };
    assert_eq!(
        configure_values(&all),
        vec![
            ConfigValue::X(11),
            ConfigValue::Y(22),
            ConfigValue::Width(330),
            ConfigValue::Height(440),
            ConfigValue::BorderWidth(2),
            ConfigValue::Sibling(0x5),
            ConfigValue::StackMode(1),
        ]
    );
    let none = ConfigureChanges { value_mask: 0, ..c };
    assert_eq!(configure_values(&none), Vec::new());
    let x_only = ConfigureChanges { value_mask: CONFIG_WINDOW_X, ..c };
    assert_eq!(configure_values(&x_only), vec![ConfigValue::X(11)]);
}

// Scenario: tracked client 0x123 sends a configure request with
// mask = {width}, width = 400: both the frame and the client receive a
// configure with only the width changed, to 400.
#[test]
fn configure_request_relays_to_frame_and_client() {
    let mut wm = WindowManager::new(&test_screen());
    let map = EventInput::MapRequest {
        window: 0x123,
        frame_id: 0x900,
        geometry: Ok(geom(10, 20, 300, 200, 1)),
        frame_outcome: None,
        map_outcome: None,
    };
    assert_eq!(wm.dispatch(&map), Ok(()));
    let changes = ConfigureChanges {
        x: 0,
        y: 0,
        width: 400,
        height: 0,
        border_width: 0,
        sibling: 0,
        stack_mode: 0,
        value_mask: CONFIG_WINDOW_WIDTH,
    };
    let ev = EventInput::ConfigureRequest {
        event: ConfigureRequestEvent { window: 0x123, changes },
        frame_outcome: None,
        client_outcome: None,
    };
    let plan = wm.dispatch_requests(&ev);
    assert_eq!(
        plan,
        vec![
            Request::ConfigureWindow { window: 0x900, changes },
            Request::ConfigureWindow { window: 0x123, changes },
        ]
    );
    assert_eq!(configure_values(&changes), vec![ConfigValue::Width(400)]);
    assert_eq!(wm.dispatch(&ev), Ok(()));
    // The registry is untouched by configure requests.
    assert_eq!(wm.frame_of(0x123), Some(0x900));
    assert_eq!(wm.client_count(), 1);
}

// An untracked window's configure request is honored against the window
// itself only.
#[test]
fn configure_request_for_untracked_window() {
    let mut wm = WindowManager::new(&test_screen());
    let changes = ConfigureChanges {
        x: 5,
        y: 6,
        width: 7,
        height: 8,
        border_width: 9,
        sibling: 0,
        stack_mode: 0,
        value_mask: CONFIG_WINDOW_X,
    };
    let ev = EventInput::ConfigureRequest {
        event: ConfigureRequestEvent { window: 0x777, changes },
        frame_outcome: None,
        client_outcome: None,
    };
    assert_eq!(
        wm.dispatch_requests(&ev),
        vec![Request::ConfigureWindow { window: 0x777, changes }]
    );
    assert_eq!(wm.dispatch(&ev), Ok(()));
}

// Ignored event kinds change nothing and issue nothing.
#[test]
fn other_events_are_ignored() {
    let mut wm = WindowManager::new(&test_screen());
    assert_eq!(wm.dispatch(&EventInput::Other), Ok(()));
    assert_eq!(wm.dispatch_requests(&EventInput::Other), Vec::new());
    assert_eq!(wm.client_count(), 0);
}

// A whole session: adopt one pre-existing window, frame a new one, lose one
// to an unmap, survive a per-event failure, and end with the stream —
// exhaustion of the event source is a normal, successful exit.
#[test]
fn run_processes_a_whole_session() {
    let mut wm = WindowManager::new(&test_screen());
    let input = SessionInput {
        root_select: None,
        children: vec![
            ChildInput { window: 0x100, frame_id: 0x200, geometry: Ok(geom(0, 0, 4, 4, 0)), outcome: None },
        ],
        events: vec![
            EventInput::MapRequest {
                window: 0x123,
                frame_id: 0x900,
                geometry: Ok(geom(10, 20, 300, 200, 1)),
                frame_outcome: None,
                map_outcome: None,
            },
            // this one fails server-side; the loop must continue
            EventInput::MapRequest {
                window: 0x124,
                frame_id: 0x901,
                geometry: Ok(geom(0, 0, 1, 1, 0)),
                frame_outcome: Some(some_failure()),
                map_outcome: None,
            },
            EventInput::UnmapNotify { window: 0x100, outcome: None },
            EventInput::Other,
        ],
    };
    assert_eq!(wm.run(&input), Ok(()));
    assert_eq!(wm.client_count(), 1);
    assert_eq!(wm.frame_of(0x123), Some(0x900));
    assert_eq!(wm.frame_of(0x124), None);
    assert_eq!(wm.frame_of(0x100), None);
}

// A run that finds a competing manager performs zero framing operations.
#[test]
fn run_aborts_on_competing_manager() {
    let mut wm = WindowManager::new(&test_screen());
    let input = SessionInput {
        root_select: Some(denied()),
        children: vec![
            ChildInput { window: 0x100, frame_id: 0x200, geometry: Ok(geom(0, 0, 4, 4, 0)), outcome: None },
        ],
        events: vec![EventInput::Other],
    };
    assert_eq!(wm.run(&input), Err(WMError::AnotherManagerActive));
    assert_eq!(wm.client_count(), 0);
}

// select_window_wm_events claims exactly the substructure mask.
#[test]
fn select_events_request_shape() {
    let wm = WindowManager::new(&test_screen());
    assert_eq!(
        wm.select_window_wm_events(0x10),
        Request::SelectSubstructureEvents { window: 0x10, event_mask: WM_EVENT_MASK }
    );
    assert_eq!(WM_EVENT_MASK, 0x0018_0000);
}

// A window reported twice at enumeration is adopted once; the duplicate is
// skipped, never overwriting the first entry.
#[test]
fn bootstrap_skips_duplicate_children() {
    let mut wm = WindowManager::new(&test_screen());
    let children = vec![
        ChildInput { window: 0x100, frame_id: 0x200, geometry: Ok(geom(1, 2, 3, 4, 0)), outcome: None },
        ChildInput { window: 0x100, frame_id: 0x201, geometry: Ok(geom(9, 9, 9, 9, 9)), outcome: None },
    ];
    let (res, _reqs) = wm.bootstrap(None, &children);
    assert_eq!(res, Ok(()));
    assert_eq!(wm.client_count(), 1);
    assert_eq!(wm.frame_of(0x100), Some(0x200));
}
