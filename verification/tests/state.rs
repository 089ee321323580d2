use cosmic_toplevel::handle::Handle;
use cosmic_toplevel::payload::{ByteOrder, DecodeError, ToplevelState};
use cosmic_toplevel::state::{recognize, GlobalKind, State, WireRequest};
use cosmic_toplevel::toplevel::{
    Toplevel, ToplevelAction, ToplevelEvent, ToplevelHandleEvent, ToplevelInfoEvent,
};

fn h(id: u32) -> Handle {
    Handle::new(id, 0)
}

fn bound_state() -> State {
    let mut s = State::new(ByteOrder::Little);
    s.bind(GlobalKind::ToplevelInfo, h(1));
    s.bind(GlobalKind::ToplevelManager, h(2));
    s.bind(GlobalKind::WorkspaceManager, h(3));
    s
}

fn empty_toplevel(handle: Handle) -> Toplevel {
    Toplevel {
        name: String::new(),
        app_id: String::new(),
        toplevel_handle: handle,
        states: vec![],
        output: None,
        workspace: None,
    }
}

#[test]
fn recognizes_the_five_interfaces() {
    assert_eq!(recognize("zcosmic_toplevel_info_v1"), Some(GlobalKind::ToplevelInfo));
    assert_eq!(recognize("zcosmic_toplevel_manager_v1"), Some(GlobalKind::ToplevelManager));
    assert_eq!(recognize("zcosmic_workspace_manager_v1"), Some(GlobalKind::WorkspaceManager));
    assert_eq!(recognize("wl_seat"), Some(GlobalKind::Seat));
    assert_eq!(recognize("wl_output"), Some(GlobalKind::Output));
}

#[test]
fn ignores_other_interfaces() {
    assert_eq!(recognize("wl_compositor"), None);
    assert_eq!(recognize(""), None);
    assert_eq!(recognize("wl_seat "), None);
    assert_eq!(recognize("WL_SEAT"), None);
}

#[test]
fn new_state_is_empty_and_running() {
    let s = State::new(ByteOrder::Big);
    assert!(s.is_running());
    assert_eq!(s.byte_order(), ByteOrder::Big);
    assert_eq!(s.toplevel_info(), None);
    assert_eq!(s.toplevel_manager(), None);
    assert_eq!(s.workspace_manager(), None);
    assert!(s.toplevels().is_empty());
    assert!(s.workspace_groups().is_empty());
    assert!(s.seats().is_empty());
    assert!(s.outputs().is_empty());
}

#[test]
fn bind_stores_services_and_overwrites() {
    let mut s = State::new(ByteOrder::Little);
    s.bind(GlobalKind::ToplevelInfo, h(10));
    s.bind(GlobalKind::ToplevelManager, h(11));
    s.bind(GlobalKind::WorkspaceManager, h(12));
    assert_eq!(s.toplevel_info(), Some(h(10)));
    assert_eq!(s.toplevel_manager(), Some(h(11)));
    assert_eq!(s.workspace_manager(), Some(h(12)));
    s.bind(GlobalKind::ToplevelManager, h(21));
    assert_eq!(s.toplevel_manager(), Some(h(21)));
    assert_eq!(s.toplevel_info(), Some(h(10)));
}

#[test]
fn bind_collects_seats_and_outputs_once() {
    let mut s = State::new(ByteOrder::Little);
    s.bind(GlobalKind::Seat, h(5));
    s.bind(GlobalKind::Seat, h(6));
    s.bind(GlobalKind::Seat, h(5));
    s.bind(GlobalKind::Output, h(7));
    s.bind(GlobalKind::Output, h(7));
    assert_eq!(s.seats(), &vec![h(5), h(6)]);
    assert_eq!(s.outputs(), &vec![h(7)]);
}

#[test]
fn announcement_inserts_an_empty_record() {
    let mut s = bound_state();
    s.toplevel_info_event(ToplevelInfoEvent::Toplevel(h(100)));
    assert_eq!(s.toplevels(), &vec![empty_toplevel(h(100))]);
}

#[test]
fn announcement_of_a_known_handle_adds_nothing() {
    let mut s = bound_state();
    s.toplevel_info_event(ToplevelInfoEvent::Toplevel(h(100)));
    s.toplevel_handle_event(h(100), ToplevelHandleEvent::Title("t".to_string())).unwrap();
    s.toplevel_info_event(ToplevelInfoEvent::Toplevel(h(100)));
    assert_eq!(s.toplevels().len(), 1);
    assert_eq!(s.toplevels()[0].name, "t");
}

#[test]
fn announcement_without_the_service_is_not_taken() {
    let mut s = State::new(ByteOrder::Little);
    s.toplevel_info_event(ToplevelInfoEvent::Toplevel(h(100)));
    assert!(s.toplevels().is_empty());
}

#[test]
fn finished_unbinds_the_service_and_stops_announcements() {
    let mut s = bound_state();
    s.toplevel_info_event(ToplevelInfoEvent::Toplevel(h(100)));
    s.toplevel_info_event(ToplevelInfoEvent::Finished);
    assert_eq!(s.toplevel_info(), None);
    s.toplevel_info_event(ToplevelInfoEvent::Toplevel(h(101)));
    assert_eq!(s.toplevels().len(), 1);
    assert_eq!(s.toplevels()[0].toplevel_handle, h(100));
    s.toplevel_info_event(ToplevelInfoEvent::Other);
    assert_eq!(s.toplevels().len(), 1);
}

#[test]
fn lifecycle_publishes_one_add_per_done() {
    let mut s = bound_state();
    let w = h(100);
    s.toplevel_info_event(ToplevelInfoEvent::Toplevel(w));
    assert_eq!(s.toplevel_handle_event(w, ToplevelHandleEvent::Title("old".to_string())), Ok(None));
    assert_eq!(s.toplevel_handle_event(w, ToplevelHandleEvent::AppId("firefox".to_string())), Ok(None));
    assert_eq!(s.toplevel_handle_event(w, ToplevelHandleEvent::Title("Mozilla".to_string())), Ok(None));
    assert_eq!(
        s.toplevel_handle_event(w, ToplevelHandleEvent::State(vec![2, 0, 0, 0, 0, 0, 0, 0])),
        Ok(None)
    );
    assert_eq!(s.toplevel_handle_event(w, ToplevelHandleEvent::OutputEnter(h(7))), Ok(None));
    assert_eq!(s.toplevel_handle_event(w, ToplevelHandleEvent::WorkspaceEnter(h(8))), Ok(None));
    let expected = Toplevel {
        name: "Mozilla".to_string(),
        app_id: "firefox".to_string(),
        toplevel_handle: w,
        states: vec![ToplevelState::Activated, ToplevelState::Maximized],
        output: Some(h(7)),
        workspace: Some(h(8)),
    };
    assert_eq!(
        s.toplevel_handle_event(w, ToplevelHandleEvent::Done),
        Ok(Some(ToplevelEvent::Add(expected.clone())))
    );
    assert_eq!(
        s.toplevel_handle_event(w, ToplevelHandleEvent::Done),
        Ok(Some(ToplevelEvent::Add(expected.clone())))
    );
    assert_eq!(s.toplevels(), &vec![expected]);
}

#[test]
fn closed_removes_and_publishes_the_last_snapshot() {
    let mut s = bound_state();
    s.toplevel_info_event(ToplevelInfoEvent::Toplevel(h(100)));
    s.toplevel_info_event(ToplevelInfoEvent::Toplevel(h(101)));
    s.toplevel_handle_event(h(100), ToplevelHandleEvent::AppId("a".to_string())).unwrap();
    s.toplevel_handle_event(h(101), ToplevelHandleEvent::AppId("b".to_string())).unwrap();
    let mut last = empty_toplevel(h(100));
    last.app_id = "a".to_string();
    assert_eq!(
        s.toplevel_handle_event(h(100), ToplevelHandleEvent::Closed),
        Ok(Some(ToplevelEvent::Remove(last)))
    );
    assert_eq!(s.toplevels().len(), 1);
    assert_eq!(s.toplevels()[0].toplevel_handle, h(101));
    assert_eq!(s.toplevel_handle_event(h(100), ToplevelHandleEvent::Closed), Ok(None));
    assert_eq!(s.toplevel_handle_event(h(100), ToplevelHandleEvent::Done), Ok(None));
}

#[test]
fn events_for_unknown_windows_change_nothing() {
    let mut s = bound_state();
    s.toplevel_info_event(ToplevelInfoEvent::Toplevel(h(100)));
    assert_eq!(s.toplevel_handle_event(h(9), ToplevelHandleEvent::Title("x".to_string())), Ok(None));
    assert_eq!(s.toplevel_handle_event(h(9), ToplevelHandleEvent::State(vec![1, 2, 3])), Ok(None));
    assert_eq!(s.toplevel_handle_event(h(9), ToplevelHandleEvent::Done), Ok(None));
    assert_eq!(s.toplevels(), &vec![empty_toplevel(h(100))]);
}

#[test]
fn same_id_other_generation_is_another_window() {
    let mut s = bound_state();
    s.toplevel_info_event(ToplevelInfoEvent::Toplevel(Handle::new(100, 0)));
    s.toplevel_info_event(ToplevelInfoEvent::Toplevel(Handle::new(100, 1)));
    s.toplevel_handle_event(Handle::new(100, 1), ToplevelHandleEvent::Title("new".to_string()))
        .unwrap();
    assert_eq!(s.toplevels().len(), 2);
    assert_eq!(s.toplevels()[0].name, "");
    assert_eq!(s.toplevels()[1].name, "new");
}

#[test]
fn leave_clears_only_the_value_that_leaves() {
    let mut s = bound_state();
    let w = h(100);
    s.toplevel_info_event(ToplevelInfoEvent::Toplevel(w));
    s.toplevel_handle_event(w, ToplevelHandleEvent::OutputEnter(h(7))).unwrap();
    s.toplevel_handle_event(w, ToplevelHandleEvent::WorkspaceEnter(h(8))).unwrap();
    s.toplevel_handle_event(w, ToplevelHandleEvent::OutputLeave(h(70))).unwrap();
    s.toplevel_handle_event(w, ToplevelHandleEvent::WorkspaceLeave(h(80))).unwrap();
    assert_eq!(s.toplevels()[0].output, Some(h(7)));
    assert_eq!(s.toplevels()[0].workspace, Some(h(8)));
    s.toplevel_handle_event(w, ToplevelHandleEvent::OutputLeave(h(7))).unwrap();
    s.toplevel_handle_event(w, ToplevelHandleEvent::WorkspaceLeave(h(8))).unwrap();
    assert_eq!(s.toplevels()[0].output, None);
    assert_eq!(s.toplevels()[0].workspace, None);
}

#[test]
fn enter_replaces_the_reference() {
    let mut s = bound_state();
    let w = h(100);
    s.toplevel_info_event(ToplevelInfoEvent::Toplevel(w));
    s.toplevel_handle_event(w, ToplevelHandleEvent::OutputEnter(h(7))).unwrap();
    s.toplevel_handle_event(w, ToplevelHandleEvent::OutputEnter(h(9))).unwrap();
    assert_eq!(s.toplevels()[0].output, Some(h(9)));
    s.toplevel_handle_event(w, ToplevelHandleEvent::OutputLeave(h(7))).unwrap();
    assert_eq!(s.toplevels()[0].output, Some(h(9)));
}

#[test]
fn state_replaces_the_flags_as_a_whole() {
    let mut s = bound_state();
    let w = h(100);
    s.toplevel_info_event(ToplevelInfoEvent::Toplevel(w));
    s.toplevel_handle_event(w, ToplevelHandleEvent::State(vec![0, 0, 0, 0, 3, 0, 0, 0])).unwrap();
    assert_eq!(s.toplevels()[0].states, vec![ToplevelState::Maximized, ToplevelState::Fullscreen]);
    s.toplevel_handle_event(w, ToplevelHandleEvent::State(vec![1, 0, 0, 0])).unwrap();
    assert_eq!(s.toplevels()[0].states, vec![ToplevelState::Minimized]);
    s.toplevel_handle_event(w, ToplevelHandleEvent::State(vec![])).unwrap();
    assert_eq!(s.toplevels()[0].states, vec![]);
}

#[test]
fn state_is_read_in_the_byte_order_of_the_state() {
    let mut s = State::new(ByteOrder::Big);
    s.bind(GlobalKind::ToplevelInfo, h(1));
    s.toplevel_info_event(ToplevelInfoEvent::Toplevel(h(100)));
    s.toplevel_handle_event(h(100), ToplevelHandleEvent::State(vec![0, 0, 0, 4])).unwrap();
    assert_eq!(s.toplevels()[0].states, vec![ToplevelState::Sticky]);
    assert_eq!(
        s.toplevel_handle_event(h(100), ToplevelHandleEvent::State(vec![4, 0, 0, 0])),
        Err(DecodeError::Unmapped(0x0400_0000))
    );
}

#[test]
fn bad_state_array_is_refused_and_leaves_the_flags() {
    let mut s = bound_state();
    let w = h(100);
    s.toplevel_info_event(ToplevelInfoEvent::Toplevel(w));
    s.toplevel_handle_event(w, ToplevelHandleEvent::State(vec![2, 0, 0, 0])).unwrap();
    assert_eq!(
        s.toplevel_handle_event(w, ToplevelHandleEvent::State(vec![1, 0, 0])),
        Err(DecodeError::Length)
    );
    assert_eq!(
        s.toplevel_handle_event(w, ToplevelHandleEvent::State(vec![1, 0, 0, 0, 77, 0, 0, 0])),
        Err(DecodeError::Unmapped(77))
    );
    assert_eq!(s.toplevels()[0].states, vec![ToplevelState::Activated]);
    assert_eq!(s.toplevel_handle_event(w, ToplevelHandleEvent::Title("still".to_string())), Ok(None));
    assert_eq!(s.toplevels()[0].name, "still");
}

#[test]
fn other_events_are_ignored() {
    let mut s = bound_state();
    s.toplevel_info_event(ToplevelInfoEvent::Toplevel(h(100)));
    assert_eq!(s.toplevel_handle_event(h(100), ToplevelHandleEvent::Other), Ok(None));
    assert_eq!(s.toplevels(), &vec![empty_toplevel(h(100))]);
}

#[test]
fn updates_still_arrive_after_the_service_finished() {
    let mut s = bound_state();
    s.toplevel_info_event(ToplevelInfoEvent::Toplevel(h(100)));
    s.toplevel_info_event(ToplevelInfoEvent::Finished);
    s.toplevel_handle_event(h(100), ToplevelHandleEvent::Title("late".to_string())).unwrap();
    assert_eq!(s.toplevels()[0].name, "late");
}

#[test]
fn activate_goes_to_every_seat() {
    let mut s = bound_state();
    s.bind(GlobalKind::Seat, h(5));
    s.bind(GlobalKind::Seat, h(6));
    assert_eq!(
        s.handle_action(ToplevelAction::Activate(h(100))),
        vec![
            WireRequest::Activate { manager: h(2), toplevel: h(100), seat: h(5) },
            WireRequest::Activate { manager: h(2), toplevel: h(100), seat: h(6) },
        ]
    );
}

#[test]
fn activate_without_seats_sends_nothing() {
    let s = bound_state();
    assert_eq!(s.handle_action(ToplevelAction::Activate(h(100))), vec![]);
}

#[test]
fn close_sends_one_request() {
    let mut s = bound_state();
    s.bind(GlobalKind::Seat, h(5));
    s.bind(GlobalKind::Seat, h(6));
    assert_eq!(
        s.handle_action(ToplevelAction::Close(h(100))),
        vec![WireRequest::Close { manager: h(2), toplevel: h(100) }]
    );
}

#[test]
fn actions_without_a_manager_send_nothing() {
    let mut s = State::new(ByteOrder::Little);
    s.bind(GlobalKind::Seat, h(5));
    assert_eq!(s.handle_action(ToplevelAction::Activate(h(100))), vec![]);
    assert_eq!(s.handle_action(ToplevelAction::Close(h(100))), vec![]);
}

#[test]
fn teardown_releases_in_order() {
    let mut s = bound_state();
    s.toplevel_info_event(ToplevelInfoEvent::Toplevel(h(100)));
    s.toplevel_info_event(ToplevelInfoEvent::Toplevel(h(101)));
    s.workspace_manager_event(
        cosmic_toplevel::workspace::WorkspaceManagerEvent::WorkspaceGroup(h(200)),
    );
    let requests = s.teardown();
    assert_eq!(
        requests,
        vec![
            WireRequest::DestroyToplevel(h(100)),
            WireRequest::DestroyToplevel(h(101)),
            WireRequest::StopToplevelInfo(h(1)),
            WireRequest::DestroyToplevelManager(h(2)),
            WireRequest::DestroyWorkspaceGroup(h(200)),
            WireRequest::StopWorkspaceManager(h(3)),
        ]
    );
    assert!(!s.is_running());
}

#[test]
fn teardown_of_an_unbound_state_sends_nothing() {
    let mut s = State::new(ByteOrder::Little);
    assert_eq!(s.teardown(), vec![]);
    assert!(!s.is_running());
}

#[test]
fn new_record_is_empty_and_snapshot_copies() {
    let mut t = Toplevel::new(h(4));
    assert_eq!(t, empty_toplevel(h(4)));
    t.name = "n".to_string();
    t.states = vec![ToplevelState::Sticky, ToplevelState::Minimized];
    t.output = Some(h(9));
    let copy = t.snapshot();
    assert_eq!(copy, t);
}

#[test]
fn handle_identity() {
    let a = Handle::new(3, 1);
    assert_eq!(a.protocol_id(), 3);
    assert_eq!(a, Handle { id: 3, generation: 1 });
    assert_ne!(a, Handle::new(3, 2));
    assert_ne!(a, Handle::new(4, 1));
    assert!(cosmic_toplevel::handle::names(&Some(a), a));
    assert!(!cosmic_toplevel::handle::names(&Some(a), Handle::new(3, 2)));
    assert!(!cosmic_toplevel::handle::names(&None, a));
}
