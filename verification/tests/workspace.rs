use cosmic_toplevel::handle::Handle;
use cosmic_toplevel::payload::{ByteOrder, DecodeError, WorkspaceState};
use cosmic_toplevel::state::{GlobalKind, State};
use cosmic_toplevel::sorting::{comes_before, sort_workspaces};
use cosmic_toplevel::workspace::{
    Workspace, WorkspaceEvent, WorkspaceGroupEvent, WorkspaceManagerEvent,
};

fn h(id: u32) -> Handle {
    Handle::new(id, 0)
}

fn ws(id: u32, coordinates: Vec<u32>) -> Workspace {
    Workspace {
        workspace_handle: h(id),
        name: String::new(),
        coordinates,
        states: vec![],
    }
}

fn le(words: &[u32]) -> Vec<u8> {
    let mut out = Vec::new();
    for w in words {
        out.extend_from_slice(&w.to_le_bytes());
    }
    out
}

fn state_with_group() -> State {
    let mut s = State::new(ByteOrder::Little);
    s.bind(GlobalKind::WorkspaceManager, h(3));
    s.workspace_manager_event(WorkspaceManagerEvent::WorkspaceGroup(h(200)));
    s
}

fn ids(list: &Vec<Workspace>) -> Vec<u32> {
    list.iter().map(|w| w.workspace_handle.id).collect()
}

#[test]
fn sorts_by_coordinates() {
    let mut v = vec![ws(1, vec![0, 1]), ws(2, vec![0, 0]), ws(3, vec![1, 0])];
    sort_workspaces(&mut v);
    let coords: Vec<Vec<u32>> = v.iter().map(|w| w.coordinates.clone()).collect();
    assert_eq!(coords, vec![vec![0, 0], vec![0, 1], vec![1, 0]]);
    assert_eq!(ids(&v), vec![2, 1, 3]);
}

#[test]
fn sort_keeps_equal_tuples_in_order() {
    let mut v = vec![
        ws(1, vec![1, 0]),
        ws(2, vec![0, 0]),
        ws(3, vec![1, 0]),
        ws(4, vec![0, 0]),
        ws(5, vec![0, 0]),
    ];
    sort_workspaces(&mut v);
    assert_eq!(ids(&v), vec![2, 4, 5, 1, 3]);
}

#[test]
fn sort_of_short_lists() {
    let mut none: Vec<Workspace> = vec![];
    sort_workspaces(&mut none);
    assert!(none.is_empty());
    let mut one = vec![ws(1, vec![9])];
    sort_workspaces(&mut one);
    assert_eq!(ids(&one), vec![1]);
}

#[test]
fn sort_of_a_reversed_list() {
    let mut v = vec![ws(1, vec![3]), ws(2, vec![2]), ws(3, vec![1]), ws(4, vec![0])];
    sort_workspaces(&mut v);
    assert_eq!(ids(&v), vec![4, 3, 2, 1]);
}

#[test]
fn a_tuple_that_begins_another_keeps_its_place() {
    let mut v = vec![ws(1, vec![1, 2]), ws(2, vec![1]), ws(3, vec![0, 5])];
    sort_workspaces(&mut v);
    assert_eq!(ids(&v), vec![3, 1, 2]);
}

#[test]
fn first_differing_component_decides() {
    assert!(comes_before(&vec![0, 9], &vec![1, 0]));
    assert!(!comes_before(&vec![1, 0], &vec![0, 9]));
    assert!(comes_before(&vec![2, 2, 1], &vec![2, 2, 3]));
    assert!(!comes_before(&vec![2, 2], &vec![2, 2]));
    assert!(!comes_before(&vec![2], &vec![2, 7]));
    assert!(!comes_before(&vec![2, 7], &vec![2]));
    assert!(!comes_before(&vec![], &vec![1]));
}

#[test]
fn group_is_created_empty() {
    let s = state_with_group();
    assert_eq!(s.workspace_groups().len(), 1);
    assert_eq!(s.workspace_groups()[0].workspace_group_handle, h(200));
    assert_eq!(s.workspace_groups()[0].output, None);
    assert!(s.workspace_groups()[0].workspaces.is_empty());
}

#[test]
fn group_announced_twice_is_held_once() {
    let mut s = state_with_group();
    s.workspace_manager_event(WorkspaceManagerEvent::WorkspaceGroup(h(200)));
    assert_eq!(s.workspace_groups().len(), 1);
}

#[test]
fn group_output_enter_and_leave() {
    let mut s = state_with_group();
    s.workspace_group_event(h(200), WorkspaceGroupEvent::OutputEnter(h(7)));
    assert_eq!(s.workspace_groups()[0].output, Some(h(7)));
    s.workspace_group_event(h(200), WorkspaceGroupEvent::OutputLeave(h(8)));
    assert_eq!(s.workspace_groups()[0].output, Some(h(7)));
    s.workspace_group_event(h(200), WorkspaceGroupEvent::OutputLeave(h(7)));
    assert_eq!(s.workspace_groups()[0].output, None);
}

#[test]
fn workspace_joins_its_group() {
    let mut s = state_with_group();
    s.workspace_manager_event(WorkspaceManagerEvent::WorkspaceGroup(h(201)));
    s.workspace_group_event(h(201), WorkspaceGroupEvent::Workspace(h(300)));
    s.workspace_group_event(h(200), WorkspaceGroupEvent::Workspace(h(301)));
    s.workspace_group_event(h(201), WorkspaceGroupEvent::Workspace(h(302)));
    assert_eq!(ids(&s.workspace_groups()[0].workspaces), vec![301]);
    assert_eq!(ids(&s.workspace_groups()[1].workspaces), vec![300, 302]);
    assert_eq!(s.workspace_groups()[1].workspaces[0], ws(300, vec![]));
}

#[test]
fn workspace_handle_is_held_once_over_all_groups() {
    let mut s = state_with_group();
    s.workspace_manager_event(WorkspaceManagerEvent::WorkspaceGroup(h(201)));
    s.workspace_group_event(h(200), WorkspaceGroupEvent::Workspace(h(300)));
    s.workspace_group_event(h(201), WorkspaceGroupEvent::Workspace(h(300)));
    s.workspace_group_event(h(200), WorkspaceGroupEvent::Workspace(h(300)));
    assert_eq!(ids(&s.workspace_groups()[0].workspaces), vec![300]);
    assert!(s.workspace_groups()[1].workspaces.is_empty());
}

#[test]
fn events_for_unknown_groups_change_nothing() {
    let mut s = state_with_group();
    s.workspace_group_event(h(999), WorkspaceGroupEvent::Workspace(h(300)));
    s.workspace_group_event(h(999), WorkspaceGroupEvent::OutputEnter(h(7)));
    s.workspace_group_event(h(999), WorkspaceGroupEvent::Remove);
    s.workspace_group_event(h(200), WorkspaceGroupEvent::Other);
    assert_eq!(s.workspace_groups().len(), 1);
    assert_eq!(s.workspace_groups()[0].output, None);
    assert!(s.workspace_groups()[0].workspaces.is_empty());
}

#[test]
fn group_removal_takes_its_workspaces_along() {
    let mut s = state_with_group();
    s.workspace_manager_event(WorkspaceManagerEvent::WorkspaceGroup(h(201)));
    s.workspace_group_event(h(200), WorkspaceGroupEvent::Workspace(h(300)));
    s.workspace_group_event(h(201), WorkspaceGroupEvent::Workspace(h(301)));
    s.workspace_group_event(h(200), WorkspaceGroupEvent::Remove);
    assert_eq!(s.workspace_groups().len(), 1);
    assert_eq!(s.workspace_groups()[0].workspace_group_handle, h(201));
    assert_eq!(s.workspace_event(h(300), WorkspaceEvent::Name("gone".to_string())), Ok(()));
    assert_eq!(ids(&s.workspace_groups()[0].workspaces), vec![301]);
    assert_eq!(s.workspace_groups()[0].workspaces[0].name, "");
}

#[test]
fn workspace_updates_reach_the_workspace_in_any_group() {
    let mut s = state_with_group();
    s.workspace_manager_event(WorkspaceManagerEvent::WorkspaceGroup(h(201)));
    s.workspace_group_event(h(200), WorkspaceGroupEvent::Workspace(h(300)));
    s.workspace_group_event(h(201), WorkspaceGroupEvent::Workspace(h(301)));
    assert_eq!(s.workspace_event(h(301), WorkspaceEvent::Name("two".to_string())), Ok(()));
    assert_eq!(s.workspace_event(h(301), WorkspaceEvent::Coordinates(le(&[4, 70000]))), Ok(()));
    assert_eq!(s.workspace_event(h(301), WorkspaceEvent::State(le(&[0, 2]))), Ok(()));
    let w = &s.workspace_groups()[1].workspaces[0];
    assert_eq!(w.name, "two");
    assert_eq!(w.coordinates, vec![4, 70000]);
    assert_eq!(w.states, vec![WorkspaceState::Active, WorkspaceState::Hidden]);
    assert_eq!(s.workspace_groups()[0].workspaces[0], ws(300, vec![]));
}

#[test]
fn bad_workspace_arrays_are_refused_and_leave_the_fields() {
    let mut s = state_with_group();
    s.workspace_group_event(h(200), WorkspaceGroupEvent::Workspace(h(300)));
    s.workspace_event(h(300), WorkspaceEvent::Coordinates(le(&[1, 2]))).unwrap();
    s.workspace_event(h(300), WorkspaceEvent::State(le(&[1]))).unwrap();
    assert_eq!(
        s.workspace_event(h(300), WorkspaceEvent::Coordinates(vec![1, 2, 3, 4, 5])),
        Err(DecodeError::Length)
    );
    assert_eq!(s.workspace_event(h(300), WorkspaceEvent::State(vec![0, 0])), Err(DecodeError::Length));
    assert_eq!(
        s.workspace_event(h(300), WorkspaceEvent::State(le(&[0, 3]))),
        Err(DecodeError::Unmapped(3))
    );
    let w = &s.workspace_groups()[0].workspaces[0];
    assert_eq!(w.coordinates, vec![1, 2]);
    assert_eq!(w.states, vec![WorkspaceState::Urgent]);
}

#[test]
fn events_for_unknown_workspaces_change_nothing() {
    let mut s = state_with_group();
    s.workspace_group_event(h(200), WorkspaceGroupEvent::Workspace(h(300)));
    assert_eq!(s.workspace_event(h(999), WorkspaceEvent::Name("x".to_string())), Ok(()));
    assert_eq!(s.workspace_event(h(999), WorkspaceEvent::Coordinates(vec![1])), Ok(()));
    assert_eq!(s.workspace_event(h(999), WorkspaceEvent::Remove), Ok(()));
    assert_eq!(s.workspace_event(h(300), WorkspaceEvent::Other), Ok(()));
    assert_eq!(s.workspace_groups()[0].workspaces, vec![ws(300, vec![])]);
}

#[test]
fn workspace_removal_leaves_the_others() {
    let mut s = state_with_group();
    s.workspace_group_event(h(200), WorkspaceGroupEvent::Workspace(h(300)));
    s.workspace_group_event(h(200), WorkspaceGroupEvent::Workspace(h(301)));
    s.workspace_group_event(h(200), WorkspaceGroupEvent::Workspace(h(302)));
    assert_eq!(s.workspace_event(h(301), WorkspaceEvent::Remove), Ok(()));
    assert_eq!(ids(&s.workspace_groups()[0].workspaces), vec![300, 302]);
}

#[test]
fn done_sorts_every_group() {
    let mut s = state_with_group();
    s.workspace_manager_event(WorkspaceManagerEvent::WorkspaceGroup(h(201)));
    for (group, id, coords) in [
        (200, 300, [0u32, 1]),
        (200, 301, [0, 0]),
        (200, 302, [1, 0]),
        (201, 303, [5, 5]),
        (201, 304, [2, 9]),
    ] {
        s.workspace_group_event(h(group), WorkspaceGroupEvent::Workspace(h(id)));
        s.workspace_event(h(id), WorkspaceEvent::Coordinates(le(&coords))).unwrap();
    }
    s.workspace_manager_event(WorkspaceManagerEvent::Done);
    assert_eq!(ids(&s.workspace_groups()[0].workspaces), vec![301, 300, 302]);
    assert_eq!(ids(&s.workspace_groups()[1].workspaces), vec![304, 303]);
    assert_eq!(s.workspace_groups()[0].workspaces[0].coordinates, vec![0, 0]);
    assert_eq!(s.workspace_groups()[0].workspaces[1].coordinates, vec![0, 1]);
    assert_eq!(s.workspace_groups()[0].workspaces[2].coordinates, vec![1, 0]);
}

#[test]
fn finished_unbinds_the_manager_and_stops_its_events() {
    let mut s = state_with_group();
    s.workspace_group_event(h(200), WorkspaceGroupEvent::Workspace(h(300)));
    s.workspace_manager_event(WorkspaceManagerEvent::Other);
    s.workspace_manager_event(WorkspaceManagerEvent::Finished);
    assert_eq!(s.workspace_manager(), None);
    s.workspace_manager_event(WorkspaceManagerEvent::WorkspaceGroup(h(201)));
    s.workspace_group_event(h(200), WorkspaceGroupEvent::Workspace(h(301)));
    s.workspace_group_event(h(200), WorkspaceGroupEvent::OutputEnter(h(7)));
    assert_eq!(s.workspace_event(h(300), WorkspaceEvent::Name("late".to_string())), Ok(()));
    assert_eq!(s.workspace_event(h(300), WorkspaceEvent::State(vec![1])), Ok(()));
    assert_eq!(s.workspace_groups().len(), 1);
    assert_eq!(s.workspace_groups()[0].output, None);
    assert_eq!(s.workspace_groups()[0].workspaces, vec![ws(300, vec![])]);
}

#[test]
fn events_before_the_manager_is_bound_are_not_taken() {
    let mut s = State::new(ByteOrder::Little);
    s.workspace_manager_event(WorkspaceManagerEvent::WorkspaceGroup(h(200)));
    assert!(s.workspace_groups().is_empty());
}
