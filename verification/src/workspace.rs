//! Workspaces, the groups that hold them, and the table of the groups.
use vstd::prelude::*;
use crate::handle::{names, Handle};
use crate::payload::{
    coordinates_of, decode_words, decode_workspace_states, workspace_states_of, ByteOrder,
    DecodeError, WorkspaceState,
};
use crate::sorting::{lemma_sorted_rearranges, list_distinct, sort_workspaces, sorted};

verus! {

/// One workspace, as a mathematical value.
pub struct WorkspaceView {
    pub workspace_handle: Handle,
    pub name: Seq<char>,
    pub coordinates: Seq<u32>,
    pub states: Seq<WorkspaceState>,
}

/// One workspace.
#[derive(Debug, Clone, PartialEq, Eq)]
pub struct Workspace {
    pub workspace_handle: Handle,
    pub name: String,
    pub coordinates: Vec<u32>,
    pub states: Vec<WorkspaceState>,
}

impl View for Workspace {
    type V = WorkspaceView;

    open spec fn view(&self) -> WorkspaceView {
        WorkspaceView {
            workspace_handle: self.workspace_handle,
            name: self.name@,
            coordinates: self.coordinates@,
            states: self.states@,
        }
    }
}

/// One group of workspaces, as a mathematical value.
pub struct WorkspaceGroupView {
    pub workspace_group_handle: Handle,
    pub output: Option<Handle>,
    pub workspaces: Seq<WorkspaceView>,
}

/// One group of workspaces.
#[derive(Debug, Clone, PartialEq, Eq)]
pub struct WorkspaceGroup {
    pub workspace_group_handle: Handle,
    pub output: Option<Handle>,
    pub workspaces: Vec<Workspace>,
}

/// The workspaces of a list, as mathematical values.
pub open spec fn workspace_views(v: Seq<Workspace>) -> Seq<WorkspaceView> {
    Seq::new(v.len(), |i: int| v[i]@)
}

impl View for WorkspaceGroup {
    type V = WorkspaceGroupView;

    open spec fn view(&self) -> WorkspaceGroupView {
        WorkspaceGroupView {
            workspace_group_handle: self.workspace_group_handle,
            output: self.output,
            workspaces: workspace_views(self.workspaces@),
        }
    }
}

/// The groups of a list, as mathematical values.
pub open spec fn group_views(v: Seq<WorkspaceGroup>) -> Seq<WorkspaceGroupView> {
    Seq::new(v.len(), |i: int| v[i]@)
}

/// An event of the workspace manager.
#[derive(Debug, Clone, Copy, PartialEq, Eq, Structural)]
pub enum WorkspaceManagerEvent {
    /// A group was announced under this handle.
    WorkspaceGroup(Handle),
    /// The events sent so far form a consistent whole.
    Done,
    /// The manager is gone.
    Finished,
    /// Any other event.
    Other,
}

/// An event addressed to one group of workspaces.
#[derive(Debug, Clone, Copy, PartialEq, Eq, Structural)]
pub enum WorkspaceGroupEvent {
    OutputEnter(Handle),
    OutputLeave(Handle),
    /// A workspace of this group was announced under this handle.
    Workspace(Handle),
    Remove,
    /// Any other event.
    Other,
}

/// An event addressed to one workspace.
#[derive(Debug, Clone, PartialEq, Eq)]
pub enum WorkspaceEvent {
    Name(String),
    /// The workspace's coordinates, as a packed array.
    Coordinates(Vec<u8>),
    /// The workspace's flags, as a packed array.
    State(Vec<u8>),
    Remove,
    /// Any other event.
    Other,
}

/// An event addressed to one workspace, as a mathematical value.
pub enum WorkspaceEventView {
    Name(Seq<char>),
    Coordinates(Seq<u8>),
    State(Seq<u8>),
    Remove,
    Other,
}

impl View for WorkspaceEvent {
    type V = WorkspaceEventView;

    open spec fn view(&self) -> WorkspaceEventView {
        match self {
            WorkspaceEvent::Name(n) => WorkspaceEventView::Name(n@),
            WorkspaceEvent::Coordinates(b) => WorkspaceEventView::Coordinates(b@),
            WorkspaceEvent::State(b) => WorkspaceEventView::State(b@),
            WorkspaceEvent::Remove => WorkspaceEventView::Remove,
            WorkspaceEvent::Other => WorkspaceEventView::Other,
        }
    }
}

impl WorkspaceView {
    /// The record of a workspace of which nothing is known yet.
    pub open spec fn empty(handle: Handle) -> WorkspaceView {
        WorkspaceView {
            workspace_handle: handle,
            name: Seq::empty(),
            coordinates: Seq::empty(),
            states: Seq::empty(),
        }
    }

    /// The record after an event addressed to its workspace. A coordinate or
    /// state event replaces the field where its array decodes and changes
    /// nothing where it does not.
    pub open spec fn updated(self, event: WorkspaceEventView, order: ByteOrder) -> WorkspaceView {
        match event {
            WorkspaceEventView::Name(name) => WorkspaceView { name, ..self },
            WorkspaceEventView::Coordinates(bytes) => match coordinates_of(bytes, order) {
                Ok(coordinates) => WorkspaceView { coordinates, ..self },
                Err(_) => self,
            },
            WorkspaceEventView::State(bytes) => match workspace_states_of(bytes, order) {
                Ok(states) => WorkspaceView { states, ..self },
                Err(_) => self,
            },
            _ => self,
        }
    }
}

impl WorkspaceGroupView {
    /// The record of a group of which nothing is known yet.
    pub open spec fn empty(handle: Handle) -> WorkspaceGroupView {
        WorkspaceGroupView {
            workspace_group_handle: handle,
            output: None,
            workspaces: Seq::empty(),
        }
    }
}

/// The decoding error that a workspace event carries in its array.
pub open spec fn payload_error(event: WorkspaceEventView, order: ByteOrder) -> Option<DecodeError> {
    match event {
        WorkspaceEventView::Coordinates(bytes) => match coordinates_of(bytes, order) {
            Ok(_) => None,
            Err(e) => Some(e),
        },
        WorkspaceEventView::State(bytes) => match workspace_states_of(bytes, order) {
            Ok(_) => None,
            Err(e) => Some(e),
        },
        _ => None,
    }
}

/// The list holds a workspace with this handle.
pub open spec fn holds(ws: Seq<WorkspaceView>, w: Handle) -> bool {
    exists|j: int| 0 <= j < ws.len() && (#[trigger] ws[j]).workspace_handle == w
}

/// The place of the handle's workspace in a list that holds one.
pub open spec fn place(ws: Seq<WorkspaceView>, w: Handle) -> int {
    choose|j: int| 0 <= j < ws.len() && (#[trigger] ws[j]).workspace_handle == w
}

/// The list without the handle's workspace.
pub open spec fn without(ws: Seq<WorkspaceView>, w: Handle) -> Seq<WorkspaceView> {
    if holds(ws, w) {
        ws.remove(place(ws, w))
    } else {
        ws
    }
}

/// The list with the handle's workspace updated by the event.
pub open spec fn amended(
    ws: Seq<WorkspaceView>,
    w: Handle,
    event: WorkspaceEventView,
    order: ByteOrder,
) -> Seq<WorkspaceView> {
    Seq::new(
        ws.len(),
        |j: int|
            if ws[j].workspace_handle == w {
                ws[j].updated(event, order)
            } else {
                ws[j]
            },
    )
}

/// The table holds a group with this handle.
pub open spec fn knows_group(gs: Seq<WorkspaceGroupView>, g: Handle) -> bool {
    exists|i: int| 0 <= i < gs.len() && (#[trigger] gs[i]).workspace_group_handle == g
}

/// The place of the handle's group in a table that holds one.
pub open spec fn group_index(gs: Seq<WorkspaceGroupView>, g: Handle) -> int {
    choose|i: int| 0 <= i < gs.len() && (#[trigger] gs[i]).workspace_group_handle == g
}

/// Some group of the table holds a workspace with this handle.
pub open spec fn knows_workspace(gs: Seq<WorkspaceGroupView>, w: Handle) -> bool {
    exists|i: int| 0 <= i < gs.len() && holds((#[trigger] gs[i]).workspaces, w)
}

/// No two groups of the table belong to one handle.
pub open spec fn groups_distinct(gs: Seq<WorkspaceGroupView>) -> bool {
    forall|i: int, j: int|
        0 <= i < j < gs.len() ==> (#[trigger] gs[i]).workspace_group_handle != (
        #[trigger] gs[j]).workspace_group_handle
}

/// No two workspaces of the table, of one group or of two, belong to one
/// handle.
pub open spec fn workspaces_distinct(gs: Seq<WorkspaceGroupView>) -> bool {
    forall|i: int, j: int, k: int, l: int|
        #![trigger gs[i].workspaces[j], gs[k].workspaces[l]]
        0 <= i < gs.len() && 0 <= j < gs[i].workspaces.len() && 0 <= k < gs.len() && 0 <= l
            < gs[k].workspaces.len() && gs[i].workspaces[j].workspace_handle
            == gs[k].workspaces[l].workspace_handle ==> i == k && j == l
}

/// The table after a group announcement: a handle that is not known yet gets
/// an empty group at the end.
pub open spec fn group_announced(gs: Seq<WorkspaceGroupView>, g: Handle) -> Seq<
    WorkspaceGroupView,
> {
    if knows_group(gs, g) {
        gs
    } else {
        gs.push(WorkspaceGroupView::empty(g))
    }
}

/// The group after an event addressed to it, other than its removal. An
/// announced workspace goes to the end of the list unless `taken` says that
/// its handle is in use.
pub open spec fn group_updated(
    group: WorkspaceGroupView,
    event: WorkspaceGroupEvent,
    taken: bool,
) -> WorkspaceGroupView {
    match event {
        WorkspaceGroupEvent::OutputEnter(o) => WorkspaceGroupView { output: Some(o), ..group },
        WorkspaceGroupEvent::OutputLeave(o) => if group.output == Some(o) {
            WorkspaceGroupView { output: None, ..group }
        } else {
            group
        },
        WorkspaceGroupEvent::Workspace(w) => if taken {
            group
        } else {
            WorkspaceGroupView {
                workspaces: group.workspaces.push(WorkspaceView::empty(w)),
                ..group
            }
        },
        _ => group,
    }
}

/// Whether the event announces a workspace whose handle some group of the
/// table holds already.
pub open spec fn announces_known(gs: Seq<WorkspaceGroupView>, event: WorkspaceGroupEvent) -> bool {
    match event {
        WorkspaceGroupEvent::Workspace(w) => knows_workspace(gs, w),
        _ => false,
    }
}

/// The table after an event addressed to the group `g`: `Remove` takes the
/// group out with all its workspaces, every other event updates it in place.
/// A table without a group for `g` stays as it is.
pub open spec fn after_group_event(
    gs: Seq<WorkspaceGroupView>,
    g: Handle,
    event: WorkspaceGroupEvent,
) -> Seq<WorkspaceGroupView> {
    if event is Remove {
        if knows_group(gs, g) {
            gs.remove(group_index(gs, g))
        } else {
            gs
        }
    } else {
        Seq::new(
            gs.len(),
            |i: int|
                if gs[i].workspace_group_handle == g {
                    group_updated(gs[i], event, announces_known(gs, event))
                } else {
                    gs[i]
                },
        )
    }
}

/// The table after an event addressed to the workspace `w`: `Remove` takes
/// the workspace out of its group, every other event updates it in place. A
/// table without a workspace for `w` stays as it is.
pub open spec fn after_workspace_event(
    gs: Seq<WorkspaceGroupView>,
    w: Handle,
    event: WorkspaceEventView,
    order: ByteOrder,
) -> Seq<WorkspaceGroupView> {
    Seq::new(
        gs.len(),
        |i: int|
            WorkspaceGroupView {
                workspaces: if event is Remove {
                    without(gs[i].workspaces, w)
                } else {
                    amended(gs[i].workspaces, w, event, order)
                },
                ..gs[i]
            },
    )
}

/// The table with the workspaces of every group in the order of their
/// coordinates.
pub open spec fn all_sorted(gs: Seq<WorkspaceGroupView>) -> Seq<WorkspaceGroupView> {
    Seq::new(
        gs.len(),
        |i: int| WorkspaceGroupView { workspaces: sorted(gs[i].workspaces), ..gs[i] },
    )
}

/// In a list without duplicates, a place that holds the handle is the place
/// that [`place`] names.
pub proof fn lemma_place(ws: Seq<WorkspaceView>, w: Handle, j: int)
    requires
        list_distinct(ws),
        0 <= j < ws.len(),
        ws[j].workspace_handle == w,
    ensures
        holds(ws, w),
        place(ws, w) == j,
{
    let k = place(ws, w);
    assert(0 <= k < ws.len() && ws[k].workspace_handle == w);
    if k < j {
        assert(ws[k].workspace_handle != ws[j].workspace_handle);
    } else if j < k {
        assert(ws[j].workspace_handle != ws[k].workspace_handle);
    }
}

/// In a table without duplicates, a place that holds the group's handle is
/// the place that [`group_index`] names.
pub proof fn lemma_group_index(gs: Seq<WorkspaceGroupView>, g: Handle, i: int)
    requires
        groups_distinct(gs),
        0 <= i < gs.len(),
        gs[i].workspace_group_handle == g,
    ensures
        knows_group(gs, g),
        group_index(gs, g) == i,
{
    let k = group_index(gs, g);
    assert(0 <= k < gs.len() && gs[k].workspace_group_handle == g);
    if k < i {
        assert(gs[k].workspace_group_handle != gs[i].workspace_group_handle);
    } else if i < k {
        assert(gs[i].workspace_group_handle != gs[k].workspace_group_handle);
    }
}

/// In a table without duplicates, no group lists a workspace twice.
pub proof fn lemma_group_lists_distinct(gs: Seq<WorkspaceGroupView>, i: int)
    requires
        workspaces_distinct(gs),
        0 <= i < gs.len(),
    ensures
        list_distinct(gs[i].workspaces),
{
    assert forall|x: int, y: int| 0 <= x < y < gs[i].workspaces.len() implies (
    #[trigger] gs[i].workspaces[x]).workspace_handle != (
    #[trigger] gs[i].workspaces[y]).workspace_handle by {
        if gs[i].workspaces[x].workspace_handle == gs[i].workspaces[y].workspace_handle {
            assert(i == i && x == y);
        }
    }
}

/// The removal of a group takes the group out of a table without duplicates,
/// and all its workspaces with it: afterwards the table knows neither the
/// group nor any workspace that the group held.
pub proof fn lemma_group_removed(gs: Seq<WorkspaceGroupView>, g: Handle, w: Handle)
    requires
        groups_distinct(gs),
        workspaces_distinct(gs),
        knows_group(gs, g),
        holds(gs[group_index(gs, g)].workspaces, w),
    ensures
        !knows_group(after_group_event(gs, g, WorkspaceGroupEvent::Remove), g),
        !knows_workspace(after_group_event(gs, g, WorkspaceGroupEvent::Remove), w),
        after_group_event(gs, g, WorkspaceGroupEvent::Remove).len() == gs.len() - 1,
{
    let i = group_index(gs, g);
    let out = after_group_event(gs, g, WorkspaceGroupEvent::Remove);
    let j = place(gs[i].workspaces, w);
    assert(gs[i].workspaces[j].workspace_handle == w);
    assert forall|k: int| 0 <= k < out.len() implies (#[trigger] out[k]).workspace_group_handle
        != g && !holds(out[k].workspaces, w) by {
        let k0 = if k < i { k } else { k + 1 };
        assert(out[k] == gs[k0]);
        if k0 < i {
            assert(gs[k0].workspace_group_handle != gs[i].workspace_group_handle);
        } else {
            assert(gs[i].workspace_group_handle != gs[k0].workspace_group_handle);
        }
        if holds(gs[k0].workspaces, w) {
            let l = place(gs[k0].workspaces, w);
            assert(gs[k0].workspaces[l].workspace_handle == gs[i].workspaces[j].workspace_handle);
        }
    }
}

/// The removal of a workspace takes it out of a table without duplicates:
/// afterwards no group holds it. The groups stay, each with its handle.
pub proof fn lemma_workspace_removed(gs: Seq<WorkspaceGroupView>, w: Handle, order: ByteOrder)
    requires
        workspaces_distinct(gs),
    ensures
        !knows_workspace(after_workspace_event(gs, w, WorkspaceEventView::Remove, order), w),
        after_workspace_event(gs, w, WorkspaceEventView::Remove, order).len() == gs.len(),
        forall|i: int|
            0 <= i < gs.len() ==> (#[trigger] after_workspace_event(
                gs,
                w,
                WorkspaceEventView::Remove,
                order,
            )[i]).workspace_group_handle == gs[i].workspace_group_handle,
{
    let out = after_workspace_event(gs, w, WorkspaceEventView::Remove, order);
    assert forall|i: int| 0 <= i < out.len() implies !holds((#[trigger] out[i]).workspaces, w) by {
        let ws = gs[i].workspaces;
        lemma_group_lists_distinct(gs, i);
        if holds(ws, w) {
            let p = place(ws, w);
            let rest = ws.remove(p);
            assert(out[i].workspaces == rest);
            assert forall|l: int| 0 <= l < rest.len() implies (#[trigger] rest[l]).workspace_handle
                != w by {
                let l0 = if l < p { l } else { l + 1 };
                assert(rest[l] == ws[l0]);
                if l0 < p {
                    assert(ws[l0].workspace_handle != ws[p].workspace_handle);
                } else {
                    assert(ws[p].workspace_handle != ws[l0].workspace_handle);
                }
            }
        }
    }
}

/// Sorting the workspaces of every group keeps a table free of duplicates.
pub proof fn lemma_all_sorted_distinct(gs: Seq<WorkspaceGroupView>)
    requires
        groups_distinct(gs),
        workspaces_distinct(gs),
    ensures
        groups_distinct(all_sorted(gs)),
        workspaces_distinct(all_sorted(gs)),
{
    let out = all_sorted(gs);
    assert forall|i: int, j: int|
        0 <= i < j < out.len() implies (#[trigger] out[i]).workspace_group_handle
        != (#[trigger] out[j]).workspace_group_handle by {
        assert(gs[i].workspace_group_handle != gs[j].workspace_group_handle);
    }
    assert forall|i: int, j: int, k: int, l: int|
        #![trigger out[i].workspaces[j], out[k].workspaces[l]]
        0 <= i < out.len() && 0 <= j < out[i].workspaces.len() && 0 <= k < out.len() && 0 <= l
            < out[k].workspaces.len() && out[i].workspaces[j].workspace_handle
            == out[k].workspaces[l].workspace_handle implies i == k && j == l by {
        lemma_sorted_rearranges(gs[i].workspaces);
        lemma_sorted_rearranges(gs[k].workspaces);
        let a = out[i].workspaces[j];
        let b = out[k].workspaces[l];
        assert(a == sorted(gs[i].workspaces)[j]);
        assert(b == sorted(gs[k].workspaces)[l]);
        assert(gs[i].workspaces.contains(a));
        assert(gs[k].workspaces.contains(b));
        let j0 = choose|m: int| 0 <= m < gs[i].workspaces.len() && gs[i].workspaces[m] == a;
        let l0 = choose|m: int| 0 <= m < gs[k].workspaces.len() && gs[k].workspaces[m] == b;
        assert(gs[i].workspaces[j0].workspace_handle == gs[k].workspaces[l0].workspace_handle);
        assert(i == k && j0 == l0);
        assert(list_distinct(gs[i].workspaces)) by {
            assert forall|x: int, y: int| 0 <= x < y < gs[i].workspaces.len() implies (
            #[trigger] gs[i].workspaces[x]).workspace_handle != (
            #[trigger] gs[i].workspaces[y]).workspace_handle by {
                if gs[i].workspaces[x].workspace_handle == gs[i].workspaces[y].workspace_handle {
                    assert(i == i && x == y);
                }
            }
        }
        if j < l {
            assert(sorted(gs[i].workspaces)[j].workspace_handle != sorted(
                gs[i].workspaces,
            )[l].workspace_handle);
        } else if l < j {
            assert(sorted(gs[i].workspaces)[l].workspace_handle != sorted(
                gs[i].workspaces,
            )[j].workspace_handle);
        }
    }
}

impl Workspace {
    /// The record of a workspace of which nothing is known yet.
    pub fn new(handle: Handle) -> (w: Workspace)
        ensures
            w@ == WorkspaceView::empty(handle),
    {
        Workspace {
            workspace_handle: handle,
            name: String::new(),
            coordinates: Vec::new(),
            states: Vec::new(),
        }
    }
}

impl WorkspaceGroup {
    /// The record of a group of which nothing is known yet.
    pub fn new(handle: Handle) -> (g: WorkspaceGroup)
        ensures
            g@ == WorkspaceGroupView::empty(handle),
    {
        let g = WorkspaceGroup {
            workspace_group_handle: handle,
            output: None,
            workspaces: Vec::new(),
        };
        assert(g@.workspaces =~= Seq::empty());
        g
    }
}

/// Looks the handle up in a list of workspaces.
pub fn find_in_list(ws: &Vec<Workspace>, w: Handle) -> (r: Option<usize>)
    ensures
        match r {
            Some(j) => j < ws@.len() && ws@[j as int].workspace_handle == w,
            None => forall|j: int| 0 <= j < ws@.len() ==> (#[trigger] ws@[j]).workspace_handle != w,
        },
        r is Some <==> holds(workspace_views(ws@), w),
{
    let mut j: usize = 0;
    while j < ws.len()
        invariant
            0 <= j <= ws@.len(),
            forall|m: int| 0 <= m < j ==> (#[trigger] ws@[m]).workspace_handle != w,
        decreases ws@.len() - j,
    {
        if ws[j].workspace_handle == w {
            assert(workspace_views(ws@)[j as int].workspace_handle == w);
            return Some(j);
        }
        j = j + 1;
    }
    assert forall|m: int| 0 <= m < workspace_views(ws@).len() implies (#[trigger] workspace_views(
        ws@,
    )[m]).workspace_handle != w by {
        assert(ws@[m].workspace_handle != w);
    }
    None
}

/// Looks the handle up in a table of groups.
pub fn find_group(v: &Vec<WorkspaceGroup>, g: Handle) -> (r: Option<usize>)
    ensures
        match r {
            Some(i) => i < v@.len() && v@[i as int].workspace_group_handle == g,
            None => forall|i: int|
                0 <= i < v@.len() ==> (#[trigger] v@[i]).workspace_group_handle != g,
        },
        r is Some <==> knows_group(group_views(v@), g),
{
    let mut i: usize = 0;
    while i < v.len()
        invariant
            0 <= i <= v@.len(),
            forall|m: int| 0 <= m < i ==> (#[trigger] v@[m]).workspace_group_handle != g,
        decreases v@.len() - i,
    {
        if v[i].workspace_group_handle == g {
            assert(group_views(v@)[i as int].workspace_group_handle == g);
            return Some(i);
        }
        i = i + 1;
    }
    assert forall|m: int| 0 <= m < group_views(v@).len() implies (#[trigger] group_views(
        v@,
    )[m]).workspace_group_handle != g by {
        assert(v@[m].workspace_group_handle != g);
    }
    None
}

/// Looks the handle up among the workspaces of every group: the group's place
/// in the table and the workspace's place in the group.
pub fn find_workspace(v: &Vec<WorkspaceGroup>, w: Handle) -> (r: Option<(usize, usize)>)
    ensures
        match r {
            Some((i, j)) => i < v@.len() && j < v@[i as int].workspaces@.len()
                && v@[i as int].workspaces@[j as int].workspace_handle == w,
            None => forall|i: int|
                0 <= i < v@.len() ==> !holds((#[trigger] group_views(v@)[i]).workspaces, w),
        },
        r is Some <==> knows_workspace(group_views(v@), w),
{
    let mut i: usize = 0;
    while i < v.len()
        invariant
            0 <= i <= v@.len(),
            forall|m: int| 0 <= m < i ==> !holds((#[trigger] group_views(v@)[m]).workspaces, w),
        decreases v@.len() - i,
    {
        match find_in_list(&v[i].workspaces, w) {
            Some(j) => {
                assert(holds(group_views(v@)[i as int].workspaces, w));
                return Some((i, j));
            },
            None => {},
        }
        i = i + 1;
    }
    None
}

/// What an event addressed to the workspace `w` returns: the decoding error
/// of its array, where the table knows the workspace.
pub open spec fn workspace_outcome(
    gs: Seq<WorkspaceGroupView>,
    w: Handle,
    event: WorkspaceEventView,
    order: ByteOrder,
) -> Result<(), DecodeError> {
    if knows_workspace(gs, w) {
        match payload_error(event, order) {
            Some(e) => Err(e),
            None => Ok(()),
        }
    } else {
        Ok(())
    }
}

/// Takes a group announcement into a table of groups.
pub(crate) fn announce_group(v: &mut Vec<WorkspaceGroup>, g: Handle)
    requires
        groups_distinct(group_views(old(v)@)),
        workspaces_distinct(group_views(old(v)@)),
    ensures
        group_views(final(v)@) == group_announced(group_views(old(v)@), g),
        groups_distinct(group_views(final(v)@)),
        workspaces_distinct(group_views(final(v)@)),
{
    let ghost before = group_views(v@);
    if find_group(v, g).is_none() {
        v.push(WorkspaceGroup::new(g));
        proof {
            let after = group_views(v@);
            assert(after =~= before.push(WorkspaceGroupView::empty(g)));
            assert forall|i: int, j: int, k: int, l: int|
                #![trigger after[i].workspaces[j], after[k].workspaces[l]]
                0 <= i < after.len() && 0 <= j < after[i].workspaces.len() && 0 <= k
                    < after.len() && 0 <= l < after[k].workspaces.len()
                    && after[i].workspaces[j].workspace_handle
                    == after[k].workspaces[l].workspace_handle implies i == k && j
                == l by {
                assert(after[i] == before[i]);
                assert(after[k] == before[k]);
                assert(before[i].workspaces[j].workspace_handle
                    == before[k].workspaces[l].workspace_handle);
            }
        }
    }
}

/// Puts the workspaces of every group of a table into the order of their
/// coordinates.
pub(crate) fn sort_groups(v: &mut Vec<WorkspaceGroup>)
    requires
        groups_distinct(group_views(old(v)@)),
        workspaces_distinct(group_views(old(v)@)),
    ensures
        group_views(final(v)@) == all_sorted(group_views(old(v)@)),
        groups_distinct(group_views(final(v)@)),
        workspaces_distinct(group_views(final(v)@)),
{
    let ghost before = group_views(v@);
    let n: usize = v.len();
    let mut i: usize = 0;
    while i < n
        invariant
            0 <= i <= n,
            n == before.len(),
            v@.len() == n,
            forall|j: int|
                0 <= j < i ==> (#[trigger] group_views(v@)[j])
                    == all_sorted(before)[j],
            forall|j: int|
                i <= j < n ==> (#[trigger] group_views(v@)[j])
                    == before[j],
        decreases n - i,
    {
        let ghost cur = group_views(v@);
        sort_workspaces(&mut v[i].workspaces);
        proof {
            let now = group_views(v@);
            assert(cur[i as int] == before[i as int]);
            assert(now[i as int] == all_sorted(before)[i as int]);
            assert forall|j: int| 0 <= j < n && j != i implies now[j] == cur[j] by {}
        }
        i = i + 1;
    }
    proof {
        assert(group_views(v@) =~= all_sorted(before));
        lemma_all_sorted_distinct(before);
    }
}

/// Takes an event addressed to the group `group` into a table of groups.
pub(crate) fn apply_group_event(
    v: &mut Vec<WorkspaceGroup>,
    group: Handle,
    event: WorkspaceGroupEvent,
)
    requires
        groups_distinct(group_views(old(v)@)),
        workspaces_distinct(group_views(old(v)@)),
    ensures
        group_views(final(v)@) == after_group_event(group_views(old(v)@), group, event),
        groups_distinct(group_views(final(v)@)),
        workspaces_distinct(group_views(final(v)@)),
{
    let ghost before = group_views(v@);
    let gi: usize = match find_group(v, group) {
        Some(gi) => gi,
        None => {
            assert(after_group_event(before, group, event) =~= before);
            return ;
        },
    };
    proof {
        assert(before[gi as int].workspace_group_handle == group);
        lemma_group_index(before, group, gi as int);
    }
    let ghost taken = announces_known(before, event);
    match event {
        WorkspaceGroupEvent::OutputEnter(output) => {
            v[gi].output = Some(output);
        },
        WorkspaceGroupEvent::OutputLeave(output) => {
            if names(&v[gi].output, output) {
                v[gi].output = None;
            }
        },
        WorkspaceGroupEvent::Workspace(w) => {
            if find_workspace(v, w).is_none() {
                v[gi].workspaces.push(Workspace::new(w));
                assert(group_views(v@)[gi as int].workspaces
                    =~= before[gi as int].workspaces.push(WorkspaceView::empty(w)));
            }
        },
        WorkspaceGroupEvent::Remove => {
            let _ = v.remove(gi);
            assert(group_views(v@) =~= before.remove(gi as int));
        },
        WorkspaceGroupEvent::Other => {},
    }
    proof {
        let after = group_views(v@);
        if event is Remove {
            assert forall|i: int, j: int| 0 <= i < j < after.len() implies (
            #[trigger] after[i]).workspace_group_handle != (
            #[trigger] after[j]).workspace_group_handle by {
                let i0 = if i < gi { i } else { i + 1 };
                let j0 = if j < gi { j } else { j + 1 };
                assert(after[i] == before[i0] && after[j] == before[j0]);
                assert(before[i0].workspace_group_handle != before[j0].workspace_group_handle);
            }
            assert forall|i: int, j: int, k: int, l: int|
                #![trigger after[i].workspaces[j], after[k].workspaces[l]]
                0 <= i < after.len() && 0 <= j < after[i].workspaces.len() && 0 <= k
                    < after.len() && 0 <= l < after[k].workspaces.len()
                    && after[i].workspaces[j].workspace_handle
                    == after[k].workspaces[l].workspace_handle implies i == k && j == l by {
                let i0 = if i < gi { i } else { i + 1 };
                let k0 = if k < gi { k } else { k + 1 };
                assert(after[i] == before[i0] && after[k] == before[k0]);
                assert(before[i0].workspaces[j].workspace_handle
                    == before[k0].workspaces[l].workspace_handle);
            }
        } else {
            assert(after.len() == before.len());
            assert forall|j: int|
                0 <= j < before.len() implies after[j] == (if before[j].workspace_group_handle
                == group {
                group_updated(before[j], event, taken)
            } else {
                before[j]
            }) by {
                if j != gi {
                    if j < gi {
                        assert(before[j].workspace_group_handle
                            != before[gi as int].workspace_group_handle);
                    } else {
                        assert(before[gi as int].workspace_group_handle
                            != before[j].workspace_group_handle);
                    }
                }
            }
            assert(after =~= after_group_event(before, group, event));
            assert forall|i: int, j: int| 0 <= i < j < after.len() implies (
            #[trigger] after[i]).workspace_group_handle != (
            #[trigger] after[j]).workspace_group_handle by {
                assert(after[i].workspace_group_handle == before[i].workspace_group_handle);
                assert(after[j].workspace_group_handle == before[j].workspace_group_handle);
            }
            assert forall|i: int, j: int, k: int, l: int|
                #![trigger after[i].workspaces[j], after[k].workspaces[l]]
                0 <= i < after.len() && 0 <= j < after[i].workspaces.len() && 0 <= k
                    < after.len() && 0 <= l < after[k].workspaces.len()
                    && after[i].workspaces[j].workspace_handle
                    == after[k].workspaces[l].workspace_handle implies i == k && j == l by {
                let fresh_a = i == gi && j >= before[i].workspaces.len();
                let fresh_b = k == gi && l >= before[k].workspaces.len();
                if fresh_a && !fresh_b {
                    assert(after[k].workspaces[l] == before[k].workspaces[l]);
                    assert(holds(before[k].workspaces, before[k].workspaces[l].workspace_handle));
                } else if fresh_b && !fresh_a {
                    assert(after[i].workspaces[j] == before[i].workspaces[j]);
                    assert(holds(before[i].workspaces, before[i].workspaces[j].workspace_handle));
                } else if !fresh_a && !fresh_b {
                    assert(after[i].workspaces[j] == before[i].workspaces[j]);
                    assert(after[k].workspaces[l] == before[k].workspaces[l]);
                }
            }
        }
    }
}

/// Takes an event addressed to the workspace `workspace` into a table of
/// groups, whichever group holds the workspace.
pub(crate) fn apply_workspace_event(
    v: &mut Vec<WorkspaceGroup>,
    workspace: Handle,
    event: WorkspaceEvent,
    order: ByteOrder,
) -> (r: Result<(), DecodeError>)
    requires
        groups_distinct(group_views(old(v)@)),
        workspaces_distinct(group_views(old(v)@)),
    ensures
        group_views(final(v)@) == after_workspace_event(
            group_views(old(v)@),
            workspace,
            event@,
            order,
        ),
        r == workspace_outcome(group_views(old(v)@), workspace, event@, order),
        groups_distinct(group_views(final(v)@)),
        workspaces_distinct(group_views(final(v)@)),
{
    let ghost before = group_views(v@);
    let ghost ev = event@;
        let (gi, wi): (usize, usize) = match find_workspace(v, workspace) {
        Some(at) => at,
        None => {
            proof {
                let out = after_workspace_event(before, workspace, ev, order);
                assert forall|i: int| 0 <= i < before.len() implies out[i] == before[i] by {
                    assert(!holds(before[i].workspaces, workspace));
                    assert(amended(before[i].workspaces, workspace, ev, order)
                        =~= before[i].workspaces);
                }
                assert(out =~= before);
            }
            return Ok(());
        },
    };
    proof {
        assert(before[gi as int].workspaces[wi as int].workspace_handle == workspace);
        assert(holds(before[gi as int].workspaces, workspace));
        lemma_group_lists_distinct(before, gi as int);
        lemma_place(before[gi as int].workspaces, workspace, wi as int);
    }
    let mut failure: Option<DecodeError> = None;
    match event {
        WorkspaceEvent::Name(name) => {
            v[gi].workspaces[wi].name = name;
        },
        WorkspaceEvent::Coordinates(bytes) => {
            match decode_words(bytes.as_slice(), order) {
                Ok(coordinates) => {
                    v[gi].workspaces[wi].coordinates = coordinates;
                },
                Err(e) => {
                    failure = Some(e);
                },
            }
        },
        WorkspaceEvent::State(bytes) => {
            match decode_workspace_states(bytes.as_slice(), order) {
                Ok(states) => {
                    v[gi].workspaces[wi].states = states;
                },
                Err(e) => {
                    failure = Some(e);
                },
            }
        },
        WorkspaceEvent::Remove => {
            let _ = v[gi].workspaces.remove(wi);
            assert(group_views(v@)[gi as int].workspaces
                =~= before[gi as int].workspaces.remove(wi as int));
        },
        WorkspaceEvent::Other => {},
    }
    proof {
        let after = group_views(v@);
        let out = after_workspace_event(before, workspace, ev, order);
        assert(after.len() == before.len());
        assert forall|i: int| 0 <= i < before.len() implies after[i] == out[i] by {
            if i != gi {
                assert(after[i] == before[i]);
                if holds(before[i].workspaces, workspace) {
                    let j = place(before[i].workspaces, workspace);
                    assert(before[i].workspaces[j].workspace_handle
                        == before[gi as int].workspaces[wi as int].workspace_handle);
                }
                assert(amended(before[i].workspaces, workspace, ev, order)
                    =~= before[i].workspaces) by {
                    assert forall|j: int| 0 <= j < before[i].workspaces.len() implies (
                    #[trigger] before[i].workspaces[j]).workspace_handle != workspace by {
                        if before[i].workspaces[j].workspace_handle == workspace {
                            assert(before[i].workspaces[j].workspace_handle
                                == before[gi as int].workspaces[wi as int].workspace_handle);
                        }
                    }
                }
            } else {
                if !(ev is Remove) {
                    let ws = before[i].workspaces;
                    assert(after[i].workspaces.len() == ws.len());
                    assert forall|j: int| 0 <= j < ws.len() implies after[i].workspaces[j]
                        == amended(ws, workspace, ev, order)[j] by {
                        if j != wi {
                            if ws[j].workspace_handle == workspace {
                                assert(ws[j].workspace_handle
                                    == before[gi as int].workspaces[wi as int].workspace_handle);
                            }
                        }
                    }
                    assert(after[i].workspaces =~= amended(ws, workspace, ev, order));
                }
            }
        }
        assert(after =~= out);
        assert forall|i: int, j: int| 0 <= i < j < after.len() implies (
        #[trigger] after[i]).workspace_group_handle != (
        #[trigger] after[j]).workspace_group_handle by {
            assert(after[i].workspace_group_handle == before[i].workspace_group_handle);
            assert(after[j].workspace_group_handle == before[j].workspace_group_handle);
        }
        assert forall|i: int, j: int, k: int, l: int|
            #![trigger after[i].workspaces[j], after[k].workspaces[l]]
            0 <= i < after.len() && 0 <= j < after[i].workspaces.len() && 0 <= k < after.len()
                && 0 <= l < after[k].workspaces.len()
                && after[i].workspaces[j].workspace_handle
                == after[k].workspaces[l].workspace_handle implies i == k && j == l by {
            let shift = ev is Remove;
            let j0 = if shift && i == gi && j >= wi { j + 1 } else { j };
            let l0 = if shift && k == gi && l >= wi { l + 1 } else { l };
            assert(after[i].workspaces[j].workspace_handle
                == before[i].workspaces[j0].workspace_handle);
            assert(after[k].workspaces[l].workspace_handle
                == before[k].workspaces[l0].workspace_handle);
            assert(i == k && j0 == l0);
        }
    }
    match failure {
        Some(e) => Err(e),
        None => Ok(()),
    }
}

} // verus!
