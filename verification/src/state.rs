//! The protocol state: what the compositor has announced so far, and how each
//! of its events changes that.
//!
//! Every function here is one step of a state machine. It takes an event that
//! arrived on the wire, updates the state and returns what has to leave the
//! state machine in turn: a record to publish, or requests to send.
use vstd::prelude::*;
use crate::handle::Handle;
use crate::payload::{ByteOrder, DecodeError};
use crate::toplevel::{
    after_event, announce, announced, apply_event, count, distinct, dones, knows,
    lemma_after_event, lemma_announced, lemma_closed, lemma_count, outcome, outcome_view,
    record, replay, views, Toplevel, ToplevelAction, ToplevelEvent, ToplevelEventView,
    ToplevelHandleEvent, ToplevelHandleEventView, ToplevelInfoEvent, ToplevelView,
};
use crate::workspace::{
    after_group_event, after_workspace_event, all_sorted, announce_group, apply_group_event,
    apply_workspace_event, group_announced, group_views, groups_distinct, sort_groups,
    workspace_outcome, workspaces_distinct, WorkspaceEvent, WorkspaceEventView, WorkspaceGroup,
    WorkspaceGroupEvent, WorkspaceGroupView, WorkspaceManagerEvent,
};

verus! {

/// The kinds of global object that the state machine binds.
#[derive(Debug, Clone, Copy, PartialEq, Eq, Structural)]
pub enum GlobalKind {
    ToplevelInfo,
    ToplevelManager,
    WorkspaceManager,
    Seat,
    Output,
}

/// A request to the compositor.
#[derive(Debug, Clone, Copy, PartialEq, Eq, Structural)]
pub enum WireRequest {
    /// Ask the window manager to activate a window for a seat.
    Activate { manager: Handle, toplevel: Handle, seat: Handle },
    /// Ask the window manager to close a window.
    Close { manager: Handle, toplevel: Handle },
    DestroyToplevel(Handle),
    StopToplevelInfo(Handle),
    DestroyToplevelManager(Handle),
    DestroyWorkspaceGroup(Handle),
    StopWorkspaceManager(Handle),
}

/// The protocol state, as a mathematical value.
pub struct StateView {
    pub running: bool,
    pub byte_order: ByteOrder,
    pub workspace_manager: Option<Handle>,
    pub workspace_groups: Seq<WorkspaceGroupView>,
    pub toplevel_info: Option<Handle>,
    pub toplevel_manager: Option<Handle>,
    pub toplevels: Seq<ToplevelView>,
    pub seats: Seq<Handle>,
    pub outputs: Seq<Handle>,
}

/// The protocol state.
#[derive(Debug)]
pub struct State {
    running: bool,
    byte_order: ByteOrder,
    workspace_manager: Option<Handle>,
    workspace_groups: Vec<WorkspaceGroup>,
    toplevel_info: Option<Handle>,
    toplevel_manager: Option<Handle>,
    toplevels: Vec<Toplevel>,
    seats: Vec<Handle>,
    outputs: Vec<Handle>,
}

impl View for State {
    type V = StateView;

    closed spec fn view(&self) -> StateView {
        StateView {
            running: self.running,
            byte_order: self.byte_order,
            workspace_manager: self.workspace_manager,
            workspace_groups: group_views(self.workspace_groups@),
            toplevel_info: self.toplevel_info,
            toplevel_manager: self.toplevel_manager,
            toplevels: views(self.toplevels@),
            seats: self.seats@,
            outputs: self.outputs@,
        }
    }
}

/// The kind of global that an interface name stands for, if the state machine
/// binds it.
pub open spec fn global_kind_of(interface: Seq<char>) -> Option<GlobalKind> {
    if interface == "zcosmic_toplevel_info_v1"@ {
        Some(GlobalKind::ToplevelInfo)
    } else if interface == "zcosmic_toplevel_manager_v1"@ {
        Some(GlobalKind::ToplevelManager)
    } else if interface == "zcosmic_workspace_manager_v1"@ {
        Some(GlobalKind::WorkspaceManager)
    } else if interface == "wl_seat"@ {
        Some(GlobalKind::Seat)
    } else if interface == "wl_output"@ {
        Some(GlobalKind::Output)
    } else {
        None
    }
}

/// The list with `h` at its end, unless it holds `h` already.
pub open spec fn with_member(s: Seq<Handle>, h: Handle) -> Seq<Handle> {
    if s.contains(h) {
        s
    } else {
        s.push(h)
    }
}

impl StateView {
    /// The state before anything was announced.
    pub open spec fn initial(byte_order: ByteOrder) -> StateView {
        StateView {
            running: true,
            byte_order,
            workspace_manager: None,
            workspace_groups: Seq::empty(),
            toplevel_info: None,
            toplevel_manager: None,
            toplevels: Seq::empty(),
            seats: Seq::empty(),
            outputs: Seq::empty(),
        }
    }

    /// Each table holds at most one record for a handle.
    pub open spec fn wf(self) -> bool {
        &&& distinct(self.toplevels)
        &&& groups_distinct(self.workspace_groups)
        &&& workspaces_distinct(self.workspace_groups)
        &&& self.seats.no_duplicates()
        &&& self.outputs.no_duplicates()
    }

    /// The state after a global of the given kind was bound under `handle`: a
    /// service replaces the one bound before, a seat or an output joins the
    /// others.
    pub open spec fn bound(self, kind: GlobalKind, handle: Handle) -> StateView {
        match kind {
            GlobalKind::ToplevelInfo => StateView { toplevel_info: Some(handle), ..self },
            GlobalKind::ToplevelManager => StateView { toplevel_manager: Some(handle), ..self },
            GlobalKind::WorkspaceManager => StateView { workspace_manager: Some(handle), ..self },
            GlobalKind::Seat => StateView { seats: with_member(self.seats, handle), ..self },
            GlobalKind::Output => StateView { outputs: with_member(self.outputs, handle), ..self },
        }
    }

    /// The state after an event of the window-info service. A window is taken
    /// up only while the service is bound.
    pub open spec fn after_toplevel_info(self, event: ToplevelInfoEvent) -> StateView {
        match event {
            ToplevelInfoEvent::Toplevel(h) => if self.toplevel_info is Some {
                StateView { toplevels: announced(self.toplevels, h), ..self }
            } else {
                self
            },
            ToplevelInfoEvent::Finished => StateView { toplevel_info: None, ..self },
            ToplevelInfoEvent::Other => self,
        }
    }

    /// The state after an event addressed to the window `h`.
    pub open spec fn after_toplevel(self, h: Handle, event: ToplevelHandleEventView) -> StateView {
        StateView { toplevels: after_event(self.toplevels, h, event, self.byte_order), ..self }
    }

    /// The state after a run of events addressed to the window `h`, taken in
    /// turn.
    pub open spec fn after_toplevel_events(
        self,
        h: Handle,
        events: Seq<ToplevelHandleEventView>,
    ) -> StateView
        decreases events.len(),
    {
        if events.len() == 0 {
            self
        } else {
            self.after_toplevel_events(h, events.drop_last()).after_toplevel(h, events.last())
        }
    }

    /// What a run of events addressed to the window `h` publishes, in the
    /// order of publication.
    pub open spec fn published_by(self, h: Handle, events: Seq<ToplevelHandleEventView>) -> Seq<
        ToplevelEventView,
    >
        decreases events.len(),
    {
        if events.len() == 0 {
            Seq::empty()
        } else {
            let earlier = self.published_by(h, events.drop_last());
            match self.after_toplevel_events(h, events.drop_last()).toplevel_outcome(
                h,
                events.last(),
            ) {
                Ok(Some(e)) => earlier.push(e),
                _ => earlier,
            }
        }
    }

    /// What an event addressed to the window `h` returns: the decoding error
    /// that it met, or else what it publishes.
    pub open spec fn toplevel_outcome(self, h: Handle, event: ToplevelHandleEventView) -> Result<
        Option<ToplevelEventView>,
        DecodeError,
    > {
        outcome(self.toplevels, h, event, self.byte_order)
    }
    /// The state after an event of the workspace manager. Without a bound
    /// manager no event is taken.
    pub open spec fn after_workspace_manager(self, event: WorkspaceManagerEvent) -> StateView {
        if self.workspace_manager is None {
            self
        } else {
            match event {
                WorkspaceManagerEvent::WorkspaceGroup(g) => StateView {
                    workspace_groups: group_announced(self.workspace_groups, g),
                    ..self
                },
                WorkspaceManagerEvent::Done => StateView {
                    workspace_groups: all_sorted(self.workspace_groups),
                    ..self
                },
                WorkspaceManagerEvent::Finished => StateView { workspace_manager: None, ..self },
                WorkspaceManagerEvent::Other => self,
            }
        }
    }

    /// The state after an event addressed to the group `g`. Without a bound
    /// manager no event is taken.
    pub open spec fn after_workspace_group(
        self,
        g: Handle,
        event: WorkspaceGroupEvent,
    ) -> StateView {
        if self.workspace_manager is None {
            self
        } else {
            StateView {
                workspace_groups: after_group_event(self.workspace_groups, g, event),
                ..self
            }
        }
    }

    /// The state after an event addressed to the workspace `w`. Without a
    /// bound manager no event is taken.
    pub open spec fn after_workspace(self, w: Handle, event: WorkspaceEventView) -> StateView {
        if self.workspace_manager is None {
            self
        } else {
            StateView {
                workspace_groups: after_workspace_event(
                    self.workspace_groups,
                    w,
                    event,
                    self.byte_order,
                ),
                ..self
            }
        }
    }

    /// What an event addressed to the workspace `w` returns: the decoding
    /// error of its array, where the event was taken and the workspace is
    /// known.
    pub open spec fn workspace_outcome(self, w: Handle, event: WorkspaceEventView) -> Result<
        (),
        DecodeError,
    > {
        if self.workspace_manager is Some {
            workspace_outcome(self.workspace_groups, w, event, self.byte_order)
        } else {
            Ok(())
        }
    }

    /// The requests that carry out a command: an activation goes to the
    /// window manager once for every seat, in the seats' order; a close goes
    /// to it once. Without a window manager nothing is sent.
    pub open spec fn requests_for(self, action: ToplevelAction) -> Seq<WireRequest> {
        match self.toplevel_manager {
            None => Seq::empty(),
            Some(manager) => match action {
                ToplevelAction::Activate(toplevel) => Seq::new(
                    self.seats.len(),
                    |i: int| WireRequest::Activate { manager, toplevel, seat: self.seats[i] },
                ),
                ToplevelAction::Close(toplevel) => seq![WireRequest::Close { manager, toplevel }],
            },
        }
    }

    /// The requests that release every window.
    pub open spec fn toplevel_releases(self) -> Seq<WireRequest> {
        Seq::new(
            self.toplevels.len(),
            |i: int| WireRequest::DestroyToplevel(self.toplevels[i].toplevel_handle),
        )
    }

    /// The requests that release every group of workspaces.
    pub open spec fn group_releases(self) -> Seq<WireRequest> {
        Seq::new(
            self.workspace_groups.len(),
            |i: int|
                WireRequest::DestroyWorkspaceGroup(self.workspace_groups[i].workspace_group_handle),
        )
    }

    /// The requests of an orderly shutdown: every window is released, the
    /// window-info service is stopped, the window manager is released, every
    /// group of workspaces is released, and the workspace manager is stopped.
    /// A service that is not bound gets no request.
    pub open spec fn teardown_requests(self) -> Seq<WireRequest> {
        self.toplevel_releases() + (match self.toplevel_info {
            Some(h) => seq![WireRequest::StopToplevelInfo(h)],
            None => Seq::empty(),
        }) + (match self.toplevel_manager {
            Some(h) => seq![WireRequest::DestroyToplevelManager(h)],
            None => Seq::empty(),
        }) + self.group_releases() + (match self.workspace_manager {
            Some(h) => seq![WireRequest::StopWorkspaceManager(h)],
            None => Seq::empty(),
        })
    }
}

/// Whether two pieces of text are the same.
fn same_text(a: &str, b: &str) -> (r: bool)
    ensures
        r == (a@ == b@),
{
    let a: String = String::from_str(a);
    let b: String = String::from_str(b);
    a == b
}

/// Tells which kind of global an interface name stands for. `None` means that
/// the global is not to be bound.
pub fn recognize(interface: &str) -> (kind: Option<GlobalKind>)
    ensures
        kind == global_kind_of(interface@),
{
    if same_text(interface, "zcosmic_toplevel_info_v1") {
        Some(GlobalKind::ToplevelInfo)
    } else if same_text(interface, "zcosmic_toplevel_manager_v1") {
        Some(GlobalKind::ToplevelManager)
    } else if same_text(interface, "zcosmic_workspace_manager_v1") {
        Some(GlobalKind::WorkspaceManager)
    } else if same_text(interface, "wl_seat") {
        Some(GlobalKind::Seat)
    } else if same_text(interface, "wl_output") {
        Some(GlobalKind::Output)
    } else {
        None
    }
}

/// Adds a handle to a list that holds each handle once.
fn add_member(list: &mut Vec<Handle>, h: Handle)
    requires
        old(list)@.no_duplicates(),
    ensures
        final(list)@ == with_member(old(list)@, h),
        final(list)@.no_duplicates(),
{
    let mut i: usize = 0;
    while i < list.len()
        invariant
            0 <= i <= list@.len(),
            list@ == old(list)@,
            list@.no_duplicates(),
            forall|j: int| 0 <= j < i ==> list@[j] != h,
        decreases list@.len() - i,
    {
        if list[i] == h {
            return ;
        }
        i = i + 1;
    }
    assert(!list@.contains(h));
    list.push(h);
}

impl State {
    /// Each table holds at most one record for a handle.
    #[verifier::type_invariant]
    spec fn well_formed(self) -> bool {
        self@.wf()
    }

    /// The state before anything was announced. Packed arrays will be read in
    /// the given byte order.
    pub fn new(byte_order: ByteOrder) -> (s: State)
        ensures
            s@ == StateView::initial(byte_order),
            s@.wf(),
    {
        let s = State {
            running: true,
            byte_order,
            workspace_manager: None,
            workspace_groups: Vec::new(),
            toplevel_info: None,
            toplevel_manager: None,
            toplevels: Vec::new(),
            seats: Vec::new(),
            outputs: Vec::new(),
        };
        assert(s@.workspace_groups =~= Seq::empty());
        assert(s@.toplevels =~= Seq::empty());
        s
    }

    /// Records that a global of the given kind was bound under `handle`.
    pub fn bind(&mut self, kind: GlobalKind, handle: Handle)
        ensures
            final(self)@ == old(self)@.bound(kind, handle),
            final(self)@.wf(),
    {
        proof {
            use_type_invariant(&*self);
        }
        match kind {
            GlobalKind::ToplevelInfo => {
                self.toplevel_info = Some(handle);
            },
            GlobalKind::ToplevelManager => {
                self.toplevel_manager = Some(handle);
            },
            GlobalKind::WorkspaceManager => {
                self.workspace_manager = Some(handle);
            },
            GlobalKind::Seat => {
                let mut seats: Vec<Handle> = Vec::new();
                std::mem::swap(&mut seats, &mut self.seats);
                add_member(&mut seats, handle);
                self.seats = seats;
            },
            GlobalKind::Output => {
                let mut outputs: Vec<Handle> = Vec::new();
                std::mem::swap(&mut outputs, &mut self.outputs);
                add_member(&mut outputs, handle);
                self.outputs = outputs;
            },
        }
    }

    /// Takes an event of the window-info service.
    pub fn toplevel_info_event(&mut self, event: ToplevelInfoEvent)
        ensures
            final(self)@ == old(self)@.after_toplevel_info(event),
            final(self)@.wf(),
    {
        proof {
            use_type_invariant(&*self);
        }
        match event {
            ToplevelInfoEvent::Toplevel(h) => {
                if self.toplevel_info.is_some() {
                    let mut toplevels: Vec<Toplevel> = Vec::new();
                    std::mem::swap(&mut toplevels, &mut self.toplevels);
                    announce(&mut toplevels, h);
                    self.toplevels = toplevels;
                }
            },
            ToplevelInfoEvent::Finished => {
                self.toplevel_info = None;
            },
            ToplevelInfoEvent::Other => {},
        }
    }

    /// Takes an event addressed to the window `handle`.
    ///
    /// `Done` publishes the window's record as it stands, `Closed` takes the
    /// record out and publishes it for the last time; both return the record
    /// to publish. A state event whose array does not decode returns the
    /// error and leaves the record as it was. An event for a window that is
    /// not known changes and returns nothing.
    pub fn toplevel_handle_event(&mut self, handle: Handle, event: ToplevelHandleEvent) -> (r:
        Result<Option<ToplevelEvent>, DecodeError>)
        ensures
            final(self)@ == old(self)@.after_toplevel(handle, event@),
            outcome_view(r) == old(self)@.toplevel_outcome(handle, event@),
            final(self)@.wf(),
    {
        proof {
            use_type_invariant(&*self);
        }
        let mut toplevels: Vec<Toplevel> = Vec::new();
        std::mem::swap(&mut toplevels, &mut self.toplevels);
        let r = apply_event(&mut toplevels, handle, event, self.byte_order);
        self.toplevels = toplevels;
        r
    }

    /// Takes an event of the workspace manager. `Done` puts the workspaces of
    /// every group into the order of their coordinates.
    pub fn workspace_manager_event(&mut self, event: WorkspaceManagerEvent)
        ensures
            final(self)@ == old(self)@.after_workspace_manager(event),
            final(self)@.wf(),
    {
        proof {
            use_type_invariant(&*self);
        }
        if self.workspace_manager.is_none() {
            return ;
        }
        match event {
            WorkspaceManagerEvent::WorkspaceGroup(g) => {
                let mut groups: Vec<WorkspaceGroup> = Vec::new();
                std::mem::swap(&mut groups, &mut self.workspace_groups);
                announce_group(&mut groups, g);
                self.workspace_groups = groups;
            },
            WorkspaceManagerEvent::Done => {
                let mut groups: Vec<WorkspaceGroup> = Vec::new();
                std::mem::swap(&mut groups, &mut self.workspace_groups);
                sort_groups(&mut groups);
                self.workspace_groups = groups;
            },
            WorkspaceManagerEvent::Finished => {
                self.workspace_manager = None;
            },
            WorkspaceManagerEvent::Other => {},
        }
    }

    /// Takes an event addressed to the group `group`. An event for a group
    /// that is not known changes nothing.
    pub fn workspace_group_event(&mut self, group: Handle, event: WorkspaceGroupEvent)
        ensures
            final(self)@ == old(self)@.after_workspace_group(group, event),
            final(self)@.wf(),
    {
        proof {
            use_type_invariant(&*self);
        }
        if self.workspace_manager.is_none() {
            return ;
        }
        let mut groups: Vec<WorkspaceGroup> = Vec::new();
        std::mem::swap(&mut groups, &mut self.workspace_groups);
        apply_group_event(&mut groups, group, event);
        self.workspace_groups = groups;
    }

    /// Takes an event addressed to the workspace `workspace`, whichever group
    /// holds it. A coordinate or state event whose array does not decode
    /// returns the error and leaves the workspace as it was. An event for a
    /// workspace that is not known changes nothing.
    pub fn workspace_event(&mut self, workspace: Handle, event: WorkspaceEvent) -> (r: Result<
        (),
        DecodeError,
    >)
        ensures
            final(self)@ == old(self)@.after_workspace(workspace, event@),
            r == old(self)@.workspace_outcome(workspace, event@),
            final(self)@.wf(),
    {
        proof {
            use_type_invariant(&*self);
        }
        if self.workspace_manager.is_none() {
            return Ok(());
        }
        let mut groups: Vec<WorkspaceGroup> = Vec::new();
        std::mem::swap(&mut groups, &mut self.workspace_groups);
        let r = apply_workspace_event(&mut groups, workspace, event, self.byte_order);
        self.workspace_groups = groups;
        r
    }

    /// The requests that carry out a command on a window.
    pub fn handle_action(&self, action: ToplevelAction) -> (requests: Vec<WireRequest>)
        ensures
            requests@ == self@.requests_for(action),
    {
        let mut requests: Vec<WireRequest> = Vec::new();
        let manager: Handle = match self.toplevel_manager {
            Some(manager) => manager,
            None => {
                assert(requests@ =~= self@.requests_for(action));
                return requests;
            },
        };
        match action {
            ToplevelAction::Activate(toplevel) => {
                let mut i: usize = 0;
                while i < self.seats.len()
                    invariant
                        0 <= i <= self.seats@.len(),
                        requests@.len() == i,
                        forall|j: int|
                            0 <= j < i ==> requests@[j] == (WireRequest::Activate {
                                manager,
                                toplevel,
                                seat: self.seats@[j],
                            }),
                    decreases self.seats@.len() - i,
                {
                    requests.push(WireRequest::Activate { manager, toplevel, seat: self.seats[i] });
                    i = i + 1;
                }
            },
            ToplevelAction::Close(toplevel) => {
                requests.push(WireRequest::Close { manager, toplevel });
            },
        }
        assert(requests@ =~= self@.requests_for(action));
        requests
    }

    /// Ends the state machine: returns the requests of an orderly shutdown,
    /// in their order, and marks the state as no longer running.
    pub fn teardown(&mut self) -> (requests: Vec<WireRequest>)
        ensures
            requests@ == old(self)@.teardown_requests(),
            final(self)@ == (StateView { running: false, ..old(self)@ }),
    {
        proof {
            use_type_invariant(&*self);
        }
        let mut requests: Vec<WireRequest> = Vec::new();
        let mut i: usize = 0;
        while i < self.toplevels.len()
            invariant
                0 <= i <= self.toplevels@.len(),
                requests@.len() == i,
                forall|j: int|
                    0 <= j < i ==> requests@[j] == WireRequest::DestroyToplevel(
                        self.toplevels@[j].toplevel_handle,
                    ),
            decreases self.toplevels@.len() - i,
        {
            requests.push(WireRequest::DestroyToplevel(self.toplevels[i].toplevel_handle));
            i = i + 1;
        }
        assert(requests@ =~= self@.toplevel_releases());
        if let Some(h) = self.toplevel_info {
            requests.push(WireRequest::StopToplevelInfo(h));
        }
        if let Some(h) = self.toplevel_manager {
            requests.push(WireRequest::DestroyToplevelManager(h));
        }
        let ghost front = requests@;
        assert(front =~= self@.toplevel_releases() + (match self@.toplevel_info {
            Some(h) => seq![WireRequest::StopToplevelInfo(h)],
            None => Seq::empty(),
        }) + (match self@.toplevel_manager {
            Some(h) => seq![WireRequest::DestroyToplevelManager(h)],
            None => Seq::empty(),
        }));
        let mut k: usize = 0;
        while k < self.workspace_groups.len()
            invariant
                0 <= k <= self.workspace_groups@.len(),
                requests@.len() == front.len() + k,
                requests@.subrange(0, front.len() as int) == front,
                forall|j: int|
                    0 <= j < k ==> requests@[front.len() + j]
                        == WireRequest::DestroyWorkspaceGroup(
                        self.workspace_groups@[j].workspace_group_handle,
                    ),
            decreases self.workspace_groups@.len() - k,
        {
            requests.push(
                WireRequest::DestroyWorkspaceGroup(self.workspace_groups[k].workspace_group_handle),
            );
            assert(requests@.subrange(0, front.len() as int) =~= front);
            k = k + 1;
        }
        assert(requests@ =~= front + self@.group_releases()) by {
            assert(requests@.len() == (front + self@.group_releases()).len());
            assert forall|j: int| 0 <= j < requests@.len() implies requests@[j] == (front
                + self@.group_releases())[j] by {
                if j < front.len() {
                    assert(requests@[j] == requests@.subrange(0, front.len() as int)[j]);
                }
            }
        }
        if let Some(h) = self.workspace_manager {
            requests.push(WireRequest::StopWorkspaceManager(h));
        }
        assert(requests@ =~= self@.teardown_requests());
        self.running = false;
        requests
    }
}

impl State {
    /// Whether the state machine still runs: true until [`State::teardown`].
    pub fn is_running(&self) -> (r: bool)
        ensures
            r == self@.running,
    {
        self.running
    }

    /// The byte order in which packed arrays are read.
    pub fn byte_order(&self) -> (r: ByteOrder)
        ensures
            r == self@.byte_order,
    {
        self.byte_order
    }

    /// The window-info service, while it is bound.
    pub fn toplevel_info(&self) -> (r: Option<Handle>)
        ensures
            r == self@.toplevel_info,
    {
        self.toplevel_info
    }

    /// The window manager, while it is bound.
    pub fn toplevel_manager(&self) -> (r: Option<Handle>)
        ensures
            r == self@.toplevel_manager,
    {
        self.toplevel_manager
    }

    /// The workspace manager, while it is bound.
    pub fn workspace_manager(&self) -> (r: Option<Handle>)
        ensures
            r == self@.workspace_manager,
    {
        self.workspace_manager
    }

    /// The records of the windows, in the order of their announcement.
    pub fn toplevels(&self) -> (r: &Vec<Toplevel>)
        ensures
            views(r@) == self@.toplevels,
            self@.wf(),
    {
        proof {
            use_type_invariant(self);
        }
        &self.toplevels
    }

    /// The groups of workspaces, in the order of their announcement.
    pub fn workspace_groups(&self) -> (r: &Vec<WorkspaceGroup>)
        ensures
            group_views(r@) == self@.workspace_groups,
            self@.wf(),
    {
        proof {
            use_type_invariant(self);
        }
        &self.workspace_groups
    }

    /// The seats.
    pub fn seats(&self) -> (r: &Vec<Handle>)
        ensures
            r@ == self@.seats,
            self@.wf(),
    {
        proof {
            use_type_invariant(self);
        }
        &self.seats
    }

    /// The outputs.
    pub fn outputs(&self) -> (r: &Vec<Handle>)
        ensures
            r@ == self@.outputs,
            self@.wf(),
    {
        proof {
            use_type_invariant(self);
        }
        &self.outputs
    }
}

/// A run of updates and commits for a window that the state knows keeps one
/// record for the window. The record ends as the run of events leaves it, and
/// one record is published for each `Done` of the run.
pub proof fn lemma_updates_and_commits(
    s: StateView,
    h: Handle,
    events: Seq<ToplevelHandleEventView>,
)
    requires
        s.wf(),
        knows(s.toplevels, h),
        forall|i: int| 0 <= i < events.len() ==> !(#[trigger] events[i] is Closed),
    ensures
        s.after_toplevel_events(h, events).wf(),
        knows(s.after_toplevel_events(h, events).toplevels, h),
        count(s.after_toplevel_events(h, events).toplevels, h) == 1,
        record(s.after_toplevel_events(h, events).toplevels, h) == replay(
            record(s.toplevels, h),
            events,
            s.byte_order,
        ),
        s.after_toplevel_events(h, events) == (StateView {
            toplevels: s.after_toplevel_events(h, events).toplevels,
            ..s
        }),
        s.published_by(h, events).len() == dones(events),
        events.len() > 0 && events.last() is Done ==> s.published_by(h, events).last()
            == ToplevelEventView::Add(record(s.after_toplevel_events(h, events).toplevels, h)),
    decreases events.len(),
{
    if events.len() == 0 {
        lemma_count(s.toplevels, h);
    } else {
        let init = events.drop_last();
        let last = events.last();
        assert forall|i: int| 0 <= i < init.len() implies !(#[trigger] init[i] is Closed) by {
            assert(init[i] == events[i]);
        }
        assert(last == events[events.len() - 1]);
        lemma_updates_and_commits(s, h, init);
        let mid = s.after_toplevel_events(h, init);
        lemma_after_event(mid.toplevels, h, last, mid.byte_order);
        let end = mid.after_toplevel(h, last);
        lemma_count(end.toplevels, h);
        if last is Done {
            assert(record(mid.toplevels, h).updated(last, mid.byte_order) == record(
                mid.toplevels,
                h,
            ));
        }
    }
}

/// A window that is announced while the window-info service is bound, and then
/// sent any run of updates and commits, has exactly one record afterwards. The
/// record is the one that the window had before, or else an empty one, taken
/// through the run; one record is published for each `Done` of the run, and a
/// run that ends in `Done` publishes the record as it stands at the end.
pub proof fn lemma_window_lifecycle(
    s: StateView,
    h: Handle,
    events: Seq<ToplevelHandleEventView>,
)
    requires
        s.wf(),
        s.toplevel_info is Some,
        forall|i: int| 0 <= i < events.len() ==> !(#[trigger] events[i] is Closed),
    ensures
        ({
            let start = s.after_toplevel_info(ToplevelInfoEvent::Toplevel(h));
            let end = start.after_toplevel_events(h, events);
            let first = if knows(s.toplevels, h) {
                record(s.toplevels, h)
            } else {
                ToplevelView::empty(h)
            };
            &&& end.wf()
            &&& count(end.toplevels, h) == 1
            &&& record(end.toplevels, h) == replay(first, events, s.byte_order)
            &&& start.published_by(h, events).len() == dones(events)
            &&& events.len() > 0 && events.last() is Done ==> start.published_by(h, events).last()
                == ToplevelEventView::Add(record(end.toplevels, h))
        }),
{
    let start = s.after_toplevel_info(ToplevelInfoEvent::Toplevel(h));
    lemma_announced(s.toplevels, h);
    lemma_updates_and_commits(start, h, events);
}

/// After `Closed` the state holds no record for the window, and what is
/// published is one removal that carries the record as it last was. A window
/// that the state does not know publishes nothing.
pub proof fn lemma_window_closed(s: StateView, h: Handle)
    requires
        s.wf(),
    ensures
        s.after_toplevel(h, ToplevelHandleEventView::Closed).wf(),
        !knows(s.after_toplevel(h, ToplevelHandleEventView::Closed).toplevels, h),
        count(s.after_toplevel(h, ToplevelHandleEventView::Closed).toplevels, h) == 0,
        s.toplevel_outcome(h, ToplevelHandleEventView::Closed) == Ok::<
            Option<ToplevelEventView>,
            DecodeError,
        >(
            if knows(s.toplevels, h) {
                Some(ToplevelEventView::Remove(record(s.toplevels, h)))
            } else {
                None
            },
        ),
        s.published_by(h, seq![ToplevelHandleEventView::Closed]).len() == if knows(
            s.toplevels,
            h,
        ) {
            1nat
        } else {
            0nat
        },
{
    lemma_closed(s.toplevels, h, s.byte_order);
    let one = seq![ToplevelHandleEventView::Closed];
    assert(one.drop_last() =~= Seq::empty());
    assert(one.last() == ToplevelHandleEventView::Closed);
    assert(s.after_toplevel_events(h, one.drop_last()) == s);
    assert(s.published_by(h, one.drop_last()).len() == 0);
}

} // verus!
