//! Windows ("toplevels"), the events that describe them, and the table that
//! holds one record for each.
use vstd::prelude::*;
use crate::handle::{names, Handle};
use crate::payload::{
    decode_toplevel_states, toplevel_states_of, ByteOrder, DecodeError, ToplevelState,
};

verus! {

/// One open window, as a mathematical value.
pub struct ToplevelView {
    pub name: Seq<char>,
    pub app_id: Seq<char>,
    pub toplevel_handle: Handle,
    pub states: Seq<ToplevelState>,
    pub output: Option<Handle>,
    pub workspace: Option<Handle>,
}

/// One open window.
#[derive(Debug, Clone, PartialEq, Eq)]
pub struct Toplevel {
    /// The window's title.
    pub name: String,
    pub app_id: String,
    pub toplevel_handle: Handle,
    pub states: Vec<ToplevelState>,
    pub output: Option<Handle>,
    pub workspace: Option<Handle>,
}

impl View for Toplevel {
    type V = ToplevelView;

    open spec fn view(&self) -> ToplevelView {
        ToplevelView {
            name: self.name@,
            app_id: self.app_id@,
            toplevel_handle: self.toplevel_handle,
            states: self.states@,
            output: self.output,
            workspace: self.workspace,
        }
    }
}

/// A committed change of the set of windows.
#[derive(Debug, Clone, PartialEq, Eq)]
pub enum ToplevelEvent {
    /// The window was committed: it is new, or its record replaces the one
    /// published before under the same handle.
    Add(Toplevel),
    /// The window was closed; the record is the last one known.
    Remove(Toplevel),
}

/// A committed change of the set of windows, as a mathematical value.
pub enum ToplevelEventView {
    Add(ToplevelView),
    Remove(ToplevelView),
}

impl View for ToplevelEvent {
    type V = ToplevelEventView;

    open spec fn view(&self) -> ToplevelEventView {
        match self {
            ToplevelEvent::Add(t) => ToplevelEventView::Add(t@),
            ToplevelEvent::Remove(t) => ToplevelEventView::Remove(t@),
        }
    }
}

/// A command on a window.
#[derive(Debug, Clone, Copy, PartialEq, Eq, Structural)]
pub enum ToplevelAction {
    Activate(Handle),
    Close(Handle),
}

/// An event of the window-info service.
#[derive(Debug, Clone, Copy, PartialEq, Eq, Structural)]
pub enum ToplevelInfoEvent {
    /// A window was announced under this handle.
    Toplevel(Handle),
    /// The service is gone.
    Finished,
    /// Any other event.
    Other,
}

/// An event addressed to one window.
#[derive(Debug, Clone, PartialEq, Eq)]
pub enum ToplevelHandleEvent {
    Closed,
    Done,
    Title(String),
    AppId(String),
    OutputEnter(Handle),
    OutputLeave(Handle),
    WorkspaceEnter(Handle),
    WorkspaceLeave(Handle),
    /// The window's flags, as a packed array.
    State(Vec<u8>),
    /// Any other event.
    Other,
}

/// An event addressed to one window, as a mathematical value.
pub enum ToplevelHandleEventView {
    Closed,
    Done,
    Title(Seq<char>),
    AppId(Seq<char>),
    OutputEnter(Handle),
    OutputLeave(Handle),
    WorkspaceEnter(Handle),
    WorkspaceLeave(Handle),
    State(Seq<u8>),
    Other,
}

impl View for ToplevelHandleEvent {
    type V = ToplevelHandleEventView;

    open spec fn view(&self) -> ToplevelHandleEventView {
        match self {
            ToplevelHandleEvent::Closed => ToplevelHandleEventView::Closed,
            ToplevelHandleEvent::Done => ToplevelHandleEventView::Done,
            ToplevelHandleEvent::Title(t) => ToplevelHandleEventView::Title(t@),
            ToplevelHandleEvent::AppId(a) => ToplevelHandleEventView::AppId(a@),
            ToplevelHandleEvent::OutputEnter(o) => ToplevelHandleEventView::OutputEnter(*o),
            ToplevelHandleEvent::OutputLeave(o) => ToplevelHandleEventView::OutputLeave(*o),
            ToplevelHandleEvent::WorkspaceEnter(w) => ToplevelHandleEventView::WorkspaceEnter(*w),
            ToplevelHandleEvent::WorkspaceLeave(w) => ToplevelHandleEventView::WorkspaceLeave(*w),
            ToplevelHandleEvent::State(b) => ToplevelHandleEventView::State(b@),
            ToplevelHandleEvent::Other => ToplevelHandleEventView::Other,
        }
    }
}

impl ToplevelView {
    /// The record of a window of which nothing is known yet.
    pub open spec fn empty(handle: Handle) -> ToplevelView {
        ToplevelView {
            name: Seq::empty(),
            app_id: Seq::empty(),
            toplevel_handle: handle,
            states: Seq::empty(),
            output: None,
            workspace: None,
        }
    }

    /// The record after an event addressed to its window.
    ///
    /// An enter event sets the reference; a leave event clears it only where
    /// it names the value that leaves. A state event replaces the flags as a
    /// whole where its array decodes, and changes nothing where it does not.
    /// `Done`, `Closed` and unknown events change no field.
    pub open spec fn updated(
        self,
        event: ToplevelHandleEventView,
        order: ByteOrder,
    ) -> ToplevelView {
        match event {
            ToplevelHandleEventView::Title(title) => ToplevelView { name: title, ..self },
            ToplevelHandleEventView::AppId(app_id) => ToplevelView { app_id, ..self },
            ToplevelHandleEventView::OutputEnter(o) => ToplevelView { output: Some(o), ..self },
            ToplevelHandleEventView::OutputLeave(o) => if self.output == Some(o) {
                ToplevelView { output: None, ..self }
            } else {
                self
            },
            ToplevelHandleEventView::WorkspaceEnter(w) => ToplevelView {
                workspace: Some(w),
                ..self
            },
            ToplevelHandleEventView::WorkspaceLeave(w) => if self.workspace == Some(w) {
                ToplevelView { workspace: None, ..self }
            } else {
                self
            },
            ToplevelHandleEventView::State(bytes) => match toplevel_states_of(bytes, order) {
                Ok(states) => ToplevelView { states, ..self },
                Err(_) => self,
            },
            _ => self,
        }
    }
}

/// The records of a table of windows, as mathematical values.
pub open spec fn views(v: Seq<Toplevel>) -> Seq<ToplevelView> {
    Seq::new(v.len(), |i: int| v[i]@)
}

/// No two records of the table belong to one handle.
pub open spec fn distinct(s: Seq<ToplevelView>) -> bool {
    forall|i: int, j: int|
        0 <= i < j < s.len() ==> (#[trigger] s[i]).toplevel_handle != (
        #[trigger] s[j]).toplevel_handle
}

/// The table holds a record for the handle.
pub open spec fn knows(s: Seq<ToplevelView>, h: Handle) -> bool {
    exists|i: int| 0 <= i < s.len() && (#[trigger] s[i]).toplevel_handle == h
}

/// The place of the handle's record in a table that holds one.
pub open spec fn index_of(s: Seq<ToplevelView>, h: Handle) -> int {
    choose|i: int| 0 <= i < s.len() && (#[trigger] s[i]).toplevel_handle == h
}

/// The handle's record in a table that holds one.
pub open spec fn record(s: Seq<ToplevelView>, h: Handle) -> ToplevelView {
    s[index_of(s, h)]
}

/// How many records of the table belong to the handle.
pub open spec fn count(s: Seq<ToplevelView>, h: Handle) -> nat
    decreases s.len(),
{
    if s.len() == 0 {
        0
    } else {
        count(s.drop_last(), h) + if s.last().toplevel_handle == h {
            1nat
        } else {
            0nat
        }
    }
}

/// The table after a window announcement: a handle that is not known yet gets
/// an empty record at the end.
pub open spec fn announced(s: Seq<ToplevelView>, h: Handle) -> Seq<ToplevelView> {
    if knows(s, h) {
        s
    } else {
        s.push(ToplevelView::empty(h))
    }
}

/// The table after an event addressed to the window `h`: `Closed` takes the
/// window's record out, every other event updates it in place. A table
/// without a record for `h` stays as it is.
pub open spec fn after_event(
    s: Seq<ToplevelView>,
    h: Handle,
    event: ToplevelHandleEventView,
    order: ByteOrder,
) -> Seq<ToplevelView> {
    if event is Closed {
        if knows(s, h) {
            s.remove(index_of(s, h))
        } else {
            s
        }
    } else {
        Seq::new(
            s.len(),
            |i: int|
                if s[i].toplevel_handle == h {
                    s[i].updated(event, order)
                } else {
                    s[i]
                },
        )
    }
}

/// What an event addressed to the window `h` publishes: `Done` the window's
/// record as it stands, `Closed` the record that it takes out, and nothing
/// else anything.
pub open spec fn published(
    s: Seq<ToplevelView>,
    h: Handle,
    event: ToplevelHandleEventView,
) -> Option<ToplevelEventView> {
    if !knows(s, h) {
        None
    } else if event is Done {
        Some(ToplevelEventView::Add(record(s, h)))
    } else if event is Closed {
        Some(ToplevelEventView::Remove(record(s, h)))
    } else {
        None
    }
}

/// The decoding error that an event addressed to the window `h` meets: that
/// of a state event for a known window whose array does not decode.
pub open spec fn rejected(
    s: Seq<ToplevelView>,
    h: Handle,
    event: ToplevelHandleEventView,
    order: ByteOrder,
) -> Option<DecodeError> {
    match event {
        ToplevelHandleEventView::State(bytes) => match toplevel_states_of(bytes, order) {
            Err(e) if knows(s, h) => Some(e),
            _ => None,
        },
        _ => None,
    }
}

/// In a table without duplicates, a place that holds the handle is the place
/// that [`index_of`] names.
pub proof fn lemma_index_of(s: Seq<ToplevelView>, h: Handle, i: int)
    requires
        distinct(s),
        0 <= i < s.len(),
        s[i].toplevel_handle == h,
    ensures
        knows(s, h),
        index_of(s, h) == i,
        record(s, h) == s[i],
{
    let k = index_of(s, h);
    assert(0 <= k < s.len() && s[k].toplevel_handle == h);
    if k < i {
        assert(s[k].toplevel_handle != s[i].toplevel_handle);
    } else if i < k {
        assert(s[i].toplevel_handle != s[k].toplevel_handle);
    }
}

/// The record after a run of events addressed to its window, taken in turn.
pub open spec fn replay(
    r: ToplevelView,
    events: Seq<ToplevelHandleEventView>,
    order: ByteOrder,
) -> ToplevelView
    decreases events.len(),
{
    if events.len() == 0 {
        r
    } else {
        replay(r, events.drop_last(), order).updated(events.last(), order)
    }
}

/// How many of the events are `Done`.
pub open spec fn dones(events: Seq<ToplevelHandleEventView>) -> nat
    decreases events.len(),
{
    if events.len() == 0 {
        0
    } else {
        dones(events.drop_last()) + if events.last() is Done {
            1nat
        } else {
            0nat
        }
    }
}

/// The event writes the window's flags: it is a state event whose array
/// decodes.
pub open spec fn writes_states(event: ToplevelHandleEventView, order: ByteOrder) -> bool {
    match event {
        ToplevelHandleEventView::State(bytes) => toplevel_states_of(bytes, order) is Ok,
        _ => false,
    }
}

/// None of the events behind the place `i` meets the test.
pub open spec fn none_later(
    events: Seq<ToplevelHandleEventView>,
    i: int,
    test: spec_fn(ToplevelHandleEventView) -> bool,
) -> bool {
    forall|j: int| i < j < events.len() ==> !test(#[trigger] events[j])
}

/// In a table without duplicates, the number of records for a handle is one
/// where the table knows the handle, and none where it does not.
pub proof fn lemma_count(s: Seq<ToplevelView>, h: Handle)
    requires
        distinct(s),
    ensures
        count(s, h) == if knows(s, h) {
            1nat
        } else {
            0nat
        },
    decreases s.len(),
{
    if s.len() > 0 {
        let init = s.drop_last();
        assert(distinct(init)) by {
            assert forall|i: int, j: int|
                0 <= i < j < init.len() implies (#[trigger] init[i]).toplevel_handle
                != (#[trigger] init[j]).toplevel_handle by {
                assert(init[i] == s[i] && init[j] == s[j]);
            }
        }
        lemma_count(init, h);
        if s.last().toplevel_handle == h {
            assert(s[s.len() - 1].toplevel_handle == h);
            if knows(init, h) {
                let i = index_of(init, h);
                assert(init[i] == s[i]);
                assert(s[i].toplevel_handle != s[s.len() - 1].toplevel_handle);
            }
        } else {
            if knows(s, h) {
                let i = index_of(s, h);
                assert(init[i] == s[i]);
            }
            if knows(init, h) {
                let i = index_of(init, h);
                assert(init[i] == s[i]);
            }
        }
    }
}

/// A window announcement leaves a table without duplicates so, and with a
/// record for the handle: the one that it had, or else an empty one.
pub proof fn lemma_announced(s: Seq<ToplevelView>, h: Handle)
    requires
        distinct(s),
    ensures
        distinct(announced(s, h)),
        knows(announced(s, h), h),
        record(announced(s, h), h) == if knows(s, h) {
            record(s, h)
        } else {
            ToplevelView::empty(h)
        },
{
    let out = announced(s, h);
    if !knows(s, h) {
        assert forall|i: int, j: int|
            0 <= i < j < out.len() implies (#[trigger] out[i]).toplevel_handle
            != (#[trigger] out[j]).toplevel_handle by {
            if j == s.len() {
                assert(out[i] == s[i]);
            } else {
                assert(out[i] == s[i] && out[j] == s[j]);
            }
        }
        assert(out[s.len() as int].toplevel_handle == h);
        lemma_index_of(out, h, s.len() as int);
    }
}

/// An event other than `Closed`, addressed to a window that a table without
/// duplicates knows, updates the window's record and leaves every other
/// record as it was.
pub proof fn lemma_after_event(
    s: Seq<ToplevelView>,
    h: Handle,
    event: ToplevelHandleEventView,
    order: ByteOrder,
)
    requires
        distinct(s),
        knows(s, h),
        !(event is Closed),
    ensures
        distinct(after_event(s, h, event, order)),
        knows(after_event(s, h, event, order), h),
        record(after_event(s, h, event, order), h) == record(s, h).updated(event, order),
        after_event(s, h, event, order).len() == s.len(),
        forall|i: int|
            0 <= i < s.len() && (#[trigger] s[i]).toplevel_handle != h ==> after_event(
                s,
                h,
                event,
                order,
            )[i] == s[i],
{
    let out = after_event(s, h, event, order);
    let i = index_of(s, h);
    assert forall|a: int, b: int| 0 <= a < b < out.len() implies (#[trigger] out[a]).toplevel_handle
        != (#[trigger] out[b]).toplevel_handle by {
        assert(out[a].toplevel_handle == s[a].toplevel_handle);
        assert(out[b].toplevel_handle == s[b].toplevel_handle);
    }
    assert(out[i].toplevel_handle == h);
    lemma_index_of(out, h, i);
}

/// `Closed` takes the window's record out of a table without duplicates: the
/// table does not know the handle afterwards, and what is published is the
/// removal of the record as it last was, where there was one.
pub proof fn lemma_closed(s: Seq<ToplevelView>, h: Handle, order: ByteOrder)
    requires
        distinct(s),
    ensures
        distinct(after_event(s, h, ToplevelHandleEventView::Closed, order)),
        !knows(after_event(s, h, ToplevelHandleEventView::Closed, order), h),
        count(after_event(s, h, ToplevelHandleEventView::Closed, order), h) == 0,
        published(s, h, ToplevelHandleEventView::Closed) == if knows(s, h) {
            Some(ToplevelEventView::Remove(record(s, h)))
        } else {
            None
        },
        forall|i: int|
            0 <= i < s.len() && (#[trigger] s[i]).toplevel_handle != h ==> after_event(
                s,
                h,
                ToplevelHandleEventView::Closed,
                order,
            ).contains(s[i]),
{
    let out = after_event(s, h, ToplevelHandleEventView::Closed, order);
    if knows(s, h) {
        let i = index_of(s, h);
        assert forall|a: int, b: int|
            0 <= a < b < out.len() implies (#[trigger] out[a]).toplevel_handle
            != (#[trigger] out[b]).toplevel_handle by {
            let a0 = if a < i { a } else { a + 1 };
            let b0 = if b < i { b } else { b + 1 };
            assert(out[a] == s[a0] && out[b] == s[b0]);
            assert(s[a0].toplevel_handle != s[b0].toplevel_handle);
        }
        assert forall|a: int| 0 <= a < out.len() implies (#[trigger] out[a]).toplevel_handle
            != h by {
            let a0 = if a < i { a } else { a + 1 };
            assert(out[a] == s[a0]);
            if a0 < i {
                assert(s[a0].toplevel_handle != s[i].toplevel_handle);
            } else {
                assert(s[i].toplevel_handle != s[a0].toplevel_handle);
            }
        }
        assert forall|k: int| 0 <= k < s.len() && (#[trigger] s[k]).toplevel_handle
            != h implies out.contains(s[k]) by {
            let k1 = if k < i { k } else { k - 1 };
            assert(out[k1] == s[k]);
        }
    } else {
        assert forall|k: int| 0 <= k < s.len() && (#[trigger] s[k]).toplevel_handle
            != h implies out.contains(s[k]) by {
            assert(out[k] == s[k]);
        }
    }
    lemma_count(out, h);
}

/// A record that went through a run of events holds, in each field, what the
/// last event that wrote the field gave it.
///
/// The event at the place `i` is such a last event for the title where it is
/// a title event and no title event follows; for the application id
/// likewise. It is one for the flags where its array decodes and no state
/// event with an array that decodes follows. It is one for the output, or the
/// workspace, where it is an enter event and neither an enter nor a leave
/// event of that kind follows.
pub proof fn lemma_replay_latest(
    r: ToplevelView,
    events: Seq<ToplevelHandleEventView>,
    order: ByteOrder,
    i: int,
)
    requires
        0 <= i < events.len(),
    ensures
        replay(r, events, order).toplevel_handle == r.toplevel_handle,
        events[i] is Title && none_later(events, i, |e: ToplevelHandleEventView| e is Title)
            ==> replay(r, events, order).name == events[i]->Title_0,
        events[i] is AppId && none_later(events, i, |e: ToplevelHandleEventView| e is AppId)
            ==> replay(r, events, order).app_id == events[i]->AppId_0,
        writes_states(events[i], order) && none_later(
            events,
            i,
            |e: ToplevelHandleEventView| writes_states(e, order),
        ) ==> Ok::<Seq<ToplevelState>, DecodeError>(replay(r, events, order).states)
            == toplevel_states_of(events[i]->State_0, order),
        events[i] is OutputEnter && none_later(
            events,
            i,
            |e: ToplevelHandleEventView| e is OutputEnter || e is OutputLeave,
        ) ==> replay(r, events, order).output == Some(events[i]->OutputEnter_0),
        events[i] is WorkspaceEnter && none_later(
            events,
            i,
            |e: ToplevelHandleEventView| e is WorkspaceEnter || e is WorkspaceLeave,
        ) ==> replay(r, events, order).workspace == Some(events[i]->WorkspaceEnter_0),
    decreases events.len(),
{
    let init = events.drop_last();
    let last = events.last();
    lemma_replay_handle(r, events, order);
    if i < events.len() - 1 {
        assert(init[i] == events[i]);
        lemma_replay_latest(r, init, order, i);
        assert(last == events[events.len() - 1]);
        let title = |e: ToplevelHandleEventView| e is Title;
        let app_id = |e: ToplevelHandleEventView| e is AppId;
        let states = |e: ToplevelHandleEventView| writes_states(e, order);
        let output = |e: ToplevelHandleEventView| e is OutputEnter || e is OutputLeave;
        let workspace = |e: ToplevelHandleEventView| e is WorkspaceEnter || e is WorkspaceLeave;
        if none_later(events, i, title) {
            assert(!title(events[events.len() - 1]));
            assert forall|j: int| i < j < init.len() implies !title(#[trigger] init[j]) by {
                assert(init[j] == events[j]);
            }
        }
        if none_later(events, i, app_id) {
            assert(!app_id(events[events.len() - 1]));
            assert forall|j: int| i < j < init.len() implies !app_id(#[trigger] init[j]) by {
                assert(init[j] == events[j]);
            }
        }
        if none_later(events, i, states) {
            assert(!states(events[events.len() - 1]));
            assert forall|j: int| i < j < init.len() implies !states(#[trigger] init[j]) by {
                assert(init[j] == events[j]);
            }
        }
        if none_later(events, i, output) {
            assert(!output(events[events.len() - 1]));
            assert forall|j: int| i < j < init.len() implies !output(#[trigger] init[j]) by {
                assert(init[j] == events[j]);
            }
        }
        if none_later(events, i, workspace) {
            assert(!workspace(events[events.len() - 1]));
            assert forall|j: int| i < j < init.len() implies !workspace(#[trigger] init[j]) by {
                assert(init[j] == events[j]);
            }
        }
    }
}

/// A run of events leaves the record's handle as it was.
pub proof fn lemma_replay_handle(
    r: ToplevelView,
    events: Seq<ToplevelHandleEventView>,
    order: ByteOrder,
)
    ensures
        replay(r, events, order).toplevel_handle == r.toplevel_handle,
    decreases events.len(),
{
    if events.len() > 0 {
        lemma_replay_handle(r, events.drop_last(), order);
    }
}

impl Toplevel {
    /// The record of a window of which nothing is known yet.
    pub fn new(handle: Handle) -> (t: Toplevel)
        ensures
            t@ == ToplevelView::empty(handle),
    {
        Toplevel {
            name: String::new(),
            app_id: String::new(),
            toplevel_handle: handle,
            states: Vec::new(),
            output: None,
            workspace: None,
        }
    }

    /// A copy of the record.
    pub fn snapshot(&self) -> (t: Toplevel)
        ensures
            t@ == self@,
    {
        let mut states: Vec<ToplevelState> = Vec::new();
        let mut i: usize = 0;
        while i < self.states.len()
            invariant
                0 <= i <= self.states@.len(),
                states@ == self.states@.subrange(0, i as int),
            decreases self.states@.len() - i,
        {
            states.push(self.states[i]);
            assert(states@ =~= self.states@.subrange(0, i + 1));
            i = i + 1;
        }
        assert(states@ =~= self.states@);
        Toplevel {
            name: self.name.clone(),
            app_id: self.app_id.clone(),
            toplevel_handle: self.toplevel_handle,
            states,
            output: self.output,
            workspace: self.workspace,
        }
    }
}

/// Looks the handle up in a table of windows.
pub fn find_toplevel(v: &Vec<Toplevel>, h: Handle) -> (r: Option<usize>)
    ensures
        match r {
            Some(i) => i < v@.len() && v@[i as int].toplevel_handle == h && forall|j: int|
                0 <= j < i ==> (#[trigger] v@[j]).toplevel_handle != h,
            None => forall|j: int| 0 <= j < v@.len() ==> (#[trigger] v@[j]).toplevel_handle != h,
        },
        r is Some <==> knows(views(v@), h),
{
    let mut i: usize = 0;
    while i < v.len()
        invariant
            0 <= i <= v@.len(),
            forall|j: int| 0 <= j < i ==> (#[trigger] v@[j]).toplevel_handle != h,
        decreases v@.len() - i,
    {
        if v[i].toplevel_handle == h {
            assert(views(v@)[i as int].toplevel_handle == h);
            return Some(i);
        }
        i = i + 1;
    }
    assert forall|j: int| 0 <= j < views(v@).len() implies (#[trigger] views(
        v@,
    )[j]).toplevel_handle != h by {
        assert(v@[j].toplevel_handle != h);
    }
    None
}

/// The view of what a window event returns.
pub open spec fn outcome_view(r: Result<Option<ToplevelEvent>, DecodeError>) -> Result<
    Option<ToplevelEventView>,
    DecodeError,
> {
    match r {
        Ok(Some(e)) => Ok(Some(e@)),
        Ok(None) => Ok(None),
        Err(e) => Err(e),
    }
}

/// What an event addressed to the window `h` returns: the decoding error that
/// it met, or else what it publishes.
pub open spec fn outcome(
    s: Seq<ToplevelView>,
    h: Handle,
    event: ToplevelHandleEventView,
    order: ByteOrder,
) -> Result<Option<ToplevelEventView>, DecodeError> {
    match rejected(s, h, event, order) {
        Some(e) => Err(e),
        None => Ok(published(s, h, event)),
    }
}

/// Takes a window announcement into a table of windows.
pub(crate) fn announce(v: &mut Vec<Toplevel>, h: Handle)
    requires
        distinct(views(old(v)@)),
    ensures
        views(final(v)@) == announced(views(old(v)@), h),
        distinct(views(final(v)@)),
{
    if find_toplevel(v, h).is_none() {
        v.push(Toplevel::new(h));
        assert(views(v@) =~= views(old(v)@).push(ToplevelView::empty(h)));
    }
    proof {
        lemma_announced(views(old(v)@), h);
    }
}

/// Takes an event addressed to the window `handle` into a table of windows,
/// and returns what the event publishes.
pub(crate) fn apply_event(
    v: &mut Vec<Toplevel>,
    handle: Handle,
    event: ToplevelHandleEvent,
    order: ByteOrder,
) -> (r: Result<Option<ToplevelEvent>, DecodeError>)
    requires
        distinct(views(old(v)@)),
    ensures
        views(final(v)@) == after_event(views(old(v)@), handle, event@, order),
        outcome_view(r) == outcome(views(old(v)@), handle, event@, order),
        distinct(views(final(v)@)),
{
    let ghost before = views(v@);
    let ghost ev = event@;
    let i: usize = match find_toplevel(v, handle) {
        Some(i) => i,
        None => {
            assert(after_event(before, handle, ev, order) =~= before);
            return Ok(None);
        },
    };
    proof {
        assert(before[i as int].toplevel_handle == handle);
        lemma_index_of(before, handle, i as int);
    }
    let mut failure: Option<DecodeError> = None;
    let mut publish: Option<ToplevelEvent> = None;
    match event {
        ToplevelHandleEvent::Closed => {
            let removed: Toplevel = v.remove(i);
            assert(views(v@) =~= before.remove(i as int));
            publish = Some(ToplevelEvent::Remove(removed));
        },
        ToplevelHandleEvent::Done => {
            publish = Some(ToplevelEvent::Add(v[i].snapshot()));
        },
        ToplevelHandleEvent::Title(title) => {
            v[i].name = title;
        },
        ToplevelHandleEvent::AppId(app_id) => {
            v[i].app_id = app_id;
        },
        ToplevelHandleEvent::OutputEnter(output) => {
            v[i].output = Some(output);
        },
        ToplevelHandleEvent::OutputLeave(output) => {
            if names(&v[i].output, output) {
                v[i].output = None;
            }
        },
        ToplevelHandleEvent::WorkspaceEnter(workspace) => {
            v[i].workspace = Some(workspace);
        },
        ToplevelHandleEvent::WorkspaceLeave(workspace) => {
            if names(&v[i].workspace, workspace) {
                v[i].workspace = None;
            }
        },
        ToplevelHandleEvent::State(bytes) => {
            match decode_toplevel_states(bytes.as_slice(), order) {
                Ok(states) => {
                    v[i].states = states;
                },
                Err(e) => {
                    failure = Some(e);
                },
            }
        },
        ToplevelHandleEvent::Other => {},
    }
    proof {
        let after = views(v@);
        if !(ev is Closed) {
            assert(after.len() == before.len());
            assert forall|j: int|
                0 <= j < before.len() implies after[j] == (if before[j].toplevel_handle
                == handle {
                before[j].updated(ev, order)
            } else {
                before[j]
            }) by {
                if j != i {
                    if j < i {
                        assert(before[j].toplevel_handle != before[i as int].toplevel_handle);
                    } else {
                        assert(before[i as int].toplevel_handle != before[j].toplevel_handle);
                    }
                }
            }
            assert(after =~= after_event(before, handle, ev, order));
        }
        assert(distinct(after)) by {
            assert forall|a: int, b: int|
                0 <= a < b < after.len() implies (#[trigger] after[a]).toplevel_handle
                != (#[trigger] after[b]).toplevel_handle by {
                if ev is Closed {
                    let a0 = if a < i { a } else { a + 1 };
                    let b0 = if b < i { b } else { b + 1 };
                    assert(after[a] == before[a0]);
                    assert(after[b] == before[b0]);
                    assert(before[a0].toplevel_handle != before[b0].toplevel_handle);
                } else {
                    assert(after[a].toplevel_handle == before[a].toplevel_handle);
                    assert(after[b].toplevel_handle == before[b].toplevel_handle);
                }
            }
        }
    }
    match failure {
        Some(e) => Err(e),
        None => Ok(publish),
    }
}

} // verus!
