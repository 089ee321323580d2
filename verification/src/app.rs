//! The consumer of the committed windows: it keeps the list of windows that
//! can be searched, and answers the requests of the query front-end.
//!
//! A request is answered in steps, because the answer may need work that only
//! the caller can do. [`App::activate`] and [`App::quit`] return the effects
//! to carry out. [`App::search`] returns the windows that match together with
//! the entry file to read for each; [`App::respond`] takes what reading them
//! gave and returns the responses to send.
use vstd::prelude::*;
use crate::handle::Handle;
use crate::icon::{
    default_icon, default_icon_name, entry_path, file_views, find_entry, lemma_entry_path,
    resolve_icon, resolved_icon, DesktopFile, DesktopFileView,
};
use crate::search::{is_match, matches_query};
use crate::toplevel::{
    views, Toplevel, ToplevelAction, ToplevelEvent, ToplevelEventView, ToplevelView,
};

verus! {

/// A request of the query front-end.
#[derive(Debug, Clone, PartialEq, Eq)]
pub enum Request {
    /// Bring the window with this id to the front.
    Activate(u32),
    /// Close the window with this id.
    Quit(u32),
    /// List the windows that match this query.
    Search(String),
    /// Stop.
    Exit,
    /// Any other request.
    Other,
}

/// A request of the query front-end, as a mathematical value.
pub enum RequestView {
    Activate(u32),
    Quit(u32),
    Search(Seq<char>),
    Exit,
    Other,
}

impl View for Request {
    type V = RequestView;

    open spec fn view(&self) -> RequestView {
        match self {
            Request::Activate(id) => RequestView::Activate(*id),
            Request::Quit(id) => RequestView::Quit(*id),
            Request::Search(q) => RequestView::Search(q@),
            Request::Exit => RequestView::Exit,
            Request::Other => RequestView::Other,
        }
    }
}

/// Something for the caller to carry out.
#[derive(Debug, Clone, Copy, PartialEq, Eq, Structural)]
pub enum Effect {
    /// Toggle the visibility of the front-end that hosts the search.
    ToggleFrontend,
    /// Hand the command to the protocol state.
    Forward(ToplevelAction),
}

/// One window that matches a query.
#[derive(Debug, Clone, PartialEq, Eq)]
pub struct SearchHit {
    pub id: u32,
    pub app_id: String,
    pub title: String,
    /// The path of the window's desktop entry, if it has one.
    pub entry: Option<String>,
}

/// One window that matches a query, as a mathematical value.
pub struct SearchHitView {
    pub id: u32,
    pub app_id: Seq<char>,
    pub title: Seq<char>,
    pub entry: Option<Seq<char>>,
}

impl View for SearchHit {
    type V = SearchHitView;

    open spec fn view(&self) -> SearchHitView {
        SearchHitView {
            id: self.id,
            app_id: self.app_id@,
            title: self.title@,
            entry: match self.entry {
                Some(p) => Some(p@),
                None => None,
            },
        }
    }
}

/// One line of the answer to a search.
#[derive(Debug, Clone, PartialEq, Eq)]
pub struct SearchResult {
    pub id: u32,
    /// The short name: the window's application id.
    pub name: String,
    /// The description: the window's title.
    pub description: String,
    /// The name of the icon.
    pub icon: String,
}

/// One line of the answer to a search, as a mathematical value.
pub struct SearchResultView {
    pub id: u32,
    pub name: Seq<char>,
    pub description: Seq<char>,
    pub icon: Seq<char>,
}

impl View for SearchResult {
    type V = SearchResultView;

    open spec fn view(&self) -> SearchResultView {
        SearchResultView {
            id: self.id,
            name: self.name@,
            description: self.description@,
            icon: self.icon@,
        }
    }
}

/// A response to the query front-end.
#[derive(Debug, Clone, PartialEq, Eq)]
pub enum Response {
    Append(SearchResult),
    /// The answer to a search is complete.
    Finished,
}

/// A response to the query front-end, as a mathematical value.
pub enum ResponseView {
    Append(SearchResultView),
    Finished,
}

impl View for Response {
    type V = ResponseView;

    open spec fn view(&self) -> ResponseView {
        match self {
            Response::Append(r) => ResponseView::Append(r@),
            Response::Finished => ResponseView::Finished,
        }
    }
}

/// The hits of a list, as mathematical values.
pub open spec fn hit_views(v: Seq<SearchHit>) -> Seq<SearchHitView> {
    Seq::new(v.len(), |i: int| v[i]@)
}

/// The responses of a list, as mathematical values.
pub open spec fn response_views(v: Seq<Response>) -> Seq<ResponseView> {
    Seq::new(v.len(), |i: int| v[i]@)
}

/// What answering a request takes.
#[derive(Debug, Clone, PartialEq, Eq)]
pub enum Step {
    /// Carry out these effects, in their order.
    Act(Vec<Effect>),
    /// Read the entry file of each of these hits, then hand what was read to
    /// [`App::respond`].
    Lookup(Vec<SearchHit>),
    /// Stop.
    Exit,
}

/// What answering a request takes, as a mathematical value.
pub enum StepView {
    Act(Seq<Effect>),
    Lookup(Seq<SearchHitView>),
    Exit,
}

impl View for Step {
    type V = StepView;

    open spec fn view(&self) -> StepView {
        match self {
            Step::Act(effects) => StepView::Act(effects@),
            Step::Lookup(hits) => StepView::Lookup(hit_views(hits@)),
            Step::Exit => StepView::Exit,
        }
    }
}

/// What reading the entry files gave, as mathematical values.
pub open spec fn content_views(v: Seq<Option<String>>) -> Seq<Option<Seq<char>>> {
    Seq::new(
        v.len(),
        |i: int|
            match v[i] {
                Some(s) => Some(s@),
                None => None,
            },
    )
}

/// The test that a window belongs to another handle than `h`.
pub open spec fn is_other(h: Handle) -> spec_fn(ToplevelView) -> bool {
    |t: ToplevelView| t.toplevel_handle != h
}

/// The windows of the list that belong to another handle than `h`, in their
/// order.
pub open spec fn others(s: Seq<ToplevelView>, h: Handle) -> Seq<ToplevelView> {
    s.filter(is_other(h))
}

/// The handle of the first window of the list whose numeric id is `id`.
pub open spec fn resolve(s: Seq<ToplevelView>, id: u32) -> Option<Handle>
    decreases s.len(),
{
    if s.len() == 0 {
        None
    } else if s[0].toplevel_handle.id == id {
        Some(s[0].toplevel_handle)
    } else {
        resolve(s.drop_first(), id)
    }
}

/// The test that a window answers the query.
pub open spec fn answers(query: Seq<char>) -> spec_fn(ToplevelView) -> bool {
    |t: ToplevelView| is_match(query, t.app_id, t.name)
}

/// How a window shows as a hit: under its numeric id, with the path of the
/// first entry file whose stem is its application id.
pub open spec fn hit_for(entries: Seq<DesktopFileView>) -> spec_fn(ToplevelView) -> SearchHitView {
    |t: ToplevelView|
        SearchHitView {
            id: t.toplevel_handle.id,
            app_id: t.app_id,
            title: t.name,
            entry: entry_path(entries, t.app_id),
        }
}

/// The line of the answer for a hit, given what reading its entry file gave.
pub open spec fn result_for(hit: SearchHitView, contents: Option<Seq<char>>) -> SearchResultView {
    SearchResultView {
        id: hit.id,
        name: hit.app_id,
        description: hit.title,
        icon: match hit.entry {
            Some(path) => resolved_icon(path, contents),
            None => default_icon(),
        },
    }
}

/// The contents read for the `i`-th hit; nothing where the list is too short.
pub open spec fn contents_at(contents: Seq<Option<Seq<char>>>, i: int) -> Option<Seq<char>> {
    if 0 <= i < contents.len() {
        contents[i]
    } else {
        None
    }
}

/// The answer to a search: one line for each hit, in the hits' order, and
/// then the mark that the answer is complete.
pub open spec fn responses(hits: Seq<SearchHitView>, contents: Seq<Option<Seq<char>>>) -> Seq<
    ResponseView,
> {
    Seq::new(
        hits.len() + 1,
        |i: int|
            if i < hits.len() {
                ResponseView::Append(result_for(hits[i], contents_at(contents, i)))
            } else {
                ResponseView::Finished
            },
    )
}

/// The state of the consumer, as a mathematical value.
pub struct AppView {
    pub desktop_entries: Seq<DesktopFileView>,
    pub ids_to_ignore: Seq<u32>,
    pub toplevels: Seq<ToplevelView>,
}

impl AppView {
    /// The state before any window was committed.
    pub open spec fn initial(desktop_entries: Seq<DesktopFileView>) -> AppView {
        AppView { desktop_entries, ids_to_ignore: Seq::empty(), toplevels: Seq::empty() }
    }

    /// The state after a committed change: an added window replaces the one
    /// listed under its handle, or joins the list at its end; a removed one
    /// leaves the list, and its numeric id is ignored from then on.
    pub open spec fn after_event(self, event: ToplevelEventView) -> AppView {
        match event {
            ToplevelEventView::Add(t) => AppView {
                toplevels: others(self.toplevels, t.toplevel_handle).push(t),
                ..self
            },
            ToplevelEventView::Remove(t) => AppView {
                toplevels: others(self.toplevels, t.toplevel_handle),
                ids_to_ignore: self.ids_to_ignore.push(t.toplevel_handle.id),
                ..self
            },
        }
    }

    /// The window that a request with this numeric id acts on: none while the
    /// id is ignored, else the first listed window with this id.
    pub open spec fn target(self, id: u32) -> Option<Handle> {
        if self.ids_to_ignore.contains(id) {
            None
        } else {
            resolve(self.toplevels, id)
        }
    }

    /// The effects of a request to activate: the front-end is toggled, then
    /// the activation is forwarded. Without a window to act on there is no
    /// effect.
    pub open spec fn activation(self, id: u32) -> Seq<Effect> {
        match self.target(id) {
            Some(h) => seq![Effect::ToggleFrontend, Effect::Forward(ToplevelAction::Activate(h))],
            None => Seq::empty(),
        }
    }

    /// The effects of a request to quit: the close is forwarded. Without a
    /// window to act on there is no effect.
    pub open spec fn closing(self, id: u32) -> Seq<Effect> {
        match self.target(id) {
            Some(h) => seq![Effect::Forward(ToplevelAction::Close(h))],
            None => Seq::empty(),
        }
    }

    /// The windows that answer a query, in the list's order, each as a hit.
    pub open spec fn hits(self, query: Seq<char>) -> Seq<SearchHitView> {
        self.toplevels.filter(answers(query)).map_values(hit_for(self.desktop_entries))
    }

    /// What answering a request takes: a request to activate or to quit its
    /// effects, a search its hits, a request to exit the end, and any other
    /// request nothing.
    pub open spec fn step_for(self, request: RequestView) -> StepView {
        match request {
            RequestView::Activate(id) => StepView::Act(self.activation(id)),
            RequestView::Quit(id) => StepView::Act(self.closing(id)),
            RequestView::Search(query) => StepView::Lookup(self.hits(query)),
            RequestView::Exit => StepView::Exit,
            RequestView::Other => StepView::Act(Seq::empty()),
        }
    }

    /// The state after a search was answered: no id is ignored any more.
    pub open spec fn after_search(self) -> AppView {
        AppView { ids_to_ignore: Seq::empty(), ..self }
    }
}

/// The state of the consumer.
#[derive(Debug, Clone, PartialEq, Eq)]
pub struct App {
    desktop_entries: Vec<DesktopFile>,
    ids_to_ignore: Vec<u32>,
    toplevels: Vec<Toplevel>,
}

impl View for App {
    type V = AppView;

    closed spec fn view(&self) -> AppView {
        AppView {
            desktop_entries: file_views(self.desktop_entries@),
            ids_to_ignore: self.ids_to_ignore@,
            toplevels: views(self.toplevels@),
        }
    }
}

/// Takes the windows of the handle `h` out of the list.
fn drop_handle(v: &mut Vec<Toplevel>, h: Handle)
    ensures
        views(final(v)@) == others(views(old(v)@), h),
{
    let ghost before = views(v@);
    let ghost n = before.len() as int;
    let ghost mut k: int = 0;
    let mut i: usize = 0;
    proof {
        reveal(Seq::filter);
        assert(before.subrange(0, 0) =~= Seq::empty());
        assert(views(v@).subrange(0, 0) =~= Seq::empty());
        assert(views(v@).subrange(0, n) =~= before.subrange(0, n));
    }
    while i < v.len()
        invariant
            n == before.len(),
            0 <= i <= v@.len(),
            0 <= k <= n,
            v@.len() - i == n - k,
            views(v@).subrange(0, i as int) == others(before.subrange(0, k), h),
            views(v@).subrange(i as int, v@.len() as int) == before.subrange(k, n),
        decreases v@.len() - i,
    {
        let ghost cur = views(v@);
        proof {
            reveal(Seq::filter);
            assert(cur[i as int] == cur.subrange(i as int, v@.len() as int)[0]);
            assert(cur[i as int] == before[k]);
            assert(before.subrange(0, k + 1).drop_last() =~= before.subrange(0, k));
            assert(before.subrange(0, k + 1).last() == before[k]);
        }
        if v[i].toplevel_handle == h {
            let _ = v.remove(i);
            proof {
                let now = views(v@);
                assert(now =~= cur.remove(i as int));
                assert(now.subrange(0, i as int) =~= cur.subrange(0, i as int));
                assert(now.subrange(i as int, v@.len() as int) =~= before.subrange(k + 1, n)) by {
                    assert forall|j: int| 0 <= j < v@.len() - i implies #[trigger] now.subrange(
                        i as int,
                        v@.len() as int,
                    )[j] == before.subrange(k + 1, n)[j] by {
                        assert(now[i + j] == cur[i + j + 1]);
                        assert(cur[i + j + 1] == cur.subrange(i as int, cur.len() as int)[j + 1]);
                    }
                }
                k = k + 1;
            }
        } else {
            proof {
                assert(cur.subrange(0, i + 1) =~= cur.subrange(0, i as int).push(cur[i as int]));
                assert(cur.subrange(i + 1, v@.len() as int) =~= before.subrange(k + 1, n)) by {
                    assert forall|j: int| 0 <= j < v@.len() - i - 1 implies #[trigger] cur.subrange(
                        i + 1,
                        v@.len() as int,
                    )[j] == before.subrange(k + 1, n)[j] by {
                        assert(cur[i + 1 + j] == cur.subrange(i as int, cur.len() as int)[j + 1]);
                    }
                }
                k = k + 1;
            }
            i = i + 1;
        }
    }
    proof {
        assert(views(v@).subrange(0, i as int) =~= views(v@));
        assert(before.subrange(0, k) =~= before);
    }
}

/// Whether the list holds the id.
fn holds_id(ids: &Vec<u32>, id: u32) -> (r: bool)
    ensures
        r == ids@.contains(id),
{
    let mut i: usize = 0;
    while i < ids.len()
        invariant
            0 <= i <= ids@.len(),
            forall|j: int| 0 <= j < i ==> ids@[j] != id,
        decreases ids@.len() - i,
    {
        if ids[i] == id {
            return true;
        }
        i = i + 1;
    }
    false
}

/// The handle of the first window of the list whose numeric id is `id`.
fn resolve_id(v: &Vec<Toplevel>, id: u32) -> (r: Option<Handle>)
    ensures
        r == resolve(views(v@), id),
{
    let ghost all = views(v@);
    let mut i: usize = 0;
    assert(all.subrange(0, all.len() as int) =~= all);
    while i < v.len()
        invariant
            0 <= i <= v@.len(),
            all == views(v@),
            resolve(all, id) == resolve(all.subrange(i as int, all.len() as int), id),
        decreases v@.len() - i,
    {
        let ghost rest = all.subrange(i as int, all.len() as int);
        assert(rest[0] == all[i as int]);
        assert(rest.drop_first() =~= all.subrange(i + 1, all.len() as int));
        if v[i].toplevel_handle.protocol_id() == id {
            return Some(v[i].toplevel_handle);
        }
        i = i + 1;
    }
    None
}

impl App {
    /// The state before any window was committed. `desktop_entries` lists
    /// the entry files in the order in which they are searched.
    pub fn new(desktop_entries: Vec<DesktopFile>) -> (app: App)
        ensures
            app@ == AppView::initial(file_views(desktop_entries@)),
    {
        let app = App { desktop_entries, ids_to_ignore: Vec::new(), toplevels: Vec::new() };
        assert(app@.toplevels =~= Seq::empty());
        app
    }

    /// Takes a committed change of the set of windows.
    pub fn toplevel_event(&mut self, event: ToplevelEvent)
        ensures
            final(self)@ == old(self)@.after_event(event@),
    {
        match event {
            ToplevelEvent::Add(t) => {
                drop_handle(&mut self.toplevels, t.toplevel_handle);
                let ghost kept = views(self.toplevels@);
                self.toplevels.push(t);
                assert(views(self.toplevels@) =~= kept.push(t@));
            },
            ToplevelEvent::Remove(t) => {
                drop_handle(&mut self.toplevels, t.toplevel_handle);
                self.ids_to_ignore.push(t.toplevel_handle.protocol_id());
            },
        }
    }

    /// The window that a request with this numeric id acts on.
    pub fn target(&self, id: u32) -> (r: Option<Handle>)
        ensures
            r == self@.target(id),
    {
        if holds_id(&self.ids_to_ignore, id) {
            None
        } else {
            resolve_id(&self.toplevels, id)
        }
    }

    /// Answers a request to activate the window with this numeric id: returns
    /// the effects to carry out, in their order.
    pub fn activate(&self, id: u32) -> (effects: Vec<Effect>)
        ensures
            effects@ == self@.activation(id),
    {
        let mut effects: Vec<Effect> = Vec::new();
        if let Some(h) = self.target(id) {
            effects.push(Effect::ToggleFrontend);
            effects.push(Effect::Forward(ToplevelAction::Activate(h)));
        }
        assert(effects@ =~= self@.activation(id));
        effects
    }

    /// Answers a request to close the window with this numeric id: returns
    /// the effects to carry out.
    pub fn quit(&self, id: u32) -> (effects: Vec<Effect>)
        ensures
            effects@ == self@.closing(id),
    {
        let mut effects: Vec<Effect> = Vec::new();
        if let Some(h) = self.target(id) {
            effects.push(Effect::Forward(ToplevelAction::Close(h)));
        }
        assert(effects@ =~= self@.closing(id));
        effects
    }

    /// Begins the answer to a search: returns the windows that match the
    /// query, in the list's order, each with the path of the entry file to
    /// read for its icon.
    pub fn search(&self, query: &str) -> (hits: Vec<SearchHit>)
        ensures
            hit_views(hits@) == self@.hits(query@),
    {
        let ghost all = views(self.toplevels@);
        let ghost entries = file_views(self.desktop_entries@);
        let mut hits: Vec<SearchHit> = Vec::new();
        let mut i: usize = 0;
        proof {
            reveal(Seq::filter);
            assert(all.subrange(0, 0) =~= Seq::empty());
            assert(hit_views(hits@) =~= all.subrange(0, 0).filter(answers(query@)).map_values(
                hit_for(entries),
            ));
        }
        while i < self.toplevels.len()
            invariant
                0 <= i <= self.toplevels@.len(),
                all == views(self.toplevels@),
                entries == file_views(self.desktop_entries@),
                hit_views(hits@) == all.subrange(0, i as int).filter(answers(query@)).map_values(
                    hit_for(entries),
                ),
            decreases self.toplevels@.len() - i,
        {
            let ghost found = all.subrange(0, i as int).filter(answers(query@));
            proof {
                reveal(Seq::filter);
                assert(all.subrange(0, i + 1).drop_last() =~= all.subrange(0, i as int));
                assert(all.subrange(0, i + 1).last() == all[i as int]);
            }
            let t: &Toplevel = &self.toplevels[i];
            if matches_query(query, t.app_id.as_str(), t.name.as_str()) {
                let entry: Option<String> = match find_entry(
                    &self.desktop_entries,
                    t.app_id.as_str(),
                ) {
                    Some(e) => Some(self.desktop_entries[e].path.clone()),
                    None => None,
                };
                proof {
                    lemma_entry_path(entries, t@.app_id);
                }
                let ghost shown = hit_views(hits@);
                hits.push(
                    SearchHit {
                        id: t.toplevel_handle.protocol_id(),
                        app_id: t.app_id.clone(),
                        title: t.name.clone(),
                        entry,
                    },
                );
                proof {
                    assert(hit_views(hits@) =~= shown.push(hit_for(entries)(all[i as int])));
                    assert(found.push(all[i as int]).map_values(hit_for(entries))
                        =~= found.map_values(hit_for(entries)).push(
                        hit_for(entries)(all[i as int]),
                    ));
                }
            }
            i = i + 1;
        }
        assert(all.subrange(0, i as int) =~= all);
        hits
    }

    /// Completes the answer to a search: returns one line for each hit, with
    /// the icon that its entry file declares, and then the mark that the
    /// answer is complete. `contents` holds, for each hit in turn, what
    /// reading its entry file gave. From now on no id is ignored.
    pub fn respond(&mut self, hits: &Vec<SearchHit>, contents: &Vec<Option<String>>) -> (out: Vec<
        Response,
    >)
        ensures
            response_views(out@) == responses(hit_views(hits@), content_views(contents@)),
            final(self)@ == old(self)@.after_search(),
    {
        let ghost want = responses(hit_views(hits@), content_views(contents@));
        let mut out: Vec<Response> = Vec::new();
        let mut i: usize = 0;
        while i < hits.len()
            invariant
                0 <= i <= hits@.len(),
                want == responses(hit_views(hits@), content_views(contents@)),
                out@.len() == i,
                forall|j: int| 0 <= j < i ==> (#[trigger] out@[j])@ == want[j],
            decreases hits@.len() - i,
        {
            let hit: &SearchHit = &hits[i];
            let icon: String = match &hit.entry {
                Some(path) => {
                    if i < contents.len() {
                        match &contents[i] {
                            Some(data) => resolve_icon(path.as_str(), Some(data.as_str())),
                            None => resolve_icon(path.as_str(), None),
                        }
                    } else {
                        resolve_icon(path.as_str(), None)
                    }
                },
                None => default_icon_name(),
            };
            out.push(
                Response::Append(
                    SearchResult {
                        id: hit.id,
                        name: hit.app_id.clone(),
                        description: hit.title.clone(),
                        icon,
                    },
                ),
            );
            i = i + 1;
        }
        out.push(Response::Finished);
        assert(response_views(out@) =~= want);
        self.ids_to_ignore = Vec::new();
        out
    }

    /// Tells what answering a request takes.
    pub fn request(&self, request: &Request) -> (step: Step)
        ensures
            step@ == self@.step_for(request@),
    {
        match request {
            Request::Activate(id) => Step::Act(self.activate(*id)),
            Request::Quit(id) => Step::Act(self.quit(*id)),
            Request::Search(query) => Step::Lookup(self.search(query.as_str())),
            Request::Exit => Step::Exit,
            Request::Other => Step::Act(Vec::new()),
        }
    }
}

impl App {
    /// The windows that can be searched, in the order of their last commit.
    pub fn toplevels(&self) -> (r: &Vec<Toplevel>)
        ensures
            views(r@) == self@.toplevels,
    {
        &self.toplevels
    }

    /// The numeric ids that requests do not act on for now.
    pub fn ids_to_ignore(&self) -> (r: &Vec<u32>)
        ensures
            r@ == self@.ids_to_ignore,
    {
        &self.ids_to_ignore
    }

    /// The entry files, in the order in which they are searched.
    pub fn desktop_entries(&self) -> (r: &Vec<DesktopFile>)
        ensures
            file_views(r@) == self@.desktop_entries,
    {
        &self.desktop_entries
    }
}

/// A filter whose test every item of the list meets keeps the whole list.
proof fn lemma_filter_keeps_all(s: Seq<ToplevelView>, test: spec_fn(ToplevelView) -> bool)
    requires
        forall|i: int| 0 <= i < s.len() ==> test(#[trigger] s[i]),
    ensures
        s.filter(test) == s,
    decreases s.len(),
{
    reveal(Seq::filter);
    if s.len() > 0 {
        let init = s.drop_last();
        assert forall|i: int| 0 <= i < init.len() implies test(#[trigger] init[i]) by {
            assert(init[i] == s[i]);
        }
        lemma_filter_keeps_all(init, test);
        assert(test(s[s.len() - 1]));
        assert(init.push(s.last()) =~= s);
    }
}

/// [`resolve`] gives the handle of a listed window with the numeric id, and
/// gives none only where no listed window has the id.
pub proof fn lemma_resolve(s: Seq<ToplevelView>, id: u32)
    ensures
        match resolve(s, id) {
            Some(h) => h.id == id && exists|i: int|
                0 <= i < s.len() && (#[trigger] s[i]).toplevel_handle == h,
            None => forall|i: int| 0 <= i < s.len() ==> (#[trigger] s[i]).toplevel_handle.id != id,
        },
    decreases s.len(),
{
    if s.len() > 0 {
        let rest = s.drop_first();
        lemma_resolve(rest, id);
        if s[0].toplevel_handle.id != id {
            match resolve(rest, id) {
                Some(h) => {
                    let i = choose|i: int|
                        0 <= i < rest.len() && (#[trigger] rest[i]).toplevel_handle == h;
                    assert(s[i + 1] == rest[i]);
                },
                None => {
                    assert forall|i: int|
                        0 <= i < s.len() implies (#[trigger] s[i]).toplevel_handle.id
                        != id by {
                        if i > 0 {
                            assert(s[i] == rest[i - 1]);
                        }
                    }
                },
            }
        }
    }
}

/// The hit shows a listed window that answers the query.
pub open spec fn shows_an_answer(a: AppView, query: Seq<char>, hit: SearchHitView) -> bool {
    exists|i: int|
        0 <= i < a.toplevels.len() && is_match(
            query,
            (#[trigger] a.toplevels[i]).app_id,
            a.toplevels[i].name,
        ) && hit == hit_for(a.desktop_entries)(a.toplevels[i])
}

/// The hits of a query are the listed windows that answer it: every hit stands
/// for such a window, and every such window has its hit.
pub proof fn lemma_hits_are_the_answers(a: AppView, query: Seq<char>)
    ensures
        forall|k: int|
            0 <= k < a.hits(query).len() ==> shows_an_answer(a, query, #[trigger] a.hits(query)[k]),
        forall|i: int|
            0 <= i < a.toplevels.len() && is_match(
                query,
                (#[trigger] a.toplevels[i]).app_id,
                a.toplevels[i].name,
            ) ==> a.hits(query).contains(hit_for(a.desktop_entries)(a.toplevels[i])),
        a.hits(query).len() <= a.toplevels.len(),
{
    let kept = a.toplevels.filter(answers(query));
    let hits = a.hits(query);
    a.toplevels.lemma_filter_len(answers(query));
    assert forall|k: int|
        0 <= k < hits.len() implies shows_an_answer(a, query, #[trigger] hits[k]) by {
        a.toplevels.lemma_filter_pred(answers(query), k);
        assert(kept.contains(kept[k]));
        a.toplevels.lemma_filter_contains_rev(answers(query), kept[k]);
        let i = choose|i: int| 0 <= i < a.toplevels.len() && a.toplevels[i] == kept[k];
        assert(answers(query)(a.toplevels[i]));
    }
    assert forall|i: int|
        0 <= i < a.toplevels.len() && is_match(
            query,
            (#[trigger] a.toplevels[i]).app_id,
            a.toplevels[i].name,
        ) implies hits.contains(hit_for(a.desktop_entries)(a.toplevels[i])) by {
        assert(answers(query)(a.toplevels[i]));
        a.toplevels.lemma_filter_contains(answers(query), i);
        let k = choose|k: int| 0 <= k < kept.len() && kept[k] == a.toplevels[i];
        assert(hits[k] == hit_for(a.desktop_entries)(kept[k]));
    }
}

/// The empty query lists every window: the answer has one line for each
/// listed window, in the list's order, and then the mark that it is complete.
pub proof fn lemma_empty_query_lists_all(a: AppView, contents: Seq<Option<Seq<char>>>)
    ensures
        a.hits(Seq::empty()) == a.toplevels.map_values(hit_for(a.desktop_entries)),
        responses(a.hits(Seq::empty()), contents).len() == a.toplevels.len() + 1,
        forall|i: int|
            0 <= i < a.toplevels.len() ==> #[trigger] responses(a.hits(Seq::empty()), contents)[i]
                == ResponseView::Append(
                result_for(hit_for(a.desktop_entries)(a.toplevels[i]), contents_at(contents, i)),
            ),
        responses(a.hits(Seq::empty()), contents).last() == ResponseView::Finished,
{
    let query = Seq::<char>::empty();
    assert forall|i: int| 0 <= i < a.toplevels.len() implies answers(query)(
        #[trigger] a.toplevels[i],
    ) by {}
    lemma_filter_keeps_all(a.toplevels, answers(query));
}

/// However many hits there are, the answer to a search ends with the mark
/// that it is complete, and holds it nowhere else.
pub proof fn lemma_answer_ends_once(hits: Seq<SearchHitView>, contents: Seq<Option<Seq<char>>>)
    ensures
        responses(hits, contents).len() == hits.len() + 1,
        responses(hits, contents).last() == ResponseView::Finished,
        forall|i: int| 0 <= i < hits.len() ==> #[trigger] responses(hits, contents)[i] is Append,
{
}

/// A numeric id that is ignored has no effect: neither a request to activate
/// it nor one to quit it does anything. The id of a window that was just
/// removed is ignored. Once a search was answered no id is ignored, and a
/// request acts on the first listed window with its id again.
pub proof fn lemma_ignored_until_search(a: AppView, removed: ToplevelView, id: u32)
    ensures
        a.ids_to_ignore.contains(id) ==> a.activation(id) == Seq::<Effect>::empty() && a.closing(
            id,
        ) == Seq::<Effect>::empty(),
        a.after_event(ToplevelEventView::Remove(removed)).ids_to_ignore.contains(
            removed.toplevel_handle.id,
        ),
        a.after_event(ToplevelEventView::Remove(removed)).activation(removed.toplevel_handle.id)
            == Seq::<Effect>::empty(),
        a.after_search().toplevels == a.toplevels,
        a.after_search().target(id) == resolve(a.toplevels, id),
        a.after_search().activation(id) == match resolve(a.toplevels, id) {
            Some(h) => seq![Effect::ToggleFrontend, Effect::Forward(ToplevelAction::Activate(h))],
            None => Seq::empty(),
        },
{
    let after = a.after_event(ToplevelEventView::Remove(removed));
    assert(after.ids_to_ignore[a.ids_to_ignore.len() as int] == removed.toplevel_handle.id);
}

/// After a committed change the list holds the changed window's handle at
/// most once: an added window is the list's last, and no other listed window
/// has its handle; a removed window's handle is not listed at all. Windows of
/// other handles stay listed.
pub proof fn lemma_one_record_per_handle(a: AppView, t: ToplevelView)
    ensures
        ({
            let added = a.after_event(ToplevelEventView::Add(t)).toplevels;
            &&& added.len() > 0
            &&& added.last() == t
            &&& forall|i: int|
                0 <= i < added.len() - 1 ==> (#[trigger] added[i]).toplevel_handle
                    != t.toplevel_handle
        }),
        ({
            let removed = a.after_event(ToplevelEventView::Remove(t)).toplevels;
            forall|i: int|
                0 <= i < removed.len() ==> (#[trigger] removed[i]).toplevel_handle
                    != t.toplevel_handle
        }),
        forall|i: int|
            0 <= i < a.toplevels.len() && (#[trigger] a.toplevels[i]).toplevel_handle
                != t.toplevel_handle ==> others(a.toplevels, t.toplevel_handle).contains(
                a.toplevels[i],
            ),
{
    let kept = others(a.toplevels, t.toplevel_handle);
    assert forall|i: int| 0 <= i < kept.len() implies (#[trigger] kept[i]).toplevel_handle
        != t.toplevel_handle by {
        a.toplevels.lemma_filter_pred(is_other(t.toplevel_handle), i);
    }
    let added = a.after_event(ToplevelEventView::Add(t)).toplevels;
    assert forall|i: int| 0 <= i < added.len() - 1 implies (#[trigger] added[i]).toplevel_handle
        != t.toplevel_handle by {
        assert(added[i] == kept[i]);
    }
    assert forall|i: int|
        0 <= i < a.toplevels.len() && (#[trigger] a.toplevels[i]).toplevel_handle
            != t.toplevel_handle implies kept.contains(a.toplevels[i]) by {
        assert(is_other(t.toplevel_handle)(a.toplevels[i]));
        a.toplevels.lemma_filter_contains(is_other(t.toplevel_handle), i);
    }
}

} // verus!
