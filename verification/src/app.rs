//! The application state: panel flags, docking layout and file viewer, with
//! the operations that create, close, drain, restore and reset.

use crate::buffers::BufferStore;
use crate::buffers::Pair;
use crate::layout::all_titles;
use crate::layout::empty_layout;
use crate::layout::focus_leaf;
use crate::layout::is_empty_layout;
use crate::layout::layout_accepts_tabs;
use crate::layout::layout_focus;
use crate::layout::layout_titles;
use crate::layout::leaf_titles;
use crate::layout::main_surface;
use crate::layout::push_title;
use crate::layout::root_node;
use crate::layout::shows_title;
use crate::model::any_fails;
use crate::model::consistent;
use crate::model::fails;
use crate::model::first_unused;
use crate::model::lemma_first_unused_exhausted;
use crate::model::lemma_first_unused_found;
use crate::model::lemma_run_take_next;
use crate::model::run;
use crate::model::step;
use crate::model::Request;
use crate::model::TabState;
use crate::requests::FileViewer;
use crate::requests::RequestType;
use crate::titles::untitled;
use crate::titles::untitled_title;
use egui_dock::DockState;
use vstd::prelude::*;

verus! {

/// How many default titles the search for an unused one tries, starting at
/// `Untitled-1`. A layout that shows all of them takes no further untitled
/// tab.
pub const TITLE_SEARCH_LIMIT: u64 = 1_000_000;

/// Why a request could not be served.
#[derive(Clone, Copy, Debug, PartialEq, Eq, Structural)]
pub enum LifecycleError {
    /// Every default title within the search limit is shown in the layout.
    TitleAllocationExhaustion,
}

/// Which panels are shown.
#[derive(Clone, Copy, Debug, PartialEq, Eq, Structural)]
pub struct ShowPanel {
    pub top: bool,
    pub left: bool,
    pub right: bool,
    pub center: bool,
}

impl ShowPanel {
    /// All panels shown.
    pub fn all() -> (flags: ShowPanel)
        ensures
            flags == (ShowPanel { top: true, left: true, right: true, center: true }),
    {
        ShowPanel { top: true, left: true, right: true, center: true }
    }

    /// Shows the left side panel if it is hidden, and hides it if it is shown.
    pub fn toggle_left(&mut self)
        ensures
            *final(self) == (ShowPanel { left: !old(self).left, ..*old(self) }),
    {
        self.left = !self.left;
    }

    /// Shows the right side panel if it is hidden, and hides it if it is
    /// shown.
    pub fn toggle_right(&mut self)
        ensures
            *final(self) == (ShowPanel { right: !old(self).right, ..*old(self) }),
    {
        self.right = !self.right;
    }
}

/// What is kept between sessions: the panel flags, the layout and the
/// buffers. Waiting requests are never kept.
#[derive(Debug)]
pub struct PersistedState {
    pub show_panel: ShowPanel,
    pub tree: DockState<String>,
    pub buffers: BufferStore,
}

impl PersistedState {
    /// The buffers are well formed and the layout can take tabs.
    pub open spec fn wf(&self) -> bool {
        self.buffers.wf() && layout_accepts_tabs(self.tree)
    }

    /// The titles shown and the texts stored.
    pub open spec fn state(&self) -> TabState {
        TabState { titles: layout_titles(self.tree), buffers: self.buffers@ }
    }
}

/// The application state.
#[derive(Debug)]
pub struct Application {
    pub show_panel: ShowPanel,
    pub tree: DockState<String>,
    pub file_viewer: FileViewer,
}

/// The first default title, among the first `limit`, that the layout does not
/// show yet.
pub fn first_free_title(layout: &DockState<String>, limit: u64) -> (found: Result<String, LifecycleError>)
    ensures
        match found {
            Ok(title) => {
                &&& first_unused(layout_titles(*layout), limit as nat) matches Some(k) && title@ == untitled(k)
                &&& !layout_titles(*layout).contains(title@)
            },
            Err(e) => e == LifecycleError::TitleAllocationExhaustion && first_unused(
                layout_titles(*layout),
                limit as nat,
            ) is None,
        },
{
    let ghost titles = layout_titles(*layout);
    let mut k: u64 = 0;
    while k < limit
        invariant
            titles == layout_titles(*layout),
            k <= limit,
            forall|j: nat| 1 <= j <= k ==> titles.contains(#[trigger] untitled(j)),
        decreases limit - k,
    {
        k += 1;
        let title = untitled_title(k);
        if !shows_title(layout, &title) {
            proof {
                lemma_first_unused_found(titles, limit as nat, k as nat);
            }
            return Ok(title);
        }
    }
    proof {
        lemma_first_unused_exhausted(titles, limit as nat);
    }
    Err(LifecycleError::TitleAllocationExhaustion)
}

/// The title for the next untitled document: the first of `Untitled-1`,
/// `Untitled-2`, ... that the layout does not show. The search stops after
/// `TITLE_SEARCH_LIMIT` titles.
pub fn allocate_unique_title(layout: &DockState<String>) -> (found: Result<String, LifecycleError>)
    ensures
        match found {
            Ok(title) => {
                &&& first_unused(layout_titles(*layout), TITLE_SEARCH_LIMIT as nat) matches Some(k) && title@
                    == untitled(k)
                &&& !layout_titles(*layout).contains(title@)
            },
            Err(e) => e == LifecycleError::TitleAllocationExhaustion && first_unused(
                layout_titles(*layout),
                TITLE_SEARCH_LIMIT as nat,
            ) is None,
        },
{
    first_free_title(layout, TITLE_SEARCH_LIMIT)
}

/// Whether every title that the layout shows has a text in the store.
pub fn every_tab_has_buffer(layout: &DockState<String>, buffers: &BufferStore) -> (ok: bool)
    requires
        buffers.wf(),
    ensures
        ok == consistent(TabState { titles: layout_titles(*layout), buffers: buffers@ }),
{
    let titles = all_titles(layout);
    let ghost shown = titles@.map_values(|t: String| t@);
    let mut i: usize = 0;
    while i < titles.len()
        invariant
            buffers.wf(),
            shown == titles@.map_values(|t: String| t@),
            shown.to_multiset() == layout_titles(*layout),
            i <= titles.len(),
            forall|j: int| 0 <= j < i ==> buffers@.contains_key(#[trigger] shown[j]),
        decreases titles.len() - i,
    {
        if !buffers.contains(titles[i].as_str()) {
            proof {
                assert(shown[i as int] == titles[i as int]@);
                assert(shown.contains(shown[i as int]));
                shown.to_multiset_ensures();
                let s = TabState { titles: layout_titles(*layout), buffers: buffers@ };
                assert(s.titles.contains(shown[i as int]));
                assert(!s.buffers.contains_key(shown[i as int]));
            }
            return false;
        }
        assert(shown[i as int] == titles[i as int]@);
        i += 1;
    }
    proof {
        shown.to_multiset_ensures();
        assert forall|t: Seq<char>| layout_titles(*layout).contains(t) implies buffers@.contains_key(t) by {
            assert(shown.contains(t));
            let j = choose|j: int| 0 <= j < shown.len() && shown[j] == t;
            assert(buffers@.contains_key(shown[j]));
        }
    }
    true
}

/// Where a create request names a leaf, that leaf gains the new title at its
/// end and has the focus, and every other leaf is as it was.
pub open spec fn placed_where_asked(
    before: DockState<String>,
    after: DockState<String>,
    surface: int,
    node: int,
    title: Seq<char>,
) -> bool {
    leaf_titles(before, surface, node) matches Some(tabs) ==> {
        &&& leaf_titles(after, surface, node) == Some(tabs.push(title))
        &&& layout_focus(after) == Some((surface, node))
        &&& forall|s: int, n: int|
            (s, n) != (surface, node) ==> #[trigger] leaf_titles(after, s, n) == leaf_titles(before, s, n)
    }
}

/// What one request does to the layout. A create request that is served
/// adds the first unused default title, in the leaf that the request names
/// where it names one. Any other request leaves the layout as it is.
pub open spec fn layout_follows(before: DockState<String>, after: DockState<String>, r: Request, limit: nat) -> bool {
    match r {
        Request::CreateTab { surface, node } => match first_unused(layout_titles(before), limit) {
            Some(k) => {
                &&& layout_titles(after) == layout_titles(before).insert(untitled(k))
                &&& placed_where_asked(before, after, surface as int, node as int, untitled(k))
            },
            None => after == before,
        },
        Request::CloseTab { .. } => after == before,
    }
}

/// The layouts that a drain passes through: one before each request and one
/// after the last, each following from the one before it by the request
/// between them.
pub open spec fn layouts_follow(trace: Seq<DockState<String>>, queue: Seq<Request>, limit: nat) -> bool {
    &&& trace.len() == queue.len() + 1
    &&& forall|i: int|
        0 <= i < queue.len() ==> layout_follows(trace[i], trace[i + 1], #[trigger] queue[i], limit)
}

impl Default for Application {
    /// The state of a first start: all panels shown, no tab, no buffer, no
    /// waiting request.
    fn default() -> (app: Application)
        ensures
            app.wf(),
            app.is_fresh(),
    {
        Application { show_panel: ShowPanel::all(), tree: empty_layout(), file_viewer: FileViewer::new() }
    }
}

impl Application {
    /// The buffers are well formed and the layout can take tabs.
    pub open spec fn wf(&self) -> bool {
        self.file_viewer.wf() && layout_accepts_tabs(self.tree)
    }

    /// The titles shown and the texts stored.
    pub open spec fn state(&self) -> TabState {
        TabState { titles: layout_titles(self.tree), buffers: self.file_viewer.buffers@ }
    }

    /// The state of a first start: all panels shown, no tab, no buffer, no
    /// waiting request.
    pub open spec fn is_fresh(&self) -> bool {
        &&& self.show_panel == (ShowPanel { top: true, left: true, right: true, center: true })
        &&& is_empty_layout(self.tree)
        &&& self.file_viewer.buffers.pairs() == Seq::<Pair>::empty()
        &&& self.file_viewer.buffers@ == Map::<Seq<char>, Seq<char>>::empty()
        &&& self.file_viewer.queue() == Seq::<Request>::empty()
    }

    /// The state to start with, given what the last session left, if
    /// anything. What was kept is taken over as it is where every title of
    /// its layout has a text in its buffers. Where one has none, all of it
    /// is dropped and the state is that of a first start.
    pub fn new(persisted: Option<PersistedState>) -> (app: Application)
        requires
            persisted matches Some(kept) ==> kept.wf(),
        ensures
            app.wf(),
            app.file_viewer.queue() == Seq::<Request>::empty(),
            match persisted {
                Some(kept) => if consistent(kept.state()) {
                    &&& app.show_panel == kept.show_panel
                    &&& app.tree == kept.tree
                    &&& app.file_viewer.buffers == kept.buffers
                } else {
                    app.is_fresh()
                },
                None => app.is_fresh(),
            },
    {
        match persisted {
            Some(kept) => {
                if every_tab_has_buffer(&kept.tree, &kept.buffers) {
                    let requests: Vec<RequestType> = Vec::new();
                    let app = Application {
                        show_panel: kept.show_panel,
                        tree: kept.tree,
                        file_viewer: FileViewer { requests, buffers: kept.buffers },
                    };
                    assert(app.file_viewer.queue() =~= Seq::<Request>::empty());
                    app
                } else {
                    Application::default()
                }
            },
            None => Application::default(),
        }
    }

    /// Asks for a new untitled document at the root of the main surface. The
    /// request waits for the next drain.
    pub fn new_file(&mut self)
        ensures
            final(self).show_panel == old(self).show_panel,
            final(self).tree == old(self).tree,
            final(self).file_viewer.buffers == old(self).file_viewer.buffers,
            final(self).file_viewer.queue() == old(self).file_viewer.queue().push(
                Request::CreateTab { surface: 0, node: 0 },
            ),
    {
        self.file_viewer.on_add(main_surface(), root_node());
    }

    /// Closes all documents at once: the layout is replaced by an empty one
    /// and every buffer is dropped, unsaved text included. Waiting requests
    /// stay in the queue.
    pub fn close_all_files_without_save(&mut self)
        ensures
            final(self).wf(),
            final(self).show_panel == old(self).show_panel,
            final(self).file_viewer.requests == old(self).file_viewer.requests,
            is_empty_layout(final(self).tree),
            final(self).file_viewer.buffers.pairs() == Seq::<Pair>::empty(),
            final(self).file_viewer.buffers@ == Map::<Seq<char>, Seq<char>>::empty(),
    {
        self.tree = empty_layout();
        self.file_viewer.buffers.clear();
    }

    /// Applies one request, with the search for a free title limited to the
    /// first `limit` default titles.
    ///
    /// A create request takes the first unused default title, stores an
    /// empty text under it, focuses the leaf that the request names and adds
    /// the tab to the focused leaf. Where no title is free within the limit
    /// it fails and changes nothing. A close request deletes the text under
    /// its title, if there is one, and never touches the layout.
    pub fn apply_request_within(&mut self, request: &RequestType, limit: u64) -> (outcome: Result<
        (),
        LifecycleError,
    >)
        requires
            old(self).wf(),
        ensures
            final(self).wf(),
            final(self).state() == step(old(self).state(), request@, limit as nat),
            outcome is Err <==> fails(old(self).state(), request@, limit as nat),
            outcome matches Err(e) ==> e == LifecycleError::TitleAllocationExhaustion && *final(self) == *old(self),
            final(self).show_panel == old(self).show_panel,
            final(self).file_viewer.requests == old(self).file_viewer.requests,
            layout_follows(old(self).tree, final(self).tree, request@, limit as nat),
            request@ is CloseTab && !old(self).file_viewer.buffers@.contains_key(request@->title) ==> *final(self)
                == *old(self),
    {
        match request {
            RequestType::CreateTab(surface, node) => {
                match first_free_title(&self.tree, limit) {
                    Ok(title) => {
                        let _ = self.file_viewer.buffers.insert(title.clone(), String::new());
                        focus_leaf(&mut self.tree, *surface, *node);
                        push_title(&mut self.tree, title);
                        Ok(())
                    },
                    Err(e) => Err(e),
                }
            },
            RequestType::CloseTab(title) => {
                let _ = self.file_viewer.buffers.remove(title.as_str());
                Ok(())
            },
        }
    }

    /// Applies one request, with the search for a free title limited by
    /// `TITLE_SEARCH_LIMIT`.
    pub fn apply_request(&mut self, request: &RequestType) -> (outcome: Result<(), LifecycleError>)
        requires
            old(self).wf(),
        ensures
            final(self).wf(),
            final(self).state() == step(old(self).state(), request@, TITLE_SEARCH_LIMIT as nat),
            outcome is Err <==> fails(old(self).state(), request@, TITLE_SEARCH_LIMIT as nat),
            outcome matches Err(e) ==> e == LifecycleError::TitleAllocationExhaustion && *final(self) == *old(self),
            final(self).show_panel == old(self).show_panel,
            final(self).file_viewer.requests == old(self).file_viewer.requests,
            layout_follows(old(self).tree, final(self).tree, request@, TITLE_SEARCH_LIMIT as nat),
            request@ is CloseTab && !old(self).file_viewer.buffers@.contains_key(request@->title) ==> *final(self)
                == *old(self),
    {
        self.apply_request_within(request, TITLE_SEARCH_LIMIT)
    }

    /// Drains the queue, with the search for a free title limited to the
    /// first `limit` default titles: applies every waiting request once,
    /// oldest first, and leaves the queue empty. A request that fails is
    /// dropped, the ones after it are still applied, and the drain reports
    /// the failure at the end.
    pub fn drain_requests_within(&mut self, limit: u64) -> (outcome: Result<(), LifecycleError>)
        requires
            old(self).wf(),
        ensures
            final(self).wf(),
            final(self).file_viewer.queue() == Seq::<Request>::empty(),
            final(self).state() == run(old(self).state(), old(self).file_viewer.queue(), limit as nat),
            outcome is Err <==> any_fails(old(self).state(), old(self).file_viewer.queue(), limit as nat),
            outcome matches Err(e) ==> e == LifecycleError::TitleAllocationExhaustion,
            final(self).show_panel == old(self).show_panel,
            exists|trace: Seq<DockState<String>>|
                {
                    &&& #[trigger] layouts_follow(trace, old(self).file_viewer.queue(), limit as nat)
                    &&& trace.first() == old(self).tree
                    &&& trace.last() == final(self).tree
                },
    {
        let mut pending: Vec<RequestType> = Vec::new();
        core::mem::swap(&mut pending, &mut self.file_viewer.requests);
        let ghost start = old(self).state();
        let ghost queue = old(self).file_viewer.queue();
        let ghost bound = limit as nat;
        let ghost mut trace: Seq<DockState<String>> = seq![self.tree];
        let mut outcome: Result<(), LifecycleError> = Ok(());
        let mut i: usize = 0;
        proof {
            assert(queue.take(0) =~= Seq::<Request>::empty());
            assert(self.file_viewer.queue() =~= Seq::<Request>::empty());
        }
        while i < pending.len()
            invariant
                self.wf(),
                i <= pending.len(),
                bound == limit as nat,
                queue == pending@.map_values(|r: RequestType| r@),
                self.file_viewer.requests@ == Seq::<RequestType>::empty(),
                self.show_panel == old(self).show_panel,
                self.state() == run(start, queue.take(i as int), bound),
                outcome is Err <==> any_fails(start, queue.take(i as int), bound),
                outcome matches Err(e) ==> e == LifecycleError::TitleAllocationExhaustion,
                trace.len() == i + 1,
                trace.first() == old(self).tree,
                trace.last() == self.tree,
                forall|j: int| 0 <= j < i ==> layout_follows(trace[j], trace[j + 1], #[trigger] queue[j], bound),
            decreases pending.len() - i,
        {
            proof {
                lemma_run_take_next(start, queue, i as int, bound);
            }
            let applied = self.apply_request_within(&pending[i], limit);
            proof {
                let longer = trace.push(self.tree);
                assert forall|j: int| 0 <= j < i + 1 implies layout_follows(
                    longer[j],
                    longer[j + 1],
                    #[trigger] queue[j],
                    bound,
                ) by {
                    if j < i {
                        assert(longer[j] == trace[j]);
                        assert(longer[j + 1] == trace[j + 1]);
                    }
                }
                trace = longer;
            }
            if applied.is_err() {
                outcome = applied;
            }
            i += 1;
        }
        proof {
            assert(queue.take(i as int) =~= queue);
            assert(self.file_viewer.queue() =~= Seq::<Request>::empty());
            assert(layouts_follow(trace, queue, bound));
        }
        outcome
    }

    /// Drains the queue, with the search for a free title limited by
    /// `TITLE_SEARCH_LIMIT`.
    pub fn drain_requests(&mut self) -> (outcome: Result<(), LifecycleError>)
        requires
            old(self).wf(),
        ensures
            final(self).wf(),
            final(self).file_viewer.queue() == Seq::<Request>::empty(),
            final(self).state() == run(old(self).state(), old(self).file_viewer.queue(), TITLE_SEARCH_LIMIT as nat),
            outcome is Err <==> any_fails(old(self).state(), old(self).file_viewer.queue(), TITLE_SEARCH_LIMIT as nat),
            outcome matches Err(e) ==> e == LifecycleError::TitleAllocationExhaustion,
            final(self).show_panel == old(self).show_panel,
            exists|trace: Seq<DockState<String>>|
                {
                    &&& #[trigger] layouts_follow(trace, old(self).file_viewer.queue(), TITLE_SEARCH_LIMIT as nat)
                    &&& trace.first() == old(self).tree
                    &&& trace.last() == final(self).tree
                },
    {
        self.drain_requests_within(TITLE_SEARCH_LIMIT)
    }
}

} // verus!
