//! The docking layout, as far as the tab lifecycle reads and changes it.
//!
//! The layout is `egui_dock::DockState<String>`: surfaces that hold trees
//! of nodes, whose leaves hold tabs. A tab is its title. The lifecycle never
//! looks inside: it asks whether a title is shown, lists the titles, moves the
//! focus and adds a tab. What these calls do is not proved here; each
//! function below states what it takes the call to do.

use egui_dock::DockState;
use egui_dock::NodeIndex;
use egui_dock::SurfaceIndex;
use vstd::multiset::Multiset;
use vstd::prelude::*;

verus! {

/// `egui_dock::DockState`, taken as a whole: nothing of what it holds is
/// visible here but through the functions below.
#[verifier::external_type_specification]
#[verifier::external_body]
#[verifier::reject_recursive_types(Tab)]
pub struct ExDockState<Tab>(DockState<Tab>);

/// The titles of the tabs that a layout shows: every tab in every leaf of
/// every surface, each title as often as a tab carries it. These are the tabs
/// that `DockState::iter_all_tabs` walks through and among which
/// `DockState::find_tab` searches.
pub uninterp spec fn layout_titles(layout: DockState<String>) -> Multiset<Seq<char>>;

/// The titles of the tabs in one leaf, in the order of its tab bar: `Some`
/// where the layout has a surface at index `surface` that holds a tree, and
/// that tree has a node at index `node` that is a leaf; `None` elsewhere.
pub uninterp spec fn leaf_titles(layout: DockState<String>, surface: int, node: int) -> Option<Seq<Seq<char>>>;

/// The focused leaf, by surface index and node index: `Some` where a surface
/// is focused and holds a tree, and the focused node of that tree is a leaf;
/// `None` elsewhere. On such a layout `DockState::focused_leaf` gives the same
/// pair.
pub uninterp spec fn layout_focus(layout: DockState<String>) -> Option<(int, int)>;

/// Whether a layout is in a state to take a new tab, that is, whether
/// `DockState::push_to_focused_leaf` returns on it. It does where the main
/// surface is there and holds a tree, the focused surface, if any, is there
/// and holds a tree, and each tree either has no node or has a leaf or an
/// empty node and a focused node, if any, within its nodes. A layout that
/// `DockState::new` made is so, and moving the focus or adding a tab keeps it
/// so.
pub uninterp spec fn layout_accepts_tabs(layout: DockState<String>) -> bool;

/// `DockState::new`: a layout of one main surface, whose tree has one node,
/// the root, which is a leaf that holds `tabs`. Nothing is focused.
#[verifier::external_body]
pub(crate) fn layout_with_tabs(tabs: Vec<String>) -> (layout: DockState<String>)
    ensures
        layout_titles(layout) == tabs@.map_values(|t: String| t@).to_multiset(),
        leaf_titles(layout, 0, 0) == Some(tabs@.map_values(|t: String| t@)),
        forall|s: int, n: int| (s, n) != (0int, 0int) ==> #[trigger] leaf_titles(layout, s, n) is None,
        layout_focus(layout) is None,
        layout_accepts_tabs(layout),
{
    DockState::new(tabs)
}

/// `DockState::find_tab`: surface, node and position of a tab that equals
/// `title`, the first that the search meets; `None` exactly where no tab
/// does. The node is a leaf and holds the title at that position.
#[verifier::external_body]
pub(crate) fn find_title(layout: &DockState<String>, title: &String) -> (found: Option<(usize, usize, usize)>)
    ensures
        found is Some <==> layout_titles(*layout).contains(title@),
        found matches Some((surface, node, position)) ==> leaf_titles(*layout, surface as int, node as int) matches Some(
            tabs,
        ) && position < tabs.len() && tabs[position as int] == title@,
{
    layout.find_tab(title).map(|(surface, node, tab)| (surface.0, node.0, tab.0))
}

/// `DockState::iter_all_tabs`: the titles of all tabs, in the order in which
/// the layout walks through them.
#[verifier::external_body]
pub(crate) fn all_titles(layout: &DockState<String>) -> (titles: Vec<String>)
    ensures
        titles@.map_values(|t: String| t@).to_multiset() == layout_titles(*layout),
{
    layout.iter_all_tabs().map(|(_, tab)| tab.clone()).collect()
}

/// `DockState::set_focused_node_and_surface`: focuses the node at `node` of
/// the surface at `surface` if there is such a node and it is a leaf, and
/// takes the focus off all surfaces otherwise. No tab is added, removed or
/// moved.
#[verifier::external_body]
pub(crate) fn focus_leaf(layout: &mut DockState<String>, surface: usize, node: usize)
    ensures
        layout_titles(*final(layout)) == layout_titles(*old(layout)),
        forall|s: int, n: int| #[trigger] leaf_titles(*final(layout), s, n) == leaf_titles(*old(layout), s, n),
        layout_focus(*final(layout)) == if leaf_titles(*old(layout), surface as int, node as int) is Some {
            Some((surface as int, node as int))
        } else {
            None
        },
        layout_accepts_tabs(*old(layout)) ==> layout_accepts_tabs(*final(layout)),
{
    layout.set_focused_node_and_surface((SurfaceIndex(surface), NodeIndex(node)))
}

/// `DockState::push_to_focused_leaf`: adds one tab with this title and
/// leaves all other tabs as they are. Where a leaf is focused, the tab goes
/// to the end of that leaf, which stays focused, and no other leaf changes.
/// Where none is focused, it goes to some leaf of the focused or the main
/// surface, of which nothing more is said here.
#[verifier::external_body]
pub(crate) fn push_title(layout: &mut DockState<String>, title: String)
    requires
        layout_accepts_tabs(*old(layout)),
    ensures
        layout_titles(*final(layout)) == layout_titles(*old(layout)).insert(title@),
        layout_accepts_tabs(*final(layout)),
        layout_focus(*old(layout)) matches Some((surface, node)) ==> {
            &&& leaf_titles(*old(layout), surface, node) matches Some(tabs) && leaf_titles(
                *final(layout),
                surface,
                node,
            ) == Some(tabs.push(title@))
            &&& layout_focus(*final(layout)) == Some((surface, node))
            &&& forall|s: int, n: int|
                (s, n) != (surface, node) ==> #[trigger] leaf_titles(*final(layout), s, n) == leaf_titles(
                    *old(layout),
                    s,
                    n,
                )
        },
{
    layout.push_to_focused_leaf(title)
}

/// `SurfaceIndex::main`: the index of the main surface, which is 0.
#[verifier::external_body]
pub(crate) fn main_surface() -> (index: usize)
    ensures
        index == 0,
{
    SurfaceIndex::main().0
}

/// `NodeIndex::root`: the index of a tree's root node, which is 0.
#[verifier::external_body]
pub(crate) fn root_node() -> (index: usize)
    ensures
        index == 0,
{
    NodeIndex::root().0
}

/// Whether a layout is the empty one: it shows no tab, its only leaf is the
/// root of the main surface, and nothing is focused.
pub open spec fn is_empty_layout(layout: DockState<String>) -> bool {
    &&& layout_titles(layout) == Multiset::<Seq<char>>::empty()
    &&& forall|s: int, n: int|
        #[trigger] leaf_titles(layout, s, n) == if (s, n) == (0int, 0int) {
            Some(Seq::<Seq<char>>::empty())
        } else {
            None
        }
    &&& layout_focus(layout) is None
}

/// A layout without tabs.
pub fn empty_layout() -> (layout: DockState<String>)
    ensures
        is_empty_layout(layout),
        layout_accepts_tabs(layout),
{
    let tabs: Vec<String> = Vec::new();
    proof {
        let shown = tabs@.map_values(|t: String| t@);
        shown.to_multiset_ensures();
        assert(shown =~= Seq::<Seq<char>>::empty());
        assert(shown.to_multiset() =~= Multiset::<Seq<char>>::empty());
    }
    layout_with_tabs(tabs)
}

/// Whether the layout shows a tab with this title.
pub fn shows_title(layout: &DockState<String>, title: &String) -> (shown: bool)
    ensures
        shown == layout_titles(*layout).contains(title@),
{
    find_title(layout, title).is_some()
}

} // verus!
