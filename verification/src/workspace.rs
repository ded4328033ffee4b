//! Workspaces: the combined window registry (an arena of window records),
//! the floating list, the layout tree of tiled windows, the outputs a
//! workspace is shown on, and point-based hit testing.

use vstd::prelude::*;

use crate::binarytree::{BinaryTree, DEFAULT_RATIO};
use crate::geometry::{Point, Rect, COORD_LIMIT, GAP_LIMIT};

verus! {

/// A width/height pair of size-constraint hints; zero means unconstrained.
#[derive(Clone, Copy, Debug, PartialEq, Eq, Structural)]
pub struct SizeHints {
    pub w: i32,
    pub h: i32,
}

/// What the core reads from a client surface: a stable identity, the
/// surface-local bounding box and input region, the natural content
/// geometry, and the classification hints. The core never owns the client
/// resource behind it, only this handle.
#[derive(Clone, Copy, Debug, PartialEq, Eq, Structural)]
pub struct SurfaceInfo {
    /// Stable identity; equality of windows is equality of this handle.
    pub id: u64,
    /// Bounding box of the surface, in surface-local coordinates.
    pub bbox: Rect,
    /// Natural content geometry; its position is the render offset.
    pub geometry: Rect,
    /// Input region, in surface-local coordinates.
    pub input_region: Rect,
    /// Smallest size the client accepts; zero means unconstrained.
    pub min_size: SizeHints,
    /// Largest size the client accepts; zero means unconstrained.
    pub max_size: SizeHints,
    /// Whether the client declared a parent/transient relationship.
    pub has_parent: bool,
}

impl SurfaceInfo {
    /// All rectangles of the surface within the coordinate limit.
    pub open spec fn bounded(self) -> bool {
        &&& self.bbox.bounded()
        &&& self.geometry.bounded()
        &&& self.input_region.bounded()
    }
}

/// A window handle: a native client surface or an X11-compatibility one.
/// The core treats both alike; only the protocol collaborator dispatches
/// differently on the two.
#[derive(Clone, Copy, Debug, PartialEq, Eq, Structural)]
pub enum WindowElement {
    Wayland(SurfaceInfo),
    X11(SurfaceInfo),
}

impl WindowElement {
    /// The surface data behind the handle.
    pub open spec fn spec_info(self) -> SurfaceInfo {
        match self {
            WindowElement::Wayland(info) => info,
            WindowElement::X11(info) => info,
        }
    }

    /// The window's stable identity.
    pub open spec fn spec_id(self) -> u64 {
        self.spec_info().id
    }

    /// The surface data behind the handle.
    pub fn info(&self) -> (r: &SurfaceInfo)
        ensures
            *r == self.spec_info(),
    {
        match self {
            WindowElement::Wayland(info) => info,
            WindowElement::X11(info) => info,
        }
    }

    /// The window's stable identity.
    pub fn id(&self) -> (r: u64)
        ensures
            r == self.spec_id(),
    {
        self.info().id
    }
}

/// A window record of the registry: the handle plus the rectangle the
/// core has assigned to the window.
#[derive(Clone, Copy, Debug, PartialEq, Eq, Structural)]
pub struct MagmaWindow {
    pub window: WindowElement,
    pub rec: Rect,
}

impl MagmaWindow {
    /// Handle data within the coordinate limit, the assigned rectangle
    /// within the wider limit the layout engine keeps.
    pub open spec fn bounded(self) -> bool {
        &&& self.window.spec_info().bounded()
        &&& self.rec.placed_bounded()
    }

    /// Where the surface is drawn: the assigned position, corrected by the
    /// content geometry's offset.
    pub open spec fn spec_render_location(self) -> Point {
        Point {
            x: (self.rec.x - self.window.spec_info().geometry.x) as i32,
            y: (self.rec.y - self.window.spec_info().geometry.y) as i32,
        }
    }

    /// The window's bounding box in global coordinates: the surface's
    /// bounding box shifted to the render location.
    pub open spec fn spec_bbox(self) -> Rect {
        let loc = self.spec_render_location();
        let b = self.window.spec_info().bbox;
        Rect { x: (b.x + loc.x) as i32, y: (b.y + loc.y) as i32, w: b.w, h: b.h }
    }

    /// Where the surface is drawn.
    pub fn render_location(&self) -> (r: Point)
        requires
            self.bounded(),
        ensures
            r == self.spec_render_location(),
    {
        let geo = self.window.info().geometry;
        Point { x: self.rec.x - geo.x, y: self.rec.y - geo.y }
    }

    /// The window's bounding box in global coordinates.
    pub fn bbox(&self) -> (r: Rect)
        requires
            self.bounded(),
        ensures
            r == self.spec_bbox(),
    {
        let loc = self.render_location();
        let b = self.window.info().bbox;
        Rect { x: b.x + loc.x, y: b.y + loc.y, w: b.w, h: b.h }
    }
}

/// A display the workspace can be shown on: a stable identity, the
/// output's full logical rectangle, and the usable rectangle that remains
/// once exclusive (layer-shell) zones are subtracted. Both rectangles are
/// computed by the output collaborator and handed in as plain values.
#[derive(Clone, Copy, Debug, PartialEq, Eq, Structural)]
pub struct Output {
    pub id: u64,
    /// The output's full logical geometry.
    pub geometry: Rect,
    /// The part of the output the layout may use.
    pub usable: Rect,
}

impl Output {
    /// Both rectangles within the coordinate limit.
    pub open spec fn bounded(self) -> bool {
        self.geometry.bounded() && self.usable.bounded()
    }
}

/// The identities of a sequence of window records, in registry order.
pub open spec fn record_ids(s: Seq<MagmaWindow>) -> Seq<u64> {
    s.map_values(|m: MagmaWindow| m.window.spec_id())
}

/// The record sequence with the first record of identity `id` removed, or
/// the sequence itself if no record carries it.
pub open spec fn remove_record(s: Seq<MagmaWindow>, id: u64) -> Seq<MagmaWindow>
    decreases s.len(),
{
    if s.len() == 0 {
        s
    } else if s[0].window.spec_id() == id {
        s.drop_first()
    } else {
        seq![s[0]] + remove_record(s.drop_first(), id)
    }
}

/// The first record of identity `id`, if any.
pub open spec fn spec_record_lookup(s: Seq<MagmaWindow>, id: u64) -> Option<MagmaWindow>
    decreases s.len(),
{
    if s.len() == 0 {
        None
    } else if s[0].window.spec_id() == id {
        Some(s[0])
    } else {
        spec_record_lookup(s.drop_first(), id)
    }
}

/// Removing a record removes exactly its identity from the identity
/// sequence.
pub proof fn lemma_remove_record_ids(s: Seq<MagmaWindow>, id: u64)
    ensures
        record_ids(remove_record(s, id)) == crate::seqs::seq_remove_first(record_ids(s), id),
    decreases s.len(),
{
    if s.len() == 0 {
        assert(record_ids(s) =~= Seq::<u64>::empty());
    } else {
        assert(record_ids(s)[0] == s[0].window.spec_id());
        assert(record_ids(s).drop_first() =~= record_ids(s.drop_first()));
        if s[0].window.spec_id() == id {
            assert(record_ids(remove_record(s, id)) =~= record_ids(s).drop_first());
        } else {
            lemma_remove_record_ids(s.drop_first(), id);
            assert(record_ids(seq![s[0]] + remove_record(s.drop_first(), id))
                =~= seq![record_ids(s)[0]] + record_ids(remove_record(s.drop_first(), id)));
        }
    }
}

/// A present identity is found, an absent one is not, and the found
/// record is one of the sequence.
pub proof fn lemma_record_lookup(s: Seq<MagmaWindow>, id: u64)
    ensures
        spec_record_lookup(s, id) is Some <==> record_ids(s).contains(id),
        spec_record_lookup(s, id) matches Some(m) ==> s.contains(m) && m.window.spec_id() == id,
    decreases s.len(),
{
    if s.len() == 0 {
        assert(record_ids(s) =~= Seq::<u64>::empty());
    } else {
        assert(record_ids(s)[0] == s[0].window.spec_id());
        assert(record_ids(s).drop_first() =~= record_ids(s.drop_first()));
        lemma_record_lookup(s.drop_first(), id);
        if s[0].window.spec_id() == id {
            assert(record_ids(s).contains(id)) by {
                assert(record_ids(s)[0] == id);
            }
        } else {
            if record_ids(s).contains(id) {
                let i = choose|i: int| 0 <= i < record_ids(s).len() && record_ids(s)[i] == id;
                assert(i != 0);
                assert(record_ids(s.drop_first())[i - 1] == id);
                assert(record_ids(s.drop_first()).contains(id));
            }
            if record_ids(s.drop_first()).contains(id) {
                let i = choose|i: int| 0 <= i < record_ids(s.drop_first()).len()
                    && record_ids(s.drop_first())[i] == id;
                assert(record_ids(s)[i + 1] == id);
            }
            if spec_record_lookup(s.drop_first(), id) is Some {
                let m = spec_record_lookup(s.drop_first(), id).unwrap();
                assert(s.drop_first().contains(m));
                let i = choose|i: int| 0 <= i < s.drop_first().len() && s.drop_first()[i] == m;
                assert(s[i + 1] == m);
            }
        }
    }
}

/// Removing a record whose identity's first occurrence is at index `k` is
/// removal at that index.
pub proof fn lemma_remove_record_at_index(s: Seq<MagmaWindow>, id: u64, k: int)
    requires
        0 <= k < s.len(),
        s[k].window.spec_id() == id,
        forall|j: int| 0 <= j < k ==> (#[trigger] s[j]).window.spec_id() != id,
    ensures
        remove_record(s, id) == s.remove(k),
        spec_record_lookup(s, id) == Some(s[k]),
    decreases k,
{
    if k == 0 {
        assert(remove_record(s, id) == s.drop_first());
        assert(s.drop_first() =~= s.remove(0));
    } else {
        assert(s[0].window.spec_id() != id);
        assert(s.drop_first()[k - 1] == s[k]);
        assert(forall|j: int| 0 <= j < k - 1 ==> (#[trigger] s.drop_first()[j]).window.spec_id()
            != id) by {
            assert(forall|j: int| 0 <= j < k - 1 ==> s.drop_first()[j] == s[j + 1]);
        }
        lemma_remove_record_at_index(s.drop_first(), id, k - 1);
        assert(seq![s[0]] + s.drop_first().remove(k - 1) =~= s.remove(k));
    }
}

/// The first output of identity `id`, if any.
pub open spec fn spec_output_lookup(s: Seq<Output>, id: u64) -> Option<Output>
    decreases s.len(),
{
    if s.len() == 0 {
        None
    } else if s[0].id == id {
        Some(s[0])
    } else {
        spec_output_lookup(s.drop_first(), id)
    }
}

/// The output sequence without every output of identity `id`.
pub open spec fn outputs_without(s: Seq<Output>, id: u64) -> Seq<Output>
    decreases s.len(),
{
    if s.len() == 0 {
        s
    } else if s[0].id == id {
        outputs_without(s.drop_first(), id)
    } else {
        seq![s[0]] + outputs_without(s.drop_first(), id)
    }
}

/// One workspace: the arena of window records (the combined registry),
/// the floating list (front = most recently added, which is both z-order
/// and hit-test priority), the layout tree of the tiled windows, the
/// outputs the workspace is shown on, and the gap configuration it was
/// created with.
#[derive(Debug)]
pub struct Workspace {
    pub windows: Vec<MagmaWindow>,
    pub floating: Vec<u64>,
    pub layout_tree: BinaryTree,
    pub outputs: Vec<Output>,
    pub gaps: (i32, i32),
}

impl Workspace {
    /// The identities of all registered windows, in registry order.
    pub open spec fn ids(self) -> Seq<u64> {
        record_ids(self.windows@)
    }

    /// The identities of the tiled windows, in tree order.
    pub open spec fn tiled_ids(self) -> Seq<u64> {
        self.layout_tree.windows_seq()
    }

    /// The identities of the floating windows, front to back.
    pub open spec fn floating_ids(self) -> Seq<u64> {
        self.floating@
    }

    /// Whether a window of identity `id` is registered.
    pub open spec fn contains_id(self, id: u64) -> bool {
        self.ids().contains(id)
    }

    /// The well-formedness invariant: the tree keeps its right-spine
    /// shape; no identity is registered twice; every window is either
    /// tiled or floating, never both; tiled and floating windows are
    /// exactly the registered ones; and all geometry is bounded.
    pub open spec fn wf(self) -> bool {
        &&& self.layout_tree.wf()
        &&& self.ids().no_duplicates()
        &&& self.tiled_ids().no_duplicates()
        &&& self.floating@.no_duplicates()
        &&& forall|id: u64| #[trigger] self.tiled_ids().contains(id) ==> self.ids().contains(id)
        &&& forall|id: u64| #[trigger] self.floating@.contains(id) ==> self.ids().contains(id)
        &&& forall|id: u64| !(#[trigger] self.tiled_ids().contains(id)
            && #[trigger] self.floating@.contains(id))
        &&& forall|id: u64| #[trigger] self.ids().contains(id)
            ==> self.tiled_ids().contains(id) || self.floating@.contains(id)
        &&& forall|i: int| 0 <= i < self.windows@.len() ==> (#[trigger] self.windows@[i]).bounded()
        &&& forall|i: int| 0 <= i < self.outputs@.len() ==> (#[trigger] self.outputs@[i]).bounded()
        &&& 0 <= self.gaps.0 <= GAP_LIMIT
        &&& 0 <= self.gaps.1 <= GAP_LIMIT
    }

    /// The rectangles the engine assigns for the current tree on the
    /// workspace's primary output, or nothing while no output is assigned.
    pub open spec fn spec_layout_of(self) -> Seq<(u64, Rect)> {
        if self.outputs@.len() > 0 {
            crate::tiling::spec_generate_layout(
                self.layout_tree,
                self.outputs@[0].usable,
                self.gaps.0 as int,
                self.gaps.1 as int,
            )
        } else {
            Seq::empty()
        }
    }

    /// A fresh workspace with no windows and no outputs, remembering the
    /// gap configuration.
    pub fn new(gaps: (i32, i32)) -> (r: Workspace)
        requires
            0 <= gaps.0 <= GAP_LIMIT,
            0 <= gaps.1 <= GAP_LIMIT,
        ensures
            r.wf(),
            r.ids() == Seq::<u64>::empty(),
            r.floating@ == Seq::<u64>::empty(),
            r.layout_tree == BinaryTree::Empty,
            r.outputs@ == Seq::<Output>::empty(),
            r.gaps == gaps,
    {
        let r = Workspace {
            windows: Vec::new(),
            floating: Vec::new(),
            layout_tree: BinaryTree::new(),
            outputs: Vec::new(),
            gaps,
        };
        proof {
            assert(r.ids() =~= Seq::<u64>::empty());
        }
        r
    }

    /// The handles of all registered windows, in registry order.
    pub fn windows(&self) -> (r: Vec<WindowElement>)
        ensures
            r@.len() == self.windows@.len(),
            forall|i: int| 0 <= i < r@.len() ==> r@[i] == (#[trigger] self.windows@[i]).window,
    {
        let mut out: Vec<WindowElement> = Vec::new();
        let mut k: usize = 0;
        while k < self.windows.len()
            invariant
                0 <= k <= self.windows@.len(),
                out@.len() == k,
                forall|i: int| 0 <= i < k ==> out@[i] == (#[trigger] self.windows@[i]).window,
            decreases self.windows@.len() - k,
        {
            out.push(self.windows[k].window);
            k = k + 1;
        }
        out
    }

    /// All window records, in registry order.
    pub fn magmawindows(&self) -> (r: &Vec<MagmaWindow>)
        ensures
            r@ == self.windows@,
    {
        &self.windows
    }

    /// The outputs the workspace is shown on.
    pub fn outputs(&self) -> (r: &Vec<Output>)
        ensures
            r@ == self.outputs@,
    {
        &self.outputs
    }

    /// Register an output on this workspace. The same output may also be
    /// registered on other workspaces.
    pub fn add_output(&mut self, output: Output)
        requires
            old(self).wf(),
            output.bounded(),
        ensures
            final(self).wf(),
            final(self).outputs@ == old(self).outputs@.push(output),
            final(self).windows@ == old(self).windows@,
            final(self).floating@ == old(self).floating@,
            final(self).layout_tree == old(self).layout_tree,
            final(self).gaps == old(self).gaps,
    {
        self.outputs.push(output);
    }

    /// Remove every registration of the given output from this workspace.
    pub fn remove_output(&mut self, output: &Output)
        requires
            old(self).wf(),
        ensures
            final(self).wf(),
            final(self).outputs@ == outputs_without(old(self).outputs@, output.id),
            final(self).windows@ == old(self).windows@,
            final(self).floating@ == old(self).floating@,
            final(self).layout_tree == old(self).layout_tree,
            final(self).gaps == old(self).gaps,
    {
        let ghost all = self.outputs@;
        let mut out: Vec<Output> = Vec::new();
        let mut k: usize = 0;
        proof {
            assert(all.skip(0) =~= all);
            assert(out@ + outputs_without(all.skip(0), output.id)
                =~= outputs_without(all, output.id));
        }
        while k < self.outputs.len()
            invariant
                0 <= k <= all.len(),
                self.outputs@ == all,
                out@ + outputs_without(all.skip(k as int), output.id)
                    == outputs_without(all, output.id),
                forall|i: int| 0 <= i < out@.len() ==> (#[trigger] out@[i]).bounded(),
                forall|i: int| 0 <= i < all.len() ==> (#[trigger] all[i]).bounded(),
            decreases all.len() - k,
        {
            proof {
                assert(all.skip(k as int)[0] == all[k as int]);
                assert(all.skip(k as int).drop_first() =~= all.skip(k as int + 1));
            }
            let o = self.outputs[k];
            if o.id != output.id {
                proof {
                    assert(out@.push(all[k as int]) + outputs_without(all.skip(k as int + 1), output.id)
                        =~= out@ + (seq![all[k as int]] + outputs_without(all.skip(k as int + 1), output.id)));
                }
                out.push(o);
            }
            k = k + 1;
        }
        proof {
            assert(all.skip(k as int).len() == 0);
            assert(out@ + outputs_without(all.skip(k as int), output.id) =~= out@);
        }
        self.outputs = out;
    }

    /// The output's full logical rectangle, if that output is registered
    /// on this workspace; nothing otherwise.
    pub fn output_geometry(&self, o: &Output) -> (r: Option<Rect>)
        ensures
            r == match spec_output_lookup(self.outputs@, o.id) {
                Some(found) => Some(found.geometry),
                None => None::<Rect>,
            },
    {
        let ghost all = self.outputs@;
        let mut k: usize = 0;
        proof {
            assert(all.skip(0) =~= all);
        }
        while k < self.outputs.len()
            invariant
                0 <= k <= all.len(),
                self.outputs@ == all,
                spec_output_lookup(all, o.id) == spec_output_lookup(all.skip(k as int), o.id),
            decreases all.len() - k,
        {
            proof {
                assert(all.skip(k as int)[0] == all[k as int]);
                assert(all.skip(k as int).drop_first() =~= all.skip(k as int + 1));
            }
            if self.outputs[k].id == o.id {
                return Some(self.outputs[k].geometry);
            }
            k = k + 1;
        }
        proof {
            assert(all.skip(k as int).len() == 0);
        }
        None
    }

    /// Whether the given window is registered on this workspace.
    pub fn contains_window(&self, window: &WindowElement) -> (r: bool)
        ensures
            r == self.contains_id(window.spec_id()),
    {
        let id = window.id();
        let mut k: usize = 0;
        while k < self.windows.len()
            invariant
                0 <= k <= self.windows@.len(),
                id == window.spec_id(),
                forall|j: int| 0 <= j < k ==> (#[trigger] self.windows@[j]).window.spec_id() != id,
            decreases self.windows@.len() - k,
        {
            if self.windows[k].window.id() == id {
                proof {
                    assert(self.ids()[k as int] == id);
                    assert(self.ids().contains(id));
                }
                return true;
            }
            k = k + 1;
        }
        proof {
            if self.ids().contains(id) {
                let i = choose|i: int| 0 <= i < self.ids().len() && self.ids()[i] == id;
                assert(self.windows@[i].window.spec_id() == id);
            }
        }
        false
    }

    /// The record as `add_window` will place it: a floating window is
    /// recentered within the first assigned output's usable area (or kept
    /// where it is while no output is assigned); a tiled window's
    /// rectangle comes from the layout engine, so its initial rectangle is
    /// handed on unchanged.
    pub open spec fn spec_placed(self, window: MagmaWindow) -> MagmaWindow {
        if crate::classifier::spec_decide(window.window) is Floating && self.outputs@.len() > 0 {
            MagmaWindow {
                window: window.window,
                rec: crate::geometry::spec_recenter(window.rec, self.outputs@[0].usable),
            }
        } else {
            window
        }
    }

    /// Add a window: any prior registration of the same identity is
    /// dropped first, then the classifier decides its fate. A floating
    /// window is recentered within the first output's usable area and
    /// pushed to the front of the floating list; a tiled window is
    /// inserted into the layout tree with the orientation `next_split`
    /// answers and the default ratio, and the layout is recomputed.
    pub fn add_window(&mut self, window: MagmaWindow)
        requires
            old(self).wf(),
            window.bounded(),
        ensures
            final(self).wf(),
            final(self).outputs@ == old(self).outputs@,
            final(self).gaps == old(self).gaps,
            final(self).ids() == crate::seqs::seq_remove_first(
                old(self).ids(),
                window.window.spec_id(),
            ).push(window.window.spec_id()),
            final(self).contains_id(window.window.spec_id()),
            ({
                let id = window.window.spec_id();
                let pruned = old(self).layout_tree.spec_remove(id);
                if crate::classifier::spec_decide(window.window) is Floating {
                    final(self).layout_tree == pruned && final(self).floating@ == seq![id]
                        + crate::seqs::seq_remove_first(old(self).floating@, id)
                } else {
                    final(self).layout_tree == pruned.spec_insert(
                        id,
                        pruned.spec_next_split(),
                        DEFAULT_RATIO,
                    ) && final(self).floating@ == crate::seqs::seq_remove_first(
                        old(self).floating@,
                        id,
                    )
                }
            }),
            crate::tiling::registry_updated(
                remove_record(old(self).windows@, window.window.spec_id()).push(
                    old(self).spec_placed(window),
                ),
                final(self).windows@,
                final(self).spec_layout_of(),
            ),
    {
        let ghost pre = *self;
        let id = window.window.id();
        let _prior = self.remove_window(&window.window);
        let ghost mid = *self;
        proof {
            crate::seqs::lemma_remove_first_no_duplicates(pre.ids(), id);
            crate::seqs::lemma_remove_first_no_duplicates(pre.floating@, id);
            crate::binarytree::lemma_remove_windows(pre.layout_tree, id);
            crate::seqs::lemma_remove_first_no_duplicates(pre.tiled_ids(), id);
            crate::seqs::lemma_remove_then_push_restores_set(pre.ids(), id);
        }
        match crate::classifier::decide(&window.window) {
            crate::classifier::WindowClass::Floating => {
                let placed = if self.outputs.len() > 0 {
                    MagmaWindow {
                        window: window.window,
                        rec: crate::geometry::recenter(window.rec, self.outputs[0].usable),
                    }
                } else {
                    window
                };
                proof {
                    assert(placed == pre.spec_placed(window));
                }
                self.windows.push(placed);
                self.floating.insert(0, id);
                proof {
                    assert(self.floating@ =~= seq![id] + mid.floating@);
                    assert(self.ids() =~= mid.ids().push(id)) by {
                        assert(record_ids(self.windows@).len() == mid.windows@.len() + 1);
                        assert(forall|j: int| 0 <= j < mid.windows@.len()
                            ==> record_ids(self.windows@)[j] == record_ids(mid.windows@)[j]);
                        assert(record_ids(self.windows@)[mid.windows@.len() as int]
                            == placed.window.spec_id());
                    }
                    crate::seqs::lemma_cons_fresh_no_duplicates(mid.floating@, id);
                    assert(self.wf()) by {
                        assert forall|x: u64| #[trigger] self.ids().contains(x) implies
                            (x == id || mid.ids().contains(x)) by {
                            let i = choose|i: int| 0 <= i < self.ids().len()
                                && self.ids()[i] == x;
                            if i < mid.ids().len() {
                                assert(mid.ids()[i] == x);
                            }
                        }
                        assert forall|x: u64| (x == id || mid.ids().contains(x)) implies
                            #[trigger] self.ids().contains(x) by {
                            if x == id {
                                assert(self.ids()[mid.ids().len() as int] == id);
                            } else {
                                let i = choose|i: int| 0 <= i < mid.ids().len()
                                    && mid.ids()[i] == x;
                                assert(self.ids()[i] == x);
                            }
                        }
                        assert forall|i: int| 0 <= i < self.windows@.len() implies
                            (#[trigger] self.windows@[i]).bounded() by {
                            if i < mid.windows@.len() {
                                assert(self.windows@[i] == mid.windows@[i]);
                            } else {
                                assert(self.windows@[i] == placed);
                            }
                        }
                        assert(!self.tiled_ids().contains(id));
                    }
                    assert(self.contains_id(id)) by {
                        assert(self.ids()[self.ids().len() - 1] == id);
                    }
                    assert(self.spec_layout_of() == mid.spec_layout_of());
                    assert(crate::tiling::registry_updated(
                        remove_record(pre.windows@, id).push(pre.spec_placed(window)),
                        self.windows@,
                        self.spec_layout_of(),
                    )) by {
                        let pre1 = remove_record(pre.windows@, id).push(pre.spec_placed(window));
                        assert(pre1.len() == self.windows@.len());
                        if mid.outputs@.len() > 0 {
                            crate::tiling::lemma_layout_lookup_not_in_tree(
                                mid.layout_tree,
                                mid.outputs@[0].usable,
                                mid.gaps.0 as int,
                                mid.gaps.1 as int,
                                id,
                            );
                        }
                        assert(crate::tiling::spec_rect_lookup(mid.spec_layout_of(), id) is None);
                        assert forall|i: int| 0 <= i < pre1.len() implies {
                            &&& (#[trigger] self.windows@[i]).window == pre1[i].window
                            &&& self.windows@[i].rec == match crate::tiling::spec_rect_lookup(
                                self.spec_layout_of(),
                                pre1[i].window.spec_id(),
                            ) {
                                Some(r) => r,
                                None => pre1[i].rec,
                            }
                        } by {
                            if i < mid.windows@.len() {
                                assert(pre1[i] == remove_record(pre.windows@, id)[i]);
                                assert(self.windows@[i] == mid.windows@[i]);
                            } else {
                                assert(pre1[i] == pre.spec_placed(window));
                                assert(self.windows@[i] == placed);
                            }
                        }
                    }
                }
            },
            crate::classifier::WindowClass::Tiled => {
                self.windows.push(window);
                let orientation = self.layout_tree.next_split();
                self.layout_tree.insert(id, orientation, DEFAULT_RATIO);
                proof {
                    crate::binarytree::lemma_insert_wf(
                        mid.layout_tree,
                        id,
                        mid.layout_tree.spec_next_split(),
                        DEFAULT_RATIO,
                    );
                    crate::binarytree::lemma_insert_windows(
                        mid.layout_tree,
                        id,
                        mid.layout_tree.spec_next_split(),
                        DEFAULT_RATIO,
                    );
                    crate::seqs::lemma_remove_then_push_restores_set(pre.tiled_ids(), id);
                    assert(self.tiled_ids() == mid.tiled_ids().push(id));
                    assert(self.ids() =~= mid.ids().push(id)) by {
                        assert(record_ids(self.windows@).len() == mid.windows@.len() + 1);
                        assert(forall|j: int| 0 <= j < mid.windows@.len()
                            ==> record_ids(self.windows@)[j] == record_ids(mid.windows@)[j]);
                        assert(record_ids(self.windows@)[mid.windows@.len() as int]
                            == window.window.spec_id());
                    }
                    assert(self.wf()) by {
                        assert forall|x: u64| #[trigger] self.ids().contains(x) implies
                            (x == id || mid.ids().contains(x)) by {
                            let i = choose|i: int| 0 <= i < self.ids().len()
                                && self.ids()[i] == x;
                            if i < mid.ids().len() {
                                assert(mid.ids()[i] == x);
                            }
                        }
                        assert forall|x: u64| (x == id || mid.ids().contains(x)) implies
                            #[trigger] self.ids().contains(x) by {
                            if x == id {
                                assert(self.ids()[mid.ids().len() as int] == id);
                            } else {
                                let i = choose|i: int| 0 <= i < mid.ids().len()
                                    && mid.ids()[i] == x;
                                assert(self.ids()[i] == x);
                            }
                        }
                        assert forall|x: u64| #[trigger] self.tiled_ids().contains(x) implies
                            (x == id || mid.tiled_ids().contains(x)) by {
                            let i = choose|i: int| 0 <= i < self.tiled_ids().len()
                                && self.tiled_ids()[i] == x;
                            if i < mid.tiled_ids().len() {
                                assert(mid.tiled_ids()[i] == x);
                            }
                        }
                        assert forall|x: u64| (x == id || mid.tiled_ids().contains(x)) implies
                            #[trigger] self.tiled_ids().contains(x) by {
                            if x == id {
                                assert(self.tiled_ids()[mid.tiled_ids().len() as int] == id);
                            } else {
                                let i = choose|i: int| 0 <= i < mid.tiled_ids().len()
                                    && mid.tiled_ids()[i] == x;
                                assert(self.tiled_ids()[i] == x);
                            }
                        }
                        assert forall|i: int| 0 <= i < self.windows@.len() implies
                            (#[trigger] self.windows@[i]).bounded() by {
                            if i < mid.windows@.len() {
                                assert(self.windows@[i] == mid.windows@[i]);
                            } else {
                                assert(self.windows@[i] == window);
                            }
                        }
                    }
                }
                let ghost im = *self;
                crate::tiling::bsp_update_layout(self);
                proof {
                    assert(self.contains_id(id)) by {
                        assert(self.ids() == im.ids());
                        assert(im.ids()[im.ids().len() - 1] == id);
                    }
                    assert(crate::tiling::registry_updated(
                        remove_record(pre.windows@, id).push(pre.spec_placed(window)),
                        self.windows@,
                        self.spec_layout_of(),
                    )) by {
                        let pre1 = remove_record(pre.windows@, id).push(pre.spec_placed(window));
                        assert(pre.spec_placed(window) == window);
                        assert(pre1.len() == self.windows@.len());
                        assert(im.spec_layout_of() == self.spec_layout_of());
                        assert forall|i: int| 0 <= i < pre1.len() implies {
                            &&& (#[trigger] self.windows@[i]).window == pre1[i].window
                            &&& self.windows@[i].rec == match crate::tiling::spec_rect_lookup(
                                self.spec_layout_of(),
                                pre1[i].window.spec_id(),
                            ) {
                                Some(r) => r,
                                None => pre1[i].rec,
                            }
                        } by {
                            assert(im.windows@[i].window == pre1[i].window);
                            assert(self.windows@[i].window == pre1[i].window);
                            let xid = pre1[i].window.spec_id();
                            if crate::tiling::spec_rect_lookup(self.spec_layout_of(), xid)
                                is None {
                                if i < mid.windows@.len() {
                                    assert(im.windows@[i] == mid.windows@[i]);
                                    if crate::tiling::spec_rect_lookup(mid.spec_layout_of(), xid)
                                        is Some {
                                        assert(mid.outputs@.len() > 0);
                                        crate::tiling::lemma_rect_lookup_entry(
                                            mid.spec_layout_of(),
                                            xid,
                                        );
                                        crate::tiling::lemma_generate_layout_ids(
                                            mid.layout_tree,
                                            mid.outputs@[0].usable,
                                            mid.gaps.0 as int,
                                            mid.gaps.1 as int,
                                        );
                                        let j = choose|j: int| 0 <= j < mid.spec_layout_of().len()
                                            && #[trigger] mid.spec_layout_of()[j] == (
                                        xid,
                                        crate::tiling::spec_rect_lookup(
                                            mid.spec_layout_of(),
                                            xid,
                                        ).unwrap(),
                                        );
                                        assert(mid.tiled_ids()[j] == xid);
                                        assert(mid.tiled_ids().contains(xid));
                                        assert(im.tiled_ids().contains(xid)) by {
                                            let l = choose|l: int| 0 <= l < mid.tiled_ids().len()
                                                && mid.tiled_ids()[l] == xid;
                                            assert(im.tiled_ids()[l] == xid);
                                        }
                                        crate::tiling::lemma_layout_lookup_in_tree(
                                            im.layout_tree,
                                            im.outputs@[0].usable,
                                            im.gaps.0 as int,
                                            im.gaps.1 as int,
                                            xid,
                                        );
                                        assert(false);
                                    }
                                    assert(mid.windows@[i].rec
                                        == remove_record(pre.windows@, id)[i].rec);
                                } else {
                                    assert(im.windows@[i] == window);
                                    assert(xid == id);
                                    if im.outputs@.len() > 0 {
                                        assert(im.tiled_ids().contains(id)) by {
                                            assert(im.tiled_ids()[mid.tiled_ids().len() as int]
                                                == id);
                                        }
                                        crate::tiling::lemma_layout_lookup_in_tree(
                                            im.layout_tree,
                                            im.outputs@[0].usable,
                                            im.gaps.0 as int,
                                            im.gaps.1 as int,
                                            id,
                                        );
                                        assert(false);
                                    }
                                }
                            }
                        }
                    }
                }
            },
        }
    }

    /// Remove the given window from the registry and from whichever of the
    /// floating list and the layout tree holds it, then recompute the
    /// layout. Returns the removed record (for ownership transfer, e.g. a
    /// cross-workspace move), or nothing if the window was not present —
    /// not an error.
    pub fn remove_window(&mut self, window: &WindowElement) -> (r: Option<MagmaWindow>)
        requires
            old(self).wf(),
        ensures
            final(self).wf(),
            final(self).layout_tree == old(self).layout_tree.spec_remove(window.spec_id()),
            final(self).floating@ == crate::seqs::seq_remove_first(
                old(self).floating@,
                window.spec_id(),
            ),
            final(self).outputs@ == old(self).outputs@,
            final(self).gaps == old(self).gaps,
            final(self).ids() == crate::seqs::seq_remove_first(old(self).ids(), window.spec_id()),
            r == spec_record_lookup(old(self).windows@, window.spec_id()),
            (r is Some) == old(self).contains_id(window.spec_id()),
            crate::tiling::registry_updated(
                remove_record(old(self).windows@, window.spec_id()),
                final(self).windows@,
                final(self).spec_layout_of(),
            ),
    {
        let ghost pre = *self;
        let id = window.id();
        let removed: Option<MagmaWindow> = match self.find_record(id) {
            Some(k) => {
                let m = self.windows.remove(k);
                proof {
                    lemma_remove_record_at_index(pre.windows@, id, k as int);
                }
                Some(m)
            },
            None => {
                proof {
                    lemma_remove_record_absent(pre.windows@, id);
                }
                None
            },
        };
        remove_first_value(&mut self.floating, id);
        self.layout_tree.remove(id);
        proof {
            lemma_record_lookup(pre.windows@, id);
            lemma_remove_record_ids(pre.windows@, id);
            crate::seqs::lemma_remove_first_no_duplicates(pre.ids(), id);
            crate::seqs::lemma_remove_first_no_duplicates(pre.floating@, id);
            crate::binarytree::lemma_remove_wf(pre.layout_tree, id);
            crate::binarytree::lemma_remove_windows(pre.layout_tree, id);
            crate::seqs::lemma_remove_first_no_duplicates(pre.tiled_ids(), id);
            if removed is Some {
                assert(pre.ids()[choose|i: int| 0 <= i < pre.windows@.len()
                    && pre.windows@[i].window.spec_id() == id] == id);
            }
            assert(self.wf()) by {
                assert(self.ids() == crate::seqs::seq_remove_first(pre.ids(), id));
                assert forall|x: u64| #[trigger] self.tiled_ids().contains(x) implies
                    self.ids().contains(x) by {
                    assert(x != id);
                    assert(pre.tiled_ids().contains(x));
                }
                assert forall|x: u64| #[trigger] self.floating@.contains(x) implies
                    self.ids().contains(x) by {
                    assert(x != id);
                    assert(pre.floating@.contains(x));
                }
                assert forall|x: u64| !(#[trigger] self.tiled_ids().contains(x)
                    && #[trigger] self.floating@.contains(x)) by {
                    if self.tiled_ids().contains(x) && self.floating@.contains(x) {
                        assert(pre.tiled_ids().contains(x) && pre.floating@.contains(x));
                    }
                }
                assert forall|x: u64| #[trigger] self.ids().contains(x) implies
                    self.tiled_ids().contains(x) || self.floating@.contains(x) by {
                    assert(x != id);
                    assert(pre.ids().contains(x));
                }
                assert forall|i: int| 0 <= i < self.windows@.len() implies
                    (#[trigger] self.windows@[i]).bounded() by {
                    assert(self.windows@ == remove_record(pre.windows@, id));
                    assert(pre.windows@.contains(self.windows@[i])) by {
                        lemma_remove_record_is_sub(pre.windows@, id, i);
                    }
                    let j = choose|j: int| 0 <= j < pre.windows@.len()
                        && pre.windows@[j] == self.windows@[i];
                    assert(pre.windows@[j].bounded());
                }
            }
        }
        crate::tiling::bsp_update_layout(self);
        removed
    }

    /// Index of the first record of the given identity, with nothing
    /// before it carrying the same identity.
    fn find_record(&self, id: u64) -> (r: Option<usize>)
        ensures
            match r {
                Some(k) => {
                    &&& k < self.windows@.len()
                    &&& self.windows@[k as int].window.spec_id() == id
                    &&& forall|j: int| 0 <= j < k
                        ==> (#[trigger] self.windows@[j]).window.spec_id() != id
                },
                None => !self.ids().contains(id),
            },
    {
        let mut k: usize = 0;
        while k < self.windows.len()
            invariant
                0 <= k <= self.windows@.len(),
                forall|j: int| 0 <= j < k ==> (#[trigger] self.windows@[j]).window.spec_id() != id,
            decreases self.windows@.len() - k,
        {
            if self.windows[k].window.id() == id {
                return Some(k);
            }
            k = k + 1;
        }
        proof {
            if self.ids().contains(id) {
                let i = choose|i: int| 0 <= i < self.ids().len() && self.ids()[i] == id;
                assert(self.windows@[i].window.spec_id() == id);
            }
        }
        None
    }
}

/// Whether the point hits the window: it must lie inside the window's
/// bounding box and inside the window's input region (taken relative to
/// where the surface is drawn).
pub open spec fn spec_hit(m: MagmaWindow, p: Point) -> bool {
    &&& m.spec_bbox().spec_contains(p)
    &&& m.window.spec_info().input_region.spec_contains(
        Point {
            x: (p.x - m.spec_render_location().x) as i32,
            y: (p.y - m.spec_render_location().y) as i32,
        },
    )
}

/// The first identity of the list whose registered window the point hits;
/// identities without a record never match.
pub open spec fn spec_first_hit(ids: Seq<u64>, registry: Seq<MagmaWindow>, p: Point) -> Option<
    u64,
>
    decreases ids.len(),
{
    if ids.len() == 0 {
        None
    } else {
        match spec_record_lookup(registry, ids[0]) {
            Some(m) => if spec_hit(m, p) {
                Some(ids[0])
            } else {
                spec_first_hit(ids.drop_first(), registry, p)
            },
            None => spec_first_hit(ids.drop_first(), registry, p),
        }
    }
}

/// Searching a concatenation searches the first part, then the second.
pub proof fn lemma_first_hit_concat(a: Seq<u64>, b: Seq<u64>, registry: Seq<MagmaWindow>, p: Point)
    ensures
        spec_first_hit(a + b, registry, p) == if spec_first_hit(a, registry, p) is Some {
            spec_first_hit(a, registry, p)
        } else {
            spec_first_hit(b, registry, p)
        },
    decreases a.len(),
{
    if a.len() == 0 {
        assert(a + b =~= b);
    } else {
        assert((a + b)[0] == a[0]);
        assert((a + b).drop_first() =~= a.drop_first() + b);
        lemma_first_hit_concat(a.drop_first(), b, registry, p);
    }
}

/// If some listed identity has a registered window the point hits, the
/// search succeeds and answers a listed identity.
pub proof fn lemma_first_hit_found(ids: Seq<u64>, registry: Seq<MagmaWindow>, p: Point, k: int)
    requires
        0 <= k < ids.len(),
        spec_record_lookup(registry, ids[k]) is Some,
        spec_hit(spec_record_lookup(registry, ids[k]).unwrap(), p),
    ensures
        spec_first_hit(ids, registry, p) is Some,
        ids.contains(spec_first_hit(ids, registry, p).unwrap()),
    decreases ids.len(),
{
    if spec_record_lookup(registry, ids[0]) is Some
        && spec_hit(spec_record_lookup(registry, ids[0]).unwrap(), p) {
        assert(ids.contains(ids[0]));
    } else {
        assert(k != 0);
        assert(ids.drop_first()[k - 1] == ids[k]);
        lemma_first_hit_found(ids.drop_first(), registry, p, k - 1);
        let found = spec_first_hit(ids.drop_first(), registry, p).unwrap();
        let i = choose|i: int| 0 <= i < ids.drop_first().len() && ids.drop_first()[i] == found;
        assert(ids[i + 1] == found);
    }
}

/// Whether the point hits the window.
fn hit(m: &MagmaWindow, p: Point) -> (r: bool)
    requires
        m.bounded(),
        -COORD_LIMIT <= p.x <= COORD_LIMIT,
        -COORD_LIMIT <= p.y <= COORD_LIMIT,
    ensures
        r == spec_hit(*m, p),
{
    let b = m.bbox();
    if !b.contains(p) {
        return false;
    }
    let loc = m.render_location();
    let q = Point { x: p.x - loc.x, y: p.y - loc.y };
    m.window.info().input_region.contains(q)
}

/// The first record of the given identity, by value.
fn record_lookup_vec(v: &Vec<MagmaWindow>, id: u64) -> (r: Option<MagmaWindow>)
    ensures
        r == spec_record_lookup(v@, id),
{
    let ghost all = v@;
    let mut k: usize = 0;
    proof {
        assert(all.skip(0) =~= all);
    }
    while k < v.len()
        invariant
            0 <= k <= all.len(),
            v@ == all,
            spec_record_lookup(all, id) == spec_record_lookup(all.skip(k as int), id),
        decreases all.len() - k,
    {
        proof {
            assert(all.skip(k as int)[0] == all[k as int]);
            assert(all.skip(k as int).drop_first() =~= all.skip(k as int + 1));
        }
        if v[k].window.id() == id {
            return Some(v[k]);
        }
        k = k + 1;
    }
    proof {
        assert(all.skip(k as int).len() == 0);
    }
    None
}

/// The first identity of `ids` whose record in `registry` the point hits.
fn first_hit(registry: &Vec<MagmaWindow>, ids: &Vec<u64>, p: Point) -> (r: Option<u64>)
    requires
        forall|i: int| 0 <= i < registry@.len() ==> (#[trigger] registry@[i]).bounded(),
        -COORD_LIMIT <= p.x <= COORD_LIMIT,
        -COORD_LIMIT <= p.y <= COORD_LIMIT,
    ensures
        r == spec_first_hit(ids@, registry@, p),
{
    let ghost all = ids@;
    let mut k: usize = 0;
    proof {
        assert(all.skip(0) =~= all);
    }
    while k < ids.len()
        invariant
            0 <= k <= all.len(),
            ids@ == all,
            forall|i: int| 0 <= i < registry@.len() ==> (#[trigger] registry@[i]).bounded(),
            -COORD_LIMIT <= p.x <= COORD_LIMIT,
            -COORD_LIMIT <= p.y <= COORD_LIMIT,
            spec_first_hit(all, registry@, p) == spec_first_hit(
                all.skip(k as int),
                registry@,
                p,
            ),
        decreases all.len() - k,
    {
        proof {
            assert(all.skip(k as int)[0] == all[k as int]);
            assert(all.skip(k as int).drop_first() =~= all.skip(k as int + 1));
        }
        match record_lookup_vec(registry, ids[k]) {
            Some(m) => {
                proof {
                    lemma_record_lookup(registry@, all[k as int]);
                    let j = choose|j: int| 0 <= j < registry@.len() && registry@[j] == m;
                    assert(registry@[j].bounded());
                }
                if hit(&m, p) {
                    return Some(ids[k]);
                }
            },
            None => {},
        }
        k = k + 1;
    }
    proof {
        assert(all.skip(k as int).len() == 0);
    }
    None
}

/// Whether the vector holds the value.
fn contains_value(v: &Vec<u64>, id: u64) -> (r: bool)
    ensures
        r == v@.contains(id),
{
    let mut k: usize = 0;
    while k < v.len()
        invariant
            0 <= k <= v@.len(),
            forall|j: int| 0 <= j < k ==> v@[j] != id,
        decreases v@.len() - k,
    {
        if v[k] == id {
            assert(v@.contains(id)) by {
                assert(v@[k as int] == id);
            }
            return true;
        }
        k = k + 1;
    }
    proof {
        if v@.contains(id) {
            let i = choose|i: int| 0 <= i < v@.len() && v@[i] == id;
        }
    }
    false
}

/// Every record that survives a removal was in the original registry.
pub proof fn lemma_remove_record_is_sub(s: Seq<MagmaWindow>, id: u64, i: int)
    requires
        0 <= i < remove_record(s, id).len(),
    ensures
        s.contains(remove_record(s, id)[i]),
    decreases s.len(),
{
    if s.len() == 0 {
    } else if s[0].window.spec_id() == id {
        assert(remove_record(s, id)[i] == s[i + 1]);
    } else {
        let rest = remove_record(s.drop_first(), id);
        if i == 0 {
            assert(remove_record(s, id)[0] == s[0]);
        } else {
            assert(remove_record(s, id)[i] == rest[i - 1]);
            lemma_remove_record_is_sub(s.drop_first(), id, i - 1);
            let j = choose|j: int| 0 <= j < s.drop_first().len()
                && s.drop_first()[j] == rest[i - 1];
            assert(s[j + 1] == rest[i - 1]);
        }
    }
}

/// Remove the first occurrence of `id` from the vector, if any.
fn remove_first_value(v: &mut Vec<u64>, id: u64)
    ensures
        final(v)@ == crate::seqs::seq_remove_first(old(v)@, id),
{
    let ghost pre = v@;
    let mut k: usize = 0;
    while k < v.len()
        invariant
            0 <= k <= pre.len(),
            pre == old(v)@,
            v@ == pre,
            forall|j: int| 0 <= j < k ==> pre[j] != id,
        decreases pre.len() - k,
    {
        if v[k] == id {
            v.remove(k);
            proof {
                crate::seqs::lemma_remove_first_at_index(pre, id, k as int);
            }
            return;
        }
        k = k + 1;
    }
    proof {
        if pre.contains(id) {
            let i = choose|i: int| 0 <= i < pre.len() && pre[i] == id;
            assert(pre[i] == id);
        }
        crate::seqs::lemma_remove_first_absent(pre, id);
    }
}

/// A registry of absent identity is unchanged by removal.
pub proof fn lemma_remove_record_absent(s: Seq<MagmaWindow>, id: u64)
    requires
        !record_ids(s).contains(id),
    ensures
        remove_record(s, id) == s,
        spec_record_lookup(s, id) is None,
    decreases s.len(),
{
    if s.len() == 0 {
    } else {
        assert(record_ids(s)[0] == s[0].window.spec_id());
        assert(s[0].window.spec_id() != id);
        assert(record_ids(s).drop_first() =~= record_ids(s.drop_first()));
        assert(!record_ids(s.drop_first()).contains(id)) by {
            if record_ids(s.drop_first()).contains(id) {
                let i = choose|i: int| 0 <= i < record_ids(s.drop_first()).len()
                    && record_ids(s.drop_first())[i] == id;
                assert(record_ids(s)[i + 1] == id);
            }
        }
        lemma_remove_record_absent(s.drop_first(), id);
        assert(seq![s[0]] + s.drop_first() =~= s);
    }
}

impl Workspace {
    /// What the hit test answers: the first floating window (front to
    /// back) the point hits, else the first tiled window in tree order.
    pub open spec fn spec_window_under(self, p: Point) -> Option<u64> {
        spec_first_hit(self.floating@ + self.tiled_ids(), self.windows@, p)
    }

    /// Resolve the window under the point: floating windows are checked
    /// first, in z-order, then tiled windows in tree order; a window
    /// matches when the point is inside both its bounding box and its
    /// input region. Returns the window and its render location.
    pub fn window_under(&self, point: Point) -> (r: Option<(WindowElement, Point)>)
        requires
            self.wf(),
            -COORD_LIMIT <= point.x <= COORD_LIMIT,
            -COORD_LIMIT <= point.y <= COORD_LIMIT,
        ensures
            match r {
                None => self.spec_window_under(point) is None,
                Some((w, loc)) => {
                    &&& self.spec_window_under(point) == Some(w.spec_id())
                    &&& spec_record_lookup(self.windows@, w.spec_id()) is Some
                    &&& ({
                        let m = spec_record_lookup(self.windows@, w.spec_id()).unwrap();
                        w == m.window && loc == m.spec_render_location()
                    })
                },
            },
    {
        proof {
            lemma_first_hit_concat(self.floating@, self.tiled_ids(), self.windows@, point);
        }
        let found = match first_hit(&self.windows, &self.floating, point) {
            Some(id) => Some(id),
            None => {
                let tiles = self.layout_tree.get_windows();
                first_hit(&self.windows, &tiles, point)
            },
        };
        match found {
            Some(id) => {
                match record_lookup_vec(&self.windows, id) {
                    Some(m) => {
                        proof {
                            lemma_record_lookup(self.windows@, id);
                            let j = choose|j: int| 0 <= j < self.windows@.len()
                                && self.windows@[j] == m;
                            assert(self.windows@[j].bounded());
                        }
                        Some((m.window, m.render_location()))
                    },
                    None => {
                        proof {
                            lemma_first_hit_lookup_some(
                                self.floating@ + self.tiled_ids(),
                                self.windows@,
                                point,
                            );
                        }
                        None
                    },
                }
            },
            None => None,
        }
    }

    /// Transfer the window between the layout tree and the floating list,
    /// keeping its current rectangle as the starting point, and recompute
    /// the layout. A window the workspace does not hold is left alone.
    pub fn toggle_window_floating(&mut self, window: &WindowElement)
        requires
            old(self).wf(),
        ensures
            final(self).wf(),
            final(self).outputs@ == old(self).outputs@,
            final(self).gaps == old(self).gaps,
            final(self).ids() == old(self).ids(),
            ({
                let id = window.spec_id();
                if old(self).floating@.contains(id) {
                    &&& final(self).floating@ == crate::seqs::seq_remove_first(
                        old(self).floating@,
                        id,
                    )
                    &&& final(self).layout_tree == old(self).layout_tree.spec_insert(
                        id,
                        old(self).layout_tree.spec_next_split(),
                        DEFAULT_RATIO,
                    )
                    &&& crate::tiling::registry_updated(
                        old(self).windows@,
                        final(self).windows@,
                        final(self).spec_layout_of(),
                    )
                } else if old(self).tiled_ids().contains(id) {
                    &&& final(self).floating@ == seq![id] + old(self).floating@
                    &&& final(self).layout_tree == old(self).layout_tree.spec_remove(id)
                    &&& crate::tiling::registry_updated(
                        old(self).windows@,
                        final(self).windows@,
                        final(self).spec_layout_of(),
                    )
                } else {
                    *final(self) == *old(self)
                }
            }),
    {
        let ghost pre = *self;
        let id = window.id();
        if contains_value(&self.floating, id) {
            remove_first_value(&mut self.floating, id);
            let orientation = self.layout_tree.next_split();
            self.layout_tree.insert(id, orientation, DEFAULT_RATIO);
            proof {
                crate::seqs::lemma_remove_first_no_duplicates(pre.floating@, id);
                crate::binarytree::lemma_insert_wf(
                    pre.layout_tree,
                    id,
                    pre.layout_tree.spec_next_split(),
                    DEFAULT_RATIO,
                );
                crate::binarytree::lemma_insert_windows(
                    pre.layout_tree,
                    id,
                    pre.layout_tree.spec_next_split(),
                    DEFAULT_RATIO,
                );
                crate::seqs::lemma_push_fresh_no_duplicates(pre.tiled_ids(), id);
                assert(self.wf()) by {
                    assert(self.tiled_ids() == pre.tiled_ids().push(id));
                    assert(pre.ids().contains(id));
                    assert forall|x: u64| #[trigger] self.tiled_ids().contains(x) implies
                        self.ids().contains(x) by {
                        assert(x == id || pre.tiled_ids().contains(x));
                    }
                    assert forall|x: u64| #[trigger] self.floating@.contains(x) implies
                        self.ids().contains(x) by {
                        assert(pre.floating@.contains(x));
                    }
                    assert forall|x: u64| !(#[trigger] self.tiled_ids().contains(x)
                        && #[trigger] self.floating@.contains(x)) by {
                        if self.tiled_ids().contains(x) && self.floating@.contains(x) {
                            assert(pre.floating@.contains(x));
                            assert(x == id || pre.tiled_ids().contains(x));
                        }
                    }
                    assert forall|x: u64| #[trigger] self.ids().contains(x) implies
                        self.tiled_ids().contains(x) || self.floating@.contains(x) by {
                        if pre.floating@.contains(x) && x != id {
                            assert(self.floating@.contains(x));
                        }
                    }
                }
            }
            crate::tiling::bsp_update_layout(self);
        } else {
            let tiles = self.layout_tree.get_windows();
            if contains_value(&tiles, id) {
                self.layout_tree.remove(id);
                self.floating.insert(0, id);
                proof {
                    crate::binarytree::lemma_remove_wf(pre.layout_tree, id);
                    crate::binarytree::lemma_remove_windows(pre.layout_tree, id);
                    crate::seqs::lemma_remove_first_no_duplicates(pre.tiled_ids(), id);
                    crate::seqs::lemma_cons_fresh_no_duplicates(pre.floating@, id);
                    assert(self.floating@ =~= seq![id] + pre.floating@);
                    assert(self.wf()) by {
                        assert(pre.ids().contains(id));
                        assert forall|x: u64| #[trigger] self.tiled_ids().contains(x) implies
                            self.ids().contains(x) by {
                            assert(x != id);
                            assert(pre.tiled_ids().contains(x));
                        }
                        assert forall|x: u64| #[trigger] self.floating@.contains(x) implies
                            self.ids().contains(x) by {
                            assert(x == id || pre.floating@.contains(x));
                        }
                        assert forall|x: u64| !(#[trigger] self.tiled_ids().contains(x)
                            && #[trigger] self.floating@.contains(x)) by {
                            if self.tiled_ids().contains(x) && self.floating@.contains(x) {
                                assert(x != id);
                                assert(pre.tiled_ids().contains(x));
                                assert(pre.floating@.contains(x));
                            }
                        }
                        assert forall|x: u64| #[trigger] self.ids().contains(x) implies
                            self.tiled_ids().contains(x) || self.floating@.contains(x) by {
                            if pre.tiled_ids().contains(x) && x != id {
                                assert(self.tiled_ids().contains(x));
                            }
                        }
                    }
                }
                crate::tiling::bsp_update_layout(self);
            } else {
                proof {
                    assert(!pre.floating@.contains(id) && !pre.tiled_ids().contains(id));
                }
            }
        }
    }
}

/// A successful hit-test answer always has a record.
pub proof fn lemma_first_hit_lookup_some(ids: Seq<u64>, registry: Seq<MagmaWindow>, p: Point)
    ensures
        spec_first_hit(ids, registry, p) matches Some(id) ==> spec_record_lookup(
            registry,
            id,
        ) is Some,
    decreases ids.len(),
{
    if ids.len() > 0 {
        lemma_first_hit_lookup_some(ids.drop_first(), registry, p);
    }
}

/// Floating windows take hit priority over tiled ones: whenever the point
/// hits any floating window of the workspace, the hit test answers a
/// floating window, never a tiled one.
pub proof fn lemma_floating_preferred(ws: Workspace, p: Point, fid: u64)
    requires
        ws.wf(),
        ws.floating@.contains(fid),
        spec_record_lookup(ws.windows@, fid) is Some,
        spec_hit(spec_record_lookup(ws.windows@, fid).unwrap(), p),
    ensures
        ws.spec_window_under(p) is Some,
        ws.floating@.contains(ws.spec_window_under(p).unwrap()),
        !ws.tiled_ids().contains(ws.spec_window_under(p).unwrap()),
{
    let k = choose|k: int| 0 <= k < ws.floating@.len() && ws.floating@[k] == fid;
    lemma_first_hit_found(ws.floating@, ws.windows@, p, k);
    lemma_first_hit_concat(ws.floating@, ws.tiled_ids(), ws.windows@, p);
}


impl Default for Workspace {
    /// An empty workspace with the default gap configuration.
    fn default() -> (r: Self)
        ensures
            r.wf(),
            r.ids() == Seq::<u64>::empty(),
            r.floating@ == Seq::<u64>::empty(),
            r.layout_tree == BinaryTree::Empty,
            r.outputs@ == Seq::<Output>::empty(),
            r.gaps == crate::config::spec_default_gaps(),
    {
        Workspace::new(crate::config::default_gaps())
    }
}

/// The handles of every window of every workspace, in workspace order.
pub open spec fn flat_window_elems(s: Seq<Workspace>) -> Seq<WindowElement>
    decreases s.len(),
{
    if s.len() == 0 {
        Seq::empty()
    } else {
        s[0].windows@.map_values(|m: MagmaWindow| m.window) + flat_window_elems(s.drop_first())
    }
}

/// The outputs of every workspace, in workspace order; an output shown on
/// several workspaces appears once per registration.
pub open spec fn flat_outputs(s: Seq<Workspace>) -> Seq<Output>
    decreases s.len(),
{
    if s.len() == 0 {
        Seq::empty()
    } else {
        s[0].outputs@ + flat_outputs(s.drop_first())
    }
}

/// The index of the first workspace holding a window of identity `id`.
pub open spec fn spec_workspace_of(s: Seq<Workspace>, id: u64) -> Option<int>
    decreases s.len(),
{
    if s.len() == 0 {
        None
    } else if s[0].contains_id(id) {
        Some(0int)
    } else {
        match spec_workspace_of(s.drop_first(), id) {
            Some(i) => Some(i + 1),
            None => None,
        }
    }
}

/// A found index holds the window; an absent answer means no workspace
/// holds it.
pub proof fn lemma_workspace_of(s: Seq<Workspace>, id: u64)
    ensures
        spec_workspace_of(s, id) matches Some(i) ==> 0 <= i < s.len()
            && s[i].contains_id(id),
        spec_workspace_of(s, id) is None ==> forall|j: int| 0 <= j < s.len()
            ==> !(#[trigger] s[j]).contains_id(id),
    decreases s.len(),
{
    if s.len() == 0 {
    } else if s[0].contains_id(id) {
    } else {
        lemma_workspace_of(s.drop_first(), id);
        if spec_workspace_of(s, id) is None {
            assert forall|j: int| 0 <= j < s.len() implies !(#[trigger] s[j]).contains_id(id) by {
                if j > 0 {
                    assert(s.drop_first()[j - 1] == s[j]);
                }
            }
        } else {
            let i = spec_workspace_of(s.drop_first(), id).unwrap();
            assert(s.drop_first()[i] == s[i + 1]);
        }
    }
}

/// The workspace collection: an indexed set of workspaces and the index of
/// the one currently shown. Exactly one workspace is current; a window
/// belongs to at most one workspace.
#[derive(Debug)]
pub struct Workspaces {
    pub workspaces: Vec<Workspace>,
    pub current: u8,
}

impl Workspaces {
    /// Well-formedness: at least one workspace, a current index in range,
    /// every workspace well-formed, and no window registered on two
    /// workspaces.
    pub open spec fn wf(self) -> bool {
        &&& self.workspaces@.len() > 0
        &&& (self.current as int) < self.workspaces@.len()
        &&& forall|i: int| 0 <= i < self.workspaces@.len()
            ==> (#[trigger] self.workspaces@[i]).wf()
        &&& forall|i: int, j: int, id: u64|
            0 <= i < self.workspaces@.len() && 0 <= j < self.workspaces@.len() && i != j ==> !(
            (#[trigger] self.workspaces@[i].contains_id(id))
                && (#[trigger] self.workspaces@[j].contains_id(id)))
    }

    /// Create the given number of empty workspaces, all sharing the gap
    /// configuration; the first one is current.
    pub fn new(workspaceamount: u8, gaps: (i32, i32)) -> (r: Workspaces)
        requires
            workspaceamount >= 1,
            0 <= gaps.0 <= GAP_LIMIT,
            0 <= gaps.1 <= GAP_LIMIT,
        ensures
            r.wf(),
            r.workspaces@.len() == workspaceamount,
            r.current == 0,
            forall|i: int| 0 <= i < workspaceamount ==> {
                &&& (#[trigger] r.workspaces@[i]).ids() == Seq::<u64>::empty()
                &&& r.workspaces@[i].floating@ == Seq::<u64>::empty()
                &&& r.workspaces@[i].layout_tree == BinaryTree::Empty
                &&& r.workspaces@[i].outputs@ == Seq::<Output>::empty()
                &&& r.workspaces@[i].gaps == gaps
            },
    {
        let mut workspaces: Vec<Workspace> = Vec::new();
        let mut k: u8 = 0;
        while k < workspaceamount
            invariant
                0 <= k <= workspaceamount,
                0 <= gaps.0 <= GAP_LIMIT,
                0 <= gaps.1 <= GAP_LIMIT,
                workspaces@.len() == k,
                forall|i: int| 0 <= i < k ==> {
                    &&& (#[trigger] workspaces@[i]).wf()
                    &&& workspaces@[i].ids() == Seq::<u64>::empty()
                    &&& workspaces@[i].floating@ == Seq::<u64>::empty()
                    &&& workspaces@[i].layout_tree == BinaryTree::Empty
                    &&& workspaces@[i].outputs@ == Seq::<Output>::empty()
                    &&& workspaces@[i].gaps == gaps
                },
            decreases workspaceamount - k,
        {
            workspaces.push(Workspace::new(gaps));
            k = k + 1;
        }
        let r = Workspaces { workspaces, current: 0 };
        proof {
            assert forall|i: int, j: int, id: u64|
                0 <= i < r.workspaces@.len() && 0 <= j < r.workspaces@.len() && i != j implies !(
                (#[trigger] r.workspaces@[i].contains_id(id))
                    && (#[trigger] r.workspaces@[j].contains_id(id))) by {
                assert(r.workspaces@[i].ids().len() == 0);
            }
        }
        r
    }

    /// Every output of every workspace, flattened in workspace order.
    pub fn outputs(&self) -> (r: Vec<Output>)
        ensures
            r@ == flat_outputs(self.workspaces@),
    {
        let ghost all = self.workspaces@;
        let mut out: Vec<Output> = Vec::new();
        let mut k: usize = 0;
        proof {
            assert(all.skip(0) =~= all);
            assert(out@ + flat_outputs(all.skip(0)) =~= flat_outputs(all));
        }
        while k < self.workspaces.len()
            invariant
                0 <= k <= all.len(),
                self.workspaces@ == all,
                out@ + flat_outputs(all.skip(k as int)) == flat_outputs(all),
            decreases all.len() - k,
        {
            proof {
                assert(all.skip(k as int)[0] == all[k as int]);
                assert(all.skip(k as int).drop_first() =~= all.skip(k as int + 1));
            }
            let ws_outputs = &self.workspaces[k].outputs;
            let mut j: usize = 0;
            while j < ws_outputs.len()
                invariant
                    0 <= j <= ws_outputs@.len(),
                    ws_outputs@ == all[k as int].outputs@,
                    0 <= k < all.len(),
                    out@ + ws_outputs@.skip(j as int) + flat_outputs(all.skip(k as int + 1))
                        == flat_outputs(all),
                decreases ws_outputs@.len() - j,
            {
                proof {
                    assert(ws_outputs@.skip(j as int)[0] == ws_outputs@[j as int]);
                    assert(out@.push(ws_outputs@[j as int]) + ws_outputs@.skip(j as int + 1)
                        =~= out@ + ws_outputs@.skip(j as int));
                }
                out.push(ws_outputs[j]);
                j = j + 1;
            }
            proof {
                assert(ws_outputs@.skip(j as int).len() == 0);
                assert(out@ + ws_outputs@.skip(j as int) =~= out@);
            }
            k = k + 1;
        }
        proof {
            assert(flat_outputs(all.skip(k as int)) =~= Seq::<Output>::empty());
            assert(out@ + flat_outputs(all.skip(k as int)) =~= out@);
        }
        out
    }

    /// Every window handle of every workspace, flattened in workspace
    /// order.
    pub fn all_windows(&self) -> (r: Vec<WindowElement>)
        ensures
            r@ == flat_window_elems(self.workspaces@),
    {
        let ghost all = self.workspaces@;
        let mut out: Vec<WindowElement> = Vec::new();
        let mut k: usize = 0;
        proof {
            assert(all.skip(0) =~= all);
            assert(out@ + flat_window_elems(all.skip(0)) =~= flat_window_elems(all));
        }
        while k < self.workspaces.len()
            invariant
                0 <= k <= all.len(),
                self.workspaces@ == all,
                out@ + flat_window_elems(all.skip(k as int)) == flat_window_elems(all),
            decreases all.len() - k,
        {
            proof {
                assert(all.skip(k as int)[0] == all[k as int]);
                assert(all.skip(k as int).drop_first() =~= all.skip(k as int + 1));
            }
            let ghost ws_elems = all[k as int].windows@.map_values(
                |m: MagmaWindow| m.window,
            );
            let records = &self.workspaces[k].windows;
            let mut j: usize = 0;
            while j < records.len()
                invariant
                    0 <= j <= records@.len(),
                    records@ == all[k as int].windows@,
                    ws_elems == all[k as int].windows@.map_values(|m: MagmaWindow| m.window),
                    0 <= k < all.len(),
                    out@ + ws_elems.skip(j as int) + flat_window_elems(all.skip(k as int + 1))
                        == flat_window_elems(all),
                decreases records@.len() - j,
            {
                proof {
                    assert(ws_elems.skip(j as int)[0] == ws_elems[j as int]);
                    assert(ws_elems[j as int] == records@[j as int].window);
                    assert(out@.push(ws_elems[j as int]) + ws_elems.skip(j as int + 1)
                        =~= out@ + ws_elems.skip(j as int));
                }
                out.push(records[j].window);
                j = j + 1;
            }
            proof {
                assert(ws_elems.skip(j as int).len() == 0);
                assert(out@ + ws_elems.skip(j as int) =~= out@);
            }
            k = k + 1;
        }
        proof {
            assert(flat_window_elems(all.skip(k as int)) =~= Seq::<WindowElement>::empty());
            assert(out@ + flat_window_elems(all.skip(k as int)) =~= out@);
        }
        out
    }

    /// The workspace currently shown.
    pub fn current(&self) -> (r: &Workspace)
        requires
            self.wf(),
        ensures
            *r == self.workspaces@[self.current as int],
    {
        &self.workspaces[self.current as usize]
    }

    /// The index of the workspace holding the given window, if any.
    pub fn workspace_from_window(&self, window: &WindowElement) -> (r: Option<usize>)
        ensures
            match r {
                Some(i) => Some(i as int) == spec_workspace_of(
                    self.workspaces@,
                    window.spec_id(),
                ),
                None => spec_workspace_of(self.workspaces@, window.spec_id()) is None,
            },
    {
        let ghost all = self.workspaces@;
        let id = window.id();
        let mut k: usize = 0;
        proof {
            lemma_workspace_of(all, id);
            assert(all.skip(0) =~= all);
        }
        while k < self.workspaces.len()
            invariant
                0 <= k <= all.len(),
                self.workspaces@ == all,
                id == window.spec_id(),
                match spec_workspace_of(all, id) {
                    Some(i) => k <= i && spec_workspace_of(all.skip(k as int), id) == Some(
                        i - k as int,
                    ),
                    None => spec_workspace_of(all.skip(k as int), id) is None,
                },
            decreases all.len() - k,
        {
            proof {
                assert(all.skip(k as int)[0] == all[k as int]);
                assert(all.skip(k as int).drop_first() =~= all.skip(k as int + 1));
            }
            if self.workspaces[k].contains_window(window) {
                proof {
                    assert(all.skip(k as int)[0].contains_id(id));
                    assert(spec_workspace_of(all.skip(k as int), id) == Some(0int));
                }
                return Some(k);
            }
            proof {
                assert(!all.skip(k as int)[0].contains_id(id));
                lemma_workspace_of(all.skip(k as int + 1), id);
            }
            k = k + 1;
        }
        proof {
            assert(all.skip(k as int).len() == 0);
        }
        None
    }

    /// Make the workspace with the given index current. An out-of-range
    /// index is ignored: the current workspace stays as it is.
    pub fn activate(&mut self, id: u8)
        requires
            old(self).wf(),
        ensures
            final(self).wf(),
            final(self).workspaces@ == old(self).workspaces@,
            final(self).current == if (id as int) < old(self).workspaces@.len() {
                id
            } else {
                old(self).current
            },
    {
        if (id as usize) < self.workspaces.len() {
            self.current = id;
        }
    }
    /// Move the window to the workspace with the given index: it is
    /// removed from whichever workspace holds it (recomputing that
    /// workspace's layout) and added to the target workspace, where the
    /// classifier runs afresh — a window's tiled/floating status can
    /// change on transfer, by design. Nothing happens when no workspace
    /// holds the window or the target index is out of range.
    pub fn move_window_to_workspace(&mut self, window: &WindowElement, workspace: u8)
        requires
            old(self).wf(),
        ensures
            final(self).wf(),
            final(self).current == old(self).current,
            final(self).workspaces@.len() == old(self).workspaces@.len(),
            ({
                let id = window.spec_id();
                let srcopt = spec_workspace_of(old(self).workspaces@, id);
                if (workspace as int) < old(self).workspaces@.len() && srcopt is Some {
                    let i = srcopt.unwrap();
                    let t = workspace as int;
                    let m = spec_record_lookup(old(self).workspaces@[i].windows@, id).unwrap();
                    let pruned = old(self).workspaces@[t].layout_tree.spec_remove(id);
                    &&& (forall|j: int| 0 <= j < old(self).workspaces@.len() && j != i && j != t
                        ==> final(self).workspaces@[j] == old(self).workspaces@[j])
                    &&& final(self).workspaces@[t].contains_id(id)
                    &&& (i != t ==> !final(self).workspaces@[i].contains_id(id))
                    &&& (i != t ==> final(self).workspaces@[i].ids()
                        == crate::seqs::seq_remove_first(old(self).workspaces@[i].ids(), id)
                        && final(self).workspaces@[t].ids()
                        == old(self).workspaces@[t].ids().push(id))
                    &&& (i == t ==> final(self).workspaces@[i].ids()
                        == crate::seqs::seq_remove_first(old(self).workspaces@[i].ids(), id).push(
                        id,
                    ))
                    &&& (i != t ==> final(self).workspaces@[i].layout_tree
                        == old(self).workspaces@[i].layout_tree.spec_remove(id)
                        && final(self).workspaces@[i].floating@
                        == crate::seqs::seq_remove_first(
                        old(self).workspaces@[i].floating@,
                        id,
                    ))
                    &&& (i != t ==> (
                    if crate::classifier::spec_decide(m.window) is Floating {
                        final(self).workspaces@[t].layout_tree == pruned
                            && final(self).workspaces@[t].floating@ == seq![id]
                            + crate::seqs::seq_remove_first(
                            old(self).workspaces@[t].floating@,
                            id,
                        )
                    } else {
                        final(self).workspaces@[t].layout_tree == pruned.spec_insert(
                            id,
                            pruned.spec_next_split(),
                            DEFAULT_RATIO,
                        ) && final(self).workspaces@[t].floating@
                            == crate::seqs::seq_remove_first(
                            old(self).workspaces@[t].floating@,
                            id,
                        )
                    }))
                } else {
                    final(self).workspaces@ == old(self).workspaces@
                }
            }),
    {
        let ghost pre = *self;
        let id = window.id();
        if (workspace as usize) >= self.workspaces.len() {
            return;
        }
        let src = self.workspace_from_window(window);
        match src {
            None => {
                proof {
                    lemma_workspace_of(pre.workspaces@, id);
                }
            },
            Some(i) => {
                proof {
                    lemma_workspace_of(pre.workspaces@, id);
                }
                let mut ws = self.workspaces.remove(i);
                let removed = ws.remove_window(window);
                self.workspaces.insert(i, ws);
                let ghost ws1 = self.workspaces@[i as int];
                proof {
                    assert(self.workspaces@ =~= pre.workspaces@.update(i as int, ws1));
                    crate::seqs::lemma_remove_first_no_duplicates(
                        pre.workspaces@[i as int].ids(),
                        id,
                    );
                    assert(self.wf()) by {
                        assert forall|a: int, b: int, x: u64|
                            0 <= a < self.workspaces@.len() && 0 <= b < self.workspaces@.len()
                                && a != b implies !(
                            (#[trigger] self.workspaces@[a].contains_id(x))
                                && (#[trigger] self.workspaces@[b].contains_id(x))) by {
                            if self.workspaces@[a].contains_id(x)
                                && self.workspaces@[b].contains_id(x) {
                                assert(pre.workspaces@[a].contains_id(x)) by {
                                    if a == i as int {
                                        assert(x != id);
                                        assert(pre.workspaces@[a].ids().contains(x));
                                    }
                                }
                                assert(pre.workspaces@[b].contains_id(x)) by {
                                    if b == i as int {
                                        assert(x != id);
                                        assert(pre.workspaces@[b].ids().contains(x));
                                    }
                                }
                            }
                        }
                    }
                }
                let ghost midws = *self;
                match removed {
                    Some(m) => {
                        proof {
                            lemma_record_lookup(pre.workspaces@[i as int].windows@, id);
                            let j = choose|j: int| 0 <= j
                                < pre.workspaces@[i as int].windows@.len()
                                && pre.workspaces@[i as int].windows@[j] == m;
                            assert(pre.workspaces@[i as int].windows@[j].bounded());
                        }
                        let t = workspace as usize;
                        let mut target = self.workspaces.remove(t);
                        target.add_window(m);
                        let ghost ws2 = target;
                        self.workspaces.insert(t, target);
                        proof {
                            assert(self.workspaces@ =~= midws.workspaces@.update(
                                t as int,
                                ws2,
                            ));
                            if t != i {
                                assert(!pre.workspaces@[t as int].contains_id(id));
                                crate::seqs::lemma_remove_first_absent(
                                    pre.workspaces@[t as int].floating@,
                                    id,
                                );
                                crate::seqs::lemma_remove_first_absent(
                                    pre.workspaces@[t as int].ids(),
                                    id,
                                );
                                crate::binarytree::lemma_remove_absent(
                                    pre.workspaces@[t as int].layout_tree,
                                    id,
                                );
                                assert(!pre.workspaces@[t as int].tiled_ids().contains(id));
                            } else {
                                crate::seqs::lemma_remove_first_absent(
                                    crate::seqs::seq_remove_first(
                                        pre.workspaces@[i as int].ids(),
                                        id,
                                    ),
                                    id,
                                );
                            }
                            crate::seqs::lemma_remove_first_no_duplicates(
                                midws.workspaces@[t as int].ids(),
                                id,
                            );
                            crate::seqs::lemma_push_fresh_no_duplicates(
                                crate::seqs::seq_remove_first(
                                    midws.workspaces@[t as int].ids(),
                                    id,
                                ),
                                id,
                            );
                            assert(self.wf()) by {
                                assert forall|a: int, b: int, x: u64|
                                    0 <= a < self.workspaces@.len() && 0 <= b
                                        < self.workspaces@.len() && a != b implies !(
                                    (#[trigger] self.workspaces@[a].contains_id(x))
                                        && (#[trigger] self.workspaces@[b].contains_id(x))) by {
                                    if self.workspaces@[a].contains_id(x)
                                        && self.workspaces@[b].contains_id(x) {
                                        if a == t as int {
                                            assert(ws2.contains_id(x));
                                            if x == id {
                                                assert(midws.workspaces@[b].contains_id(id));
                                                if b == i as int {
                                                    assert(!ws1.contains_id(id));
                                                } else {
                                                    assert(pre.workspaces@[b].contains_id(id));
                                                    assert(pre.workspaces@[i as int].contains_id(
                                                        id,
                                                    ));
                                                }
                                            } else {
                                                assert(midws.workspaces@[a].contains_id(x));
                                                assert(midws.workspaces@[b].contains_id(x));
                                            }
                                        } else if b == t as int {
                                            assert(ws2.contains_id(x));
                                            if x == id {
                                                assert(midws.workspaces@[a].contains_id(id));
                                                if a == i as int {
                                                    assert(!ws1.contains_id(id));
                                                } else {
                                                    assert(pre.workspaces@[a].contains_id(id));
                                                    assert(pre.workspaces@[i as int].contains_id(
                                                        id,
                                                    ));
                                                }
                                            } else {
                                                assert(midws.workspaces@[a].contains_id(x));
                                                assert(midws.workspaces@[b].contains_id(x));
                                            }
                                        } else {
                                            assert(midws.workspaces@[a].contains_id(x));
                                            assert(midws.workspaces@[b].contains_id(x));
                                        }
                                    }
                                }
                            }
                        }
                    },
                    None => {
                        proof {
                            assert(pre.workspaces@[i as int].contains_id(id));
                            assert(false);
                        }
                    },
                }
            },
        }
    }
}

} // verus!
