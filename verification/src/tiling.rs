//! The layout engine: walks a layout tree against an output's usable
//! rectangle and the gap configuration, producing one rectangle per tiled
//! window. Purely a function of its inputs: identical tree, rectangle and
//! gaps always yield identical results.

use vstd::prelude::*;

use crate::binarytree::{BinaryTree, HorizontalOrVertical, RATIO_DENOM};
use crate::geometry::{
    spec_deflate, spec_inflate, spec_inset_clamped, deflate, inset_clamped, Rect, GAP_LIMIT,
};
use crate::workspace::{record_ids, MagmaWindow, Workspace};

verus! {

/// The length of the sub-region carved for the newer side of a split:
/// the given fraction of `len`, rounded down, or nothing when the region
/// is already degenerate.
pub open spec fn spec_carve(len: int, ratio: int) -> int {
    if len <= 0 {
        0
    } else {
        len * ratio / (RATIO_DENOM as int)
    }
}

/// The carved length is never negative and never exceeds the region.
pub proof fn lemma_carve_bounds(len: int, ratio: int)
    requires
        0 <= ratio <= RATIO_DENOM as int,
    ensures
        0 <= spec_carve(len, ratio),
        len >= 0 ==> spec_carve(len, ratio) <= len,
{
    if len > 0 {
        assert(0 <= len * ratio / 1000 <= len) by (nonlinear_arith)
            requires
                0 < len,
                0 <= ratio <= 1000,
        ;
    }
}

/// The fraction of `len` given by `ratio`, rounded down.
pub fn carve(len: i32, ratio: u32) -> (c: i32)
    requires
        len <= 0x4000_0000,
        ratio <= RATIO_DENOM,
    ensures
        c == spec_carve(len as int, ratio as int),
        0 <= c,
        len >= 0 ==> c <= len,
{
    proof {
        lemma_carve_bounds(len as int, ratio as int);
    }
    if len <= 0 {
        0
    } else {
        ((len as u64) * (ratio as u64) / (RATIO_DENOM as u64)) as i32
    }
}

/// The sub-region carved from the trailing edge of `r` for the newer side
/// of a split: the right edge for a horizontal split, the bottom edge for
/// a vertical one.
pub open spec fn spec_split_new(r: Rect, o: HorizontalOrVertical, ratio: int) -> Rect {
    let c = spec_carve(if o is Horizontal { r.w as int } else { r.h as int }, ratio);
    if o is Horizontal {
        Rect { x: (r.x + r.w - c) as i32, y: r.y, w: c as i32, h: r.h }
    } else {
        Rect { x: r.x, y: (r.y + r.h - c) as i32, w: r.w, h: c as i32 }
    }
}

/// The remainder of `r` once the newer side's sub-region is carved off:
/// what the earlier windows keep.
pub open spec fn spec_split_rem(r: Rect, o: HorizontalOrVertical, ratio: int) -> Rect {
    let c = spec_carve(if o is Horizontal { r.w as int } else { r.h as int }, ratio);
    if o is Horizontal {
        Rect { x: r.x, y: r.y, w: (r.w - c) as i32, h: r.h }
    } else {
        Rect { x: r.x, y: r.y, w: r.w, h: (r.h - c) as i32 }
    }
}

/// One rectangle per window of the tree, in the tree's depth-first window
/// order: at each split the left window keeps the remainder while the
/// right subtree subdivides the carved sub-region, and every rectangle is
/// deflated by the inner gap before it is recorded.
pub open spec fn spec_layout_seq(tree: BinaryTree, region: Rect, inner: int) -> Seq<(u64, Rect)>
    decreases tree,
{
    match tree {
        BinaryTree::Empty => Seq::empty(),
        BinaryTree::Window(w) => seq![(w, spec_deflate(region, inner))],
        BinaryTree::Split { split, ratio, left, right } => {
            spec_layout_seq(*left, spec_split_rem(region, split, ratio as int), inner)
                + spec_layout_seq(*right, spec_split_new(region, split, ratio as int), inner)
        },
    }
}

/// What the engine assigns for a whole tree: nothing for an empty tree,
/// the usable rectangle inset by the outer gap alone for a single window,
/// and the recursive split layout (inner gap applied per window) for a
/// tree of two or more windows.
pub open spec fn spec_generate_layout(
    tree: BinaryTree,
    usable: Rect,
    outer: int,
    inner: int,
) -> Seq<(u64, Rect)> {
    match tree {
        BinaryTree::Empty => Seq::empty(),
        BinaryTree::Window(w) => seq![(w, spec_inset_clamped(usable, outer))],
        BinaryTree::Split { .. } => spec_layout_seq(
            tree,
            spec_inset_clamped(usable, outer),
            inner,
        ),
    }
}

/// The layout lists exactly the tree's windows, in the tree's own order:
/// entry `j` belongs to window `j` of the tree.
pub proof fn lemma_layout_seq_ids(tree: BinaryTree, region: Rect, inner: int)
    ensures
        spec_layout_seq(tree, region, inner).len() == tree.windows_seq().len(),
        forall|j: int| 0 <= j < tree.windows_seq().len()
            ==> (#[trigger] spec_layout_seq(tree, region, inner)[j]).0 == tree.windows_seq()[j],
    decreases tree,
{
    match tree {
        BinaryTree::Empty => {},
        BinaryTree::Window(_) => {},
        BinaryTree::Split { split, ratio, left, right } => {
            lemma_layout_seq_ids(*left, spec_split_rem(region, split, ratio as int), inner);
            lemma_layout_seq_ids(*right, spec_split_new(region, split, ratio as int), inner);
        },
    }
}

/// Every rectangle of the list, inflated back out by `inner`, lies within `outer_r`.
pub open spec fn entries_within(s: Seq<(u64, Rect)>, outer_r: Rect, inner: int) -> bool {
    forall|j: int| 0 <= j < s.len() ==> spec_inflate((#[trigger] s[j]).1, inner).within(outer_r)
}

proof fn lemma_within_trans(a: Rect, b: Rect, c: Rect)
    requires
        a.within(b),
        b.within(c),
    ensures
        a.within(c),
{
}

proof fn lemma_layout_seq_within(tree: BinaryTree, region: Rect, inner: int)
    requires
        tree.wf(),
        region.region_ok(),
        0 <= inner <= GAP_LIMIT as int,
    ensures
        entries_within(spec_layout_seq(tree, region, inner), region, inner),
    decreases tree,
{
    match tree {
        BinaryTree::Empty => {},
        BinaryTree::Window(_) => {
            assert(spec_inflate(spec_deflate(region, inner), inner).within(region));
        },
        BinaryTree::Split { split, ratio, left, right } => {
            let rem = spec_split_rem(region, split, ratio as int);
            let new = spec_split_new(region, split, ratio as int);
            lemma_carve_bounds(
                if split is Horizontal { region.w as int } else { region.h as int },
                ratio as int,
            );
            assert(rem.within(region) && rem.region_ok());
            assert(new.within(region) && new.region_ok());
            lemma_layout_seq_within(*left, rem, inner);
            lemma_layout_seq_within(*right, new, inner);
            let sl = spec_layout_seq(*left, rem, inner);
            let sr = spec_layout_seq(*right, new, inner);
            let s = spec_layout_seq(tree, region, inner);
            assert forall|j: int| 0 <= j < s.len() implies
                spec_inflate((#[trigger] s[j]).1, inner).within(region) by {
                if j < sl.len() {
                    assert(s[j] == sl[j]);
                    lemma_within_trans(spec_inflate(sl[j].1, inner), rem, region);
                } else {
                    assert(s[j] == sr[j - sl.len()]);
                    lemma_within_trans(spec_inflate(sr[j - sl.len()].1, inner), new, region);
                }
            }
        },
    }
}

/// For every tree depth and every ratio inside (0,1): the rectangles the
/// engine assigns, each inflated back out by the inner gap, all lie within
/// the usable output rectangle. Holds whenever the usable rectangle has
/// room for the outer gap; for a tree of a single window (whose rectangle
/// is inset by the outer gap alone) it additionally needs the inner gap
/// not to exceed the outer one.
pub proof fn lemma_layout_within_usable(tree: BinaryTree, usable: Rect, outer: int, inner: int)
    requires
        tree.wf(),
        usable.bounded(),
        0 <= outer <= GAP_LIMIT as int,
        0 <= inner <= GAP_LIMIT as int,
        2 * outer <= usable.w,
        2 * outer <= usable.h,
        tree is Split || inner <= outer,
    ensures
        entries_within(spec_generate_layout(tree, usable, outer, inner), usable, inner),
{
    let region = spec_inset_clamped(usable, outer);
    assert(region.region_ok());
    assert(region.within(usable));
    match tree {
        BinaryTree::Empty => {},
        BinaryTree::Window(_) => {
            assert(spec_inflate(region, inner).within(usable));
        },
        BinaryTree::Split { .. } => {
            lemma_layout_seq_within(tree, region, inner);
            let s = spec_generate_layout(tree, usable, outer, inner);
            assert forall|j: int| 0 <= j < s.len() implies
                spec_inflate((#[trigger] s[j]).1, inner).within(usable) by {
                lemma_within_trans(spec_inflate(s[j].1, inner), region, usable);
            }
        },
    }
}

proof fn lemma_layout_seq_bounded(tree: BinaryTree, region: Rect, inner: int)
    requires
        tree.wf(),
        region.region_ok(),
        0 <= inner <= GAP_LIMIT as int,
    ensures
        forall|j: int| 0 <= j < spec_layout_seq(tree, region, inner).len()
            ==> (#[trigger] spec_layout_seq(tree, region, inner)[j]).1.placed_bounded(),
    decreases tree,
{
    match tree {
        BinaryTree::Empty => {},
        BinaryTree::Window(_) => {},
        BinaryTree::Split { split, ratio, left, right } => {
            let rem = spec_split_rem(region, split, ratio as int);
            let new = spec_split_new(region, split, ratio as int);
            lemma_carve_bounds(
                if split is Horizontal { region.w as int } else { region.h as int },
                ratio as int,
            );
            lemma_layout_seq_bounded(*left, rem, inner);
            lemma_layout_seq_bounded(*right, new, inner);
            let sl = spec_layout_seq(*left, rem, inner);
            let sr = spec_layout_seq(*right, new, inner);
            let s = spec_layout_seq(tree, region, inner);
            assert forall|j: int| 0 <= j < s.len() implies
                (#[trigger] s[j]).1.placed_bounded() by {
                if j < sl.len() {
                    assert(s[j] == sl[j]);
                } else {
                    assert(s[j] == sr[j - sl.len()]);
                }
            }
        },
    }
}

/// Every rectangle the engine assigns stays within the placed-rectangle
/// magnitude limit.
pub proof fn lemma_generate_layout_bounded(tree: BinaryTree, usable: Rect, outer: int, inner: int)
    requires
        tree.wf(),
        usable.bounded(),
        0 <= outer <= GAP_LIMIT as int,
        0 <= inner <= GAP_LIMIT as int,
    ensures
        forall|j: int| 0 <= j < spec_generate_layout(tree, usable, outer, inner).len()
            ==> (#[trigger] spec_generate_layout(tree, usable, outer, inner)[j]).1.placed_bounded(),
{
    let region = spec_inset_clamped(usable, outer);
    assert(region.region_ok());
    match tree {
        BinaryTree::Empty => {},
        BinaryTree::Window(_) => {},
        BinaryTree::Split { .. } => {
            lemma_layout_seq_bounded(tree, region, inner);
        },
    }
}

/// The rectangle the layout assigns to window `id`: that of its first
/// entry in the list, or nothing if the window is not listed.
pub open spec fn spec_rect_lookup(s: Seq<(u64, Rect)>, id: u64) -> Option<Rect>
    decreases s.len(),
{
    if s.len() == 0 {
        None
    } else if s[0].0 == id {
        Some(s[0].1)
    } else {
        spec_rect_lookup(s.drop_first(), id)
    }
}

/// Find the rectangle assigned to `id`, if any.
pub fn rect_lookup(s: &Vec<(u64, Rect)>, id: u64) -> (r: Option<Rect>)
    ensures
        r == spec_rect_lookup(s@, id),
{
    let mut k: usize = 0;
    proof {
        assert(s@.skip(0) =~= s@);
    }
    while k < s.len()
        invariant
            0 <= k <= s@.len(),
            spec_rect_lookup(s@, id) == spec_rect_lookup(s@.skip(k as int), id),
        decreases s@.len() - k,
    {
        proof {
            assert(s@.skip(k as int)[0] == s@[k as int]);
            assert(s@.skip(k as int).drop_first() =~= s@.skip(k as int + 1));
        }
        if s[k].0 == id {
            return Some(s[k].1);
        }
        k = k + 1;
    }
    proof {
        assert(s@.skip(k as int).len() == 0);
    }
    None
}

/// A found rectangle is one of the list's entries.
pub proof fn lemma_rect_lookup_entry(s: Seq<(u64, Rect)>, id: u64)
    ensures
        spec_rect_lookup(s, id) matches Some(r) ==> exists|j: int|
            0 <= j < s.len() && #[trigger] s[j] == (id, r),
    decreases s.len(),
{
    if s.len() == 0 {
    } else if s[0].0 == id {
        assert(s[0] == (id, s[0].1));
    } else {
        lemma_rect_lookup_entry(s.drop_first(), id);
        if spec_rect_lookup(s, id) is Some {
            let r = spec_rect_lookup(s, id).unwrap();
            let j = choose|j: int| 0 <= j < s.drop_first().len()
                && #[trigger] s.drop_first()[j] == (id, r);
            assert(s[j + 1] == (id, r));
        }
    }
}

/// A window listed by no entry has no rectangle.
pub proof fn lemma_rect_lookup_absent(s: Seq<(u64, Rect)>, id: u64)
    requires
        forall|j: int| 0 <= j < s.len() ==> (#[trigger] s[j]).0 != id,
    ensures
        spec_rect_lookup(s, id) is None,
    decreases s.len(),
{
    if s.len() > 0 {
        assert(forall|j: int| 0 <= j < s.drop_first().len()
            ==> (#[trigger] s.drop_first()[j]).0 != id) by {
            assert(forall|j: int| 0 <= j < s.drop_first().len() ==> s.drop_first()[j] == s[j + 1]);
        }
        lemma_rect_lookup_absent(s.drop_first(), id);
    }
}

/// The engine's output lists exactly the tree's windows, in tree order.
pub proof fn lemma_generate_layout_ids(tree: BinaryTree, usable: Rect, outer: int, inner: int)
    ensures
        spec_generate_layout(tree, usable, outer, inner).len() == tree.windows_seq().len(),
        forall|j: int| 0 <= j < tree.windows_seq().len()
            ==> (#[trigger] spec_generate_layout(tree, usable, outer, inner)[j]).0
                == tree.windows_seq()[j],
{
    match tree {
        BinaryTree::Empty => {},
        BinaryTree::Window(_) => {},
        BinaryTree::Split { .. } => {
            lemma_layout_seq_ids(tree, spec_inset_clamped(usable, outer), inner);
        },
    }
}

/// A window some entry lists has a rectangle.
pub proof fn lemma_rect_lookup_present(s: Seq<(u64, Rect)>, id: u64)
    requires
        exists|j: int| 0 <= j < s.len() && (#[trigger] s[j]).0 == id,
    ensures
        spec_rect_lookup(s, id) is Some,
    decreases s.len(),
{
    if s[0].0 == id {
    } else {
        let j = choose|j: int| 0 <= j < s.len() && (#[trigger] s[j]).0 == id;
        assert(s.drop_first()[j - 1] == s[j]);
        lemma_rect_lookup_present(s.drop_first(), id);
    }
}

/// A window of the tree always gets a rectangle from the engine.
pub proof fn lemma_layout_lookup_in_tree(
    tree: BinaryTree,
    usable: Rect,
    outer: int,
    inner: int,
    id: u64,
)
    requires
        tree.windows_seq().contains(id),
    ensures
        spec_rect_lookup(spec_generate_layout(tree, usable, outer, inner), id) is Some,
{
    lemma_generate_layout_ids(tree, usable, outer, inner);
    let s = spec_generate_layout(tree, usable, outer, inner);
    let j = choose|j: int| 0 <= j < tree.windows_seq().len() && tree.windows_seq()[j] == id;
    assert(s[j].0 == id);
    lemma_rect_lookup_present(s, id);
}

/// A window not in the tree gets no rectangle from the engine.
pub proof fn lemma_layout_lookup_not_in_tree(
    tree: BinaryTree,
    usable: Rect,
    outer: int,
    inner: int,
    id: u64,
)
    requires
        !tree.windows_seq().contains(id),
    ensures
        spec_rect_lookup(spec_generate_layout(tree, usable, outer, inner), id) is None,
{
    lemma_generate_layout_ids(tree, usable, outer, inner);
    let s = spec_generate_layout(tree, usable, outer, inner);
    assert forall|j: int| 0 <= j < s.len() implies (#[trigger] s[j]).0 != id by {
        assert(s[j].0 == tree.windows_seq()[j]);
        assert(tree.windows_seq().contains(tree.windows_seq()[j]));
    }
    lemma_rect_lookup_absent(s, id);
}

/// How a recomputation changes the registry: every record keeps its
/// window handle, a window listed in the layout takes the layout's
/// rectangle, and every other window keeps the rectangle it had.
pub open spec fn registry_updated(
    pre: Seq<MagmaWindow>,
    post: Seq<MagmaWindow>,
    layout: Seq<(u64, Rect)>,
) -> bool {
    &&& post.len() == pre.len()
    &&& forall|i: int| 0 <= i < pre.len() ==> {
        &&& (#[trigger] post[i]).window == pre[i].window
        &&& post[i].rec == match spec_rect_lookup(layout, pre[i].window.spec_id()) {
            Some(r) => r,
            None => pre[i].rec,
        }
    }
}

/// Re-running the engine with no structural change yields bit-identical
/// rectangles: the engine's output is a function of tree, rectangle and
/// gaps alone, so a second recomputation against the same layout leaves
/// every record exactly as the first one did.
pub proof fn lemma_recompute_idempotent(
    pre: Seq<MagmaWindow>,
    once: Seq<MagmaWindow>,
    twice: Seq<MagmaWindow>,
    layout: Seq<(u64, Rect)>,
)
    requires
        registry_updated(pre, once, layout),
        registry_updated(once, twice, layout),
    ensures
        twice == once,
{
    assert forall|i: int| 0 <= i < once.len() implies twice[i] == once[i] by {
        assert(once[i].window == pre[i].window);
    }
    assert(twice =~= once);
}

/// Recompute the layout of a workspace: run the engine for the current
/// tree on the workspace's primary output and write each tiled window's
/// new rectangle into its record. Floating windows, and every window while
/// no output is assigned, keep their rectangles. The caller then delivers
/// one configure request per affected window.
pub fn bsp_update_layout(workspace: &mut Workspace)
    requires
        old(workspace).wf(),
    ensures
        final(workspace).wf(),
        final(workspace).layout_tree == old(workspace).layout_tree,
        final(workspace).floating@ == old(workspace).floating@,
        final(workspace).outputs@ == old(workspace).outputs@,
        final(workspace).gaps == old(workspace).gaps,
        registry_updated(
            old(workspace).windows@,
            final(workspace).windows@,
            old(workspace).spec_layout_of(),
        ),
        final(workspace).ids() == old(workspace).ids(),
{
    let ghost pre = workspace.windows@;
    let ghost layout = workspace.spec_layout_of();
    if workspace.outputs.len() == 0 {
        proof {
            assert(workspace.ids() =~= workspace.ids());
            assert(registry_updated(pre, pre, layout));
        }
        return;
    }
    let usable = workspace.outputs[0].usable;
    let pairs = generate_layout(&workspace.layout_tree, usable, workspace.gaps);
    proof {
        lemma_generate_layout_bounded(
            workspace.layout_tree,
            usable,
            workspace.gaps.0 as int,
            workspace.gaps.1 as int,
        );
    }
    let mut out: Vec<MagmaWindow> = Vec::new();
    let mut i: usize = 0;
    while i < workspace.windows.len()
        invariant
            workspace.windows@ == pre,
            pairs@ == layout,
            0 <= i <= pre.len(),
            out@.len() == i,
            forall|j: int| 0 <= j < pre.len() ==> (#[trigger] pre[j]).bounded(),
            forall|j: int| 0 <= j < layout.len() ==> (#[trigger] layout[j]).1.placed_bounded(),
            forall|j: int| 0 <= j < i ==> {
                &&& (#[trigger] out@[j]).window == pre[j].window
                &&& out@[j].rec == match spec_rect_lookup(layout, pre[j].window.spec_id()) {
                    Some(r) => r,
                    None => pre[j].rec,
                }
                &&& out@[j].bounded()
            },
        decreases pre.len() - i,
    {
        let m = workspace.windows[i];
        let mut placed = m;
        match rect_lookup(&pairs, m.window.id()) {
            Some(r) => {
                proof {
                    lemma_rect_lookup_entry(layout, m.window.spec_id());
                }
                placed.rec = r;
            },
            None => {},
        }
        out.push(placed);
        i = i + 1;
    }
    workspace.windows = out;
    proof {
        assert(final(workspace).ids() =~= old(workspace).ids()) by {
            assert(record_ids(workspace.windows@).len() == record_ids(pre).len());
            assert(forall|j: int| 0 <= j < pre.len()
                ==> record_ids(workspace.windows@)[j] == record_ids(pre)[j]);
        }
    }
}

fn layout_rec(tree: &BinaryTree, region: Rect, inner: i32, out: &mut Vec<(u64, Rect)>)
    requires
        tree.wf(),
        region.region_ok(),
        0 <= inner <= GAP_LIMIT,
    ensures
        final(out)@ == old(out)@ + spec_layout_seq(*tree, region, inner as int),
    decreases tree,
{
    match tree {
        BinaryTree::Empty => {
            assert(out@ =~= old(out)@ + spec_layout_seq(*tree, region, inner as int));
        },
        BinaryTree::Window(w) => {
            out.push((*w, deflate(region, inner)));
            assert(out@ =~= old(out)@ + spec_layout_seq(*tree, region, inner as int));
        },
        BinaryTree::Split { split, ratio, left, right } => {
            let len = if let HorizontalOrVertical::Horizontal = split {
                region.w
            } else {
                region.h
            };
            let c = carve(len, *ratio);
            let (new_region, rem_region) = match split {
                HorizontalOrVertical::Horizontal => (
                    Rect { x: region.x + region.w - c, y: region.y, w: c, h: region.h },
                    Rect { x: region.x, y: region.y, w: region.w - c, h: region.h },
                ),
                HorizontalOrVertical::Vertical => (
                    Rect { x: region.x, y: region.y + region.h - c, w: region.w, h: c },
                    Rect { x: region.x, y: region.y, w: region.w, h: region.h - c },
                ),
            };
            assert(new_region == spec_split_new(region, *split, *ratio as int));
            assert(rem_region == spec_split_rem(region, *split, *ratio as int));
            layout_rec(left, rem_region, inner, out);
            layout_rec(right, new_region, inner, out);
            assert(out@ =~= old(out)@ + spec_layout_seq(*tree, region, inner as int));
        },
    }
}

/// Compute the rectangle of every tiled window of `tree` within `usable`,
/// for gap configuration `gaps` (outer, inner). Deterministic: the result
/// is fully determined by the arguments, so re-running it with no change
/// yields identical rectangles.
pub fn generate_layout(tree: &BinaryTree, usable: Rect, gaps: (i32, i32)) -> (r: Vec<(u64, Rect)>)
    requires
        tree.wf(),
        usable.bounded(),
        0 <= gaps.0 <= GAP_LIMIT,
        0 <= gaps.1 <= GAP_LIMIT,
    ensures
        r@ == spec_generate_layout(*tree, usable, gaps.0 as int, gaps.1 as int),
{
    let mut out: Vec<(u64, Rect)> = Vec::new();
    match tree {
        BinaryTree::Empty => {},
        BinaryTree::Window(w) => {
            out.push((*w, inset_clamped(usable, gaps.0)));
        },
        BinaryTree::Split { .. } => {
            let region = inset_clamped(usable, gaps.0);
            layout_rec(tree, region, gaps.1, &mut out);
            assert(out@ =~= Seq::<(u64, Rect)>::empty() + spec_layout_seq(
                *tree,
                spec_inset_clamped(usable, gaps.0 as int),
                gaps.1 as int,
            ));
        },
    }
    out
}

} // verus!

