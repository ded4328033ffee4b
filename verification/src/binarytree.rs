//! The BSP layout tree: a right-leaning spine of splits whose left child
//! is always a single window, so each insertion subdivides the most
//! recently created region.

use vstd::prelude::*;

use crate::seqs::seq_remove_first;

verus! {

/// Split ratios are integer fractions over this denominator.
pub const RATIO_DENOM: u32 = 1000;

/// Smallest admissible ratio numerator; keeps the ratio inside (0,1).
pub const RATIO_MIN: u32 = 1;

/// Largest admissible ratio numerator; keeps the ratio inside (0,1).
pub const RATIO_MAX: u32 = 999;

/// The ratio every fresh split is created with: one half.
pub const DEFAULT_RATIO: u32 = 500;

/// Orientation of a split region.
#[derive(Clone, Copy, Debug, PartialEq, Eq, Structural)]
pub enum HorizontalOrVertical {
    Horizontal,
    Vertical,
}

impl HorizontalOrVertical {
    /// The other orientation.
    pub open spec fn spec_opposite(self) -> HorizontalOrVertical {
        match self {
            HorizontalOrVertical::Horizontal => HorizontalOrVertical::Vertical,
            HorizontalOrVertical::Vertical => HorizontalOrVertical::Horizontal,
        }
    }

    /// Returns the other orientation.
    pub fn opposite(self) -> (r: HorizontalOrVertical)
        ensures
            r == self.spec_opposite(),
    {
        match self {
            HorizontalOrVertical::Horizontal => HorizontalOrVertical::Vertical,
            HorizontalOrVertical::Vertical => HorizontalOrVertical::Horizontal,
        }
    }
}

/// How `update_ratio` combines its argument with a split's current ratio.
#[derive(Clone, Copy, Debug, PartialEq, Eq, Structural)]
pub enum RatioMode {
    Assign,
    Increment,
    Decrement,
}

/// The layout tree. Windows are stored as stable handles; the workspace
/// owns the records they refer to.
#[derive(Debug)]
pub enum BinaryTree {
    Empty,
    Window(u64),
    Split {
        split: HorizontalOrVertical,
        ratio: u32,
        left: Box<BinaryTree>,
        right: Box<BinaryTree>,
    },
}

/// `v` clamped into the admissible ratio range.
pub open spec fn spec_clamp_ratio(v: int) -> u32 {
    if v < RATIO_MIN as int {
        RATIO_MIN
    } else if v > RATIO_MAX as int {
        RATIO_MAX
    } else {
        v as u32
    }
}

/// The clamped result of applying `mode` with `amount` to ratio `cur`.
pub open spec fn spec_apply_ratio(cur: u32, amount: u32, mode: RatioMode) -> u32 {
    match mode {
        RatioMode::Assign => spec_clamp_ratio(amount as int),
        RatioMode::Increment => spec_clamp_ratio(cur as int + amount as int),
        RatioMode::Decrement => spec_clamp_ratio(cur as int - amount as int),
    }
}

impl BinaryTree {
    /// The windows of the tree in depth-first, left-then-right order.
    pub open spec fn windows_seq(self) -> Seq<u64>
        decreases self,
    {
        match self {
            BinaryTree::Empty => Seq::empty(),
            BinaryTree::Window(w) => seq![w],
            BinaryTree::Split { left, right, .. } => left.windows_seq() + right.windows_seq(),
        }
    }

    /// Structural invariant: the left child of every split is a single
    /// window, no split has an empty child, and every ratio lies in (0,1).
    pub open spec fn wf(self) -> bool
        decreases self,
    {
        match self {
            BinaryTree::Empty => true,
            BinaryTree::Window(_) => true,
            BinaryTree::Split { ratio, left, right, .. } => {
                &&& *left is Window
                &&& !(*right is Empty)
                &&& RATIO_MIN <= ratio <= RATIO_MAX
                &&& right.wf()
            },
        }
    }

    /// Along the right spine, each split's orientation differs from the
    /// orientation of the split directly above it.
    pub open spec fn spine_alternates(self) -> bool
        decreases self,
    {
        match self {
            BinaryTree::Empty => true,
            BinaryTree::Window(_) => true,
            BinaryTree::Split { split, right, .. } => {
                &&& match *right {
                    BinaryTree::Split { split: inner, .. } => inner == split.spec_opposite(),
                    _ => true,
                }
                &&& right.spine_alternates()
            },
        }
    }

    /// The orientation `next_split` answers: recurse to the deepest split
    /// of the right spine and take the opposite of its orientation, or
    /// `Horizontal` for a tree of at most one window.
    pub open spec fn spec_next_split(self) -> HorizontalOrVertical
        decreases self,
    {
        match self {
            BinaryTree::Empty => HorizontalOrVertical::Horizontal,
            BinaryTree::Window(_) => HorizontalOrVertical::Horizontal,
            BinaryTree::Split { split, right, .. } => {
                if *right is Split {
                    right.spec_next_split()
                } else {
                    split.spec_opposite()
                }
            },
        }
    }

    /// The tree after inserting `window` at the end of the right spine.
    pub open spec fn spec_insert(
        self,
        window: u64,
        splitnew: HorizontalOrVertical,
        rationew: u32,
    ) -> BinaryTree
        decreases self,
    {
        match self {
            BinaryTree::Empty => BinaryTree::Window(window),
            BinaryTree::Window(w) => BinaryTree::Split {
                split: splitnew,
                ratio: rationew,
                left: Box::new(BinaryTree::Window(w)),
                right: Box::new(BinaryTree::Window(window)),
            },
            BinaryTree::Split { split, ratio, left, right } => BinaryTree::Split {
                split,
                ratio,
                left,
                right: Box::new(right.spec_insert(window, splitnew, rationew)),
            },
        }
    }

    /// The tree after removing `window`: a matching leaf at the root turns
    /// the tree empty; a split whose child is the matching leaf is spliced
    /// out, replaced by the other child's subtree.
    pub open spec fn spec_remove(self, window: u64) -> BinaryTree
        decreases self,
    {
        match self {
            BinaryTree::Empty => BinaryTree::Empty,
            BinaryTree::Window(w) => {
                if w == window {
                    BinaryTree::Empty
                } else {
                    BinaryTree::Window(w)
                }
            },
            BinaryTree::Split { split, ratio, left, right } => {
                if *left matches BinaryTree::Window(w) && w == window {
                    *right
                } else if *right matches BinaryTree::Window(w) && w == window {
                    *left
                } else {
                    BinaryTree::Split {
                        split,
                        ratio,
                        left: Box::new(left.spec_remove(window)),
                        right: Box::new(right.spec_remove(window)),
                    }
                }
            },
        }
    }

    /// The tree after adjusting the ratio of the deepest split on the
    /// right spine; a tree without a split is unchanged.
    pub open spec fn spec_update_ratio(self, amount: u32, mode: RatioMode) -> BinaryTree
        decreases self,
    {
        match self {
            BinaryTree::Empty => BinaryTree::Empty,
            BinaryTree::Window(w) => BinaryTree::Window(w),
            BinaryTree::Split { split, ratio, left, right } => {
                if *right is Split {
                    BinaryTree::Split {
                        split,
                        ratio,
                        left,
                        right: Box::new(right.spec_update_ratio(amount, mode)),
                    }
                } else {
                    BinaryTree::Split {
                        split,
                        ratio: spec_apply_ratio(ratio, amount, mode),
                        left,
                        right,
                    }
                }
            },
        }
    }

    /// A fresh, empty tree.
    pub fn new() -> (r: Self)
        ensures
            r == BinaryTree::Empty,
            r.wf(),
            r.windows_seq() == Seq::<u64>::empty(),
    {
        BinaryTree::Empty
    }

    fn insert_owned(
        tree: BinaryTree,
        window: u64,
        splitnew: HorizontalOrVertical,
        rationew: u32,
    ) -> (r: BinaryTree)
        ensures
            r == tree.spec_insert(window, splitnew, rationew),
        decreases tree,
    {
        match tree {
            BinaryTree::Empty => BinaryTree::Window(window),
            BinaryTree::Window(w) => BinaryTree::Split {
                split: splitnew,
                ratio: rationew,
                left: Box::new(BinaryTree::Window(w)),
                right: Box::new(BinaryTree::Window(window)),
            },
            BinaryTree::Split { split, ratio, left, right } => BinaryTree::Split {
                split,
                ratio,
                left,
                right: Box::new(Self::insert_owned(*right, window, splitnew, rationew)),
            },
        }
    }

    /// Insert `window` at the end of the right spine: an empty tree becomes
    /// a single leaf, a leaf becomes a split of the old and the new window,
    /// and a split passes the insertion to its right child.
    pub fn insert(&mut self, window: u64, splitnew: HorizontalOrVertical, rationew: u32)
        ensures
            *final(self) == old(self).spec_insert(window, splitnew, rationew),
    {
        let mut tmp = BinaryTree::Empty;
        core::mem::swap(self, &mut tmp);
        *self = Self::insert_owned(tmp, window, splitnew, rationew);
    }

    fn remove_owned(tree: BinaryTree, window: u64) -> (r: BinaryTree)
        ensures
            r == tree.spec_remove(window),
        decreases tree,
    {
        match tree {
            BinaryTree::Empty => BinaryTree::Empty,
            BinaryTree::Window(w) => {
                if w == window {
                    BinaryTree::Empty
                } else {
                    BinaryTree::Window(w)
                }
            },
            BinaryTree::Split { split, ratio, left, right } => {
                if let BinaryTree::Window(w) = *left {
                    if w == window {
                        return *right;
                    }
                }
                if let BinaryTree::Window(w) = *right {
                    if w == window {
                        return *left;
                    }
                }
                BinaryTree::Split {
                    split,
                    ratio,
                    left: Box::new(Self::remove_owned(*left, window)),
                    right: Box::new(Self::remove_owned(*right, window)),
                }
            },
        }
    }

    /// Remove `window` from the tree; removing an absent window is a
    /// silent no-op.
    pub fn remove(&mut self, window: u64)
        ensures
            *final(self) == old(self).spec_remove(window),
    {
        let mut tmp = BinaryTree::Empty;
        core::mem::swap(self, &mut tmp);
        *self = Self::remove_owned(tmp, window);
    }

    /// The orientation the next insertion should use: opposite to the
    /// deepest split of the right spine, or `Horizontal` for a tree of at
    /// most one window.
    pub fn next_split(&self) -> (r: HorizontalOrVertical)
        ensures
            r == self.spec_next_split(),
        decreases self,
    {
        match self {
            BinaryTree::Empty => HorizontalOrVertical::Horizontal,
            BinaryTree::Window(_) => HorizontalOrVertical::Horizontal,
            BinaryTree::Split { split, right, .. } => {
                match &**right {
                    BinaryTree::Split { .. } => right.next_split(),
                    _ => split.opposite(),
                }
            },
        }
    }

    /// All windows of the tree, in depth-first left-then-right order;
    /// a fresh vector, recomputed on each call.
    pub fn get_windows(&self) -> (r: Vec<u64>)
        ensures
            r@ == self.windows_seq(),
    {
        let mut result: Vec<u64> = Vec::new();
        self.get_windows_recursive(&mut result);
        result
    }

    fn get_windows_recursive(&self, result: &mut Vec<u64>)
        ensures
            final(result)@ == old(result)@ + self.windows_seq(),
        decreases self,
    {
        match self {
            BinaryTree::Empty => {
                assert(result@ =~= old(result)@ + self.windows_seq());
            },
            BinaryTree::Window(window) => {
                result.push(*window);
                assert(result@ =~= old(result)@ + self.windows_seq());
            },
            BinaryTree::Split { left, right, .. } => {
                left.get_windows_recursive(result);
                right.get_windows_recursive(result);
                assert(result@ =~= old(result)@ + self.windows_seq());
            },
        }
    }

    fn update_ratio_owned(tree: BinaryTree, amount: u32, mode: RatioMode) -> (r: BinaryTree)
        ensures
            r == tree.spec_update_ratio(amount, mode),
        decreases tree,
    {
        match tree {
            BinaryTree::Empty => BinaryTree::Empty,
            BinaryTree::Window(w) => BinaryTree::Window(w),
            BinaryTree::Split { split, ratio, left, right } => {
                if let BinaryTree::Split { .. } = &*right {
                    BinaryTree::Split {
                        split,
                        ratio,
                        left,
                        right: Box::new(Self::update_ratio_owned(*right, amount, mode)),
                    }
                } else {
                    BinaryTree::Split {
                        split,
                        ratio: apply_ratio(ratio, amount, mode),
                        left,
                        right,
                    }
                }
            },
        }
    }

    /// Adjust the ratio of the deepest split on the right spine: assign,
    /// increment or decrement, always clamped into (0,1). A tree without
    /// a split is left unchanged.
    pub fn update_ratio(&mut self, new_ratio: u32, mode: RatioMode)
        ensures
            *final(self) == old(self).spec_update_ratio(new_ratio, mode),
    {
        let mut tmp = BinaryTree::Empty;
        core::mem::swap(self, &mut tmp);
        *self = Self::update_ratio_owned(tmp, new_ratio, mode);
    }
}

impl Default for BinaryTree {
    /// The empty tree.
    fn default() -> (r: Self)
        ensures
            r == BinaryTree::Empty,
    {
        BinaryTree::new()
    }
}

/// Inserting a window appends it to the tree's window sequence: after any
/// sequence of insertions the tree holds exactly the inserted windows, in
/// insertion order, and the insertion never fails or drops a window.
pub proof fn lemma_insert_windows(
    tree: BinaryTree,
    window: u64,
    splitnew: HorizontalOrVertical,
    rationew: u32,
)
    ensures
        tree.spec_insert(window, splitnew, rationew).windows_seq()
            == tree.windows_seq().push(window),
    decreases tree,
{
    reveal_with_fuel(BinaryTree::windows_seq, 3);
    reveal_with_fuel(BinaryTree::spec_insert, 2);
    match tree {
        BinaryTree::Empty => {
            assert(tree.spec_insert(window, splitnew, rationew).windows_seq()
                =~= tree.windows_seq().push(window));
        },
        BinaryTree::Window(_) => {
            assert(tree.spec_insert(window, splitnew, rationew).windows_seq()
                =~= tree.windows_seq().push(window));
        },
        BinaryTree::Split { left, right, .. } => {
            lemma_insert_windows(*right, window, splitnew, rationew);
            assert(left.windows_seq() + right.windows_seq().push(window)
                =~= (left.windows_seq() + right.windows_seq()).push(window));
        },
    }
}

/// Insertion preserves the structural invariant, provided the new ratio is
/// admissible, and never leaves the tree empty.
pub proof fn lemma_insert_wf(
    tree: BinaryTree,
    window: u64,
    splitnew: HorizontalOrVertical,
    rationew: u32,
)
    requires
        tree.wf(),
        RATIO_MIN <= rationew <= RATIO_MAX,
    ensures
        tree.spec_insert(window, splitnew, rationew).wf(),
        !(tree.spec_insert(window, splitnew, rationew) is Empty),
    decreases tree,
{
    reveal_with_fuel(BinaryTree::wf, 3);
    reveal_with_fuel(BinaryTree::spec_insert, 2);
    match tree {
        BinaryTree::Split { right, .. } => {
            lemma_insert_wf(*right, window, splitnew, rationew);
        },
        _ => {},
    }
}

/// After any sequence of insertions of distinct windows the tree holds
/// exactly the inserted windows, each exactly once: inserting a window
/// the tree does not yet hold appends it and keeps the window sequence
/// free of duplicates.
pub proof fn lemma_insert_keeps_windows_unique(
    tree: BinaryTree,
    window: u64,
    splitnew: HorizontalOrVertical,
    rationew: u32,
)
    requires
        tree.windows_seq().no_duplicates(),
        !tree.windows_seq().contains(window),
    ensures
        tree.spec_insert(window, splitnew, rationew).windows_seq()
            == tree.windows_seq().push(window),
        tree.spec_insert(window, splitnew, rationew).windows_seq().no_duplicates(),
        forall|x: u64| tree.spec_insert(window, splitnew, rationew).windows_seq().contains(x)
            <==> (x == window || tree.windows_seq().contains(x)),
{
    lemma_insert_windows(tree, window, splitnew, rationew);
    crate::seqs::lemma_push_fresh_no_duplicates(tree.windows_seq(), window);
}

/// Inserting with the orientation `next_split` answers keeps the right
/// spine strictly alternating: each split's orientation stays opposite to
/// the one directly above it.
pub proof fn lemma_insert_alternates(tree: BinaryTree, window: u64, rationew: u32)
    ensures
        tree.spec_insert(window, tree.spec_next_split(), rationew).spine_alternates()
            <== tree.spine_alternates(),
    decreases tree,
{
    reveal_with_fuel(BinaryTree::spine_alternates, 3);
    reveal_with_fuel(BinaryTree::spec_insert, 2);
    reveal_with_fuel(BinaryTree::spec_next_split, 2);
    if tree.spine_alternates() {
        match tree {
            BinaryTree::Empty => {},
            BinaryTree::Window(_) => {},
            BinaryTree::Split { split, ratio, left, right } => {
                let o = tree.spec_next_split();
                let inserted = right.spec_insert(window, o, rationew);
                match *right {
                    BinaryTree::Split { .. } => {
                        assert(o == right.spec_next_split());
                        lemma_insert_alternates(*right, window, rationew);
                    },
                    _ => {
                        assert(o == split.spec_opposite());
                    },
                }
            },
        }
    }
}

/// Removal preserves the structural invariant, and never empties a tree
/// that still holds a split.
pub proof fn lemma_remove_wf(tree: BinaryTree, window: u64)
    requires
        tree.wf(),
    ensures
        tree.spec_remove(window).wf(),
        tree is Split ==> !(tree.spec_remove(window) is Empty),
    decreases tree,
{
    reveal_with_fuel(BinaryTree::wf, 3);
    reveal_with_fuel(BinaryTree::spec_remove, 2);
    match tree {
        BinaryTree::Split { left, right, .. } => {
            lemma_remove_wf(*left, window);
            lemma_remove_wf(*right, window);
        },
        _ => {},
    }
}

/// Removal strikes exactly the first occurrence of the window from the
/// tree's window sequence, keeping every other window in order; removing
/// an absent window leaves the sequence unchanged.
pub proof fn lemma_remove_windows(tree: BinaryTree, window: u64)
    requires
        tree.wf(),
    ensures
        tree.spec_remove(window).windows_seq() == seq_remove_first(tree.windows_seq(), window),
    decreases tree,
{
    reveal_with_fuel(BinaryTree::windows_seq, 3);
    reveal_with_fuel(BinaryTree::spec_remove, 2);
    match tree {
        BinaryTree::Empty => {},
        BinaryTree::Window(w) => {
            if w == window {
                assert(tree.spec_remove(window).windows_seq()
                    =~= seq_remove_first(tree.windows_seq(), window));
            } else {
                assert(seq_remove_first(seq![w].drop_first(), window) =~= Seq::<u64>::empty());
                assert(tree.spec_remove(window).windows_seq()
                    =~= seq![w] + seq_remove_first(seq![w].drop_first(), window));
            }
        },
        BinaryTree::Split { left, right, .. } => {
            let v = left->Window_0;
            let s = tree.windows_seq();
            assert(s == seq![v] + right.windows_seq());
            assert(s[0] == v);
            assert(s.drop_first() =~= right.windows_seq());
            if v == window {
                assert(tree.spec_remove(window) == *right);
            } else {
                assert(seq_remove_first(s, window)
                    == seq![v] + seq_remove_first(right.windows_seq(), window));
                if *right matches BinaryTree::Window(u) && u == window {
                    assert(seq_remove_first(right.windows_seq(), window)
                        =~= Seq::<u64>::empty());
                    assert(tree.spec_remove(window).windows_seq()
                        =~= seq![v] + Seq::<u64>::empty());
                } else {
                    lemma_remove_windows(*left, window);
                    lemma_remove_windows(*right, window);
                    assert(left.spec_remove(window) == *left);
                    assert(seq_remove_first(left.windows_seq(), window) =~= left.windows_seq());
                }
            }
        },
    }
}

/// Removing a window the tree does not hold leaves the tree unchanged.
pub proof fn lemma_remove_absent(tree: BinaryTree, window: u64)
    requires
        !tree.windows_seq().contains(window),
    ensures
        tree.spec_remove(window) == tree,
    decreases tree,
{
    reveal_with_fuel(BinaryTree::windows_seq, 3);
    reveal_with_fuel(BinaryTree::spec_remove, 2);
    match tree {
        BinaryTree::Empty => {},
        BinaryTree::Window(w) => {
            assert(tree.windows_seq()[0] == w);
        },
        BinaryTree::Split { split, ratio, left, right } => {
            let s = tree.windows_seq();
            assert(!left.windows_seq().contains(window)) by {
                if left.windows_seq().contains(window) {
                    let i = choose|i: int| 0 <= i < left.windows_seq().len()
                        && left.windows_seq()[i] == window;
                    assert(s[i] == window);
                }
            }
            assert(!right.windows_seq().contains(window)) by {
                if right.windows_seq().contains(window) {
                    let i = choose|i: int| 0 <= i < right.windows_seq().len()
                        && right.windows_seq()[i] == window;
                    assert(s[left.windows_seq().len() + i] == window);
                }
            }
            lemma_remove_absent(*left, window);
            lemma_remove_absent(*right, window);
            if *left matches BinaryTree::Window(w) && w == window {
                assert(left.windows_seq().contains(window)) by {
                    assert(left.windows_seq()[0] == window);
                }
            } else if *right matches BinaryTree::Window(w) && w == window {
                assert(right.windows_seq().contains(window)) by {
                    assert(right.windows_seq()[0] == window);
                }
            }
        },
    }
}

/// Removing a window and inserting it again restores the tree's window
/// set exactly (content equality), though not necessarily the tree shape.
pub proof fn lemma_remove_insert_restores(
    tree: BinaryTree,
    window: u64,
    splitnew: HorizontalOrVertical,
    rationew: u32,
)
    requires
        tree.wf(),
        tree.windows_seq().no_duplicates(),
    ensures
        tree.spec_remove(window).spec_insert(window, splitnew, rationew).windows_seq().to_set()
            == tree.windows_seq().to_set().insert(window),
        tree.spec_remove(window).spec_insert(
            window,
            splitnew,
            rationew,
        ).windows_seq().no_duplicates(),
{
    lemma_remove_windows(tree, window);
    lemma_insert_windows(tree.spec_remove(window), window, splitnew, rationew);
    crate::seqs::lemma_remove_then_push_restores_set(tree.windows_seq(), window);
}

/// Adjusting a ratio changes neither the windows of the tree nor its
/// structure, and keeps the invariant: the adjusted ratio is clamped back
/// into (0,1).
pub proof fn lemma_update_ratio_preserves(tree: BinaryTree, amount: u32, mode: RatioMode)
    requires
        tree.wf(),
    ensures
        tree.spec_update_ratio(amount, mode).wf(),
        tree.spec_update_ratio(amount, mode).windows_seq() == tree.windows_seq(),
        tree.spec_update_ratio(amount, mode).spine_alternates() == tree.spine_alternates(),
    decreases tree,
{
    reveal_with_fuel(BinaryTree::wf, 3);
    reveal_with_fuel(BinaryTree::windows_seq, 3);
    reveal_with_fuel(BinaryTree::spine_alternates, 3);
    reveal_with_fuel(BinaryTree::spec_update_ratio, 2);
    match tree {
        BinaryTree::Split { right, .. } => {
            lemma_update_ratio_preserves(*right, amount, mode);
        },
        _ => {},
    }
}

/// Clamp `v` into the admissible ratio range.
fn clamp_ratio_i64(v: i64) -> (r: u32)
    ensures
        r == spec_clamp_ratio(v as int),
{
    if v < RATIO_MIN as i64 {
        RATIO_MIN
    } else if v > RATIO_MAX as i64 {
        RATIO_MAX
    } else {
        v as u32
    }
}

/// Apply a ratio update mode, clamped into the admissible range.
pub fn apply_ratio(cur: u32, amount: u32, mode: RatioMode) -> (r: u32)
    ensures
        r == spec_apply_ratio(cur, amount, mode),
{
    match mode {
        RatioMode::Assign => clamp_ratio_i64(amount as i64),
        RatioMode::Increment => clamp_ratio_i64(cur as i64 + amount as i64),
        RatioMode::Decrement => clamp_ratio_i64(cur as i64 - amount as i64),
    }
}

} // verus!

