use magma_core::binarytree::{BinaryTree, DEFAULT_RATIO};
use magma_core::geometry::Rect;
use magma_core::tiling::generate_layout;

fn rect(x: i32, y: i32, w: i32, h: i32) -> Rect {
    Rect { x, y, w, h }
}

fn insert_auto(tree: &mut BinaryTree, window: u64) {
    let orientation = tree.next_split();
    tree.insert(window, orientation, DEFAULT_RATIO);
}

const USABLE: Rect = Rect { x: 0, y: 0, w: 1280, h: 800 };
const GAPS: (i32, i32) = (5, 5);

#[test]
fn empty_tree_places_nothing() {
    let tree = BinaryTree::new();
    assert_eq!(generate_layout(&tree, USABLE, GAPS), vec![]);
}

#[test]
fn single_window_gets_usable_inset_by_outer_gap() {
    let mut tree = BinaryTree::new();
    insert_auto(&mut tree, 1);
    let placed = generate_layout(&tree, USABLE, GAPS);
    assert_eq!(placed, vec![(1, rect(5, 5, 1270, 790))]);
}

#[test]
fn two_windows_split_horizontally_at_half() {
    let mut tree = BinaryTree::new();
    insert_auto(&mut tree, 1);
    insert_auto(&mut tree, 2);
    let placed = generate_layout(&tree, USABLE, GAPS);
    // region after the outer gap: (5, 5, 1270, 790); the new window takes
    // the trailing 635 columns; both halves deflate by the inner gap
    assert_eq!(
        placed,
        vec![(1, rect(10, 10, 625, 780)), (2, rect(645, 10, 625, 780))]
    );
}

#[test]
fn third_window_subdivides_the_newest_region_vertically() {
    let mut tree = BinaryTree::new();
    insert_auto(&mut tree, 1);
    insert_auto(&mut tree, 2);
    insert_auto(&mut tree, 3);
    let placed = generate_layout(&tree, USABLE, GAPS);
    assert_eq!(
        placed,
        vec![
            (1, rect(10, 10, 625, 780)),
            (2, rect(645, 10, 625, 385)),
            (3, rect(645, 405, 625, 385)),
        ]
    );
}

#[test]
fn rerunning_the_engine_yields_identical_rectangles() {
    let mut tree = BinaryTree::new();
    insert_auto(&mut tree, 1);
    insert_auto(&mut tree, 2);
    insert_auto(&mut tree, 3);
    let first = generate_layout(&tree, USABLE, GAPS);
    let second = generate_layout(&tree, USABLE, GAPS);
    assert_eq!(first, second);
}

#[test]
fn placed_rectangles_inflated_by_inner_gap_stay_within_usable() {
    let mut tree = BinaryTree::new();
    for id in 0..6u64 {
        insert_auto(&mut tree, id);
    }
    let placed = generate_layout(&tree, USABLE, GAPS);
    assert_eq!(placed.len(), 6);
    for (_, r) in placed {
        let x = r.x - GAPS.1;
        let y = r.y - GAPS.1;
        let w = r.w + 2 * GAPS.1;
        let h = r.h + 2 * GAPS.1;
        assert!(USABLE.x <= x);
        assert!(USABLE.y <= y);
        assert!(x + w <= USABLE.x + USABLE.w);
        assert!(y + h <= USABLE.y + USABLE.h);
    }
}

#[test]
fn degenerate_usable_region_degrades_to_zero_size() {
    let mut tree = BinaryTree::new();
    insert_auto(&mut tree, 1);
    insert_auto(&mut tree, 2);
    let placed = generate_layout(&tree, rect(0, 0, 4, 4), GAPS);
    // the usable region is consumed by the outer gap: the region clamps to
    // zero size and the windows end up with degenerate rectangles
    assert_eq!(placed.len(), 2);
    for (_, r) in placed {
        assert!(r.w <= 0 && r.h <= 0);
    }
}

#[test]
fn uneven_ratio_gives_the_new_window_its_share() {
    let mut tree = BinaryTree::new();
    tree.insert(1, magma_core::binarytree::HorizontalOrVertical::Horizontal, DEFAULT_RATIO);
    tree.insert(2, magma_core::binarytree::HorizontalOrVertical::Horizontal, 250);
    let placed = generate_layout(&tree, USABLE, GAPS);
    // carve = 1270 * 250 / 1000 = 317 columns for the new window
    assert_eq!(
        placed,
        vec![(1, rect(10, 10, 943, 780)), (2, rect(963, 10, 307, 780))]
    );
}
