use magma_core::binarytree::{BinaryTree, HorizontalOrVertical, RatioMode, DEFAULT_RATIO};

fn insert_auto(tree: &mut BinaryTree, window: u64) {
    let orientation = tree.next_split();
    tree.insert(window, orientation, DEFAULT_RATIO);
}

#[test]
fn get_windows_returns_inserted_windows_once() {
    let mut tree = BinaryTree::new();
    assert_eq!(tree.get_windows(), Vec::<u64>::new());
    insert_auto(&mut tree, 1);
    insert_auto(&mut tree, 2);
    insert_auto(&mut tree, 3);
    insert_auto(&mut tree, 4);
    assert_eq!(tree.get_windows(), vec![1, 2, 3, 4]);
}

#[test]
fn next_split_alternates_along_the_spine() {
    let mut tree = BinaryTree::new();
    assert_eq!(tree.next_split(), HorizontalOrVertical::Horizontal);
    insert_auto(&mut tree, 1);
    assert_eq!(tree.next_split(), HorizontalOrVertical::Horizontal);
    insert_auto(&mut tree, 2);
    assert_eq!(tree.next_split(), HorizontalOrVertical::Vertical);
    insert_auto(&mut tree, 3);
    assert_eq!(tree.next_split(), HorizontalOrVertical::Horizontal);
    insert_auto(&mut tree, 4);
    assert_eq!(tree.next_split(), HorizontalOrVertical::Vertical);
}

#[test]
fn remove_root_leaf_empties_the_tree() {
    let mut tree = BinaryTree::new();
    insert_auto(&mut tree, 7);
    tree.remove(7);
    assert_eq!(tree.get_windows(), Vec::<u64>::new());
}

#[test]
fn remove_splices_out_the_matching_side() {
    let mut tree = BinaryTree::new();
    insert_auto(&mut tree, 1);
    insert_auto(&mut tree, 2);
    insert_auto(&mut tree, 3);
    tree.remove(2);
    assert_eq!(tree.get_windows(), vec![1, 3]);
    tree.remove(1);
    assert_eq!(tree.get_windows(), vec![3]);
}

#[test]
fn remove_absent_window_is_a_silent_no_op() {
    let mut tree = BinaryTree::new();
    insert_auto(&mut tree, 1);
    insert_auto(&mut tree, 2);
    tree.remove(99);
    assert_eq!(tree.get_windows(), vec![1, 2]);
}

#[test]
fn remove_then_insert_restores_the_window_set() {
    let mut tree = BinaryTree::new();
    insert_auto(&mut tree, 1);
    insert_auto(&mut tree, 2);
    insert_auto(&mut tree, 3);
    tree.remove(2);
    insert_auto(&mut tree, 2);
    let mut windows = tree.get_windows();
    windows.sort();
    assert_eq!(windows, vec![1, 2, 3]);
}

#[test]
fn update_ratio_clamps_into_the_open_interval() {
    let mut tree = BinaryTree::new();
    insert_auto(&mut tree, 1);
    insert_auto(&mut tree, 2);
    tree.update_ratio(700, RatioMode::Assign);
    tree.update_ratio(400, RatioMode::Increment);
    // 700 + 400 clamps to the maximum, 999
    tree.update_ratio(2000, RatioMode::Decrement);
    // 999 - 2000 clamps to the minimum, 1
    tree.update_ratio(299, RatioMode::Increment);
    match tree {
        BinaryTree::Split { ratio, .. } => assert_eq!(ratio, 300),
        _ => panic!("two windows must form a split"),
    }
}

#[test]
fn update_ratio_reaches_the_deepest_split() {
    let mut tree = BinaryTree::new();
    insert_auto(&mut tree, 1);
    insert_auto(&mut tree, 2);
    insert_auto(&mut tree, 3);
    tree.update_ratio(250, RatioMode::Assign);
    match &tree {
        BinaryTree::Split { ratio, right, .. } => {
            assert_eq!(*ratio, DEFAULT_RATIO);
            match &**right {
                BinaryTree::Split { ratio, .. } => assert_eq!(*ratio, 250),
                _ => panic!("three windows must nest a second split"),
            }
        }
        _ => panic!("three windows must form a split"),
    }
}
