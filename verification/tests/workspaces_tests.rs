use magma_core::geometry::Rect;
use magma_core::workspace::{MagmaWindow, Output, SizeHints, SurfaceInfo, Workspaces, WindowElement};

fn rect(x: i32, y: i32, w: i32, h: i32) -> Rect {
    Rect { x, y, w, h }
}

fn window(id: u64, parent: bool) -> MagmaWindow {
    MagmaWindow {
        window: WindowElement::Wayland(SurfaceInfo {
            id,
            bbox: rect(0, 0, 400, 300),
            geometry: rect(0, 0, 400, 300),
            input_region: rect(0, 0, 400, 300),
            min_size: SizeHints { w: 0, h: 0 },
            max_size: SizeHints { w: 0, h: 0 },
            has_parent: parent,
        }),
        rec: rect(0, 0, 400, 300),
    }
}

fn set_of_three() -> Workspaces {
    let mut set = Workspaces::new(3, (5, 5));
    let output = Output { id: 1, geometry: rect(0, 0, 1280, 800), usable: rect(0, 0, 1280, 800) };
    for ws in set.workspaces.iter_mut() {
        ws.add_output(output);
    }
    set
}

#[test]
fn new_creates_empty_workspaces_with_the_first_current() {
    let set = Workspaces::new(3, (5, 5));
    assert_eq!(set.workspaces.len(), 3);
    assert_eq!(set.current, 0);
    assert!(set.all_windows().is_empty());
}

#[test]
fn activate_switches_within_range_and_ignores_out_of_range() {
    let mut set = set_of_three();
    set.activate(2);
    assert_eq!(set.current, 2);
    set.activate(9);
    assert_eq!(set.current, 2);
}

#[test]
fn outputs_flattens_across_workspaces() {
    let set = set_of_three();
    assert_eq!(set.outputs().len(), 3);
}

#[test]
fn move_window_transfers_registration_and_retiles_both() {
    let mut set = set_of_three();
    let w1 = window(1, false);
    let handle = w1.window;
    set.workspaces[0].add_window(w1);
    set.workspaces[0].add_window(window(2, false));
    assert_eq!(set.workspace_from_window(&handle), Some(0));

    set.move_window_to_workspace(&handle, 1);

    assert_eq!(set.workspace_from_window(&handle), Some(1));
    assert!(!set.workspaces[0].contains_window(&handle));
    assert!(set.workspaces[1].contains_window(&handle));
    // the source workspace retiled: the remaining window takes the whole area
    assert_eq!(set.workspaces[0].magmawindows()[0].rec, rect(5, 5, 1270, 790));
    // the target workspace tiled the moved window onto its whole area
    assert_eq!(set.workspaces[1].magmawindows()[0].rec, rect(5, 5, 1270, 790));
}

#[test]
fn move_window_reclassifies_in_the_target_workspace() {
    let mut set = set_of_three();
    let transient = window(1, true);
    let handle = transient.window;
    // force it into workspace 0's tree so the move can change its class
    set.workspaces[0].add_window(window(9, false));
    set.workspaces[0].add_window(transient);
    assert_eq!(set.workspaces[0].floating, vec![1]);

    set.move_window_to_workspace(&handle, 2);

    // the classifier ran afresh on the target: still floating, front of list
    assert_eq!(set.workspaces[2].floating, vec![1]);
    assert!(set.workspaces[2].layout_tree.get_windows().is_empty());
}

#[test]
fn move_window_to_out_of_range_target_is_ignored() {
    let mut set = set_of_three();
    let w1 = window(1, false);
    let handle = w1.window;
    set.workspaces[0].add_window(w1);
    set.move_window_to_workspace(&handle, 7);
    assert_eq!(set.workspace_from_window(&handle), Some(0));
}

#[test]
fn move_of_an_unknown_window_is_ignored() {
    let mut set = set_of_three();
    let handle = window(1, false).window;
    set.move_window_to_workspace(&handle, 1);
    assert!(set.all_windows().is_empty());
}

#[test]
fn all_windows_flattens_across_workspaces() {
    let mut set = set_of_three();
    set.workspaces[0].add_window(window(1, false));
    set.workspaces[2].add_window(window(2, false));
    let ids: Vec<u64> = set.all_windows().iter().map(|w| w.id()).collect();
    assert_eq!(ids, vec![1, 2]);
}

#[test]
fn current_answers_the_active_workspace() {
    let mut set = set_of_three();
    set.workspaces[1].add_window(window(5, false));
    set.activate(1);
    assert!(set.current().contains_window(&window(5, false).window));
}
