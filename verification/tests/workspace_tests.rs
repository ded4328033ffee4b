use magma_core::classifier::{decide, WindowClass};
use magma_core::geometry::{Point, Rect};
use magma_core::workspace::{MagmaWindow, Output, SizeHints, SurfaceInfo, Workspace, WindowElement};

fn rect(x: i32, y: i32, w: i32, h: i32) -> Rect {
    Rect { x, y, w, h }
}

fn surface(id: u64, extent: Rect, min: (i32, i32), max: (i32, i32), parent: bool) -> SurfaceInfo {
    SurfaceInfo {
        id,
        bbox: extent,
        geometry: extent,
        input_region: extent,
        min_size: SizeHints { w: min.0, h: min.1 },
        max_size: SizeHints { w: max.0, h: max.1 },
        has_parent: parent,
    }
}

fn tiled_window(id: u64) -> MagmaWindow {
    MagmaWindow {
        window: WindowElement::Wayland(surface(id, rect(0, 0, 2000, 2000), (0, 0), (0, 0), false)),
        rec: rect(0, 0, 400, 300),
    }
}

fn floating_window(id: u64) -> MagmaWindow {
    MagmaWindow {
        window: WindowElement::X11(surface(
            id,
            rect(0, 0, 400, 300),
            (400, 300),
            (400, 300),
            false,
        )),
        rec: rect(0, 0, 400, 300),
    }
}

fn workspace_with_output() -> Workspace {
    let mut ws = Workspace::new((5, 5));
    ws.add_output(Output { id: 1, geometry: rect(0, 0, 1280, 800), usable: rect(0, 0, 1280, 800) });
    ws
}

#[test]
fn classifier_floats_fixed_size_and_transient_windows() {
    let fixed = WindowElement::Wayland(surface(1, rect(0, 0, 10, 10), (400, 0), (400, 0), false));
    let child = WindowElement::Wayland(surface(2, rect(0, 0, 10, 10), (0, 0), (0, 0), true));
    let plain = WindowElement::Wayland(surface(3, rect(0, 0, 10, 10), (100, 100), (900, 900), false));
    assert_eq!(decide(&fixed), WindowClass::Floating);
    assert_eq!(decide(&child), WindowClass::Floating);
    assert_eq!(decide(&plain), WindowClass::Tiled);
}

#[test]
fn tiled_windows_get_engine_rectangles() {
    let mut ws = workspace_with_output();
    ws.add_window(tiled_window(1));
    assert_eq!(ws.magmawindows()[0].rec, rect(5, 5, 1270, 790));
    ws.add_window(tiled_window(2));
    let records = ws.magmawindows();
    assert_eq!(records[0].rec, rect(10, 10, 625, 780));
    assert_eq!(records[1].rec, rect(645, 10, 625, 780));
}

#[test]
fn floating_window_is_recentered_in_the_usable_area() {
    let mut ws = workspace_with_output();
    ws.add_window(floating_window(1));
    let records = ws.magmawindows();
    assert_eq!(records[0].rec, rect(440, 250, 400, 300));
    assert_eq!(ws.floating, vec![1]);
    assert_eq!(ws.layout_tree.get_windows(), Vec::<u64>::new());
}

#[test]
fn re_adding_a_window_deduplicates_by_identity() {
    let mut ws = workspace_with_output();
    ws.add_window(tiled_window(1));
    ws.add_window(tiled_window(2));
    ws.add_window(tiled_window(1));
    let mut ids: Vec<u64> = ws.windows().iter().map(|w| w.id()).collect();
    ids.sort();
    assert_eq!(ids, vec![1, 2]);
    assert_eq!(ws.layout_tree.get_windows(), vec![2, 1]);
}

#[test]
fn remove_window_returns_the_record_and_retiles() {
    let mut ws = workspace_with_output();
    ws.add_window(tiled_window(1));
    ws.add_window(tiled_window(2));
    let removed = ws.remove_window(&tiled_window(2).window);
    assert_eq!(removed.unwrap().window.id(), 2);
    assert_eq!(ws.magmawindows()[0].rec, rect(5, 5, 1270, 790));
    assert!(ws.remove_window(&tiled_window(9).window).is_none());
}

#[test]
fn window_under_prefers_floating_over_tiled() {
    let mut ws = workspace_with_output();
    ws.add_window(tiled_window(1));
    ws.add_window(floating_window(2));
    // the floating window sits at (440, 250); the tiled window's surface
    // covers the whole area, so both contain this point
    let hit = ws.window_under(Point { x: 450, y: 260 });
    assert_eq!(hit.unwrap().0.id(), 2);
    // a point outside the floating window falls through to the tiled one
    let hit = ws.window_under(Point { x: 20, y: 20 });
    assert_eq!(hit.unwrap().0.id(), 1);
    // a point nothing covers answers nobody
    assert!(ws.window_under(Point { x: -50, y: -50 }).is_none());
}

#[test]
fn toggle_window_floating_transfers_between_tree_and_list() {
    let mut ws = workspace_with_output();
    ws.add_window(tiled_window(1));
    let window = ws.magmawindows()[0].window;
    ws.toggle_window_floating(&window);
    assert_eq!(ws.floating, vec![1]);
    assert_eq!(ws.layout_tree.get_windows(), Vec::<u64>::new());
    // the last on-screen rectangle is kept as the floating starting point
    assert_eq!(ws.magmawindows()[0].rec, rect(5, 5, 1270, 790));
    ws.toggle_window_floating(&window);
    assert_eq!(ws.floating, Vec::<u64>::new());
    assert_eq!(ws.layout_tree.get_windows(), vec![1]);
    assert_eq!(ws.magmawindows()[0].rec, rect(5, 5, 1270, 790));
}

#[test]
fn output_geometry_answers_only_for_registered_outputs() {
    let ws = workspace_with_output();
    let known = Output { id: 1, geometry: rect(0, 0, 1280, 800), usable: rect(0, 0, 1280, 800) };
    let unknown = Output { id: 2, geometry: rect(0, 0, 640, 480), usable: rect(0, 0, 640, 480) };
    assert_eq!(ws.output_geometry(&known), Some(rect(0, 0, 1280, 800)));
    assert_eq!(ws.output_geometry(&unknown), None);
}

#[test]
fn remove_output_drops_every_registration() {
    let mut ws = workspace_with_output();
    let out = Output { id: 1, geometry: rect(0, 0, 1280, 800), usable: rect(0, 0, 1280, 800) };
    ws.add_output(out);
    assert_eq!(ws.outputs().len(), 2);
    ws.remove_output(&out);
    assert_eq!(ws.outputs().len(), 0);
}

#[test]
fn recomputing_with_no_structural_change_is_idempotent() {
    let mut ws = workspace_with_output();
    ws.add_window(tiled_window(1));
    ws.add_window(floating_window(2));
    ws.add_window(tiled_window(3));
    let before: Vec<MagmaWindow> = ws.magmawindows().clone();
    magma_core::tiling::bsp_update_layout(&mut ws);
    assert_eq!(*ws.magmawindows(), before);
    magma_core::tiling::bsp_update_layout(&mut ws);
    assert_eq!(*ws.magmawindows(), before);
}

#[test]
fn contains_window_reports_registration() {
    let mut ws = workspace_with_output();
    ws.add_window(tiled_window(1));
    assert!(ws.contains_window(&tiled_window(1).window));
    assert!(!ws.contains_window(&tiled_window(2).window));
}
