use nuonuo_layout::geometry::Rect;
use nuonuo_layout::tiled_tree::LayoutScheme;
use nuonuo_layout::window::{SurfaceId, Window, WindowId};
use nuonuo_layout::workspace::{is_usable_output, LayoutError, Workspace, WorkspaceId, MAX_TILES, OUTPUT_BOUND};
use nuonuo_layout::zorder::Configure;

fn rect(x: i32, y: i32, w: i32, h: i32) -> Rect {
    Rect { x, y, w, h }
}

fn window(id: u64) -> Window {
    Window::new(WindowId(id), SurfaceId(id + 100))
}

fn surface(id: u64) -> SurfaceId {
    SurfaceId(id + 100)
}

fn workspace() -> Workspace {
    Workspace::new(WorkspaceId::new(1), rect(0, 0, 1920, 1080), LayoutScheme::Default)
}

fn tiled(n: u64) -> Workspace {
    let mut ws = workspace();
    ws.map_tiled_element(window(1), None, true).unwrap();
    for id in 2..=n {
        ws.map_tiled_element(window(id), Some(surface(id - 1)), false).unwrap();
    }
    ws
}

fn rects(ws: &Workspace) -> Vec<(u64, Rect)> {
    ws.elements().iter().map(|w| (w.id.0, w.rec)).collect()
}

fn configure(id: u64, rec: Rect, activated: bool, resizing: bool) -> Configure {
    Configure { surface: surface(id), rec, activated, resizing }
}

#[test]
fn workspace_id_new_wraps_the_number() {
    assert_eq!(WorkspaceId::new(7), WorkspaceId(7));
}

#[test]
fn workspace_id_next_counts_up() {
    let mut counter = 1usize;
    assert_eq!(WorkspaceId::next(&mut counter), WorkspaceId(1));
    assert_eq!(WorkspaceId::next(&mut counter), WorkspaceId(2));
    assert_eq!(counter, 3);
}

#[test]
fn workspace_id_next_starts_over_after_the_largest_value() {
    let mut counter = usize::MAX;
    assert_eq!(WorkspaceId::next(&mut counter), WorkspaceId(usize::MAX));
    assert_eq!(counter, 0);
}

#[test]
fn usable_outputs_are_those_within_the_bound() {
    assert!(is_usable_output(&rect(0, 0, 1920, 1080)));
    assert!(is_usable_output(&rect(-5, 99, 0, 0)));
    assert!(is_usable_output(&rect(0, 0, OUTPUT_BOUND, OUTPUT_BOUND)));
    assert!(!is_usable_output(&rect(0, 0, OUTPUT_BOUND + 1, 10)));
    assert!(!is_usable_output(&rect(0, 0, 10, OUTPUT_BOUND + 1)));
    assert!(is_usable_output(&rect(0, 0, 12 - OUTPUT_BOUND, 10)));
    assert!(!is_usable_output(&rect(0, 0, 11 - OUTPUT_BOUND, 10)));
    assert_eq!(MAX_TILES, 1 << 20);
}

#[test]
fn new_workspace_is_empty() {
    let ws = workspace();
    assert_eq!(ws.id(), WorkspaceId(1));
    assert_eq!(ws.layout(), LayoutScheme::Default);
    assert_eq!(ws.output_geometry(), rect(0, 0, 1920, 1080));
    assert!(ws.elements().is_empty());
    assert!(!ws.is_tiled());
    assert_eq!(ws.tiled_count(), 0);
    assert_eq!(ws.get_focus(), None);
}

#[test]
fn first_tiled_window_fills_the_output_less_the_gap() {
    let mut ws = workspace();
    let out = ws.map_tiled_element(window(1), None, true).unwrap();
    assert_eq!(out, vec![configure(1, rect(12, 12, 1896, 1056), false, false)]);
    assert_eq!(rects(&ws), vec![(1, rect(12, 12, 1896, 1056))]);
    assert!(ws.elements()[0].activated);
    assert!(ws.is_tiled());
    assert_eq!(ws.tiled_count(), 1);
}

#[test]
fn first_tiled_window_ignores_the_focused_surface() {
    let mut ws = workspace();
    let out = ws.map_tiled_element(window(1), Some(SurfaceId(12345)), false).unwrap();
    assert_eq!(out.len(), 1);
    assert_eq!(rects(&ws), vec![(1, rect(12, 12, 1896, 1056))]);
    assert!(!ws.elements()[0].activated);
}

#[test]
fn second_tiled_window_takes_the_right_half() {
    let mut ws = workspace();
    ws.map_tiled_element(window(1), None, true).unwrap();
    let out = ws.map_tiled_element(window(2), Some(surface(1)), false).unwrap();
    assert_eq!(rects(&ws), vec![(1, rect(12, 12, 942, 1056)), (2, rect(966, 12, 942, 1056))]);
    assert_eq!(
        out,
        vec![
            configure(1, rect(12, 12, 942, 1056), true, false),
            configure(2, rect(966, 12, 942, 1056), false, false),
        ]
    );
    let (a, b) = (ws.elements()[0].rec, ws.elements()[1].rec);
    assert_eq!(b.x - (a.x + a.w), 12);
    assert_eq!(a.w, (1896 - 12) / 2);
    assert_eq!(ws.tiled_count(), 2);
}

#[test]
fn tall_output_stacks_the_second_window() {
    let mut ws = Workspace::new(WorkspaceId::new(1), rect(0, 0, 1080, 2400), LayoutScheme::Default);
    ws.map_tiled_element(window(1), None, false).unwrap();
    ws.map_tiled_element(window(2), Some(surface(1)), true).unwrap();
    assert_eq!(rects(&ws), vec![(1, rect(12, 12, 1056, 1182)), (2, rect(12, 1206, 1056, 1182))]);
    assert!(ws.elements()[1].activated);
    assert!(!ws.elements()[0].activated);
}

#[test]
fn output_origin_does_not_move_the_tiles() {
    let mut ws = Workspace::new(WorkspaceId::new(1), rect(300, 400, 1000, 500), LayoutScheme::Default);
    ws.map_tiled_element(window(1), None, false).unwrap();
    assert_eq!(rects(&ws), vec![(1, rect(12, 12, 976, 476))]);
}

#[test]
fn tiling_without_a_focused_surface_is_refused() {
    let mut ws = tiled(1);
    assert_eq!(ws.map_tiled_element(window(2), None, false), Err(LayoutError::UnresolvedFocus));
    assert_eq!(rects(&ws), vec![(1, rect(12, 12, 1896, 1056))]);
    assert_eq!(ws.tiled_count(), 1);
}

#[test]
fn tiling_beside_an_unknown_surface_is_refused() {
    let mut ws = tiled(2);
    let before = rects(&ws);
    assert_eq!(
        ws.map_tiled_element(window(3), Some(SurfaceId(1)), false),
        Err(LayoutError::UnresolvedFocus)
    );
    assert_eq!(rects(&ws), before);
}

#[test]
fn tiling_beside_an_untiled_window_is_refused() {
    let mut ws = tiled(1);
    ws.map_element(window(5), (0, 0), false);
    let before = rects(&ws);
    assert_eq!(ws.map_tiled_element(window(3), Some(surface(5)), false), Err(LayoutError::NotFound));
    assert_eq!(rects(&ws), before);
    assert_eq!(ws.tiled_count(), 1);
}

#[test]
fn new_tiles_go_on_top_of_the_list() {
    let ws = tiled(4);
    let ids: Vec<u64> = ws.elements().iter().map(|w| w.id.0).collect();
    assert_eq!(ids, vec![1, 2, 3, 4]);
    assert_eq!(
        rects(&ws),
        vec![
            (1, rect(12, 12, 942, 1056)),
            (2, rect(966, 12, 465, 1056)),
            (3, rect(1443, 12, 465, 522)),
            (4, rect(1443, 546, 465, 522)),
        ]
    );
}

#[test]
fn map_element_puts_a_window_on_top() {
    let mut ws = workspace();
    ws.map_element(window(1), (5, 6), false);
    ws.map_element(Window { rec: rect(0, 0, 30, 40), ..window(2) }, (7, 8), true);
    assert_eq!(rects(&ws), vec![(1, rect(5, 6, 0, 0)), (2, rect(7, 8, 30, 40))]);
    assert!(!ws.elements()[0].activated);
    assert!(ws.elements()[1].activated);
    assert!(!ws.is_tiled());
}

#[test]
fn map_element_replaces_an_earlier_entry_of_the_window() {
    let mut ws = workspace();
    ws.map_element(window(1), (0, 0), false);
    ws.map_element(window(2), (0, 0), false);
    ws.map_element(Window { rec: rect(9, 9, 10, 10), ..window(1) }, (50, 60), false);
    assert_eq!(rects(&ws), vec![(2, rect(0, 0, 0, 0)), (1, rect(50, 60, 10, 10))]);
}

#[test]
fn raise_element_moves_a_window_to_the_top() {
    let mut ws = tiled(3);
    ws.raise_element(&window(1), false);
    let ids: Vec<u64> = ws.elements().iter().map(|w| w.id.0).collect();
    assert_eq!(ids, vec![2, 3, 1]);
    assert!(ws.elements()[2].activated);
    ws.raise_element(&window(2), true);
    let ids: Vec<u64> = ws.elements().iter().map(|w| w.id.0).collect();
    assert_eq!(ids, vec![3, 1, 2]);
    assert!(ws.elements()[2].activated);
    assert!(ws.elements()[1].activated);
    assert!(!ws.elements()[0].activated);
}

#[test]
fn raise_element_keeps_the_flag_when_not_asked_to_activate() {
    let mut ws = tiled(2);
    ws.raise_element(&window(2), false);
    assert!(!ws.elements()[1].activated);
    ws.raise_element(&window(9), true);
    let ids: Vec<u64> = ws.elements().iter().map(|w| w.id.0).collect();
    assert_eq!(ids, vec![1, 2]);
}

#[test]
fn single_out_raises_and_activates_one_window_alone() {
    let mut ws = tiled(3);
    let out = ws.single_out(&window(2));
    let ids: Vec<u64> = ws.elements().iter().map(|w| w.id.0).collect();
    assert_eq!(ids, vec![1, 3, 2]);
    let flags: Vec<bool> = ws.elements().iter().map(|w| w.activated).collect();
    assert_eq!(flags, vec![false, false, true]);
    assert_eq!(out.len(), 3);
    assert_eq!(out[2], configure(2, rect(966, 12, 465, 1056), true, false));
    assert!(ws.single_out(&window(9)).is_empty());
}

#[test]
fn element_under_finds_the_topmost_window() {
    let mut ws = workspace();
    ws.map_element(Window { rec: rect(0, 0, 100, 100), ..window(1) }, (0, 0), false);
    ws.map_element(Window { rec: rect(0, 0, 100, 100), ..window(2) }, (50, 50), false);
    assert_eq!(ws.element_under(60, 60).map(|(w, l)| (w.id.0, l)), Some((2, (50, 50))));
    assert_eq!(ws.element_under(10, 10).map(|(w, l)| (w.id.0, l)), Some((1, (0, 0))));
    assert_eq!(ws.element_under(149, 149).map(|(w, _)| w.id.0), Some(2));
    assert_eq!(ws.element_under(150, 150), None);
    assert_eq!(ws.element_under(-1, 0), None);
    ws.raise_element(&window(1), false);
    assert_eq!(ws.element_under(60, 60).map(|(w, _)| w.id.0), Some(1));
}

#[test]
fn element_under_misses_the_gap_between_tiles() {
    let ws = tiled(2);
    assert_eq!(ws.element_under(953, 500).map(|(w, _)| w.id.0), Some(1));
    assert_eq!(ws.element_under(954, 500), None);
    assert_eq!(ws.element_under(965, 500), None);
    assert_eq!(ws.element_under(966, 500).map(|(w, l)| (w.id.0, l)), Some((2, (966, 12))));
    assert_eq!(ws.element_under(0, 0), None);
}

#[test]
fn element_location_and_geometry_of_a_window() {
    let ws = tiled(2);
    assert_eq!(ws.element_location(&window(2)), Some((966, 12)));
    assert_eq!(ws.element_geometry(&window(2)), Some(rect(966, 12, 942, 1056)));
    assert_eq!(ws.element_location(&window(7)), None);
    assert_eq!(ws.element_geometry(&window(7)), None);
}

#[test]
fn focus_follows_a_surface_of_the_workspace() {
    let mut ws = tiled(2);
    ws.set_focus(surface(2));
    assert_eq!(ws.get_focus(), Some(WindowId(2)));
    ws.set_focus(SurfaceId(5));
    assert_eq!(ws.get_focus(), Some(WindowId(2)));
    ws.set_focus(surface(1));
    assert_eq!(ws.get_focus(), Some(WindowId(1)));
}

#[test]
fn setting_the_focus_neither_raises_nor_activates() {
    let mut ws = tiled(2);
    ws.set_focus(surface(1));
    let ids: Vec<u64> = ws.elements().iter().map(|w| w.id.0).collect();
    assert_eq!(ids, vec![1, 2]);
    assert!(!ws.elements()[1].activated);
}

#[test]
fn a_surface_resolves_to_the_lowest_window_that_has_it() {
    let mut ws = workspace();
    ws.map_element(Window::new(WindowId(1), SurfaceId(7)), (0, 0), false);
    ws.map_element(Window::new(WindowId(2), SurfaceId(7)), (0, 0), false);
    ws.set_focus(SurfaceId(7));
    assert_eq!(ws.get_focus(), Some(WindowId(1)));
}

#[test]
fn deactivate_clears_every_flag_and_tells_every_client() {
    let mut ws = tiled(3);
    ws.raise_element(&window(2), true);
    let out = ws.deactivate();
    assert!(ws.elements().iter().all(|w| !w.activated));
    assert_eq!(out.len(), 3);
    assert!(out.iter().all(|c| !c.activated && !c.resizing));
    let surfaces: Vec<SurfaceId> = out.iter().map(|c| c.surface).collect();
    assert_eq!(surfaces, vec![surface(1), surface(3), surface(2)]);
}

#[test]
fn set_all_activation_sets_every_flag() {
    let mut ws = tiled(2);
    let out = ws.set_all_activation(true);
    assert!(ws.elements().iter().all(|w| w.activated));
    assert!(out.iter().all(|c| c.activated));
}

#[test]
fn pending_configure_puts_tiled_windows_back_in_their_tiles() {
    let mut ws = tiled(2);
    ws.map_element(ws.elements()[0], (500, 500), false);
    assert_eq!(ws.element_location(&window(1)), Some((500, 500)));
    let out = ws.send_pending_configure();
    assert_eq!(rects(&ws), vec![(2, rect(966, 12, 942, 1056)), (1, rect(12, 12, 942, 1056))]);
    assert_eq!(out[1].rec, rect(12, 12, 942, 1056));
}

#[test]
fn pending_configure_leaves_untiled_windows_alone() {
    let mut ws = tiled(1);
    ws.map_element(Window { rec: rect(0, 0, 40, 30), ..window(8) }, (70, 80), false);
    let out = ws.send_pending_configure();
    assert_eq!(rects(&ws), vec![(1, rect(12, 12, 1896, 1056)), (8, rect(70, 80, 40, 30))]);
    assert_eq!(out[1], configure(8, rect(70, 80, 40, 30), false, false));
}

#[test]
fn resize_configure_carries_the_hint_and_changes_nothing() {
    let ws = tiled(2);
    let out = ws.send_resize_configure();
    assert_eq!(
        out,
        vec![
            configure(1, rect(12, 12, 942, 1056), true, true),
            configure(2, rect(966, 12, 942, 1056), false, true),
        ]
    );
}

#[test]
fn unresize_configure_clears_the_hint() {
    let mut ws = tiled(2);
    let out = ws.send_unresize_configure();
    assert!(out.iter().all(|c| !c.resizing));
    assert_eq!(out.len(), 2);
}

#[test]
fn unmap_tiled_element_without_a_tree_is_refused() {
    let mut ws = workspace();
    ws.map_element(window(1), (0, 0), false);
    assert_eq!(ws.unmap_tiled_element(window(1)), Err(LayoutError::EmptyTree));
}

#[test]
fn unmap_tiled_element_of_an_untiled_window_is_refused() {
    let mut ws = tiled(2);
    assert_eq!(ws.unmap_tiled_element(window(9)), Err(LayoutError::NotFound));
    assert_eq!(ws.tiled_count(), 2);
}

#[test]
fn unmap_tiled_element_keeps_the_window_in_the_list() {
    let mut ws = tiled(2);
    assert_eq!(ws.unmap_tiled_element(window(2)), Ok(()));
    assert_eq!(ws.tiled_count(), 1);
    assert_eq!(ws.elements().len(), 2);
    ws.send_pending_configure();
    assert_eq!(rects(&ws), vec![(1, rect(12, 12, 1896, 1056)), (2, rect(966, 12, 942, 1056))]);
}

#[test]
fn unmapping_the_last_tile_drops_the_tree() {
    let mut ws = tiled(1);
    assert_eq!(ws.unmap_tiled_element(window(1)), Ok(()));
    assert!(!ws.is_tiled());
    assert_eq!(ws.tiled_count(), 0);
    assert_eq!(ws.unmap_tiled_element(window(1)), Err(LayoutError::EmptyTree));
}

#[test]
fn remove_window_gives_the_room_to_the_sibling() {
    let mut ws = tiled(2);
    let out = ws.remove_window(&surface(2)).unwrap();
    assert_eq!(rects(&ws), vec![(1, rect(12, 12, 1896, 1056))]);
    assert_eq!(out, vec![configure(1, rect(12, 12, 1896, 1056), true, false)]);
    assert_eq!(ws.tiled_count(), 1);
}

#[test]
fn insert_then_remove_restores_the_rectangle_of_the_focused_window() {
    let mut ws = tiled(3);
    let before = rects(&ws);
    ws.map_tiled_element(window(4), Some(surface(2)), false).unwrap();
    assert_ne!(ws.element_geometry(&window(2)), Some(before[1].1));
    ws.remove_window(&surface(4)).unwrap();
    assert_eq!(rects(&ws), before);
}

#[test]
fn remove_window_rebalances_the_other_side() {
    let mut ws = tiled(3);
    ws.remove_window(&surface(1)).unwrap();
    assert_eq!(rects(&ws), vec![(2, rect(12, 12, 942, 1056)), (3, rect(966, 12, 942, 1056))]);
}

#[test]
fn remove_window_of_an_unknown_surface_is_refused() {
    let mut ws = tiled(2);
    assert_eq!(ws.remove_window(&SurfaceId(1)), Err(LayoutError::NotFound));
    assert_eq!(ws.elements().len(), 2);
}

#[test]
fn remove_window_without_a_tree_is_refused() {
    let mut ws = workspace();
    ws.map_element(window(1), (0, 0), false);
    assert_eq!(ws.remove_window(&surface(1)), Err(LayoutError::EmptyTree));
    assert_eq!(ws.elements().len(), 1);
}

#[test]
fn remove_window_of_an_untiled_window_is_refused() {
    let mut ws = tiled(1);
    ws.map_element(window(5), (0, 0), false);
    assert_eq!(ws.remove_window(&surface(5)), Err(LayoutError::NotFound));
    assert_eq!(ws.elements().len(), 2);
}

#[test]
fn removing_the_focused_window_drops_the_focus() {
    let mut ws = tiled(2);
    ws.set_focus(surface(2));
    ws.remove_window(&surface(2)).unwrap();
    assert_eq!(ws.get_focus(), None);
    let mut ws = tiled(2);
    ws.set_focus(surface(1));
    ws.remove_window(&surface(2)).unwrap();
    assert_eq!(ws.get_focus(), Some(WindowId(1)));
}

#[test]
fn removing_the_last_window_leaves_an_untiled_workspace() {
    let mut ws = tiled(1);
    assert_eq!(ws.remove_window(&surface(1)), Ok(vec![]));
    assert!(ws.elements().is_empty());
    assert!(!ws.is_tiled());
    ws.map_tiled_element(window(2), None, false).unwrap();
    assert_eq!(rects(&ws), vec![(2, rect(12, 12, 1896, 1056))]);
}

#[test]
fn invert_window_changes_no_rectangle_at_once() {
    let mut ws = tiled(2);
    let before = rects(&ws);
    let out = ws.invert_window(Some(surface(1))).unwrap();
    assert_eq!(rects(&ws), before);
    assert_eq!(out.len(), 2);
}

#[test]
fn inverted_windows_trade_places_when_the_output_changes() {
    let mut ws = tiled(2);
    ws.invert_window(Some(surface(2))).unwrap();
    ws.modify_windows(rect(0, 0, 1920, 1080));
    assert_eq!(rects(&ws), vec![(1, rect(966, 12, 942, 1056)), (2, rect(12, 12, 942, 1056))]);
}

#[test]
fn invert_window_without_tree_or_surface_does_nothing() {
    let mut ws = workspace();
    assert_eq!(ws.invert_window(Some(surface(1))), Ok(vec![]));
    let mut ws = tiled(2);
    assert_eq!(ws.invert_window(None), Ok(vec![]));
}

#[test]
fn invert_window_at_an_unknown_surface_is_refused() {
    let mut ws = tiled(2);
    assert_eq!(ws.invert_window(Some(SurfaceId(3))), Err(LayoutError::UnresolvedFocus));
}

#[test]
fn modify_windows_lays_the_tiles_out_for_the_new_output() {
    let mut ws = tiled(2);
    let out = ws.modify_windows(rect(0, 0, 1000, 500));
    assert_eq!(ws.output_geometry(), rect(0, 0, 1000, 500));
    assert_eq!(rects(&ws), vec![(1, rect(12, 12, 482, 476)), (2, rect(506, 12, 482, 476))]);
    assert_eq!(out.len(), 2);
    assert_eq!(out[0].rec, rect(12, 12, 482, 476));
}

#[test]
fn modify_windows_twice_changes_nothing_more() {
    let mut ws = tiled(4);
    ws.modify_windows(rect(0, 0, 1366, 768));
    let once = rects(&ws);
    ws.modify_windows(rect(0, 0, 1366, 768));
    assert_eq!(rects(&ws), once);
}

#[test]
fn modify_windows_without_a_tree_only_notes_the_output() {
    let mut ws = workspace();
    ws.map_element(Window { rec: rect(0, 0, 5, 5), ..window(1) }, (1, 2), false);
    let out = ws.modify_windows(rect(0, 0, 800, 600));
    assert_eq!(ws.output_geometry(), rect(0, 0, 800, 600));
    assert_eq!(out, vec![configure(1, rect(1, 2, 5, 5), false, false)]);
    ws.map_tiled_element(window(2), None, false).unwrap();
    assert_eq!(ws.element_geometry(&window(2)), Some(rect(12, 12, 776, 576)));
}

#[test]
fn resize_announces_moves_the_boundary_and_commits() {
    let mut ws = tiled(2);
    let out = ws.resize(Some(surface(1)), (100, 0)).unwrap();
    assert_eq!(rects(&ws), vec![(1, rect(12, 12, 1042, 1056)), (2, rect(1066, 12, 842, 1056))]);
    assert_eq!(
        out,
        vec![
            configure(1, rect(12, 12, 942, 1056), true, true),
            configure(2, rect(966, 12, 942, 1056), false, true),
            configure(1, rect(12, 12, 1042, 1056), true, false),
            configure(2, rect(1066, 12, 842, 1056), false, false),
        ]
    );
}

#[test]
fn resize_never_leaves_a_side_without_a_pixel() {
    let mut ws = tiled(2);
    ws.resize(Some(surface(2)), (i32::MAX, 0)).unwrap();
    assert_eq!(rects(&ws), vec![(1, rect(12, 12, 1883, 1056)), (2, rect(1907, 12, 1, 1056))]);
    ws.resize(Some(surface(2)), (i32::MIN, 0)).unwrap();
    assert_eq!(rects(&ws), vec![(1, rect(12, 12, 1, 1056)), (2, rect(25, 12, 1883, 1056))]);
}

#[test]
fn resize_without_tree_or_surface_does_nothing() {
    let mut ws = workspace();
    assert_eq!(ws.resize(Some(surface(1)), (5, 5)), Ok(vec![]));
    let mut ws = tiled(2);
    assert_eq!(ws.resize(None, (5, 5)), Ok(vec![]));
    assert_eq!(rects(&ws), vec![(1, rect(12, 12, 942, 1056)), (2, rect(966, 12, 942, 1056))]);
}

#[test]
fn resize_at_an_unknown_surface_is_refused() {
    let mut ws = tiled(2);
    assert_eq!(ws.resize(Some(SurfaceId(3)), (5, 5)), Err(LayoutError::UnresolvedFocus));
    assert_eq!(rects(&ws), vec![(1, rect(12, 12, 942, 1056)), (2, rect(966, 12, 942, 1056))]);
}

#[test]
fn resize_of_a_lone_tile_only_sends_the_messages() {
    let mut ws = tiled(1);
    let out = ws.resize(Some(surface(1)), (50, 50)).unwrap();
    assert_eq!(rects(&ws), vec![(1, rect(12, 12, 1896, 1056))]);
    assert_eq!(out.len(), 2);
    assert!(out[0].resizing && !out[1].resizing);
}

#[test]
fn every_tiled_window_keeps_a_tile_through_a_long_session() {
    let mut ws = workspace();
    ws.map_tiled_element(window(1), None, false).unwrap();
    for id in 2..=40u64 {
        let focus = 1 + (id * 7) % (id - 1);
        ws.map_tiled_element(window(id), Some(surface(focus)), false).unwrap();
        assert_eq!(ws.tiled_count() as u64, id);
    }
    for id in (2..=40u64).step_by(3) {
        ws.remove_window(&surface(id)).unwrap();
    }
    assert_eq!(ws.tiled_count(), 27);
    assert_eq!(ws.elements().len(), 27);
    ws.modify_windows(rect(0, 0, 2560, 1440));
    let all = rects(&ws);
    for (i, (_, a)) in all.iter().enumerate() {
        for (_, b) in all.iter().skip(i + 1) {
            let apart = a.x + a.w.max(0) <= b.x || b.x + b.w.max(0) <= a.x || a.y + a.h.max(0) <= b.y
                || b.y + b.h.max(0) <= a.y;
            assert!(apart, "{:?} and {:?} share a point", a, b);
        }
    }
}
