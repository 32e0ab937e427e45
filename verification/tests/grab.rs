use nuonuo_layout::geometry::Rect;
use nuonuo_layout::grab::{PointerMoveSurfaceGrab, ResizeSurfaceGrab};
use nuonuo_layout::manager::WorkspaceManager;
use nuonuo_layout::window::{SurfaceId, Window, WindowId};
use nuonuo_layout::workspace::LayoutError;

fn rect(x: i32, y: i32, w: i32, h: i32) -> Rect {
    Rect { x, y, w, h }
}

fn window(id: u64) -> Window {
    Window::new(WindowId(id), SurfaceId(id + 100))
}

fn manager() -> WorkspaceManager {
    let mut m = WorkspaceManager::new();
    m.add_workspace(rect(0, 0, 1920, 1080), None, true);
    m.map_tiled_element(window(1), None, false).unwrap();
    m.map_tiled_element(window(2), Some(SurfaceId(101)), false).unwrap();
    m
}

fn rects(m: &WorkspaceManager) -> Vec<(u64, Rect)> {
    m.elements().iter().map(|w| (w.id.0, w.rec)).collect()
}

#[test]
fn moved_window_follows_the_pointer() {
    let mut m = manager();
    let grab = PointerMoveSurfaceGrab {
        window: WindowId(1),
        start: (100, 100),
        initial_window_location: (12, 12),
    };
    assert!(grab.motion(&mut m, (130, 90)));
    assert_eq!(rects(&m), vec![(2, rect(966, 12, 942, 1056)), (1, rect(42, 2, 942, 1056))]);
    assert!(m.elements()[1].activated);
    assert!(grab.motion(&mut m, (100, 100)));
    assert_eq!(m.element_location(&window(1)), Some((12, 12)));
    assert!(grab.motion(&mut m, (0, 0)));
    assert_eq!(m.element_location(&window(1)), Some((-88, -88)));
}

#[test]
fn releasing_a_move_puts_tiled_windows_back() {
    let mut m = manager();
    let grab = PointerMoveSurfaceGrab {
        window: WindowId(2),
        start: (1000, 100),
        initial_window_location: (966, 12),
    };
    assert!(grab.motion(&mut m, (700, 400)));
    assert_eq!(m.element_location(&window(2)), Some((666, 312)));
    let out = grab.release(&mut m);
    assert_eq!(rects(&m), vec![(1, rect(12, 12, 942, 1056)), (2, rect(966, 12, 942, 1056))]);
    assert_eq!(out.len(), 2);
    assert!(out.iter().all(|c| !c.resizing));
}

#[test]
fn a_window_that_is_gone_is_not_moved() {
    let mut m = manager();
    let grab = PointerMoveSurfaceGrab { window: WindowId(9), start: (0, 0), initial_window_location: (0, 0) };
    assert!(!grab.motion(&mut m, (50, 50)));
    assert_eq!(rects(&m), vec![(1, rect(12, 12, 942, 1056)), (2, rect(966, 12, 942, 1056))]);
}

#[test]
fn a_move_stops_at_the_end_of_the_coordinate_range() {
    let mut m = manager();
    let grab = PointerMoveSurfaceGrab {
        window: WindowId(1),
        start: (0, 0),
        initial_window_location: (i32::MAX - 5, i32::MIN + 5),
    };
    assert!(grab.motion(&mut m, (100, -100)));
    assert_eq!(m.element_location(&window(1)), Some((i32::MAX, i32::MIN)));
    let grab = PointerMoveSurfaceGrab {
        window: WindowId(1),
        start: (i32::MIN, i32::MAX),
        initial_window_location: (0, 0),
    };
    assert!(grab.motion(&mut m, (i32::MAX, i32::MIN)));
    assert_eq!(m.element_location(&window(1)), Some((i32::MAX, i32::MIN)));
}

#[test]
fn resize_session_feeds_every_motion_into_the_tree() {
    let mut m = manager();
    let mut grab = ResizeSurfaceGrab::start(&window(1), (954, 500));
    assert_eq!(grab.surface, SurfaceId(101));
    let out = grab.motion(&mut m, (1054, 500)).unwrap();
    assert_eq!(rects(&m), vec![(1, rect(12, 12, 1042, 1056)), (2, rect(1066, 12, 842, 1056))]);
    assert_eq!(out.len(), 4);
    assert!(out[0].resizing && out[1].resizing && !out[2].resizing && !out[3].resizing);
    assert_eq!(grab.last, (1054, 500));
    grab.motion(&mut m, (1004, 600)).unwrap();
    assert_eq!(rects(&m), vec![(1, rect(12, 12, 992, 1056)), (2, rect(1016, 12, 892, 1056))]);
    let out = grab.release(&mut m);
    assert_eq!(rects(&m), vec![(1, rect(12, 12, 992, 1056)), (2, rect(1016, 12, 892, 1056))]);
    assert!(out.iter().all(|c| !c.resizing));
}

#[test]
fn resize_session_on_an_unknown_surface_is_refused() {
    let mut m = manager();
    let mut grab = ResizeSurfaceGrab { surface: SurfaceId(5), last: (0, 0) };
    assert_eq!(grab.motion(&mut m, (10, 10)), Err(LayoutError::UnresolvedFocus));
    assert_eq!(grab.last, (10, 10));
    assert_eq!(rects(&m), vec![(1, rect(12, 12, 942, 1056)), (2, rect(966, 12, 942, 1056))]);
}

#[test]
fn resize_session_survives_a_pointer_jump_across_the_range() {
    let mut m = manager();
    let mut grab = ResizeSurfaceGrab { surface: SurfaceId(101), last: (i32::MIN, 0) };
    grab.motion(&mut m, (i32::MAX, 0)).unwrap();
    assert_eq!(rects(&m), vec![(1, rect(12, 12, 1883, 1056)), (2, rect(1907, 12, 1, 1056))]);
}
