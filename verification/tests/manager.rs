use nuonuo_layout::geometry::Rect;
use nuonuo_layout::manager::WorkspaceManager;
use nuonuo_layout::tiled_tree::LayoutScheme;
use nuonuo_layout::window::{SurfaceId, Window, WindowId};
use nuonuo_layout::workspace::{LayoutError, WorkspaceId};

fn rect(x: i32, y: i32, w: i32, h: i32) -> Rect {
    Rect { x, y, w, h }
}

fn window(id: u64) -> Window {
    Window::new(WindowId(id), SurfaceId(id + 100))
}

fn surface(id: u64) -> SurfaceId {
    SurfaceId(id + 100)
}

fn two_workspaces() -> WorkspaceManager {
    let mut m = WorkspaceManager::new();
    m.add_workspace(rect(0, 0, 1920, 1080), None, true);
    m.add_workspace(rect(0, 0, 1000, 500), Some(LayoutScheme::Default), false);
    m
}

#[test]
fn new_manager_has_no_workspace() {
    let m = WorkspaceManager::new();
    assert_eq!(m._workspaces_counts(), 0);
    assert!(!m.has_current());
    assert_eq!(m.find_workspace(WorkspaceId(1)), None);
}

#[test]
fn workspaces_get_ids_in_the_order_of_their_making() {
    let m = two_workspaces();
    assert_eq!(m._workspaces_counts(), 2);
    assert_eq!(m.find_workspace(WorkspaceId(1)), Some(0));
    assert_eq!(m.find_workspace(WorkspaceId(2)), Some(1));
    assert_eq!(m.find_workspace(WorkspaceId(3)), None);
}

#[test]
fn add_workspace_activates_only_when_asked() {
    let mut m = WorkspaceManager::new();
    m.add_workspace(rect(0, 0, 800, 600), None, false);
    assert!(!m.has_current());
    m.add_workspace(rect(0, 0, 1024, 768), Some(LayoutScheme::BinaryTree), true);
    assert!(m.has_current());
    assert_eq!(m.current_workspace().id(), WorkspaceId(2));
    assert_eq!(m.current_workspace().layout(), LayoutScheme::BinaryTree);
    assert_eq!(m.output_geometry(), rect(0, 0, 1024, 768));
}

#[test]
fn add_workspace_defaults_to_the_default_scheme() {
    let m = two_workspaces();
    assert_eq!(m.current_workspace().layout(), LayoutScheme::Default);
}

#[test]
fn activating_another_workspace_deactivates_the_windows_of_the_old_one() {
    let mut m = two_workspaces();
    m.map_tiled_element(window(1), None, true).unwrap();
    m.map_tiled_element(window(2), Some(surface(1)), true).unwrap();
    assert!(m.elements().iter().all(|w| w.activated));
    let out = m.set_activated(WorkspaceId(2));
    assert_eq!(out.len(), 2);
    assert!(out.iter().all(|c| !c.activated));
    assert_eq!(m.current_workspace().id(), WorkspaceId(2));
    assert!(m.elements().is_empty());
    let out = m.set_activated(WorkspaceId(1));
    assert!(out.is_empty());
    assert_eq!(m.elements().len(), 2);
    assert!(m.elements().iter().all(|w| !w.activated));
}

#[test]
fn activating_the_active_workspace_does_nothing() {
    let mut m = two_workspaces();
    m.map_tiled_element(window(1), None, true).unwrap();
    let out = m.set_activated(WorkspaceId(1));
    assert!(out.is_empty());
    assert!(m.elements()[0].activated);
}

#[test]
fn adding_an_active_workspace_deactivates_the_windows_of_the_old_one() {
    let mut m = two_workspaces();
    m.map_tiled_element(window(1), None, true).unwrap();
    let out = m.add_workspace(rect(0, 0, 640, 480), None, true);
    assert_eq!(out.len(), 1);
    assert!(!out[0].activated);
    assert_eq!(m.current_workspace().id(), WorkspaceId(3));
    m.set_activated(WorkspaceId(1));
    assert!(!m.elements()[0].activated);
}

#[test]
fn first_activation_sends_no_message() {
    let mut m = WorkspaceManager::new();
    m.add_workspace(rect(0, 0, 800, 600), None, false);
    assert!(m.set_activated(WorkspaceId(1)).is_empty());
    assert!(m.has_current());
}

#[test]
fn requests_go_to_the_active_workspace() {
    let mut m = two_workspaces();
    m.map_tiled_element(window(1), None, false).unwrap();
    m.set_activated(WorkspaceId(2));
    m.map_tiled_element(window(2), None, false).unwrap();
    assert_eq!(m.element_geometry(&window(2)), Some(rect(12, 12, 976, 476)));
    assert_eq!(m.element_geometry(&window(1)), None);
    m.set_activated(WorkspaceId(1));
    assert_eq!(m.element_geometry(&window(1)), Some(rect(12, 12, 1896, 1056)));
    assert_eq!(m.element_geometry(&window(2)), None);
}

#[test]
fn find_window_searches_the_active_workspace_only() {
    let mut m = two_workspaces();
    m.map_tiled_element(window(1), None, false).unwrap();
    assert_eq!(m.find_window(&surface(1)).map(|w| w.id), Some(WindowId(1)));
    assert_eq!(m.find_window(&surface(2)), None);
    m.set_activated(WorkspaceId(2));
    assert_eq!(m.find_window(&surface(1)), None);
}

#[test]
fn manager_tiles_and_removes_windows() {
    let mut m = two_workspaces();
    m.map_tiled_element(window(1), None, false).unwrap();
    m.map_tiled_element(window(2), Some(surface(1)), false).unwrap();
    assert_eq!(m.element_location(&window(2)), Some((966, 12)));
    assert_eq!(m.element_under(1000, 100).map(|(w, _)| w.id), Some(WindowId(2)));
    assert_eq!(m.remove_window(&surface(1)).map(|out| out.len()), Ok(1));
    assert_eq!(m.element_geometry(&window(2)), Some(rect(12, 12, 1896, 1056)));
    assert_eq!(m.remove_window(&surface(1)), Err(LayoutError::NotFound));
}

#[test]
fn manager_forwards_resize_invert_and_relayout() {
    let mut m = two_workspaces();
    m.map_tiled_element(window(1), None, false).unwrap();
    m.map_tiled_element(window(2), Some(surface(1)), false).unwrap();
    m.resize(Some(surface(1)), (-42, 0)).unwrap();
    assert_eq!(m.element_geometry(&window(1)), Some(rect(12, 12, 900, 1056)));
    assert_eq!(m.element_geometry(&window(2)), Some(rect(924, 12, 984, 1056)));
    m.invert_window(Some(surface(1))).unwrap();
    m.modify_windows(rect(0, 0, 1920, 1080));
    assert_eq!(m.element_geometry(&window(2)), Some(rect(12, 12, 942, 1056)));
    assert_eq!(m.element_geometry(&window(1)), Some(rect(966, 12, 942, 1056)));
    assert_eq!(m.resize(Some(SurfaceId(1)), (1, 1)), Err(LayoutError::UnresolvedFocus));
    assert_eq!(m.invert_window(Some(SurfaceId(1))), Err(LayoutError::UnresolvedFocus));
}

#[test]
fn manager_maps_raises_and_focuses() {
    let mut m = two_workspaces();
    m.map_element(window(1), (1, 1), false);
    m.map_element(window(2), (2, 2), false);
    m.raise_element(&window(1), true);
    let ids: Vec<u64> = m.elements().iter().map(|w| w.id.0).collect();
    assert_eq!(ids, vec![2, 1]);
    assert!(m.elements()[1].activated);
    m.set_focus(surface(2));
    assert_eq!(m.current_workspace().get_focus(), Some(WindowId(2)));
    let out = m.single_out(&window(2));
    assert_eq!(out.len(), 2);
    let flags: Vec<(u64, bool)> = m.elements().iter().map(|w| (w.id.0, w.activated)).collect();
    assert_eq!(flags, vec![(1, false), (2, true)]);
    let out = m.set_all_activation(false);
    assert!(out.iter().all(|c| !c.activated));
}

#[test]
fn current_workspace_mut_changes_the_active_workspace_in_place() {
    let mut m = two_workspaces();
    m.current_workspace_mut().map_tiled_element(window(1), None, true).unwrap();
    assert_eq!(m.elements().len(), 1);
    assert_eq!(m.current_workspace().tiled_count(), 1);
}

#[test]
fn tiling_without_focus_is_refused_by_the_manager_too() {
    let mut m = two_workspaces();
    m.map_tiled_element(window(1), None, false).unwrap();
    assert_eq!(m.map_tiled_element(window(2), None, false), Err(LayoutError::UnresolvedFocus));
}
