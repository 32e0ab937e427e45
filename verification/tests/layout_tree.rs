use nuonuo_layout::geometry::Rect;
use nuonuo_layout::layout_tree::TiledLayoutTree;
use nuonuo_layout::window::{SurfaceId, Window, WindowId};

fn rect(x: i32, y: i32, w: i32, h: i32) -> Rect {
    Rect { x, y, w, h }
}

fn window(id: u64) -> Window {
    Window::new(WindowId(id), SurfaceId(id + 100))
}

fn leaves(tree: &TiledLayoutTree, out: &mut Vec<(u64, Rect)>) {
    match tree {
        TiledLayoutTree::Leaf { window, rec } => out.push((window.0, *rec)),
        TiledLayoutTree::Split { left, right } => {
            leaves(left, out);
            leaves(right, out);
        }
    }
}

fn tiles(tree: &TiledLayoutTree) -> Vec<(u64, Rect)> {
    let mut out = Vec::new();
    leaves(tree, &mut out);
    out
}

fn leaf_rect(tree: Option<&TiledLayoutTree>) -> Option<Rect> {
    match tree {
        Some(TiledLayoutTree::Leaf { rec, .. }) => Some(*rec),
        _ => None,
    }
}

#[test]
fn new_layout_tree_insets_the_rectangle() {
    let (tree, at) = TiledLayoutTree::new(window(1), rect(100, 200, 1920, 1080));
    assert_eq!(at, (112, 212));
    assert_eq!(tiles(&tree), vec![(1, rect(112, 212, 1896, 1056))]);
    assert_eq!(tree.depth(), 1);
}

#[test]
fn insert_default_splits_the_focused_leaf() {
    let (mut tree, _) = TiledLayoutTree::new(window(1), rect(0, 0, 1920, 1080));
    let at = tree.insert_default(window(2), Some(&window(1)));
    assert_eq!(at, Some((966, 12)));
    assert_eq!(tiles(&tree), vec![(1, rect(12, 12, 942, 1056)), (2, rect(966, 12, 942, 1056))]);
    let at = tree.insert_default(window(3), Some(&window(1)));
    assert_eq!(at, Some((489, 12)));
    assert_eq!(
        tiles(&tree),
        vec![(1, rect(12, 12, 465, 1056)), (3, rect(489, 12, 465, 1056)), (2, rect(966, 12, 942, 1056))]
    );
    let at = tree.insert_default(window(4), Some(&window(3)));
    assert_eq!(at, Some((489, 546)));
    assert_eq!(leaf_rect(tree.find_window(&window(3))), Some(rect(489, 12, 465, 522)));
    assert_eq!(leaf_rect(tree.find_window(&window(4))), Some(rect(489, 546, 465, 522)));
}

#[test]
fn insert_default_without_a_known_focus_changes_nothing() {
    let (mut tree, _) = TiledLayoutTree::new(window(1), rect(0, 0, 1920, 1080));
    assert_eq!(tree.insert_default(window(2), None), None);
    assert_eq!(tree.insert_default(window(2), Some(&window(7))), None);
    assert_eq!(tiles(&tree), vec![(1, rect(12, 12, 1896, 1056))]);
}

#[test]
fn find_window_answers_the_leaf() {
    let (mut tree, _) = TiledLayoutTree::new(window(1), rect(0, 0, 1920, 1080));
    tree.insert_default(window(2), Some(&window(1)));
    assert_eq!(leaf_rect(tree.find_window(&window(2))), Some(rect(966, 12, 942, 1056)));
    assert_eq!(leaf_rect(tree.find_window(&window(1))), Some(rect(12, 12, 942, 1056)));
    assert!(tree.find_window(&window(3)).is_none());
}

#[test]
fn depth_counts_the_shortest_path() {
    let (mut tree, _) = TiledLayoutTree::new(window(1), rect(0, 0, 1920, 1080));
    tree.insert_default(window(2), Some(&window(1)));
    assert_eq!(tree.depth(), 2);
    tree.insert_default(window(3), Some(&window(2)));
    tree.insert_default(window(4), Some(&window(3)));
    assert_eq!(tree.depth(), 2);
    tree.insert_default(window(5), Some(&window(1)));
    assert_eq!(tree.depth(), 3);
}

#[test]
fn insert_binary_tree_fills_the_shallowest_side() {
    let (mut tree, _) = TiledLayoutTree::new(window(1), rect(0, 0, 1920, 1080));
    assert_eq!(tree.insert_binary_tree(window(2)), (966, 12));
    assert_eq!(tree.insert_binary_tree(window(3)), (1443, 12));
    assert_eq!(tree.insert_binary_tree(window(4)), (489, 12));
    assert_eq!(
        tiles(&tree),
        vec![
            (1, rect(12, 12, 465, 1056)),
            (4, rect(489, 12, 465, 1056)),
            (2, rect(966, 12, 465, 1056)),
            (3, rect(1443, 12, 465, 1056)),
        ]
    );
    assert_eq!(tree.depth(), 3);
    assert_eq!(tree.insert_binary_tree(window(5)), (1443, 546));
}
