use nuonuo_layout::geometry::Rect;
use nuonuo_layout::manager::WorkspaceManager;
use nuonuo_layout::state::{
    Handled, InputEvent, Layer, LayerHit, LayerHits, NuonuoState, SurfaceAt, Target,
};
use nuonuo_layout::window::{SurfaceId, Window, WindowId};

fn rect(x: i32, y: i32, w: i32, h: i32) -> Rect {
    Rect { x, y, w, h }
}

fn window(id: u64) -> Window {
    Window::new(WindowId(id), SurfaceId(id + 100))
}

fn surface(id: u64) -> SurfaceId {
    SurfaceId(id + 100)
}

const NO_LAYERS: LayerHits = LayerHits { overlay: None, top: None, bottom: None, background: None };

fn layer(id: u64, focusable: bool, inside: bool) -> LayerHit {
    let under = if inside { Some(SurfaceAt { surface: SurfaceId(id + 1), x: 3, y: 4 }) } else { None };
    LayerHit { surface: SurfaceId(id), focusable, under }
}

fn state() -> NuonuoState {
    let mut m = WorkspaceManager::new();
    m.add_workspace(rect(0, 0, 1920, 1080), None, true);
    m.map_tiled_element(window(1), None, false).unwrap();
    m.map_tiled_element(window(2), Some(surface(1)), false).unwrap();
    NuonuoState::new(m)
}

fn order(s: &NuonuoState) -> Vec<(u64, bool)> {
    s.workspace_manager().elements().iter().map(|w| (w.id.0, w.activated)).collect()
}

#[test]
fn new_state_has_no_keyboard_focus() {
    let s = state();
    assert_eq!(s.keyboard_focus(), None);
    assert_eq!(order(&s), vec![(1, false), (2, false)]);
}

#[test]
fn overlay_layer_wins_over_a_window_under_the_same_point() {
    let mut s = state();
    let layers = LayerHits { overlay: Some(layer(900, true, true)), ..NO_LAYERS };
    let r = s.action_pointer_button((100, 100), &layers);
    assert_eq!(r.target, Target::Layer(Layer::Overlay));
    assert!(r.configures.is_empty());
    assert_eq!(s.keyboard_focus(), Some(SurfaceId(900)));
    assert_eq!(order(&s), vec![(1, false), (2, false)]);
}

#[test]
fn overlay_layer_wins_whatever_the_z_order_of_the_window() {
    for raised in [1u64, 2u64] {
        let mut s = state();
        s.workspace_manager_mut().map_element(
            Window { rec: rect(0, 0, 500, 500), ..window(3) },
            (0, 0),
            false,
        );
        s.workspace_manager_mut().raise_element(&window(raised), true);
        let before = order(&s);
        let layers = LayerHits { overlay: Some(layer(900, true, true)), ..NO_LAYERS };
        let r = s.action_pointer_button((100, 100), &layers);
        assert_eq!(r.target, Target::Layer(Layer::Overlay));
        assert_eq!(s.keyboard_focus(), Some(SurfaceId(900)));
        assert_eq!(order(&s), before);
    }
}

#[test]
fn overlay_layer_wins_over_the_top_layer() {
    let mut s = state();
    let layers = LayerHits {
        overlay: Some(layer(900, true, true)),
        top: Some(layer(800, true, true)),
        bottom: Some(layer(700, true, true)),
        background: Some(layer(600, true, true)),
    };
    let r = s.action_pointer_button((100, 100), &layers);
    assert_eq!(r.target, Target::Layer(Layer::Overlay));
    assert_eq!(s.keyboard_focus(), Some(SurfaceId(900)));
}

#[test]
fn top_layer_wins_over_a_window() {
    let mut s = state();
    let layers = LayerHits { top: Some(layer(800, true, true)), ..NO_LAYERS };
    let r = s.action_pointer_button((100, 100), &layers);
    assert_eq!(r.target, Target::Layer(Layer::Top));
    assert_eq!(s.keyboard_focus(), Some(SurfaceId(800)));
    assert_eq!(order(&s), vec![(1, false), (2, false)]);
}

#[test]
fn a_layer_that_takes_no_focus_still_ends_the_search() {
    let mut s = state();
    s.action_pointer_button((100, 100), &NO_LAYERS);
    assert_eq!(s.keyboard_focus(), Some(surface(1)));
    let before = order(&s);
    let layers = LayerHits { overlay: Some(layer(900, false, true)), top: Some(layer(800, true, true)), ..NO_LAYERS };
    let r = s.action_pointer_button((1000, 100), &layers);
    assert_eq!(r.target, Target::Layer(Layer::Overlay));
    assert_eq!(s.keyboard_focus(), Some(surface(1)));
    assert_eq!(order(&s), before);
}

#[test]
fn a_layer_hit_beside_its_surfaces_still_ends_the_search() {
    let mut s = state();
    let layers = LayerHits { top: Some(layer(800, true, false)), ..NO_LAYERS };
    let r = s.action_pointer_button((100, 100), &layers);
    assert_eq!(r.target, Target::Layer(Layer::Top));
    assert_eq!(s.keyboard_focus(), None);
    assert_eq!(order(&s), vec![(1, false), (2, false)]);
}

#[test]
fn a_window_under_the_point_is_raised_activated_and_focused() {
    let mut s = state();
    let r = s.action_pointer_button((100, 100), &NO_LAYERS);
    assert_eq!(r.target, Target::Window(surface(1)));
    assert_eq!(s.keyboard_focus(), Some(surface(1)));
    assert_eq!(order(&s), vec![(2, false), (1, true)]);
    assert_eq!(r.configures.len(), 2);
    assert_eq!(r.configures[1].surface, surface(1));
    assert!(r.configures[1].activated);
    assert!(!r.configures[0].activated);
}

#[test]
fn pressing_another_window_moves_the_activation() {
    let mut s = state();
    s.action_pointer_button((100, 100), &NO_LAYERS);
    let r = s.action_pointer_button((1000, 100), &NO_LAYERS);
    assert_eq!(r.target, Target::Window(surface(2)));
    assert_eq!(s.keyboard_focus(), Some(surface(2)));
    assert_eq!(order(&s), vec![(1, false), (2, true)]);
}

#[test]
fn a_window_wins_over_the_layers_below() {
    let mut s = state();
    let layers = LayerHits { bottom: Some(layer(700, true, true)), background: Some(layer(600, true, true)), ..NO_LAYERS };
    let r = s.action_pointer_button((100, 100), &layers);
    assert_eq!(r.target, Target::Window(surface(1)));
    assert_eq!(s.keyboard_focus(), Some(surface(1)));
}

#[test]
fn the_topmost_of_two_overlapping_windows_is_picked() {
    let mut s = state();
    s.workspace_manager_mut().map_element(Window { rec: rect(0, 0, 500, 500), ..window(3) }, (0, 0), false);
    let r = s.action_pointer_button((100, 100), &NO_LAYERS);
    assert_eq!(r.target, Target::Window(surface(3)));
    s.workspace_manager_mut().raise_element(&window(1), false);
    let r = s.action_pointer_button((100, 100), &NO_LAYERS);
    assert_eq!(r.target, Target::Window(surface(1)));
    assert_eq!(order(&s), vec![(2, false), (3, false), (1, true)]);
}

#[test]
fn bottom_layer_is_reached_where_no_window_lies() {
    let mut s = state();
    let layers = LayerHits { bottom: Some(layer(700, true, true)), background: Some(layer(600, true, true)), ..NO_LAYERS };
    let r = s.action_pointer_button((5, 5), &layers);
    assert_eq!(r.target, Target::Layer(Layer::Bottom));
    assert_eq!(s.keyboard_focus(), Some(SurfaceId(700)));
    assert!(r.configures.is_empty());
}

#[test]
fn background_layer_comes_after_the_bottom_layer() {
    let mut s = state();
    let layers = LayerHits { background: Some(layer(600, true, true)), ..NO_LAYERS };
    let r = s.action_pointer_button((5, 5), &layers);
    assert_eq!(r.target, Target::Layer(Layer::Background));
    assert_eq!(s.keyboard_focus(), Some(SurfaceId(600)));
}

#[test]
fn a_bottom_layer_that_takes_no_focus_hides_the_background() {
    let mut s = state();
    s.action_pointer_button((100, 100), &NO_LAYERS);
    let layers = LayerHits { bottom: Some(layer(700, false, true)), background: Some(layer(600, true, true)), ..NO_LAYERS };
    let r = s.action_pointer_button((5, 5), &layers);
    assert_eq!(r.target, Target::Layer(Layer::Bottom));
    assert_eq!(s.keyboard_focus(), Some(surface(1)));
    assert_eq!(order(&s), vec![(2, false), (1, true)]);
}

#[test]
fn a_press_on_nothing_clears_focus_and_activation() {
    let mut s = state();
    s.action_pointer_button((100, 100), &NO_LAYERS);
    let r = s.action_pointer_button((5, 5), &NO_LAYERS);
    assert_eq!(r.target, Target::Nothing);
    assert_eq!(s.keyboard_focus(), None);
    assert_eq!(order(&s), vec![(2, false), (1, false)]);
    assert_eq!(r.configures.len(), 2);
    assert!(r.configures.iter().all(|c| !c.activated));
}

#[test]
fn modify_all_windows_state_sets_every_flag() {
    let mut s = state();
    let out = s.modify_all_windows_state(true);
    assert_eq!(order(&s), vec![(1, true), (2, true)]);
    assert_eq!(out.len(), 2);
    assert!(out.iter().all(|c| c.activated && !c.resizing));
    let out = s.modify_all_windows_state(false);
    assert_eq!(order(&s), vec![(1, false), (2, false)]);
    assert!(out.iter().all(|c| !c.activated));
}

#[test]
fn motion_over_a_layer_answers_with_its_surface_and_changes_nothing() {
    let mut s = state();
    s.modify_all_windows_state(true);
    let layers = LayerHits { top: Some(layer(800, true, true)), ..NO_LAYERS };
    let (under, out) = s.surface_under((100, 100), &layers);
    assert_eq!(under, Some(SurfaceAt { surface: SurfaceId(801), x: 3, y: 4 }));
    assert!(out.is_empty());
    assert_eq!(s.keyboard_focus(), None);
    assert_eq!(order(&s), vec![(1, true), (2, true)]);
    let layers = LayerHits { overlay: Some(layer(900, true, false)), ..layers };
    let (under, _) = s.surface_under((100, 100), &layers);
    assert_eq!(under, None);
}

#[test]
fn motion_over_a_window_focuses_it_and_deactivates_all() {
    let mut s = state();
    s.modify_all_windows_state(true);
    let (under, out) = s.surface_under((1000, 100), &NO_LAYERS);
    assert_eq!(under, Some(SurfaceAt { surface: surface(2), x: 966, y: 12 }));
    assert_eq!(s.keyboard_focus(), Some(surface(2)));
    assert_eq!(order(&s), vec![(1, false), (2, false)]);
    assert_eq!(out.len(), 2);
}

#[test]
fn motion_over_nothing_keeps_the_focus_and_deactivates_all() {
    let mut s = state();
    s.action_pointer_button((100, 100), &NO_LAYERS);
    let layers = LayerHits { bottom: Some(layer(700, true, true)), ..NO_LAYERS };
    let (under, out) = s.surface_under((5, 5), &layers);
    assert_eq!(under, None);
    assert_eq!(s.keyboard_focus(), Some(surface(1)));
    assert_eq!(order(&s), vec![(2, false), (1, false)]);
    assert_eq!(out.len(), 2);
}

#[test]
fn button_press_outside_a_grab_is_routed() {
    let mut s = state();
    let event = InputEvent::PointerButton { pressed: true, grabbed: false, position: (1000, 100) };
    match s.process_input_event(event, &NO_LAYERS) {
        Handled::Press { routed } => assert_eq!(routed.target, Target::Window(surface(2))),
        _ => panic!("the press was not routed"),
    }
    assert_eq!(s.keyboard_focus(), Some(surface(2)));
}

#[test]
fn button_release_and_grabbed_press_are_left_alone() {
    let mut s = state();
    for (pressed, grabbed) in [(false, false), (false, true), (true, true)] {
        let event = InputEvent::PointerButton { pressed, grabbed, position: (1000, 100) };
        assert!(matches!(s.process_input_event(event, &NO_LAYERS), Handled::Nothing));
        assert_eq!(s.keyboard_focus(), None);
        assert_eq!(order(&s), vec![(1, false), (2, false)]);
    }
    assert!(matches!(s.process_input_event(InputEvent::Other, &NO_LAYERS), Handled::Nothing));
}

#[test]
fn motion_event_looks_up_the_surface_under_the_pointer() {
    let mut s = state();
    let event = InputEvent::PointerMotionAbsolute { position: (100, 100) };
    match s.process_input_event(event, &NO_LAYERS) {
        Handled::Motion { under, configures } => {
            assert_eq!(under, Some(SurfaceAt { surface: surface(1), x: 12, y: 12 }));
            assert_eq!(configures.len(), 2);
        }
        _ => panic!("the motion was not handled"),
    }
    assert_eq!(s.keyboard_focus(), Some(surface(1)));
}
