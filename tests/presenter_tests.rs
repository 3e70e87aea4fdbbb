use std::collections::HashMap;

use presenter::{
    AppContext, Axis, ChildView, ElementBox, Event, EventHandler, Presenter, Quad, SizeConstraint,
    Vector2I, WindowInvalidation, UNBOUNDED,
};

fn content(w: u64, h: u64, fill: u32, children: &[usize], on_press: EventHandler) -> ElementBox {
    ElementBox::new(
        Vector2I::new(w, h),
        fill,
        children.iter().map(|id| ChildView::new(*id)).collect(),
        on_press,
    )
}

/// root 1 embeds 2, which embeds 3; 3 dispatches action 7 when pressed.
fn three_view_app() -> AppContext {
    let mut views = HashMap::new();
    views.insert(1, content(100, 100, 10, &[2], EventHandler::Ignore));
    views.insert(2, content(50, 50, 20, &[3], EventHandler::Ignore));
    views.insert(3, content(20, 20, 30, &[], EventHandler::Dispatch(7)));
    AppContext::new(Some(1), Some(3), views)
}

fn window() -> Vector2I {
    Vector2I::new(200, 150)
}

#[test]
fn axis_invert_swaps() {
    assert_eq!(Axis::Horizontal.invert(), Axis::Vertical);
    assert_eq!(Axis::Vertical.invert(), Axis::Horizontal);
}

#[test]
fn strict_constraint_fixes_both_axes() {
    let c = SizeConstraint::strict(Vector2I::new(3, 4));
    assert_eq!(c.min, Vector2I::new(3, 4));
    assert_eq!(c.max, Vector2I::new(3, 4));
    assert_eq!(c.constrain(Vector2I::new(100, 0)), Vector2I::new(3, 4));
}

#[test]
fn strict_along_leaves_other_axis_unbounded() {
    let c = SizeConstraint::strict_along(Axis::Vertical, 30);
    assert_eq!(c.min_along(Axis::Vertical), 30);
    assert_eq!(c.max_along(Axis::Vertical), 30);
    assert_eq!(c.min_along(Axis::Horizontal), 0);
    assert_eq!(c.max_along(Axis::Horizontal), UNBOUNDED);
    let h = SizeConstraint::strict_along(Axis::Horizontal, 12);
    assert_eq!(h.min, Vector2I::new(12, 0));
    assert_eq!(h.max, Vector2I::new(12, UNBOUNDED));
}

#[test]
fn constrain_clamps_each_axis() {
    let c = SizeConstraint::new(Vector2I::new(10, 10), Vector2I::new(20, 20));
    assert_eq!(c.constrain(Vector2I::new(5, 25)), Vector2I::new(10, 20));
    assert_eq!(c.constrain(Vector2I::new(15, 15)), Vector2I::new(15, 15));
    assert_eq!(Vector2I::new(7, 9).along(Axis::Horizontal), 7);
    assert_eq!(Vector2I::new(7, 9).along(Axis::Vertical), 9);
}

#[test]
fn new_renders_every_view() {
    let app = three_view_app();
    let p = Presenter::new(5, &app);
    assert_eq!(p.window_id(), 5);
    assert!(p.has_view(1) && p.has_view(2) && p.has_view(3));
    assert!(!p.has_view(4));
    assert_eq!(p.rendered_view(2).unwrap().fill, 20);
    assert_eq!(p.parent_of(2), None);
}

#[test]
fn dispatch_path_runs_root_to_focused() {
    let mut app = three_view_app();
    let mut p = Presenter::new(0, &app);
    p.build_scene(window(), &mut app);
    let path = p.dispatch_path(&app);
    assert_eq!(path, vec![1, 2, 3]);
}

#[test]
fn dispatch_path_of_unlinked_focus_is_itself() {
    let mut app = three_view_app();
    let mut p = Presenter::new(0, &app);
    p.build_scene(window(), &mut app);
    app.focused_view_id = Some(1);
    assert_eq!(p.dispatch_path(&app), vec![1]);
}

#[test]
fn layout_links_each_view_to_its_container() {
    let mut app = three_view_app();
    let mut p = Presenter::new(0, &app);
    p.build_scene(window(), &mut app);
    assert_eq!(p.parent_of(1), None);
    assert_eq!(p.parent_of(2), Some(1));
    assert_eq!(p.parent_of(3), Some(2));
}

#[test]
fn layout_sizes_views_within_their_container() {
    let mut app = three_view_app();
    let mut p = Presenter::new(0, &app);
    p.build_scene(window(), &mut app);
    assert_eq!(p.rendered_view(1).unwrap().bounds_size, Vector2I::new(200, 150));
    assert_eq!(p.rendered_view(2).unwrap().bounds_size, Vector2I::new(50, 50));
    assert_eq!(p.rendered_view(3).unwrap().bounds_size, Vector2I::new(20, 20));
}

#[test]
fn build_scene_paints_root_first() {
    let mut app = three_view_app();
    let mut p = Presenter::new(0, &app);
    let scene = p.build_scene(window(), &mut app);
    assert_eq!(scene.quads.len(), 3);
    assert_eq!(
        scene.quads[0],
        Quad { origin: Vector2I::zero(), size: Vector2I::new(200, 150), fill: 10 }
    );
    assert_eq!(scene.quads[2].fill, 30);
}

#[test]
fn build_scene_without_root_is_empty() {
    let mut app = three_view_app();
    app.root_view_id = None;
    let mut p = Presenter::new(0, &app);
    let scene = p.build_scene(window(), &mut app);
    assert!(scene.quads.is_empty());
    assert_eq!(p.parent_of(2), None);
}

#[test]
fn press_applies_action_along_path() {
    let mut app = three_view_app();
    let mut p = Presenter::new(0, &app);
    p.build_scene(window(), &mut app);
    p.dispatch_event(Event::LeftMouseDown { position: Vector2I::new(1, 1) }, &mut app);
    assert_eq!(app.action_log, vec![(1, 7), (2, 7), (3, 7)]);
}

#[test]
fn press_outside_content_does_nothing() {
    let mut app = three_view_app();
    let mut p = Presenter::new(0, &app);
    p.build_scene(window(), &mut app);
    p.dispatch_event(Event::LeftMouseDown { position: Vector2I::new(100, 100) }, &mut app);
    assert!(app.action_log.is_empty());
}

#[test]
fn notify_handler_reports_view() {
    let mut views = HashMap::new();
    views.insert(1, content(10, 10, 1, &[2], EventHandler::Ignore));
    views.insert(2, content(10, 10, 2, &[], EventHandler::Notify));
    let mut app = AppContext::new(Some(1), Some(2), views);
    let mut p = Presenter::new(0, &app);
    p.build_scene(Vector2I::new(10, 10), &mut app);
    p.dispatch_event(Event::LeftMouseDown { position: Vector2I::new(0, 0) }, &mut app);
    assert_eq!(app.notified, vec![2]);
    assert!(app.action_log.is_empty());
}

#[test]
fn dispatch_without_root_is_dropped() {
    let mut app = three_view_app();
    let mut p = Presenter::new(0, &app);
    p.build_scene(window(), &mut app);
    app.root_view_id = None;
    p.dispatch_event(Event::MouseMoved { position: Vector2I::new(1, 1), left_mouse_down: false }, &mut app);
    assert_eq!(p.last_mouse_moved_event(), None);
    assert!(app.notified.is_empty());
}

#[test]
fn move_sets_hover_and_reports_redraw() {
    let mut app = three_view_app();
    let mut p = Presenter::new(0, &app);
    p.build_scene(window(), &mut app);
    p.dispatch_event(Event::MouseMoved { position: Vector2I::new(30, 30), left_mouse_down: false }, &mut app);
    assert!(p.rendered_view(1).unwrap().hovered);
    assert!(p.rendered_view(2).unwrap().hovered);
    assert!(!p.rendered_view(3).unwrap().hovered);
    let mut notified = app.notified.clone();
    notified.sort();
    assert_eq!(notified, vec![1, 2]);
}

#[test]
fn replayed_move_keeps_hover_state() {
    let mut app = three_view_app();
    let mut p = Presenter::new(0, &app);
    p.build_scene(window(), &mut app);
    let moved = Event::MouseMoved { position: Vector2I::new(30, 30), left_mouse_down: false };
    p.dispatch_event(moved, &mut app);
    let notified = app.notified.len();
    p.build_scene(window(), &mut app);
    assert_eq!(p.last_mouse_moved_event(), Some(moved));
    assert_eq!(app.notified.len(), notified);
    assert!(p.rendered_view(1).unwrap().hovered);
    assert!(p.rendered_view(2).unwrap().hovered);
    assert!(!p.rendered_view(3).unwrap().hovered);
}

#[test]
fn drag_acts_as_pressed_move() {
    let position = Vector2I::new(10, 10);
    let mut app_a = three_view_app();
    let mut a = Presenter::new(0, &app_a);
    a.build_scene(window(), &mut app_a);
    a.dispatch_event(Event::LeftMouseDragged { position }, &mut app_a);
    let mut app_b = three_view_app();
    let mut b = Presenter::new(0, &app_b);
    b.build_scene(window(), &mut app_b);
    b.dispatch_event(Event::MouseMoved { position, left_mouse_down: true }, &mut app_b);
    assert_eq!(a.last_mouse_moved_event(), b.last_mouse_moved_event());
    assert_eq!(
        a.last_mouse_moved_event(),
        Some(Event::MouseMoved { position, left_mouse_down: true })
    );
    for id in 1..4 {
        assert_eq!(a.rendered_view(id).unwrap().hovered, b.rendered_view(id).unwrap().hovered);
    }
    assert!(a.rendered_view(3).unwrap().hovered);
}

#[test]
fn invalidate_removed_view_leaves_rest() {
    let mut app = three_view_app();
    let mut p = Presenter::new(0, &app);
    p.build_scene(window(), &mut app);
    assert_eq!(p.parent_of(2), Some(1));
    p.invalidate(WindowInvalidation { updated: vec![], removed: vec![2] }, &app);
    assert!(p.has_view(1) && p.has_view(3));
    assert!(!p.has_view(2));
    assert_eq!(p.parent_of(2), None);
    assert_eq!(p.parent_of(3), Some(2));
}

#[test]
fn invalidate_removed_wins_over_updated() {
    let mut app = three_view_app();
    let mut p = Presenter::new(0, &app);
    p.build_scene(window(), &mut app);
    p.invalidate(WindowInvalidation { updated: vec![2], removed: vec![2] }, &app);
    assert!(!p.has_view(2));
    assert_eq!(p.parent_of(2), None);
    assert!(p.has_view(1) && p.has_view(3));
}

#[test]
fn invalidate_empty_changes_nothing() {
    let mut app = three_view_app();
    let mut p = Presenter::new(0, &app);
    p.build_scene(window(), &mut app);
    p.invalidate(WindowInvalidation { updated: vec![], removed: vec![] }, &app);
    for id in 1..4 {
        assert!(p.has_view(id));
    }
    assert_eq!(p.rendered_view(1).unwrap().bounds_size, Vector2I::new(200, 150));
    assert_eq!(p.parent_of(3), Some(2));
    assert_eq!(p.parent_of(2), Some(1));
}

#[test]
fn invalidate_updated_renders_again() {
    let mut app = three_view_app();
    let mut p = Presenter::new(0, &app);
    p.build_scene(window(), &mut app);
    app.views.insert(3, content(5, 5, 99, &[], EventHandler::Ignore));
    app.views.insert(2, content(5, 5, 77, &[3], EventHandler::Ignore));
    p.invalidate(WindowInvalidation { updated: vec![3], removed: vec![] }, &app);
    assert_eq!(p.rendered_view(3).unwrap().fill, 99);
    assert_eq!(p.rendered_view(2).unwrap().fill, 20);
}

#[test]
fn refresh_renders_every_view_again() {
    let mut app = three_view_app();
    let mut p = Presenter::new(0, &app);
    app.views.insert(2, content(5, 5, 77, &[3], EventHandler::Ignore));
    app.views.insert(3, content(5, 5, 99, &[], EventHandler::Ignore));
    p.refresh(None, &app);
    assert_eq!(p.rendered_view(2).unwrap().fill, 77);
    assert_eq!(p.rendered_view(3).unwrap().fill, 99);
    p.refresh(Some(WindowInvalidation { updated: vec![], removed: vec![3] }), &app);
    assert!(!p.has_view(3));
    assert!(p.has_view(1) && p.has_view(2));
}

#[test]
fn debug_elements_snapshots_tree() {
    let mut app = three_view_app();
    let mut p = Presenter::new(0, &app);
    p.build_scene(window(), &mut app);
    let node = p.debug_elements(&app).unwrap();
    assert_eq!(node.view_id, 1);
    let c = node.content.unwrap();
    assert_eq!(c.size, Vector2I::new(200, 150));
    assert_eq!(c.children.len(), 1);
    assert_eq!(c.children[0].view_id, 2);
    let inner = c.children[0].content.as_ref().unwrap();
    assert_eq!(inner.children[0].view_id, 3);
    assert_eq!(inner.children[0].content.as_ref().unwrap().fill, 30);
    app.root_view_id = None;
    assert!(p.debug_elements(&app).is_none());
}

#[test]
fn self_embedding_view_terminates() {
    let mut views = HashMap::new();
    views.insert(1, content(10, 10, 1, &[1, 9], EventHandler::Ignore));
    let mut app = AppContext::new(Some(1), Some(1), views);
    let mut p = Presenter::new(0, &app);
    let scene = p.build_scene(Vector2I::new(4, 4), &mut app);
    assert_eq!(scene.quads.len(), 1);
    assert_eq!(p.parent_of(1), None);
    assert_eq!(p.dispatch_path(&app), vec![1]);
    let node = p.debug_elements(&app).unwrap();
    assert!(node.content.unwrap().children[1].content.is_none());
}

#[test]
fn build_scene_without_pointer_sends_nothing() {
    let mut app = three_view_app();
    let mut p = Presenter::new(0, &app);
    p.build_scene(window(), &mut app);
    p.build_scene(window(), &mut app);
    assert!(app.notified.is_empty());
    assert!(app.action_log.is_empty());
}

#[test]
fn build_scene_paints_embedded_views_in_order() {
    let mut app = three_view_app();
    let mut p = Presenter::new(0, &app);
    let scene = p.build_scene(window(), &mut app);
    assert_eq!(
        scene.quads,
        vec![
            Quad { origin: Vector2I::zero(), size: Vector2I::new(200, 150), fill: 10 },
            Quad { origin: Vector2I::zero(), size: Vector2I::new(50, 50), fill: 20 },
            Quad { origin: Vector2I::zero(), size: Vector2I::new(20, 20), fill: 30 },
        ]
    );
}

#[test]
fn layout_links_first_container_only() {
    let mut views = HashMap::new();
    views.insert(1, content(10, 10, 1, &[2, 3], EventHandler::Ignore));
    views.insert(2, content(10, 10, 2, &[3], EventHandler::Ignore));
    views.insert(3, content(10, 10, 3, &[], EventHandler::Ignore));
    let mut app = AppContext::new(Some(1), Some(3), views);
    let mut p = Presenter::new(0, &app);
    p.build_scene(Vector2I::new(10, 10), &mut app);
    assert_eq!(p.parent_of(3), Some(2));
    assert_eq!(p.dispatch_path(&app), vec![1, 2, 3]);
}
