use vstd::prelude::*;
use crate::app::{AppContext, WindowInvalidation};
use crate::element::{ElementBox, Event};
use crate::geometry::Vector2I;
use crate::element::{hover_position, rect_contains};
use crate::phases::{hover_after, links_closed, visit_children, visit_content, visit_view, PassState};
use crate::presenter::{is_dispatch_path, remembered_pointer, Presenter};

verus! {

/// After an invalidation, no removed view has content or a link.
pub proof fn lemma_invalidate_drops_removed(
    before: Presenter,
    after: Presenter,
    diff: WindowInvalidation,
    app: AppContext,
)
    requires
        Presenter::invalidated(before, after, diff, app),
    ensures
        forall|k: usize| #[trigger] diff.removed@.contains(k)
            ==> !after.registry().contains_key(k) && !after.links().contains_key(k),
{
    assert forall|k: usize| #[trigger] diff.removed@.contains(k)
        implies !after.registry().contains_key(k) && !after.links().contains_key(k) by {
        assert(diff.removed@.to_set().contains(k));
    }
}

/// An invalidation with nothing updated and nothing removed changes neither
/// the registry nor the links.
pub proof fn lemma_empty_invalidation_is_noop(
    before: Presenter,
    after: Presenter,
    diff: WindowInvalidation,
    app: AppContext,
)
    requires
        Presenter::invalidated(before, after, diff, app),
        diff.updated@.len() == 0,
        diff.removed@.len() == 0,
    ensures
        after.registry() == before.registry(),
        after.links() == before.links(),
{
    assert(diff.removed@.to_set() =~= Set::<usize>::empty());
    assert(diff.updated@.to_set() =~= Set::<usize>::empty());
    assert(after.registry() =~= before.registry());
    assert(after.links() =~= before.links().remove_keys(Set::<usize>::empty()));
    assert(before.links().remove_keys(Set::<usize>::empty()) =~= before.links());
}

/// When the links form a tree under `root` (as a layout pass leaves them) and
/// the focused view is the root or linked, the dispatch path starts at the
/// root, ends at the focused view, and repeats no view.
pub proof fn lemma_dispatch_path_from_root(
    links: Map<usize, usize>,
    root: usize,
    focused: usize,
    path: Seq<usize>,
)
    requires
        links_closed(links, root),
        focused == root || links.contains_key(focused),
        is_dispatch_path(links, focused, path),
    ensures
        path[0] == root,
        path.last() == focused,
        path.no_duplicates(),
{
    if path.len() > 1 {
        let i: int = 0;
        assert(links.contains_key(path[i + 1]) && links[path[i + 1]] == path[i]);
    }
}

/// A drag at `p` is remembered as, and moves hover state like, a move to `p`
/// with the button down.
pub proof fn lemma_drag_is_pressed_move(p: Vector2I, before: Option<Event>, e: ElementBox)
    ensures
        remembered_pointer(Event::LeftMouseDragged { position: p }, before)
            == remembered_pointer(Event::MouseMoved { position: p, left_mouse_down: true }, before),
        hover_after(e, Event::LeftMouseDragged { position: p })
            == hover_after(e, Event::MouseMoved { position: p, left_mouse_down: true }),
{
}

/// Replaying the remembered move keeps it remembered, and content whose
/// hover flag already reflects an event keeps that flag when the event is
/// replayed over the same bounds.
pub proof fn lemma_pointer_replay_idempotent(event: Event, before: Option<Event>, e: ElementBox, again: ElementBox)
    requires
        event is MouseMoved,
        again.bounds_origin == e.bounds_origin,
        again.bounds_size == e.bounds_size,
        again.hovered == hover_after(e, event),
    ensures
        remembered_pointer(event, remembered_pointer(event, before)) == remembered_pointer(event, before),
        hover_after(again, event) == again.hovered,
{
}


/// Every view of `reg` already shows the hover flag for a pointer at `p`.
pub open spec fn hover_settled(reg: Map<usize, ElementBox>, p: Vector2I) -> bool {
    forall|k: usize| #[trigger] reg.contains_key(k)
        ==> reg[k].hovered == rect_contains(reg[k].bounds_origin, reg[k].bounds_size, p)
}

proof fn lemma_settled_view(s: PassState, id: usize, event: Event, p: Vector2I, n: nat)
    requires
        hover_settled(s.0, p),
        hover_position(event) == Some(p),
    ensures
        visit_view(s, id, event, n) == (false, s),
    decreases n, 2nat, 0nat,
{
    if n > 0 && s.0.contains_key(id) {
        let e = s.0[id];
        let inner = (s.0.remove(id), s.1.push(id), s.2, s.3);
        lemma_settled_content(e, inner, event, p, (n - 1) as nat);
        assert(s.0.remove(id).insert(id, e) =~= s.0);
    }
}

proof fn lemma_settled_content(e: ElementBox, s: PassState, event: Event, p: Vector2I, n: nat)
    requires
        hover_settled(s.0, p),
        hover_position(event) == Some(p),
        e.hovered == rect_contains(e.bounds_origin, e.bounds_size, p),
    ensures
        visit_content(e, s, event, n) == (false, e, s),
    decreases n + 1, 1nat, 0nat,
{
    lemma_settled_children(e, s, event, p, 0, n);
}

proof fn lemma_settled_children(e: ElementBox, s: PassState, event: Event, p: Vector2I, i: nat, n: nat)
    requires
        hover_settled(s.0, p),
        hover_position(event) == Some(p),
    ensures
        visit_children(e, s, event, i, false, n) == (false, s),
    decreases n + 1, 0nat, e.children@.len() - i,
{
    if i < e.children@.len() {
        lemma_settled_view(s, e.children@[i as int].view_id, event, p, n);
        lemma_settled_children(e, s, event, p, i + 1, n);
    }
}

/// Replaying a pointer move over content whose hover flags already reflect
/// it changes nothing: no flag flips, no redraw is asked for, no action is
/// queued, and the event is not consumed.
pub proof fn lemma_replay_over_settled_hover_is_noop(
    reg: Map<usize, ElementBox>,
    root: usize,
    p: Vector2I,
    pressed: bool,
)
    requires
        hover_settled(reg, p),
    ensures
        visit_view(
            (reg, Seq::empty(), Seq::empty(), Seq::empty()),
            root,
            Event::MouseMoved { position: p, left_mouse_down: pressed },
            reg.len(),
        ) == (false, (reg, Seq::<usize>::empty(), Seq::<usize>::empty(), Seq::<(Seq<usize>, u64)>::empty())),
{
    lemma_settled_view(
        (reg, Seq::empty(), Seq::empty(), Seq::empty()),
        root,
        Event::MouseMoved { position: p, left_mouse_down: pressed },
        p,
        reg.len(),
    );
}

proof fn lemma_alike_view(s: PassState, id: usize, a: Event, b: Event, n: nat)
    requires
        hover_position(a) == hover_position(b),
        !(a is LeftMouseDown),
        !(b is LeftMouseDown),
    ensures
        visit_view(s, id, a, n) == visit_view(s, id, b, n),
    decreases n, 2nat, 0nat,
{
    if n > 0 && s.0.contains_key(id) {
        let inner = (s.0.remove(id), s.1.push(id), s.2, s.3);
        lemma_alike_content(s.0[id], inner, a, b, (n - 1) as nat);
    }
}

proof fn lemma_alike_content(e: ElementBox, s: PassState, a: Event, b: Event, n: nat)
    requires
        hover_position(a) == hover_position(b),
        !(a is LeftMouseDown),
        !(b is LeftMouseDown),
    ensures
        visit_content(e, s, a, n) == visit_content(e, s, b, n),
    decreases n + 1, 1nat, 0nat,
{
    let hovered = crate::phases::hover_step(e, s, a);
    lemma_alike_children(hovered.0, hovered.1, a, b, 0, false, n);
}

proof fn lemma_alike_children(e: ElementBox, s: PassState, a: Event, b: Event, i: nat, handled: bool, n: nat)
    requires
        hover_position(a) == hover_position(b),
        !(a is LeftMouseDown),
        !(b is LeftMouseDown),
    ensures
        visit_children(e, s, a, i, handled, n) == visit_children(e, s, b, i, handled, n),
    decreases n + 1, 0nat, e.children@.len() - i,
{
    if !handled && i < e.children@.len() {
        let id = e.children@[i as int].view_id;
        lemma_alike_view(s, id, a, b, n);
        let out = visit_view(s, id, a, n);
        lemma_alike_children(e, out.1, a, b, i + 1, out.0, n);
    }
}

/// A drag at `p` runs the same event pass as a move to `p` with the button
/// down: the same hover flags, redraw requests, queued actions and result.
pub proof fn lemma_drag_pass_is_pressed_move_pass(s: PassState, id: usize, p: Vector2I, n: nat)
    ensures
        visit_view(s, id, Event::LeftMouseDragged { position: p }, n)
            == visit_view(s, id, Event::MouseMoved { position: p, left_mouse_down: true }, n),
{
    lemma_alike_view(s, id, Event::LeftMouseDragged { position: p },
        Event::MouseMoved { position: p, left_mouse_down: true }, n);
}

} // verus!
