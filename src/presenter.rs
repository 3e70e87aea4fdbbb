use vstd::prelude::*;
use std::collections::HashMap;
use crate::app::{AppContext, WindowInvalidation};
use crate::element::{rect_contains, registry_ids, same_content, same_contents, ElementBox, Event, Quad, Scene};
use crate::geometry::{SizeConstraint, Vector2I};
use crate::phases::{layout_view, paint_view, is_snapshot, applied, visit_view, extends, DebugContext, DebugNode, DispatchDirective, hover_after, links_closed, links_ranked, same_bounds, EventContext, LayoutContext, PaintContext};

verus! {

broadcast use vstd::std_specs::hash::group_hash_axioms;

/// Whether `ids` holds `id`.
fn holds_id(ids: &Vec<usize>, id: usize) -> (r: bool)
    ensures
        r == ids@.contains(id),
{
    let mut i: usize = 0;
    while i < ids.len()
        invariant
            i <= ids.len(),
            forall|j: int| 0 <= j < i ==> ids@[j] != id,
        decreases ids.len() - i,
    {
        if ids[i] == id {
            return true;
        }
        i = i + 1;
    }
    false
}

/// `path` ends at `focused`, each view of it is linked to the one before,
/// the first has no link, and no view repeats.
pub open spec fn is_dispatch_path(links: Map<usize, usize>, focused: usize, path: Seq<usize>) -> bool {
    &&& path.len() > 0
    &&& path.last() == focused
    &&& !links.contains_key(path[0])
    &&& forall|i: int| 0 <= i < path.len() - 1 ==> links.contains_key(#[trigger] path[i + 1])
        && links[path[i + 1]] == path[i]
    &&& path.no_duplicates()
}

/// What the presenter remembers as the last pointer position after `event`,
/// given what it remembered before: a drag counts as a move with the button down.
pub open spec fn remembered_pointer(event: Event, before: Option<Event>) -> Option<Event> {
    match event {
        Event::MouseMoved { .. } => Some(event),
        Event::LeftMouseDragged { position } => Some(Event::MouseMoved { position, left_mouse_down: true }),
        _ => before,
    }
}

/// Owns the rendered content of one window's views and the links from each
/// view to the view that contains it, and drives layout, paint and event
/// dispatch over them.
pub struct Presenter {
    window_id: usize,
    rendered_views: HashMap<usize, ElementBox>,
    parents: HashMap<usize, usize>,
    last_mouse_moved_event: Option<Event>,
    rank: Ghost<Map<usize, nat>>,
}

impl Presenter {
    pub closed spec fn registry(&self) -> Map<usize, ElementBox> {
        self.rendered_views@
    }

    pub closed spec fn links(&self) -> Map<usize, usize> {
        self.parents@
    }

    pub closed spec fn last_pointer(&self) -> Option<Event> {
        self.last_mouse_moved_event
    }

    pub closed spec fn spec_window_id(&self) -> usize {
        self.window_id
    }

    /// Following links never comes back to a view, and the remembered
    /// pointer event, if any, is a move.
    pub closed spec fn wf(&self) -> bool {
        &&& links_ranked(self.parents@, self.rank@)
        &&& (self.last_mouse_moved_event is None || self.last_mouse_moved_event->0 is MouseMoved)
    }

    /// `new` is `old` after `invalidate(diff)` against `app`.
    pub open spec fn invalidated(old: Presenter, new: Presenter, diff: WindowInvalidation, app: AppContext) -> bool {
        let removed = diff.removed@.to_set();
        let updated = diff.updated@.to_set();
        &&& new.wf()
        &&& new.spec_window_id() == old.spec_window_id()
        &&& new.last_pointer() == old.last_pointer()
        &&& new.links() == old.links().remove_keys(removed)
        &&& forall|k: usize| #[trigger] new.registry().contains_key(k)
            <==> !removed.contains(k) && (old.registry().contains_key(k) || updated.contains(k))
        &&& forall|k: usize| #[trigger] new.registry().contains_key(k) && updated.contains(k)
            ==> same_content(new.registry()[k], app.views@[k])
        &&& forall|k: usize| #[trigger] new.registry().contains_key(k) && !updated.contains(k)
            ==> new.registry()[k] == old.registry()[k]
    }

    /// Renders every view of the window.
    pub fn new(window_id: usize, app: &AppContext) -> (r: Presenter)
        ensures
            r.wf(),
            r.spec_window_id() == window_id,
            same_contents(r.registry(), app.views@),
            r.links() == Map::<usize, usize>::empty(),
            r.last_pointer() is None,
    {
        let rendered_views = app.render_views();
        Presenter {
            window_id,
            rendered_views,
            parents: HashMap::new(),
            last_mouse_moved_event: None,
            rank: Ghost(Map::empty()),
        }
    }

    pub fn window_id(&self) -> (r: usize)
        ensures
            r == self.spec_window_id(),
    {
        self.window_id
    }

    /// Whether view `view_id` has content in the registry.
    pub fn has_view(&self, view_id: usize) -> (r: bool)
        ensures
            r == self.registry().contains_key(view_id),
    {
        self.rendered_views.contains_key(&view_id)
    }

    /// The content of view `view_id`, if any.
    pub fn rendered_view(&self, view_id: usize) -> (r: Option<&ElementBox>)
        ensures
            r is Some <==> self.registry().contains_key(view_id),
            r is Some ==> *r->0 == self.registry()[view_id],
    {
        self.rendered_views.get(&view_id)
    }

    /// The view that contains view `view_id`, as the last layout found it.
    pub fn parent_of(&self, view_id: usize) -> (r: Option<usize>)
        ensures
            r is Some <==> self.links().contains_key(view_id),
            r is Some ==> r->0 == self.links()[view_id],
    {
        match self.parents.get(&view_id) {
            Some(p) => Some(*p),
            None => None,
        }
    }

    /// The last pointer position remembered, as a move.
    pub fn last_mouse_moved_event(&self) -> (r: Option<Event>)
        ensures
            r == self.last_pointer(),
    {
        self.last_mouse_moved_event
    }

    /// The views from the root down to the focused view: starts at the focused
    /// view and follows links until a view has none.
    pub fn dispatch_path(&self, app: &AppContext) -> (r: Vec<usize>)
        requires
            self.wf(),
            app.focused_view_id is Some,
        ensures
            is_dispatch_path(self.links(), app.focused_view_id->0, r@),
    {
        let focused = match app.focused_view_id {
            Some(id) => id,
            None => 0,
        };
        let mut up: Vec<usize> = Vec::new();
        up.push(focused);
        let mut view_id = focused;
        while self.parents.contains_key(&view_id)
            invariant
                self.wf(),
                up@.len() > 0,
                up@[0] == focused,
                up@.last() == view_id,
                forall|i: int| 0 <= i < up@.len() - 1 ==> self.parents@.contains_key(#[trigger] up@[i])
                    && self.parents@[up@[i]] == up@[i + 1],
                forall|i: int, j: int| 0 <= i < j < up@.len() && self.parents@.contains_key(up@[j])
                    ==> #[trigger] self.rank@[up@[i]] > #[trigger] self.rank@[up@[j]],
            decreases (if self.parents@.contains_key(view_id) { self.rank@[view_id] + 1 } else { 0 }),
        {
            let parent_id = *self.parents.get(&view_id).unwrap();
            proof {
                assert(self.parents@.contains_key(parent_id) ==> self.rank@[parent_id] < self.rank@[view_id]);
            }
            up.push(parent_id);
            view_id = parent_id;
        }
        proof {
            assert forall|i: int, j: int| 0 <= i < j < up@.len() implies up@[i] != up@[j] by {
                if self.parents@.contains_key(up@[j]) {
                    assert(self.rank@[up@[i]] > self.rank@[up@[j]]);
                } else {
                    assert(self.parents@.contains_key(up@[i]));
                }
            }
        }
        let n: usize = up.len();
        let mut path: Vec<usize> = Vec::new();
        let mut k: usize = 0;
        while k < n
            invariant
                n == up@.len(),
                k <= n,
                path@.len() == k,
                forall|i: int| 0 <= i < k ==> #[trigger] path@[i] == up@[n - 1 - i],
            decreases n - k,
        {
            path.push(up[n - 1 - k]);
            k = k + 1;
        }
        proof {
            assert forall|i: int, j: int| 0 <= i < j < path@.len() implies path@[i] != path@[j] by {
                assert(path@[i] == up@[n - 1 - i]);
                assert(path@[j] == up@[n - 1 - j]);
            }
            assert forall|i: int| 0 <= i < path@.len() - 1 implies self.links().contains_key(#[trigger] path@[i + 1])
                && self.links()[path@[i + 1]] == path@[i] by {
                assert(path@[i + 1] == up@[n - 1 - (i + 1)]);
                assert(path@[i] == up@[(n - 1 - (i + 1)) + 1]);
            }
            assert(path@[0] == up@[n - 1]);
            assert(path@.last() == up@[0]);
        }
        path
    }

    /// Drops each view of `removed` from the registry, with its link.
    fn remove_views(&mut self, removed: &Vec<usize>)
        requires
            old(self).wf(),
        ensures
            final(self).wf(),
            final(self).window_id == old(self).window_id,
            final(self).last_mouse_moved_event == old(self).last_mouse_moved_event,
            final(self).rank@ == old(self).rank@,
            final(self).parents@ == old(self).parents@.remove_keys(removed@.to_set()),
            final(self).rendered_views@ == old(self).rendered_views@.remove_keys(removed@.to_set()),
    {
        let mut i: usize = 0;
        while i < removed.len()
            invariant
                i <= removed.len(),
                links_ranked(self.parents@, self.rank@),
                self.window_id == old(self).window_id,
                self.last_mouse_moved_event == old(self).last_mouse_moved_event,
                self.rank@ == old(self).rank@,
                self.parents@ == old(self).parents@.remove_keys(removed@.subrange(0, i as int).to_set()),
                self.rendered_views@ == old(self).rendered_views@.remove_keys(removed@.subrange(0, i as int).to_set()),
            decreases removed.len() - i,
        {
            let id = removed[i];
            self.rendered_views.remove(&id);
            self.parents.remove(&id);
            proof {
                assert(removed@.subrange(0, i + 1) == removed@.subrange(0, i as int).push(id));
                removed@.subrange(0, i as int).lemma_push_to_set_commute(id);
                assert(self.parents@ =~= old(self).parents@.remove_keys(removed@.subrange(0, i + 1).to_set()));
                assert(self.rendered_views@ =~= old(self).rendered_views@.remove_keys(removed@.subrange(0, i + 1).to_set()));
            }
            i = i + 1;
        }
        assert(removed@.subrange(0, removed.len() as int) == removed@);
    }

    /// Drops the removed views and their links, then renders again each
    /// updated view that was not removed. Layout waits for the next frame.
    pub fn invalidate(&mut self, invalidation: WindowInvalidation, app: &AppContext)
        requires
            old(self).wf(),
            forall|k: usize| #[trigger] invalidation.updated@.contains(k) && !invalidation.removed@.contains(k)
                ==> app.views@.contains_key(k),
        ensures
            Presenter::invalidated(*old(self), *final(self), invalidation, *app),
    {
        let ghost removed = invalidation.removed@.to_set();
        let ghost updated = invalidation.updated@.to_set();
        self.remove_views(&invalidation.removed);
        let ghost pruned = self.rendered_views@;
        let mut j: usize = 0;
        while j < invalidation.updated.len()
            invariant
                j <= invalidation.updated.len(),
                pruned == old(self).rendered_views@.remove_keys(removed),
                removed == invalidation.removed@.to_set(),
                updated == invalidation.updated@.to_set(),
                forall|k: usize| #[trigger] invalidation.updated@.contains(k) && !invalidation.removed@.contains(k)
                    ==> app.views@.contains_key(k),
                links_ranked(self.parents@, self.rank@),
                self.window_id == old(self).window_id,
                self.last_mouse_moved_event == old(self).last_mouse_moved_event,
                self.parents@ == old(self).parents@.remove_keys(removed),
                forall|k: usize| #[trigger] self.rendered_views@.contains_key(k)
                    <==> pruned.contains_key(k) || (invalidation.updated@.subrange(0, j as int).contains(k) && !removed.contains(k)),
                forall|k: usize| #[trigger] self.rendered_views@.contains_key(k) && invalidation.updated@.subrange(0, j as int).contains(k)
                    ==> same_content(self.rendered_views@[k], app.views@[k]),
                forall|k: usize| #[trigger] self.rendered_views@.contains_key(k) && !invalidation.updated@.subrange(0, j as int).contains(k)
                    ==> self.rendered_views@[k] == pruned[k],
            decreases invalidation.updated.len() - j,
        {
            let id = invalidation.updated[j];
            let ghost done = invalidation.updated@.subrange(0, j as int);
            assert(invalidation.updated@.subrange(0, j + 1) == done.push(id));
            if !holds_id(&invalidation.removed, id) {
                assert(invalidation.updated@.contains(id) && !invalidation.removed@.contains(id)) by {
                    assert(invalidation.updated@[j as int] == id);
                }
                match app.render_view(id) {
                    Some(e) => {
                        self.rendered_views.insert(id, e);
                    },
                    None => {},
                }
                assert(!removed.contains(id));
                assert(self.rendered_views@.contains_key(id));
            } else {
                assert(removed.contains(id));
                assert(!pruned.contains_key(id));
            }
            proof {
                assert(done.push(id)[done.len() as int] == id);
                assert forall|k: usize| #[trigger] self.rendered_views@.contains_key(k)
                    <==> pruned.contains_key(k) || (done.push(id).contains(k) && !removed.contains(k)) by {
                    if done.push(id).contains(k) && k != id {
                        let w = choose|w: int| 0 <= w < done.push(id).len() && done.push(id)[w] == k;
                        assert(done[w] == k);
                    }
                    if done.contains(k) {
                        let w = choose|w: int| 0 <= w < done.len() && done[w] == k;
                        assert(done.push(id)[w] == k);
                    }
                }
            }
            proof {
                assert(done.push(id)[done.len() as int] == id);
                assert forall|k: usize| #[trigger] self.rendered_views@.contains_key(k) && done.push(id).contains(k)
                    implies same_content(self.rendered_views@[k], app.views@[k]) by {
                    if k != id {
                        let w = choose|w: int| 0 <= w < done.push(id).len() && done.push(id)[w] == k;
                        assert(done[w] == k);
                    } else if removed.contains(id) {
                        assert(!pruned.contains_key(id));
                    }
                }
                assert forall|k: usize| #[trigger] self.rendered_views@.contains_key(k) && !done.push(id).contains(k)
                    implies self.rendered_views@[k] == pruned[k] by {
                    assert(k != id);
                    assert(!done.contains(k)) by {
                        if done.contains(k) {
                            let w = choose|w: int| 0 <= w < done.len() && done[w] == k;
                            assert(done.push(id)[w] == k);
                        }
                    }
                }
            }
            j = j + 1;
        }
        proof {
            assert(invalidation.updated@.subrange(0, invalidation.updated.len() as int) == invalidation.updated@);
            assert forall|k: usize| #[trigger] self.registry().contains_key(k)
                <==> !removed.contains(k) && (old(self).registry().contains_key(k) || updated.contains(k)) by {
            }
            assert forall|k: usize| #[trigger] self.registry().contains_key(k) && !updated.contains(k)
                implies self.registry()[k] == old(self).registry()[k] by {
            }
        }
    }

    /// Drops the removed views and their links, then renders every view that
    /// is left again, whether or not it was marked as updated.
    pub fn refresh(&mut self, invalidation: Option<WindowInvalidation>, app: &AppContext)
        requires
            old(self).wf(),
            forall|k: usize| #[trigger] old(self).registry().contains_key(k)
                && !(invalidation is Some && invalidation->0.removed@.contains(k))
                ==> app.views@.contains_key(k),
        ensures
            final(self).wf(),
            final(self).spec_window_id() == old(self).spec_window_id(),
            final(self).last_pointer() == old(self).last_pointer(),
            forall|k: usize| #[trigger] final(self).registry().contains_key(k)
                <==> old(self).registry().contains_key(k)
                    && !(invalidation is Some && invalidation->0.removed@.contains(k)),
            forall|k: usize| #[trigger] final(self).registry().contains_key(k)
                ==> same_content(final(self).registry()[k], app.views@[k]),
            invalidation is None ==> final(self).links() == old(self).links(),
            invalidation is Some ==> final(self).links()
                == old(self).links().remove_keys(invalidation->0.removed@.to_set()),
    {
        match invalidation {
            Some(invalidation) => {
                self.remove_views(&invalidation.removed);
            },
            None => {},
        }
        let ghost kept = self.rendered_views@;
        assert forall|k: usize| #[trigger] kept.contains_key(k) implies app.views@.contains_key(k) by {
            assert(old(self).registry().contains_key(k));
        }
        let ids = registry_ids(&self.rendered_views);
        let mut j: usize = 0;
        while j < ids.len()
            invariant
                j <= ids.len(),
                ids@.to_set() == kept.dom(),
                ids@.no_duplicates(),
                forall|k: usize| #[trigger] kept.contains_key(k) ==> app.views@.contains_key(k),
                self.rendered_views@.dom() == kept.dom(),
                self.window_id == old(self).window_id,
                self.last_mouse_moved_event == old(self).last_mouse_moved_event,
                links_ranked(self.parents@, self.rank@),
                invalidation is None ==> self.parents@ == old(self).parents@,
                invalidation is Some ==> self.parents@
                    == old(self).parents@.remove_keys(invalidation->0.removed@.to_set()),
                forall|w: int| 0 <= w < j ==> same_content(self.rendered_views@[#[trigger] ids@[w]], app.views@[ids@[w]]),
            decreases ids.len() - j,
        {
            let id = ids[j];
            assert(ids@.to_set().contains(id));
            match app.render_view(id) {
                Some(e) => {
                    self.rendered_views.insert(id, e);
                },
                None => {},
            }
            assert(self.rendered_views@.dom() =~= kept.dom());
            assert forall|w: int| 0 <= w < j + 1 implies same_content(self.rendered_views@[#[trigger] ids@[w]], app.views@[ids@[w]]) by {
                if w < j {
                    assert(ids@[w] != id);
                }
            }
            j = j + 1;
        }
        proof {
            assert forall|k: usize| #[trigger] self.registry().contains_key(k)
                implies same_content(self.registry()[k], app.views@[k]) by {
                assert(ids@.to_set().contains(k));
                let w = choose|w: int| 0 <= w < ids@.len() && ids@[w] == k;
                assert(same_content(self.rendered_views@[ids@[w]], app.views@[ids@[w]]));
            }
        }
    }

    /// Checks the registry out into a layout pass from `root_view_id`, with
    /// the links cleared to be built afresh; the presenter holds no content
    /// until `end_layout_context` hands it back.
    pub fn build_layout_context(&mut self, root_view_id: usize) -> (r: LayoutContext)
        ensures
            r.wf(),
            r.registry() == old(self).registry(),
            r.links() == Map::<usize, usize>::empty(),
            r.stack().len() == 0,
            r.root() == root_view_id,
            r.state() == (old(self).registry(), Map::<usize, usize>::empty(), Seq::<usize>::empty()),
            final(self).registry() == Map::<usize, ElementBox>::empty(),
            final(self).links() == old(self).links(),
            final(self).last_pointer() == old(self).last_pointer(),
            final(self).spec_window_id() == old(self).spec_window_id(),
            final(self).wf() == old(self).wf(),
    {
        let mut rendered_views: HashMap<usize, ElementBox> = HashMap::new();
        core::mem::swap(&mut rendered_views, &mut self.rendered_views);
        LayoutContext::new(rendered_views, root_view_id)
    }

    /// Takes back the registry and the links that a layout pass built.
    pub fn end_layout_context(&mut self, cx: LayoutContext)
        requires
            old(self).wf(),
            cx.wf(),
        ensures
            final(self).wf(),
            final(self).registry() == cx.registry(),
            final(self).links() == cx.links(),
            final(self).registry() == cx.state().0,
            final(self).links() == cx.state().1,
            final(self).last_pointer() == old(self).last_pointer(),
            final(self).spec_window_id() == old(self).spec_window_id(),
    {
        proof {
            cx.lemma_links_tree();
            self.rank@ = cx.ranks();
        }
        let (rendered_views, parents) = cx.into_parts();
        self.rendered_views = rendered_views;
        self.parents = parents;
    }

    fn layout(&mut self, size: Vector2I, app: &AppContext)
        requires
            old(self).wf(),
        ensures
            final(self).wf(),
            final(self).last_pointer() == old(self).last_pointer(),
            final(self).spec_window_id() == old(self).spec_window_id(),
            same_contents(old(self).registry(), final(self).registry()),
            app.root_view_id is Some ==> {
                let root = app.root_view_id->0;
                &&& links_closed(final(self).links(), root)
                &&& forall|k: usize| #[trigger] final(self).links().contains_key(k)
                    ==> k != root && old(self).registry().contains_key(k)
                &&& old(self).registry().contains_key(root) ==> forall|i: int|
                    0 <= i < old(self).registry()[root].children@.len()
                    && #[trigger] old(self).registry()[root].children@[i].view_id != root
                    && old(self).registry().contains_key(old(self).registry()[root].children@[i].view_id)
                    ==> final(self).links().contains_key(old(self).registry()[root].children@[i].view_id)
                &&& old(self).registry().contains_key(root) ==> final(self).registry()[root].bounds_size == size
            },
            app.root_view_id is None ==> *final(self) == *old(self),
            app.root_view_id is Some ==> {
                let laid = layout_view(
                    (old(self).registry(), Map::<usize, usize>::empty(), Seq::<usize>::empty()),
                    app.root_view_id->0,
                    SizeConstraint { min: size, max: size },
                    old(self).registry().len(),
                ).1;
                &&& final(self).registry() == laid.0
                &&& final(self).links() == laid.1
            },
    {
        match app.root_view_id {
            Some(root_view_id) => {
                let mut cx = self.build_layout_context(root_view_id);
                cx.layout(root_view_id, SizeConstraint::strict(size));
                proof {
                    cx.lemma_links_tree();
                }
                self.end_layout_context(cx);
            },
            None => {},
        }
    }

    /// Lays out and paints the window's views for one frame, then replays the
    /// last pointer position so that hover state follows the new layout.
    /// Without a root view the scene is empty and nothing changes.
    pub fn build_scene(&mut self, window_size: Vector2I, app: &mut AppContext) -> (r: Scene)
        requires
            old(self).wf(),
        ensures
            final(self).wf(),
            final(self).last_pointer() == old(self).last_pointer(),
            final(self).spec_window_id() == old(self).spec_window_id(),
            same_contents(old(self).registry(), final(self).registry()),
            final(app).views@ == old(app).views@,
            final(app).root_view_id == old(app).root_view_id,
            final(app).focused_view_id == old(app).focused_view_id,
            old(app).root_view_id is None ==> {
                &&& r.quads@.len() == 0
                &&& *final(self) == *old(self)
                &&& final(app).notified@ == old(app).notified@
                &&& final(app).action_log@ == old(app).action_log@
            },
            old(app).root_view_id is Some ==> {
                let root = old(app).root_view_id->0;
                &&& links_closed(final(self).links(), root)
                &&& forall|k: usize| #[trigger] final(self).links().contains_key(k)
                    ==> k != root && old(self).registry().contains_key(k)
                &&& old(self).registry().contains_key(root) ==> forall|i: int|
                    0 <= i < old(self).registry()[root].children@.len()
                    && #[trigger] old(self).registry()[root].children@[i].view_id != root
                    && old(self).registry().contains_key(old(self).registry()[root].children@[i].view_id)
                    ==> final(self).links().contains_key(old(self).registry()[root].children@[i].view_id)
                &&& old(self).last_pointer() is None ==> {
                    &&& final(app).notified@ == old(app).notified@
                    &&& final(app).action_log@ == old(app).action_log@
                }
                &&& {
                    let n = old(self).registry().len();
                    let laid = layout_view(
                        (old(self).registry(), Map::<usize, usize>::empty(), Seq::<usize>::empty()),
                        root,
                        SizeConstraint { min: window_size, max: window_size },
                        n,
                    ).1;
                    let painted = paint_view((laid.0, Seq::<Quad>::empty()), root, Vector2I::spec_zero(), n);
                    &&& r.quads@ == painted.1
                    &&& final(self).links() == laid.1
                    &&& match old(self).last_pointer() {
                        Some(event) => {
                            let pass = visit_view(
                                (painted.0, Seq::<usize>::empty(), Seq::<usize>::empty(), Seq::<(Seq<usize>, u64)>::empty()),
                                root,
                                event,
                                n,
                            ).1;
                            &&& final(self).registry() == pass.0
                            &&& final(app).notified@ == old(app).notified@ + pass.2
                            &&& final(app).action_log@ == old(app).action_log@ + applied(pass.3)
                        },
                        None => final(self).registry() == painted.0,
                    }
                }
                &&& old(self).registry().contains_key(root) ==> {
                    &&& final(self).registry()[root].bounds_size == window_size
                    &&& final(self).registry()[root].bounds_origin == Vector2I::spec_zero()
                    &&& (match old(self).last_pointer() {
                        Some(Event::MouseMoved { position, .. }) => final(self).registry()[root].hovered
                            == rect_contains(Vector2I::spec_zero(), window_size, position),
                        _ => true,
                    })
                    &&& r.quads@.len() > 0
                    &&& r.quads@[0] == (Quad {
                        origin: Vector2I::spec_zero(),
                        size: window_size,
                        fill: old(self).registry()[root].fill,
                    })
                }
            },
    {
        let mut scene = Scene::new();
        match app.root_view_id {
            Some(root_view_id) => {
                let ghost n = old(self).registry().len();
                self.layout(window_size, app);
                let ghost laid = self.registry();
                assert(laid.dom() == old(self).registry().dom());
                let mut rendered_views: HashMap<usize, ElementBox> = HashMap::new();
                core::mem::swap(&mut rendered_views, &mut self.rendered_views);
                let mut cx = PaintContext::new(rendered_views, scene);
                assert(cx.state() == (laid, Seq::<Quad>::empty()));
                cx.paint(root_view_id, Vector2I::zero());
                let ghost painted_state = cx.state();
                assert(painted_state == paint_view((laid, Seq::<Quad>::empty()), root_view_id, Vector2I::spec_zero(), n));
                let (rendered_views, painted) = cx.into_parts();
                self.rendered_views = rendered_views;
                scene = painted;
                assert(self.registry() == painted_state.0);
                assert(scene.quads@ == painted_state.1);
                assert(self.registry().dom() == old(self).registry().dom());
                let ghost before_replay = *self;
                match self.last_mouse_moved_event {
                    Some(event) => {
                        self.dispatch_event(event, app);
                        assert(remembered_pointer(event, before_replay.last_pointer()) == Some(event));
                    },
                    None => {},
                }
            },
            None => {},
        }
        scene
    }

    /// Routes `event` from the root view and then applies what the pass
    /// collected: each view that asked to be redrawn is reported, and each
    /// queued action is applied along its path. A move is remembered as the
    /// last pointer position, and a drag as a move with the button down.
    /// Without a root view the event is dropped.
    pub fn dispatch_event(&mut self, event: Event, app: &mut AppContext)
        requires
            old(self).wf(),
        ensures
            final(self).wf(),
            final(self).links() == old(self).links(),
            final(self).spec_window_id() == old(self).spec_window_id(),
            same_contents(old(self).registry(), final(self).registry()),
            same_bounds(old(self).registry(), final(self).registry()),
            final(app).views@ == old(app).views@,
            final(app).root_view_id == old(app).root_view_id,
            final(app).focused_view_id == old(app).focused_view_id,
            extends(final(app).notified@, old(app).notified@),
            extends(final(app).action_log@, old(app).action_log@),
            old(app).root_view_id is None ==> {
                &&& *final(self) == *old(self)
                &&& final(app).notified@ == old(app).notified@
                &&& final(app).action_log@ == old(app).action_log@
            },
            old(app).root_view_id is Some ==> {
                let root = old(app).root_view_id->0;
                &&& final(self).last_pointer() == remembered_pointer(event, old(self).last_pointer())
                &&& old(self).registry().contains_key(root)
                    ==> final(self).registry()[root].hovered == hover_after(old(self).registry()[root], event)
                &&& {
                    let pass = visit_view(
                        (old(self).registry(), Seq::empty(), Seq::empty(), Seq::empty()),
                        root,
                        event,
                        old(self).registry().len(),
                    ).1;
                    &&& final(self).registry() == pass.0
                    &&& final(app).notified@ == old(app).notified@ + pass.2
                    &&& final(app).action_log@ == old(app).action_log@ + applied(pass.3)
                }
            },
    {
        match app.root_view_id {
            Some(root_view_id) => {
                match event {
                    Event::MouseMoved { .. } => {
                        self.last_mouse_moved_event = Some(event);
                    },
                    Event::LeftMouseDragged { position } => {
                        self.last_mouse_moved_event = Some(Event::MouseMoved { position, left_mouse_down: true });
                    },
                    _ => {},
                }
                let mut cx = self.build_event_context();
                cx.dispatch_event(root_view_id, event);
                let ghost pass = cx.pass();
                let (invalidated_views, dispatch_directives) = self.end_event_context(cx);
                let mut i: usize = 0;
                while i < invalidated_views.len()
                    invariant
                        i <= invalidated_views.len(),
                        app.views@ == old(app).views@,
                        app.root_view_id == old(app).root_view_id,
                        app.focused_view_id == old(app).focused_view_id,
                        extends(app.notified@, old(app).notified@),
                        app.action_log@ == old(app).action_log@,
                        app.notified@ == old(app).notified@ + pass.2.subrange(0, i as int),
                        invalidated_views@ == pass.2,
                    decreases invalidated_views.len() - i,
                {
                    app.notify_view(invalidated_views[i]);
                    assert(pass.2.subrange(0, i + 1) == pass.2.subrange(0, i as int).push(pass.2[i as int]));
                    assert(app.notified@ =~= old(app).notified@ + pass.2.subrange(0, i + 1));
                    i = i + 1;
                }
                assert(pass.2.subrange(0, invalidated_views.len() as int) == pass.2);
                let ghost notified_after = app.notified@;
                let mut k: usize = 0;
                while k < dispatch_directives.len()
                    invariant
                        k <= dispatch_directives.len(),
                        app.views@ == old(app).views@,
                        app.root_view_id == old(app).root_view_id,
                        app.focused_view_id == old(app).focused_view_id,
                        extends(app.notified@, old(app).notified@),
                        extends(app.action_log@, old(app).action_log@),
                        app.notified@ == notified_after,
                        dispatch_directives@.map_values(|d: DispatchDirective| (d.path@, d.action)) == pass.3,
                        app.action_log@ == old(app).action_log@ + applied(pass.3.subrange(0, k as int)),
                    decreases dispatch_directives.len() - k,
                {
                    app.dispatch_action_any(&dispatch_directives[k].path, dispatch_directives[k].action);
                    proof {
                        let q = pass.3.subrange(0, k + 1);
                        assert(q.drop_last() =~= pass.3.subrange(0, k as int));
                        assert(q.last() == (dispatch_directives@[k as int].path@, dispatch_directives@[k as int].action));
                        assert(app.action_log@ =~= old(app).action_log@ + applied(q));
                    }
                    k = k + 1;
                }
                assert(pass.3.subrange(0, dispatch_directives.len() as int) == pass.3);
            },
            None => {},
        }
    }

    /// Checks the registry out into an event pass; the presenter holds no
    /// content until `end_event_context` hands it back.
    pub fn build_event_context(&mut self) -> (r: EventContext)
        ensures
            r.wf(),
            r.registry() == old(self).registry(),
            r.stack().len() == 0,
            r.directives().len() == 0,
            r.invalidated().len() == 0,
            r.pass() == (old(self).registry(), Seq::<usize>::empty(), Seq::<usize>::empty(), Seq::<(Seq<usize>, u64)>::empty()),
            final(self).registry() == Map::<usize, ElementBox>::empty(),
            final(self).links() == old(self).links(),
            final(self).last_pointer() == old(self).last_pointer(),
            final(self).spec_window_id() == old(self).spec_window_id(),
            final(self).wf() == old(self).wf(),
    {
        let mut rendered_views: HashMap<usize, ElementBox> = HashMap::new();
        core::mem::swap(&mut rendered_views, &mut self.rendered_views);
        EventContext::new(rendered_views)
    }

    /// Takes back the registry from an event pass and returns, to be applied,
    /// the views that asked to be redrawn and the queued directives.
    pub fn end_event_context(&mut self, cx: EventContext) -> (r: (Vec<usize>, Vec<DispatchDirective>))
        ensures
            final(self).registry() == cx.registry(),
            final(self).links() == old(self).links(),
            final(self).last_pointer() == old(self).last_pointer(),
            final(self).spec_window_id() == old(self).spec_window_id(),
            final(self).wf() == old(self).wf(),
            r.0@ == cx.invalidated(),
            r.1@ == cx.directives(),
            final(self).registry() == cx.pass().0,
            r.0@ == cx.pass().2,
            r.1@.map_values(|d: DispatchDirective| (d.path@, d.action)) == cx.pass().3,
    {
        let (rendered_views, invalidated_views, dispatch_directives) = cx.into_parts();
        self.rendered_views = rendered_views;
        (invalidated_views, dispatch_directives)
    }

    /// A snapshot of the rendered tree from the window's root view, or
    /// nothing when there is no root or it has no content. The snapshot
    /// descends at most as many views as the registry holds, so content that
    /// embeds itself is shown again at each level until that bound.
    pub fn debug_elements(&self, app: &AppContext) -> (r: Option<DebugNode>)
        ensures
            r is Some <==> app.root_view_id is Some && self.registry().contains_key(app.root_view_id->0),
            r is Some ==> {
                let root = app.root_view_id->0;
                &&& r->0.view_id == root
                &&& r->0.content is Some
                &&& r->0.content->0.fill == self.registry()[root].fill
                &&& r->0.content->0.size == self.registry()[root].bounds_size
                &&& is_snapshot(self.registry(), root, self.registry().len(), r->0)
            },
    {
        match app.root_view_id {
            Some(root_view_id) => {
                if self.rendered_views.contains_key(&root_view_id) {
                    let cx = DebugContext::new(&self.rendered_views);
                    Some(cx.debug(root_view_id, self.rendered_views.len()))
                } else {
                    None
                }
            },
            None => None,
        }
    }
}

} // verus!
