use vstd::prelude::*;
use std::collections::HashMap;
use crate::element::{copy_ids, hover_position, rect_contains, same_content, same_contents, ChildView, ElementBox, Event, EventHandler, Quad, Scene};
use crate::geometry::{SizeConstraint, Vector2I};
use crate::app::action_steps;

verus! {

broadcast use vstd::std_specs::hash::group_hash_axioms;

/// Every link of `parents` points to a view of strictly lower rank, or to a
/// view that has no link: following links never comes back.
pub open spec fn links_ranked(parents: Map<usize, usize>, rank: Map<usize, nat>) -> bool {
    forall|k: usize|
        #[trigger] parents.contains_key(k) && parents.contains_key(parents[k])
            ==> rank[parents[k]] < rank[k]
}

/// `root` has no link, and every link points to `root` or to a linked view:
/// following links from any linked view ends at `root`.
pub open spec fn links_closed(parents: Map<usize, usize>, root: usize) -> bool {
    &&& !parents.contains_key(root)
    &&& forall|k: usize| #[trigger] parents.contains_key(k)
        ==> parents[k] == root || parents.contains_key(parents[k])
}

/// What a layout pass carries: the registry (without the views being
/// visited), the links found so far, and the views being visited.
pub type LayoutState = (Map<usize, ElementBox>, Map<usize, usize>, Seq<usize>);

/// The layout pass over view `id` within `c`: the size, and the state after.
/// A view reached inside another for the first time is linked to it. `n` is
/// the size of the registry, which bounds how deep the pass goes.
pub open spec fn layout_view(s: LayoutState, id: usize, c: SizeConstraint, n: nat) -> (Vector2I, LayoutState)
    decreases n, 2nat, 0nat,
{
    if n == 0 || !s.0.contains_key(id) {
        (c.min, s)
    } else {
        let links = if s.2.len() > 0 && !s.1.contains_key(id) {
            s.1.insert(id, s.2.last())
        } else {
            s.1
        };
        let out = layout_content(s.0[id], (s.0.remove(id), links, s.2.push(id)), c, (n - 1) as nat);
        (out.0, (out.2.0.insert(id, out.1), out.2.1, s.2))
    }
}

/// Content takes the size `c` allows closest to its own and lays out each
/// embedded view within that size.
pub open spec fn layout_content(e: ElementBox, s: LayoutState, c: SizeConstraint, n: nat) -> (Vector2I, ElementBox, LayoutState)
    decreases n + 1, 1nat, 0nat,
{
    let size = c.spec_constrain(e.size);
    let inner = SizeConstraint { min: Vector2I::spec_zero(), max: size };
    (size, ElementBox { bounds_size: size, ..e }, layout_children(e, s, inner, 0, n))
}

pub open spec fn layout_children(e: ElementBox, s: LayoutState, c: SizeConstraint, i: nat, n: nat) -> LayoutState
    decreases n + 1, 0nat, e.children@.len() - i,
{
    if i >= e.children@.len() {
        s
    } else {
        layout_children(e, layout_view(s, e.children@[i as int].view_id, c, n).1, c, i + 1, n)
    }
}

/// The layout phase: sizes views top-down and records, for each view it
/// reaches inside another, the view that contains it.
pub struct LayoutContext {
    rendered_views: HashMap<usize, ElementBox>,
    parents: HashMap<usize, usize>,
    view_stack: Vec<usize>,
    root: Ghost<usize>,
    rank: Ghost<Map<usize, nat>>,
}

impl LayoutContext {
    pub closed spec fn registry(&self) -> Map<usize, ElementBox> {
        self.rendered_views@
    }

    pub closed spec fn links(&self) -> Map<usize, usize> {
        self.parents@
    }

    pub closed spec fn ranks(&self) -> Map<usize, nat> {
        self.rank@
    }

    pub closed spec fn stack(&self) -> Seq<usize> {
        self.view_stack@
    }

    pub closed spec fn state(&self) -> LayoutState {
        (self.rendered_views@, self.parents@, self.view_stack@)
    }

    pub closed spec fn root(&self) -> usize {
        self.root@
    }

    /// The views being visited are checked out of the registry; the first is
    /// the root and each other one is linked; the links form a tree under the root.
    pub closed spec fn wf(&self) -> bool {
        &&& forall|i: int| 0 <= i < self.view_stack@.len()
            ==> !self.rendered_views@.contains_key(#[trigger] self.view_stack@[i])
        &&& self.view_stack@.len() > 0 ==> self.view_stack@[0] == self.root@
        &&& forall|i: int| 0 < i < self.view_stack@.len()
            ==> self.parents@.contains_key(#[trigger] self.view_stack@[i])
        &&& links_ranked(self.parents@, self.rank@)
        &&& links_closed(self.parents@, self.root@)
    }

    /// The links of a well-formed pass form a tree under its root.
    pub proof fn lemma_links_tree(&self)
        requires
            self.wf(),
        ensures
            links_ranked(self.links(), self.ranks()),
            links_closed(self.links(), self.root()),
    {
    }

    /// A layout pass over `rendered_views` from `root`, with no links yet.
    pub fn new(rendered_views: HashMap<usize, ElementBox>, root: usize) -> (r: LayoutContext)
        ensures
            r.wf(),
            r.registry() == rendered_views@,
            r.links() == Map::<usize, usize>::empty(),
            r.stack().len() == 0,
            r.root() == root,
            r.state() == (rendered_views@, Map::<usize, usize>::empty(), Seq::<usize>::empty()),
    {
        LayoutContext {
            rendered_views,
            parents: HashMap::new(),
            view_stack: Vec::new(),
            root: Ghost(root),
            rank: Ghost(Map::empty()),
        }
    }

    /// Ends the pass, handing back the registry and the links.
    pub fn into_parts(self) -> (r: (HashMap<usize, ElementBox>, HashMap<usize, usize>))
        ensures
            r.0@ == self.registry(),
            r.1@ == self.links(),
            r.0@ == self.state().0,
            r.1@ == self.state().1,
    {
        (self.rendered_views, self.parents)
    }

    /// Lays out the view `view_id` within `constraint`. A view absent from the
    /// registry takes the smallest size allowed. A view reached from inside
    /// another is linked to it, unless an earlier visit already linked it.
    pub fn layout(&mut self, view_id: usize, constraint: SizeConstraint) -> (r: Vector2I)
        requires
            old(self).wf(),
            old(self).stack().len() == 0 ==> view_id == old(self).root(),
        ensures
            final(self).wf(),
            final(self).root() == old(self).root(),
            final(self).stack() == old(self).stack(),
            same_contents(old(self).registry(), final(self).registry()),
            forall|k: usize| #[trigger] old(self).links().contains_key(k)
                ==> final(self).links().contains_key(k) && final(self).links()[k] == old(self).links()[k],
            old(self).registry().contains_key(view_id) ==> {
                &&& r == constraint.spec_constrain(old(self).registry()[view_id].size)
                &&& final(self).registry()[view_id].bounds_size == r
            },
            !old(self).registry().contains_key(view_id) ==> r == constraint.min,
            forall|k: usize| #[trigger] final(self).links().contains_key(k)
                ==> old(self).links().contains_key(k) || old(self).registry().contains_key(k),
            old(self).registry().contains_key(view_id) ==> forall|i: int|
                0 <= i < old(self).registry()[view_id].children@.len()
                && #[trigger] old(self).registry()[view_id].children@[i].view_id != view_id
                && old(self).registry().contains_key(old(self).registry()[view_id].children@[i].view_id)
                ==> final(self).links().contains_key(old(self).registry()[view_id].children@[i].view_id),
            old(self).registry().contains_key(view_id) && old(self).stack().len() > 0 ==> {
                &&& final(self).links().contains_key(view_id)
                &&& !old(self).links().contains_key(view_id)
                    ==> final(self).links()[view_id] == old(self).stack().last()
            },
            (r, final(self).state()) == layout_view(old(self).state(), view_id, constraint, old(self).registry().len()),
        decreases old(self).registry().len(), 2int,
    {
        let removed = self.rendered_views.remove(&view_id);
        match removed {
            None => {
                assert(self.registry() =~= old(self).registry());
                constraint.min
            },
            Some(mut element) => {
                let ghost checked_out = self.registry();
                assert(checked_out == old(self).registry().remove(view_id));
                assert(old(self).registry().len() > 0);
                assert(checked_out.len() == old(self).registry().len() - 1);
                let depth: usize = self.view_stack.len();
                if depth > 0 && !self.parents.contains_key(&view_id) {
                    let parent_id = self.view_stack[depth - 1];
                    proof {
                        let new_rank = self.rank@[parent_id] + 1;
                        self.rank@ = self.rank@.insert(view_id, new_rank);
                    }
                    self.parents.insert(view_id, parent_id);
                }
                let ghost links_before = self.links();
                self.view_stack.push(view_id);
                assert(self.links() == links_before);
                assert(self.wf());
                let size = element.layout(constraint, self);
                assert(forall|k: usize| links_before.contains_key(k) ==> #[trigger] self.links().contains_key(k));
                self.view_stack.pop();
                proof {
                    assert(self.view_stack@ =~= old(self).view_stack@);
                }
                let ghost mid = self.registry();
                assert(same_contents(checked_out, mid));
                self.rendered_views.insert(view_id, element);
                proof {
                    assert(self.registry().dom() =~= old(self).registry().dom());
                    assert forall|k: usize| #[trigger] old(self).registry().contains_key(k)
                        implies same_content(old(self).registry()[k], self.registry()[k]) by {
                        if k != view_id {
                            assert(checked_out.contains_key(k));
                            assert(mid.contains_key(k));
                        }
                    }
                    assert forall|k: usize| #[trigger] old(self).links().contains_key(k)
                        implies self.links().contains_key(k) && self.links()[k] == old(self).links()[k] by {
                        assert(links_before.contains_key(k));
                    }
                    if depth > 0 {
                        assert(links_before.contains_key(view_id));
                        assert(self.links().contains_key(view_id));
                    }
                }
                size
            }
        }
    }
}

impl ElementBox {
    /// Takes the size that `constraint` allows closest to the content's own,
    /// and lays out each embedded view within that size.
    pub fn layout(&mut self, constraint: SizeConstraint, cx: &mut LayoutContext) -> (r: Vector2I)
        requires
            old(cx).wf(),
            old(cx).stack().len() > 0,
        ensures
            r == constraint.spec_constrain(old(self).size),
            same_content(*old(self), *final(self)),
            final(self).bounds_size == r,
            final(cx).wf(),
            final(cx).root() == old(cx).root(),
            final(cx).stack() == old(cx).stack(),
            same_contents(old(cx).registry(), final(cx).registry()),
            forall|k: usize| #[trigger] old(cx).links().contains_key(k)
                ==> final(cx).links().contains_key(k) && final(cx).links()[k] == old(cx).links()[k],
            forall|i: int| 0 <= i < old(self).children@.len()
                && old(cx).registry().contains_key(#[trigger] old(self).children@[i].view_id)
                ==> final(cx).links().contains_key(old(self).children@[i].view_id),
            forall|k: usize| #[trigger] final(cx).links().contains_key(k)
                ==> old(cx).links().contains_key(k) || old(cx).registry().contains_key(k),
            (r, *final(self), final(cx).state()) == layout_content(*old(self), old(cx).state(), constraint, old(cx).registry().len()),
        decreases old(cx).registry().len() + 1, 1int,
    {
        let size = constraint.constrain(self.size);
        let inner = SizeConstraint::new(Vector2I::zero(), size);
        let ghost n = old(cx).registry().len();
        let mut i: usize = 0;
        while i < self.children.len()
            invariant
                cx.wf(),
                cx.root() == old(cx).root(),
                cx.stack() == old(cx).stack(),
                cx.stack().len() > 0,
                same_contents(old(cx).registry(), cx.registry()),
                forall|k: usize| #[trigger] old(cx).links().contains_key(k)
                    ==> cx.links().contains_key(k) && cx.links()[k] == old(cx).links()[k],
                i <= self.children.len(),
                *self == *old(self),
                forall|j: int| 0 <= j < i
                    && old(cx).registry().contains_key(#[trigger] self.children@[j].view_id)
                    ==> cx.links().contains_key(self.children@[j].view_id),
                forall|k: usize| #[trigger] cx.links().contains_key(k)
                    ==> old(cx).links().contains_key(k) || old(cx).registry().contains_key(k),
                cx.registry().len() == n,
                layout_children(*old(self), old(cx).state(), inner, 0, n)
                    == layout_children(*old(self), cx.state(), inner, i as nat, n),
            decreases self.children.len() - i,
        {
            let child = self.children[i];
            let ghost links_before = cx.links();
            let ghost before_state = cx.state();
            child.layout(inner, cx);
            assert(cx.registry().dom() == old(cx).registry().dom());
            assert(layout_children(*old(self), before_state, inner, i as nat, n)
                == layout_children(*old(self), cx.state(), inner, (i + 1) as nat, n));
            proof {
                assert forall|j: int| 0 <= j < i + 1
                    && old(cx).registry().contains_key(#[trigger] self.children@[j].view_id)
                    implies cx.links().contains_key(self.children@[j].view_id) by {
                    if j < i {
                        assert(links_before.contains_key(self.children@[j].view_id));
                    }
                }
            }
            i = i + 1;
        }
        self.bounds_size = size;
        size
    }
}

impl ChildView {
    /// Lays out the embedded view through the registry.
    pub fn layout(&self, constraint: SizeConstraint, cx: &mut LayoutContext) -> (r: Vector2I)
        requires
            old(cx).wf(),
            old(cx).stack().len() > 0,
        ensures
            final(cx).wf(),
            final(cx).root() == old(cx).root(),
            final(cx).stack() == old(cx).stack(),
            same_contents(old(cx).registry(), final(cx).registry()),
            forall|k: usize| #[trigger] old(cx).links().contains_key(k)
                ==> final(cx).links().contains_key(k) && final(cx).links()[k] == old(cx).links()[k],
            old(cx).registry().contains_key(self.view_id)
                ==> r == constraint.spec_constrain(old(cx).registry()[self.view_id].size),
            !old(cx).registry().contains_key(self.view_id) ==> r == constraint.min,
            old(cx).registry().contains_key(self.view_id) ==> {
                &&& final(cx).links().contains_key(self.view_id)
                &&& !old(cx).links().contains_key(self.view_id)
                    ==> final(cx).links()[self.view_id] == old(cx).stack().last()
            },
            forall|k: usize| #[trigger] final(cx).links().contains_key(k)
                ==> old(cx).links().contains_key(k) || old(cx).registry().contains_key(k),
            (r, final(cx).state()) == layout_view(old(cx).state(), self.view_id, constraint, old(cx).registry().len()),
        decreases old(cx).registry().len() + 1, 0int,
    {
        cx.layout(self.view_id, constraint)
    }
}


/// Two registries whose entries keep their layout sizes.
pub open spec fn same_sizes(a: Map<usize, ElementBox>, b: Map<usize, ElementBox>) -> bool {
    forall|k: usize| #[trigger] a.contains_key(k) ==> b[k].bounds_size == a[k].bounds_size
}

/// What a paint pass carries: the registry (without the views being
/// painted) and the rectangles drawn so far.
pub type PaintState = (Map<usize, ElementBox>, Seq<Quad>);

/// The paint pass over view `id` at `origin`; `n` is the size of the
/// registry, which bounds how deep the pass goes.
pub open spec fn paint_view(s: PaintState, id: usize, origin: Vector2I, n: nat) -> PaintState
    decreases n, 2nat, 0nat,
{
    if n == 0 || !s.0.contains_key(id) {
        s
    } else {
        let out = paint_content(s.0[id], (s.0.remove(id), s.1), origin, (n - 1) as nat);
        (out.1.0.insert(id, out.0), out.1.1)
    }
}

/// Content records `origin`, draws its own rectangle, then each embedded
/// view at the same origin.
pub open spec fn paint_content(e: ElementBox, s: PaintState, origin: Vector2I, n: nat) -> (ElementBox, PaintState)
    decreases n + 1, 1nat, 0nat,
{
    let placed = ElementBox { bounds_origin: origin, ..e };
    let drawn = (s.0, s.1.push(Quad { origin, size: e.bounds_size, fill: e.fill }));
    (placed, paint_children(placed, drawn, origin, 0, n))
}

pub open spec fn paint_children(e: ElementBox, s: PaintState, origin: Vector2I, i: nat, n: nat) -> PaintState
    decreases n + 1, 0nat, e.children@.len() - i,
{
    if i >= e.children@.len() {
        s
    } else {
        paint_children(e, paint_view(s, e.children@[i as int].view_id, origin, n), origin, i + 1, n)
    }
}

/// The paint phase: draws views top-down into a scene.
pub struct PaintContext {
    rendered_views: HashMap<usize, ElementBox>,
    scene: Scene,
}

impl PaintContext {
    pub closed spec fn registry(&self) -> Map<usize, ElementBox> {
        self.rendered_views@
    }

    pub closed spec fn quads(&self) -> Seq<Quad> {
        self.scene.quads@
    }

    pub closed spec fn state(&self) -> PaintState {
        (self.rendered_views@, self.scene.quads@)
    }

    pub fn new(rendered_views: HashMap<usize, ElementBox>, scene: Scene) -> (r: PaintContext)
        ensures
            r.registry() == rendered_views@,
            r.quads() == scene.quads@,
            r.state() == (rendered_views@, scene.quads@),
    {
        PaintContext { rendered_views, scene }
    }

    /// Ends the pass, handing back the registry and the scene.
    pub fn into_parts(self) -> (r: (HashMap<usize, ElementBox>, Scene))
        ensures
            r.0@ == self.registry(),
            r.1.quads@ == self.quads(),
            r.0@ == self.state().0,
            r.1.quads@ == self.state().1,
    {
        (self.rendered_views, self.scene)
    }

    /// Paints the view `view_id` at `origin`; a view absent from the registry
    /// paints nothing.
    pub fn paint(&mut self, view_id: usize, origin: Vector2I)
        ensures
            same_contents(old(self).registry(), final(self).registry()),
            same_sizes(old(self).registry(), final(self).registry()),
            old(self).quads().len() <= final(self).quads().len(),
            final(self).quads().subrange(0, old(self).quads().len() as int)
                == old(self).quads(),
            old(self).registry().contains_key(view_id) ==> {
                let e = old(self).registry()[view_id];
                &&& final(self).quads().len() > old(self).quads().len()
                &&& final(self).quads()[old(self).quads().len() as int]
                    == (Quad { origin, size: e.bounds_size, fill: e.fill })
                &&& final(self).registry()[view_id].bounds_origin == origin
            },
            !old(self).registry().contains_key(view_id) ==> {
                &&& final(self).registry() == old(self).registry()
                &&& final(self).quads() == old(self).quads()
            },
            final(self).state() == paint_view(old(self).state(), view_id, origin, old(self).registry().len()),
        decreases old(self).registry().len(), 2int,
    {
        let removed = self.rendered_views.remove(&view_id);
        match removed {
            None => {
                assert(self.registry() =~= old(self).registry());
                assert(self.quads().subrange(0, old(self).quads().len() as int) =~= old(self).quads());
            },
            Some(mut element) => {
                let ghost checked_out = self.registry();
                assert(checked_out == old(self).registry().remove(view_id));
                assert(old(self).registry().len() > 0);
                assert(checked_out.len() == old(self).registry().len() - 1);
                element.paint(origin, self);
                let ghost mid = self.registry();
                self.rendered_views.insert(view_id, element);
                proof {
                    assert(self.registry().dom() =~= old(self).registry().dom());
                    assert forall|k: usize| #[trigger] old(self).registry().contains_key(k)
                        implies same_content(old(self).registry()[k], self.registry()[k])
                            && self.registry()[k].bounds_size == old(self).registry()[k].bounds_size by {
                        if k != view_id {
                            assert(checked_out.contains_key(k));
                            assert(mid.contains_key(k));
                        }
                    }
                }
            },
        }
    }
}

impl ElementBox {
    /// Draws the content's own rectangle at `origin` and then each embedded
    /// view at the same origin.
    pub fn paint(&mut self, origin: Vector2I, cx: &mut PaintContext)
        ensures
            same_content(*old(self), *final(self)),
            final(self).bounds_size == old(self).bounds_size,
            final(self).bounds_origin == origin,
            same_contents(old(cx).registry(), final(cx).registry()),
            same_sizes(old(cx).registry(), final(cx).registry()),
            final(cx).quads().len() > old(cx).quads().len(),
            final(cx).quads().subrange(0, old(cx).quads().len() as int)
                == old(cx).quads(),
            final(cx).quads()[old(cx).quads().len() as int]
                == (Quad { origin, size: old(self).bounds_size, fill: old(self).fill }),
            (*final(self), final(cx).state()) == paint_content(*old(self), old(cx).state(), origin, old(cx).registry().len()),
        decreases old(cx).registry().len() + 1, 1int,
    {
        self.bounds_origin = origin;
        cx.scene.quads.push(Quad { origin, size: self.bounds_size, fill: self.fill });
        let ghost start = cx.quads();
        let ghost n = old(cx).registry().len();
        let ghost placed = *self;
        let ghost drawn = cx.state();
        let mut i: usize = 0;
        while i < self.children.len()
            invariant
                same_contents(old(cx).registry(), cx.registry()),
                same_sizes(old(cx).registry(), cx.registry()),
                start.len() <= cx.quads().len(),
                cx.quads().subrange(0, start.len() as int) == start,
                start == old(cx).quads().push(Quad { origin, size: self.bounds_size, fill: self.fill }),
                *self == placed,
                i <= self.children.len(),
                cx.registry().len() == n,
                paint_children(placed, drawn, origin, 0, n) == paint_children(placed, cx.state(), origin, i as nat, n),
            decreases self.children.len() - i,
        {
            let child = self.children[i];
            let ghost before = cx.quads();
            let ghost before_state = cx.state();
            child.paint(origin, cx);
            assert(cx.registry().dom() == old(cx).registry().dom());
            assert(paint_children(placed, before_state, origin, i as nat, n)
                == paint_children(placed, cx.state(), origin, (i + 1) as nat, n));
            proof {
                assert(cx.quads().subrange(0, start.len() as int)
                    =~= cx.quads().subrange(0, before.len() as int).subrange(0, start.len() as int));
            }
            i = i + 1;
        }
        proof {
            assert(cx.quads().subrange(0, old(cx).quads().len() as int)
                =~= start.subrange(0, old(cx).quads().len() as int));
            assert(cx.quads()[old(cx).quads().len() as int] == start[old(cx).quads().len() as int]);
        }
    }
}

impl ChildView {
    /// Paints the embedded view through the registry.
    pub fn paint(&self, origin: Vector2I, cx: &mut PaintContext)
        ensures
            same_contents(old(cx).registry(), final(cx).registry()),
            same_sizes(old(cx).registry(), final(cx).registry()),
            old(cx).quads().len() <= final(cx).quads().len(),
            final(cx).quads().subrange(0, old(cx).quads().len() as int)
                == old(cx).quads(),
            final(cx).state() == paint_view(old(cx).state(), self.view_id, origin, old(cx).registry().len()),
        decreases old(cx).registry().len() + 1, 0int,
    {
        cx.paint(self.view_id, origin)
    }
}


/// An action queued during event dispatch, with the views that were being
/// visited when it was issued, root first.
#[derive(Debug)]
pub struct DispatchDirective {
    pub path: Vec<usize>,
    pub action: u64,
}

/// Two registries whose entries keep their bounds.
pub open spec fn same_bounds(a: Map<usize, ElementBox>, b: Map<usize, ElementBox>) -> bool {
    forall|k: usize| #[trigger] a.contains_key(k)
        ==> b[k].bounds_size == a[k].bounds_size && b[k].bounds_origin == a[k].bounds_origin
}

/// `a` is `b` with possibly more items after.
pub open spec fn extends<T>(b: Seq<T>, a: Seq<T>) -> bool {
    &&& a.len() <= b.len()
    &&& forall|i: int| 0 <= i < a.len() ==> #[trigger] b[i] == a[i]
}

/// The hover flag that content has after `event`, given the flag it had.
pub open spec fn hover_after(e: ElementBox, event: Event) -> bool {
    match hover_position(event) {
        Some(p) => rect_contains(e.bounds_origin, e.bounds_size, p),
        None => e.hovered,
    }
}

/// What an event pass carries: the registry (without the views being
/// visited), the views being visited, the views that asked for a redraw, and
/// the queued actions with their paths.
pub type PassState = (Map<usize, ElementBox>, Seq<usize>, Seq<usize>, Seq<(Seq<usize>, u64)>);

/// The innermost view being visited asks for a redraw, once.
pub open spec fn notify_step(s: PassState) -> PassState {
    if s.1.len() == 0 || s.2.contains(s.1.last()) {
        s
    } else {
        (s.0, s.1, s.2.push(s.1.last()), s.3)
    }
}

/// `action` is queued with the views being visited as its path.
pub open spec fn queue_step(s: PassState, action: u64) -> PassState {
    (s.0, s.1, s.2, s.3.push((s.1, action)))
}

/// Content sets its hover flag from the pointer at `p`, asking for a redraw
/// when the flag flips.
pub open spec fn hover_step_at(e: ElementBox, s: PassState, p: Vector2I) -> (ElementBox, PassState) {
    let h = rect_contains(e.bounds_origin, e.bounds_size, p);
    if h != e.hovered {
        (ElementBox { hovered: h, ..e }, notify_step(s))
    } else {
        (e, s)
    }
}

pub open spec fn hover_step(e: ElementBox, s: PassState, event: Event) -> (ElementBox, PassState) {
    match hover_position(event) {
        Some(p) => hover_step_at(e, s, p),
        None => (e, s),
    }
}

/// Content that no embedded view consumed the event for reacts to a press
/// inside its bounds.
pub open spec fn press_step(e: ElementBox, s: PassState, event: Event, handled: bool) -> (bool, PassState) {
    if handled {
        (true, s)
    } else {
        match event {
            Event::LeftMouseDown { position } => {
                if rect_contains(e.bounds_origin, e.bounds_size, position) {
                    match e.on_press {
                        EventHandler::Ignore => (false, s),
                        EventHandler::Notify => (true, notify_step(s)),
                        EventHandler::Dispatch(a) => (true, queue_step(s, a)),
                    }
                } else {
                    (false, s)
                }
            },
            _ => (false, s),
        }
    }
}

/// The pass over view `id`: whether the event was consumed, and the state
/// after. `n` is the size of the registry, which bounds how deep the pass goes.
pub open spec fn visit_view(s: PassState, id: usize, event: Event, n: nat) -> (bool, PassState)
    decreases n, 2nat, 0nat,
{
    if n == 0 || !s.0.contains_key(id) {
        (false, s)
    } else {
        let e = s.0[id];
        let inner = (s.0.remove(id), s.1.push(id), s.2, s.3);
        let out = visit_content(e, inner, event, (n - 1) as nat);
        (out.0, (out.2.0.insert(id, out.1), s.1, out.2.2, out.2.3))
    }
}

/// The pass over one view's content: hover, then the embedded views in turn
/// until one consumes the event, then the press.
pub open spec fn visit_content(e: ElementBox, s: PassState, event: Event, n: nat) -> (bool, ElementBox, PassState)
    decreases n + 1, 1nat, 0nat,
{
    let hovered = hover_step(e, s, event);
    let children = visit_children(hovered.0, hovered.1, event, 0, false, n);
    let pressed = press_step(hovered.0, children.1, event, children.0);
    (pressed.0, hovered.0, pressed.1)
}

/// The pass over the embedded views of `e` from the `i`-th on.
pub open spec fn visit_children(e: ElementBox, s: PassState, event: Event, i: nat, handled: bool, n: nat) -> (bool, PassState)
    decreases n + 1, 0nat, e.children@.len() - i,
{
    if handled || i >= e.children@.len() {
        (handled, s)
    } else {
        let out = visit_view(s, e.children@[i as int].view_id, event, n);
        visit_children(e, out.1, event, i + 1, out.0, n)
    }
}

/// The application, in order, of each queued action along its path.
pub open spec fn applied(q: Seq<(Seq<usize>, u64)>) -> Seq<(usize, u64)>
    decreases q.len(),
{
    if q.len() == 0 {
        Seq::empty()
    } else {
        applied(q.drop_last()) + action_steps(q.last().0, q.last().1)
    }
}

/// The event phase: routes one event top-down and collects, without acting on
/// them, the views that asked to be redrawn and the actions that were issued.
pub struct EventContext {
    rendered_views: HashMap<usize, ElementBox>,
    dispatched_actions: Vec<DispatchDirective>,
    view_stack: Vec<usize>,
    invalidated_views: Vec<usize>,
}

impl EventContext {
    pub closed spec fn registry(&self) -> Map<usize, ElementBox> {
        self.rendered_views@
    }

    pub closed spec fn stack(&self) -> Seq<usize> {
        self.view_stack@
    }

    pub closed spec fn directives(&self) -> Seq<DispatchDirective> {
        self.dispatched_actions@
    }

    pub closed spec fn invalidated(&self) -> Seq<usize> {
        self.invalidated_views@
    }

    pub closed spec fn queued(&self) -> Seq<(Seq<usize>, u64)> {
        self.dispatched_actions@.map_values(|d: DispatchDirective| (d.path@, d.action))
    }

    pub closed spec fn pass(&self) -> PassState {
        (self.rendered_views@, self.view_stack@, self.invalidated_views@, self.queued())
    }

    /// The views being visited are checked out of the registry, and no view
    /// is reported twice.
    pub closed spec fn wf(&self) -> bool {
        &&& forall|i: int| 0 <= i < self.view_stack@.len()
            ==> !self.rendered_views@.contains_key(#[trigger] self.view_stack@[i])
        &&& self.invalidated_views@.no_duplicates()
    }

    pub fn new(rendered_views: HashMap<usize, ElementBox>) -> (r: EventContext)
        ensures
            r.wf(),
            r.registry() == rendered_views@,
            r.stack().len() == 0,
            r.directives().len() == 0,
            r.invalidated().len() == 0,
            r.pass() == (rendered_views@, Seq::<usize>::empty(), Seq::<usize>::empty(), Seq::<(Seq<usize>, u64)>::empty()),
    {
        let r = EventContext {
            rendered_views,
            dispatched_actions: Vec::new(),
            view_stack: Vec::new(),
            invalidated_views: Vec::new(),
        };
        assert(r.queued() =~= Seq::<(Seq<usize>, u64)>::empty());
        r
    }

    /// Ends the pass, handing back the registry, the views to redraw and the
    /// queued directives.
    pub fn into_parts(self) -> (r: (HashMap<usize, ElementBox>, Vec<usize>, Vec<DispatchDirective>))
        ensures
            r.0@ == self.registry(),
            r.1@ == self.invalidated(),
            r.2@ == self.directives(),
            r.0@ == self.pass().0,
            r.1@ == self.pass().2,
            r.2@.map_values(|d: DispatchDirective| (d.path@, d.action)) == self.pass().3,
    {
        (self.rendered_views, self.invalidated_views, self.dispatched_actions)
    }

    /// Queues `action` with the views now being visited as its path; nothing
    /// is applied yet.
    pub fn dispatch_action(&mut self, action: u64)
        requires
            old(self).wf(),
        ensures
            final(self).wf(),
            final(self).registry() == old(self).registry(),
            final(self).stack() == old(self).stack(),
            final(self).invalidated() == old(self).invalidated(),
            final(self).directives().len() == old(self).directives().len() + 1,
            extends(final(self).directives(), old(self).directives()),
            final(self).directives().last().path@ == old(self).stack(),
            final(self).directives().last().action == action,
            final(self).pass() == queue_step(old(self).pass(), action),
    {
        let path = copy_ids(&self.view_stack);
        self.dispatched_actions.push(DispatchDirective { path, action });
        assert(self.queued() =~= old(self).queued().push((old(self).view_stack@, action)));
    }

    /// Marks the innermost view being visited as needing a redraw.
    pub fn notify(&mut self)
        requires
            old(self).wf(),
        ensures
            final(self).wf(),
            final(self).registry() == old(self).registry(),
            final(self).stack() == old(self).stack(),
            final(self).directives() == old(self).directives(),
            extends(final(self).invalidated(), old(self).invalidated()),
            old(self).stack().len() == 0 ==> final(self).invalidated() == old(self).invalidated(),
            old(self).stack().len() > 0 ==> final(self).invalidated().to_set()
                == old(self).invalidated().to_set().insert(old(self).stack().last()),
            final(self).pass() == notify_step(old(self).pass()),
    {
        let depth: usize = self.view_stack.len();
        if depth > 0 {
            let view_id = self.view_stack[depth - 1];
            let mut found = false;
            let mut i: usize = 0;
            while i < self.invalidated_views.len()
                invariant
                    i <= self.invalidated_views.len(),
                    found <==> exists|j: int| 0 <= j < i && self.invalidated_views@[j] == view_id,
                decreases self.invalidated_views.len() - i,
            {
                if self.invalidated_views[i] == view_id {
                    found = true;
                }
                i = i + 1;
            }
            if !found {
                self.invalidated_views.push(view_id);
                assert(self.invalidated_views@.to_set() =~= old(self).invalidated_views@.to_set().insert(view_id)) by {
                    assert(self.invalidated_views@ == old(self).invalidated_views@.push(view_id));
                    old(self).invalidated_views@.lemma_push_to_set_commute(view_id);
                }
            } else {
                assert(self.invalidated_views@.to_set() =~= old(self).invalidated_views@.to_set().insert(view_id)) by {
                    assert(old(self).invalidated_views@.contains(view_id));
                }
            }
        }
    }

    /// Routes `event` to the view `view_id` and reports whether it was
    /// consumed; a view absent from the registry does nothing.
    pub fn dispatch_event(&mut self, view_id: usize, event: Event) -> (r: bool)
        requires
            old(self).wf(),
        ensures
            final(self).wf(),
            final(self).stack() == old(self).stack(),
            same_contents(old(self).registry(), final(self).registry()),
            same_bounds(old(self).registry(), final(self).registry()),
            extends(final(self).directives(), old(self).directives()),
            extends(final(self).invalidated(), old(self).invalidated()),
            old(self).registry().contains_key(view_id) ==>
                final(self).registry()[view_id].hovered == hover_after(old(self).registry()[view_id], event),
            !old(self).registry().contains_key(view_id) ==> {
                &&& !r
                &&& final(self).registry() == old(self).registry()
                &&& final(self).directives() == old(self).directives()
                &&& final(self).invalidated() == old(self).invalidated()
            },
            (r, final(self).pass()) == visit_view(old(self).pass(), view_id, event, old(self).registry().len()),
        decreases old(self).registry().len(), 2int,
    {
        let removed = self.rendered_views.remove(&view_id);
        match removed {
            None => {
                assert(self.registry() =~= old(self).registry());
                false
            },
            Some(mut element) => {
                let ghost checked_out = self.registry();
                assert(checked_out == old(self).registry().remove(view_id));
                self.view_stack.push(view_id);
                assert(self.wf());
                assert(old(self).registry().len() > 0);
                assert(checked_out.len() == old(self).registry().len() - 1);
                let ghost inner = self.pass();
                let result = element.dispatch_event(event, self);
                let ghost out = self.pass();
                self.view_stack.pop();
                proof {
                    assert(self.view_stack@ =~= old(self).view_stack@);
                }
                let ghost mid = self.registry();
                self.rendered_views.insert(view_id, element);
                proof {
                    assert(self.registry().dom() =~= old(self).registry().dom());
                    assert forall|k: usize| #[trigger] old(self).registry().contains_key(k)
                        implies same_content(old(self).registry()[k], self.registry()[k])
                            && self.registry()[k].bounds_size == old(self).registry()[k].bounds_size
                            && self.registry()[k].bounds_origin == old(self).registry()[k].bounds_origin by {
                        if k != view_id {
                            assert(checked_out.contains_key(k));
                            assert(mid.contains_key(k));
                        }
                    }
                }
                result
            },
        }
    }
}

impl ElementBox {
    /// Keeps the hover flag in step with the pointer, asking for a redraw
    /// when it flips; then offers the event to each embedded view in turn
    /// until one consumes it; then, if none did, reacts to a press inside
    /// the content's bounds.
    pub fn dispatch_event(&mut self, event: Event, cx: &mut EventContext) -> (r: bool)
        requires
            old(cx).wf(),
        ensures
            same_content(*old(self), *final(self)),
            final(self).bounds_size == old(self).bounds_size,
            final(self).bounds_origin == old(self).bounds_origin,
            final(self).hovered == hover_after(*old(self), event),
            final(cx).wf(),
            final(cx).stack() == old(cx).stack(),
            same_contents(old(cx).registry(), final(cx).registry()),
            same_bounds(old(cx).registry(), final(cx).registry()),
            extends(final(cx).directives(), old(cx).directives()),
            extends(final(cx).invalidated(), old(cx).invalidated()),
            old(self).children@.len() == 0 ==> (r <==> match event {
                Event::LeftMouseDown { position } =>
                    rect_contains(old(self).bounds_origin, old(self).bounds_size, position)
                        && old(self).on_press != EventHandler::Ignore,
                _ => false,
            }),
            (r, *final(self), final(cx).pass())
                == visit_content(*old(self), old(cx).pass(), event, old(cx).registry().len()),
        decreases old(cx).registry().len() + 1, 1int,
    {
        match event {
            Event::MouseMoved { position, .. } => self.track_hover(position, cx),
            Event::LeftMouseDragged { position } => self.track_hover(position, cx),
            _ => {},
        }
        let ghost n = old(cx).registry().len();
        let ghost hovered = *self;
        let ghost start = cx.pass();
        assert((hovered, start) == hover_step(*old(self), old(cx).pass(), event));
        let mut handled = false;
        let mut i: usize = 0;
        while i < self.children.len() && !handled
            invariant
                cx.wf(),
                cx.stack() == old(cx).stack(),
                same_contents(old(cx).registry(), cx.registry()),
                same_bounds(old(cx).registry(), cx.registry()),
                extends(cx.directives(), old(cx).directives()),
                extends(cx.invalidated(), old(cx).invalidated()),
                same_content(*old(self), *self),
                self.bounds_size == old(self).bounds_size,
                self.bounds_origin == old(self).bounds_origin,
                self.hovered == hover_after(*old(self), event),
                self.children@.len() == 0 ==> !handled,
                *self == hovered,
                cx.registry().len() == n,
                visit_children(hovered, start, event, 0, false, n)
                    == visit_children(hovered, cx.pass(), event, i as nat, handled, n),
            decreases self.children.len() - i,
        {
            let child = self.children[i];
            let ghost before = cx.pass();
            handled = child.dispatch_event(event, cx);
            proof {
                assert(cx.registry().dom() == old(cx).registry().dom());
                assert(visit_children(hovered, before, event, i as nat, false, n)
                    == visit_children(hovered, cx.pass(), event, (i + 1) as nat, handled, n));
            }
            i = i + 1;
        }
        let ghost after_children = cx.pass();
        assert(visit_children(hovered, start, event, 0, false, n) == (handled, after_children));
        if !handled {
            match event {
                Event::LeftMouseDown { position } => {
                    if self.contains_point(position) {
                        match self.on_press {
                            EventHandler::Ignore => {},
                            EventHandler::Notify => {
                                cx.notify();
                                handled = true;
                            },
                            EventHandler::Dispatch(action) => {
                                cx.dispatch_action(action);
                                handled = true;
                            },
                        }
                    }
                },
                _ => {},
            }
        }
        handled
    }

    fn track_hover(&mut self, position: Vector2I, cx: &mut EventContext)
        requires
            old(cx).wf(),
        ensures
            same_content(*old(self), *final(self)),
            final(self).bounds_size == old(self).bounds_size,
            final(self).bounds_origin == old(self).bounds_origin,
            final(self).hovered == rect_contains(old(self).bounds_origin, old(self).bounds_size, position),
            (*final(self), final(cx).pass()) == hover_step_at(*old(self), old(cx).pass(), position),
            final(cx).wf(),
            final(cx).registry() == old(cx).registry(),
            final(cx).stack() == old(cx).stack(),
            final(cx).directives() == old(cx).directives(),
            extends(final(cx).invalidated(), old(cx).invalidated()),
    {
        let hovered = self.contains_point(position);
        if hovered != self.hovered {
            self.hovered = hovered;
            cx.notify();
        }
    }
}

impl ChildView {
    /// Routes the event to the embedded view through the registry.
    pub fn dispatch_event(&self, event: Event, cx: &mut EventContext) -> (r: bool)
        requires
            old(cx).wf(),
        ensures
            final(cx).wf(),
            final(cx).stack() == old(cx).stack(),
            same_contents(old(cx).registry(), final(cx).registry()),
            same_bounds(old(cx).registry(), final(cx).registry()),
            extends(final(cx).directives(), old(cx).directives()),
            extends(final(cx).invalidated(), old(cx).invalidated()),
            (r, final(cx).pass()) == visit_view(old(cx).pass(), self.view_id, event, old(cx).registry().len()),
        decreases old(cx).registry().len() + 1, 0int,
    {
        cx.dispatch_event(self.view_id, event)
    }
}


/// What a snapshot shows of one view's content.
#[derive(Debug)]
pub struct DebugContent {
    pub origin: Vector2I,
    pub size: Vector2I,
    pub fill: u32,
    pub children: Vec<DebugNode>,
}

/// A snapshot of one view: its identity and, if it could be reached in the
/// registry, its content.
#[derive(Debug)]
pub struct DebugNode {
    pub view_id: usize,
    pub content: Option<DebugContent>,
}

/// `node` is the snapshot of view `id` in `reg` that descends at most
/// `depth` views.
pub open spec fn is_snapshot(reg: Map<usize, ElementBox>, id: usize, depth: nat, node: DebugNode) -> bool
    decreases depth,
{
    &&& node.view_id == id
    &&& (node.content is Some <==> depth > 0 && reg.contains_key(id))
    &&& (depth > 0 && reg.contains_key(id)) ==> {
        let e = reg[id];
        let c = node.content->0;
        &&& c.origin == e.bounds_origin
        &&& c.size == e.bounds_size
        &&& c.fill == e.fill
        &&& c.children@.len() == e.children@.len()
        &&& forall|i: int| 0 <= i < c.children@.len()
            ==> is_snapshot(reg, e.children@[i].view_id, (depth - 1) as nat, #[trigger] c.children@[i])
    }
}

/// Read-only access to the registry, to take a snapshot of the rendered tree.
pub struct DebugContext<'a> {
    rendered_views: &'a HashMap<usize, ElementBox>,
}

impl<'a> DebugContext<'a> {
    pub closed spec fn registry(&self) -> Map<usize, ElementBox> {
        self.rendered_views@
    }

    pub fn new(rendered_views: &'a HashMap<usize, ElementBox>) -> (r: DebugContext<'a>)
        ensures
            r.registry() == rendered_views@,
    {
        DebugContext { rendered_views }
    }

    /// A snapshot of view `view_id` that descends at most `depth` views: a
    /// view that is absent, or lies deeper, shows no content.
    pub fn debug(&self, view_id: usize, depth: usize) -> (r: DebugNode)
        ensures
            r.view_id == view_id,
            r.content is Some <==> depth > 0 && self.registry().contains_key(view_id),
            r.content is Some ==> {
                let e = self.registry()[view_id];
                let c = r.content->0;
                &&& c.origin == e.bounds_origin
                &&& c.size == e.bounds_size
                &&& c.fill == e.fill
                &&& c.children@.len() == e.children@.len()
                &&& forall|i: int| 0 <= i < c.children@.len()
                    ==> (#[trigger] c.children@[i]).view_id == e.children@[i].view_id
            },
            is_snapshot(self.registry(), view_id, depth as nat, r),
        decreases depth,
    {
        if depth == 0 {
            return DebugNode { view_id, content: None };
        }
        match self.rendered_views.get(&view_id) {
            None => DebugNode { view_id, content: None },
            Some(e) => {
                let mut children: Vec<DebugNode> = Vec::new();
                let mut i: usize = 0;
                while i < e.children.len()
                    invariant
                        depth > 0,
                        i <= e.children.len(),
                        children@.len() == i,
                        forall|j: int| 0 <= j < i ==> (#[trigger] children@[j]).view_id == e.children@[j].view_id,
                        self.registry().contains_key(view_id),
                        *e == self.registry()[view_id],
                        forall|j: int| 0 <= j < i ==> is_snapshot(self.registry(), e.children@[j].view_id,
                            (depth - 1) as nat, #[trigger] children@[j]),
                    decreases e.children.len() - i,
                {
                    let child = e.children[i].view_id;
                    children.push(self.debug(child, depth - 1));
                    i = i + 1;
                }
                DebugNode {
                    view_id,
                    content: Some(DebugContent {
                        origin: e.bounds_origin,
                        size: e.bounds_size,
                        fill: e.fill,
                        children,
                    }),
                }
            },
        }
    }
}

} // verus!
