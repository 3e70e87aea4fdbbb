use vstd::prelude::*;
use std::collections::HashMap;
use crate::geometry::Vector2I;
use vstd::std_specs::iter::IteratorSpec;

verus! {

broadcast use vstd::std_specs::hash::group_hash_axioms;

/// A position in a view's content that is occupied by the content of another
/// view, named by its identity and kept in the registry.
#[derive(Clone, Copy, Debug, PartialEq, Eq, Structural)]
pub struct ChildView {
    pub view_id: usize,
}

impl ChildView {
    pub fn new(view_id: usize) -> (r: ChildView)
        ensures
            r.view_id == view_id,
    {
        ChildView { view_id }
    }
}

/// What a view's content does when a press lands inside its bounds and no
/// embedded view has consumed it.
#[derive(Clone, Copy, Debug, PartialEq, Eq, Structural)]
pub enum EventHandler {
    Ignore,
    Notify,
    Dispatch(u64),
}

/// An input event from the windowing layer.
#[derive(Clone, Copy, Debug, PartialEq, Eq, Structural)]
pub enum Event {
    MouseMoved { position: Vector2I, left_mouse_down: bool },
    LeftMouseDragged { position: Vector2I },
    LeftMouseDown { position: Vector2I },
    KeyDown { key: u64 },
}

/// The pointer position that hover tracking reads from an event, if any.
pub open spec fn hover_position(event: Event) -> Option<Vector2I> {
    match event {
        Event::MouseMoved { position, .. } => Some(position),
        Event::LeftMouseDragged { position } => Some(position),
        _ => None,
    }
}

/// The rendered content of one view: what it draws, which views it embeds
/// (in the order it visits them), and how it reacts to a press. The last
/// three fields are state that the layout, paint and event phases keep.
#[derive(Debug)]
pub struct ElementBox {
    pub size: Vector2I,
    pub fill: u32,
    pub children: Vec<ChildView>,
    pub on_press: EventHandler,
    pub bounds_size: Vector2I,
    pub bounds_origin: Vector2I,
    pub hovered: bool,
}

/// Two contents that draw, embed and react alike (phase state aside).
pub open spec fn same_content(a: ElementBox, b: ElementBox) -> bool {
    &&& a.size == b.size
    &&& a.fill == b.fill
    &&& a.children@ == b.children@
    &&& a.on_press == b.on_press
}

/// Two registries with the same identities and the same content for each.
pub open spec fn same_contents(a: Map<usize, ElementBox>, b: Map<usize, ElementBox>) -> bool {
    &&& a.dom() == b.dom()
    &&& forall|k: usize| #[trigger] a.contains_key(k) ==> same_content(a[k], b[k])
}

/// Whether `p` lies within the rectangle at `origin` of extent `size`.
pub open spec fn rect_contains(origin: Vector2I, size: Vector2I, p: Vector2I) -> bool {
    &&& origin.x <= p.x < origin.x + size.x
    &&& origin.y <= p.y < origin.y + size.y
}

impl ElementBox {
    /// Fresh content with no phase state yet.
    pub fn new(size: Vector2I, fill: u32, children: Vec<ChildView>, on_press: EventHandler) -> (r: ElementBox)
        ensures
            r.size == size,
            r.fill == fill,
            r.children@ == children@,
            r.on_press == on_press,
            r.bounds_size == Vector2I::spec_zero(),
            r.bounds_origin == Vector2I::spec_zero(),
            !r.hovered,
    {
        ElementBox {
            size,
            fill,
            children,
            on_press,
            bounds_size: Vector2I::zero(),
            bounds_origin: Vector2I::zero(),
            hovered: false,
        }
    }

    /// A copy of this content, phase state included.
    pub fn duplicate(&self) -> (r: ElementBox)
        ensures
            same_content(r, *self),
            r.bounds_size == self.bounds_size,
            r.bounds_origin == self.bounds_origin,
            r.hovered == self.hovered,
    {
        let mut children: Vec<ChildView> = Vec::new();
        let mut i: usize = 0;
        while i < self.children.len()
            invariant
                i <= self.children.len(),
                children@ == self.children@.subrange(0, i as int),
            decreases self.children.len() - i,
        {
            children.push(self.children[i]);
            i = i + 1;
        }
        assert(children@ =~= self.children@);
        ElementBox {
            size: self.size,
            fill: self.fill,
            children,
            on_press: self.on_press,
            bounds_size: self.bounds_size,
            bounds_origin: self.bounds_origin,
            hovered: self.hovered,
        }
    }

    /// Whether `p` lies within the bounds this content was last painted at.
    pub fn contains_point(&self, p: Vector2I) -> (r: bool)
        ensures
            r == rect_contains(self.bounds_origin, self.bounds_size, p),
    {
        p.x >= self.bounds_origin.x && p.x - self.bounds_origin.x < self.bounds_size.x
            && p.y >= self.bounds_origin.y && p.y - self.bounds_origin.y < self.bounds_size.y
    }
}

/// One filled rectangle of the drawn scene.
#[derive(Clone, Copy, Debug, PartialEq, Eq, Structural)]
pub struct Quad {
    pub origin: Vector2I,
    pub size: Vector2I,
    pub fill: u32,
}

/// The drawing produced by one frame, in painting order.
#[derive(Debug)]
pub struct Scene {
    pub quads: Vec<Quad>,
}

impl Scene {
    pub fn new() -> (r: Scene)
        ensures
            r.quads@.len() == 0,
    {
        Scene { quads: Vec::new() }
    }
}

/// A copy of a sequence of identities.
pub fn copy_ids(v: &Vec<usize>) -> (r: Vec<usize>)
    ensures
        r@ == v@,
{
    let mut r: Vec<usize> = Vec::new();
    let mut i: usize = 0;
    while i < v.len()
        invariant
            i <= v.len(),
            r@ == v@.subrange(0, i as int),
        decreases v.len() - i,
    {
        r.push(v[i]);
        i = i + 1;
    }
    assert(r@ =~= v@);
    r
}

/// The identities of a registry, each once, in no particular order.
pub fn registry_ids(m: &HashMap<usize, ElementBox>) -> (r: Vec<usize>)
    ensures
        r@.to_set() == m@.dom(),
        r@.no_duplicates(),
{
    let mut r: Vec<usize> = Vec::new();
    let keys = m.keys();
    let ghost all = keys.remaining().unref();
    for k in it: keys
        invariant
            it.seq().unref() == all,
            r@ == all.subrange(0, it.index() as int),
    {
        r.push(*k);
    }
    assert(r@ =~= all);
    r
}

} // verus!
