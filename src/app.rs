use vstd::prelude::*;
use std::collections::HashMap;
use crate::element::{registry_ids, same_content, ElementBox};

verus! {

broadcast use vstd::std_specs::hash::group_hash_axioms;

/// The state of a window's view model as the presenter sees it: which view
/// is the root and which has focus, what each view renders to now, and the
/// redraw requests and action applications it has received.
#[derive(Debug)]
pub struct AppContext {
    pub root_view_id: Option<usize>,
    pub focused_view_id: Option<usize>,
    pub views: HashMap<usize, ElementBox>,
    pub notified: Vec<usize>,
    pub action_log: Vec<(usize, u64)>,
}

/// The application of `action` to each view of `path`, in order.
pub open spec fn action_steps(path: Seq<usize>, action: u64) -> Seq<(usize, u64)> {
    path.map_values(|id: usize| (id, action))
}

impl AppContext {
    pub fn new(root_view_id: Option<usize>, focused_view_id: Option<usize>, views: HashMap<usize, ElementBox>) -> (r: AppContext)
        ensures
            r.root_view_id == root_view_id,
            r.focused_view_id == focused_view_id,
            r.views@ == views@,
            r.notified@.len() == 0,
            r.action_log@.len() == 0,
    {
        AppContext { root_view_id, focused_view_id, views, notified: Vec::new(), action_log: Vec::new() }
    }

    /// The content that view `view_id` renders to, if the view exists.
    pub fn render_view(&self, view_id: usize) -> (r: Option<ElementBox>)
        ensures
            r is Some <==> self.views@.contains_key(view_id),
            r is Some ==> same_content(r->0, self.views@[view_id]),
    {
        match self.views.get(&view_id) {
            Some(e) => Some(e.duplicate()),
            None => None,
        }
    }

    /// The content of every view.
    pub fn render_views(&self) -> (r: HashMap<usize, ElementBox>)
        ensures
            r@.dom() == self.views@.dom(),
            forall|k: usize| #[trigger] r@.contains_key(k) ==> same_content(r@[k], self.views@[k]),
    {
        let ids = registry_ids(&self.views);
        let mut r: HashMap<usize, ElementBox> = HashMap::new();
        let mut i: usize = 0;
        while i < ids.len()
            invariant
                i <= ids.len(),
                ids@.to_set() == self.views@.dom(),
                r@.dom() == ids@.subrange(0, i as int).to_set(),
                forall|k: usize| #[trigger] r@.contains_key(k) ==> same_content(r@[k], self.views@[k]),
            decreases ids.len() - i,
        {
            let id = ids[i];
            proof {
                assert(ids@.to_set().contains(id));
            }
            match self.render_view(id) {
                Some(e) => {
                    r.insert(id, e);
                },
                None => {},
            }
            proof {
                assert(ids@.subrange(0, i + 1) == ids@.subrange(0, i as int).push(id));
                ids@.subrange(0, i as int).lemma_push_to_set_commute(id);
            }
            i = i + 1;
        }
        assert(ids@.subrange(0, ids.len() as int) == ids@);
        r
    }

    /// Records that view `view_id` needs a redraw.
    pub fn notify_view(&mut self, view_id: usize)
        ensures
            final(self).notified@ == old(self).notified@.push(view_id),
            final(self).action_log@ == old(self).action_log@,
            final(self).views@ == old(self).views@,
            final(self).root_view_id == old(self).root_view_id,
            final(self).focused_view_id == old(self).focused_view_id,
    {
        self.notified.push(view_id);
    }

    /// Applies `action` along `path`, visiting its views root first.
    pub fn dispatch_action_any(&mut self, path: &Vec<usize>, action: u64)
        ensures
            final(self).action_log@ == old(self).action_log@ + action_steps(path@, action),
            final(self).notified@ == old(self).notified@,
            final(self).views@ == old(self).views@,
            final(self).root_view_id == old(self).root_view_id,
            final(self).focused_view_id == old(self).focused_view_id,
    {
        let mut i: usize = 0;
        while i < path.len()
            invariant
                i <= path.len(),
                self.action_log@ == old(self).action_log@ + action_steps(path@.subrange(0, i as int), action),
                self.notified@ == old(self).notified@,
                self.views@ == old(self).views@,
                self.root_view_id == old(self).root_view_id,
                self.focused_view_id == old(self).focused_view_id,
            decreases path.len() - i,
        {
            self.action_log.push((path[i], action));
            proof {
                assert(action_steps(path@.subrange(0, i + 1), action)
                    =~= action_steps(path@.subrange(0, i as int), action).push((path@[i as int], action)));
                assert(self.action_log@ =~= old(self).action_log@ + action_steps(path@.subrange(0, i + 1), action));
            }
            i = i + 1;
        }
        assert(path@.subrange(0, path.len() as int) == path@);
    }
}

/// The views whose content must be rendered again and those that must be
/// dropped since the last reconciliation.
#[derive(Debug)]
pub struct WindowInvalidation {
    pub updated: Vec<usize>,
    pub removed: Vec<usize>,
}

} // verus!
