//! The persistent tree: state cells and render nodes of each parent.
use vstd::prelude::*;
use crate::bloom::{Bloom, id_mask, lemma_or_keeps, lemma_or_sets};
use crate::key::Caller;
use crate::model::{Slot, live, mark_dead, purge, lemma_live_step};

verus! {

/// A piece of persistent local state. `kind` is the token of the type its
/// value was declared with.
pub struct State<S> {
    pub key: Caller,
    pub kind: u32,
    pub value: S,
    pub dead: bool,
}

/// Metadata of a render node.
#[derive(Clone, Copy, Debug)]
pub struct ChildState {
    pub id: u64,
    /// Covers the identifiers of the node and of all its descendants.
    pub children: Bloom,
    pub request_update: bool,
    pub request_layout: bool,
}

impl ChildState {
    /// The state of a node just created: an empty filter, awaiting layout.
    pub fn new(id: u64) -> (r: ChildState)
        ensures
            r.id == id,
            r.children.bits() == 0,
            !r.request_update,
            r.request_layout,
    {
        ChildState { id, children: Bloom::new(), request_update: false, request_layout: true }
    }
}

/// A persistent render node, with its own nested children.
pub struct Child<S, R> {
    pub key: Caller,
    pub kind: u32,
    pub object: R,
    pub state: ChildState,
    pub children: Children<S, R>,
    pub dead: bool,
}

/// The state cells and the render nodes of one parent, each sequence in the
/// order of declaration.
pub struct Children<S, R> {
    pub states: Vec<State<S>>,
    pub renders: Vec<Child<S, R>>,
}

pub open spec fn state_slot<S>(e: State<S>) -> Slot {
    Slot { key: e.key, id: 0, dead: e.dead }
}

pub open spec fn render_slot<S, R>(e: Child<S, R>) -> Slot {
    Slot { key: e.key, id: e.state.id, dead: e.dead }
}

pub open spec fn state_slots<S>(s: Seq<State<S>>) -> Seq<Slot> {
    s.map_values(|e: State<S>| state_slot(e))
}

pub open spec fn render_slots<S, R>(s: Seq<Child<S, R>>) -> Seq<Slot> {
    s.map_values(|e: Child<S, R>| render_slot(e))
}

/// The bits of a filter built from `own` and, for each node of `s` in
/// turn, its identifier and its filter.
pub open spec fn union_bits<S, R>(s: Seq<Child<S, R>>, own: u64) -> u64
    decreases s.len(),
{
    if s.len() == 0 {
        own
    } else {
        (union_bits(s.drop_last(), own) | id_mask(s.last().state.id)) | s.last().state.children.bits()
    }
}

/// The filter of `node` is exactly the union of its own identifier and, for
/// each child, the child's identifier and the child's filter.
pub open spec fn filter_rebuilt<S, R>(node: Child<S, R>) -> bool {
    node.state.children.bits() == union_bits(node.children.renders@, id_mask(node.state.id))
}

proof fn lemma_union_bits_covers<S, R>(s: Seq<Child<S, R>>, own: u64)
    ensures
        union_bits(s, own) & own == own,
        forall|i: int|
            0 <= i < s.len() ==> union_bits(s, own) & id_mask((#[trigger] s[i]).state.id)
                == id_mask(s[i].state.id),
        forall|i: int, x: u64|
            0 <= i < s.len() && #[trigger] s[i].state.children.covers(x) ==> union_bits(s, own)
                & id_mask(x) == id_mask(x),
    decreases s.len(),
{
    if s.len() > 0 {
        let p = s.drop_last();
        lemma_union_bits_covers(p, own);
        let c = s.last();
        let u1 = union_bits(p, own);
        let u2 = u1 | id_mask(c.state.id);
        let u = u2 | c.state.children.bits();
        lemma_or_keeps(u1, id_mask(c.state.id), own);
        lemma_or_keeps(u2, c.state.children.bits(), own);
        lemma_or_sets(u1, id_mask(c.state.id));
        lemma_or_keeps(u2, c.state.children.bits(), id_mask(c.state.id));
        assert forall|i: int| 0 <= i < s.len() implies u & id_mask((#[trigger] s[i]).state.id)
            == id_mask(s[i].state.id) by {
            if i < p.len() {
                assert(s[i] == p[i]);
                lemma_or_keeps(u1, id_mask(c.state.id), id_mask(s[i].state.id));
                lemma_or_keeps(u2, c.state.children.bits(), id_mask(s[i].state.id));
            }
        }
        assert forall|i: int, x: u64|
            0 <= i < s.len() && #[trigger] s[i].state.children.covers(x) implies u & id_mask(x)
            == id_mask(x) by {
            if i < p.len() {
                assert(s[i] == p[i]);
                lemma_or_keeps(u1, id_mask(c.state.id), id_mask(x));
                lemma_or_keeps(u2, c.state.children.bits(), id_mask(x));
            } else {
                lemma_or_keeps(c.state.children.bits(), u2, id_mask(x));
            }
        }
    } else {
        assert(own & own == own) by (bit_vector);
    }
}

/// A rebuilt filter covers the node's identifier, each child's identifier
/// and everything each child's filter covers.
pub proof fn lemma_rebuilt_covers<S, R>(node: Child<S, R>)
    requires
        filter_rebuilt(node),
    ensures
        node.state.children.covers(node.state.id),
        forall|i: int|
            0 <= i < node.children.renders@.len() ==> {
                let c = #[trigger] node.children.renders@[i];
                node.state.children.covers(c.state.id) && node.state.children.covers_all(
                    c.state.children,
                )
            },
{
    lemma_union_bits_covers(node.children.renders@, id_mask(node.state.id));
}

/// The descendant of `node` reached by following child indices `path`.
pub open spec fn node_at<S, R>(node: Child<S, R>, path: Seq<int>) -> Option<Child<S, R>>
    decreases path.len(),
{
    if path.len() == 0 {
        Some(node)
    } else if 0 <= path[0] < node.children.renders@.len() {
        node_at(node.children.renders@[path[0]], path.drop_first())
    } else {
        None
    }
}

/// `id` is the identifier of `node` or of one of its descendants.
pub open spec fn in_subtree<S, R>(node: Child<S, R>, id: u64) -> bool {
    exists|path: Seq<int>| #[trigger] node_at(node, path) is Some && node_at(node, path)->Some_0.state.id == id
}

/// Every node of the subtree has its filter rebuilt from its children.
pub open spec fn filters_rebuilt<S, R>(node: Child<S, R>) -> bool {
    forall|path: Seq<int>| #[trigger] node_at(node, path) is Some ==> filter_rebuilt(node_at(node, path)->Some_0)
}

proof fn lemma_covers_along<S, R>(node: Child<S, R>, path: Seq<int>, id: u64)
    requires
        filters_rebuilt(node),
        node_at(node, path) is Some,
        node_at(node, path)->Some_0.state.id == id,
    ensures
        node.state.children.covers(id),
    decreases path.len(),
{
    lemma_rebuilt_covers(node);
    assert(node_at(node, Seq::<int>::empty()) is Some);
    if path.len() > 0 {
        let c = node.children.renders@[path[0]];
        let rest = path.drop_first();
        assert forall|p: Seq<int>| #[trigger] node_at(c, p) is Some implies filter_rebuilt(node_at(c, p)->Some_0) by {
            let q = seq![path[0]] + p;
            assert(q.drop_first() =~= p);
            assert(node_at(node, q) == node_at(c, p));
        }
        lemma_covers_along(c, rest, id);
    }
}

/// A filter never reports "absent" for an identifier of its subtree, once
/// every node's filter was rebuilt from its children.
pub proof fn lemma_filter_sound<S, R>(node: Child<S, R>, id: u64)
    requires
        filters_rebuilt(node),
        in_subtree(node, id),
    ensures
        node.state.children.covers(id),
{
    let path = choose|path: Seq<int>| #[trigger] node_at(node, path) is Some && node_at(node, path)->Some_0.state.id == id;
    lemma_covers_along(node, path, id);
}

impl<S, R> Children<S, R> {
    pub fn new() -> (r: Children<S, R>)
        ensures
            r.states@.len() == 0,
            r.renders@.len() == 0,
    {
        Children { states: Vec::new(), renders: Vec::new() }
    }

    pub fn is_empty(&self) -> (r: bool)
        ensures
            r == (self.renders@.len() == 0),
    {
        self.renders.len() == 0
    }

    /// Mark the state cells in `lo..hi` dead.
    pub fn mark_states_dead(&mut self, lo: usize, hi: usize)
        requires
            lo <= hi <= old(self).states@.len(),
        ensures
            state_slots(final(self).states@) == mark_dead(
                state_slots(old(self).states@),
                lo as int,
                hi as int,
            ),
            final(self).states@.len() == old(self).states@.len(),
            forall|i: int|
                0 <= i < old(self).states@.len() ==> #[trigger] final(self).states@[i] == if lo <= i
                    < hi {
                    State { dead: true, ..old(self).states@[i] }
                } else {
                    old(self).states@[i]
                },
            final(self).renders == old(self).renders,
    {
        let mut j: usize = lo;
        while j < hi
            invariant
                lo <= j <= hi <= self.states@.len(),
                self.states@.len() == old(self).states@.len(),
                self.renders == old(self).renders,
                state_slots(self.states@) =~= mark_dead(
                    state_slots(old(self).states@),
                    lo as int,
                    j as int,
                ),
                forall|i: int|
                    0 <= i < old(self).states@.len() ==> #[trigger] self.states@[i] == if lo <= i
                        < j {
                        State { dead: true, ..old(self).states@[i] }
                    } else {
                        old(self).states@[i]
                    },
            decreases hi - j,
        {
            let ghost before = self.states@;
            self.states[j].dead = true;
            assert(self.states@[j as int].key == before[j as int].key);
            assert(state_slots(self.states@) =~= state_slots(before).update(
                j as int,
                Slot { dead: true, ..state_slots(before)[j as int] },
            ));
            j = j + 1;
        }
    }

    /// Mark the render nodes in `lo..hi` dead.
    pub fn mark_renders_dead(&mut self, lo: usize, hi: usize)
        requires
            lo <= hi <= old(self).renders@.len(),
        ensures
            render_slots(final(self).renders@) == mark_dead(
                render_slots(old(self).renders@),
                lo as int,
                hi as int,
            ),
            final(self).renders@.len() == old(self).renders@.len(),
            forall|i: int|
                0 <= i < old(self).renders@.len() ==> #[trigger] final(self).renders@[i] == if lo
                    <= i < hi {
                    Child { dead: true, ..old(self).renders@[i] }
                } else {
                    old(self).renders@[i]
                },
            final(self).states == old(self).states,
    {
        let mut j: usize = lo;
        while j < hi
            invariant
                lo <= j <= hi <= self.renders@.len(),
                self.renders@.len() == old(self).renders@.len(),
                self.states == old(self).states,
                render_slots(self.renders@) =~= mark_dead(
                    render_slots(old(self).renders@),
                    lo as int,
                    j as int,
                ),
                forall|i: int|
                    0 <= i < old(self).renders@.len() ==> #[trigger] self.renders@[i] == if lo <= i
                        < j {
                        Child { dead: true, ..old(self).renders@[i] }
                    } else {
                        old(self).renders@[i]
                    },
            decreases hi - j,
        {
            let ghost before = self.renders@;
            self.renders[j].dead = true;
            assert(render_slots(self.renders@) =~= render_slots(before).update(
                j as int,
                Slot { dead: true, ..render_slots(before)[j as int] },
            ));
            j = j + 1;
        }
    }

    /// End of a pass over the state cells: drop those at or after `cursor`,
    /// then those marked dead.
    pub fn purge_states(&mut self, cursor: usize)
        requires
            cursor <= old(self).states@.len(),
        ensures
            state_slots(final(self).states@) == purge(
                state_slots(old(self).states@),
                cursor as int,
            ),
            final(self).renders == old(self).renders,
    {
        self.states.truncate(cursor);
        let ghost orig = state_slots(self.states@);
        assert(orig =~= state_slots(old(self).states@).take(cursor as int));
        let mut i: usize = 0;
        let ghost mut k: int = 0;
        assert(orig.skip(0) =~= orig);
        while i < self.states.len()
            invariant
                0 <= k <= orig.len(),
                i == live(orig.take(k)).len(),
                state_slots(self.states@) == live(orig.take(k)) + orig.skip(k),
                self.renders == old(self).renders,
            decreases orig.len() - k,
        {
            let ghost before = self.states@;
            proof {
                lemma_live_step(orig, k);
                assert(state_slots(before)[i as int] == orig[k]);
            }
            if self.states[i].dead {
                self.states.remove(i);
                assert(state_slots(self.states@) =~= state_slots(before).remove(i as int));
            } else {
                i = i + 1;
            }
            proof {
                k = k + 1;
            }
            assert(state_slots(self.states@) =~= live(orig.take(k)) + orig.skip(k));
        }
        proof {
            assert(orig.take(k) =~= orig);
            assert(state_slots(self.states@) =~= live(orig));
        }
    }

    /// End of a pass over the render nodes: drop those at or after
    /// `cursor`, then those marked dead.
    pub fn purge_renders(&mut self, cursor: usize)
        requires
            cursor <= old(self).renders@.len(),
        ensures
            render_slots(final(self).renders@) == purge(
                render_slots(old(self).renders@),
                cursor as int,
            ),
            final(self).states == old(self).states,
    {
        self.renders.truncate(cursor);
        let ghost orig = render_slots(self.renders@);
        assert(orig =~= render_slots(old(self).renders@).take(cursor as int));
        let mut i: usize = 0;
        let ghost mut k: int = 0;
        assert(orig.skip(0) =~= orig);
        while i < self.renders.len()
            invariant
                0 <= k <= orig.len(),
                i == live(orig.take(k)).len(),
                render_slots(self.renders@) == live(orig.take(k)) + orig.skip(k),
                self.states == old(self).states,
            decreases orig.len() - k,
        {
            let ghost before = self.renders@;
            proof {
                lemma_live_step(orig, k);
                assert(render_slots(before)[i as int] == orig[k]);
            }
            if self.renders[i].dead {
                self.renders.remove(i);
                assert(render_slots(self.renders@) =~= render_slots(before).remove(i as int));
            } else {
                i = i + 1;
            }
            proof {
                k = k + 1;
            }
            assert(render_slots(self.renders@) =~= live(orig.take(k)) + orig.skip(k));
        }
        proof {
            assert(orig.take(k) =~= orig);
            assert(render_slots(self.renders@) =~= live(orig));
        }
    }
    /// The descendant filter of a node with identifier `id` and these
    /// children: its own identifier, each child's identifier and each
    /// child's filter.
    pub fn descendant_filter(&self, id: u64) -> (b: Bloom)
        ensures
            b.bits() == union_bits(self.renders@, id_mask(id)),
            b.covers(id),
            forall|i: int|
                0 <= i < self.renders@.len() ==> b.covers((#[trigger] self.renders@[i]).state.id)
                    && b.covers_all(self.renders@[i].state.children),
    {
        let mut b = Bloom::new();
        b.add(id);
        proof {
            lemma_or_sets(0, id_mask(id));
            assert(self.renders@.take(0).len() == 0);
        }
        let mut i: usize = 0;
        while i < self.renders.len()
            invariant
                i <= self.renders@.len(),
                b.bits() == union_bits(self.renders@.take(i as int), id_mask(id)),
                b.covers(id),
                forall|j: int|
                    0 <= j < i ==> b.covers((#[trigger] self.renders@[j]).state.id)
                        && b.covers_all(self.renders@[j].state.children),
            decreases self.renders@.len() - i,
        {
            let st = self.renders[i].state;
            b.add(st.id);
            b = b.union(st.children);
            proof {
                assert(self.renders@.take(i + 1).drop_last() =~= self.renders@.take(i as int));
            }
            i = i + 1;
        }
        assert(self.renders@.take(i as int) =~= self.renders@);
        b
    }
}

} // verus!
