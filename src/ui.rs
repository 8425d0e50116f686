//! The reconciler: matches the declarations of a build pass to the tree.
use vstd::prelude::*;
use crate::id::ChildCounter;
use crate::key::Caller;
use crate::model::{Slot, declare, find_from, mark_dead, purge, lemma_find_at, lemma_find_from};
use crate::object::{RenderObject, UpdateCtx};
use crate::tree::{
    Child, ChildState, Children, State, filter_rebuilt, render_slots, state_slots,
};

verus! {

/// A declaration found an entry whose type token differs from its own: the
/// same key was used for values of different types. The pass must stop.
#[derive(Clone, Copy, Debug, PartialEq, Eq, Structural)]
pub enum UiError {
    WrongStateType,
    WrongNodeType,
}

/// One level of a build pass: the children being reconciled, the identifier
/// allocator, and a cursor into each of the two sequences.
pub struct Ui<S, R> {
    pub tree: Children<S, R>,
    pub counter: ChildCounter,
    pub state_index: usize,
    pub render_index: usize,
}

impl<S, R> Ui<S, R> {
    /// Where the next state declaration starts its scan.
    pub open spec fn state_cursor(&self) -> int {
        self.state_index as int
    }

    /// Where the next render declaration starts its scan.
    pub open spec fn render_cursor(&self) -> int {
        self.render_index as int
    }

    pub open spec fn wf(&self) -> bool {
        &&& 0 <= self.state_cursor() <= self.tree.states@.len()
        &&& 0 <= self.render_cursor() <= self.tree.renders@.len()
    }

    /// Begin a pass over `tree`.
    pub fn new(tree: Children<S, R>, counter: ChildCounter) -> (r: Ui<S, R>)
        ensures
            r.wf(),
            r.tree == tree,
            r.counter == counter,
            r.state_cursor() == 0,
            r.render_cursor() == 0,
    {
        Ui { tree, counter, state_index: 0, render_index: 0 }
    }

    /// The first state cell at or after the cursor with key `caller`.
    pub fn find_state_node(&self, caller: Caller) -> (r: Option<usize>)
        requires
            self.wf(),
        ensures
            match r {
                Some(i) => find_from(state_slots(self.tree.states@), self.state_cursor(), caller)
                    == Some(i as int),
                None => find_from(
                    state_slots(self.tree.states@),
                    self.state_cursor(),
                    caller,
                ) is None,
            },
    {
        let ghost s = state_slots(self.tree.states@);
        let mut ix: usize = self.state_index;
        while ix < self.tree.states.len()
            invariant
                self.state_index <= ix <= self.tree.states@.len(),
                s == state_slots(self.tree.states@),
                forall|j: int| self.state_index <= j < ix ==> s[j].key != caller,
            decreases self.tree.states@.len() - ix,
        {
            assert(s[ix as int].key == self.tree.states@[ix as int].key);
            if self.tree.states[ix].key == caller {
                proof {
                    lemma_find_at(s, self.state_index as int, ix as int, caller);
                }
                return Some(ix);
            }
            ix = ix + 1;
        }
        proof {
            lemma_find_from(s, self.state_index as int, caller);
        }
        None
    }

    /// Insert a new live state cell at the cursor.
    pub fn insert_state_node(&mut self, caller: Caller, kind: u32, state: S)
        requires
            old(self).wf(),
        ensures
            final(self).wf(),
            final(self).tree.states@ == old(self).tree.states@.insert(
                old(self).state_cursor(),
                State { key: caller, kind, value: state, dead: false },
            ),
            final(self).tree.renders == old(self).tree.renders,
            final(self).counter == old(self).counter,
            final(self).state_cursor() == old(self).state_cursor(),
            final(self).render_cursor() == old(self).render_cursor(),
    {
        let key = caller;
        let dead = false;
        self.tree.states.insert(self.state_index, State { key, kind, value: state, dead });
    }

    /// Declare a state cell with key `caller`, type token `kind` and
    /// initial value `init`.
    ///
    /// The first cell at or after the cursor with this key is taken, the
    /// cells skipped to reach it are marked dead, and the cursor moves past
    /// it; with no such cell a new one holding `init` is inserted at the
    /// cursor. The index of the cell is returned, or the type mismatch if
    /// the found cell was declared with another type token.
    pub fn state_node(&mut self, caller: Caller, kind: u32, init: S) -> (r: Result<usize, UiError>)
        requires
            old(self).wf(),
        ensures
            final(self).wf(),
            state_slots(final(self).tree.states@) == declare(
                state_slots(old(self).tree.states@),
                old(self).state_cursor(),
                caller,
                0,
            ).0,
            final(self).state_cursor() == declare(
                state_slots(old(self).tree.states@),
                old(self).state_cursor(),
                caller,
                0,
            ).1,
            final(self).tree.renders == old(self).tree.renders,
            final(self).counter == old(self).counter,
            final(self).render_cursor() == old(self).render_cursor(),
            ({
                let found = find_from(
                    state_slots(old(self).tree.states@),
                    old(self).state_cursor(),
                    caller,
                );
                match found {
                    Some(i) => if old(self).tree.states@[i].kind == kind {
                        r == Ok::<usize, UiError>(i as usize) && final(self).tree.states@[i].value
                            == old(self).tree.states@[i].value
                    } else {
                        r == Err::<usize, UiError>(UiError::WrongStateType)
                    },
                    None => r == Ok::<usize, UiError>(old(self).state_index) && final(self).tree.states@[old(self).state_cursor()].value == init,
                }
            }),
            r is Ok ==> ({
                let i = r->Ok_0 as int;
                &&& i + 1 == final(self).state_cursor()
                &&& final(self).tree.states@[i].key == caller
                &&& final(self).tree.states@[i].kind == kind
            }),
            match find_from(state_slots(old(self).tree.states@), old(self).state_cursor(), caller) {
                Some(i) => {
                    &&& final(self).tree.states@.len() == old(self).tree.states@.len()
                    &&& forall|j: int|
                        0 <= j < old(self).tree.states@.len() ==> #[trigger] final(self).tree.states@[j]
                            == if old(self).state_cursor() <= j < i {
                            State { dead: true, ..old(self).tree.states@[j] }
                        } else {
                            old(self).tree.states@[j]
                        }
                },
                None => final(self).tree.states@ == old(self).tree.states@.insert(
                    old(self).state_cursor(),
                    State { key: caller, kind, value: init, dead: false },
                ),
            },
    {
        let cursor = self.state_index;
        let found = self.find_state_node(caller);
        let ghost s0 = state_slots(self.tree.states@);
        proof {
            lemma_find_from(s0, cursor as int, caller);
        }
        let index = match found {
            Some(i) => i,
            None => {
                self.insert_state_node(caller, kind, init);
                assert(state_slots(self.tree.states@) =~= s0.insert(
                    cursor as int,
                    Slot { key: caller, id: 0, dead: false },
                ));
                cursor
            },
        };
        let ghost s1 = state_slots(self.tree.states@);
        let ghost v1 = self.tree.states@;
        self.tree.mark_states_dead(cursor, index);
        assert(found is None ==> mark_dead(s1, cursor as int, index as int) =~= s1);
        assert(found is None ==> self.tree.states@ =~= v1);
        let len = self.tree.states.len();
        assert(index < len);
        assert(mark_dead(s1, cursor as int, index as int)[index as int] == s1[index as int]);
        assert(self.tree.states@[index as int].key == state_slots(self.tree.states@)[index as int].key);
        self.state_index = index + 1;
        if self.tree.states[index].kind != kind {
            Err(UiError::WrongStateType)
        } else {
            Ok(index)
        }
    }

    /// Declare a render node with key `caller`, type token `kind` and
    /// properties `props`.
    ///
    /// The first node at or after the cursor with this key is taken, the
    /// nodes skipped to reach it are marked dead, and the cursor moves past
    /// it. A found node is updated with `props` and keeps its identifier and
    /// children; with no such node, one is created from `props` with a fresh
    /// identifier and inserted at the cursor. Either way the node's filter is
    /// rebuilt. The index of the node and the action of the update (the
    /// default action for a new node) are returned, or the type mismatch if
    /// the found node was declared with another type token.
    pub fn render_object<P>(&mut self, caller: Caller, kind: u32, props: P) -> (r: Result<
        (usize, R::Action),
        UiError,
    >) where R: RenderObject<P>
        requires
            old(self).wf(),
            old(self).counter.next_id() < u64::MAX,
        ensures
            final(self).wf(),
            render_slots(final(self).tree.renders@) == declare(
                render_slots(old(self).tree.renders@),
                old(self).render_cursor(),
                caller,
                old(self).counter.next_id(),
            ).0,
            final(self).render_cursor() == declare(
                render_slots(old(self).tree.renders@),
                old(self).render_cursor(),
                caller,
                old(self).counter.next_id(),
            ).1,
            final(self).tree.states == old(self).tree.states,
            final(self).state_cursor() == old(self).state_cursor(),
            ({
                let found = find_from(
                    render_slots(old(self).tree.renders@),
                    old(self).render_cursor(),
                    caller,
                );
                match found {
                    Some(i) => {
                        &&& final(self).counter == old(self).counter
                        &&& if old(self).tree.renders@[i].kind == kind {
                            &&& r is Ok
                            &&& r->Ok_0.0 == i
                            &&& final(self).tree.renders@[i].children == old(self).tree.renders@[i].children
                            &&& !final(self).tree.renders@[i].state.request_update
                        } else {
                            r == Err::<(usize, R::Action), UiError>(UiError::WrongNodeType)
                        }
                    },
                    None => {
                        &&& final(self).counter.next_id() == old(self).counter.next_id() + 1
                        &&& r is Ok
                        &&& r->Ok_0.0 == old(self).render_index
                        &&& final(self).tree.renders@[old(self).render_cursor()].children.states@.len() == 0
                        &&& final(self).tree.renders@[old(self).render_cursor()].children.renders@.len() == 0
                    },
                }
            }),
            r is Ok ==> ({
                let i = r->Ok_0.0 as int;
                &&& i + 1 == final(self).render_cursor()
                &&& final(self).tree.renders@[i].key == caller
                &&& final(self).tree.renders@[i].kind == kind
                &&& filter_rebuilt(final(self).tree.renders@[i])
            }),
            match find_from(render_slots(old(self).tree.renders@), old(self).render_cursor(), caller) {
                Some(i) => {
                    let o = old(self).tree.renders@[i];
                    let n = final(self).tree.renders@[i];
                    &&& final(self).tree.renders@.len() == old(self).tree.renders@.len()
                    &&& forall|j: int|
                        0 <= j < old(self).tree.renders@.len() && j != i ==> #[trigger] final(self).tree.renders@[j]
                            == if old(self).render_cursor() <= j < i {
                            Child { dead: true, ..old(self).tree.renders@[j] }
                        } else {
                            old(self).tree.renders@[j]
                        }
                    &&& if o.kind == kind {
                        &&& n.key == o.key
                        &&& n.kind == o.kind
                        &&& n.dead == o.dead
                        &&& n.children == o.children
                        &&& n.state.id == o.state.id
                        &&& (o.state.request_layout ==> n.state.request_layout)
                    } else {
                        n == o
                    }
                },
                None => {
                    let n = final(self).tree.renders@[old(self).render_cursor()];
                    &&& final(self).tree.renders@.len() == old(self).tree.renders@.len() + 1
                    &&& forall|j: int|
                        0 <= j < old(self).render_cursor() ==> #[trigger] final(self).tree.renders@[j]
                            == old(self).tree.renders@[j]
                    &&& forall|j: int|
                        old(self).render_cursor() < j < final(self).tree.renders@.len() ==> #[trigger] final(self).tree.renders@[j]
                            == old(self).tree.renders@[j - 1]
                    &&& n.state.id == old(self).counter.next_id()
                    &&& !n.state.request_update
                    &&& n.state.request_layout
                    &&& !n.dead
                },
            },
    {
        let cursor = self.render_index;
        let found = self.find_render_object(caller);
        let ghost s0 = render_slots(self.tree.renders@);
        proof {
            lemma_find_from(s0, cursor as int, caller);
        }
        match found {
            None => {
                let object = R::create(props);
                self.insert_render_object(caller, kind, object);
                let len = self.tree.renders.len();
                assert(cursor < len);
                self.render_index = cursor + 1;
                let ghost s1 = render_slots(self.tree.renders@);
                let ghost v1 = self.tree.renders@;
                let node = &mut self.tree.renders[cursor];
                node.state.children = node.children.descendant_filter(node.state.id);
                proof {
                    assert forall|j: int| 0 <= j < v1.len() && j != cursor implies #[trigger] self.tree.renders@[j] == v1[j] by {}
                    assert(self.tree.renders@[cursor as int].state.request_layout == v1[cursor as int].state.request_layout);
                    assert(render_slots(self.tree.renders@) =~= s1);
                    assert(mark_dead(s1, cursor as int, cursor as int) =~= s1);
                }
                Ok((cursor, R::Action::default()))
            },
            Some(index) => {
                self.tree.mark_renders_dead(cursor, index);
                let len = self.tree.renders.len();
                assert(index < len);
                self.render_index = index + 1;
                let ghost s1 = render_slots(self.tree.renders@);
                assert(self.tree.renders@[index as int] == old(self).tree.renders@[index as int]);
                if self.tree.renders[index].kind != kind {
                    return Err(UiError::WrongNodeType);
                }
                let node = &mut self.tree.renders[index];
                let mut ctx = UpdateCtx::new();
                let action = node.object.update(&mut ctx, props);
                node.state.request_update = false;
                if ctx.layout_requested {
                    node.state.request_layout = true;
                }
                node.state.children = node.children.descendant_filter(node.state.id);
                proof {
                    assert(render_slots(self.tree.renders@) =~= s1);
                }
                Ok((index, action))
            },
        }
    }

    /// Open the children of the render node at `index` for declaration:
    /// they move into the returned level, with both cursors at 0 and this
    /// level's allocator, until `exit` brings them back.
    pub fn enter(&mut self, index: usize) -> (sub: Ui<S, R>)
        requires
            old(self).wf(),
            index < old(self).tree.renders@.len(),
        ensures
            final(self).wf(),
            sub.wf(),
            sub.tree == old(self).tree.renders@[index as int].children,
            sub.counter == old(self).counter,
            sub.state_cursor() == 0,
            sub.render_cursor() == 0,
            render_slots(final(self).tree.renders@) == render_slots(old(self).tree.renders@),
            final(self).tree.renders@.len() == old(self).tree.renders@.len(),
            forall|j: int|
                0 <= j < old(self).tree.renders@.len() && j != index ==> #[trigger] final(self).tree.renders@[j]
                    == old(self).tree.renders@[j],
            final(self).tree.renders@[index as int].children.renders@.len() == 0,
            final(self).tree.renders@[index as int].children.states@.len() == 0,
            final(self).tree.states == old(self).tree.states,
            final(self).counter == old(self).counter,
            final(self).state_cursor() == old(self).state_cursor(),
            final(self).render_cursor() == old(self).render_cursor(),
    {
        let mut children = Children::new();
        std::mem::swap(&mut self.tree.renders[index].children, &mut children);
        assert(render_slots(self.tree.renders@) =~= render_slots(old(self).tree.renders@));
        Ui::new(children, self.counter)
    }

    /// Close a level opened by `enter(index)`: purge its two sequences at
    /// their cursors, put them back as the children of the node at `index`,
    /// rebuild that node's filter and take over the level's allocator.
    pub fn exit(&mut self, index: usize, sub: Ui<S, R>)
        requires
            old(self).wf(),
            sub.wf(),
            index < old(self).tree.renders@.len(),
            old(self).counter.next_id() <= sub.counter.next_id(),
        ensures
            final(self).wf(),
            state_slots(final(self).tree.renders@[index as int].children.states@) == purge(
                state_slots(sub.tree.states@),
                sub.state_cursor(),
            ),
            render_slots(final(self).tree.renders@[index as int].children.renders@) == purge(
                render_slots(sub.tree.renders@),
                sub.render_cursor(),
            ),
            filter_rebuilt(final(self).tree.renders@[index as int]),
            render_slots(final(self).tree.renders@) == render_slots(old(self).tree.renders@),
            final(self).tree.renders@.len() == old(self).tree.renders@.len(),
            forall|j: int|
                0 <= j < old(self).tree.renders@.len() && j != index ==> #[trigger] final(self).tree.renders@[j]
                    == old(self).tree.renders@[j],
            final(self).tree.states == old(self).tree.states,
            final(self).counter == sub.counter,
            final(self).state_cursor() == old(self).state_cursor(),
            final(self).render_cursor() == old(self).render_cursor(),
    {
        let Ui { tree, counter, state_index, render_index } = sub;
        let mut tree = tree;
        tree.purge_states(state_index);
        tree.purge_renders(render_index);
        let node = &mut self.tree.renders[index];
        std::mem::swap(&mut node.children, &mut tree);
        node.state.children = node.children.descendant_filter(node.state.id);
        self.counter = counter;
        assert(render_slots(self.tree.renders@) =~= render_slots(old(self).tree.renders@));
    }

    /// End the pass at this level: purge both sequences at their cursors and
    /// hand back the children and the allocator.
    pub fn finish(self) -> (r: (Children<S, R>, ChildCounter))
        requires
            self.wf(),
        ensures
            state_slots(r.0.states@) == purge(state_slots(self.tree.states@), self.state_cursor()),
            render_slots(r.0.renders@) == purge(
                render_slots(self.tree.renders@),
                self.render_cursor(),
            ),
            r.1 == self.counter,
    {
        let Ui { tree, counter, state_index, render_index } = self;
        let mut tree = tree;
        tree.purge_states(state_index);
        tree.purge_renders(render_index);
        (tree, counter)
    }

    /// The first render node at or after the cursor with key `caller`.
    pub fn find_render_object(&self, caller: Caller) -> (r: Option<usize>)
        requires
            self.wf(),
        ensures
            match r {
                Some(i) => find_from(
                    render_slots(self.tree.renders@),
                    self.render_cursor(),
                    caller,
                ) == Some(i as int),
                None => find_from(
                    render_slots(self.tree.renders@),
                    self.render_cursor(),
                    caller,
                ) is None,
            },
    {
        let ghost s = render_slots(self.tree.renders@);
        let mut ix: usize = self.render_index;
        while ix < self.tree.renders.len()
            invariant
                self.render_index <= ix <= self.tree.renders@.len(),
                s == render_slots(self.tree.renders@),
                forall|j: int| self.render_index <= j < ix ==> s[j].key != caller,
            decreases self.tree.renders@.len() - ix,
        {
            assert(s[ix as int].key == self.tree.renders@[ix as int].key);
            if self.tree.renders[ix].key == caller {
                proof {
                    lemma_find_at(s, self.render_index as int, ix as int, caller);
                }
                return Some(ix);
            }
            ix = ix + 1;
        }
        proof {
            lemma_find_from(s, self.render_index as int, caller);
        }
        None
    }

    /// Insert a new live render node at the cursor, with a fresh identifier
    /// and no children.
    pub fn insert_render_object(&mut self, caller: Caller, kind: u32, object: R)
        requires
            old(self).wf(),
            old(self).counter.next_id() < u64::MAX,
        ensures
            final(self).wf(),
            render_slots(final(self).tree.renders@) == render_slots(
                old(self).tree.renders@,
            ).insert(
                old(self).render_cursor(),
                Slot { key: caller, id: old(self).counter.next_id(), dead: false },
            ),
            final(self).tree.renders@.len() == old(self).tree.renders@.len() + 1,
            forall|i: int|
                0 <= i < old(self).render_cursor() ==> #[trigger] final(self).tree.renders@[i]
                    == old(self).tree.renders@[i],
            forall|i: int|
                old(self).render_cursor() < i < final(self).tree.renders@.len() ==> #[trigger] final(self).tree.renders@[i]
                    == old(self).tree.renders@[i - 1],
            ({
                let n = final(self).tree.renders@[old(self).render_cursor()];
                &&& n.key == caller
                &&& n.kind == kind
                &&& n.object == object
                &&& n.state.id == old(self).counter.next_id()
                &&& n.state.children.bits() == 0
                &&& !n.state.request_update
                &&& n.state.request_layout
                &&& n.children.states@.len() == 0
                &&& n.children.renders@.len() == 0
                &&& !n.dead
            }),
            final(self).tree.states == old(self).tree.states,
            final(self).counter.next_id() == old(self).counter.next_id() + 1,
            final(self).state_cursor() == old(self).state_cursor(),
            final(self).render_cursor() == old(self).render_cursor(),
    {
        let id = self.counter.generate_id();
        let node = Child {
            key: caller,
            kind,
            object,
            children: Children::new(),
            state: ChildState::new(id),
            dead: false,
        };
        self.tree.renders.insert(self.render_index, node);
        assert(render_slots(self.tree.renders@) =~= render_slots(old(self).tree.renders@).insert(
            old(self).render_cursor(),
            Slot { key: caller, id: old(self).counter.next_id(), dead: false },
        ));
    }
}

} // verus!
