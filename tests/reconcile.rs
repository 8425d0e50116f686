use coat::bloom::Bloom;
use coat::id::ChildCounter;
use coat::key::Caller;
use coat::object::{RenderObject, UpdateCtx};
use coat::tree::Children;
use coat::ui::{Ui, UiError};

/// A render object that remembers the properties it was given.
struct Probe {
    props: u32,
    updates: u32,
}

impl RenderObject<u32> for Probe {
    type Action = u32;

    fn create(props: u32) -> Self {
        Probe { props, updates: 0 }
    }

    fn update(&mut self, ctx: &mut UpdateCtx, props: u32) -> u32 {
        if self.props != props {
            ctx.request_layout();
        }
        self.props = props;
        self.updates += 1;
        props + 100
    }
}

const PROBE: u32 = 1;
const OTHER: u32 = 2;

type Tree = Children<u32, Probe>;

fn key(n: u32) -> Caller {
    Caller::new(0, n, 1)
}

/// One pass declaring render nodes `(key, props)` at the top level.
fn pass(tree: Tree, counter: ChildCounter, decls: &[(u32, u32)]) -> (Tree, ChildCounter) {
    let mut ui = Ui::new(tree, counter);
    for &(k, p) in decls {
        ui.render_object(key(k), PROBE, p).unwrap();
    }
    ui.finish()
}

fn ids(tree: &Tree) -> Vec<u64> {
    tree.renders.iter().map(|c| c.state.id).collect()
}

fn keys_of(tree: &Tree) -> Vec<u32> {
    tree.renders.iter().map(|c| c.key.line).collect()
}

#[test]
fn counter_starts_at_one() {
    let mut c = ChildCounter::new();
    assert_eq!(c.generate_id(), 1);
    assert_eq!(c.generate_id(), 2);
    assert_eq!(c.generate_id(), 3);
    assert!(c.can_generate());
}

#[test]
fn bloom_has_no_false_negatives() {
    let mut b = Bloom::new();
    assert!(b.is_empty());
    for id in [1u64, 7, 64, 65, 1000, u64::MAX] {
        b.add(id);
    }
    for id in [1u64, 7, 64, 65, 1000, u64::MAX] {
        assert!(b.may_contain(id));
    }
    assert!(!b.is_empty());
    assert!(!Bloom::new().may_contain(5));
}

#[test]
fn bloom_union_covers_both() {
    let mut a = Bloom::new();
    a.add(3);
    let mut b = Bloom::new();
    b.add(200);
    let u = a.union(b);
    assert!(u.may_contain(3));
    assert!(u.may_contain(200));
    assert_eq!(a.union(b), b.union(a));
    assert!(!a.may_contain(4));
}

#[test]
fn removing_middle_key_keeps_other_ids() {
    let (tree, counter) = pass(Children::new(), ChildCounter::new(), &[(1, 10), (2, 20), (3, 30)]);
    assert_eq!(ids(&tree), vec![1, 2, 3]);
    let (tree, _) = pass(tree, counter, &[(1, 11), (3, 31)]);
    assert_eq!(keys_of(&tree), vec![1, 3]);
    assert_eq!(ids(&tree), vec![1, 3]);
    assert_eq!(tree.renders[0].object.props, 11);
    assert_eq!(tree.renders[1].object.props, 31);
    assert_eq!(tree.renders[0].object.updates, 1);
    assert_eq!(tree.renders[1].object.updates, 1);
}

#[test]
fn reversed_order_recreates_skipped_node() {
    let (tree, counter) = pass(Children::new(), ChildCounter::new(), &[(1, 0), (2, 0)]);
    assert_eq!(ids(&tree), vec![1, 2]);
    let (tree, _) = pass(tree, counter, &[(2, 0), (1, 0)]);
    // Key 2 is found ahead of the cursor; key 1, skipped to reach it, is
    // marked dead and a new node is created for it.
    assert_eq!(keys_of(&tree), vec![2, 1]);
    assert_eq!(ids(&tree), vec![2, 3]);
    assert_eq!(tree.renders[1].object.updates, 0);
}

#[test]
fn mismatched_state_type_is_fatal() {
    let mut ui: Ui<u32, Probe> = Ui::new(Children::new(), ChildCounter::new());
    assert_eq!(ui.state_node(key(1), PROBE, 5), Ok(0));
    let (tree, counter) = ui.finish();
    let mut ui = Ui::new(tree, counter);
    assert_eq!(ui.state_node(key(1), OTHER, 6), Err(UiError::WrongStateType));
    assert_eq!(ui.tree.states[0].value, 5);
}

#[test]
fn mismatched_node_type_is_fatal() {
    let (tree, counter) = pass(Children::new(), ChildCounter::new(), &[(1, 0)]);
    let mut ui = Ui::new(tree, counter);
    assert!(matches!(ui.render_object(key(1), OTHER, 0), Err(UiError::WrongNodeType)));
    assert_eq!(ui.tree.renders[0].object.props, 0);
    assert_eq!(ui.tree.renders[0].object.updates, 0);
}

#[test]
fn same_declarations_change_nothing() {
    let decls = [(1, 10), (2, 20), (3, 30)];
    let (tree, counter) = pass(Children::new(), ChildCounter::new(), &decls);
    let (tree, counter) = pass(tree, counter, &decls);
    assert_eq!(ids(&tree), vec![1, 2, 3]);
    let mut next = counter;
    assert_eq!(next.generate_id(), 4);
    for (i, c) in tree.renders.iter().enumerate() {
        assert_eq!(c.object.props, decls[i].1);
        assert_eq!(c.object.updates, 1);
        assert!(!c.dead);
    }
}

#[test]
fn found_key_is_not_created_again() {
    let (tree, counter) = pass(Children::new(), ChildCounter::new(), &[(1, 0), (2, 0), (3, 0)]);
    let mut ui = Ui::new(tree, counter);
    // Key 3 stands ahead of the cursor: it is matched, not created.
    let (ix, action) = ui.render_object(key(3), PROBE, 9).unwrap();
    assert_eq!(ix, 2);
    assert_eq!(action, 109);
    assert_eq!(ui.tree.renders.len(), 3);
    assert!(ui.tree.renders[0].dead);
    assert!(ui.tree.renders[1].dead);
    assert!(ui.tree.renders[0].state.request_layout);
    let (tree, mut counter) = ui.finish();
    assert_eq!(ids(&tree), vec![3]);
    assert_eq!(counter.generate_id(), 4);
}

#[test]
fn new_node_gets_default_action() {
    let mut ui: Ui<u32, Probe> = Ui::new(Children::new(), ChildCounter::new());
    let (ix, action) = ui.render_object(key(1), PROBE, 7).unwrap();
    assert_eq!((ix, action), (0, 0));
    assert_eq!(ui.tree.renders[0].object.props, 7);
    assert!(ui.tree.renders[0].state.children.may_contain(1));
}

#[test]
fn update_requests_layout_only_on_change() {
    let (tree, counter) = pass(Children::new(), ChildCounter::new(), &[(1, 4)]);
    let mut tree = tree;
    tree.renders[0].state.request_layout = false;
    tree.renders[0].state.request_update = true;
    let (tree, counter) = pass(tree, counter, &[(1, 4)]);
    assert!(!tree.renders[0].state.request_layout);
    assert!(!tree.renders[0].state.request_update);
    let (tree, _) = pass(tree, counter, &[(1, 5)]);
    assert!(tree.renders[0].state.request_layout);
}

#[test]
fn undeclared_entries_are_purged() {
    let mut ui: Ui<u32, Probe> = Ui::new(Children::new(), ChildCounter::new());
    ui.state_node(key(1), PROBE, 1).unwrap();
    ui.state_node(key(2), PROBE, 2).unwrap();
    ui.state_node(key(3), PROBE, 3).unwrap();
    ui.render_object(key(4), PROBE, 0).unwrap();
    let (tree, counter) = ui.finish();
    assert_eq!(tree.states.len(), 3);
    let mut ui = Ui::new(tree, counter);
    assert_eq!(ui.state_node(key(2), PROBE, 20), Ok(1));
    let (tree, _) = ui.finish();
    assert_eq!(tree.states.len(), 1);
    assert_eq!(tree.states[0].key, key(2));
    assert_eq!(tree.states[0].value, 2);
    assert!(tree.renders.is_empty());
}

#[test]
fn state_value_survives_passes() {
    let mut ui: Ui<u32, Probe> = Ui::new(Children::new(), ChildCounter::new());
    let ix = ui.state_node(key(1), PROBE, 0).unwrap();
    ui.tree.states[ix].value += 5;
    let (tree, counter) = ui.finish();
    let mut ui = Ui::new(tree, counter);
    let ix = ui.state_node(key(1), PROBE, 0).unwrap();
    assert_eq!(ui.tree.states[ix].value, 5);
}

#[test]
fn same_key_twice_creates_two_cells() {
    let mut ui: Ui<u32, Probe> = Ui::new(Children::new(), ChildCounter::new());
    assert_eq!(ui.state_node(key(1), PROBE, 1), Ok(0));
    assert_eq!(ui.state_node(key(1), PROBE, 2), Ok(1));
    let (tree, _) = ui.finish();
    assert_eq!(tree.states.len(), 2);
}

#[test]
fn nested_children_are_reconciled_and_filtered() {
    let mut ui: Ui<u32, Probe> = Ui::new(Children::new(), ChildCounter::new());
    let (outer, _) = ui.render_object(key(1), PROBE, 0).unwrap();
    let mut sub = ui.enter(outer);
    let (inner, _) = sub.render_object(key(2), PROBE, 0).unwrap();
    let mut leaf = sub.enter(inner);
    leaf.render_object(key(3), PROBE, 0).unwrap();
    sub.exit(inner, leaf);
    sub.render_object(key(4), PROBE, 0).unwrap();
    ui.exit(outer, sub);
    let (tree, counter) = ui.finish();
    let root = &tree.renders[0];
    assert_eq!(root.state.id, 1);
    for id in [1u64, 2, 3, 4] {
        assert!(root.state.children.may_contain(id));
    }
    assert_eq!(root.children.renders.len(), 2);
    assert_eq!(root.children.renders[0].children.renders[0].state.id, 3);

    // Second pass: the inner node drops its child, the root keeps both.
    let mut ui = Ui::new(tree, counter);
    let (outer, _) = ui.render_object(key(1), PROBE, 0).unwrap();
    let mut sub = ui.enter(outer);
    let (inner, _) = sub.render_object(key(2), PROBE, 0).unwrap();
    let leaf = sub.enter(inner);
    sub.exit(inner, leaf);
    sub.render_object(key(4), PROBE, 0).unwrap();
    ui.exit(outer, sub);
    let (tree, _) = ui.finish();
    let root = &tree.renders[0];
    assert_eq!(root.state.id, 1);
    assert_eq!(root.children.renders[0].state.id, 2);
    assert!(root.children.renders[0].children.renders.is_empty());
    assert_eq!(root.children.renders[1].state.id, 4);
}

#[test]
fn empty_pass_purges_everything() {
    let mut ui: Ui<u32, Probe> = Ui::new(Children::new(), ChildCounter::new());
    ui.state_node(key(1), PROBE, 1).unwrap();
    ui.render_object(key(2), PROBE, 0).unwrap();
    let (tree, counter) = ui.finish();
    let (tree, _) = Ui::new(tree, counter).finish();
    assert!(tree.states.is_empty());
    assert!(tree.renders.is_empty());
}

#[test]
fn leaf_filter_holds_only_its_own_id() {
    let mut ui: Ui<u32, Probe> = Ui::new(Children::new(), ChildCounter::new());
    ui.render_object(key(1), PROBE, 0).unwrap();
    let filter = ui.tree.renders[0].state.children;
    assert!(filter.may_contain(1));
    // Id 1 sets bits 1 and 0; id 2 needs bit 2.
    assert!(!filter.may_contain(2));
    let mut own = Bloom::new();
    own.add(1);
    assert_eq!(filter, own);
}
