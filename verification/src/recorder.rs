//! A visitor that records every callback, and what its record must be.

use vstd::prelude::*;
use crate::ancestor::{trail_depth, Ancestor};
use crate::context::TraverseCtx;
use crate::traverse::{
    children_walked, children_walked_steps, fits, record_of, walked, walked_steps, Traverse,
};
use crate::tree::{Branch, Node, Tree};

verus! {

/// One callback, as a `Recorder` saw it.
#[derive(Clone, Copy, Debug, PartialEq, Eq, Structural)]
pub struct Event {
    /// Whether this was the exit callback.
    pub exit: bool,
    /// The identity of the node.
    pub node: u64,
    /// The discriminant of the node's variant.
    pub kind: u8,
    /// What the context gave as the depth.
    pub depth: usize,
    /// What the context gave as the parent.
    pub parent: Ancestor,
}

/// A visitor that changes nothing and records each callback in order.
#[derive(Debug)]
pub struct Recorder {
    pub events: Vec<Event>,
}

/// The record of a callback on `node` under `trail`.
pub open spec fn event_of(exit: bool, node: Tree, trail: Seq<Ancestor>) -> Event {
    Event {
        exit,
        node: node.id,
        kind: node.kind,
        depth: trail_depth(trail) as usize,
        parent: trail.last(),
    }
}

/// The records of a complete visit of `tree` under `trail`: the enter record of the
/// node, the records of its children in order, the exit record of the node.
pub open spec fn events_of(tree: Tree, trail: Seq<Ancestor>) -> Seq<Event>
    decreases tree, 1nat, 0nat,
{
    seq![event_of(false, tree, trail)] + events_through(tree, tree.children.len(), trail) + seq![
        event_of(true, tree, trail),
    ]
}

/// The records of the visits of the first `n` children of `parent`, one visit
/// after the other, each under the trail extended by the record of its field.
pub open spec fn events_through(parent: Tree, n: nat, trail: Seq<Ancestor>) -> Seq<Event>
    decreases parent, 0nat, n,
{
    if n == 0 || n > parent.children.len() {
        Seq::empty()
    } else {
        let branch = parent.children[n - 1];
        events_through(parent, (n - 1) as nat, trail) + events_of(
            branch.node,
            trail.push(record_of(parent, branch)),
        )
    }
}

/// The number of edges between the root of a visit and the node of each of its
/// records, in the order of the records.
pub open spec fn edges_of(tree: Tree, above: nat) -> Seq<nat>
    decreases tree, 1nat, 0nat,
{
    seq![above] + edges_through(tree, tree.children.len(), above) + seq![above]
}

/// `edges_of` for the first `n` children of `parent`, which is `above` edges below
/// the root.
pub open spec fn edges_through(parent: Tree, n: nat, above: nat) -> Seq<nat>
    decreases parent, 0nat, n,
{
    if n == 0 || n > parent.children.len() {
        Seq::empty()
    } else {
        edges_through(parent, (n - 1) as nat, above) + edges_of(
            parent.children[n - 1].node,
            above + 1,
        )
    }
}

/// The nodes of the enter records, or of the exit records, in order.
pub open spec fn nodes_of(events: Seq<Event>, exit: bool) -> Seq<u64> {
    events.filter(|e: Event| e.exit == exit).map_values(|e: Event| e.node)
}

impl Recorder {
    /// A recorder with nothing recorded.
    pub fn new() -> (recorder: Recorder)
        ensures
            recorder.events@ == Seq::<Event>::empty(),
    {
        Recorder { events: Vec::new() }
    }
}

impl<'a> Traverse<'a> for Recorder {
    open spec fn entered(
        &self,
        after: Self,
        node: Tree,
        node_after: Tree,
        trail: Seq<Ancestor>,
    ) -> bool {
        node_after == node && after.events@ == self.events@.push(event_of(false, node, trail))
    }

    open spec fn exited(
        &self,
        after: Self,
        node: Tree,
        node_after: Tree,
        trail: Seq<Ancestor>,
    ) -> bool {
        node_after == node && after.events@ == self.events@.push(event_of(true, node, trail))
    }

    fn enter_node(&mut self, node: &mut Node, ctx: &TraverseCtx<'a>) {
        proof {
            node.lemma_view();
        }
        self.events.push(
            Event {
                exit: false,
                node: node.id,
                kind: node.kind,
                depth: ctx.ancestors_depth(),
                parent: *ctx.parent(),
            },
        );
    }

    fn exit_node(&mut self, node: &mut Node, ctx: &TraverseCtx<'a>) {
        proof {
            node.lemma_view();
        }
        self.events.push(
            Event {
                exit: true,
                node: node.id,
                kind: node.kind,
                depth: ctx.ancestors_depth(),
                parent: *ctx.parent(),
            },
        );
    }
}

/// A visit with a recorder leaves the tree as it was and adds to the record the
/// enter and exit records of the nodes in depth-first order, the children of each
/// node in the order of its fields.
pub proof fn lemma_recorder_walked(
    before: Recorder,
    after: Recorder,
    tree: Tree,
    tree_after: Tree,
    trail: Seq<Ancestor>,
)
    requires
        walked::<Recorder>(before, after, tree, tree_after, trail),
        fits(tree, trail),
    ensures
        tree_after == tree,
        after.events@ == before.events@ + events_of(tree, trail),
    decreases tree, 1nat, 0nat,
{
    let steps = walked_steps::<Recorder>(before, after, tree, tree_after, trail);
    lemma_recorder_children_walked(
        steps.entered,
        steps.visited,
        tree,
        tree.children.len(),
        steps.children,
        trail,
    );
    assert(after.events@ =~= before.events@ + events_of(tree, trail));
}

/// `lemma_recorder_walked` for the first `n` children of `parent`.
pub proof fn lemma_recorder_children_walked(
    before: Recorder,
    after: Recorder,
    parent: Tree,
    n: nat,
    children: Seq<Branch>,
    trail: Seq<Ancestor>,
)
    requires
        children_walked::<Recorder>(before, after, parent, n, children, trail),
        n <= parent.children.len(),
        fits(parent, trail),
    ensures
        children == parent.children,
        after.events@ == before.events@ + events_through(parent, n, trail),
    decreases parent, 0nat, n,
{
    if n == 0 {
        assert(after.events@ =~= before.events@ + events_through(parent, n, trail));
    } else {
        parent.lemma_height_above_child(n - 1);
        let steps = children_walked_steps::<Recorder>(before, after, parent, n, children, trail);
        lemma_recorder_children_walked(
            before,
            steps.middle,
            parent,
            (n - 1) as nat,
            steps.earlier,
            trail,
        );
        let branch = parent.children[n - 1];
        lemma_recorder_walked(
            steps.middle,
            after,
            branch.node,
            steps.last,
            trail.push(record_of(parent, branch)),
        );
        assert(children =~= parent.children);
        assert(after.events@ =~= before.events@ + events_through(parent, n, trail));
    }
}

/// The enter records of a visit name the nodes in preorder, the exit records in
/// postorder.
pub proof fn lemma_events_in_depth_first_order(tree: Tree, trail: Seq<Ancestor>)
    ensures
        nodes_of(events_of(tree, trail), false) == tree.preorder(),
        nodes_of(events_of(tree, trail), true) == tree.postorder(),
    decreases tree, 1nat, 0nat,
{
    let enter = seq![event_of(false, tree, trail)];
    let middle = events_through(tree, tree.children.len(), trail);
    let exit = seq![event_of(true, tree, trail)];
    lemma_events_through_in_order(tree, tree.children.len(), trail);
    lemma_nodes_of_one(event_of(false, tree, trail));
    lemma_nodes_of_one(event_of(true, tree, trail));
    lemma_nodes_of_add(enter, middle, false);
    lemma_nodes_of_add(enter + middle, exit, false);
    lemma_nodes_of_add(enter, middle, true);
    lemma_nodes_of_add(enter + middle, exit, true);
    assert(nodes_of(events_of(tree, trail), false) =~= tree.preorder());
    assert(nodes_of(events_of(tree, trail), true) =~= tree.postorder());
}

/// `lemma_events_in_depth_first_order` for the first `n` children of `parent`.
pub proof fn lemma_events_through_in_order(parent: Tree, n: nat, trail: Seq<Ancestor>)
    requires
        n <= parent.children.len(),
    ensures
        nodes_of(events_through(parent, n, trail), false) == parent.preorder_through(n),
        nodes_of(events_through(parent, n, trail), true) == parent.postorder_through(n),
    decreases parent, 0nat, n,
{
    if n == 0 {
        lemma_nodes_of_none(false);
        lemma_nodes_of_none(true);
    } else {
        let branch = parent.children[n - 1];
        let earlier = events_through(parent, (n - 1) as nat, trail);
        let last = events_of(branch.node, trail.push(record_of(parent, branch)));
        lemma_events_through_in_order(parent, (n - 1) as nat, trail);
        lemma_events_in_depth_first_order(branch.node, trail.push(record_of(parent, branch)));
        lemma_nodes_of_add(earlier, last, false);
        lemma_nodes_of_add(earlier, last, true);
    }
}

/// No records name no nodes.
pub proof fn lemma_nodes_of_none(exit: bool)
    ensures
        nodes_of(Seq::<Event>::empty(), exit) == Seq::<u64>::empty(),
{
    reveal(Seq::filter);
    assert(nodes_of(Seq::<Event>::empty(), exit) =~= Seq::<u64>::empty());
}

/// One record names its node where it is of the kind asked for.
pub proof fn lemma_nodes_of_one(event: Event)
    ensures
        nodes_of(seq![event], event.exit) == seq![event.node],
        nodes_of(seq![event], !event.exit) == Seq::<u64>::empty(),
{
    reveal(Seq::filter);
    let one = seq![event];
    assert(one.drop_last() =~= Seq::<Event>::empty());
    assert(one.last() == event);
    let same = |e: Event| e.exit == event.exit;
    let other = |e: Event| e.exit == !event.exit;
    assert(one.drop_last().filter(same) =~= Seq::<Event>::empty());
    assert(one.drop_last().filter(other) =~= Seq::<Event>::empty());
    assert(one.filter(same) =~= seq![event]);
    assert(one.filter(other) =~= Seq::<Event>::empty());
    assert(nodes_of(one, event.exit) =~= seq![event.node]);
    assert(nodes_of(one, !event.exit) =~= Seq::<u64>::empty());
}

/// The nodes named by two records in a row are those named by the first, then
/// those named by the second.
pub proof fn lemma_nodes_of_add(first: Seq<Event>, second: Seq<Event>, exit: bool)
    ensures
        nodes_of(first + second, exit) == nodes_of(first, exit) + nodes_of(second, exit),
{
    let pred = |e: Event| e.exit == exit;
    Seq::filter_distributes_over_add(first, second, pred);
    assert(nodes_of(first + second, exit) =~= nodes_of(first, exit) + nodes_of(second, exit));
}

/// In the records of a visit from the root, the depth in each record is the number
/// of edges between the root and the record's node, and the first and the last
/// record, those of the root, give the "no parent" record as the parent.
pub proof fn lemma_depth_is_distance_from_root(tree: Tree)
    requires
        fits(tree, seq![Ancestor::NoParent]),
    ensures
        events_of(tree, seq![Ancestor::NoParent]).len() == edges_of(tree, 0).len(),
        forall|k: int|
            0 <= k < edges_of(tree, 0).len() ==> (#[trigger] events_of(
                tree,
                seq![Ancestor::NoParent],
            )[k]).depth == edges_of(tree, 0)[k],
        events_of(tree, seq![Ancestor::NoParent]).first().depth == 0,
        events_of(tree, seq![Ancestor::NoParent]).first().parent == Ancestor::NoParent,
        events_of(tree, seq![Ancestor::NoParent]).last().depth == 0,
        events_of(tree, seq![Ancestor::NoParent]).last().parent == Ancestor::NoParent,
{
    lemma_depths(tree, seq![Ancestor::NoParent]);
}

/// Under any trail, the depth in each record of a visit is the depth of the trail
/// plus the number of edges between the root of the visit and the record's node.
pub proof fn lemma_depths(tree: Tree, trail: Seq<Ancestor>)
    requires
        fits(tree, trail),
        trail.len() >= 1,
    ensures
        events_of(tree, trail).len() == edges_of(tree, 0).len(),
        forall|k: int|
            0 <= k < edges_of(tree, 0).len() ==> (#[trigger] events_of(tree, trail)[k]).depth
                == trail_depth(trail) + edges_of(tree, 0)[k],
{
    lemma_depths_from(tree, trail, 0);
}

/// `lemma_depths`, for a node that is `above` edges below the root of the visit.
pub proof fn lemma_depths_from(tree: Tree, trail: Seq<Ancestor>, above: nat)
    requires
        fits(tree, trail),
        trail.len() >= 1 + above,
    ensures
        events_of(tree, trail).len() == edges_of(tree, above).len(),
        forall|k: int|
            0 <= k < edges_of(tree, above).len() ==> (#[trigger] events_of(tree, trail)[k]).depth
                + above == trail_depth(trail) + edges_of(tree, above)[k],
    decreases tree, 1nat, 0nat,
{
    lemma_depths_through(tree, tree.children.len(), trail, above);
}

/// `lemma_depths_from` for the first `n` children of `parent`.
pub proof fn lemma_depths_through(parent: Tree, n: nat, trail: Seq<Ancestor>, above: nat)
    requires
        n <= parent.children.len(),
        fits(parent, trail),
        trail.len() >= 1 + above,
    ensures
        events_through(parent, n, trail).len() == edges_through(parent, n, above).len(),
        forall|k: int|
            0 <= k < edges_through(parent, n, above).len() ==> (#[trigger] events_through(
                parent,
                n,
                trail,
            )[k]).depth + above == trail_depth(trail) + edges_through(parent, n, above)[k],
    decreases parent, 0nat, n,
{
    if n > 0 {
        let branch = parent.children[n - 1];
        parent.lemma_height_above_child(n - 1);
        lemma_depths_through(parent, (n - 1) as nat, trail, above);
        lemma_depths_from(branch.node, trail.push(record_of(parent, branch)), above + 1);
    }
}

/// Every record of a visit names a node of the tree.
pub proof fn lemma_events_name_nodes(tree: Tree, trail: Seq<Ancestor>)
    ensures
        forall|k: int|
            0 <= k < events_of(tree, trail).len() ==> tree.occurs(
                (#[trigger] events_of(tree, trail)[k]).node,
            ),
    decreases tree, 1nat, 0nat,
{
    lemma_events_through_name_nodes(tree, tree.children.len(), trail);
}

/// `lemma_events_name_nodes` for the first `n` children of `parent`.
pub proof fn lemma_events_through_name_nodes(parent: Tree, n: nat, trail: Seq<Ancestor>)
    requires
        n <= parent.children.len(),
    ensures
        forall|k: int|
            0 <= k < events_through(parent, n, trail).len() ==> parent.occurs(
                (#[trigger] events_through(parent, n, trail)[k]).node,
            ),
    decreases parent, 0nat, n,
{
    if n > 0 {
        let branch = parent.children[n - 1];
        let earlier = events_through(parent, (n - 1) as nat, trail);
        let last = events_of(branch.node, trail.push(record_of(parent, branch)));
        lemma_events_through_name_nodes(parent, (n - 1) as nat, trail);
        lemma_events_name_nodes(branch.node, trail.push(record_of(parent, branch)));
        assert forall|k: int| 0 <= k < events_through(parent, n, trail).len() implies parent.occurs(
            (#[trigger] events_through(parent, n, trail)[k]).node,
        ) by {
            if k >= earlier.len() {
                assert(events_through(parent, n, trail)[k] == last[k - earlier.len()]);
                assert(parent.children[n - 1].node.occurs(last[k - earlier.len()].node));
            } else {
                assert(events_through(parent, n, trail)[k] == earlier[k]);
            }
        }
    }
}

} // verus!
