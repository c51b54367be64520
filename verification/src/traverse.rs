//! The walk driver and the visitor protocol.

use vstd::prelude::*;
use oxc_allocator::Allocator;
use crate::ancestor::{
    field_discriminant, lemma_packed_round_trip, trail_well_formed, Ancestor,
};
use crate::context::TraverseCtx;
use crate::tree::{Branch, Node, Tree};

verus! {

/// A visitor: what a pass does on entering and on leaving each node.
///
/// The two callbacks may change the visitor and the node in any way. A verified
/// visitor says what they do by overriding `entered` and `exited`; one that
/// overrides neither claims nothing.
pub trait Traverse<'a>: Sized {
    /// Whether `enter_node`, called under `trail`, may turn this visitor into
    /// `after` and the node `node` into `node_after`.
    open spec fn entered(
        &self,
        after: Self,
        node: Tree,
        node_after: Tree,
        trail: Seq<Ancestor>,
    ) -> bool {
        true
    }

    /// Whether `exit_node`, called under `trail`, may turn this visitor into
    /// `after` and the node `node` into `node_after`.
    open spec fn exited(
        &self,
        after: Self,
        node: Tree,
        node_after: Tree,
        trail: Seq<Ancestor>,
    ) -> bool {
        true
    }

    /// Called on a node before its children are visited.
    fn enter_node(&mut self, node: &mut Node, ctx: &TraverseCtx<'a>)
        requires
            ctx.well_formed(),
        ensures
            old(self).entered(*final(self), old(node)@, final(node)@, ctx@),
    ;

    /// Called on a node after its children were visited.
    fn exit_node(&mut self, node: &mut Node, ctx: &TraverseCtx<'a>)
        requires
            ctx.well_formed(),
        ensures
            old(self).exited(*final(self), old(node)@, final(node)@, ctx@),
    ;
}

/// The record pushed while the cursor is inside the child `branch` of `parent`.
pub open spec fn record_of(parent: Tree, branch: Branch) -> Ancestor {
    Ancestor::Field { node: parent.id, kind: parent.kind, field: branch.field }
}

/// Whether the trail has room for one more record.
pub open spec fn can_descend(trail: Seq<Ancestor>) -> bool {
    trail.len() < usize::MAX
}

/// Whether every subtree of `tree` can be visited under `trail`: the trail of the
/// deepest node fits the machine's index range.
pub open spec fn fits(tree: Tree, trail: Seq<Ancestor>) -> bool {
    trail.len() + tree.height() <= usize::MAX
}

/// The states in the middle of the visit of one node.
pub struct NodeSteps<V> {
    /// The visitor after the enter callback.
    pub entered: V,
    /// The node after the enter callback.
    pub node_entered: Tree,
    /// The visitor after the children were visited.
    pub visited: V,
    /// The node's children after they were visited.
    pub children: Seq<Branch>,
}

/// The states in the middle of the visit of a node's first children.
pub struct ChildSteps<V> {
    /// The visitor before the last of these children was visited.
    pub middle: V,
    /// The node's children before the last of these children was visited.
    pub earlier: Seq<Branch>,
    /// The subtree of the last of these children after its visit.
    pub last: Tree,
}

/// Whether a complete visit of `node` and everything below it, under `trail`, may
/// turn the visitor `before` into `after` and the subtree `node` into `node_after`.
///
/// The node is entered, then its children are visited in order, each with the
/// trail extended by the record of the field that holds it, then the node is left.
/// The children visited are those that the node has after the enter callback.
pub open spec fn walked<'a, V: Traverse<'a>>(
    before: V,
    after: V,
    node: Tree,
    node_after: Tree,
    trail: Seq<Ancestor>,
) -> bool
    decreases usize::MAX - trail.len(), 1nat, 0nat, 1nat,
{
    exists|steps: NodeSteps<V>|
        #![trigger before.entered(steps.entered, node, steps.node_entered, trail)]
        walked_by::<V>(before, after, node, node_after, trail, steps)
}

/// `walked`, with the states in the middle named.
pub open spec fn walked_by<'a, V: Traverse<'a>>(
    before: V,
    after: V,
    node: Tree,
    node_after: Tree,
    trail: Seq<Ancestor>,
    steps: NodeSteps<V>,
) -> bool
    decreases usize::MAX - trail.len(), 1nat, 0nat, 0nat,
{
    &&& before.entered(steps.entered, node, steps.node_entered, trail)
    &&& children_walked::<V>(
        steps.entered,
        steps.visited,
        steps.node_entered,
        steps.node_entered.children.len(),
        steps.children,
        trail,
    )
    &&& steps.visited.exited(
        after,
        Tree {
            id: steps.node_entered.id,
            kind: steps.node_entered.kind,
            children: steps.children,
        },
        node_after,
        trail,
    )
}

/// Whether the visit of the first `n` children of `parent`, in order, may turn the
/// visitor `before` into `after` and the parent's children into `children`.
///
/// Where the trail has no room for another record, no child is visited.
pub open spec fn children_walked<'a, V: Traverse<'a>>(
    before: V,
    after: V,
    parent: Tree,
    n: nat,
    children: Seq<Branch>,
    trail: Seq<Ancestor>,
) -> bool
    decreases usize::MAX - trail.len(), 0nat, n, 1nat,
{
    if n == 0 || n > parent.children.len() || !can_descend(trail) {
        after == before && children == parent.children
    } else {
        exists|steps: ChildSteps<V>|
            #![trigger steps.earlier.update(n - 1, Branch { field: parent.children[n - 1].field, node: steps.last })]
            child_walked_by::<V>(before, after, parent, n, children, trail, steps)
    }
}

/// The step of `children_walked` for the child numbered `n - 1`, with the states
/// in the middle named.
pub open spec fn child_walked_by<'a, V: Traverse<'a>>(
    before: V,
    after: V,
    parent: Tree,
    n: nat,
    children: Seq<Branch>,
    trail: Seq<Ancestor>,
    steps: ChildSteps<V>,
) -> bool
    decreases usize::MAX - trail.len(), 0nat, n, 0nat,
{
    if 0 < n <= parent.children.len() && can_descend(trail) {
        let branch = parent.children[n - 1];
        &&& children_walked::<V>(before, steps.middle, parent, (n - 1) as nat, steps.earlier, trail)
        &&& walked::<V>(
            steps.middle,
            after,
            branch.node,
            steps.last,
            trail.push(record_of(parent, branch)),
        )
        &&& children == steps.earlier.update(
            n - 1,
            Branch { field: parent.children[n - 1].field, node: steps.last },
        )
    } else {
        false
    }
}

/// The states in the middle of a visit that `walked` says took place.
pub proof fn walked_steps<'a, V: Traverse<'a>>(
    before: V,
    after: V,
    node: Tree,
    node_after: Tree,
    trail: Seq<Ancestor>,
) -> (steps: NodeSteps<V>)
    requires
        walked::<V>(before, after, node, node_after, trail),
    ensures
        walked_by::<V>(before, after, node, node_after, trail, steps),
{
    choose|steps: NodeSteps<V>|
        #![trigger before.entered(steps.entered, node, steps.node_entered, trail)]
        walked_by::<V>(before, after, node, node_after, trail, steps)
}

/// The states in the middle of the visit of a node's first `n` children, where
/// there is a child numbered `n - 1` to visit.
pub proof fn children_walked_steps<'a, V: Traverse<'a>>(
    before: V,
    after: V,
    parent: Tree,
    n: nat,
    children: Seq<Branch>,
    trail: Seq<Ancestor>,
) -> (steps: ChildSteps<V>)
    requires
        children_walked::<V>(before, after, parent, n, children, trail),
        0 < n <= parent.children.len(),
        can_descend(trail),
    ensures
        child_walked_by::<V>(before, after, parent, n, children, trail, steps),
{
    choose|steps: ChildSteps<V>|
        #![trigger steps.earlier.update(n - 1, Branch { field: parent.children[n - 1].field, node: steps.last })]
        child_walked_by::<V>(before, after, parent, n, children, trail, steps)
}

/// Visits `node` and everything below it, depth first.
///
/// Calls `enter_node` on the node, then visits each child in order, then calls
/// `exit_node`. While a child is visited the trail holds one more record, which
/// names `node` and the field that holds the child; on the way from one field to
/// the next only that record's discriminant is rewritten. On return the trail is
/// what it was.
///
/// A node whose trail would not fit the machine's index range is entered and left
/// without a visit to its children; no tree that fits in memory is that deep.
pub fn walk_node<'a, V: Traverse<'a>>(visitor: &mut V, node: &mut Node, ctx: &mut TraverseCtx<'a>)
    requires
        old(ctx).well_formed(),
    ensures
        final(ctx)@ == old(ctx)@,
        final(ctx).well_formed(),
        walked::<V>(*old(visitor), *final(visitor), old(node)@, final(node)@, old(ctx)@),
    decreases usize::MAX - old(ctx)@.len(),
{
    let ghost trail = ctx@;
    let ghost before = *visitor;
    let ghost node_before = node@;
    visitor.enter_node(node, ctx);
    let ghost entered = *visitor;
    let ghost node_entered = node@;
    proof {
        node.lemma_view();
    }
    let count = node.children.len();
    if count > 0 && ctx.ancestors_depth() < usize::MAX - 1 {
        let id = node.id;
        let kind = node.kind;
        let mut current = node.children[0].field;
        ctx.push_stack(Ancestor::Field { node: id, kind, field: current });
        let mut i: usize = 0;
        while i < count
            invariant
                0 <= i <= count,
                0 < count == node_entered.children.len(),
                trail == old(ctx)@,
                can_descend(trail),
                trail_well_formed(trail),
                id == node_entered.id,
                kind == node_entered.kind,
                ctx.well_formed(),
                ctx@ == trail.push(Ancestor::Field { node: id, kind, field: current }),
                current == node_entered.children[if i == 0 { 0int } else { i - 1 }].field,
                node@.id == id,
                node@.kind == kind,
                node@.children.len() == count,
                node@.children.len() == node.children.len(),
                children_walked::<V>(
                    entered,
                    *visitor,
                    node_entered,
                    i as nat,
                    node@.children,
                    trail,
                ),
                forall|j: int|
                    i <= j < count ==> #[trigger] node@.children[j] == node_entered.children[j],
            decreases count - i,
        {
            proof {
                node.lemma_view();
            }
            let ghost earlier = node@.children;
            let ghost middle = *visitor;
            let field = node.children[i].field;
            assert(earlier[i as int] == node_entered.children[i as int]);
            if field != current {
                proof {
                    lemma_packed_round_trip(kind, field);
                }
                ctx.retag_stack(field_discriminant(kind, field));
                current = field;
            }
            assert(ctx@ =~= trail.push(record_of(node_entered, node_entered.children[i as int])));
            walk_node(visitor, &mut node.children[i].node, ctx);
            proof {
                node.lemma_view();
                let last = node.children[i as int].node@;
                assert forall|j: int| 0 <= j < count implies #[trigger] node@.children[j] == (if j
                    == i {
                    Branch { field, node: last }
                } else {
                    earlier[j]
                }) by {
                    assert(node@.children[j] == node.children[j]@);
                }
                assert(node@.children =~= earlier.update(i as int, Branch { field, node: last }));
                assert(child_walked_by::<V>(
                    entered,
                    *visitor,
                    node_entered,
                    (i + 1) as nat,
                    node@.children,
                    trail,
                    ChildSteps { middle, earlier, last },
                ));
            }
            i = i + 1;
        }
        ctx.pop_stack();
        assert(ctx@ =~= trail);
    } else {
        assert(children_walked::<V>(
            entered,
            *visitor,
            node_entered,
            node_entered.children.len(),
            node@.children,
            trail,
        ));
    }
    let ghost visited = *visitor;
    let ghost children = node@.children;
    assert(node@ == Tree { id: node_entered.id, kind: node_entered.kind, children });
    visitor.exit_node(node, ctx);
    assert(walked_by::<V>(
        before,
        *visitor,
        node_before,
        node@,
        trail,
        NodeSteps { entered, node_entered, visited, children },
    ));
}

/// Visits the whole tree under `program` with `traverser`.
///
/// A fresh context is bound to `allocator` for the call, so the root is visited
/// with the "no parent" record alone on the trail. When the walk is over the trail
/// is back to that record alone.
pub fn traverse_mut<'a, Tr: Traverse<'a>>(
    traverser: &mut Tr,
    program: &mut Node,
    allocator: &'a Allocator,
)
    ensures
        walked::<Tr>(
            *old(traverser),
            *final(traverser),
            old(program)@,
            final(program)@,
            seq![Ancestor::NoParent],
        ),
{
    let mut ctx = TraverseCtx::new(allocator);
    walk_node(traverser, program, &mut ctx);
    // Every push was matched by a pop: the trail is the "no parent" record alone.
    assert(ctx@ == seq![Ancestor::NoParent]);
}

} // verus!
