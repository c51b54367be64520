//! A visitor that replaces one node in place, and what its visit leaves.

use vstd::prelude::*;
use crate::ancestor::Ancestor;
use crate::context::TraverseCtx;
use crate::recorder::{
    events_of, lemma_events_name_nodes, lemma_recorder_walked, Recorder,
};
use crate::traverse::{
    can_descend, children_walked, children_walked_steps, fits, record_of, walked, walked_steps,
    Traverse,
};
use crate::tree::{Branch, Node, Tree};

verus! {

/// A visitor that, on entering the first node with identity `target`, puts
/// `replacement` in its place. It does so once: afterwards it changes nothing.
#[derive(Debug)]
pub struct ReplaceOnce {
    pub target: u64,
    pub replacement: Option<Node>,
}

impl ReplaceOnce {
    /// A visitor that will replace the node `target` by `replacement`.
    pub fn new(target: u64, replacement: Node) -> (visitor: ReplaceOnce)
        ensures
            visitor.target == target,
            visitor.replacement == Some(replacement),
    {
        ReplaceOnce { target, replacement: Some(replacement) }
    }

    /// Whether the replacement has been put into a tree.
    pub fn is_done(&self) -> (b: bool)
        ensures
            b == (self.replacement is None),
    {
        self.replacement.is_none()
    }
}

impl<'a> Traverse<'a> for ReplaceOnce {
    open spec fn entered(
        &self,
        after: Self,
        node: Tree,
        node_after: Tree,
        trail: Seq<Ancestor>,
    ) -> bool {
        &&& after.target == self.target
        &&& if node.id == self.target && self.replacement is Some {
            node_after == self.replacement->0@ && after.replacement is None
        } else {
            node_after == node && after.replacement == self.replacement
        }
    }

    open spec fn exited(
        &self,
        after: Self,
        node: Tree,
        node_after: Tree,
        trail: Seq<Ancestor>,
    ) -> bool {
        node_after == node && after.target == self.target && after.replacement == self.replacement
    }

    fn enter_node(&mut self, node: &mut Node, ctx: &TraverseCtx<'a>) {
        proof {
            node.lemma_view();
        }
        if node.id == self.target {
            let mut replacement: Option<Node> = None;
            std::mem::swap(&mut replacement, &mut self.replacement);
            if let Some(new) = replacement {
                *node = new;
            }
        }
    }

    fn exit_node(&mut self, node: &mut Node, ctx: &TraverseCtx<'a>) {
    }
}

/// Whether the node that `path` leads to has identity `target`, and no other node
/// of `tree` has, not counting the nodes below that one.
pub open spec fn sole_at(tree: Tree, path: Seq<int>, target: u64) -> bool
    decreases path.len(),
{
    if path.len() == 0 {
        tree.id == target
    } else {
        &&& tree.id != target
        &&& 0 <= path[0] < tree.children.len()
        &&& forall|j: int|
            0 <= j < tree.children.len() && j != path[0] ==> !(#[trigger] tree.children[j]).node.occurs(
                target,
            )
        &&& sole_at(tree.children[path[0]].node, path.drop_first(), target)
    }
}

/// A visitor that has nothing left to put in, or meets no node with its target's
/// identity, leaves the tree and itself as they were.
pub proof fn lemma_idle_walked(
    before: ReplaceOnce,
    after: ReplaceOnce,
    tree: Tree,
    tree_after: Tree,
    trail: Seq<Ancestor>,
)
    requires
        walked::<ReplaceOnce>(before, after, tree, tree_after, trail),
        before.replacement is None || !tree.occurs(before.target),
    ensures
        tree_after == tree,
        after.target == before.target,
        after.replacement == before.replacement,
    decreases tree, 1nat, 0nat,
{
    let steps = walked_steps::<ReplaceOnce>(before, after, tree, tree_after, trail);
    lemma_idle_children_walked(
        steps.entered,
        steps.visited,
        tree,
        tree.children.len(),
        steps.children,
        trail,
    );
}

/// `lemma_idle_walked` for the first `n` children of `parent`.
pub proof fn lemma_idle_children_walked(
    before: ReplaceOnce,
    after: ReplaceOnce,
    parent: Tree,
    n: nat,
    children: Seq<Branch>,
    trail: Seq<Ancestor>,
)
    requires
        children_walked::<ReplaceOnce>(before, after, parent, n, children, trail),
        n <= parent.children.len(),
        before.replacement is None || forall|j: int|
            0 <= j < n ==> !(#[trigger] parent.children[j]).node.occurs(before.target),
    ensures
        children == parent.children,
        after.target == before.target,
        after.replacement == before.replacement,
    decreases parent, 0nat, n,
{
    if n > 0 && can_descend(trail) {
        let steps = children_walked_steps::<ReplaceOnce>(before, after, parent, n, children, trail);
        lemma_idle_children_walked(
            before,
            steps.middle,
            parent,
            (n - 1) as nat,
            steps.earlier,
            trail,
        );
        let branch = parent.children[n - 1];
        lemma_idle_walked(
            steps.middle,
            after,
            branch.node,
            steps.last,
            trail.push(record_of(parent, branch)),
        );
        assert(children =~= parent.children);
    }
}

/// A visit by a visitor that still holds its replacement, of a tree in which
/// `path` leads to the only node with the target's identity, leaves the tree with
/// the replacement at `path` and the visitor with nothing left to put in.
pub proof fn lemma_replaced_walked(
    before: ReplaceOnce,
    after: ReplaceOnce,
    tree: Tree,
    tree_after: Tree,
    trail: Seq<Ancestor>,
    path: Seq<int>,
)
    requires
        walked::<ReplaceOnce>(before, after, tree, tree_after, trail),
        before.replacement is Some,
        sole_at(tree, path, before.target),
        trail.len() + path.len() <= usize::MAX,
    ensures
        tree_after == tree.replaced(path, before.replacement->0@),
        after.target == before.target,
        after.replacement is None,
    decreases path.len(), 1nat, 0nat,
{
    let steps = walked_steps::<ReplaceOnce>(before, after, tree, tree_after, trail);
    if path.len() == 0 {
        lemma_idle_children_walked(
            steps.entered,
            steps.visited,
            steps.node_entered,
            steps.node_entered.children.len(),
            steps.children,
            trail,
        );
    } else {
        lemma_replaced_children_walked(
            steps.entered,
            steps.visited,
            tree,
            tree.children.len(),
            steps.children,
            trail,
            path,
        );
    }
}

/// `lemma_replaced_walked` for the first `n` children of `parent`: while the child
/// on the path is not among them nothing changes, afterwards that child holds the
/// replacement.
pub proof fn lemma_replaced_children_walked(
    before: ReplaceOnce,
    after: ReplaceOnce,
    parent: Tree,
    n: nat,
    children: Seq<Branch>,
    trail: Seq<Ancestor>,
    path: Seq<int>,
)
    requires
        children_walked::<ReplaceOnce>(before, after, parent, n, children, trail),
        n <= parent.children.len(),
        before.replacement is Some,
        path.len() > 0,
        sole_at(parent, path, before.target),
        trail.len() + path.len() <= usize::MAX,
    ensures
        after.target == before.target,
        n <= path[0] ==> children == parent.children && after.replacement == before.replacement,
        n > path[0] ==> after.replacement is None && children == parent.children.update(
            path[0],
            Branch {
                field: parent.children[path[0]].field,
                node: parent.children[path[0]].node.replaced(
                    path.drop_first(),
                    before.replacement->0@,
                ),
            },
        ),
    decreases path.len(), 0nat, n,
{
    if n > 0 {
        let steps = children_walked_steps::<ReplaceOnce>(before, after, parent, n, children, trail);
        lemma_replaced_children_walked(
            before,
            steps.middle,
            parent,
            (n - 1) as nat,
            steps.earlier,
            trail,
            path,
        );
        let branch = parent.children[n - 1];
        let below = trail.push(record_of(parent, branch));
        if n - 1 == path[0] {
            lemma_replaced_walked(
                steps.middle,
                after,
                branch.node,
                steps.last,
                below,
                path.drop_first(),
            );
        } else {
            lemma_idle_walked(steps.middle, after, branch.node, steps.last, below);
            assert(children =~= steps.earlier);
        }
    }
}

/// Putting a tree without the target's identity in the place of the only node that
/// has it leaves a tree without that identity, in which the path leads to what was
/// put in.
pub proof fn lemma_replaced_is_without(tree: Tree, path: Seq<int>, target: u64, new: Tree)
    requires
        sole_at(tree, path, target),
        !new.occurs(target),
    ensures
        tree.has_path(path),
        tree.replaced(path, new).has_path(path),
        tree.replaced(path, new).subtree(path) == new,
        !tree.replaced(path, new).occurs(target),
    decreases path.len(),
{
    if path.len() > 0 {
        let i = path[0];
        let child = tree.children[i].node;
        lemma_replaced_is_without(child, path.drop_first(), target, new);
        let after = tree.replaced(path, new);
        assert(after.children[i].node == child.replaced(path.drop_first(), new));
        assert forall|j: int| 0 <= j < after.children.len() implies !(#[trigger] after.children[j]).node.occurs(
            target,
        ) by {
            if j != i {
                assert(after.children[j] == tree.children[j]);
            }
        }
    }
}

/// Replacing a node in place during the enter callback: where `path` leads to the
/// only node with the target's identity, and the replacement holds no node with
/// it, the visit leaves the replacement in the field that held that node, and the
/// node that was replaced is no longer in the tree.
pub proof fn lemma_replacement_in_place(
    before: ReplaceOnce,
    after: ReplaceOnce,
    tree: Tree,
    tree_after: Tree,
    trail: Seq<Ancestor>,
    path: Seq<int>,
)
    requires
        walked::<ReplaceOnce>(before, after, tree, tree_after, trail),
        before.replacement is Some,
        sole_at(tree, path, before.target),
        !before.replacement->0@.occurs(before.target),
        trail.len() + path.len() <= usize::MAX,
    ensures
        tree_after == tree.replaced(path, before.replacement->0@),
        tree_after.has_path(path),
        tree_after.subtree(path) == before.replacement->0@,
        !tree_after.occurs(before.target),
        after.replacement is None,
{
    lemma_replaced_walked(before, after, tree, tree_after, trail, path);
    lemma_replaced_is_without(tree, path, before.target, before.replacement->0@);
}

/// After a node was replaced in place, a new visit from the root goes through the
/// tree with the replacement in it: its records are those of that tree, and none of
/// them names the node that was replaced.
pub proof fn lemma_visit_after_replacement(
    before: ReplaceOnce,
    after: ReplaceOnce,
    tree: Tree,
    tree_after: Tree,
    path: Seq<int>,
    recorder: Recorder,
    recorder_after: Recorder,
    tree_revisited: Tree,
)
    requires
        walked::<ReplaceOnce>(before, after, tree, tree_after, seq![Ancestor::NoParent]),
        before.replacement is Some,
        sole_at(tree, path, before.target),
        !before.replacement->0@.occurs(before.target),
        1 + path.len() <= usize::MAX,
        walked::<Recorder>(
            recorder,
            recorder_after,
            tree_after,
            tree_revisited,
            seq![Ancestor::NoParent],
        ),
        fits(tree_after, seq![Ancestor::NoParent]),
    ensures
        tree_revisited == tree.replaced(path, before.replacement->0@),
        recorder_after.events@ == recorder.events@ + events_of(
            tree.replaced(path, before.replacement->0@),
            seq![Ancestor::NoParent],
        ),
        forall|k: int|
            recorder.events@.len() <= k < recorder_after.events@.len() ==> (
            #[trigger] recorder_after.events@[k]).node != before.target,
{
    let trail = seq![Ancestor::NoParent];
    lemma_replacement_in_place(before, after, tree, tree_after, trail, path);
    lemma_recorder_walked(recorder, recorder_after, tree_after, tree_revisited, trail);
    lemma_events_name_nodes(tree_after, trail);
    assert forall|k: int|
        recorder.events@.len() <= k < recorder_after.events@.len() implies (
    #[trigger] recorder_after.events@[k]).node != before.target by {
        assert(recorder_after.events@[k] == events_of(tree_after, trail)[k
            - recorder.events@.len()]);
    }
}

} // verus!
