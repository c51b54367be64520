//! The node family as the traversal sees it: a tree of tagged nodes, each owning
//! its children, and the mathematical model of such a tree.

use vstd::prelude::*;

verus! {

/// The discriminant reserved for the empty placeholder variant.
pub const PLACEHOLDER_KIND: u8 = 0;

/// A node of the tree. It owns its children; nothing else refers to them.
#[derive(Debug, PartialEq, Eq)]
pub struct Node {
    /// The identity of the node, by which ancestor records name it.
    pub id: u64,
    /// The discriminant of the node's variant.
    pub kind: u8,
    /// The children, in the order of the fields that hold them.
    pub children: Vec<Child>,
}

/// A child together with the selector of the parent's field that holds it.
#[derive(Debug, PartialEq, Eq)]
pub struct Child {
    pub field: u8,
    pub node: Node,
}

/// The mathematical model of a node and everything below it.
pub struct Tree {
    pub id: u64,
    pub kind: u8,
    pub children: Seq<Branch>,
}

/// The model of a child: the field selector and the subtree.
pub struct Branch {
    pub field: u8,
    pub node: Tree,
}

impl View for Node {
    type V = Tree;

    open spec fn view(&self) -> Tree
        decreases self, 0nat,
    {
        Tree {
            id: self.id,
            kind: self.kind,
            children: view_first(self.children, self.children.len() as nat),
        }
    }
}

/// The models of the first `n` children in `children`.
pub open spec fn view_first(children: Vec<Child>, n: nat) -> Seq<Branch>
    decreases children, n,
{
    if n == 0 || n > children.len() {
        Seq::empty()
    } else {
        view_first(children, (n - 1) as nat).push(children[n - 1].view())
    }
}

impl View for Child {
    type V = Branch;

    open spec fn view(&self) -> Branch
        decreases self, 0nat,
    {
        Branch { field: self.field, node: self.node.view() }
    }
}

/// The models of the first `n` children, one by one.
pub proof fn lemma_view_first(children: Vec<Child>, n: nat)
    requires
        n <= children.len(),
    ensures
        view_first(children, n).len() == n,
        forall|i: int| 0 <= i < n ==> #[trigger] view_first(children, n)[i] == children[i]@,
    decreases n,
{
    if n > 0 {
        lemma_view_first(children, (n - 1) as nat);
        assert(view_first(children, n) == view_first(children, (n - 1) as nat).push(children[n
            - 1]@));
    } else {
        assert(view_first(children, 0) == Seq::<Branch>::empty());
    }
}

impl Node {
    /// A node without children.
    pub fn new(id: u64, kind: u8) -> (node: Node)
        ensures
            node@ == (Tree { id, kind, children: Seq::empty() }),
    {
        let node = Node { id, kind, children: Vec::new() };
        proof {
            node.lemma_view();
            assert(node@.children =~= Seq::empty());
        }
        node
    }

    /// The empty placeholder: what stands in a node's place while the node is
    /// detached from its tree.
    pub fn placeholder() -> (node: Node)
        ensures
            node@ == (Tree { id: 0, kind: PLACEHOLDER_KIND, children: Seq::empty() }),
    {
        Node::new(0, PLACEHOLDER_KIND)
    }

    /// Whether this node is of the placeholder variant.
    pub fn is_placeholder(&self) -> (b: bool)
        ensures
            b == (self@.kind == PLACEHOLDER_KIND),
    {
        proof {
            self.lemma_view();
        }
        self.kind == PLACEHOLDER_KIND
    }

    /// Adds `child` as the last child, held by the field `field`.
    pub fn push_child(&mut self, field: u8, child: Node)
        ensures
            final(self)@ == (Tree {
                id: old(self)@.id,
                kind: old(self)@.kind,
                children: old(self)@.children.push(Branch { field, node: child@ }),
            }),
    {
        proof {
            self.lemma_view();
        }
        let ghost before = self@;
        self.children.push(Child { field, node: child });
        proof {
            self.lemma_view();
            assert(self@.children =~= before.children.push(Branch { field, node: child@ }));
        }
    }

    /// Detaches this node from its place, leaving the placeholder there.
    pub fn take(&mut self) -> (node: Node)
        ensures
            node@ == old(self)@,
            final(self)@ == (Tree { id: 0, kind: PLACEHOLDER_KIND, children: Seq::empty() }),
    {
        let mut node = Node::placeholder();
        std::mem::swap(self, &mut node);
        node
    }

    /// The model of a node, field by field.
    pub proof fn lemma_view(&self)
        ensures
            self@.id == self.id,
            self@.kind == self.kind,
            self@.children.len() == self.children.len(),
            forall|i: int|
                0 <= i < self.children.len() ==> #[trigger] self@.children[i]
                    == self.children[i]@,
    {
        lemma_view_first(self.children, self.children.len() as nat);
    }
}

impl Tree {
    /// The number of edges on the longest way down from this node.
    pub open spec fn height(self) -> nat
        decreases self, 1nat, 0nat,
    {
        self.height_through(self.children.len())
    }

    /// The number of edges on the longest way down from this node through one of
    /// its first `n` children.
    pub open spec fn height_through(self, n: nat) -> nat
        decreases self, 0nat, n,
    {
        if n == 0 || n > self.children.len() {
            0
        } else {
            let before = self.height_through((n - 1) as nat);
            let here = 1 + self.children[n - 1].node.height();
            if before >= here {
                before
            } else {
                here
            }
        }
    }

    /// Whether a node with identity `id` is in this tree.
    pub open spec fn occurs(self, id: u64) -> bool
        decreases self,
    {
        self.id == id || exists|i: int|
            0 <= i < self.children.len() && (#[trigger] self.children[i]).node.occurs(id)
    }

    /// Whether `path`, a list of child positions, leads from this node to a node of
    /// this tree.
    pub open spec fn has_path(self, path: Seq<int>) -> bool
        decreases path.len(),
    {
        path.len() == 0 || (0 <= path[0] < self.children.len() && self.children[path[0]].node.has_path(
            path.drop_first(),
        ))
    }

    /// The subtree that `path` leads to.
    pub open spec fn subtree(self, path: Seq<int>) -> Tree
        decreases path.len(),
    {
        if path.len() == 0 || !(0 <= path[0] < self.children.len()) {
            self
        } else {
            self.children[path[0]].node.subtree(path.drop_first())
        }
    }

    /// This tree with the subtree that `path` leads to replaced by `new`; the field
    /// that holds it stays the same.
    pub open spec fn replaced(self, path: Seq<int>, new: Tree) -> Tree
        decreases path.len(),
    {
        if path.len() == 0 {
            new
        } else if !(0 <= path[0] < self.children.len()) {
            self
        } else {
            let branch = self.children[path[0]];
            Tree {
                id: self.id,
                kind: self.kind,
                children: self.children.update(
                    path[0],
                    Branch { field: branch.field, node: branch.node.replaced(path.drop_first(), new) },
                ),
            }
        }
    }

    /// The identities of the nodes, each node before its children, the children in
    /// order.
    pub open spec fn preorder(self) -> Seq<u64>
        decreases self, 1nat, 0nat,
    {
        seq![self.id] + self.preorder_through(self.children.len())
    }

    /// The preorder of the first `n` children, one after the other.
    pub open spec fn preorder_through(self, n: nat) -> Seq<u64>
        decreases self, 0nat, n,
    {
        if n == 0 || n > self.children.len() {
            Seq::empty()
        } else {
            self.preorder_through((n - 1) as nat) + self.children[n - 1].node.preorder()
        }
    }

    /// The identities of the nodes, each node after its children, the children in
    /// order.
    pub open spec fn postorder(self) -> Seq<u64>
        decreases self, 1nat, 0nat,
    {
        self.postorder_through(self.children.len()) + seq![self.id]
    }

    /// The postorder of the first `n` children, one after the other.
    pub open spec fn postorder_through(self, n: nat) -> Seq<u64>
        decreases self, 0nat, n,
    {
        if n == 0 || n > self.children.len() {
            Seq::empty()
        } else {
            self.postorder_through((n - 1) as nat) + self.children[n - 1].node.postorder()
        }
    }

    /// A node is higher than each of its children.
    pub proof fn lemma_height_above_child(self, i: int)
        requires
            0 <= i < self.children.len(),
        ensures
            self.height() >= 1 + self.children[i].node.height(),
    {
        self.lemma_height_through(self.children.len(), i);
    }

    /// The height through the first `n` children is above each of them, and does
    /// not shrink when more children count.
    pub proof fn lemma_height_through(self, n: nat, i: int)
        requires
            0 <= i < n <= self.children.len(),
        ensures
            self.height_through(n) >= 1 + self.children[i].node.height(),
        decreases n,
    {
        if i < n - 1 {
            self.lemma_height_through((n - 1) as nat, i);
        }
    }
}

} // verus!
