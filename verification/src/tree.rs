//! An append-only arena of payload nodes joined by parent-to-child edges.
//!
//! Nodes are stored in insertion order and named by [`NodeHandle`]s, which are
//! plain indices. Nothing is ever removed, so a handle issued by a tree stays
//! valid for that tree. The mathematical picture of a tree is a
//! [`TreeModel`]: the sequence of payloads and, for every node, the sequence
//! of its children in insertion order.

use vstd::prelude::*;

verus! {

/// A stable index into a [`Tree`]: handles are compared by index and never reused.
#[derive(Debug, Clone, Copy, PartialEq, Eq, Structural)]
pub struct NodeHandle {
    node_id: usize,
}

impl NodeHandle {
    /// The position in the arena that this handle names.
    pub closed spec fn index(self) -> int {
        self.node_id as int
    }

    /// The handle that names position `index`.
    pub closed spec fn at(index: int) -> Self {
        NodeHandle { node_id: index as usize }
    }

    /// The handle that names position `node_id`.
    pub fn new(node_id: usize) -> (handle: Self)
        ensures
            handle == Self::at(node_id as int),
            handle.index() == node_id,
    {
        Self { node_id }
    }

    /// The position in the arena that this handle names.
    pub fn id(&self) -> (node_id: usize)
        ensures
            node_id == self.index(),
    {
        self.node_id
    }

    /// Two handles are the same handle exactly when they name the same position.
    pub proof fn equal_by_index(self, other: Self)
        ensures
            (self == other) <==> (self.index() == other.index()),
    {
    }

    /// `at` and `index` undo each other on the positions that a handle can name.
    pub proof fn at_index(index: int)
        requires
            0 <= index <= usize::MAX,
        ensures
            Self::at(index).index() == index,
    {
    }

    /// Every handle is the handle at its index.
    pub proof fn index_at(self)
        ensures
            Self::at(self.index()) == self,
            0 <= self.index() <= usize::MAX,
    {
    }
}

/// What a tree is, mathematically: the payloads in insertion order and, for
/// each node, the positions of its children in insertion order.
pub struct TreeModel<T> {
    pub payloads: Seq<T>,
    pub children: Seq<Seq<int>>,
}

impl<T> TreeModel<T> {
    /// The tree without any node.
    pub open spec fn empty() -> Self {
        TreeModel { payloads: Seq::empty(), children: Seq::empty() }
    }

    /// The number of nodes.
    pub open spec fn len(self) -> nat {
        self.payloads.len()
    }

    /// Every node has a child list, and every child names a node of this tree.
    pub open spec fn wf(self) -> bool {
        &&& self.children.len() == self.payloads.len()
        &&& forall|i: int, j: int|
            0 <= i < self.children.len() && 0 <= j < self.children[i].len() ==> 0
                <= #[trigger] self.children[i][j] < self.payloads.len()
    }

    /// Whether `handle` names a node of this tree.
    pub open spec fn contains(self, handle: NodeHandle) -> bool {
        handle.index() < self.payloads.len()
    }

    /// The tree with one more node, which has no children yet.
    pub open spec fn add_node(self, data: T) -> Self {
        TreeModel {
            payloads: self.payloads.push(data),
            children: self.children.push(Seq::empty()),
        }
    }

    /// The tree with `end` appended to the children of `start`.
    pub open spec fn add_edge(self, start: int, end: int) -> Self {
        TreeModel {
            payloads: self.payloads,
            children: self.children.update(start, self.children[start].push(end)),
        }
    }

    /// The edges that leave node `i`, as (parent, child) positions in insertion order.
    pub open spec fn edges_of(self, i: int) -> Seq<(int, int)> {
        Seq::new(self.children[i].len(), |j: int| (i, self.children[i][j]))
    }

    /// The edges that leave the first `n` nodes: node by node, and for each
    /// node child by child.
    pub open spec fn edges_before(self, n: int) -> Seq<(int, int)>
        decreases n,
    {
        if n <= 0 {
            Seq::empty()
        } else {
            self.edges_before(n - 1) + self.edges_of(n - 1)
        }
    }

    /// All edges of the tree, in the order in which a walk over the nodes and
    /// then over each node's children meets them.
    pub open spec fn edges(self) -> Seq<(int, int)> {
        self.edges_before(self.payloads.len() as int)
    }

    /// The edges before a node begin with the edges before any node that stands before it.
    pub proof fn edges_before_grows(self, m: int, n: int)
        requires
            0 <= m <= n,
        ensures
            self.edges_before(m).len() <= self.edges_before(n).len(),
            self.edges_before(m) == self.edges_before(n).subrange(
                0,
                self.edges_before(m).len() as int,
            ),
        decreases n - m,
    {
        if m < n {
            self.edges_before_grows(m, n - 1);
        }
    }

    /// The `j`-th child of node `i` gives the edge that stands `j` places after
    /// the edges of the nodes before `i`.
    pub proof fn edge_at(self, i: int, j: int)
        requires
            0 <= i < self.len(),
            0 <= j < self.children[i].len(),
        ensures
            self.edges_before(i).len() + j < self.edges().len(),
            self.edges()[self.edges_before(i).len() + j] == (i, self.children[i][j]),
    {
        self.edges_before_grows(i + 1, self.len() as int);
        let upto = self.edges_before(i + 1);
        let k = self.edges_before(i).len() + j;
        assert(self.edges().subrange(0, upto.len() as int)[k] == self.edges()[k]);
    }

    /// A new node keeps a well-formed tree well-formed.
    pub proof fn add_node_keeps_wf(self, data: T)
        requires
            self.wf(),
        ensures
            self.add_node(data).wf(),
            self.add_node(data).len() == self.len() + 1,
    {
    }

    /// An edge between two nodes of a well-formed tree keeps it well-formed.
    pub proof fn add_edge_keeps_wf(self, start: int, end: int)
        requires
            self.wf(),
            0 <= start < self.len(),
            0 <= end < self.len(),
        ensures
            self.add_edge(start, end).wf(),
            self.add_edge(start, end).len() == self.len(),
    {
    }

    /// Whether the tree is a chain of `n` edges: node 0 leads to node 1,
    /// node 1 to node 2, and so on up to node `n`, which leads nowhere.
    pub open spec fn is_chain(self, n: nat) -> bool {
        &&& self.payloads.len() == n + 1
        &&& self.children.len() == n + 1
        &&& forall|i: int| 0 <= i < n ==> #[trigger] self.children[i] == seq![i + 1]
        &&& self.children[n as int] == Seq::<int>::empty()
    }

    /// The edges of a chain, in order, go from each node to the next one, so
    /// that every edge starts where the edge before it ends.
    pub proof fn chain_edges(self, n: nat)
        requires
            self.is_chain(n),
        ensures
            self.edges() == Seq::new(n, |i: int| (i, i + 1)),
    {
        self.chain_edges_before(n, n as int);
    }

    /// The edges that leave the first `k` nodes of a chain.
    proof fn chain_edges_before(self, n: nat, k: int)
        requires
            self.is_chain(n),
            0 <= k <= n,
        ensures
            self.edges_before(k) == Seq::new(k as nat, |i: int| (i, i + 1)),
        decreases k,
    {
        if k > 0 {
            self.chain_edges_before(n, k - 1);
        }
    }

    /// Whether some node has `node` as one of its children.
    pub open spec fn has_parent(self, node: int) -> bool {
        exists|i: int, j: int|
            0 <= i < self.children.len() && 0 <= j < self.children[i].len()
                && #[trigger] self.children[i][j] == node
    }

    /// Whether the nodes form one tree under the first node: every child was
    /// added after its parent, so that the first node is nobody's child, and
    /// every other node is the child of exactly one node, once.
    pub open spec fn is_rooted(self) -> bool {
        &&& self.wf()
        &&& forall|i: int, j: int|
            0 <= i < self.children.len() && 0 <= j < self.children[i].len() ==> i
                < #[trigger] self.children[i][j]
        &&& forall|i: int, j: int, k: int, l: int|
            0 <= i < self.children.len() && 0 <= j < self.children[i].len() && 0 <= k
                < self.children.len() && 0 <= l < self.children[k].len()
                && #[trigger] self.children[i][j] == #[trigger] self.children[k][l] ==> i == k
                && j == l
        &&& forall|node: int| 1 <= node < self.len() ==> #[trigger] self.has_parent(node)
    }

    /// A new node that is joined to a node of a rooted tree, as its child,
    /// leaves the tree rooted.
    pub proof fn grown_stays_rooted(self, data: T, parent: int)
        requires
            self.is_rooted(),
            0 <= parent < self.len(),
        ensures
            self.add_node(data).add_edge(parent, self.len() as int).is_rooted(),
    {
        let n = self.len() as int;
        let after = self.add_node(data).add_edge(parent, n);
        self.add_node_keeps_wf(data);
        self.add_node(data).add_edge_keeps_wf(parent, n);
        let last = self.children[parent].len() as int;
        assert forall|node: int| 1 <= node < after.len() implies #[trigger] after.has_parent(
            node,
        ) by {
            if node == n {
                assert(after.children[parent][last] == node);
            } else {
                assert(self.has_parent(node));
                let (i, j) = choose|i: int, j: int|
                    0 <= i < self.children.len() && 0 <= j < self.children[i].len()
                        && #[trigger] self.children[i][j] == node;
                assert(after.children[i][j] == node);
            }
        }
    }

    /// Every edge of a well-formed tree joins two nodes of the tree.
    pub proof fn edges_in_range(self, n: int, k: int)
        requires
            self.wf(),
            0 <= n <= self.len(),
            0 <= k < self.edges_before(n).len(),
        ensures
            0 <= self.edges_before(n)[k].0 < n,
            0 <= self.edges_before(n)[k].1 < self.len(),
        decreases n,
    {
        if n > 0 {
            let head = self.edges_before(n - 1);
            if k < head.len() {
                self.edges_in_range(n - 1, k);
            }
        }
    }
}

/// A payload together with the handles of its children.
pub struct Node<T> {
    children: Vec<NodeHandle>,
    data: T,
}

impl<T> Node<T> {
    /// The payload.
    pub closed spec fn payload(&self) -> T {
        self.data
    }

    /// The positions that the child handles name, in insertion order.
    pub closed spec fn links(&self) -> Seq<int> {
        Seq::new(self.children@.len(), |j: int| self.children@[j].index())
    }

    /// A node that holds `data` and has no children.
    pub fn new(data: T) -> (node: Self)
        ensures
            node.payload() == data,
            node.links() == Seq::<int>::empty(),
    {
        Node { children: Vec::new(), data }
    }

    /// Appends `child` to the children.
    fn add_child(&mut self, child: NodeHandle)
        ensures
            final(self).payload() == old(self).payload(),
            final(self).links() == old(self).links().push(child.index()),
    {
        self.children.push(child);
    }
}

/// One edge of a tree: the payloads at its two ends.
pub struct Edge<'a, T> {
    pub start: &'a T,
    pub end: &'a T,
}

/// The arena. It owns every payload; handles only name positions in it.
pub struct Tree<T> {
    nodes: Vec<Node<T>>,
}

impl<T> View for Tree<T> {
    type V = TreeModel<T>;

    closed spec fn view(&self) -> TreeModel<T> {
        model_of(self.nodes@)
    }
}

impl<T> Default for Tree<T> {
    fn default() -> (tree: Tree<T>)
        ensures
            tree@ == TreeModel::<T>::empty(),
    {
        let tree = Self { nodes: Vec::new() };
        proof {
            assert(tree@.payloads =~= Seq::empty());
            assert(tree@.children =~= Seq::empty());
        }
        tree
    }
}

/// The model of a node store: what [`Tree::view`] says of a tree that holds it.
spec fn model_of<T>(nodes: Seq<Node<T>>) -> TreeModel<T> {
    TreeModel {
        payloads: Seq::new(nodes.len(), |i: int| nodes[i].payload()),
        children: Seq::new(nodes.len(), |i: int| nodes[i].links()),
    }
}

impl<T> Tree<T> {
    #[verifier::type_invariant]
    spec fn children_in_range(self) -> bool {
        model_of(self.nodes@).wf()
    }

    /// Moves the node store out, leaving an empty one behind.
    fn take_nodes(&mut self) -> (nodes: Vec<Node<T>>)
        ensures
            nodes == old(self).nodes,
            final(self).nodes@.len() == 0,
    {
        let mut nodes = Vec::new();
        core::mem::swap(&mut self.nodes, &mut nodes);
        nodes
    }

    /// The number of nodes.
    pub fn len(&self) -> (n: usize)
        ensures
            n == self@.len(),
            self@.wf(),
    {
        proof {
            use_type_invariant(self);
        }
        self.nodes.len()
    }

    /// Whether `handle` names a node of this tree.
    pub fn contains(&self, handle: NodeHandle) -> (found: bool)
        ensures
            found == self@.contains(handle),
    {
        handle.node_id < self.nodes.len()
    }

    /// Stores `data` as a new node without children and returns its handle.
    pub fn add_node(&mut self, data: T) -> (handle: NodeHandle)
        ensures
            final(self)@ == old(self)@.add_node(data),
            handle == NodeHandle::at(old(self)@.len() as int),
            handle.index() == old(self)@.len(),
            final(self)@.wf(),
    {
        proof {
            use_type_invariant(&*self);
        }
        let mut nodes = self.take_nodes();
        let handle = NodeHandle::new(nodes.len());
        nodes.push(Node::new(data));
        proof {
            let before = old(self)@;
            let after = model_of(nodes@);
            assert(after.payloads =~= before.payloads.push(data));
            assert(after.children =~= before.children.push(Seq::empty()));
        }
        self.nodes = nodes;
        handle
    }

    /// Appends `end` to the children of `start`.
    pub fn add_edge(&mut self, start: NodeHandle, end: NodeHandle)
        requires
            old(self)@.contains(start),
            old(self)@.contains(end),
        ensures
            final(self)@ == old(self)@.add_edge(start.index(), end.index()),
            final(self)@.wf(),
    {
        proof {
            use_type_invariant(&*self);
        }
        let mut nodes = self.take_nodes();
        nodes[start.node_id].add_child(end);
        proof {
            let before = old(self)@;
            let after = model_of(nodes@);
            assert(after.payloads =~= before.payloads);
            assert(after.children =~= before.children.update(
                start.index(),
                before.children[start.index()].push(end.index()),
            ));
        }
        self.nodes = nodes;
    }

    /// The payload of the node that `node` names.
    pub fn get(&self, node: NodeHandle) -> (data: &T)
        requires
            self@.contains(node),
        ensures
            *data == self@.payloads[node.index()],
    {
        &self.nodes[node.node_id].data
    }

    /// A walk over the edges, from the first one. Nothing is computed until
    /// [`Edges::next`] asks for an edge, and every call starts a new walk.
    pub fn edges(&self) -> (walk: Edges<'_, T>)
        ensures
            walk.tree() == self@,
            walk.position() == 0,
    {
        Edges { tree: self, node: 0, child: 0 }
    }
}

/// A walk over the edges of a tree, in the order of [`TreeModel::edges`]:
/// node by node, and for each node child by child.
pub struct Edges<'a, T> {
    tree: &'a Tree<T>,
    node: usize,
    child: usize,
}

impl<'a, T> Edges<'a, T> {
    #[verifier::type_invariant]
    spec fn in_bounds(self) -> bool {
        let links = self.tree@.children;
        &&& self.node <= links.len()
        &&& self.node < links.len() ==> self.child <= links[self.node as int].len()
        &&& self.node == links.len() ==> self.child == 0
    }

    /// The tree that is walked.
    pub closed spec fn tree(&self) -> TreeModel<T> {
        self.tree@
    }

    /// How many edges the walk has handed out.
    pub closed spec fn position(&self) -> nat {
        (self.tree@.edges_before(self.node as int).len() + self.child) as nat
    }

    /// The next edge of the walk, or `None` once every edge was handed out.
    pub fn next(&mut self) -> (edge: Option<Edge<'a, T>>)
        ensures
            final(self).tree() == old(self).tree(),
            old(self).position() <= old(self).tree().edges().len(),
            match edge {
                Some(e) => {
                    let (start, end) = old(self).tree().edges()[old(self).position() as int];
                    &&& old(self).position() < old(self).tree().edges().len()
                    &&& final(self).position() == old(self).position() + 1
                    &&& *e.start == old(self).tree().payloads[start]
                    &&& *e.end == old(self).tree().payloads[end]
                },
                None => {
                    &&& old(self).position() == old(self).tree().edges().len()
                    &&& final(self).position() == old(self).position()
                },
            },
    {
        proof {
            use_type_invariant(&*self);
            use_type_invariant(self.tree);
        }
        let tree = self.tree;
        let ghost model = tree@;
        let mut node = self.node;
        let mut child = self.child;
        while node < tree.nodes.len() && child == tree.nodes[node].children.len()
            invariant
                model == tree@,
                model.wf(),
                node <= model.len(),
                node < model.len() ==> child <= model.children[node as int].len(),
                node == model.len() ==> child == 0,
                model.edges_before(node as int).len() + child == old(self).position(),
            decreases model.len() - node,
        {
            node += 1;
            child = 0;
        }
        if node < tree.nodes.len() {
            let target = tree.nodes[node].children[child];
            proof {
                model.edge_at(node as int, child as int);
            }
            let edge = Edge { start: &tree.nodes[node].data, end: &tree.nodes[target.node_id].data };
            *self = Edges { tree, node, child: child + 1 };
            Some(edge)
        } else {
            *self = Edges { tree, node, child };
            None
        }
    }
}

} // verus!
