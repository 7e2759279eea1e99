use vstd::prelude::*;
use crate::store::Entity;

verus! {

/// One widget of the tree: its parent and its ordered children.
#[derive(Debug)]
pub struct Node {
    pub parent: Option<Entity>,
    pub children: Vec<Entity>,
}

/// Mathematical model of a node.
pub struct NodeModel {
    pub parent: Option<Entity>,
    pub children: Seq<Entity>,
}

impl View for Node {
    type V = NodeModel;

    open spec fn view(&self) -> NodeModel {
        NodeModel { parent: self.parent, children: self.children@ }
    }
}

/// Parent / child adjacency over entities, indexed by entity id. A child is
/// always created after its parent, so the tree has no cycle.
pub struct Tree {
    nodes: Vec<Node>,
}

pub type TreeModel = Seq<NodeModel>;

/// Every parent has a smaller id than its children, and the two directions
/// of the adjacency agree.
pub open spec fn tree_wf(t: TreeModel) -> bool {
    &&& forall|i: int|
        0 <= i < t.len() ==> ((#[trigger] t[i]).parent matches Some(p) ==> (p.0 as int) < i)
    &&& forall|i: int, k: int|
        0 <= i < t.len() && 0 <= k < t[i].children.len() ==> {
            let c = #[trigger] t[i].children[k];
            &&& i < c.0 < t.len()
            &&& t[c.0 as int].parent == Some(Entity(i as u32))
        }
}

/// The tree after a node is added under `parent`.
pub open spec fn grown(t: TreeModel, parent: Option<Entity>) -> TreeModel {
    let c = Entity(t.len() as u32);
    let t1 = match parent {
        Some(p) => t.update(
            p.0 as int,
            NodeModel { parent: t[p.0 as int].parent, children: t[p.0 as int].children.push(c) },
        ),
        None => t,
    };
    t1.push(NodeModel { parent, children: Seq::empty() })
}

impl View for Tree {
    type V = TreeModel;

    closed spec fn view(&self) -> TreeModel {
        Seq::new(self.nodes@.len(), |i: int| self.nodes@[i]@)
    }
}

impl Tree {
    pub closed spec fn wf(&self) -> bool {
        tree_wf(self@)
    }

    /// An empty tree.
    pub fn new() -> (r: Tree)
        ensures
            r.wf(),
            r@ == Seq::<NodeModel>::empty(),
    {
        let r = Tree { nodes: Vec::new() };
        assert(r@ =~= Seq::<NodeModel>::empty());
        r
    }

    /// The number of nodes.
    pub fn len(&self) -> (n: usize)
        ensures
            n == self@.len(),
    {
        self.nodes.len()
    }

    /// Adds a node, the last child of `parent`; its id is the number of nodes
    /// before it.
    pub fn add(&mut self, parent: Option<Entity>) -> (e: Entity)
        requires
            old(self).wf(),
            old(self)@.len() < u32::MAX,
            parent matches Some(p) ==> (p.0 as int) < old(self)@.len(),
        ensures
            final(self).wf(),
            e.0 == old(self)@.len(),
            final(self)@ == grown(old(self)@, parent),
    {
        let e = Entity(self.nodes.len() as u32);
        let ghost t = self@;
        match parent {
            Some(p) => {
                let mut n = Node { parent: None, children: Vec::new() };
                self.nodes.set_and_swap(p.0 as usize, &mut n);
                n.children.push(e);
                self.nodes.set_and_swap(p.0 as usize, &mut n);
            },
            None => {},
        }
        self.nodes.push(Node { parent, children: Vec::new() });
        assert(self@ =~= grown(t, parent));
        assert(tree_wf(self@)) by {
            let t2 = self@;
            assert forall|i: int, k: int|
                0 <= i < t2.len() && 0 <= k < t2[i].children.len() implies {
                    let c = #[trigger] t2[i].children[k];
                    &&& i < c.0 < t2.len()
                    &&& t2[c.0 as int].parent == Some(Entity(i as u32))
                } by {
                if parent == Some(Entity(i as u32)) && k == t[i].children.len() {
                } else {
                    assert(t2[i].children[k] == t[i].children[k]);
                }
            }
        }
        e
    }

    /// The parent of `e`, if it has one.
    pub fn parent(&self, e: Entity) -> (r: Option<Entity>)
        requires
            self.wf(),
            (e.0 as int) < self@.len(),
        ensures
            r == self@[e.0 as int].parent,
            r matches Some(p) ==> p.0 < e.0,
    {
        self.nodes[e.0 as usize].parent
    }

    /// The children of `e`, in order.
    pub fn children(&self, e: Entity) -> (r: &Vec<Entity>)
        requires
            (e.0 as int) < self@.len(),
        ensures
            r@ == self@[e.0 as int].children,
    {
        &self.nodes[e.0 as usize].children
    }
}


/// Children keep the order in which they were added: adding `a` and then
/// `b` under `p` puts `a` just before `b` at the end of `p`'s children.
pub proof fn lemma_children_in_order(t: TreeModel, p: Entity)
    requires
        tree_wf(t),
        (p.0 as int) < t.len(),
        t.len() + 1 < u32::MAX,
    ensures
        ({
            let a = Entity(t.len() as u32);
            let b = Entity((t.len() + 1) as u32);
            grown(grown(t, Some(p)), Some(p))[p.0 as int].children == t[p.0 as int].children.push(a).push(b)
        }),
{
}

} // verus!
