//! The expression graph: an arena of immutable nodes addressed by integer
//! handles. A child always has a smaller handle than its parent, so every
//! graph is acyclic by construction, and a node referenced from several
//! parents is shared rather than copied.

use vstd::prelude::*;

use crate::dtype::{ComponentFn, ComponentInfixOp, DataType};
use crate::inputs::ExternInputId;
use crate::value::Value;

verus! {

/// The handle of a node within its graph.
pub type NodeId = usize;

/// One operation of the expression language. Children are handles into the
/// same graph.
#[derive(Debug, Clone)]
pub enum Node {
    /// A named external input, with the type this occurrence claims for it.
    ExternInput(ExternInputId, DataType),
    /// A literal value.
    Constant(Value),
    /// A vector assembled out of scalar children; the type gives the lane
    /// count.
    Make(Vec<NodeId>, DataType),
    /// A componentwise infix operator over two values of one type.
    ComponentInfixOp(NodeId, ComponentInfixOp, NodeId),
    /// A componentwise unary function.
    ComponentFn(ComponentFn, NodeId),
    /// The lane of the first child selected by the floor of the second,
    /// clamped to the valid lanes.
    GetComponent(NodeId, NodeId),
    /// The dot product of two values of one type.
    Dot(NodeId, NodeId),
}

impl Node {
    /// Well-formedness of one node standing at handle `i`: every child
    /// handle is smaller than `i`.
    pub open spec fn wf_at(self, i: int) -> bool {
        match self {
            Node::ExternInput(..) => true,
            Node::Constant(..) => true,
            Node::Make(kids, _) => forall|j: int|
                0 <= j < kids@.len() ==> ((#[trigger] kids@[j]) as int) < i,
            Node::ComponentInfixOp(a, _, b) => (a as int) < i && (b as int) < i,
            Node::ComponentFn(_, a) => (a as int) < i,
            Node::GetComponent(a, b) => (a as int) < i && (b as int) < i,
            Node::Dot(a, b) => (a as int) < i && (b as int) < i,
        }
    }
}

/// A `Make` node that is well formed at `i` has all its children below `i`.
pub proof fn lemma_make_child_bound(n: Node, kids: Vec<NodeId>, dtype: DataType, i: int, j: int)
    requires
        n == Node::Make(kids, dtype),
        n.wf_at(i),
        0 <= j < kids@.len(),
    ensures
        (kids@[j] as int) < i,
{
    match n {
        Node::Make(k2, _) => {
            assert(k2 == kids);
            assert((k2@[j] as int) < i);
        },
        _ => {},
    }
}

/// An expression graph. Nodes are built bottom-up; handles are stable and
/// never reused, and handing the same handle to two parents shares the node.
#[derive(Debug, Clone)]
pub struct NodeGraph {
    pub nodes: Vec<Node>,
}

impl NodeGraph {
    /// Every node's children stand strictly before it: the graph is a DAG.
    pub open spec fn wf(&self) -> bool {
        forall|i: int| 0 <= i < self.nodes@.len() ==> (#[trigger] self.nodes@[i]).wf_at(i)
    }

    pub open spec fn len_spec(&self) -> nat {
        self.nodes@.len()
    }

    pub open spec fn node_at(&self, i: int) -> Node {
        self.nodes@[i]
    }

    pub fn new() -> (r: Self)
        ensures
            r.wf(),
            r.len_spec() == 0,
    {
        NodeGraph { nodes: Vec::new() }
    }

    /// How many nodes the graph holds; valid handles are smaller than this.
    pub fn len(&self) -> (n: usize)
        ensures
            n == self.len_spec(),
    {
        self.nodes.len()
    }

    /// The node at handle `i`.
    pub fn node(&self, i: NodeId) -> (n: &Node)
        requires
            i < self.len_spec(),
        ensures
            *n == self.node_at(i as int),
    {
        &self.nodes[i]
    }

    /// Appends `node` and returns its fresh handle. The children named by
    /// `node` must already stand in the graph.
    pub fn push_node(&mut self, node: Node) -> (id: NodeId)
        requires
            old(self).wf(),
            node.wf_at(old(self).len_spec() as int),
        ensures
            final(self).wf(),
            id == old(self).len_spec(),
            final(self).len_spec() == old(self).len_spec() + 1,
            final(self).nodes@ =~= old(self).nodes@.push(node),
    {
        let id = self.nodes.len();
        self.nodes.push(node);
        proof {
            assert forall|i: int| 0 <= i < self.nodes@.len() implies (
            #[trigger] self.nodes@[i]).wf_at(i) by {
                if i < id {
                    assert(old(self).nodes@[i].wf_at(i));
                }
            }
        }
        id
    }

    /// A named external input of the given type.
    pub fn extern_input(&mut self, id: ExternInputId, dtype: DataType) -> (r: NodeId)
        requires
            old(self).wf(),
        ensures
            final(self).wf(),
            r == old(self).len_spec(),
            final(self).nodes@ =~= old(self).nodes@.push(Node::ExternInput(id, dtype)),
    {
        self.push_node(Node::ExternInput(id, dtype))
    }

    /// A literal value.
    pub fn constant(&mut self, value: Value) -> (r: NodeId)
        requires
            old(self).wf(),
        ensures
            final(self).wf(),
            r == old(self).len_spec(),
            final(self).nodes@ =~= old(self).nodes@.push(Node::Constant(value)),
    {
        self.push_node(Node::Constant(value))
    }

    /// A vector assembled from scalar children.
    pub fn make(&mut self, children: Vec<NodeId>, dtype: DataType) -> (r: NodeId)
        requires
            old(self).wf(),
            forall|j: int| 0 <= j < children@.len() ==> (children@[j] as int) < old(
                self,
            ).len_spec(),
        ensures
            final(self).wf(),
            r == old(self).len_spec(),
            final(self).nodes@ =~= old(self).nodes@.push(Node::Make(children, dtype)),
    {
        self.push_node(Node::Make(children, dtype))
    }

    /// A componentwise infix operation.
    pub fn component_infix_op(&mut self, a: NodeId, op: ComponentInfixOp, b: NodeId) -> (r:
        NodeId)
        requires
            old(self).wf(),
            a < old(self).len_spec(),
            b < old(self).len_spec(),
        ensures
            final(self).wf(),
            r == old(self).len_spec(),
            final(self).nodes@ =~= old(self).nodes@.push(Node::ComponentInfixOp(a, op, b)),
    {
        self.push_node(Node::ComponentInfixOp(a, op, b))
    }

    /// A componentwise unary function.
    pub fn component_fn(&mut self, func: ComponentFn, a: NodeId) -> (r: NodeId)
        requires
            old(self).wf(),
            a < old(self).len_spec(),
        ensures
            final(self).wf(),
            r == old(self).len_spec(),
            final(self).nodes@ =~= old(self).nodes@.push(Node::ComponentFn(func, a)),
    {
        self.push_node(Node::ComponentFn(func, a))
    }

    /// The lane of `vector` selected by the floor of `index`, clamped.
    pub fn get_component(&mut self, vector: NodeId, index: NodeId) -> (r: NodeId)
        requires
            old(self).wf(),
            vector < old(self).len_spec(),
            index < old(self).len_spec(),
        ensures
            final(self).wf(),
            r == old(self).len_spec(),
            final(self).nodes@ =~= old(self).nodes@.push(Node::GetComponent(vector, index)),
    {
        self.push_node(Node::GetComponent(vector, index))
    }

    /// The dot product of two values of one type.
    pub fn dot(&mut self, a: NodeId, b: NodeId) -> (r: NodeId)
        requires
            old(self).wf(),
            a < old(self).len_spec(),
            b < old(self).len_spec(),
        ensures
            final(self).wf(),
            r == old(self).len_spec(),
            final(self).nodes@ =~= old(self).nodes@.push(Node::Dot(a, b)),
    {
        self.push_node(Node::Dot(a, b))
    }
}

} // verus!
