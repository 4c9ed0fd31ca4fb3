//! The sugar layer: a superset of the node language with convenience
//! operations (splat, normalize, swizzle), and its lowering to the plain
//! node language. Lowering is total and deterministic; each high node is
//! lowered exactly once, and every parent of a shared high node receives
//! the same lowered handle.

use vstd::prelude::*;

use crate::dtype::{ComponentFn, ComponentInfixOp, DataType};
use crate::graph::{Node, NodeGraph, NodeId};
use crate::inputs::ExternInputId;
use crate::value::Value;

verus! {

/// The handle of a high node within its graph.
pub type HighNodeId = usize;

/// The bit pattern of `0.5`, the exponent used to take a square root
/// through the `Power` builtin.
pub const HALF_BITS: u32 = 0x3F00_0000;

/// The bit pattern of the float for a small lane index.
pub open spec fn small_index_bits(i: int) -> u32 {
    if i == 0 {
        0
    } else if i == 1 {
        0x3F80_0000
    } else if i == 2 {
        0x4000_0000
    } else {
        0x4040_0000
    }
}

/// Exec computation of `small_index_bits`.
pub fn lane_index_bits(i: usize) -> (r: u32)
    requires
        i < 4,
    ensures
        r == small_index_bits(i as int),
{
    if i == 0 {
        0
    } else if i == 1 {
        0x3F80_0000
    } else if i == 2 {
        0x4000_0000
    } else {
        0x4040_0000
    }
}

/// One operation of the high-level language: every plain node operation,
/// plus the sugar forms.
#[derive(Debug, Clone)]
pub enum HighNode {
    ExternInput(ExternInputId, DataType),
    Constant(Value),
    Make(Vec<HighNodeId>, DataType),
    ComponentInfixOp(HighNodeId, ComponentInfixOp, HighNodeId),
    ComponentFn(ComponentFn, HighNodeId),
    GetComponent(HighNodeId, HighNodeId),
    Dot(HighNodeId, HighNodeId),
    /// `v` divided componentwise by the square root of `Dot(v, v)`.
    Normalize(HighNodeId, DataType),
    /// A vector of the given type whose lanes all hold one scalar.
    Splat(HighNodeId, DataType),
    /// Rearranges lanes: lane `i` of the result is the lane of
    /// `input_vector` selected by lane `i` of `component_vector`.
    Swizzle {
        input_vector: HighNodeId,
        component_vector: HighNodeId,
        input_vector_dtype: DataType,
        output_vector_dtype: DataType,
    },
}

impl HighNode {
    /// Well-formedness of one high node standing at handle `i`.
    pub open spec fn wf_at(self, i: int) -> bool {
        match self {
            HighNode::ExternInput(..) => true,
            HighNode::Constant(..) => true,
            HighNode::Make(kids, _) => forall|j: int|
                0 <= j < kids@.len() ==> ((#[trigger] kids@[j]) as int) < i,
            HighNode::ComponentInfixOp(a, _, b) => (a as int) < i && (b as int) < i,
            HighNode::ComponentFn(_, a) => (a as int) < i,
            HighNode::GetComponent(a, b) => (a as int) < i && (b as int) < i,
            HighNode::Dot(a, b) => (a as int) < i && (b as int) < i,
            HighNode::Normalize(v, _) => (v as int) < i,
            HighNode::Splat(x, _) => (x as int) < i,
            HighNode::Swizzle { input_vector, component_vector, .. } => (input_vector as int) < i
                && (component_vector as int) < i,
        }
    }
}

/// A graph of high nodes, built bottom-up like `NodeGraph`.
#[derive(Debug, Clone)]
pub struct HighGraph {
    pub nodes: Vec<HighNode>,
}

impl HighGraph {
    pub open spec fn wf(&self) -> bool {
        forall|i: int| 0 <= i < self.nodes@.len() ==> (#[trigger] self.nodes@[i]).wf_at(i)
    }

    pub open spec fn len_spec(&self) -> nat {
        self.nodes@.len()
    }

    pub fn new() -> (r: Self)
        ensures
            r.wf(),
            r.len_spec() == 0,
    {
        HighGraph { nodes: Vec::new() }
    }

    pub fn len(&self) -> (n: usize)
        ensures
            n == self.len_spec(),
    {
        self.nodes.len()
    }

    pub fn node(&self, i: HighNodeId) -> (n: &HighNode)
        requires
            i < self.len_spec(),
        ensures
            *n == self.nodes@[i as int],
    {
        &self.nodes[i]
    }

    /// Appends `node` under a fresh handle.
    pub fn push_node(&mut self, node: HighNode) -> (id: HighNodeId)
        requires
            old(self).wf(),
            node.wf_at(old(self).len_spec() as int),
        ensures
            final(self).wf(),
            id == old(self).len_spec(),
            final(self).nodes@ =~= old(self).nodes@.push(node),
    {
        let id = self.nodes.len();
        self.nodes.push(node);
        proof {
            assert forall|i: int| 0 <= i < self.nodes@.len() implies (
            #[trigger] self.nodes@[i]).wf_at(i) by {
                if i < id {
                    assert(old(self).nodes@[i].wf_at(i));
                }
            }
        }
        id
    }
}

/// A `Make` high node that is well formed at `i` has all its children
/// below `i`.
pub proof fn lemma_high_make_child_bound(
    n: HighNode,
    kids: Vec<HighNodeId>,
    dtype: DataType,
    i: int,
    j: int,
)
    requires
        n == HighNode::Make(kids, dtype),
        n.wf_at(i),
        0 <= j < kids@.len(),
    ensures
        (kids@[j] as int) < i,
{
    match n {
        HighNode::Make(k2, _) => {
            assert(k2 == kids);
            assert((k2@[j] as int) < i);
        },
        _ => {},
    }
}

/// The five-node chain that `Normalize(v, dtype)` lowers to: the squared
/// length, the constant one half, the square root through `Power`, its
/// splat, and the componentwise division.
pub open spec fn normalize_chain(
    out: Seq<Node>,
    mv: NodeId,
    dtype: DataType,
    target: NodeId,
    d: NodeId,
    hf: NodeId,
    p: NodeId,
    s: NodeId,
) -> bool {
    &&& (target as int) < out.len()
    &&& (d as int) < out.len()
    &&& (hf as int) < out.len()
    &&& (p as int) < out.len()
    &&& (s as int) < out.len()
    &&& out[d as int] == Node::Dot(mv, mv)
    &&& out[hf as int] == Node::Constant(Value::Scalar(HALF_BITS))
    &&& out[p as int] == Node::ComponentInfixOp(d, ComponentInfixOp::Power, hf)
    &&& match out[s as int] {
        Node::Make(k, dt) => dt == dtype && k@.len() == dtype.lane_count() && forall|j: int|
            0 <= j < k@.len() ==> k@[j] == p,
        _ => false,
    }
    &&& out[target as int] == Node::ComponentInfixOp(mv, ComponentInfixOp::Divide, s)
}

/// Packages the five facts of `normalize_chain` into the predicate.
proof fn lemma_normalize_chain_intro(
    out: Seq<Node>,
    mv: NodeId,
    dtype: DataType,
    target: NodeId,
    d: NodeId,
    hf: NodeId,
    p: NodeId,
    s: NodeId,
)
    requires
        (target as int) < out.len(),
        (d as int) < out.len(),
        (hf as int) < out.len(),
        (p as int) < out.len(),
        (s as int) < out.len(),
        out[d as int] == Node::Dot(mv, mv),
        out[hf as int] == Node::Constant(Value::Scalar(HALF_BITS)),
        out[p as int] == Node::ComponentInfixOp(d, ComponentInfixOp::Power, hf),
        match out[s as int] {
            Node::Make(k, dt) => dt == dtype && k@.len() == dtype.lane_count() && forall|j: int|
                0 <= j < k@.len() ==> k@[j] == p,
            _ => false,
        },
        out[target as int] == Node::ComponentInfixOp(mv, ComponentInfixOp::Divide, s),
    ensures
        normalize_chain(out, mv, dtype, target, d, hf, p, s),
{
}

/// The three-node chain that selects swizzle lane `i`: a constant index,
/// the lane of the component vector, and the lane of the input vector.
pub open spec fn swizzle_lane_chain(
    out: Seq<Node>,
    miv: NodeId,
    mcv: NodeId,
    lane: NodeId,
    i: int,
) -> bool {
    exists|ci: NodeId, inner: NodeId|
        #![trigger out[ci as int], out[inner as int]]
        {
            &&& (ci as int) < out.len()
            &&& (inner as int) < out.len()
            &&& (lane as int) < out.len()
            &&& out[ci as int] == Node::Constant(Value::Scalar(small_index_bits(i)))
            &&& out[inner as int] == Node::GetComponent(mcv, ci)
            &&& out[lane as int] == Node::GetComponent(miv, inner)
        }
}

/// How high node `h` is lowered: the node that `map[h]` names in `out`
/// mirrors the high node, with sugar forms expanded. Children go through
/// `map`, so a high node shared by several parents is lowered once and
/// shared.
pub open spec fn lowers_at(hi: Seq<HighNode>, out: Seq<Node>, map: Seq<NodeId>, h: int) -> bool {
    &&& (map[h] as int) < out.len()
    &&& match hi[h] {
        HighNode::ExternInput(id, dt) => match out[map[h] as int] {
            Node::ExternInput(id2, dt2) => id2@ == id@ && dt2 == dt,
            _ => false,
        },
        HighNode::Constant(v) => out[map[h] as int] == Node::Constant(v),
        HighNode::Make(kids, dt) => match out[map[h] as int] {
            Node::Make(k2, dt2) => dt2 == dt && k2@.len() == kids@.len() && forall|j: int|
                0 <= j < kids@.len() ==> k2@[j] == map[kids@[j] as int],
            _ => false,
        },
        HighNode::ComponentInfixOp(a, op, b) => out[map[h] as int] == Node::ComponentInfixOp(
            map[a as int],
            op,
            map[b as int],
        ),
        HighNode::ComponentFn(func, a) => out[map[h] as int] == Node::ComponentFn(
            func,
            map[a as int],
        ),
        HighNode::GetComponent(a, b) => out[map[h] as int] == Node::GetComponent(
            map[a as int],
            map[b as int],
        ),
        HighNode::Dot(a, b) => out[map[h] as int] == Node::Dot(map[a as int], map[b as int]),
        HighNode::Normalize(v, dt) => exists|d: NodeId, hf: NodeId, p: NodeId, s: NodeId|
            #[trigger] normalize_chain(out, map[v as int], dt, map[h], d, hf, p, s),
        HighNode::Splat(x, dt) => match out[map[h] as int] {
            Node::Make(k2, dt2) => dt2 == dt && k2@.len() == dt.lane_count() && forall|j: int|
                0 <= j < k2@.len() ==> k2@[j] == map[x as int],
            _ => false,
        },
        HighNode::Swizzle { input_vector, component_vector, output_vector_dtype, .. } => match
            out[map[h] as int] {
            Node::Make(k2, dt2) => dt2 == output_vector_dtype && k2@.len()
                == output_vector_dtype.lane_count() && forall|i: int|
                0 <= i < k2@.len() ==> swizzle_lane_chain(
                    out,
                    map[input_vector as int],
                    map[component_vector as int],
                    k2@[i],
                    i,
                ),
            _ => false,
        },
    }
}

/// `lowers_at` keeps holding when the lowered graph and the map grow.
proof fn lemma_lowers_at_frame(
    hi: Seq<HighNode>,
    out1: Seq<Node>,
    out2: Seq<Node>,
    map1: Seq<NodeId>,
    map2: Seq<NodeId>,
    h: int,
)
    requires
        0 <= h < hi.len(),
        h < map1.len(),
        hi[h].wf_at(h),
        map1.len() <= map2.len(),
        forall|i: int| 0 <= i < map1.len() ==> map2[i] == map1[i],
        out1.len() <= out2.len(),
        forall|i: int| 0 <= i < out1.len() ==> out2[i] == out1[i],
        lowers_at(hi, out1, map1, h),
    ensures
        lowers_at(hi, out2, map2, h),
{
    assert(map2[h] == map1[h]);
    assert(out2[map1[h] as int] == out1[map1[h] as int]);
    match hi[h] {
        HighNode::Normalize(v, dt) => {
            assert((v as int) < h);
            let (d, hf, p, s) = choose|d: NodeId, hf: NodeId, p: NodeId, s: NodeId|
                #[trigger] normalize_chain(out1, map1[v as int], dt, map1[h], d, hf, p, s);
            assert(normalize_chain(out2, map2[v as int], dt, map2[h], d, hf, p, s));
        },
        HighNode::Swizzle { input_vector, component_vector, output_vector_dtype, .. } => {
            match out1[map1[h] as int] {
                Node::Make(k2, _dt2) => {
                    assert forall|i: int| 0 <= i < k2@.len() implies swizzle_lane_chain(
                        out2,
                        map2[input_vector as int],
                        map2[component_vector as int],
                        k2@[i],
                        i,
                    ) by {
                        assert(swizzle_lane_chain(
                            out1,
                            map1[input_vector as int],
                            map1[component_vector as int],
                            k2@[i],
                            i,
                        ));
                        let (ci, inner) = choose|ci: NodeId, inner: NodeId|
                            #![trigger out1[ci as int], out1[inner as int]]
                            {
                                &&& (ci as int) < out1.len()
                                &&& (inner as int) < out1.len()
                                &&& (k2@[i] as int) < out1.len()
                                &&& out1[ci as int] == Node::Constant(
                                    Value::Scalar(small_index_bits(i)),
                                )
                                &&& out1[inner as int] == Node::GetComponent(
                                    map1[component_vector as int],
                                    ci,
                                )
                                &&& out1[k2@[i] as int] == Node::GetComponent(
                                    map1[input_vector as int],
                                    inner,
                                )
                            };
                        assert((ci as int) < out2.len() && out2[ci as int] == Node::Constant(
                            Value::Scalar(small_index_bits(i)),
                        ));
                        assert(out2[inner as int] == Node::GetComponent(
                            map2[component_vector as int],
                            ci,
                        ));
                        assert(out2[k2@[i] as int] == Node::GetComponent(
                            map2[input_vector as int],
                            inner,
                        ));
                    }
                },
                _ => {},
            }
        },
        _ => {},
    }
}

/// `swizzle_lane_chain` keeps holding when the lowered graph grows.
proof fn lemma_swizzle_lane_frame(
    out1: Seq<Node>,
    out2: Seq<Node>,
    miv: NodeId,
    mcv: NodeId,
    lane: NodeId,
    i: int,
)
    requires
        out1.len() <= out2.len(),
        forall|k: int| 0 <= k < out1.len() ==> out2[k] == out1[k],
        swizzle_lane_chain(out1, miv, mcv, lane, i),
    ensures
        swizzle_lane_chain(out2, miv, mcv, lane, i),
{
    let (ci, inner) = choose|ci: NodeId, inner: NodeId|
        #![trigger out1[ci as int], out1[inner as int]]
        {
            &&& (ci as int) < out1.len()
            &&& (inner as int) < out1.len()
            &&& (lane as int) < out1.len()
            &&& out1[ci as int] == Node::Constant(Value::Scalar(small_index_bits(i)))
            &&& out1[inner as int] == Node::GetComponent(mcv, ci)
            &&& out1[lane as int] == Node::GetComponent(miv, inner)
        };
    assert(out2[ci as int] == Node::Constant(Value::Scalar(small_index_bits(i))));
    assert(out2[inner as int] == Node::GetComponent(mcv, ci));
    assert(out2[lane as int] == Node::GetComponent(miv, inner));
}

/// Lowers every high node up to and including `root` into a plain node
/// graph. The returned map sends each high handle to its lowered handle:
/// each high node is lowered exactly once, and every parent of a shared
/// high node receives the same lowered handle.
#[verifier::rlimit(100)]
pub fn convert_graph(high: &HighGraph, root: HighNodeId) -> (r: (NodeGraph, Vec<NodeId>))
    requires
        high.wf(),
        root < high.len_spec(),
    ensures
        r.0.wf(),
        r.1@.len() == root + 1,
        forall|h: int| 0 <= h <= root as int ==> lowers_at(high.nodes@, r.0.nodes@, r.1@, h),
{
    let hl = high.len();
    let mut out = NodeGraph::new();
    let mut map: Vec<NodeId> = Vec::new();
    let mut h: usize = 0;
    while h <= root
        invariant
            high.wf(),
            root < high.len_spec(),
            hl == high.len_spec(),
            root < hl,
            out.wf(),
            map@.len() == h,
            h <= root + 1,
            forall|k: int| 0 <= k < h ==> lowers_at(high.nodes@, out.nodes@, map@, k),
        decreases root + 1 - h,
    {
        let ghost pre_out = out.nodes@;
        let ghost pre_map = map@;
        proof {
            assert(high.nodes@[h as int].wf_at(h as int));
        }
        match high.node(h) {
            HighNode::ExternInput(id, dt) => {
                let nid = out.extern_input(id.clone(), *dt);
                map.push(nid);
                proof {
                    assert(lowers_at(high.nodes@, out.nodes@, map@, h as int));
                }
            },
            HighNode::Constant(v) => {
                let nid = out.constant(*v);
                map.push(nid);
                proof {
                    assert(lowers_at(high.nodes@, out.nodes@, map@, h as int));
                }
            },
            HighNode::Make(kids, dt) => {
                let nk = kids.len();
                let mut ch: Vec<NodeId> = Vec::new();
                let mut j: usize = 0;
                while j < nk
                    invariant
                        high.wf(),
                        root < high.len_spec(),
                        h <= root,
                        out.wf(),
                        map@.len() == h,
                        high.nodes@[h as int] == HighNode::Make(*kids, *dt),
                        nk == kids@.len(),
                        j <= nk,
                        ch@.len() == j,
                        forall|k: int| 0 <= k < h ==> lowers_at(high.nodes@, out.nodes@, map@, k),
                        forall|jj: int|
                            0 <= jj < j ==> ch@[jj] == map@[kids@[jj] as int] && (
                            #[trigger] ch@[jj] as int) < out.len_spec(),
                    decreases nk - j,
                {
                    proof {
                        lemma_high_make_child_bound(
                            high.nodes@[h as int],
                            *kids,
                            *dt,
                            h as int,
                            j as int,
                        );
                        assert(lowers_at(high.nodes@, out.nodes@, map@, kids@[j as int] as int));
                    }
                    ch.push(map[kids[j]]);
                    j += 1;
                }
                let ghost chv = ch@;
                let nid = out.make(ch, *dt);
                map.push(nid);
                proof {
                    assert forall|jj: int| 0 <= jj < kids@.len() implies (
                    #[trigger] kids@[jj] as int) < h as int by {
                        lemma_high_make_child_bound(
                            high.nodes@[h as int],
                            *kids,
                            *dt,
                            h as int,
                            jj,
                        );
                    }
                    assert(lowers_at(high.nodes@, out.nodes@, map@, h as int));
                }
            },
            HighNode::ComponentInfixOp(a, op, b) => {
                proof {
                    assert(lowers_at(high.nodes@, out.nodes@, map@, *a as int));
                    assert(lowers_at(high.nodes@, out.nodes@, map@, *b as int));
                }
                let nid = out.component_infix_op(map[*a], *op, map[*b]);
                map.push(nid);
                proof {
                    assert(lowers_at(high.nodes@, out.nodes@, map@, h as int));
                }
            },
            HighNode::ComponentFn(func, a) => {
                proof {
                    assert(lowers_at(high.nodes@, out.nodes@, map@, *a as int));
                }
                let nid = out.component_fn(*func, map[*a]);
                map.push(nid);
                proof {
                    assert(lowers_at(high.nodes@, out.nodes@, map@, h as int));
                }
            },
            HighNode::GetComponent(a, b) => {
                proof {
                    assert(lowers_at(high.nodes@, out.nodes@, map@, *a as int));
                    assert(lowers_at(high.nodes@, out.nodes@, map@, *b as int));
                }
                let nid = out.get_component(map[*a], map[*b]);
                map.push(nid);
                proof {
                    assert(lowers_at(high.nodes@, out.nodes@, map@, h as int));
                }
            },
            HighNode::Dot(a, b) => {
                proof {
                    assert(lowers_at(high.nodes@, out.nodes@, map@, *a as int));
                    assert(lowers_at(high.nodes@, out.nodes@, map@, *b as int));
                }
                let nid = out.dot(map[*a], map[*b]);
                map.push(nid);
                proof {
                    assert(lowers_at(high.nodes@, out.nodes@, map@, h as int));
                }
            },
            HighNode::Normalize(v, dt) => {
                proof {
                    assert(lowers_at(high.nodes@, out.nodes@, map@, *v as int));
                }
                let mv = map[*v];
                let d = out.dot(mv, mv);
                let hf = out.constant(Value::Scalar(HALF_BITS));
                let p = out.component_infix_op(d, ComponentInfixOp::Power, hf);
                let n = dt.n_lanes();
                let mut ch: Vec<NodeId> = Vec::new();
                let mut j: usize = 0;
                while j < n
                    invariant
                        j <= n,
                        ch@.len() == j,
                        forall|jj: int| 0 <= jj < j ==> ch@[jj] == p,
                        (p as int) < out.len_spec(),
                    decreases n - j,
                {
                    ch.push(p);
                    j += 1;
                }
                let s = out.make(ch, *dt);
                let nid = out.component_infix_op(mv, ComponentInfixOp::Divide, s);
                map.push(nid);
                proof {
                    lemma_normalize_chain_intro(out.nodes@, mv, *dt, nid, d, hf, p, s);
                    assert(high.nodes@[h as int] == HighNode::Normalize(*v, *dt));
                    assert(map@[h as int] == nid);
                    assert(map@[*v as int] == mv);
                    assert(normalize_chain(out.nodes@, map@[*v as int], *dt, map@[h as int], d, hf, p, s));
                    assert(lowers_at(high.nodes@, out.nodes@, map@, h as int));
                }
            },
            HighNode::Splat(x, dt) => {
                proof {
                    assert(lowers_at(high.nodes@, out.nodes@, map@, *x as int));
                }
                let mx = map[*x];
                let n = dt.n_lanes();
                let mut ch: Vec<NodeId> = Vec::new();
                let mut j: usize = 0;
                while j < n
                    invariant
                        j <= n,
                        ch@.len() == j,
                        forall|jj: int| 0 <= jj < j ==> ch@[jj] == mx,
                        (mx as int) < out.len_spec(),
                    decreases n - j,
                {
                    ch.push(mx);
                    j += 1;
                }
                let nid = out.make(ch, *dt);
                map.push(nid);
                proof {
                    assert(lowers_at(high.nodes@, out.nodes@, map@, h as int));
                }
            },
            HighNode::Swizzle { input_vector, component_vector, input_vector_dtype: _, output_vector_dtype } => {
                proof {
                    assert(lowers_at(high.nodes@, out.nodes@, map@, *input_vector as int));
                    assert(lowers_at(high.nodes@, out.nodes@, map@, *component_vector as int));
                }
                let miv = map[*input_vector];
                let mcv = map[*component_vector];
                let n = output_vector_dtype.n_lanes();
                let mut ch: Vec<NodeId> = Vec::new();
                let mut j: usize = 0;
                while j < n
                    invariant
                        j <= n,
                        n <= 4,
                        ch@.len() == j,
                        out.wf(),
                        (miv as int) < out.len_spec(),
                        (mcv as int) < out.len_spec(),
                        pre_out.len() <= out.len_spec(),
                        forall|k: int| 0 <= k < pre_out.len() ==> out.nodes@[k] == pre_out[k],
                        forall|jj: int|
                            0 <= jj < j ==> swizzle_lane_chain(
                                out.nodes@,
                                miv,
                                mcv,
                                #[trigger] ch@[jj],
                                jj,
                            ),
                    decreases n - j,
                {
                    let ghost mid_out = out.nodes@;
                    let ci = out.constant(Value::Scalar(lane_index_bits(j)));
                    let inner = out.get_component(mcv, ci);
                    let lane = out.get_component(miv, inner);
                    ch.push(lane);
                    proof {
                        assert(out.nodes@[ci as int] == Node::Constant(
                            Value::Scalar(small_index_bits(j as int)),
                        ));
                        assert(out.nodes@[inner as int] == Node::GetComponent(mcv, ci));
                        assert(out.nodes@[lane as int] == Node::GetComponent(miv, inner));
                        assert(swizzle_lane_chain(out.nodes@, miv, mcv, lane, j as int));
                        assert forall|jj: int| 0 <= jj < j implies swizzle_lane_chain(
                            out.nodes@,
                            miv,
                            mcv,
                            #[trigger] ch@[jj],
                            jj,
                        ) by {
                            lemma_swizzle_lane_frame(
                                mid_out,
                                out.nodes@,
                                miv,
                                mcv,
                                ch@[jj],
                                jj,
                            );
                        }
                    }
                    j += 1;
                }
                let ghost pre_make = out.nodes@;
                let ghost chv = ch@;
                let nid = out.make(ch, *output_vector_dtype);
                map.push(nid);
                proof {
                    assert forall|i: int| 0 <= i < chv.len() implies swizzle_lane_chain(
                        out.nodes@,
                        miv,
                        mcv,
                        chv[i],
                        i,
                    ) by {
                        lemma_swizzle_lane_frame(pre_make, out.nodes@, miv, mcv, chv[i], i);
                    }
                    assert(lowers_at(high.nodes@, out.nodes@, map@, h as int));
                }
            },
        }
        proof {
            assert(lowers_at(high.nodes@, out.nodes@, map@, h as int));
            assert forall|k: int| 0 <= k < h + 1 implies lowers_at(
                high.nodes@,
                out.nodes@,
                map@,
                k,
            ) by {
                if k < h {
                    lemma_lowers_at_frame(high.nodes@, pre_out, out.nodes@, pre_map, map@, k);
                }
            }
        }
        h += 1;
    }
    (out, map)
}

/// Lowers the graph rooted at `root` and returns the lowered graph with
/// the handle that stands for `root`.
pub fn convert_node(high: &HighGraph, root: HighNodeId) -> (r: (NodeGraph, NodeId))
    requires
        high.wf(),
        root < high.len_spec(),
    ensures
        r.0.wf(),
        (r.1 as int) < r.0.len_spec(),
        exists|map: Seq<NodeId>|
            #![auto]
            {
                &&& map.len() == root + 1
                &&& map[root as int] == r.1
                &&& forall|h: int| 0 <= h <= root as int ==> lowers_at(high.nodes@, r.0.nodes@, map, h)
            },
{
    let (out, map) = convert_graph(high, root);
    let nid = map[root];
    proof {
        assert(lowers_at(high.nodes@, out.nodes@, map@, root as int));
    }
    (out, nid)
}


/// A `Make` whose children are all one scalar node fills every lane with
/// that node's value.
proof fn lemma_make_lanes_constant(
    out: Seq<Node>,
    ctx: crate::inputs::ExternParameters,
    kids: Seq<NodeId>,
    n: int,
    parent: int,
    j: int,
    m: crate::eval::LaneOps,
    p: NodeId,
    pl: u32,
)
    requires
        0 <= j <= n,
        kids.len() == n,
        (p as int) < parent,
        0 <= parent,
        forall|k: int| 0 <= k < n ==> kids[k] == p,
        crate::eval::eval_node_spec(out, ctx, p as int, m) == crate::eval::EvalOutcome::Value(
            Value::Scalar(pl),
        ),
    ensures
        crate::eval::make_lanes_spec(out, ctx, kids, n, parent, j, m) == Ok::<
            Seq<u32>,
            crate::eval::EvalOutcome,
        >(Seq::new((n - j) as nat, |_k: int| pl)),
    decreases n - j,
{
    if j >= n {
        assert(Seq::new((n - j) as nat, |_k: int| pl) =~= Seq::<u32>::empty());
    } else {
        lemma_make_lanes_constant(out, ctx, kids, n, parent, j + 1, m, p, pl);
        assert(seq![pl] + Seq::new((n - j - 1) as nat, |_k: int| pl) =~= Seq::new(
            (n - j) as nat,
            |_k: int| pl,
        ));
    }
}

/// Law: a lowered `Normalize` evaluates to its vector divided lane by lane
/// by `power(dot(v, v), 0.5)` under the builtin model — the vector over
/// the square root of its squared length.
pub proof fn lemma_eval_lowered_normalize(
    out: Seq<Node>,
    ctx: crate::inputs::ExternParameters,
    m: crate::eval::LaneOps,
    mv: NodeId,
    dtype: DataType,
    target: NodeId,
    d: NodeId,
    hf: NodeId,
    p: NodeId,
    s: NodeId,
    va: Value,
)
    requires
        normalize_chain(out, mv, dtype, target, d, hf, p, s),
        (mv as int) < (d as int),
        (d as int) < (p as int),
        (hf as int) < (p as int),
        (p as int) < (s as int),
        (mv as int) < (target as int),
        (s as int) < (target as int),
        crate::eval::eval_node_spec(out, ctx, mv as int, m) == crate::eval::EvalOutcome::Value(va),
        va.dtype_spec() == dtype,
        !(va is Scalar),
    ensures
        ({
            let dotv = crate::eval::dot_fold(va.lanes(), va.lanes(), va.lanes().len() as int, m);
            let pl = m(
                crate::dtype::ComponentInfixOp::Power.code_spec(),
                dotv,
                HALF_BITS,
            );
            crate::eval::eval_node_spec(out, ctx, target as int, m)
                == crate::eval::EvalOutcome::Value(
                crate::value::value_of_lanes(
                    dtype,
                    Seq::new(
                        dtype.lane_count(),
                        |j: int|
                            m(
                                crate::dtype::ComponentInfixOp::Divide.code_spec(),
                                va.lanes()[j],
                                pl,
                            ),
                    ),
                ),
            )
        }),
{
    let dotv = crate::eval::dot_fold(va.lanes(), va.lanes(), va.lanes().len() as int, m);
    let pl = m(crate::dtype::ComponentInfixOp::Power.code_spec(), dotv, HALF_BITS);
    assert(crate::eval::eval_node_spec(out, ctx, d as int, m) == crate::eval::EvalOutcome::Value(
        Value::Scalar(dotv),
    ));
    assert(crate::eval::eval_node_spec(out, ctx, hf as int, m) == crate::eval::EvalOutcome::Value(
        Value::Scalar(HALF_BITS),
    ));
    assert(crate::eval::eval_node_spec(out, ctx, p as int, m) == crate::eval::EvalOutcome::Value(
        Value::Scalar(pl),
    )) by {
        assert(crate::eval::lanes_map2(
            crate::dtype::ComponentInfixOp::Power.code_spec(),
            seq![dotv],
            seq![HALF_BITS],
            m,
        ) =~= seq![pl]);
    }
    let n = dtype.lane_count() as int;
    match out[s as int] {
        Node::Make(k, dt2) => {
            assert forall|q: int| 0 <= q < n implies k@[q] == p by {}
            lemma_make_lanes_constant(out, ctx, k@, n, s as int, 0, m, p, pl);
            let splat_lanes = Seq::new((n - 0) as nat, |_k: int| pl);
            assert(crate::eval::eval_node_spec(out, ctx, s as int, m)
                == crate::eval::EvalOutcome::Value(
                crate::value::value_of_lanes(dtype, splat_lanes),
            ));
            let sv = crate::value::value_of_lanes(dtype, splat_lanes);
            assert(sv.dtype_spec() == dtype);
            assert(sv.lanes() =~= splat_lanes);
            assert(crate::eval::eval_node_spec(out, ctx, target as int, m)
                == crate::eval::EvalOutcome::Value(
                crate::value::value_of_lanes(
                    dtype,
                    crate::eval::lanes_map2(
                        crate::dtype::ComponentInfixOp::Divide.code_spec(),
                        va.lanes(),
                        sv.lanes(),
                        m,
                    ),
                ),
            ));
            assert(crate::eval::lanes_map2(
                crate::dtype::ComponentInfixOp::Divide.code_spec(),
                va.lanes(),
                sv.lanes(),
                m,
            ) =~= Seq::new(
                dtype.lane_count(),
                |j: int|
                    m(crate::dtype::ComponentInfixOp::Divide.code_spec(), va.lanes()[j], pl),
            ));
        },
        _ => {
            assert(false);
        },
    }
}

} // verus!
