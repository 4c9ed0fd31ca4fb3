//! The graph-to-text compiler: a discovery pass that checks types,
//! assigns each node a local-variable slot and collects the external
//! inputs, and an emission pass that writes the body of a stack-machine
//! text module, each distinct node exactly once.

use vstd::prelude::*;

use crate::dtype::{ComponentFn, ComponentInfixOp, DataType};
use crate::graph::{Node, NodeGraph, NodeId};
use crate::inputs::{lex_lt, ExternInputId, ParameterList};

verus! {

/// Why a graph cannot be compiled.
#[derive(Debug)]
pub enum CompileError {
    /// An operator invariant is violated somewhere under the root: operands
    /// of different types, a non-scalar index or `Make` child, or a `Make`
    /// whose child count is not its type's lane count.
    TypeMismatch,
    /// One external input name is claimed at two different types, either by
    /// two occurrences in the graph or by the graph and the declared
    /// parameter list.
    InputTypeConflict(ExternInputId),
}

/// The type of node `i`, when every operator invariant under it holds;
/// `None` when compilation must report a type mismatch.
pub open spec fn infer_spec(nodes: Seq<Node>, i: int) -> Option<DataType>
    decreases i, 1int, 0int,
{
    if i < 0 || i >= nodes.len() {
        None
    } else {
        match nodes[i] {
            Node::ExternInput(_id, dt) => Some(dt),
            Node::Constant(v) => Some(v.dtype_spec()),
        Node::Make(kids, dt) => {
                if kids@.len() == dt.lane_count() && all_scalar_spec(nodes, kids@, i, 0) {
                    Some(dt)
                } else {
                    None
                }
            },
            Node::ComponentInfixOp(a, _op, b) => if (a as int) < i && (b as int) < i {
                match (infer_spec(nodes, a as int), infer_spec(nodes, b as int)) {
                    (Some(ta), Some(tb)) => if ta == tb {
                        Some(ta)
                    } else {
                        None
                    },
                    _ => None,
                }
            } else {
                None
            },
            Node::ComponentFn(_func, a) => if (a as int) < i {
                infer_spec(nodes, a as int)
            } else {
                None
            },
            Node::GetComponent(v, ix) => if (v as int) < i && (ix as int) < i {
                match (infer_spec(nodes, v as int), infer_spec(nodes, ix as int)) {
                    (Some(_tv), Some(tix)) => if tix == DataType::Scalar {
                        Some(DataType::Scalar)
                    } else {
                        None
                    },
                    _ => None,
                }
            } else {
                None
            },
            Node::Dot(a, b) => if (a as int) < i && (b as int) < i {
                match (infer_spec(nodes, a as int), infer_spec(nodes, b as int)) {
                    (Some(ta), Some(tb)) => if ta == tb {
                        Some(DataType::Scalar)
                    } else {
                        None
                    },
                    _ => None,
                }
            } else {
                None
            },
        }
    }
}

/// Whether every child of a `Make` node from position `j` on is below the
/// parent and of scalar type.
pub open spec fn all_scalar_spec(nodes: Seq<Node>, kids: Seq<NodeId>, parent: int, j: int) -> bool
    decreases parent, 0int, (kids.len() - j),
{
    if j >= kids.len() {
        true
    } else if (kids[j] as int) < parent && 0 <= parent {
        infer_spec(nodes, kids[j] as int) == Some(DataType::Scalar) && all_scalar_spec(
            nodes,
            kids,
            parent,
            j + 1,
        )
    } else {
        false
    }
}

/// Whether the arena holds an input conflict on the name `name`: two
/// occurrences at different types, or an occurrence whose type contradicts
/// the declared parameter list.
pub open spec fn arena_input_conflict(
    nodes: Seq<Node>,
    params: ParameterList,
    name: Seq<char>,
) -> bool {
    exists|i: int|
        0 <= i < nodes.len() && match #[trigger] nodes[i] {
            Node::ExternInput(id, dt) => id@ == name && {
                ||| (params.contains_name(name) && params.dtype_of(name) != dt)
                ||| exists|j: int|
                    0 <= j < nodes.len() && match #[trigger] nodes[j] {
                        Node::ExternInput(id2, dt2) => id2@ == name && dt2 != dt,
                        _ => false,
                    }
            },
            _ => false,
        }
}

/// Whether `order` contains the handle `i`.
pub open spec fn order_contains(order: Seq<NodeId>, i: NodeId) -> bool {
    exists|k: int| 0 <= k < order.len() && order[k] == i
}

/// Every child of `n` stands in `order`.
pub open spec fn children_in_order(n: Node, order: Seq<NodeId>) -> bool {
    match n {
        Node::ExternInput(..) => true,
        Node::Constant(..) => true,
        Node::Make(kids, _) => forall|j: int|
            0 <= j < kids@.len() ==> order_contains(order, #[trigger] kids@[j]),
        Node::ComponentInfixOp(a, _, b) => order_contains(order, a) && order_contains(order, b),
        Node::ComponentFn(_, a) => order_contains(order, a),
        Node::GetComponent(a, b) => order_contains(order, a) && order_contains(order, b),
        Node::Dot(a, b) => order_contains(order, a) && order_contains(order, b),
    }
}

/// The discovery state: for each visited node its type and its slot, the
/// visit order (children always before parents), and the named inputs with
/// their shared slots.
pub struct DiscoverState {
    /// `Some` exactly for the visited nodes.
    pub dtypes: Vec<Option<DataType>>,
    /// The slot of each visited node; an input node shares the slot of the
    /// first visited occurrence of its name. Slot `i + 1` belongs to node
    /// `i`; slot `0` is the output pointer.
    pub vars: Vec<usize>,
    /// The visited nodes, children before parents, each exactly once.
    pub order: Vec<NodeId>,
    /// The discovered inputs: name, slot, and the type all occurrences
    /// share.
    pub inputs: Vec<(ExternInputId, usize, DataType)>,
}

impl DiscoverState {
    /// Ties the state to the graph and the declared parameters.
    pub open spec fn wf(&self, nodes: Seq<Node>, params: ParameterList) -> bool {
        &&& self.dtypes@.len() == nodes.len()
        &&& self.vars@.len() == nodes.len()
        &&& forall|k: int| 0 <= k < self.order@.len() ==> (#[trigger] self.order@[k] as int)
            < nodes.len()
        &&& forall|k: int, l: int|
            0 <= k < l < self.order@.len() ==> self.order@[k] != self.order@[l]
        &&& forall|i: NodeId|
            order_contains(self.order@, i) <==> 0 <= (i as int) < nodes.len()
                && (#[trigger] self.dtypes@[i as int]) is Some
        &&& forall|k: int|
            0 <= k < self.order@.len() ==> self.dtypes@[#[trigger] self.order@[k] as int]
                == infer_spec(nodes, self.order@[k] as int) && infer_spec(
                nodes,
                self.order@[k] as int,
            ) is Some
        &&& forall|k: int|
            0 <= k < self.order@.len() ==> children_in_order(
                nodes[#[trigger] self.order@[k] as int],
                self.order@.take(k),
            )
        &&& forall|p: int, q: int|
            0 <= p < q < self.inputs@.len() ==> (#[trigger] self.inputs@[p]).0@ != (
            #[trigger] self.inputs@[q]).0@
        &&& forall|p: int|
            0 <= p < self.inputs@.len() ==> {
                let entry = #[trigger] self.inputs@[p];
                &&& (entry.1 as int) >= 1
                &&& (entry.1 as int) <= nodes.len()
                &&& match nodes[entry.1 - 1] {
                    Node::ExternInput(id2, dt2) => id2@ == entry.0@ && dt2 == entry.2,
                    _ => false,
                }
                &&& order_contains(self.order@, (entry.1 - 1) as NodeId)
                &&& (params.contains_name(entry.0@) ==> params.dtype_of(entry.0@) == entry.2)
            }
        &&& forall|k: int|
            0 <= k < self.order@.len() ==> match nodes[#[trigger] self.order@[k] as int] {
                Node::ExternInput(id, dt) => exists|p: int|
                    0 <= p < self.inputs@.len() && (#[trigger] self.inputs@[p]).0@ == id@
                        && self.inputs@[p].2 == dt && self.vars@[self.order@[k] as int]
                        == self.inputs@[p].1,
                _ => self.vars@[self.order@[k] as int] == self.order@[k] + 1,
            }
    }
}


/// The later state keeps everything the earlier one had visited.
pub open spec fn extends(pre: DiscoverState, post: DiscoverState) -> bool {
    &&& post.dtypes@.len() == pre.dtypes@.len()
    &&& post.vars@.len() == pre.vars@.len()
    &&& post.order@.len() >= pre.order@.len()
    &&& post.order@.take(pre.order@.len() as int) == pre.order@
    &&& post.inputs@.len() >= pre.inputs@.len()
    &&& post.inputs@.take(pre.inputs@.len() as int) == pre.inputs@
    &&& forall|j: int|
        0 <= j < pre.dtypes@.len() && (#[trigger] pre.dtypes@[j]) is Some ==> post.dtypes@[j]
            == pre.dtypes@[j] && post.vars@[j] == pre.vars@[j]
}

proof fn lemma_extends_trans(a: DiscoverState, b: DiscoverState, c: DiscoverState)
    requires
        extends(a, b),
        extends(b, c),
    ensures
        extends(a, c),
{
    assert(c.order@.take(a.order@.len() as int) =~= b.order@.take(a.order@.len() as int));
    assert(c.inputs@.take(a.inputs@.len() as int) =~= b.inputs@.take(a.inputs@.len() as int));
}

/// An element of the earlier order is still in the later one.
proof fn lemma_contains_extends(pre: Seq<NodeId>, post: Seq<NodeId>, i: NodeId)
    requires
        post.len() >= pre.len(),
        post.take(pre.len() as int) == pre,
        order_contains(pre, i),
    ensures
        order_contains(post, i),
{
    let k = choose|k: int| 0 <= k < pre.len() && pre[k] == i;
    assert(post.take(pre.len() as int)[k] == i);
    assert(post[k] == i);
}

impl DiscoverState {
    /// A fresh state for a graph of `n` nodes.
    pub fn empty(n: usize) -> (r: DiscoverState)
        ensures
            r.dtypes@.len() == n,
            r.vars@.len() == n,
            r.order@.len() == 0,
            r.inputs@.len() == 0,
            forall|j: int| 0 <= j < n ==> (#[trigger] r.dtypes@[j]) is None,
    {
        let mut dtypes: Vec<Option<DataType>> = Vec::new();
        let mut vars: Vec<usize> = Vec::new();
        let mut k: usize = 0;
        while k < n
            invariant
                k <= n,
                dtypes@.len() == k,
                vars@.len() == k,
                forall|j: int| 0 <= j < k ==> (#[trigger] dtypes@[j]) is None,
            decreases n - k,
        {
            dtypes.push(None);
            vars.push(0);
            k += 1;
        }
        DiscoverState { dtypes, vars, order: Vec::new(), inputs: Vec::new() }
    }

    /// The position of `id` among the discovered inputs, if present.
    fn find_input(&self, id: &ExternInputId) -> (r: Option<usize>)
        ensures
            match r {
                Some(p) => p < self.inputs@.len() && self.inputs@[p as int].0@ == id@,
                None => forall|p: int| 0 <= p < self.inputs@.len() ==> (#[trigger] self.inputs@[p]).0@ != id@,
            },
    {
        let n = self.inputs.len();
        let mut p: usize = 0;
        while p < n
            invariant
                p <= n,
                n == self.inputs@.len(),
                forall|q: int| 0 <= q < p ==> (#[trigger] self.inputs@[q]).0@ != id@,
            decreases n - p,
        {
            if self.inputs[p].0.eq(id) {
                return Some(p);
            }
            p += 1;
        }
        None
    }
}

/// Marks node `i` visited with type `dt` and slot `var`, and appends it to
/// the visit order. For an input node the slot must already stand in the
/// input table under the node's name; any other node takes slot `i + 1`.
fn record_visit(
    st: &mut DiscoverState,
    Ghost(nodes): Ghost<Seq<Node>>,
    Ghost(params): Ghost<ParameterList>,
    i: NodeId,
    dt: DataType,
    var: usize,
)
    requires
        nodes.len() <= usize::MAX,
        old(st).wf(nodes, params),
        (i as int) < nodes.len(),
        old(st).dtypes@[i as int] is None,
        infer_spec(nodes, i as int) == Some(dt),
        children_in_order(nodes[i as int], old(st).order@),
        match nodes[i as int] {
            Node::ExternInput(id, dt2) => dt2 == dt && exists|p: int|
                0 <= p < old(st).inputs@.len() && (#[trigger] old(st).inputs@[p]).0@ == id@ && old(
                    st,
                ).inputs@[p].2 == dt && var == old(st).inputs@[p].1,
            _ => var == i + 1,
        },
    ensures
        final(st).wf(nodes, params),
        extends(*old(st), *final(st)),
        final(st).dtypes@ == old(st).dtypes@.update(i as int, Some(dt)),
        final(st).order@ == old(st).order@.push(i),
        final(st).inputs@ == old(st).inputs@,
        final(st).vars@[i as int] == var,
        order_contains(final(st).order@, i),
{
    proof {
        assert(!order_contains(old(st).order@, i));
    }
    self_record(st, Ghost(nodes), Ghost(params), i, dt, var);
    proof {
        assert(st.order@[st.order@.len() - 1] == i);
    }
}

/// The body of `record_visit`, separated so the well-formedness proof has
/// its own resource budget.
#[verifier::rlimit(100)]
fn self_record(
    st: &mut DiscoverState,
    Ghost(nodes): Ghost<Seq<Node>>,
    Ghost(params): Ghost<ParameterList>,
    i: NodeId,
    dt: DataType,
    var: usize,
)
    requires
        nodes.len() <= usize::MAX,
        old(st).wf(nodes, params),
        (i as int) < nodes.len(),
        old(st).dtypes@[i as int] is None,
        !order_contains(old(st).order@, i),
        infer_spec(nodes, i as int) == Some(dt),
        children_in_order(nodes[i as int], old(st).order@),
        match nodes[i as int] {
            Node::ExternInput(id, dt2) => dt2 == dt && exists|p: int|
                0 <= p < old(st).inputs@.len() && (#[trigger] old(st).inputs@[p]).0@ == id@ && old(
                    st,
                ).inputs@[p].2 == dt && var == old(st).inputs@[p].1,
            _ => var == i + 1,
        },
    ensures
        final(st).wf(nodes, params),
        extends(*old(st), *final(st)),
        final(st).dtypes@ == old(st).dtypes@.update(i as int, Some(dt)),
        final(st).order@ == old(st).order@.push(i),
        final(st).inputs@ == old(st).inputs@,
        final(st).vars@[i as int] == var,
{
    let ghost pre = *st;
    st.dtypes.set(i, Some(dt));
    st.vars.set(i, var);
    st.order.push(i);
    proof {
        let po = pre.order@;
        let no = st.order@;
        let n = po.len() as int;
        assert(no =~= po.push(i));
        assert(no.take(n) =~= po);
        assert(st.inputs@.take(pre.inputs@.len() as int) =~= pre.inputs@);
        // distinctness
        assert forall|k: int, l: int| 0 <= k < l < no.len() implies no[k] != no[l] by {
            if l < n {
            } else {
                if no[k] == i {
                    assert(order_contains(po, i));
                }
            }
        }
        // membership matches Some entries
        assert forall|j: NodeId|
            order_contains(no, j) <==> 0 <= (j as int) < nodes.len() && (
            #[trigger] st.dtypes@[j as int]) is Some by {
            if order_contains(no, j) {
                let k = choose|k: int| 0 <= k < no.len() && no[k] == j;
                if k < n {
                    assert(order_contains(po, j));
                }
            }
            if 0 <= (j as int) < nodes.len() && st.dtypes@[j as int] is Some {
                if j != i {
                    assert(pre.dtypes@[j as int] is Some);
                    assert(order_contains(po, j));
                    lemma_contains_extends(po, no, j);
                } else {
                    assert(no[n] == i);
                }
            }
        }
        // inferred types recorded for each member
        assert forall|k: int| 0 <= k < no.len() implies st.dtypes@[#[trigger] no[k] as int]
            == infer_spec(nodes, no[k] as int) && infer_spec(nodes, no[k] as int) is Some by {
            if k < n {
                assert(pre.dtypes@[no[k] as int] == infer_spec(nodes, no[k] as int));
                assert(no[k] != i);
            }
        }
        // children stand earlier in the order
        assert forall|k: int| 0 <= k < no.len() implies children_in_order(
            nodes[#[trigger] no[k] as int],
            no.take(k),
        ) by {
            if k < n {
                assert(children_in_order(nodes[po[k] as int], po.take(k)));
                assert(no.take(k) =~= po.take(k));
            } else {
                assert(no.take(k) =~= po);
            }
        }
        // input table untouched; its members keep their witnesses
        assert forall|p: int| 0 <= p < st.inputs@.len() implies {
            let entry = #[trigger] st.inputs@[p];
            &&& (entry.1 as int) >= 1
            &&& (entry.1 as int) <= nodes.len()
            &&& match nodes[entry.1 - 1] {
                Node::ExternInput(id2, dt2) => id2@ == entry.0@ && dt2 == entry.2,
                _ => false,
            }
            &&& order_contains(st.order@, (entry.1 - 1) as NodeId)
            &&& (params.contains_name(entry.0@) ==> params.dtype_of(entry.0@) == entry.2)
        } by {
            assert(pre.wf(nodes, params));
            let entry = st.inputs@[p];
            assert(order_contains(po, (entry.1 - 1) as NodeId));
            lemma_contains_extends(po, no, (entry.1 - 1) as NodeId);
        }
        // slots of the members
        assert forall|k: int| 0 <= k < no.len() implies match nodes[#[trigger] no[k] as int] {
            Node::ExternInput(id, dt2) => exists|p: int|
                0 <= p < st.inputs@.len() && (#[trigger] st.inputs@[p]).0@ == id@
                    && st.inputs@[p].2 == dt2 && st.vars@[no[k] as int] == st.inputs@[p].1,
            _ => st.vars@[no[k] as int] == no[k] + 1,
        } by {
            if k < n {
                assert(no[k] != i);
                assert(match nodes[po[k] as int] {
                    Node::ExternInput(id, dt2) => exists|p: int|
                        0 <= p < pre.inputs@.len() && (#[trigger] pre.inputs@[p]).0@ == id@
                            && pre.inputs@[p].2 == dt2 && pre.vars@[po[k] as int]
                            == pre.inputs@[p].1,
                    _ => pre.vars@[po[k] as int] == po[k] + 1,
                });
            } else {
                match nodes[i as int] {
                    Node::ExternInput(id, dt2) => {
                        assert(dt2 == dt);
                    },
                    _ => {},
                }
            }
        }
    }
}


/// Marks a fresh input node visited: registers its name with slot `i + 1`
/// and appends the node to the order.
#[verifier::rlimit(100)]
fn record_new_input(
    st: &mut DiscoverState,
    Ghost(nodes): Ghost<Seq<Node>>,
    Ghost(params): Ghost<ParameterList>,
    i: NodeId,
    id: ExternInputId,
    dt: DataType,
)
    requires
        nodes.len() <= usize::MAX,
        old(st).wf(nodes, params),
        (i as int) < nodes.len(),
        old(st).dtypes@[i as int] is None,
        infer_spec(nodes, i as int) == Some(dt),
        match nodes[i as int] {
            Node::ExternInput(id2, dt2) => id2@ == id@ && dt2 == dt,
            _ => false,
        },
        params.contains_name(id@) ==> params.dtype_of(id@) == dt,
        forall|p: int| 0 <= p < old(st).inputs@.len() ==> (#[trigger] old(st).inputs@[p]).0@ != id@,
    ensures
        final(st).wf(nodes, params),
        extends(*old(st), *final(st)),
        final(st).dtypes@ == old(st).dtypes@.update(i as int, Some(dt)),
        final(st).order@ == old(st).order@.push(i),
        final(st).vars@[i as int] == i + 1,
        order_contains(final(st).order@, i),
{
    proof {
        assert(!order_contains(old(st).order@, i));
    }
    let ghost pre = *st;
    let var = i + 1;
    st.inputs.push((id, var, dt));
    st.dtypes.set(i, Some(dt));
    st.vars.set(i, var);
    st.order.push(i);
    proof {
        let po = pre.order@;
        let no = st.order@;
        let n = po.len() as int;
        assert(no =~= po.push(i));
        assert(no.take(n) =~= po);
        assert(st.inputs@.take(pre.inputs@.len() as int) =~= pre.inputs@);
        assert forall|k: int, l: int| 0 <= k < l < no.len() implies no[k] != no[l] by {
            if l < n {
            } else {
                if no[k] == i {
                    assert(order_contains(po, i));
                }
            }
        }
        assert forall|j: NodeId|
            order_contains(no, j) <==> 0 <= (j as int) < nodes.len() && (
            #[trigger] st.dtypes@[j as int]) is Some by {
            if order_contains(no, j) {
                let k = choose|k: int| 0 <= k < no.len() && no[k] == j;
                if k < n {
                    assert(order_contains(po, j));
                }
            }
            if 0 <= (j as int) < nodes.len() && st.dtypes@[j as int] is Some {
                if j != i {
                    assert(pre.dtypes@[j as int] is Some);
                    assert(order_contains(po, j));
                    lemma_contains_extends(po, no, j);
                } else {
                    assert(no[n] == i);
                }
            }
        }
        assert forall|k: int| 0 <= k < no.len() implies st.dtypes@[#[trigger] no[k] as int]
            == infer_spec(nodes, no[k] as int) && infer_spec(nodes, no[k] as int) is Some by {
            if k < n {
                assert(pre.dtypes@[no[k] as int] == infer_spec(nodes, no[k] as int));
                assert(no[k] != i);
            }
        }
        assert forall|k: int| 0 <= k < no.len() implies children_in_order(
            nodes[#[trigger] no[k] as int],
            no.take(k),
        ) by {
            if k < n {
                assert(children_in_order(nodes[po[k] as int], po.take(k)));
                assert(no.take(k) =~= po.take(k));
            } else {
                assert(no.take(k) =~= po);
            }
        }
        let ni = st.inputs@.len() - 1;
        assert(st.inputs@[ni].1 == i + 1);
        assert forall|p: int, q: int| 0 <= p < q < st.inputs@.len() implies (
        #[trigger] st.inputs@[p]).0@ != (#[trigger] st.inputs@[q]).0@ by {
            if q < ni {
                assert(pre.inputs@[p].0@ != pre.inputs@[q].0@);
            } else {
                assert(pre.inputs@[p].0@ != id@);
            }
        }
        assert forall|p: int| 0 <= p < st.inputs@.len() implies {
            let entry = #[trigger] st.inputs@[p];
            &&& (entry.1 as int) >= 1
            &&& (entry.1 as int) <= nodes.len()
            &&& match nodes[entry.1 - 1] {
                Node::ExternInput(id2, dt2) => id2@ == entry.0@ && dt2 == entry.2,
                _ => false,
            }
            &&& order_contains(st.order@, (entry.1 - 1) as NodeId)
            &&& (params.contains_name(entry.0@) ==> params.dtype_of(entry.0@) == entry.2)
        } by {
            if p < ni {
                assert(pre.wf(nodes, params));
                let entry = pre.inputs@[p];
                assert(order_contains(po, (entry.1 - 1) as NodeId));
                lemma_contains_extends(po, no, (entry.1 - 1) as NodeId);
            } else {
                assert(no[n] == i);
                assert(order_contains(no, i));
            }
        }
        assert forall|k: int| 0 <= k < no.len() implies match nodes[#[trigger] no[k] as int] {
            Node::ExternInput(id3, dt3) => exists|p: int|
                0 <= p < st.inputs@.len() && (#[trigger] st.inputs@[p]).0@ == id3@
                    && st.inputs@[p].2 == dt3 && st.vars@[no[k] as int] == st.inputs@[p].1,
            _ => st.vars@[no[k] as int] == no[k] + 1,
        } by {
            if k < n {
                assert(no[k] != i);
                assert(match nodes[po[k] as int] {
                    Node::ExternInput(id3, dt3) => exists|p: int|
                        0 <= p < pre.inputs@.len() && (#[trigger] pre.inputs@[p]).0@ == id3@
                            && pre.inputs@[p].2 == dt3 && pre.vars@[po[k] as int]
                            == pre.inputs@[p].1,
                    _ => pre.vars@[po[k] as int] == po[k] + 1,
                });
                match nodes[po[k] as int] {
                    Node::ExternInput(id3, dt3) => {
                        let p = choose|p: int|
                            0 <= p < pre.inputs@.len() && (#[trigger] pre.inputs@[p]).0@ == id3@
                                && pre.inputs@[p].2 == dt3 && pre.vars@[po[k] as int]
                                == pre.inputs@[p].1;
                        assert(st.inputs@[p].0@ == id3@);
                    },
                    _ => {},
                }
            } else {
                assert(st.inputs@[ni].0@ == id@);
                assert(st.vars@[i as int] == i + 1);
            }
        }
    }
}

/// The discovery pass from node `i`: checks the operator invariants below
/// `i`, gives every node not yet seen a slot, and registers each input
/// name once, all in one depth-first walk that visits children before
/// parents and every distinct node at most once.
#[verifier::rlimit(100)]
pub fn discover(
    graph: &NodeGraph,
    i: NodeId,
    params: &ParameterList,
    st: &mut DiscoverState,
) -> (r: Result<DataType, CompileError>)
    requires
        graph.wf(),
        params.wf(),
        i < graph.len_spec(),
        old(st).wf(graph.nodes@, *params),
    ensures
        final(st).wf(graph.nodes@, *params),
        extends(*old(st), *final(st)),
        forall|j: int|
            (i as int) < j < graph.nodes@.len() ==> final(st).dtypes@[j] == old(st).dtypes@[j],
        match r {
            Ok(dt) => infer_spec(graph.nodes@, i as int) == Some(dt) && final(st).dtypes@[i as int]
                == Some(dt) && order_contains(final(st).order@, i),
            Err(e) => match e {
                CompileError::TypeMismatch => infer_spec(graph.nodes@, i as int) is None,
                CompileError::InputTypeConflict(id) => arena_input_conflict(
                    graph.nodes@,
                    *params,
                    id@,
                ),
            },
        },
    decreases i, 1int,
{
    let ghost nodes = graph.nodes@;
    let n = graph.len();
    proof {
        assert(extends(*st, *st)) by {
            assert(st.order@.take(st.order@.len() as int) =~= st.order@);
            assert(st.inputs@.take(st.inputs@.len() as int) =~= st.inputs@);
        }
        assert(nodes[i as int].wf_at(i as int));
    }
    if let Some(dt) = st.dtypes[i] {
        proof {
            assert(order_contains(st.order@, i));
            let k = choose|k: int| 0 <= k < st.order@.len() && st.order@[k] == i;
            assert(st.dtypes@[st.order@[k] as int] == infer_spec(nodes, st.order@[k] as int));
        }
        return Ok(dt);
    }
    match graph.node(i) {
        Node::Constant(v) => {
            let dt = v.dtype();
            record_visit(st, Ghost(nodes), Ghost(*params), i, dt, i + 1);
            Ok(dt)
        },
        Node::ExternInput(id, dt) => {
            match st.find_input(id) {
                Some(p) => {
                    let edt = st.inputs[p].2;
                    let evar = st.inputs[p].1;
                    if edt != *dt {
                        proof {
                            let entry = st.inputs@[p as int];
                            assert(match nodes[entry.1 - 1] {
                                Node::ExternInput(id2, dt2) => id2@ == entry.0@ && dt2 == entry.2,
                                _ => false,
                            });
                            assert(arena_input_conflict(nodes, *params, id@));
                        }
                        return Err(CompileError::InputTypeConflict(id.clone()));
                    }
                    record_visit(st, Ghost(nodes), Ghost(*params), i, *dt, evar);
                    Ok(*dt)
                },
                None => {
                    match params.get(id) {
                        Some(pdt) => {
                            if pdt != *dt {
                                proof {
                                    assert(arena_input_conflict(nodes, *params, id@));
                                }
                                return Err(CompileError::InputTypeConflict(id.clone()));
                            }
                        },
                        None => {},
                    }
                    record_new_input(st, Ghost(nodes), Ghost(*params), i, id.clone(), *dt);
                    Ok(*dt)
                },
            }
        },
        Node::ComponentInfixOp(a, _op, b) => {
            let pair = match discover_pair(graph, *a, *b, Ghost(i as int), params, st) {
                Ok(p) => p,
                Err(e) => {
                    return Err(e);
                },
            };
            let (ta, tb) = pair;
            if ta != tb {
                return Err(CompileError::TypeMismatch);
            }
            let ghost st2 = *st;
            record_visit(st, Ghost(nodes), Ghost(*params), i, ta, i + 1);
            proof {
                lemma_extends_trans(*old(st), st2, *st);
            }
            Ok(ta)
        },
        Node::ComponentFn(_func, a) => {
            let ghost st0 = *st;
            let ta = match discover(graph, *a, params, st) {
                Ok(t) => t,
                Err(e) => {
                    return Err(e);
                },
            };
            proof {
                assert(order_contains(st.order@, *a));
            }
            let ghost st1 = *st;
            record_visit(st, Ghost(nodes), Ghost(*params), i, ta, i + 1);
            proof {
                lemma_extends_trans(st0, st1, *st);
            }
            Ok(ta)
        },
        Node::GetComponent(v, ix) => {
            let pair = match discover_pair(graph, *v, *ix, Ghost(i as int), params, st) {
                Ok(p) => p,
                Err(e) => {
                    return Err(e);
                },
            };
            let (_tv, tix) = pair;
            if tix != DataType::Scalar {
                return Err(CompileError::TypeMismatch);
            }
            let ghost st2 = *st;
            record_visit(st, Ghost(nodes), Ghost(*params), i, DataType::Scalar, i + 1);
            proof {
                lemma_extends_trans(*old(st), st2, *st);
            }
            Ok(DataType::Scalar)
        },
        Node::Dot(a, b) => {
            let pair = match discover_pair(graph, *a, *b, Ghost(i as int), params, st) {
                Ok(p) => p,
                Err(e) => {
                    return Err(e);
                },
            };
            let (ta, tb) = pair;
            if ta != tb {
                return Err(CompileError::TypeMismatch);
            }
            let ghost st2 = *st;
            record_visit(st, Ghost(nodes), Ghost(*params), i, DataType::Scalar, i + 1);
            proof {
                lemma_extends_trans(*old(st), st2, *st);
            }
            Ok(DataType::Scalar)
        },
        Node::Make(..) => {
            proof {
                assert(graph.len_spec() <= usize::MAX);
            }
            discover_make(graph, i, params, st)
        },
    }
}


/// `$<var>_<lane>`: the name of one scalar slot of a node.
pub open spec fn var_lane(var: int, j: int) -> Seq<char> {
    "$"@ + crate::numtext::dec_digits(var) + "_"@ + seq![DataType::lane_letter(j)]
}

/// `local.get` of one scalar slot.
pub open spec fn local_get(var: int, j: int) -> Seq<char> {
    "local.get "@ + var_lane(var, j) + "\n"@
}

/// `local.set` of one scalar slot.
pub open spec fn local_set(var: int, j: int) -> Seq<char> {
    "local.set "@ + var_lane(var, j) + "\n"@
}

/// The stack instruction for an infix operator: the native float operation
/// where the target has one, a builtin call otherwise.
pub open spec fn infix_instr(op: ComponentInfixOp) -> Seq<char> {
    match op {
        ComponentInfixOp::Add => "f32.add"@,
        ComponentInfixOp::Subtract => "f32.sub"@,
        ComponentInfixOp::Multiply => "f32.mul"@,
        ComponentInfixOp::Divide => "f32.div"@,
        ComponentInfixOp::Power => "call $builtin_power"@,
        ComponentInfixOp::Logbase => "call $builtin_logbase"@,
        ComponentInfixOp::GreaterThan => "call $builtin_greater_than"@,
        ComponentInfixOp::LessThan => "call $builtin_less_than"@,
        ComponentInfixOp::EqualTo => "call $builtin_equal_to"@,
    }
}

/// The stack instruction for a componentwise function.
pub open spec fn comp_fn_instr(func: ComponentFn) -> Seq<char> {
    match func {
        ComponentFn::Ceil => "f32.ceil"@,
        ComponentFn::Floor => "f32.floor"@,
        ComponentFn::Abs => "f32.abs"@,
        ComponentFn::Sine => "call $builtin_sine"@,
        ComponentFn::Cosine => "call $builtin_cosine"@,
        ComponentFn::Tangent => "call $builtin_tangent"@,
        ComponentFn::NaturalLog => "call $builtin_natural_log"@,
        ComponentFn::NaturalExp => "call $builtin_natural_exp"@,
    }
}

fn lane_str(j: usize) -> (r: &'static str)
    requires
        j < 4,
    ensures
        r@ =~= seq![DataType::lane_letter(j as int)],
{
    let r = match j {
        0 => "x",
        1 => "y",
        2 => "z",
        _ => "w",
    };
    proof {
        reveal_strlit("x");
        reveal_strlit("y");
        reveal_strlit("z");
        reveal_strlit("w");
    }
    r
}

fn push_var_lane(out: &mut String, var: usize, j: usize)
    requires
        j < 4,
    ensures
        final(out)@ == old(out)@ + var_lane(var as int, j as int),
{
    out.append("$");
    crate::numtext::push_dec(out, var as u64);
    out.append("_");
    out.append(lane_str(j));
    proof {
        assert(out@ =~= old(out)@ + var_lane(var as int, j as int));
    }
}

fn push_local_get(out: &mut String, var: usize, j: usize)
    requires
        j < 4,
    ensures
        final(out)@ == old(out)@ + local_get(var as int, j as int),
{
    out.append("local.get ");
    push_var_lane(out, var, j);
    out.append("\n");
    proof {
        assert(out@ =~= old(out)@ + local_get(var as int, j as int));
    }
}

fn push_local_set(out: &mut String, var: usize, j: usize)
    requires
        j < 4,
    ensures
        final(out)@ == old(out)@ + local_set(var as int, j as int),
{
    out.append("local.set ");
    push_var_lane(out, var, j);
    out.append("\n");
    proof {
        assert(out@ =~= old(out)@ + local_set(var as int, j as int));
    }
}

fn push_infix_instr(out: &mut String, op: ComponentInfixOp)
    ensures
        final(out)@ == old(out)@ + infix_instr(op) + "\n"@,
{
    match op {
        ComponentInfixOp::Add => out.append("f32.add"),
        ComponentInfixOp::Subtract => out.append("f32.sub"),
        ComponentInfixOp::Multiply => out.append("f32.mul"),
        ComponentInfixOp::Divide => out.append("f32.div"),
        ComponentInfixOp::Power => out.append("call $builtin_power"),
        ComponentInfixOp::Logbase => out.append("call $builtin_logbase"),
        ComponentInfixOp::GreaterThan => out.append("call $builtin_greater_than"),
        ComponentInfixOp::LessThan => out.append("call $builtin_less_than"),
        ComponentInfixOp::EqualTo => out.append("call $builtin_equal_to"),
    }
    out.append("\n");
    proof {
        assert(out@ =~= old(out)@ + infix_instr(op) + "\n"@);
    }
}

fn push_comp_fn_instr(out: &mut String, func: ComponentFn)
    ensures
        final(out)@ == old(out)@ + comp_fn_instr(func) + "\n"@,
{
    match func {
        ComponentFn::Ceil => out.append("f32.ceil"),
        ComponentFn::Floor => out.append("f32.floor"),
        ComponentFn::Abs => out.append("f32.abs"),
        ComponentFn::Sine => out.append("call $builtin_sine"),
        ComponentFn::Cosine => out.append("call $builtin_cosine"),
        ComponentFn::Tangent => out.append("call $builtin_tangent"),
        ComponentFn::NaturalLog => out.append("call $builtin_natural_log"),
        ComponentFn::NaturalExp => out.append("call $builtin_natural_exp"),
    }
    out.append("\n");
    proof {
        assert(out@ =~= old(out)@ + comp_fn_instr(func) + "\n"@);
    }
}


/// `$<var>`: the name of a node's slot in a comment.
pub open spec fn var_txt(var: int) -> Seq<char> {
    "$"@ + crate::numtext::dec_digits(var)
}

/// The instructions that store the first `j` lanes of a constant.
pub open spec fn const_lanes_text(var: int, lanes: Seq<u32>, j: int) -> Seq<char>
    decreases j,
{
    if j <= 0 {
        Seq::empty()
    } else {
        const_lanes_text(var, lanes, j - 1) + "f32.const "@ + crate::numtext::float_lit(
            lanes[j - 1],
        ) + "\n"@ + local_set(var, j - 1)
    }
}

/// The instructions that copy the first `j` scalar children into the lanes
/// of a made vector.
pub open spec fn make_copy_text(var: int, vars: Seq<usize>, kids: Seq<NodeId>, j: int) -> Seq<
    char,
>
    decreases j,
{
    if j <= 0 {
        Seq::empty()
    } else {
        make_copy_text(var, vars, kids, j - 1) + local_get(vars[kids[j - 1] as int] as int, 0)
            + local_set(var, j - 1)
    }
}

/// The instructions that apply an infix operator to the first `j` lanes.
pub open spec fn infix_lanes_text(
    var: int,
    a_var: int,
    b_var: int,
    op: ComponentInfixOp,
    j: int,
) -> Seq<char>
    decreases j,
{
    if j <= 0 {
        Seq::empty()
    } else {
        infix_lanes_text(var, a_var, b_var, op, j - 1) + local_get(a_var, j - 1) + local_get(
            b_var,
            j - 1,
        ) + infix_instr(op) + "\n"@ + local_set(var, j - 1)
    }
}

/// The instructions that apply a componentwise function to the first `j`
/// lanes.
pub open spec fn comp_fn_lanes_text(var: int, a_var: int, func: ComponentFn, j: int) -> Seq<char>
    decreases j,
{
    if j <= 0 {
        Seq::empty()
    } else {
        comp_fn_lanes_text(var, a_var, func, j - 1) + local_get(a_var, j - 1) + comp_fn_instr(func)
            + "\n"@ + local_set(var, j - 1)
    }
}

/// The instructions that push the first `j` lanes of the selected vector,
/// last lane first.
pub open spec fn get_component_push_text(vec_var: int, n: int, j: int) -> Seq<char>
    decreases j,
{
    if j <= 0 {
        Seq::empty()
    } else {
        get_component_push_text(vec_var, n, j - 1) + local_get(vec_var, n - j)
    }
}

/// The comparison-and-select chain for lanes `1` to `j` of a component
/// selection.
pub open spec fn get_component_select_text(ix_var: int, j: int) -> Seq<char>
    decreases j,
{
    if j <= 1 {
        Seq::empty()
    } else {
        get_component_select_text(ix_var, j - 1) + local_get(ix_var, 0) + "f32.floor\nf32.const "@
            + crate::numtext::dec_digits(j - 1) + ".0\nf32.ge\nselect\n"@
    }
}

/// The multiply-and-fold chain over the first `j` lanes of a dot product.
pub open spec fn dot_lanes_text(a_var: int, b_var: int, j: int) -> Seq<char>
    decreases j,
{
    if j <= 0 {
        Seq::empty()
    } else {
        dot_lanes_text(a_var, b_var, j - 1) + local_get(a_var, j - 1) + local_get(b_var, j - 1)
            + "f32.mul\n"@ + (if j - 1 != 0 {
            "f32.add\n"@
        } else {
            Seq::<char>::empty()
        })
    }
}

/// The code block emitted for node `o`, given every node's slot and type:
/// a comment naming the slot, the instructions of the node's kind, and a
/// closing blank line. An input node emits no instructions: its value
/// already sits in its parameter slot.
pub open spec fn node_code_spec(
    nodes: Seq<Node>,
    dtypes: Seq<Option<DataType>>,
    vars: Seq<usize>,
    o: int,
) -> Seq<char> {
    let var = vars[o] as int;
    let n = dtypes[o]->Some_0.lane_count() as int;
    match nodes[o] {
        Node::ExternInput(..) => "\n"@,
        Node::Constant(v) => ";; Constant "@ + var_txt(var) + "\n"@ + const_lanes_text(
            var,
            v.lanes(),
            n,
        ) + "\n"@,
        Node::Make(kids, _dt) => ";; Make vector "@ + var_txt(var) + "\n"@ + make_copy_text(
            var,
            vars,
            kids@,
            n,
        ) + "\n"@,
        Node::ComponentInfixOp(a, op, b) => ";; Component infix op "@ + var_txt(var) + "\n"@
            + infix_lanes_text(var, vars[a as int] as int, vars[b as int] as int, op, n) + "\n"@,
        Node::ComponentFn(func, a) => ";; Component function "@ + var_txt(var) + "\n"@
            + comp_fn_lanes_text(var, vars[a as int] as int, func, n) + "\n"@,
        Node::GetComponent(v, ix) => {
            let nv = dtypes[v as int]->Some_0.lane_count() as int;
            ";; Get component "@ + var_txt(var) + "\n"@ + get_component_push_text(
                vars[v as int] as int,
                nv,
                nv,
            ) + get_component_select_text(vars[ix as int] as int, nv) + local_set(var, 0) + "\n"@
        },
        Node::Dot(a, b) => {
            let na = dtypes[a as int]->Some_0.lane_count() as int;
            ";; Dot product "@ + var_txt(var) + "\n"@ + dot_lanes_text(
                vars[a as int] as int,
                vars[b as int] as int,
                na,
            ) + local_set(var, 0) + "\n"@
        },
    }
}


fn push_var_txt(out: &mut String, var: usize)
    ensures
        final(out)@ == old(out)@ + var_txt(var as int),
{
    out.append("$");
    crate::numtext::push_dec(out, var as u64);
    proof {
        assert(out@ =~= old(out)@ + var_txt(var as int));
    }
}

/// Everything `wf` promises of one member of the visit order.
proof fn lemma_member(st: DiscoverState, nodes: Seq<Node>, params: ParameterList, i: NodeId)
    requires
        st.wf(nodes, params),
        order_contains(st.order@, i),
    ensures
        (i as int) < nodes.len(),
        st.dtypes@[i as int] == infer_spec(nodes, i as int),
        infer_spec(nodes, i as int) is Some,
        children_in_order(nodes[i as int], st.order@),
{
    let k = choose|k: int| 0 <= k < st.order@.len() && st.order@[k] == i;
    assert(st.dtypes@[st.order@[k] as int] == infer_spec(nodes, st.order@[k] as int));
    assert(children_in_order(nodes[st.order@[k] as int], st.order@.take(k)));
    let pre = st.order@.take(k);
    assert(st.order@.take(pre.len() as int) == pre);
    match nodes[i as int] {
        Node::Make(kids, _) => {
            assert forall|j: int| 0 <= j < kids@.len() implies order_contains(
                st.order@,
                #[trigger] kids@[j],
            ) by {
                assert(order_contains(pre, kids@[j]));
                lemma_contains_extends(pre, st.order@, kids@[j]);
            }
        },
        Node::ComponentInfixOp(a, _, b) => {
            lemma_contains_extends(pre, st.order@, a);
            lemma_contains_extends(pre, st.order@, b);
        },
        Node::ComponentFn(_, a) => {
            lemma_contains_extends(pre, st.order@, a);
        },
        Node::GetComponent(a, b) => {
            lemma_contains_extends(pre, st.order@, a);
            lemma_contains_extends(pre, st.order@, b);
        },
        Node::Dot(a, b) => {
            lemma_contains_extends(pre, st.order@, a);
            lemma_contains_extends(pre, st.order@, b);
        },
        _ => {},
    }
}

/// Appends the lane stores of a constant.
fn push_const_lanes(out: &mut String, var: usize, lanes: &Vec<u32>, n: usize)
    requires
        n <= 4,
        n <= lanes@.len(),
    ensures
        final(out)@ == old(out)@ + const_lanes_text(var as int, lanes@, n as int),
{
    let mut j: usize = 0;
    proof {
        assert(old(out)@ + const_lanes_text(var as int, lanes@, 0) =~= old(out)@);
    }
    while j < n
        invariant
            j <= n,
            n <= 4,
            n <= lanes@.len(),
            out@ == old(out)@ + const_lanes_text(var as int, lanes@, j as int),
        decreases n - j,
    {
        out.append("f32.const ");
        crate::numtext::push_float_lit(out, lanes[j]);
        out.append("\n");
        push_local_set(out, var, j);
        proof {
            assert(out@ =~= old(out)@ + const_lanes_text(var as int, lanes@, j + 1));
        }
        j += 1;
    }
}

/// Appends the lane copies of a made vector.
#[verifier::loop_isolation(false)]
fn push_make_copies(
    out: &mut String,
    var: usize,
    kid_vars: &Vec<usize>,
    Ghost(vars): Ghost<Seq<usize>>,
    Ghost(kids): Ghost<Seq<NodeId>>,
    n: usize,
)
    requires
        n <= 4,
        n <= kid_vars@.len(),
        kid_vars@.len() == kids.len(),
        forall|j: int| 0 <= j < kids.len() ==> (kids[j] as int) < vars.len() && (
        #[trigger] kid_vars@[j]) == vars[kids[j] as int],
    ensures
        final(out)@ == old(out)@ + make_copy_text(var as int, vars, kids, n as int),
{
    let mut j: usize = 0;
    proof {
        assert(old(out)@ + make_copy_text(var as int, vars, kids, 0) =~= old(out)@);
    }
    while j < n
        invariant
            j <= n,
            out@ == old(out)@ + make_copy_text(var as int, vars, kids, j as int),
        decreases n - j,
    {
        push_local_get(out, kid_vars[j], 0);
        push_local_set(out, var, j);
        proof {
            assert(out@ =~= old(out)@ + make_copy_text(var as int, vars, kids, j + 1));
        }
        j += 1;
    }
}

/// Appends the lane operations of an infix node.
fn push_infix_lanes(out: &mut String, var: usize, a_var: usize, b_var: usize, op: ComponentInfixOp, n: usize)
    requires
        n <= 4,
    ensures
        final(out)@ == old(out)@ + infix_lanes_text(var as int, a_var as int, b_var as int, op, n as int),
{
    let mut j: usize = 0;
    proof {
        assert(old(out)@ + infix_lanes_text(var as int, a_var as int, b_var as int, op, 0) =~= old(
            out,
        )@);
    }
    while j < n
        invariant
            j <= n,
            n <= 4,
            out@ == old(out)@ + infix_lanes_text(var as int, a_var as int, b_var as int, op, j as int),
        decreases n - j,
    {
        push_local_get(out, a_var, j);
        push_local_get(out, b_var, j);
        push_infix_instr(out, op);
        push_local_set(out, var, j);
        proof {
            assert(out@ =~= old(out)@ + infix_lanes_text(
                var as int,
                a_var as int,
                b_var as int,
                op,
                j + 1,
            ));
        }
        j += 1;
    }
}

/// Appends the lane operations of a componentwise function node.
fn push_comp_fn_lanes(out: &mut String, var: usize, a_var: usize, func: ComponentFn, n: usize)
    requires
        n <= 4,
    ensures
        final(out)@ == old(out)@ + comp_fn_lanes_text(var as int, a_var as int, func, n as int),
{
    let mut j: usize = 0;
    proof {
        assert(old(out)@ + comp_fn_lanes_text(var as int, a_var as int, func, 0) =~= old(out)@);
    }
    while j < n
        invariant
            j <= n,
            n <= 4,
            out@ == old(out)@ + comp_fn_lanes_text(var as int, a_var as int, func, j as int),
        decreases n - j,
    {
        push_local_get(out, a_var, j);
        push_comp_fn_instr(out, func);
        push_local_set(out, var, j);
        proof {
            assert(out@ =~= old(out)@ + comp_fn_lanes_text(var as int, a_var as int, func, j + 1));
        }
        j += 1;
    }
}

/// Appends the push-and-select chain of a component selection.
fn push_get_component(out: &mut String, vec_var: usize, ix_var: usize, nv: usize)
    requires
        1 <= nv <= 4,
    ensures
        final(out)@ == old(out)@ + get_component_push_text(vec_var as int, nv as int, nv as int)
            + get_component_select_text(ix_var as int, nv as int),
{
    let mut k: usize = 0;
    proof {
        assert(old(out)@ + get_component_push_text(vec_var as int, nv as int, 0) =~= old(out)@);
    }
    while k < nv
        invariant
            k <= nv,
            1 <= nv <= 4,
            out@ == old(out)@ + get_component_push_text(vec_var as int, nv as int, k as int),
        decreases nv - k,
    {
        push_local_get(out, vec_var, nv - 1 - k);
        proof {
            assert(out@ =~= old(out)@ + get_component_push_text(vec_var as int, nv as int, k + 1));
        }
        k += 1;
    }
    let ghost base2 = out@;
    let mut k2: usize = 1;
    proof {
        assert(base2 + get_component_select_text(ix_var as int, 1) =~= base2);
    }
    while k2 < nv
        invariant
            1 <= k2,
            k2 <= nv,
            nv <= 4,
            out@ == base2 + get_component_select_text(ix_var as int, k2 as int),
        decreases nv - k2,
    {
        push_local_get(out, ix_var, 0);
        out.append("f32.floor\nf32.const ");
        crate::numtext::push_dec(out, k2 as u64);
        out.append(".0\nf32.ge\nselect\n");
        proof {
            assert(out@ =~= base2 + get_component_select_text(ix_var as int, k2 + 1));
        }
        k2 += 1;
    }
}

/// Appends the multiply-and-fold chain of a dot product.
fn push_dot_lanes(out: &mut String, a_var: usize, b_var: usize, na: usize)
    requires
        na <= 4,
    ensures
        final(out)@ == old(out)@ + dot_lanes_text(a_var as int, b_var as int, na as int),
{
    let mut j: usize = 0;
    proof {
        assert(old(out)@ + dot_lanes_text(a_var as int, b_var as int, 0) =~= old(out)@);
    }
    while j < na
        invariant
            j <= na,
            na <= 4,
            out@ == old(out)@ + dot_lanes_text(a_var as int, b_var as int, j as int),
        decreases na - j,
    {
        push_local_get(out, a_var, j);
        push_local_get(out, b_var, j);
        out.append("f32.mul\n");
        if j != 0 {
            out.append("f32.add\n");
        }
        proof {
            assert(out@ =~= old(out)@ + dot_lanes_text(a_var as int, b_var as int, j + 1));
        }
        j += 1;
    }
}

/// Appends the code block of node `o` to `out`.
fn push_node_code(
    out: &mut String,
    graph: &NodeGraph,
    st: &DiscoverState,
    Ghost(params): Ghost<ParameterList>,
    o: NodeId,
)
    requires
        graph.wf(),
        st.wf(graph.nodes@, params),
        order_contains(st.order@, o),
    ensures
        final(out)@ == old(out)@ + node_code_spec(graph.nodes@, st.dtypes@, st.vars@, o as int),
{
    proof {
        lemma_member(*st, graph.nodes@, params, o);
    }
    match graph.node(o) {
        Node::ExternInput(..) => {
            out.append("\n");
            proof {
                assert(old(out)@ + "\n"@ =~= old(out)@ + node_code_spec(
                    graph.nodes@,
                    st.dtypes@,
                    st.vars@,
                    o as int,
                ));
            }
        },
        Node::Constant(..) => {
            push_code_constant(out, graph, st, Ghost(params), o);
        },
        Node::Make(..) => {
            push_code_make(out, graph, st, Ghost(params), o);
        },
        Node::ComponentInfixOp(..) => {
            push_code_infix(out, graph, st, Ghost(params), o);
        },
        Node::ComponentFn(..) => {
            push_code_comp_fn(out, graph, st, Ghost(params), o);
        },
        Node::GetComponent(..) => {
            push_code_get_component(out, graph, st, Ghost(params), o);
        },
        Node::Dot(..) => {
            push_code_dot(out, graph, st, Ghost(params), o);
        },
    }
}

/// The `Constant` case of `push_node_code`.
#[verifier::rlimit(100)]
fn push_code_constant(
    out: &mut String,
    graph: &NodeGraph,
    st: &DiscoverState,
    Ghost(params): Ghost<ParameterList>,
    o: NodeId,
)
    requires
        graph.wf(),
        st.wf(graph.nodes@, params),
        order_contains(st.order@, o),
        graph.nodes@[o as int] is Constant,
    ensures
        final(out)@ == old(out)@ + node_code_spec(graph.nodes@, st.dtypes@, st.vars@, o as int),
{
    let ghost nodes = graph.nodes@;
    proof {
        lemma_member(*st, nodes, params, o);
    }
    let var = st.vars[o];
    let dt = match st.dtypes[o] {
        Some(d) => d,
        None => {
            proof {
                assert(false);
            }
            DataType::Scalar
        },
    };
    let n = dt.n_lanes();
    let ghost start = out@;
    match graph.node(o) {
        Node::Constant(v) => {
            proof {
                assert(infer_spec(nodes, o as int) == Some(v.dtype_spec()));
            }
            out.append(";; Constant ");
            push_var_txt(out, var);
            out.append("\n");
            let lanes = v.lane_vec();
            push_const_lanes(out, var, &lanes, n);
            out.append("\n");
            proof {
                assert(v.lanes() == lanes@);
                assert(out@ =~= start + node_code_spec(nodes, st.dtypes@, st.vars@, o as int));
            }
        },
        _ => {
            proof {
                assert(false);
            }
        },
    }
}

/// The `Make` case of `push_node_code`.
#[verifier::rlimit(100)]
fn push_code_make(
    out: &mut String,
    graph: &NodeGraph,
    st: &DiscoverState,
    Ghost(params): Ghost<ParameterList>,
    o: NodeId,
)
    requires
        graph.wf(),
        st.wf(graph.nodes@, params),
        order_contains(st.order@, o),
        graph.nodes@[o as int] is Make,
    ensures
        final(out)@ == old(out)@ + node_code_spec(graph.nodes@, st.dtypes@, st.vars@, o as int),
{
    let ghost nodes = graph.nodes@;
    proof {
        lemma_member(*st, nodes, params, o);
    }
    let var = st.vars[o];
    let dt = match st.dtypes[o] {
        Some(d) => d,
        None => {
            proof {
                assert(false);
            }
            DataType::Scalar
        },
    };
    let n = dt.n_lanes();
    let ghost start = out@;
    match graph.node(o) {
        Node::Make(kids, _mdt) => {
            out.append(";; Make vector ");
            push_var_txt(out, var);
            out.append("\n");
            let nk = kids.len();
            let mut kid_vars: Vec<usize> = Vec::new();
            let mut j: usize = 0;
            while j < nk
                invariant
                    graph.wf(),
                    st.wf(nodes, params),
                    graph.nodes@ == nodes,
                    j <= nk,
                    nk == kids@.len(),
                    nodes[o as int] == Node::Make(*kids, *_mdt),
                    order_contains(st.order@, o),
                    kid_vars@.len() == j,
                    forall|jj: int| 0 <= jj < j ==> (kids@[jj] as int) < st.vars@.len() && (
                    #[trigger] kid_vars@[jj]) == st.vars@[kids@[jj] as int],
                decreases nk - j,
            {
                proof {
                    lemma_member(*st, nodes, params, o);
                    crate::graph::lemma_make_child_bound(
                        nodes[o as int],
                        *kids,
                        *_mdt,
                        o as int,
                        j as int,
                    );
                    assert(order_contains(st.order@, kids@[j as int]));
                }
                kid_vars.push(st.vars[kids[j]]);
                j += 1;
            }
            proof {
                assert(n == kids@.len());
            }
            push_make_copies(out, var, &kid_vars, Ghost(st.vars@), Ghost(kids@), n);
            out.append("\n");
            proof {
                assert(out@ =~= start + node_code_spec(nodes, st.dtypes@, st.vars@, o as int));
            }
        },
        _ => {
            proof {
                assert(false);
            }
        },
    }
}

/// The `ComponentInfixOp` case of `push_node_code`.
#[verifier::rlimit(100)]
fn push_code_infix(
    out: &mut String,
    graph: &NodeGraph,
    st: &DiscoverState,
    Ghost(params): Ghost<ParameterList>,
    o: NodeId,
)
    requires
        graph.wf(),
        st.wf(graph.nodes@, params),
        order_contains(st.order@, o),
        graph.nodes@[o as int] is ComponentInfixOp,
    ensures
        final(out)@ == old(out)@ + node_code_spec(graph.nodes@, st.dtypes@, st.vars@, o as int),
{
    let ghost nodes = graph.nodes@;
    proof {
        lemma_member(*st, nodes, params, o);
    }
    let var = st.vars[o];
    let dt = match st.dtypes[o] {
        Some(d) => d,
        None => {
            proof {
                assert(false);
            }
            DataType::Scalar
        },
    };
    let n = dt.n_lanes();
    let ghost start = out@;
    match graph.node(o) {
        Node::ComponentInfixOp(a, op, b) => {
            proof {
                assert(order_contains(st.order@, *a));
                assert(order_contains(st.order@, *b));
            }
            let a_var = st.vars[*a];
            let b_var = st.vars[*b];
            out.append(";; Component infix op ");
            push_var_txt(out, var);
            out.append("\n");
            push_infix_lanes(out, var, a_var, b_var, *op, n);
            out.append("\n");
            proof {
                assert(out@ =~= start + node_code_spec(nodes, st.dtypes@, st.vars@, o as int));
            }
        },
        _ => {
            proof {
                assert(false);
            }
        },
    }
}

/// The `ComponentFn` case of `push_node_code`.
#[verifier::rlimit(100)]
fn push_code_comp_fn(
    out: &mut String,
    graph: &NodeGraph,
    st: &DiscoverState,
    Ghost(params): Ghost<ParameterList>,
    o: NodeId,
)
    requires
        graph.wf(),
        st.wf(graph.nodes@, params),
        order_contains(st.order@, o),
        graph.nodes@[o as int] is ComponentFn,
    ensures
        final(out)@ == old(out)@ + node_code_spec(graph.nodes@, st.dtypes@, st.vars@, o as int),
{
    let ghost nodes = graph.nodes@;
    proof {
        lemma_member(*st, nodes, params, o);
    }
    let var = st.vars[o];
    let dt = match st.dtypes[o] {
        Some(d) => d,
        None => {
            proof {
                assert(false);
            }
            DataType::Scalar
        },
    };
    let n = dt.n_lanes();
    let ghost start = out@;
    match graph.node(o) {
        Node::ComponentFn(func, a) => {
            proof {
                assert(order_contains(st.order@, *a));
            }
            let a_var = st.vars[*a];
            out.append(";; Component function ");
            push_var_txt(out, var);
            out.append("\n");
            push_comp_fn_lanes(out, var, a_var, *func, n);
            out.append("\n");
            proof {
                assert(out@ =~= start + node_code_spec(nodes, st.dtypes@, st.vars@, o as int));
            }
        },
        _ => {
            proof {
                assert(false);
            }
        },
    }
}

/// The `GetComponent` case of `push_node_code`.
#[verifier::spinoff_prover]
#[verifier::rlimit(100)]
fn push_code_get_component(
    out: &mut String,
    graph: &NodeGraph,
    st: &DiscoverState,
    Ghost(params): Ghost<ParameterList>,
    o: NodeId,
)
    requires
        graph.wf(),
        st.wf(graph.nodes@, params),
        order_contains(st.order@, o),
        graph.nodes@[o as int] is GetComponent,
    ensures
        final(out)@ == old(out)@ + node_code_spec(graph.nodes@, st.dtypes@, st.vars@, o as int),
{
    let ghost nodes = graph.nodes@;
    proof {
        lemma_member(*st, nodes, params, o);
    }
    let var = st.vars[o];
    let dt = match st.dtypes[o] {
        Some(d) => d,
        None => {
            proof {
                assert(false);
            }
            DataType::Scalar
        },
    };
    let n = dt.n_lanes();
    let ghost start = out@;
    match graph.node(o) {
        Node::GetComponent(v, ix) => {
            proof {
                assert(order_contains(st.order@, *v));
                assert(order_contains(st.order@, *ix));
                lemma_member(*st, nodes, params, *v);
            }
            let vec_var = st.vars[*v];
            let ix_var = st.vars[*ix];
            let vdt = match st.dtypes[*v] {
                Some(d) => d,
                None => {
                    proof {
                        assert(false);
                    }
                    DataType::Scalar
                },
            };
            let nv = vdt.n_lanes();
            out.append(";; Get component ");
            push_var_txt(out, var);
            out.append("\n");
            let ghost mid = out@;
            proof {
                assert(mid =~= start + ";; Get component "@ + var_txt(var as int) + "\n"@);
            }
            push_get_component(out, vec_var, ix_var, nv);
            let ghost mid2 = out@;
            push_local_set(out, var, 0);
            out.append("\n");
            proof {
                assert(out@ =~= mid2 + local_set(var as int, 0) + "\n"@);
                assert(out@ =~= start + node_code_spec(nodes, st.dtypes@, st.vars@, o as int));
            }
        },
        _ => {
            proof {
                assert(false);
            }
        },
    }
}

/// The `Dot` case of `push_node_code`.
#[verifier::rlimit(100)]
fn push_code_dot(
    out: &mut String,
    graph: &NodeGraph,
    st: &DiscoverState,
    Ghost(params): Ghost<ParameterList>,
    o: NodeId,
)
    requires
        graph.wf(),
        st.wf(graph.nodes@, params),
        order_contains(st.order@, o),
        graph.nodes@[o as int] is Dot,
    ensures
        final(out)@ == old(out)@ + node_code_spec(graph.nodes@, st.dtypes@, st.vars@, o as int),
{
    let ghost nodes = graph.nodes@;
    proof {
        lemma_member(*st, nodes, params, o);
    }
    let var = st.vars[o];
    let dt = match st.dtypes[o] {
        Some(d) => d,
        None => {
            proof {
                assert(false);
            }
            DataType::Scalar
        },
    };
    let n = dt.n_lanes();
    let ghost start = out@;
    match graph.node(o) {
        Node::Dot(a, b) => {
            proof {
                assert(order_contains(st.order@, *a));
                assert(order_contains(st.order@, *b));
                lemma_member(*st, nodes, params, *a);
            }
            let a_var = st.vars[*a];
            let b_var = st.vars[*b];
            let adt = match st.dtypes[*a] {
                Some(d) => d,
                None => {
                    proof {
                        assert(false);
                    }
                    DataType::Scalar
                },
            };
            let na = adt.n_lanes();
            out.append(";; Dot product ");
            push_var_txt(out, var);
            out.append("\n");
            push_dot_lanes(out, a_var, b_var, na);
            push_local_set(out, var, 0);
            out.append("\n");
            proof {
                assert(out@ =~= start + node_code_spec(nodes, st.dtypes@, st.vars@, o as int));
            }
        },
        _ => {
            proof {
                assert(false);
            }
        },
    }
}

/// One parameter of the compiled function.
#[derive(Debug)]
pub enum InputParameter {
    /// A declared external input, expanded to one scalar parameter per
    /// lane.
    ExternalVariable(ExternInputId, DataType),
    /// The opaque destination the results are written through; always the
    /// first parameter.
    OutputPointer(usize),
}

/// The name and type of each entry.
pub open spec fn views_of(s: Seq<(ExternInputId, DataType)>) -> Seq<(Seq<char>, DataType)> {
    s.map_values(|e: (ExternInputId, DataType)| (e.0@, e.1))
}

/// Inserts an entry into a name-sorted sequence, before the first entry
/// whose name comes later.
pub open spec fn insert_sorted(
    e: (Seq<char>, DataType),
    s: Seq<(Seq<char>, DataType)>,
) -> Seq<(Seq<char>, DataType)>
    decreases s.len(),
{
    if s.len() == 0 {
        seq![e]
    } else if lex_lt(e.0, s[0].0) {
        seq![e] + s
    } else {
        seq![s[0]] + insert_sorted(e, s.skip(1))
    }
}

/// The declared parameters in code-point order of their names: the layout
/// of the compiled function is a function of the declared interface alone.
pub open spec fn sort_params_spec(s: Seq<(Seq<char>, DataType)>) -> Seq<(Seq<char>, DataType)>
    decreases s.len(),
{
    if s.len() == 0 {
        Seq::empty()
    } else {
        insert_sorted(s.last(), sort_params_spec(s.drop_last()))
    }
}

/// Inserting at the first position whose entry's name comes later is what
/// `insert_sorted` does.
proof fn lemma_insert_at(
    e: (Seq<char>, DataType),
    s: Seq<(Seq<char>, DataType)>,
    p: int,
)
    requires
        0 <= p <= s.len(),
        forall|q: int| 0 <= q < p ==> !lex_lt(e.0, (#[trigger] s[q]).0),
        p < s.len() ==> lex_lt(e.0, s[p].0),
    ensures
        insert_sorted(e, s) == s.take(p) + seq![e] + s.skip(p),
    decreases p,
{
    if p == 0 {
        if s.len() == 0 {
            assert(insert_sorted(e, s) =~= s.take(0) + seq![e] + s.skip(0));
        } else {
            assert(insert_sorted(e, s) =~= s.take(0) + seq![e] + s.skip(0));
        }
    } else {
        assert(!lex_lt(e.0, s[0].0));
        lemma_insert_at(e, s.skip(1), p - 1);
        assert(forall|q: int| 0 <= q < p - 1 ==> (#[trigger] s.skip(1)[q]) == s[q + 1]);
        assert(s.skip(1).take(p - 1) =~= s.take(p).skip(1));
        assert(s.skip(1).skip(p - 1) =~= s.skip(p));
        assert(seq![s[0]] + (s.skip(1).take(p - 1) + seq![e] + s.skip(1).skip(p - 1)) =~= s.take(
            p,
        ) + seq![e] + s.skip(p));
    }
}

/// Sorts the declared parameters by name.
fn sorted_params(params: &ParameterList) -> (r: Vec<(ExternInputId, DataType)>)
    ensures
        views_of(r@) == sort_params_spec(views_of(params.entries@)),
{
    let entries = params.inputs();
    let n = entries.len();
    let mut r: Vec<(ExternInputId, DataType)> = Vec::new();
    let mut k: usize = 0;
    proof {
        assert(views_of(params.entries@.take(0)) =~= Seq::<(Seq<char>, DataType)>::empty());
        assert(views_of(r@) =~= sort_params_spec(views_of(params.entries@.take(0))));
    }
    while k < n
        invariant
            k <= n,
            n == params.entries@.len(),
            entries@ == params.entries@,
            views_of(r@) == sort_params_spec(views_of(params.entries@.take(k as int))),
        decreases n - k,
    {
        let id = entries[k].0.clone();
        let dt = entries[k].1;
        let rl = r.len();
        let mut p: usize = 0;
        while p < rl && !id.lt(&r[p].0)
            invariant
                p <= rl,
                rl == r@.len(),
                forall|q: int| 0 <= q < p ==> !lex_lt(id@, (#[trigger] r@[q]).0@),
            decreases rl - p,
        {
            p += 1;
        }
        proof {
            assert(p < rl ==> lex_lt(id@, r@[p as int].0@));
        }
        let ghost pre = r@;
        r.insert(p, (id, dt));
        proof {
            let ev = (params.entries@[k as int].0@, params.entries@[k as int].1);
            assert forall|q: int| 0 <= q < p implies !lex_lt(ev.0, (#[trigger] views_of(pre)[q]).0)
                by {
                assert(views_of(pre)[q] == (pre[q].0@, pre[q].1));
            }
            lemma_insert_at(ev, views_of(pre), p as int);
            assert(views_of(r@) =~= views_of(pre).take(p as int) + seq![ev] + views_of(pre).skip(
                p as int,
            ));
            let tk = params.entries@.take(k + 1);
            assert(tk.drop_last() =~= params.entries@.take(k as int));
            assert(views_of(tk).drop_last() =~= views_of(tk.drop_last()));
            assert(views_of(tk).last() == ev);
            assert(views_of(tk) =~= views_of(tk.drop_last()).push(ev));
            assert(sort_params_spec(views_of(tk)) == insert_sorted(
                views_of(tk).last(),
                sort_params_spec(views_of(tk).drop_last()),
            ));
            assert(views_of(tk).drop_last() == views_of(params.entries@.take(k as int)));
            assert(views_of(r@) =~= insert_sorted(ev, views_of(pre)));
        }
        k += 1;
    }
    proof {
        assert(params.entries@.take(n as int) =~= params.entries@);
    }
    r
}


/// The slot under which a discovered input name is stored, if any.
pub open spec fn input_slot(
    inputs: Seq<(ExternInputId, usize, DataType)>,
    name: Seq<char>,
) -> Option<int> {
    if exists|p: int| 0 <= p < inputs.len() && (#[trigger] inputs[p]).0@ == name {
        Some(
            inputs[choose|p: int| 0 <= p < inputs.len() && (#[trigger] inputs[p]).0@ == name].1
                as int,
        )
    } else {
        None
    }
}

/// With unique names, the slot looked up for an entry's name is that
/// entry's slot.
proof fn lemma_input_slot_at(inputs: Seq<(ExternInputId, usize, DataType)>, p: int)
    requires
        0 <= p < inputs.len(),
        forall|a: int, b: int|
            0 <= a < b < inputs.len() ==> (#[trigger] inputs[a]).0@ != (#[trigger] inputs[b]).0@,
    ensures
        input_slot(inputs, inputs[p].0@) == Some(inputs[p].1 as int),
{
    let q = choose|q: int| 0 <= q < inputs.len() && (#[trigger] inputs[q]).0@ == inputs[p].0@;
    if q < p {
        assert(inputs[q].0@ != inputs[p].0@);
    } else if p < q {
        assert(inputs[p].0@ != inputs[q].0@);
    }
}

/// The analysis of one graph against one declared interface: the slots and
/// types of every node the root reaches, the visit order, the discovered
/// inputs, and the declared parameters in their fixed order.
pub struct CodeAnalysis {
    pub graph: NodeGraph,
    pub root: NodeId,
    pub st: DiscoverState,
    pub params: Ghost<ParameterList>,
    pub sorted: Vec<(ExternInputId, DataType)>,
    pub param_list: Vec<InputParameter>,
    pub input_declared: Vec<bool>,
    pub out_dtype: DataType,
}

impl CodeAnalysis {
    pub open spec fn wf(&self) -> bool {
        &&& self.graph.wf()
        &&& (self.root as int) < self.graph.nodes@.len()
        &&& self.params@.wf()
        &&& self.st.wf(self.graph.nodes@, self.params@)
        &&& order_contains(self.st.order@, self.root)
        &&& self.st.dtypes@[self.root as int] == Some(self.out_dtype)
        &&& views_of(self.sorted@) == sort_params_spec(views_of(self.params@.entries@))
        &&& self.input_declared@.len() == self.st.inputs@.len()
        &&& forall|p: int|
            0 <= p < self.st.inputs@.len() ==> (#[trigger] self.input_declared@[p])
                == self.params@.contains_name(self.st.inputs@[p].0@)
        &&& self.param_list@.len() == self.sorted@.len() + 1
        &&& self.param_list@[0] == InputParameter::OutputPointer(0usize)
        &&& forall|k: int|
            0 <= k < self.sorted@.len() ==> match #[trigger] self.param_list@[k + 1] {
                InputParameter::ExternalVariable(id, dt) => id@ == self.sorted@[k].0@ && dt
                    == self.sorted@[k].1,
                _ => false,
            }
    }

    /// Analyses the graph under `root` against the declared parameters:
    /// checks every operator invariant, assigns slots, collects inputs and
    /// fixes the parameter order. Succeeds exactly when the reached part of
    /// the graph is well typed and no input name is claimed at two types.
    pub fn new(graph: NodeGraph, root: NodeId, extern_inputs: &ParameterList) -> (r: Result<
        CodeAnalysis,
        CompileError,
    >)
        requires
            graph.wf(),
            extern_inputs.wf(),
            root < graph.len_spec(),
        ensures
            match r {
                Ok(a) => {
                    &&& a.wf()
                    &&& a.graph == graph
                    &&& a.root == root
                    &&& a.params@ == *extern_inputs
                    &&& infer_spec(graph.nodes@, root as int) == Some(a.out_dtype)
                },
                Err(e) => match e {
                    CompileError::TypeMismatch => infer_spec(graph.nodes@, root as int) is None,
                    CompileError::InputTypeConflict(id) => arena_input_conflict(
                        graph.nodes@,
                        *extern_inputs,
                        id@,
                    ),
                },
            },
            infer_spec(graph.nodes@, root as int) is Some && !(exists|name: Seq<char>|
                arena_input_conflict(graph.nodes@, *extern_inputs, name)) ==> r is Ok,
    {
        let n = graph.len();
        let mut st = DiscoverState::empty(n);
        proof {
            assert forall|i: NodeId|
                order_contains(st.order@, i) <==> 0 <= (i as int) < graph.nodes@.len() && (
                #[trigger] st.dtypes@[i as int]) is Some by {
                if order_contains(st.order@, i) {
                    let k = choose|k: int| 0 <= k < st.order@.len() && st.order@[k] == i;
                }
            }
            assert(st.wf(graph.nodes@, *extern_inputs));
        }
        let dt = match discover(&graph, root, extern_inputs, &mut st) {
            Ok(d) => d,
            Err(e) => {
                proof {
                    if e is InputTypeConflict {
                        let id = e->InputTypeConflict_0;
                        assert(arena_input_conflict(graph.nodes@, *extern_inputs, id@));
                    }
                }
                return Err(e);
            },
        };
        let sorted = sorted_params(extern_inputs);
        let ni = st.inputs.len();
        let mut input_declared: Vec<bool> = Vec::new();
        let mut pi: usize = 0;
        while pi < ni
            invariant
                pi <= ni,
                ni == st.inputs@.len(),
                extern_inputs.wf(),
                input_declared@.len() == pi,
                forall|p: int|
                    0 <= p < pi ==> (#[trigger] input_declared@[p]) == extern_inputs.contains_name(
                        st.inputs@[p].0@,
                    ),
            decreases ni - pi,
        {
            let declared = match extern_inputs.get(&st.inputs[pi].0) {
                Some(_) => true,
                None => false,
            };
            input_declared.push(declared);
            pi += 1;
        }
        let mut param_list: Vec<InputParameter> = Vec::new();
        param_list.push(InputParameter::OutputPointer(0));
        let ns = sorted.len();
        let mut k: usize = 0;
        while k < ns
            invariant
                k <= ns,
                ns == sorted@.len(),
                param_list@.len() == k + 1,
                param_list@[0] == InputParameter::OutputPointer(0usize),
                forall|q: int|
                    0 <= q < k ==> match #[trigger] param_list@[q + 1] {
                        InputParameter::ExternalVariable(id, dt2) => id@ == sorted@[q].0@ && dt2
                            == sorted@[q].1,
                        _ => false,
                    },
            decreases ns - k,
        {
            let id = sorted[k].0.clone();
            let dt2 = sorted[k].1;
            param_list.push(InputParameter::ExternalVariable(id, dt2));
            k += 1;
        }
        Ok(
            CodeAnalysis {
                graph,
                root,
                st,
                params: Ghost(*extern_inputs),
                sorted,
                param_list,
                input_declared,
                out_dtype: dt,
            },
        )
    }

    /// The type of the compiled function's one logical output: the root's.
    pub fn final_output_dtype(&self) -> (r: DataType)
        requires
            self.wf(),
        ensures
            r == self.out_dtype,
            infer_spec(self.graph.nodes@, self.root as int) == Some(r),
    {
        proof {
            lemma_member(self.st, self.graph.nodes@, self.params@, self.root);
        }
        self.out_dtype
    }

    /// The parameters of the compiled function, in their fixed order: the
    /// output pointer first, then every declared input sorted by name.
    pub fn input_list(&self) -> (r: &Vec<InputParameter>)
        ensures
            r@ == self.param_list@,
    {
        &self.param_list
    }
}


/// One declared parameter expanded to its first `j` lanes: named when the
/// graph references the input, a placeholder otherwise, so unused declared
/// inputs still hold their positions.
pub open spec fn lane_params_text(slot: Option<int>, j: int) -> Seq<char>
    decreases j,
{
    if j <= 0 {
        Seq::empty()
    } else {
        lane_params_text(slot, j - 1) + (match slot {
            Some(var) => "(param "@ + var_lane(var, j - 1) + " f32) "@,
            None => "(param f32) "@,
        })
    }
}

/// The declared parameters expanded lane by lane, in sorted order.
pub open spec fn params_text(
    sorted: Seq<(Seq<char>, DataType)>,
    inputs: Seq<(ExternInputId, usize, DataType)>,
    k: int,
) -> Seq<char>
    decreases k,
{
    if k <= 0 {
        Seq::empty()
    } else {
        params_text(sorted, inputs, k - 1) + lane_params_text(
            input_slot(inputs, sorted[k - 1].0),
            sorted[k - 1].1.lane_count() as int,
        )
    }
}

/// The declaration of the compiled function: its name, the output pointer,
/// and one scalar parameter per lane of every declared input.
pub open spec fn func_decl_spec(
    name: Seq<char>,
    sorted: Seq<(Seq<char>, DataType)>,
    inputs: Seq<(ExternInputId, usize, DataType)>,
) -> Seq<char> {
    "(func $"@ + name + " "@ + "(param "@ + var_txt(0) + " i32) "@ + params_text(
        sorted,
        inputs,
        sorted.len() as int,
    )
}

/// The local declarations for the first `j` lanes of one slot.
pub open spec fn local_lanes_text(var: int, j: int) -> Seq<char>
    decreases j,
{
    if j <= 0 {
        Seq::empty()
    } else {
        local_lanes_text(var, j - 1) + "(local "@ + var_lane(var, j - 1) + " f32) \n"@
    }
}

/// The local declarations of one visited node: none for an input, whose
/// lanes live in parameters or in the input locals.
pub open spec fn node_local_spec(
    nodes: Seq<Node>,
    dtypes: Seq<Option<DataType>>,
    vars: Seq<usize>,
    o: int,
) -> Seq<char> {
    match nodes[o] {
        Node::ExternInput(..) => Seq::empty(),
        _ => local_lanes_text(vars[o] as int, dtypes[o]->Some_0.lane_count() as int),
    }
}

/// The local declarations of the first `k` visited nodes.
pub open spec fn order_locals_text(
    nodes: Seq<Node>,
    dtypes: Seq<Option<DataType>>,
    vars: Seq<usize>,
    order: Seq<NodeId>,
    k: int,
) -> Seq<char>
    decreases k,
{
    if k <= 0 {
        Seq::empty()
    } else {
        order_locals_text(nodes, dtypes, vars, order, k - 1) + node_local_spec(
            nodes,
            dtypes,
            vars,
            order[k - 1] as int,
        )
    }
}

/// Locals for the first `k` discovered inputs that are not declared
/// parameters: their lanes read as zero.
pub open spec fn extra_input_locals_text(
    inputs: Seq<(ExternInputId, usize, DataType)>,
    declared: Seq<bool>,
    k: int,
) -> Seq<char>
    decreases k,
{
    if k <= 0 {
        Seq::empty()
    } else {
        extra_input_locals_text(inputs, declared, k - 1) + (if declared[k - 1] {
            Seq::<char>::empty()
        } else {
            local_lanes_text(inputs[k - 1].1 as int, inputs[k - 1].2.lane_count() as int)
        })
    }
}

/// The code of the first `k` visited nodes, in visit order: children
/// always come before their parents, and each distinct node appears
/// exactly once.
pub open spec fn body_text_spec(
    nodes: Seq<Node>,
    dtypes: Seq<Option<DataType>>,
    vars: Seq<usize>,
    order: Seq<NodeId>,
    k: int,
) -> Seq<char>
    decreases k,
{
    if k <= 0 {
        Seq::empty()
    } else {
        body_text_spec(nodes, dtypes, vars, order, k - 1) + node_code_spec(
            nodes,
            dtypes,
            vars,
            order[k - 1] as int,
        )
    }
}

/// The store sequence for the first `j` lanes of the root: each lane is
/// written as a packed little-endian float at consecutive 4-byte offsets
/// behind the output pointer.
pub open spec fn output_text_spec(root_var: int, j: int) -> Seq<char>
    decreases j,
{
    if j <= 0 {
        Seq::empty()
    } else {
        output_text_spec(root_var, j - 1) + "local.get "@ + var_txt(0) + "\n"@ + local_get(
            root_var,
            j - 1,
        ) + "f32.store offset="@ + crate::numtext::dec_digits(4 * (j - 1)) + "\n"@
    }
}

/// The import block naming every builtin the compiled module relies on.
pub open spec fn builtin_imports_spec() -> Seq<char> {
    "(import \"builtins\" \"sine\" (func $builtin_sine (param f32) (result f32)))\n(import \"builtins\" \"cosine\" (func $builtin_cosine (param f32) (result f32)))\n(import \"builtins\" \"tangent\" (func $builtin_tangent (param f32) (result f32)))\n(import \"builtins\" \"natural_log\" (func $builtin_natural_log (param f32) (result f32)))\n(import \"builtins\" \"natural_exp\" (func $builtin_natural_exp (param f32) (result f32)))\n\n(import \"builtins\" \"power\" (func $builtin_power (param f32 f32) (result f32)))\n(import \"builtins\" \"logbase\" (func $builtin_logbase (param f32 f32) (result f32)))\n(import \"builtins\" \"greater_than\" (func $builtin_greater_than (param f32 f32) (result f32)))\n(import \"builtins\" \"less_than\" (func $builtin_less_than (param f32 f32) (result f32)))\n(import \"builtins\" \"equal_to\" (func $builtin_equal_to (param f32 f32) (result f32)))"@
}

/// The whole module: memory import, builtin imports, the function with
/// its fixed parameter order, its locals, its body, the output stores, and
/// the export under the caller's chosen name.
pub open spec fn module_text_spec(a: CodeAnalysis, name: Seq<char>) -> Seq<char> {
    "(module\n;; Import memory\n(import \"env\" \"memory\" (memory (;0;) 17))\n;; == External imports ==\n"@
        + builtin_imports_spec() + "\n\n;; == Function declaration ==\n"@ + func_decl_spec(
        name,
        views_of(a.sorted@),
        a.st.inputs@,
    ) + "\n\n;; Local variables\n"@ + order_locals_text(
        a.graph.nodes@,
        a.st.dtypes@,
        a.st.vars@,
        a.st.order@,
        a.st.order@.len() as int,
    ) + extra_input_locals_text(a.st.inputs@, a.input_declared@, a.st.inputs@.len() as int)
        + "\n;; == Compiled function (main program) ==\n"@ + body_text_spec(
        a.graph.nodes@,
        a.st.dtypes@,
        a.st.vars@,
        a.st.order@,
        a.st.order@.len() as int,
    ) + "\n;; == Output stacking ==\n"@ + output_text_spec(
        a.st.vars@[a.root as int] as int,
        a.out_dtype.lane_count() as int,
    ) + ";; == Function end ==\n  )\n  (export \""@ + name + "\" (func $"@ + name + "))\n)"@
}


impl CodeAnalysis {
    /// The function declaration text: the caller's name, the output
    /// pointer, and one parameter per lane of every declared input, sorted
    /// by name; an input the graph never reads keeps its places as
    /// placeholder parameters.
    #[verifier::rlimit(100)]
    pub fn func_name_wat(&self, func_name: &str) -> (r: String)
        requires
            self.wf(),
        ensures
            r@ == func_decl_spec(func_name@, views_of(self.sorted@), self.st.inputs@),
    {
        let mut out = String::new();
        out.append("(func $");
        out.append(func_name);
        out.append(" ");
        out.append("(param ");
        push_var_txt(&mut out, 0);
        out.append(" i32) ");
        let ghost base = out@;
        proof {
            assert(base =~= "(func $"@ + func_name@ + " "@ + "(param "@ + var_txt(0) + " i32) "@);
        }
        let ns = self.sorted.len();
        let mut k: usize = 0;
        while k < ns
            invariant
                self.wf(),
                k <= ns,
                ns == self.sorted@.len(),
                out@ == base + params_text(views_of(self.sorted@), self.st.inputs@, k as int),
            decreases ns - k,
        {
            let dt = self.sorted[k].1;
            let n = dt.n_lanes();
            let slot_opt = self.st.find_input(&self.sorted[k].0);
            let ghost sv = views_of(self.sorted@);
            let ghost spec_slot = input_slot(self.st.inputs@, sv[k as int].0);
            proof {
                match slot_opt {
                    Some(p) => {
                        lemma_input_slot_at(self.st.inputs@, p as int);
                    },
                    None => {
                        assert(spec_slot is None);
                    },
                }
                assert(sv[k as int].1 == self.sorted@[k as int].1);
            }
            let ghost base2 = out@;
            let mut j: usize = 0;
            while j < n
                invariant
                    j <= n,
                    n <= 4,
                    n == dt.lane_count(),
                    match slot_opt {
                        Some(p) => (p as int) < self.st.inputs@.len() && spec_slot == Some(
                            self.st.inputs@[p as int].1 as int,
                        ),
                        None => spec_slot is None,
                    },
                    out@ == base2 + lane_params_text(spec_slot, j as int),
                decreases n - j,
            {
                match slot_opt {
                    Some(p) => {
                        let var = self.st.inputs[p].1;
                        out.append("(param ");
                        push_var_lane(&mut out, var, j);
                        out.append(" f32) ");
                    },
                    None => {
                        out.append("(param f32) ");
                    },
                }
                proof {
                    assert(out@ =~= base2 + lane_params_text(spec_slot, j + 1));
                }
                j += 1;
            }
            proof {
                assert(out@ =~= base + params_text(views_of(self.sorted@), self.st.inputs@, k + 1));
            }
            k += 1;
        }
        out
    }
}


/// Appends the local declarations for `n` lanes of one slot.
fn push_local_lanes(out: &mut String, var: usize, n: usize)
    requires
        n <= 4,
    ensures
        final(out)@ == old(out)@ + local_lanes_text(var as int, n as int),
{
    let mut j: usize = 0;
    proof {
        assert(old(out)@ + local_lanes_text(var as int, 0) =~= old(out)@);
    }
    while j < n
        invariant
            j <= n,
            n <= 4,
            out@ == old(out)@ + local_lanes_text(var as int, j as int),
        decreases n - j,
    {
        out.append("(local ");
        push_var_lane(out, var, j);
        out.append(" f32) \n");
        proof {
            assert(out@ =~= old(out)@ + local_lanes_text(var as int, j + 1));
        }
        j += 1;
    }
}

impl CodeAnalysis {
    /// The full module text: memory import, the builtin imports, the
    /// function declaration, one scalar local per lane of every slot that
    /// is not already a parameter, the compiled body in visit order, the
    /// output stores, and the export under `func_name`.
    #[verifier::rlimit(100)]
    pub fn compile_to_wat(&self, func_name: &str) -> (r: String)
        requires
            self.wf(),
        ensures
            r@ == module_text_spec(*self, func_name@),
    {
        let ghost nodes = self.graph.nodes@;
        let mut out = String::new();
        out.append(
            "(module\n;; Import memory\n(import \"env\" \"memory\" (memory (;0;) 17))\n;; == External imports ==\n",
        );
        out.append(
            "(import \"builtins\" \"sine\" (func $builtin_sine (param f32) (result f32)))\n(import \"builtins\" \"cosine\" (func $builtin_cosine (param f32) (result f32)))\n(import \"builtins\" \"tangent\" (func $builtin_tangent (param f32) (result f32)))\n(import \"builtins\" \"natural_log\" (func $builtin_natural_log (param f32) (result f32)))\n(import \"builtins\" \"natural_exp\" (func $builtin_natural_exp (param f32) (result f32)))\n\n(import \"builtins\" \"power\" (func $builtin_power (param f32 f32) (result f32)))\n(import \"builtins\" \"logbase\" (func $builtin_logbase (param f32 f32) (result f32)))\n(import \"builtins\" \"greater_than\" (func $builtin_greater_than (param f32 f32) (result f32)))\n(import \"builtins\" \"less_than\" (func $builtin_less_than (param f32 f32) (result f32)))\n(import \"builtins\" \"equal_to\" (func $builtin_equal_to (param f32 f32) (result f32)))",
        );
        out.append("\n\n;; == Function declaration ==\n");
        let ghost p1 = out@;
        let decl = self.func_name_wat(func_name);
        out.append(decl.as_str());
        out.append("\n\n;; Local variables\n");
        let ghost p2 = out@;
        let no = self.st.order.len();
        let mut k: usize = 0;
        proof {
            assert(p2 + order_locals_text(nodes, self.st.dtypes@, self.st.vars@, self.st.order@, 0)
                =~= p2);
        }
        while k < no
            invariant
                self.wf(),
                self.graph.nodes@ == nodes,
                k <= no,
                no == self.st.order@.len(),
                out@ == p2 + order_locals_text(
                    nodes,
                    self.st.dtypes@,
                    self.st.vars@,
                    self.st.order@,
                    k as int,
                ),
            decreases no - k,
        {
            let o = self.st.order[k];
            proof {
                assert(order_contains(self.st.order@, o));
                lemma_member(self.st, nodes, self.params@, o);
            }
            let ghost pre = out@;
            match self.graph.node(o) {
                Node::ExternInput(..) => {
                    proof {
                        assert(out@ =~= pre + node_local_spec(
                            nodes,
                            self.st.dtypes@,
                            self.st.vars@,
                            o as int,
                        ));
                    }
                },
                _ => {
                    let var = self.st.vars[o];
                    let dt = match self.st.dtypes[o] {
                        Some(d) => d,
                        None => {
                            proof {
                                assert(false);
                            }
                            DataType::Scalar
                        },
                    };
                    push_local_lanes(&mut out, var, dt.n_lanes());
                    proof {
                        assert(out@ =~= pre + node_local_spec(
                            nodes,
                            self.st.dtypes@,
                            self.st.vars@,
                            o as int,
                        ));
                    }
                },
            }
            proof {
                assert(out@ =~= p2 + order_locals_text(
                    nodes,
                    self.st.dtypes@,
                    self.st.vars@,
                    self.st.order@,
                    k + 1,
                ));
            }
            k += 1;
        }
        let ghost p3 = out@;
        let ni = self.st.inputs.len();
        let mut p: usize = 0;
        proof {
            assert(p3 + extra_input_locals_text(self.st.inputs@, self.input_declared@, 0) =~= p3);
        }
        while p < ni
            invariant
                self.wf(),
                p <= ni,
                ni == self.st.inputs@.len(),
                out@ == p3 + extra_input_locals_text(
                    self.st.inputs@,
                    self.input_declared@,
                    p as int,
                ),
            decreases ni - p,
        {
            let ghost pre = out@;
            if !self.input_declared[p] {
                let var = self.st.inputs[p].1;
                let dt = self.st.inputs[p].2;
                push_local_lanes(&mut out, var, dt.n_lanes());
            }
            proof {
                assert(out@ =~= p3 + extra_input_locals_text(
                    self.st.inputs@,
                    self.input_declared@,
                    p + 1,
                ));
            }
            p += 1;
        }
        out.append("\n;; == Compiled function (main program) ==\n");
        let ghost p4 = out@;
        let mut k2: usize = 0;
        proof {
            assert(p4 + body_text_spec(nodes, self.st.dtypes@, self.st.vars@, self.st.order@, 0)
                =~= p4);
        }
        while k2 < no
            invariant
                self.wf(),
                self.graph.nodes@ == nodes,
                k2 <= no,
                no == self.st.order@.len(),
                out@ == p4 + body_text_spec(
                    nodes,
                    self.st.dtypes@,
                    self.st.vars@,
                    self.st.order@,
                    k2 as int,
                ),
            decreases no - k2,
        {
            let o = self.st.order[k2];
            proof {
                assert(order_contains(self.st.order@, o));
            }
            push_node_code(&mut out, &self.graph, &self.st, Ghost(self.params@), o);
            proof {
                assert(out@ =~= p4 + body_text_spec(
                    nodes,
                    self.st.dtypes@,
                    self.st.vars@,
                    self.st.order@,
                    k2 + 1,
                ));
            }
            k2 += 1;
        }
        out.append("\n;; == Output stacking ==\n");
        let ghost p5 = out@;
        let root_var = self.st.vars[self.root];
        let n_out = self.out_dtype.n_lanes();
        let mut j: usize = 0;
        proof {
            assert(p5 + output_text_spec(root_var as int, 0) =~= p5);
        }
        while j < n_out
            invariant
                j <= n_out,
                n_out <= 4,
                root_var == self.st.vars@[self.root as int],
                out@ == p5 + output_text_spec(root_var as int, j as int),
            decreases n_out - j,
        {
            out.append("local.get ");
            push_var_txt(&mut out, 0);
            out.append("\n");
            push_local_get(&mut out, root_var, j);
            out.append("f32.store offset=");
            crate::numtext::push_dec(&mut out, 4 * (j as u64));
            out.append("\n");
            proof {
                assert(out@ =~= p5 + output_text_spec(root_var as int, j + 1));
            }
            j += 1;
        }
        out.append(";; == Function end ==\n  )\n  (export \"");
        out.append(func_name);
        out.append("\" (func $");
        out.append(func_name);
        out.append("))\n)");
        proof {
            assert(out@ =~= module_text_spec(*self, func_name@));
        }
        out
    }
}

/// Compiles the graph under `root` against the declared parameters into
/// the text of a module exporting one function under `exported_name`.
pub fn compile(
    graph: NodeGraph,
    root: NodeId,
    params: &ParameterList,
    exported_name: &str,
) -> (r: Result<String, CompileError>)
    requires
        graph.wf(),
        params.wf(),
        root < graph.len_spec(),
    ensures
        match r {
            Ok(text) => infer_spec(graph.nodes@, root as int) is Some && exists|a: CodeAnalysis|
                {
                    &&& #[trigger] a.wf()
                    &&& a.graph == graph
                    &&& a.root == root
                    &&& a.params@ == *params
                    &&& text@ == module_text_spec(a, exported_name@)
                },
            Err(e) => match e {
                CompileError::TypeMismatch => infer_spec(graph.nodes@, root as int) is None,
                CompileError::InputTypeConflict(id) => arena_input_conflict(
                    graph.nodes@,
                    *params,
                    id@,
                ),
            },
        },
        infer_spec(graph.nodes@, root as int) is Some && !(exists|name: Seq<char>|
            arena_input_conflict(graph.nodes@, *params, name)) ==> r is Ok,
{
    let analysis = match CodeAnalysis::new(graph, root, params) {
        Ok(a) => a,
        Err(e) => {
            return Err(e);
        },
    };
    let text = analysis.compile_to_wat(exported_name);
    proof {
        assert(analysis.wf());
    }
    Ok(text)
}


/// Law (sharing): the compiled body holds one code block per visited
/// handle. The visit order contains the root, never repeats a handle, and
/// contains every child of a visited node: a node that two parents share
/// is emitted exactly once, while two equal nodes built separately have
/// two handles and are emitted once each.
pub proof fn lemma_emission_shares_nodes(a: CodeAnalysis)
    requires
        a.wf(),
    ensures
        order_contains(a.st.order@, a.root),
        forall|k: int, l: int|
            0 <= k < l < a.st.order@.len() ==> a.st.order@[k] != a.st.order@[l],
        forall|k: int|
            0 <= k < a.st.order@.len() ==> children_in_order(
                a.graph.nodes@[#[trigger] a.st.order@[k] as int],
                a.st.order@,
            ),
{
    assert forall|k: int| 0 <= k < a.st.order@.len() implies children_in_order(
        a.graph.nodes@[#[trigger] a.st.order@[k] as int],
        a.st.order@,
    ) by {
        assert(order_contains(a.st.order@, a.st.order@[k]));
        lemma_member(a.st, a.graph.nodes@, a.params@, a.st.order@[k]);
    }
}

/// Law (layout stability): two compilations against one declared
/// interface have the same parameter list — the same arity, order, names
/// and types — whatever their graphs, so a host can swap compiled modules
/// without renegotiating the call signature.
pub proof fn lemma_parameter_layout_stable(a1: CodeAnalysis, a2: CodeAnalysis)
    requires
        a1.wf(),
        a2.wf(),
        views_of(a1.params@.entries@) == views_of(a2.params@.entries@),
    ensures
        a1.param_list@.len() == a2.param_list@.len(),
        forall|k: int|
            0 <= k < a1.param_list@.len() ==> match (
                #[trigger] a1.param_list@[k],
                a2.param_list@[k],
            ) {
                (InputParameter::OutputPointer(x), InputParameter::OutputPointer(y)) => x == y,
                (
                    InputParameter::ExternalVariable(i1, d1),
                    InputParameter::ExternalVariable(i2, d2),
                ) => i1@ == i2@ && d1 == d2,
                _ => false,
            },
{
    assert(views_of(a1.sorted@) == views_of(a2.sorted@));
    assert(views_of(a1.sorted@).len() == a1.sorted@.len());
    assert(views_of(a2.sorted@).len() == a2.sorted@.len());
    assert forall|k: int|
        0 <= k < a1.param_list@.len() implies match (
        #[trigger] a1.param_list@[k],
        a2.param_list@[k],
    ) {
        (InputParameter::OutputPointer(x), InputParameter::OutputPointer(y)) => x == y,
        (InputParameter::ExternalVariable(i1, d1), InputParameter::ExternalVariable(i2, d2)) => i1@
            == i2@ && d1 == d2,
        _ => false,
    } by {
        if k == 0 {
        } else {
            assert(a1.param_list@[(k - 1) + 1] == a1.param_list@[k]);
            assert(a2.param_list@[(k - 1) + 1] == a2.param_list@[k]);
            assert(views_of(a1.sorted@)[k - 1] == views_of(a2.sorted@)[k - 1]);
            assert(views_of(a1.sorted@)[k - 1] == (a1.sorted@[k - 1].0@, a1.sorted@[k - 1].1));
            assert(views_of(a2.sorted@)[k - 1] == (a2.sorted@[k - 1].0@, a2.sorted@[k - 1].1));
            assert(match a1.param_list@[k] {
                InputParameter::ExternalVariable(id, dt) => id@ == a1.sorted@[k - 1].0@ && dt
                    == a1.sorted@[k - 1].1,
                _ => false,
            });
            assert(match a2.param_list@[k] {
                InputParameter::ExternalVariable(id, dt) => id@ == a2.sorted@[k - 1].0@ && dt
                    == a2.sorted@[k - 1].1,
                _ => false,
            });
        }
    }
}


/// The `Make` case of the discovery: every child must be a scalar and the
/// child count must be the type's lane count.
#[verifier::rlimit(100)]
fn discover_make(
    graph: &NodeGraph,
    i: NodeId,
    params: &ParameterList,
    st: &mut DiscoverState,
) -> (r: Result<DataType, CompileError>)
    requires
        graph.wf(),
        params.wf(),
        i < graph.len_spec(),
        graph.len_spec() <= usize::MAX,
        old(st).wf(graph.nodes@, *params),
        old(st).dtypes@[i as int] is None,
        graph.nodes@[i as int] is Make,
    ensures
        final(st).wf(graph.nodes@, *params),
        extends(*old(st), *final(st)),
        forall|j: int|
            (i as int) < j < graph.nodes@.len() ==> final(st).dtypes@[j] == old(st).dtypes@[j],
        match r {
            Ok(dt) => infer_spec(graph.nodes@, i as int) == Some(dt) && final(st).dtypes@[i as int]
                == Some(dt) && order_contains(final(st).order@, i),
            Err(e) => match e {
                CompileError::TypeMismatch => infer_spec(graph.nodes@, i as int) is None,
                CompileError::InputTypeConflict(id) => arena_input_conflict(
                    graph.nodes@,
                    *params,
                    id@,
                ),
            },
        },
    decreases i, 0int,
{
    let ghost nodes = graph.nodes@;
    proof {
        assert(extends(*st, *st)) by {
            assert(st.order@.take(st.order@.len() as int) =~= st.order@);
            assert(st.inputs@.take(st.inputs@.len() as int) =~= st.inputs@);
        }
        assert(nodes[i as int].wf_at(i as int));
    }
    match graph.node(i) {
        Node::Make(kids, dt) => {
            let nl = dt.n_lanes();
            if kids.len() != nl {
                return Err(CompileError::TypeMismatch);
            }
            let ghost st0 = *st;
            let nk = kids.len();
            let mut j: usize = 0;
            while j < nk
                invariant
                    graph.wf(),
                    params.wf(),
                    graph.nodes@ == nodes,
                    i < graph.len_spec(),
                    nodes[i as int] == Node::Make(*kids, *dt),
                    nk == kids@.len(),
                    nk == (*dt).lane_count(),
                    j <= nk,
                    st.wf(nodes, *params),
                    st0 == *old(st),
                    st.dtypes@[i as int] is None,
                    extends(st0, *st),
                    forall|jx: int|
                        (i as int) < jx < nodes.len() ==> st.dtypes@[jx] == st0.dtypes@[jx],
                    all_scalar_spec(nodes, kids@, i as int, 0) == all_scalar_spec(
                        nodes,
                        kids@,
                        i as int,
                        j as int,
                    ),
                    forall|jj: int|
                        0 <= jj < j ==> (#[trigger] st.dtypes@[kids@[jj] as int]) is Some,
                decreases nk - j,
            {
                proof {
                    assert(nodes[i as int].wf_at(i as int));
                    crate::graph::lemma_make_child_bound(
                        nodes[i as int],
                        *kids,
                        *dt,
                        i as int,
                        j as int,
                    );
                }
                let ghost stj = *st;
                let tk = match discover(graph, kids[j], params, st) {
                    Ok(t) => t,
                    Err(e) => {
                        proof {
                            lemma_extends_trans(st0, stj, *st);
                            if e is TypeMismatch {
                                assert(!all_scalar_spec(nodes, kids@, i as int, j as int));
                            }
                        }
                        return Err(e);
                    },
                };
                if tk != DataType::Scalar {
                    proof {
                        lemma_extends_trans(st0, stj, *st);
                        assert(!all_scalar_spec(nodes, kids@, i as int, j as int));
                    }
                    return Err(CompileError::TypeMismatch);
                }
                proof {
                    lemma_extends_trans(st0, stj, *st);
                    assert(all_scalar_spec(nodes, kids@, i as int, j as int) == all_scalar_spec(
                        nodes,
                        kids@,
                        i as int,
                        j + 1,
                    ));
                    assert forall|jj: int| 0 <= jj < j + 1 implies (#[trigger] st.dtypes@[kids@[jj]
                        as int]) is Some by {
                        if jj < j {
                            assert(stj.dtypes@[kids@[jj] as int] is Some);
                        }
                    }
                }
                j += 1;
            }
            proof {
                assert(all_scalar_spec(nodes, kids@, i as int, nk as int));
                assert(infer_spec(nodes, i as int) == Some(*dt));
                assert forall|jj: int| 0 <= jj < kids@.len() implies order_contains(
                    st.order@,
                    #[trigger] kids@[jj],
                ) by {
                    assert(st.dtypes@[kids@[jj] as int] is Some);
                }
            }
            let ghost st2 = *st;
            record_visit(st, Ghost(nodes), Ghost(*params), i, *dt, i + 1);
            proof {
                lemma_extends_trans(st0, st2, *st);
            }
            Ok(*dt)
        },
        _ => {
            proof {
                assert(false);
            }
            Err(CompileError::TypeMismatch)
        },
    }
}

/// Discovers an ordered pair of children below one parent, propagating the
/// first failure.
#[verifier::rlimit(100)]
fn discover_pair(
    graph: &NodeGraph,
    a: NodeId,
    b: NodeId,
    Ghost(bound): Ghost<int>,
    params: &ParameterList,
    st: &mut DiscoverState,
) -> (r: Result<(DataType, DataType), CompileError>)
    requires
        graph.wf(),
        params.wf(),
        (a as int) < bound,
        (b as int) < bound,
        bound <= graph.len_spec(),
        old(st).wf(graph.nodes@, *params),
    ensures
        final(st).wf(graph.nodes@, *params),
        extends(*old(st), *final(st)),
        forall|j: int|
            bound <= j < graph.nodes@.len() ==> final(st).dtypes@[j] == old(st).dtypes@[j],
        match r {
            Ok(pair) => {
                &&& infer_spec(graph.nodes@, a as int) == Some(pair.0)
                &&& infer_spec(graph.nodes@, b as int) == Some(pair.1)
                &&& order_contains(final(st).order@, a)
                &&& order_contains(final(st).order@, b)
                &&& final(st).dtypes@[a as int] is Some
                &&& final(st).dtypes@[b as int] is Some
            },
            Err(e) => match e {
                CompileError::TypeMismatch => infer_spec(graph.nodes@, a as int) is None
                    || infer_spec(graph.nodes@, b as int) is None,
                CompileError::InputTypeConflict(id) => arena_input_conflict(
                    graph.nodes@,
                    *params,
                    id@,
                ),
            },
        },
    decreases bound, 0int,
{
    let ghost st0 = *st;
    proof {
        assert(extends(*st, *st)) by {
            assert(st.order@.take(st.order@.len() as int) =~= st.order@);
            assert(st.inputs@.take(st.inputs@.len() as int) =~= st.inputs@);
        }
    }
    let ta = match discover(graph, a, params, st) {
        Ok(t) => t,
        Err(e) => {
            return Err(e);
        },
    };
    let ghost st1 = *st;
    let tb = match discover(graph, b, params, st) {
        Ok(t) => t,
        Err(e) => {
            proof {
                lemma_extends_trans(st0, st1, *st);
            }
            return Err(e);
        },
    };
    proof {
        lemma_extends_trans(st0, st1, *st);
        assert(st.dtypes@[a as int] is Some);
        assert(order_contains(st.order@, a));
        assert(order_contains(st.order@, b));
    }
    Ok((ta, tb))
}

} // verus!
