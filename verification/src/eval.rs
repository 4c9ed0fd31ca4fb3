//! The native evaluator: a recursive interpreter for a node graph, given a
//! context of named input values and a table of scalar builtin operations.
//!
//! Scalar arithmetic is not performed by the library itself: every lane
//! operation is delegated to a caller-supplied `builtins` function from an
//! operation code and two lane bit patterns to a lane bit pattern, just as
//! the compiled module imports its builtins from the host. The result of an
//! evaluation is pinned down relative to a mathematical model of that
//! table: for every model `m` that the table obeys, the result equals
//! `eval_node_spec` under `m`.

use vstd::prelude::*;

use crate::dtype::{ComponentFn, ComponentInfixOp, DataType};
use crate::graph::{Node, NodeGraph, NodeId};
use crate::inputs::{ExternInputId, ExternParameters};
use crate::value::{lemma_lanes_match_dtype, value_of_lanes, Value};

verus! {

/// Why an evaluation failed.
#[derive(Debug)]
pub enum EvalError {
    /// An operator's inputs did not have the types the operator requires.
    TypeMismatch,
    /// An external input name was absent from the context.
    BadInputId(ExternInputId),
}

/// A mathematical model of a builtin table: operation code and two lane
/// patterns in, one lane pattern out.
pub type LaneOps = spec_fn(u32, u32, u32) -> u32;

/// What evaluating a node yields, at the specification level.
pub enum EvalOutcome {
    Value(Value),
    TypeError,
    MissingInput(Seq<char>),
}

/// The table can be called on any arguments.
pub open spec fn ops_callable<F: Fn(u32, u32, u32) -> u32>(f: F) -> bool {
    forall|args: (u32, u32, u32)| #[trigger] call_requires(f, args)
}

/// Every result the table can return agrees with the model `m`.
pub open spec fn ops_obey<F: Fn(u32, u32, u32) -> u32>(f: F, m: LaneOps) -> bool {
    forall|args: (u32, u32, u32), r: u32| #[trigger]
        call_ensures(f, args, r) ==> r == m(args.0, args.1, args.2)
}

/// Applying the infix operator `code` to two lane sequences of one length.
pub open spec fn lanes_map2(code: u32, a: Seq<u32>, b: Seq<u32>, m: LaneOps) -> Seq<u32> {
    Seq::new(a.len(), |j: int| m(code, a[j], b[j]))
}

/// Applying the unary function `code` to each lane; the second operand of
/// the table is passed as zero.
pub open spec fn lanes_map1(code: u32, a: Seq<u32>, m: LaneOps) -> Seq<u32> {
    Seq::new(a.len(), |j: int| m(code, a[j], 0u32))
}

/// The left fold that sums the first `j` pairwise lane products, starting
/// from the pattern of `+0.0`.
pub open spec fn dot_fold(a: Seq<u32>, b: Seq<u32>, j: int, m: LaneOps) -> u32
    decreases j,
{
    if j <= 0 {
        0u32
    } else {
        m(
            ComponentInfixOp::Add.code_spec(),
            dot_fold(a, b, j - 1, m),
            m(ComponentInfixOp::Multiply.code_spec(), a[j - 1], b[j - 1]),
        )
    }
}

/// The lane of an `n`-lane value that `GetComponent` selects for an index
/// whose bit pattern is `bits`: the floor of the index, clamped to
/// `[0, n - 1]`. An index that is not a number selects lane zero.
pub open spec fn floor_clamp_index(bits: u32, n: nat) -> nat
    recommends
        1 <= n <= 4,
{
    let s = bits as int / 0x8000_0000;
    let e = (bits as int / 0x80_0000) % 0x100;
    let m = bits as int % 0x80_0000;
    if e == 255 && m != 0 {
        0
    } else if s == 1 {
        0
    } else if e >= 130 {
        (n - 1) as nat
    } else if e < 127 {
        0
    } else {
        let t = if e == 127 {
            1int
        } else if e == 128 {
            2 + m / 0x40_0000
        } else {
            4 + m / 0x20_0000
        };
        if t > n - 1 {
            (n - 1) as nat
        } else {
            t as nat
        }
    }
}

/// Exec computation of `floor_clamp_index`.
pub fn floor_clamp_lane(bits: u32, n: usize) -> (r: usize)
    requires
        1 <= n <= 4,
    ensures
        r == floor_clamp_index(bits, n as nat),
        r < n,
{
    let s: u32 = bits / 0x8000_0000;
    let e: u32 = (bits / 0x80_0000) % 0x100;
    let m: u32 = bits % 0x80_0000;
    if e == 255 && m != 0 {
        0
    } else if s == 1 {
        0
    } else if e >= 130 {
        n - 1
    } else if e < 127 {
        0
    } else {
        let t: u32 = if e == 127 {
            1
        } else if e == 128 {
            2 + m / 0x40_0000
        } else {
            4 + m / 0x20_0000
        };
        let t: usize = t as usize;
        if t > n - 1 {
            n - 1
        } else {
            t
        }
    }
}

/// The lanes that a `Make` node fills from lane `j` on: each remaining
/// child must evaluate to a scalar; lanes past the children stay zero;
/// children past the lane count are ignored.
pub open spec fn make_lanes_spec(
    nodes: Seq<Node>,
    ctx: ExternParameters,
    kids: Seq<NodeId>,
    n: int,
    parent: int,
    j: int,
    m: LaneOps,
) -> Result<Seq<u32>, EvalOutcome>
    decreases parent, 0int, (n - j),
{
    if j >= n {
        Ok(Seq::empty())
    } else if j >= kids.len() {
        Ok(Seq::new((n - j) as nat, |_k: int| 0u32))
    } else if (kids[j] as int) < parent && 0 <= parent {
        match eval_node_spec(nodes, ctx, kids[j] as int, m) {
            EvalOutcome::Value(Value::Scalar(x)) => match make_lanes_spec(
                nodes,
                ctx,
                kids,
                n,
                parent,
                j + 1,
                m,
            ) {
                Ok(rest) => Ok(seq![x] + rest),
                Err(e) => Err(e),
            },
            EvalOutcome::Value(_) => Err(EvalOutcome::TypeError),
            err => Err(err),
        }
    } else {
        Err(EvalOutcome::TypeError)
    }
}

/// What evaluating node `i` yields under the lane-operation model `m`:
/// children are evaluated before their parent, the first failure
/// propagates, and operator type rules are checked on the values
/// themselves.
pub open spec fn eval_node_spec(
    nodes: Seq<Node>,
    ctx: ExternParameters,
    i: int,
    m: LaneOps,
) -> EvalOutcome
    decreases i, 1int, 0int,
{
    if i < 0 || i >= nodes.len() {
        EvalOutcome::TypeError
    } else {
        match nodes[i] {
            Node::Constant(v) => EvalOutcome::Value(v),
            Node::ExternInput(id, _dtype) => if ctx.contains_name(id@) {
                EvalOutcome::Value(ctx.value_of(id@))
            } else {
                EvalOutcome::MissingInput(id@)
            },
            Node::Make(kids, dtype) => match make_lanes_spec(
                nodes,
                ctx,
                kids@,
                dtype.lane_count() as int,
                i,
                0,
                m,
            ) {
                Ok(lanes) => EvalOutcome::Value(value_of_lanes(dtype, lanes)),
                Err(e) => e,
            },
            Node::ComponentInfixOp(a, op, b) => if (a as int) < i && (b as int) < i {
                match eval_node_spec(nodes, ctx, a as int, m) {
                    EvalOutcome::Value(va) => match eval_node_spec(nodes, ctx, b as int, m) {
                        EvalOutcome::Value(vb) => if va.dtype_spec() == vb.dtype_spec() {
                            EvalOutcome::Value(
                                value_of_lanes(
                                    va.dtype_spec(),
                                    lanes_map2(op.code_spec(), va.lanes(), vb.lanes(), m),
                                ),
                            )
                        } else {
                            EvalOutcome::TypeError
                        },
                        e => e,
                    },
                    e => e,
                }
            } else {
                EvalOutcome::TypeError
            },
            Node::ComponentFn(func, a) => if (a as int) < i {
                match eval_node_spec(nodes, ctx, a as int, m) {
                    EvalOutcome::Value(va) => EvalOutcome::Value(
                        value_of_lanes(
                            va.dtype_spec(),
                            lanes_map1(func.code_spec(), va.lanes(), m),
                        ),
                    ),
                    e => e,
                }
            } else {
                EvalOutcome::TypeError
            },
            Node::GetComponent(vector, index) => if (vector as int) < i && (index as int) < i {
                match eval_node_spec(nodes, ctx, vector as int, m) {
                    EvalOutcome::Value(vv) => match eval_node_spec(nodes, ctx, index as int, m) {
                        EvalOutcome::Value(Value::Scalar(x)) => EvalOutcome::Value(
                            Value::Scalar(
                                vv.lanes()[floor_clamp_index(x, vv.lanes().len()) as int],
                            ),
                        ),
                        EvalOutcome::Value(_) => EvalOutcome::TypeError,
                        e => e,
                    },
                    e => e,
                }
            } else {
                EvalOutcome::TypeError
            },
            Node::Dot(a, b) => if (a as int) < i && (b as int) < i {
                match eval_node_spec(nodes, ctx, a as int, m) {
                    EvalOutcome::Value(va) => match eval_node_spec(nodes, ctx, b as int, m) {
                        EvalOutcome::Value(vb) => if va is Scalar && vb is Scalar {
                            EvalOutcome::Value(
                                Value::Scalar(
                                    m(
                                        ComponentInfixOp::Multiply.code_spec(),
                                        va.lanes()[0],
                                        vb.lanes()[0],
                                    ),
                                ),
                            )
                        } else if va.dtype_spec() == vb.dtype_spec() {
                            EvalOutcome::Value(
                                Value::Scalar(
                                    dot_fold(
                                        va.lanes(),
                                        vb.lanes(),
                                        va.lanes().len() as int,
                                        m,
                                    ),
                                ),
                            )
                        } else {
                            EvalOutcome::TypeError
                        },
                        e => e,
                    },
                    e => e,
                }
            } else {
                EvalOutcome::TypeError
            },
        }
    }
}

/// How an exec result corresponds to a specification outcome.
pub open spec fn outcome_matches(r: Result<Value, EvalError>, o: EvalOutcome) -> bool {
    match r {
        Ok(v) => o == EvalOutcome::Value(v),
        Err(EvalError::TypeMismatch) => o is TypeError,
        Err(EvalError::BadInputId(id)) => o == EvalOutcome::MissingInput(id@),
    }
}

/// Law: a constant node evaluates to exactly its value, whatever the
/// context, the builtin model and the value's type.
pub proof fn lemma_eval_constant(
    nodes: Seq<Node>,
    ctx: ExternParameters,
    i: int,
    v: Value,
    m: LaneOps,
)
    requires
        0 <= i < nodes.len(),
        nodes[i] == Node::Constant(v),
    ensures
        eval_node_spec(nodes, ctx, i, m) == EvalOutcome::Value(v),
{
}

/// Law: selecting a component of a four-lane vector assembled from scalar
/// constants picks the lane given by the floor of the constant index,
/// clamped to the four lanes: an index below zero selects the first lane,
/// an index at or beyond the last lane selects the final one.
pub proof fn lemma_eval_get_component_of_make(
    nodes: Seq<Node>,
    ctx: ExternParameters,
    m: LaneOps,
    kv: Vec<NodeId>,
    xs: Seq<u32>,
    mk: NodeId,
    ci: NodeId,
    gi: NodeId,
    ib: u32,
)
    requires
        (gi as int) < nodes.len(),
        mk < gi,
        ci < gi,
        kv@.len() == 4,
        xs.len() == 4,
        forall|j: int|
            0 <= j < 4 ==> (#[trigger] kv@[j]) < mk && nodes[kv@[j] as int] == Node::Constant(
                Value::Scalar(xs[j]),
            ),
        nodes[mk as int] == Node::Make(kv, DataType::Vec4),
        nodes[ci as int] == Node::Constant(Value::Scalar(ib)),
        nodes[gi as int] == Node::GetComponent(mk, ci),
    ensures
        eval_node_spec(nodes, ctx, gi as int, m) == EvalOutcome::Value(
            Value::Scalar(xs[floor_clamp_index(ib, 4) as int]),
        ),
{
    assert(eval_node_spec(nodes, ctx, kv@[0] as int, m) == EvalOutcome::Value(
        Value::Scalar(xs[0]),
    ));
    assert(eval_node_spec(nodes, ctx, kv@[1] as int, m) == EvalOutcome::Value(
        Value::Scalar(xs[1]),
    ));
    assert(eval_node_spec(nodes, ctx, kv@[2] as int, m) == EvalOutcome::Value(
        Value::Scalar(xs[2]),
    ));
    assert(eval_node_spec(nodes, ctx, kv@[3] as int, m) == EvalOutcome::Value(
        Value::Scalar(xs[3]),
    ));
    assert(make_lanes_spec(nodes, ctx, kv@, 4, mk as int, 4, m) == Ok::<Seq<u32>, EvalOutcome>(
        Seq::empty(),
    ));
    assert(make_lanes_spec(nodes, ctx, kv@, 4, mk as int, 3, m) == Ok::<Seq<u32>, EvalOutcome>(
        seq![xs[3]] + Seq::empty(),
    ));
    assert(make_lanes_spec(nodes, ctx, kv@, 4, mk as int, 2, m) == Ok::<Seq<u32>, EvalOutcome>(
        seq![xs[2]] + (seq![xs[3]] + Seq::empty()),
    ));
    assert(make_lanes_spec(nodes, ctx, kv@, 4, mk as int, 1, m) == Ok::<Seq<u32>, EvalOutcome>(
        seq![xs[1]] + (seq![xs[2]] + (seq![xs[3]] + Seq::empty())),
    ));
    assert(make_lanes_spec(nodes, ctx, kv@, 4, mk as int, 0, m) == Ok::<Seq<u32>, EvalOutcome>(
        seq![xs[0]] + (seq![xs[1]] + (seq![xs[2]] + (seq![xs[3]] + Seq::empty()))),
    ));
    let lanes = seq![xs[0]] + (seq![xs[1]] + (seq![xs[2]] + (seq![xs[3]] + Seq::empty())));
    assert(lanes =~= xs);
    let vv = value_of_lanes(DataType::Vec4, xs);
    assert(eval_node_spec(nodes, ctx, mk as int, m) == EvalOutcome::Value(vv));
    assert(eval_node_spec(nodes, ctx, ci as int, m) == EvalOutcome::Value(Value::Scalar(ib)));
    assert(vv.lanes() =~= xs);
    assert(eval_node_spec(nodes, ctx, gi as int, m) == EvalOutcome::Value(
        Value::Scalar(vv.lanes()[floor_clamp_index(ib, vv.lanes().len()) as int]),
    ));
}

/// Law: the dot product of a value with itself evaluates to the sum of its
/// squared lanes: for a scalar, the single self-product; for a vector, the
/// left fold of `add` over the lane self-products under the builtin model.
pub proof fn lemma_eval_dot_self(
    nodes: Seq<Node>,
    ctx: ExternParameters,
    m: LaneOps,
    a: NodeId,
    di: int,
    va: Value,
)
    requires
        0 <= di < nodes.len(),
        (a as int) < di,
        nodes[di] == Node::Dot(a, a),
        eval_node_spec(nodes, ctx, a as int, m) == EvalOutcome::Value(va),
    ensures
        eval_node_spec(nodes, ctx, di, m) == (if va is Scalar {
            EvalOutcome::Value(
                Value::Scalar(
                    m(ComponentInfixOp::Multiply.code_spec(), va.lanes()[0], va.lanes()[0]),
                ),
            )
        } else {
            EvalOutcome::Value(
                Value::Scalar(dot_fold(va.lanes(), va.lanes(), va.lanes().len() as int, m)),
            )
        }),
{
}

/// Calls the builtin table on each pair of lanes.
fn apply_map2<F: Fn(u32, u32, u32) -> u32 + Copy>(
    builtins: F,
    code: u32,
    a: &Vec<u32>,
    b: &Vec<u32>,
) -> (out: Vec<u32>)
    requires
        ops_callable(builtins),
        a@.len() == b@.len(),
    ensures
        out@.len() == a@.len(),
        forall|j: int|
            0 <= j < out@.len() ==> call_ensures(
                builtins,
                (code, a@[j], b@[j]),
                #[trigger] out@[j],
            ),
{
    let n = a.len();
    let mut out: Vec<u32> = Vec::new();
    let mut j: usize = 0;
    while j < n
        invariant
            ops_callable(builtins),
            j <= n,
            n == a@.len(),
            n == b@.len(),
            out@.len() == j,
            forall|k: int|
                0 <= k < j ==> call_ensures(builtins, (code, a@[k], b@[k]), #[trigger] out@[k]),
        decreases n - j,
    {
        assert(call_requires(builtins, (code, a@[j as int], b@[j as int])));
        let r = builtins(code, a[j], b[j]);
        out.push(r);
        j += 1;
    }
    out
}

/// Calls the builtin table on each lane, with zero as the unused operand.
fn apply_map1<F: Fn(u32, u32, u32) -> u32 + Copy>(builtins: F, code: u32, a: &Vec<u32>) -> (out:
    Vec<u32>)
    requires
        ops_callable(builtins),
    ensures
        out@.len() == a@.len(),
        forall|j: int|
            0 <= j < out@.len() ==> call_ensures(builtins, (code, a@[j], 0u32), #[trigger] out@[j]),
{
    let n = a.len();
    let mut out: Vec<u32> = Vec::new();
    let mut j: usize = 0;
    while j < n
        invariant
            ops_callable(builtins),
            j <= n,
            n == a@.len(),
            out@.len() == j,
            forall|k: int|
                0 <= k < j ==> call_ensures(builtins, (code, a@[k], 0u32), #[trigger] out@[k]),
        decreases n - j,
    {
        assert(call_requires(builtins, (code, a@[j as int], 0u32)));
        let r = builtins(code, a[j], 0);
        out.push(r);
        j += 1;
    }
    out
}

/// Evaluates node `root` of `graph` under the context `ctx`, delegating
/// every scalar operation to `builtins`.
///
/// For every model `m` that `builtins` obeys, the result is exactly
/// `eval_node_spec(graph.nodes@, *ctx, root as int, m)`: the value on
/// success, a type mismatch when and only when the specification says so,
/// and the missing input's name otherwise.
pub fn evaluate_node<F: Fn(u32, u32, u32) -> u32 + Copy>(
    graph: &NodeGraph,
    root: NodeId,
    ctx: &ExternParameters,
    builtins: F,
) -> (r: Result<Value, EvalError>)
    requires
        graph.wf(),
        ctx.wf(),
        root < graph.len_spec(),
        ops_callable(builtins),
    ensures
        forall|m: LaneOps|
            ops_obey(builtins, m) ==> outcome_matches(
                r,
                eval_node_spec(graph.nodes@, *ctx, root as int, m),
            ),
    decreases root,
{
    let ghost ns = graph.nodes@;
    proof {
        assert(ns[root as int].wf_at(root as int));
    }
    match graph.node(root) {
        Node::Constant(v) => {
            Ok(*v)
        },
        Node::ExternInput(id, _dtype) => {
            match ctx.get(id) {
                Some(v) => Ok(*v),
                None => Err(EvalError::BadInputId(id.clone())),
            }
        },
        Node::ComponentInfixOp(a, op, b) => {
            let ra = evaluate_node(graph, *a, ctx, builtins);
            let va = match ra {
                Ok(v) => v,
                Err(e) => {
                    return Err(e);
                },
            };
            let rb = evaluate_node(graph, *b, ctx, builtins);
            let vb = match rb {
                Ok(v) => v,
                Err(e) => {
                    return Err(e);
                },
            };
            if va.dtype() != vb.dtype() {
                return Err(EvalError::TypeMismatch);
            }
            let la = va.lane_vec();
            let lb = vb.lane_vec();
            let out = apply_map2(builtins, op.code(), &la, &lb);
            let v = Value::from_lanes(va.dtype(), &out);
            proof {
                assert forall|m: LaneOps| ops_obey(builtins, m) implies outcome_matches(
                    Ok::<Value, EvalError>(v),
                    eval_node_spec(ns, *ctx, root as int, m),
                ) by {
                    assert(out@ =~= lanes_map2(op.code_spec(), va.lanes(), vb.lanes(), m));
                    assert(out@.take(va.dtype_spec().lane_count() as int) =~= out@);
                }
            }
            Ok(v)
        },
        Node::ComponentFn(func, a) => {
            let ra = evaluate_node(graph, *a, ctx, builtins);
            let va = match ra {
                Ok(v) => v,
                Err(e) => {
                    return Err(e);
                },
            };
            let la = va.lane_vec();
            let out = apply_map1(builtins, func.code(), &la);
            let v = Value::from_lanes(va.dtype(), &out);
            proof {
                assert forall|m: LaneOps| ops_obey(builtins, m) implies outcome_matches(
                    Ok::<Value, EvalError>(v),
                    eval_node_spec(ns, *ctx, root as int, m),
                ) by {
                    assert(out@ =~= lanes_map1(func.code_spec(), va.lanes(), m));
                    assert(out@.take(va.dtype_spec().lane_count() as int) =~= out@);
                }
            }
            Ok(v)
        },
        Node::GetComponent(vector, index) => {
            let rv = evaluate_node(graph, *vector, ctx, builtins);
            let vv = match rv {
                Ok(v) => v,
                Err(e) => {
                    return Err(e);
                },
            };
            let ri = evaluate_node(graph, *index, ctx, builtins);
            let vi = match ri {
                Ok(v) => v,
                Err(e) => {
                    return Err(e);
                },
            };
            match vi.as_scalar() {
                Some(x) => {
                    let lanes = vv.lane_vec();
                    proof {
                        lemma_lanes_match_dtype(vv);
                    }
                    let lane = floor_clamp_lane(x, lanes.len());
                    Ok(Value::Scalar(lanes[lane]))
                },
                None => Err(EvalError::TypeMismatch),
            }
        },
        Node::Dot(a, b) => {
            let ra = evaluate_node(graph, *a, ctx, builtins);
            let va = match ra {
                Ok(v) => v,
                Err(e) => {
                    return Err(e);
                },
            };
            let rb = evaluate_node(graph, *b, ctx, builtins);
            let vb = match rb {
                Ok(v) => v,
                Err(e) => {
                    return Err(e);
                },
            };
            match (va.as_scalar(), vb.as_scalar()) {
                (Some(x), Some(y)) => {
                    let code = ComponentInfixOp::Multiply.code();
                    assert(call_requires(builtins, (code, x, y)));
                    let r = builtins(code, x, y);
                    proof {
                        assert forall|m: LaneOps| ops_obey(builtins, m) implies outcome_matches(
                            Ok::<Value, EvalError>(Value::Scalar(r)),
                            eval_node_spec(ns, *ctx, root as int, m),
                        ) by {
                            assert(r == m(code, x, y));
                            assert(va.lanes()[0] == x);
                            assert(vb.lanes()[0] == y);
                        }
                    }
                    Ok(Value::Scalar(r))
                },
                _ => {
                    if va.dtype() != vb.dtype() {
                        return Err(EvalError::TypeMismatch);
                    }
                    let la = va.lane_vec();
                    let lb = vb.lane_vec();
                    let n = la.len();
                    let mul_code = ComponentInfixOp::Multiply.code();
                    let add_code = ComponentInfixOp::Add.code();
                    let mut acc: u32 = 0;
                    let mut j: usize = 0;
                    while j < n
                        invariant
                            ops_callable(builtins),
                            j <= n,
                            n == la@.len(),
                            n == lb@.len(),
                            la@ == va.lanes(),
                            lb@ == vb.lanes(),
                            mul_code == ComponentInfixOp::Multiply.code_spec(),
                            add_code == ComponentInfixOp::Add.code_spec(),
                            forall|m: LaneOps|
                                ops_obey(builtins, m) ==> acc == dot_fold(la@, lb@, j as int, m),
                        decreases n - j,
                    {
                        assert(call_requires(builtins, (mul_code, la@[j as int], lb@[j as int])));
                        let t = builtins(mul_code, la[j], lb[j]);
                        assert(call_requires(builtins, (add_code, acc, t)));
                        let acc2 = builtins(add_code, acc, t);
                        proof {
                            let old_acc = acc;
                            assert forall|m: LaneOps| ops_obey(builtins, m) implies acc2
                                == dot_fold(la@, lb@, j + 1, m) by {
                                assert(t == m(mul_code, la@[j as int], lb@[j as int]));
                                assert(acc2 == m(add_code, old_acc, t));
                                assert(old_acc == dot_fold(la@, lb@, j as int, m));
                            }
                        }
                        acc = acc2;
                        j += 1;
                    }
                    proof {
                        assert forall|m: LaneOps| ops_obey(builtins, m) implies outcome_matches(
                            Ok::<Value, EvalError>(Value::Scalar(acc)),
                            eval_node_spec(ns, *ctx, root as int, m),
                        ) by {
                            assert(acc == dot_fold(va.lanes(), vb.lanes(), n as int, m));
                        }
                    }
                    Ok(Value::Scalar(acc))
                },
            }
        },
        Node::Make(kids, dtype) => {
            let n = dtype.n_lanes();
            let mut lanes: Vec<u32> = Vec::new();
            proof {
                assert forall|m: LaneOps| ops_obey(builtins, m) implies match make_lanes_spec(
                    ns,
                    *ctx,
                    kids@,
                    n as int,
                    root as int,
                    0,
                    m,
                ) {
                    Ok(rest) => make_lanes_spec(ns, *ctx, kids@, n as int, root as int, 0, m)
                        == Ok::<Seq<u32>, EvalOutcome>(lanes@ + rest),
                    Err(e) => make_lanes_spec(ns, *ctx, kids@, n as int, root as int, 0, m)
                        == Err::<Seq<u32>, EvalOutcome>(e),
                } by {
                    match make_lanes_spec(ns, *ctx, kids@, n as int, root as int, 0, m) {
                        Ok(rest) => {
                            assert(lanes@ + rest =~= rest);
                        },
                        Err(_e) => {},
                    }
                }
            }
            let mut j: usize = 0;
            while j < n
                invariant
                    graph.wf(),
                    ctx.wf(),
                    ops_callable(builtins),
                    root < graph.len_spec(),
                    graph.nodes@ == ns,
                    ns[root as int] == Node::Make(*kids, *dtype),
                    j <= n,
                    n == (*dtype).lane_count(),
                    lanes@.len() == j,
                    forall|m: LaneOps|
                        ops_obey(builtins, m) ==> match make_lanes_spec(
                            ns,
                            *ctx,
                            kids@,
                            n as int,
                            root as int,
                            j as int,
                            m,
                        ) {
                            Ok(rest) => make_lanes_spec(
                                ns,
                                *ctx,
                                kids@,
                                n as int,
                                root as int,
                                0,
                                m,
                            ) == Ok::<Seq<u32>, EvalOutcome>(lanes@ + rest),
                            Err(e) => make_lanes_spec(
                                ns,
                                *ctx,
                                kids@,
                                n as int,
                                root as int,
                                0,
                                m,
                            ) == Err::<Seq<u32>, EvalOutcome>(e),
                        },
                decreases n - j,
            {
                if j < kids.len() {
                    proof {
                        assert(ns[root as int].wf_at(root as int));
                        crate::graph::lemma_make_child_bound(
                            ns[root as int],
                            *kids,
                            *dtype,
                            root as int,
                            j as int,
                        );
                    }
                    let kid = kids[j];
                    let rk = evaluate_node(graph, kid, ctx, builtins);
                    let vk = match rk {
                        Ok(v) => v,
                        Err(e) => {
                            proof {
                                assert forall|m: LaneOps| ops_obey(builtins, m) implies
                                    outcome_matches(
                                    Err::<Value, EvalError>(e),
                                    eval_node_spec(ns, *ctx, root as int, m),
                                ) by {
                                    let o = eval_node_spec(ns, *ctx, kid as int, m);
                                    assert(outcome_matches(Err::<Value, EvalError>(e), o));
                                    assert(make_lanes_spec(
                                        ns,
                                        *ctx,
                                        kids@,
                                        n as int,
                                        root as int,
                                        j as int,
                                        m,
                                    ) == Err::<Seq<u32>, EvalOutcome>(o));
                                    assert(eval_node_spec(ns, *ctx, root as int, m) == o);
                                }
                            }
                            return Err(e);
                        },
                    };
                    let x = match vk.as_scalar() {
                        Some(x) => x,
                        None => {
                            proof {
                                assert forall|m: LaneOps| ops_obey(builtins, m) implies
                                    outcome_matches(
                                    Err::<Value, EvalError>(EvalError::TypeMismatch),
                                    eval_node_spec(ns, *ctx, root as int, m),
                                ) by {
                                    let o = eval_node_spec(ns, *ctx, kid as int, m);
                                    assert(o == EvalOutcome::Value(vk));
                                    assert(!(vk is Scalar));
                                    assert(make_lanes_spec(
                                        ns,
                                        *ctx,
                                        kids@,
                                        n as int,
                                        root as int,
                                        j as int,
                                        m,
                                    ) == Err::<Seq<u32>, EvalOutcome>(EvalOutcome::TypeError));
                                    assert(eval_node_spec(ns, *ctx, root as int, m)
                                        == EvalOutcome::TypeError);
                                }
                            }
                            return Err(EvalError::TypeMismatch);
                        },
                    };
                    let ghost pre = lanes@;
                    lanes.push(x);
                    proof {
                        assert(lanes@ =~= pre + seq![x]);
                        assert forall|m: LaneOps| ops_obey(builtins, m) implies match
                            make_lanes_spec(ns, *ctx, kids@, n as int, root as int, j + 1, m) {
                            Ok(rest) => make_lanes_spec(ns, *ctx, kids@, n as int, root as int, 0, m)
                                == Ok::<Seq<u32>, EvalOutcome>(lanes@ + rest),
                            Err(e) => make_lanes_spec(ns, *ctx, kids@, n as int, root as int, 0, m)
                                == Err::<Seq<u32>, EvalOutcome>(e),
                        } by {
                            let o = eval_node_spec(ns, *ctx, kid as int, m);
                            assert(o == EvalOutcome::Value(vk));
                            assert(vk == Value::Scalar(x));
                            match make_lanes_spec(ns, *ctx, kids@, n as int, root as int, j + 1, m) {
                                Ok(rest) => {
                                    assert(make_lanes_spec(
                                        ns,
                                        *ctx,
                                        kids@,
                                        n as int,
                                        root as int,
                                        j as int,
                                        m,
                                    ) == Ok::<Seq<u32>, EvalOutcome>(seq![x] + rest));
                                    assert(pre + (seq![x] + rest) =~= lanes@ + rest);
                                },
                                Err(e) => {
                                    assert(make_lanes_spec(
                                        ns,
                                        *ctx,
                                        kids@,
                                        n as int,
                                        root as int,
                                        j as int,
                                        m,
                                    ) == Err::<Seq<u32>, EvalOutcome>(e));
                                },
                            }
                        }
                    }
                } else {
                    let ghost pre = lanes@;
                    lanes.push(0);
                    proof {
                        assert(lanes@ =~= pre + seq![0u32]);
                        assert forall|m: LaneOps| ops_obey(builtins, m) implies match
                            make_lanes_spec(ns, *ctx, kids@, n as int, root as int, j + 1, m) {
                            Ok(rest) => make_lanes_spec(ns, *ctx, kids@, n as int, root as int, 0, m)
                                == Ok::<Seq<u32>, EvalOutcome>(lanes@ + rest),
                            Err(e) => make_lanes_spec(ns, *ctx, kids@, n as int, root as int, 0, m)
                                == Err::<Seq<u32>, EvalOutcome>(e),
                        } by {
                            if j + 1 >= n {
                                assert(make_lanes_spec(ns, *ctx, kids@, n as int, root as int, j + 1, m)
                                    == Ok::<Seq<u32>, EvalOutcome>(Seq::empty()));
                            } else {
                                assert(make_lanes_spec(ns, *ctx, kids@, n as int, root as int, j + 1, m)
                                    == Ok::<Seq<u32>, EvalOutcome>(
                                    Seq::new((n - j - 1) as nat, |_k: int| 0u32),
                                ));
                            }
                            match make_lanes_spec(ns, *ctx, kids@, n as int, root as int, j + 1, m) {
                                Ok(rest) => {
                                    assert(make_lanes_spec(
                                        ns,
                                        *ctx,
                                        kids@,
                                        n as int,
                                        root as int,
                                        j as int,
                                        m,
                                    ) == Ok::<Seq<u32>, EvalOutcome>(
                                        Seq::new((n - j) as nat, |_k: int| 0u32),
                                    ));
                                    assert(Seq::new((n - j) as nat, |_k: int| 0u32) =~= seq![0u32]
                                        + rest);
                                    assert(pre + (seq![0u32] + rest) =~= lanes@ + rest);
                                },
                                Err(_e) => {
                                    assert(false);
                                },
                            }
                        }
                    }
                }
                j += 1;
            }
            let v = Value::from_lanes(*dtype, &lanes);
            proof {
                assert forall|m: LaneOps| ops_obey(builtins, m) implies outcome_matches(
                    Ok::<Value, EvalError>(v),
                    eval_node_spec(ns, *ctx, root as int, m),
                ) by {
                    assert(make_lanes_spec(ns, *ctx, kids@, n as int, root as int, n as int, m)
                        == Ok::<Seq<u32>, EvalOutcome>(Seq::empty()));
                    assert(lanes@ + Seq::empty() =~= lanes@);
                    assert(lanes@.take((*dtype).lane_count() as int) =~= lanes@);
                }
            }
            Ok(v)
        },
    }
}

} // verus!
