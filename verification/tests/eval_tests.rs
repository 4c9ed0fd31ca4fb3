use vorpal::dtype::{ComponentFn, ComponentInfixOp, DataType};
use vorpal::eval::{evaluate_node, EvalError};
use vorpal::graph::{NodeGraph, NodeId};
use vorpal::inputs::{ExternInputId, ExternParameters};
use vorpal::value::Value;

fn ops(code: u32, a: u32, b: u32) -> u32 {
    let x = f32::from_bits(a);
    let y = f32::from_bits(b);
    let r = match code {
        0 => x + y,
        1 => x - y,
        2 => x * y,
        3 => x / y,
        4 => x.powf(y),
        5 => x.log(y),
        6 => f32::from(x > y),
        7 => f32::from(x < y),
        8 => f32::from(x == y),
        9 => x.cos(),
        10 => x.sin(),
        11 => x.tan(),
        12 => x.ln(),
        13 => x.exp(),
        14 => x.ceil(),
        15 => x.floor(),
        16 => x.abs(),
        _ => panic!("unknown op code"),
    };
    r.to_bits()
}

fn scalar(x: f32) -> Value {
    Value::Scalar(x.to_bits())
}

fn vec4(x: f32, y: f32, z: f32, w: f32) -> Value {
    Value::Vec4(x.to_bits(), y.to_bits(), z.to_bits(), w.to_bits())
}

fn as_f32(v: &Value) -> f32 {
    match v {
        Value::Scalar(b) => f32::from_bits(*b),
        _ => panic!("expected a scalar"),
    }
}

#[test]
fn constant_evaluates_to_itself_for_every_dtype() {
    let values = [
        scalar(1.25),
        Value::Vec2((2.0f32).to_bits(), (-3.0f32).to_bits()),
        Value::Vec3((0.5f32).to_bits(), (0.25f32).to_bits(), (8.0f32).to_bits()),
        vec4(1.0, 2.0, 3.0, 4.0),
    ];
    for v in values {
        let mut g = NodeGraph::new();
        let c = g.constant(v);
        let ctx = ExternParameters::new();
        let r = evaluate_node(&g, c, &ctx, ops).unwrap();
        assert_eq!(r, v);
    }
}

#[test]
fn two_plus_two_is_four() {
    let mut g = NodeGraph::new();
    let a = g.constant(scalar(2.0));
    let b = g.constant(scalar(2.0));
    let s = g.component_infix_op(a, ComponentInfixOp::Add, b);
    let ctx = ExternParameters::new();
    let r = evaluate_node(&g, s, &ctx, ops).unwrap();
    assert_eq!(r, scalar(4.0));
}

#[test]
fn abs_of_negative() {
    let mut g = NodeGraph::new();
    let a = g.constant(scalar(-3.5));
    let f = g.component_fn(ComponentFn::Abs, a);
    let ctx = ExternParameters::new();
    let r = evaluate_node(&g, f, &ctx, ops).unwrap();
    assert_eq!(r, scalar(3.5));
}

#[test]
fn every_infix_op_matches_float_semantics() {
    let xs = [2.0f32, -3.5];
    for op in ComponentInfixOp::all() {
        let mut g = NodeGraph::new();
        let a = g.constant(scalar(xs[0]));
        let b = g.constant(scalar(xs[1]));
        let n = g.component_infix_op(a, op, b);
        let ctx = ExternParameters::new();
        let r = evaluate_node(&g, n, &ctx, ops).unwrap();
        let expect = match op {
            ComponentInfixOp::Add => xs[0] + xs[1],
            ComponentInfixOp::Subtract => xs[0] - xs[1],
            ComponentInfixOp::Multiply => xs[0] * xs[1],
            ComponentInfixOp::Divide => xs[0] / xs[1],
            ComponentInfixOp::Power => xs[0].powf(xs[1]),
            ComponentInfixOp::Logbase => xs[0].log(xs[1]),
            ComponentInfixOp::GreaterThan => f32::from(xs[0] > xs[1]),
            ComponentInfixOp::LessThan => f32::from(xs[0] < xs[1]),
            ComponentInfixOp::EqualTo => f32::from(xs[0] == xs[1]),
        };
        match r {
            Value::Scalar(bits) => {
                let got = f32::from_bits(bits);
                if expect.is_nan() {
                    assert!(got.is_nan(), "op {:?}", op);
                } else {
                    assert_eq!(bits, expect.to_bits(), "op {:?}", op);
                }
            },
            _ => panic!("expected a scalar"),
        }
    }
}

#[test]
fn get_component_clamps_the_floored_index() {
    let v = [10.0f32, 20.0, 30.0, 40.0];
    let cases = [(-1.0f32, 0usize), (0.0, 0), (1.9, 1), (3.0, 3), (4.0, 3)];
    for (idx, lane) in cases {
        let mut g = NodeGraph::new();
        let parts: Vec<NodeId> = v.iter().map(|x| g.constant(scalar(*x))).collect();
        let mk = g.make(parts, DataType::Vec4);
        let ci = g.constant(scalar(idx));
        let gc = g.get_component(mk, ci);
        let ctx = ExternParameters::new();
        let r = evaluate_node(&g, gc, &ctx, ops).unwrap();
        assert_eq!(as_f32(&r), v[lane], "index {idx}");
    }
}

#[test]
fn dot_of_vector_with_itself_sums_squares() {
    let v = [1.5f32, -2.0, 0.25, 3.0];
    let mut g = NodeGraph::new();
    let c = g.constant(vec4(v[0], v[1], v[2], v[3]));
    let d = g.dot(c, c);
    let ctx = ExternParameters::new();
    let r = evaluate_node(&g, d, &ctx, ops).unwrap();
    let expect: f32 = v.iter().map(|x| x * x).sum();
    assert_eq!(as_f32(&r), expect);
}

#[test]
fn extern_input_reads_the_context() {
    let mut g = NodeGraph::new();
    let id = ExternInputId::new(String::from("position"));
    let n = g.extern_input(ExternInputId::new(String::from("position")), DataType::Vec2);
    let mut ctx = ExternParameters::new();
    let v = Value::Vec2((7.0f32).to_bits(), (8.0f32).to_bits());
    ctx.insert_input(&id, v).unwrap();
    let r = evaluate_node(&g, n, &ctx, ops).unwrap();
    assert_eq!(r, v);
}

#[test]
fn missing_input_reports_its_name() {
    let mut g = NodeGraph::new();
    let n = g.extern_input(ExternInputId::new(String::from("time")), DataType::Scalar);
    let ctx = ExternParameters::new();
    match evaluate_node(&g, n, &ctx, ops) {
        Err(EvalError::BadInputId(id)) => assert_eq!(id.as_str(), "time"),
        other => panic!("expected a missing-input error, got {:?}", other),
    }
}

#[test]
fn mismatched_operand_types_are_rejected() {
    let mut g = NodeGraph::new();
    let a = g.constant(scalar(1.0));
    let b = g.constant(Value::Vec2(0, 0));
    let n = g.component_infix_op(a, ComponentInfixOp::Add, b);
    let ctx = ExternParameters::new();
    assert!(matches!(
        evaluate_node(&g, n, &ctx, ops),
        Err(EvalError::TypeMismatch)
    ));
}

#[test]
fn non_scalar_make_child_is_rejected() {
    let mut g = NodeGraph::new();
    let a = g.constant(Value::Vec2(0, 0));
    let b = g.constant(scalar(0.0));
    let n = g.make(vec![a, b], DataType::Vec2);
    let ctx = ExternParameters::new();
    assert!(matches!(
        evaluate_node(&g, n, &ctx, ops),
        Err(EvalError::TypeMismatch)
    ));
}

#[test]
fn non_scalar_get_component_index_is_rejected() {
    let mut g = NodeGraph::new();
    let v = g.constant(vec4(1.0, 2.0, 3.0, 4.0));
    let ix = g.constant(Value::Vec2(0, 0));
    let n = g.get_component(v, ix);
    let ctx = ExternParameters::new();
    assert!(matches!(
        evaluate_node(&g, n, &ctx, ops),
        Err(EvalError::TypeMismatch)
    ));
}

#[test]
fn shared_node_is_evaluated_consistently() {
    // One allocation with two parents: (x + x) where x = 3.
    let mut g = NodeGraph::new();
    let x = g.constant(scalar(3.0));
    let s = g.component_infix_op(x, ComponentInfixOp::Add, x);
    let ctx = ExternParameters::new();
    let r = evaluate_node(&g, s, &ctx, ops).unwrap();
    assert_eq!(as_f32(&r), 6.0);
}

#[test]
fn insert_input_rejects_changing_the_type() {
    let id = ExternInputId::new(String::from("cursor"));
    let mut ctx = ExternParameters::new();
    ctx.insert_input(&id, Value::Vec2(0, 0)).unwrap();
    assert!(matches!(
        ctx.insert_input(&id, scalar(0.0)),
        Err(EvalError::TypeMismatch)
    ));
    // Same type replaces the value.
    let v = Value::Vec2((1.0f32).to_bits(), (2.0f32).to_bits());
    ctx.insert_input(&id, v).unwrap();
    assert_eq!(ctx.get(&id), Some(&v));
}

#[test]
fn dtype_tables_are_complete() {
    assert_eq!(DataType::all().len(), 4);
    assert_eq!(ComponentInfixOp::all().len(), 9);
    assert_eq!(ComponentFn::all().len(), 8);
    assert_eq!(DataType::Vec3.n_lanes(), 3);
    assert_eq!(DataType::Vec3.lane_names(), vec!['x', 'y', 'z']);
    assert_eq!(DataType::Vec2.dtype_name(), "Vec2");
    assert_eq!(ComponentInfixOp::Power.symbol(), "^");
    assert_eq!(ComponentFn::NaturalExp.symbol(), "e^");
}
