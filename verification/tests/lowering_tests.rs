use vorpal::dtype::{ComponentInfixOp, DataType};
use vorpal::eval::evaluate_node;
use vorpal::graph::Node;
use vorpal::highlevel::{convert_node, HighGraph, HighNode};
use vorpal::inputs::ExternParameters;
use vorpal::value::Value;

fn lops(code: u32, a: u32, b: u32) -> u32 {
    let x = f32::from_bits(a);
    let y = f32::from_bits(b);
    let r = match code {
        0 => x + y,
        1 => x - y,
        2 => x * y,
        3 => x / y,
        4 => x.powf(y),
        5 => x.log(y),
        6 => f32::from(x > y),
        7 => f32::from(x < y),
        8 => f32::from(x == y),
        9 => x.cos(),
        10 => x.sin(),
        11 => x.tan(),
        12 => x.ln(),
        13 => x.exp(),
        14 => x.ceil(),
        15 => x.floor(),
        16 => x.abs(),
        _ => panic!("unknown op code"),
    };
    r.to_bits()
}

fn sc(x: f32) -> Value {
    Value::Scalar(x.to_bits())
}

fn lanes_of(v: &Value) -> Vec<f32> {
    match v {
        Value::Scalar(a) => vec![f32::from_bits(*a)],
        Value::Vec2(a, b) => vec![f32::from_bits(*a), f32::from_bits(*b)],
        Value::Vec3(a, b, c) => vec![f32::from_bits(*a), f32::from_bits(*b), f32::from_bits(*c)],
        Value::Vec4(a, b, c, d) => vec![
            f32::from_bits(*a),
            f32::from_bits(*b),
            f32::from_bits(*c),
            f32::from_bits(*d),
        ],
    }
}

#[test]
fn mirror_nodes_lower_one_to_one() {
    let mut h = HighGraph::new();
    let a = h.push_node(HighNode::Constant(sc(2.0)));
    let b = h.push_node(HighNode::Constant(sc(5.0)));
    let s = h.push_node(HighNode::ComponentInfixOp(a, ComponentInfixOp::Multiply, b));
    let (g, root) = convert_node(&h, s);
    let ctx = ExternParameters::new();
    let r = evaluate_node(&g, root, &ctx, lops).unwrap();
    assert_eq!(r, sc(10.0));
}

#[test]
fn splat_fills_every_lane() {
    let mut h = HighGraph::new();
    let x = h.push_node(HighNode::Constant(sc(1.5)));
    let s = h.push_node(HighNode::Splat(x, DataType::Vec3));
    let (g, root) = convert_node(&h, s);
    let ctx = ExternParameters::new();
    let r = evaluate_node(&g, root, &ctx, lops).unwrap();
    assert_eq!(lanes_of(&r), vec![1.5, 1.5, 1.5]);
}

#[test]
fn normalize_divides_by_the_length() {
    let v = [3.0f32, 4.0];
    let mut h = HighGraph::new();
    let c = h.push_node(HighNode::Constant(Value::Vec2(
        v[0].to_bits(),
        v[1].to_bits(),
    )));
    let n = h.push_node(HighNode::Normalize(c, DataType::Vec2));
    let (g, root) = convert_node(&h, n);
    let ctx = ExternParameters::new();
    let r = evaluate_node(&g, root, &ctx, lops).unwrap();
    let len = (v[0] * v[0] + v[1] * v[1]).sqrt();
    let got = lanes_of(&r);
    for i in 0..2 {
        assert!((got[i] - v[i] / len).abs() < 1e-5, "lane {i}: {}", got[i]);
    }
}

#[test]
fn normalize_of_several_vectors_stays_unit_length() {
    let cases = [
        vec![2.0f32, 0.0, 0.0],
        vec![1.0, 1.0, 1.0],
        vec![-5.0, 0.5, 2.0],
    ];
    for v in cases {
        let mut h = HighGraph::new();
        let c = h.push_node(HighNode::Constant(Value::Vec3(
            v[0].to_bits(),
            v[1].to_bits(),
            v[2].to_bits(),
        )));
        let n = h.push_node(HighNode::Normalize(c, DataType::Vec3));
        let (g, root) = convert_node(&h, n);
        let ctx = ExternParameters::new();
        let r = evaluate_node(&g, root, &ctx, lops).unwrap();
        let len = (v[0] * v[0] + v[1] * v[1] + v[2] * v[2]).sqrt();
        let got = lanes_of(&r);
        for i in 0..3 {
            assert!((got[i] - v[i] / len).abs() < 1e-5);
        }
    }
}

#[test]
fn swizzle_rearranges_lanes() {
    // Components (2, 0, 1) of (10, 20, 30) -> (30, 10, 20).
    let mut h = HighGraph::new();
    let data = h.push_node(HighNode::Constant(Value::Vec3(
        (10.0f32).to_bits(),
        (20.0f32).to_bits(),
        (30.0f32).to_bits(),
    )));
    let sel = h.push_node(HighNode::Constant(Value::Vec3(
        (2.0f32).to_bits(),
        (0.0f32).to_bits(),
        (1.0f32).to_bits(),
    )));
    let sw = h.push_node(HighNode::Swizzle {
        input_vector: data,
        component_vector: sel,
        input_vector_dtype: DataType::Vec3,
        output_vector_dtype: DataType::Vec3,
    });
    let (g, root) = convert_node(&h, sw);
    let ctx = ExternParameters::new();
    let r = evaluate_node(&g, root, &ctx, lops).unwrap();
    assert_eq!(lanes_of(&r), vec![30.0, 10.0, 20.0]);
}

#[test]
fn shared_high_node_is_lowered_once() {
    // One high constant feeding both sides of an add: the lowered graph
    // must reference one shared handle, not two copies.
    let mut h = HighGraph::new();
    let x = h.push_node(HighNode::Constant(sc(3.0)));
    let s = h.push_node(HighNode::ComponentInfixOp(x, ComponentInfixOp::Add, x));
    let (g, root) = convert_node(&h, s);
    match g.node(root) {
        Node::ComponentInfixOp(a, _, b) => assert_eq!(a, b),
        other => panic!("expected an infix node, got {:?}", other),
    }
    let constants = g
        .nodes
        .iter()
        .filter(|n| matches!(n, Node::Constant(_)))
        .count();
    assert_eq!(constants, 1);
}
