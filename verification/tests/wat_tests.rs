use std::collections::HashMap;

use vorpal::dtype::{ComponentFn, ComponentInfixOp, DataType};
use vorpal::eval::evaluate_node;
use vorpal::graph::{NodeGraph, NodeId};
use vorpal::inputs::{ExternInputId, ExternParameters, ParameterList};
use vorpal::value::Value;
use vorpal::wat::{compile, CodeAnalysis, CompileError};

fn wops(code: u32, a: u32, b: u32) -> u32 {
    let x = f32::from_bits(a);
    let y = f32::from_bits(b);
    let r = match code {
        0 => x + y,
        1 => x - y,
        2 => x * y,
        3 => x / y,
        4 => x.powf(y),
        5 => x.log(y),
        6 => f32::from(x > y),
        7 => f32::from(x < y),
        8 => f32::from(x == y),
        9 => x.cos(),
        10 => x.sin(),
        11 => x.tan(),
        12 => x.ln(),
        13 => x.exp(),
        14 => x.ceil(),
        15 => x.floor(),
        16 => x.abs(),
        _ => panic!("unknown op code"),
    };
    r.to_bits()
}

/// Parses the exact float literals the compiler writes.
fn parse_f32_lit(s: &str) -> f32 {
    let (neg, s) = match s.strip_prefix('-') {
        Some(rest) => (true, rest),
        None => (false, s),
    };
    let magnitude = if s == "inf" {
        f32::INFINITY
    } else if let Some(payload) = s.strip_prefix("nan:0x") {
        let m = u32::from_str_radix(payload, 16).unwrap();
        f32::from_bits(0x7F80_0000 | m)
    } else if let Some(rest) = s.strip_prefix("0x") {
        // forms: H(.HHHHHH)?p<sign><dec>
        let ppos = rest.find(['p', 'P']).unwrap();
        let (mant, exp) = rest.split_at(ppos);
        let exp: i32 = exp[1..].parse().unwrap();
        let (int_part, frac_part) = match mant.find('.') {
            Some(d) => (&mant[..d], &mant[d + 1..]),
            None => (mant, ""),
        };
        let int_v = u64::from_str_radix(int_part, 16).unwrap();
        let frac_v = if frac_part.is_empty() {
            0u64
        } else {
            u64::from_str_radix(frac_part, 16).unwrap()
        };
        let frac_scale = 16f64.powi(frac_part.len() as i32);
        let v = (int_v as f64 + frac_v as f64 / frac_scale) * 2f64.powi(exp);
        v as f32
    } else {
        s.parse().unwrap()
    };
    if neg {
        -magnitude
    } else {
        magnitude
    }
}

/// A stack-machine interpreter for exactly the instruction subset the
/// compiler emits, standing in for a real host that links the module.
fn run_wat(text: &str, args: &[f32], out_lanes: usize) -> Vec<f32> {
    let mut locals: HashMap<String, f32> = HashMap::new();
    let mut mem = vec![0f32; 64];
    // Bind parameters from the declaration line, in order.
    let decl = text
        .lines()
        .find(|l| l.trim_start().starts_with("(func $"))
        .expect("no function declaration");
    let mut arg_iter = args.iter();
    let mut rest = decl;
    let mut first_param = true;
    while let Some(p) = rest.find("(param") {
        rest = &rest[p + "(param".len()..];
        let close = rest.find(')').unwrap();
        let inside = rest[..close].trim();
        rest = &rest[close + 1..];
        if first_param {
            // the output pointer; always zero here
            first_param = false;
            continue;
        }
        let v = *arg_iter.next().expect("missing argument");
        let mut parts = inside.split_whitespace();
        let head = parts.next().unwrap();
        if let Some(name) = head.strip_prefix('$') {
            locals.insert(name.to_string(), v);
        }
        // an unnamed "(param f32)" consumes the argument and drops it
    }
    // Declare locals.
    for l in text.lines() {
        let t = l.trim();
        let mut scan = t;
        while let Some(p) = scan.find("(local $") {
            scan = &scan[p + "(local $".len()..];
            let sp = scan.find(' ').unwrap();
            locals.entry(scan[..sp].to_string()).or_insert(0.0);
            scan = &scan[sp..];
        }
    }
    // Execute the body.
    let mut stack: Vec<f32> = Vec::new();
    for l in text.lines() {
        let t = l.trim();
        if let Some(name) = t.strip_prefix("local.get $") {
            stack.push(*locals.get(name).unwrap_or(&0.0));
        } else if let Some(name) = t.strip_prefix("local.set $") {
            let v = stack.pop().unwrap();
            locals.insert(name.to_string(), v);
        } else if let Some(lit) = t.strip_prefix("f32.const ") {
            stack.push(parse_f32_lit(lit));
        } else if t == "f32.add" {
            let b = stack.pop().unwrap();
            let a = stack.pop().unwrap();
            stack.push(a + b);
        } else if t == "f32.sub" {
            let b = stack.pop().unwrap();
            let a = stack.pop().unwrap();
            stack.push(a - b);
        } else if t == "f32.mul" {
            let b = stack.pop().unwrap();
            let a = stack.pop().unwrap();
            stack.push(a * b);
        } else if t == "f32.div" {
            let b = stack.pop().unwrap();
            let a = stack.pop().unwrap();
            stack.push(a / b);
        } else if t == "f32.ge" {
            let b = stack.pop().unwrap();
            let a = stack.pop().unwrap();
            stack.push(f32::from(a >= b));
        } else if t == "f32.floor" {
            let a = stack.pop().unwrap();
            stack.push(a.floor());
        } else if t == "f32.ceil" {
            let a = stack.pop().unwrap();
            stack.push(a.ceil());
        } else if t == "f32.abs" {
            let a = stack.pop().unwrap();
            stack.push(a.abs());
        } else if t == "select" {
            let c = stack.pop().unwrap();
            let b = stack.pop().unwrap();
            let a = stack.pop().unwrap();
            stack.push(if c != 0.0 { a } else { b });
        } else if let Some(name) = t.strip_prefix("call $builtin_") {
            match name {
                "sine" | "cosine" | "tangent" | "natural_log" | "natural_exp" => {
                    let a = stack.pop().unwrap();
                    stack.push(match name {
                        "sine" => a.sin(),
                        "cosine" => a.cos(),
                        "tangent" => a.tan(),
                        "natural_log" => a.ln(),
                        _ => a.exp(),
                    });
                },
                _ => {
                    let b = stack.pop().unwrap();
                    let a = stack.pop().unwrap();
                    stack.push(match name {
                        "power" => a.powf(b),
                        "logbase" => a.log(b),
                        "greater_than" => f32::from(a > b),
                        "less_than" => f32::from(a < b),
                        "equal_to" => f32::from(a == b),
                        other => panic!("unknown builtin {other}"),
                    });
                },
            }
        } else if let Some(off) = t.strip_prefix("f32.store offset=") {
            let v = stack.pop().unwrap();
            let ptr = stack.pop().unwrap() as usize;
            let off: usize = off.parse().unwrap();
            mem[(ptr + off) / 4] = v;
        }
    }
    mem[..out_lanes].to_vec()
}

fn sc(x: f32) -> Value {
    Value::Scalar(x.to_bits())
}

fn value_lanes(v: &Value) -> Vec<f32> {
    match v {
        Value::Scalar(a) => vec![f32::from_bits(*a)],
        Value::Vec2(a, b) => vec![f32::from_bits(*a), f32::from_bits(*b)],
        Value::Vec3(a, b, c) => vec![f32::from_bits(*a), f32::from_bits(*b), f32::from_bits(*c)],
        Value::Vec4(a, b, c, d) => vec![
            f32::from_bits(*a),
            f32::from_bits(*b),
            f32::from_bits(*c),
            f32::from_bits(*d),
        ],
    }
}

/// A graph mixing every operator kind over two declared inputs.
fn sample_graph() -> (NodeGraph, NodeId, ParameterList) {
    let mut g = NodeGraph::new();
    let t = g.extern_input(ExternInputId::new(String::from("time")), DataType::Scalar);
    let pos = g.extern_input(ExternInputId::new(String::from("pos")), DataType::Vec2);
    let d = g.dot(pos, pos);
    let st = g.component_fn(ComponentFn::Sine, t);
    let sum = g.component_infix_op(d, ComponentInfixOp::Add, st);
    let half = g.constant(sc(0.5));
    let powed = g.component_infix_op(sum, ComponentInfixOp::Power, half);
    let idx = g.constant(sc(1.0));
    let lane = g.get_component(pos, idx);
    let prod = g.component_infix_op(powed, ComponentInfixOp::Multiply, lane);
    let out = g.make(vec![prod, lane], DataType::Vec2);
    let mut params = ParameterList::new();
    params.insert(ExternInputId::new(String::from("time")), DataType::Scalar);
    params.insert(ExternInputId::new(String::from("pos")), DataType::Vec2);
    (g, out, params)
}

#[test]
fn both_backends_agree_on_a_mixed_graph() {
    let (g, root, params) = sample_graph();
    let mut ctx = ExternParameters::new();
    let tv = 1.25f32;
    let pv = [3.0f32, -2.5];
    ctx.insert_input(&ExternInputId::new(String::from("time")), sc(tv))
        .unwrap();
    ctx.insert_input(
        &ExternInputId::new(String::from("pos")),
        Value::Vec2(pv[0].to_bits(), pv[1].to_bits()),
    )
    .unwrap();
    let native = evaluate_node(&g, root, &ctx, wops).unwrap();
    let text = compile(g, root, &params, "kernel").unwrap();
    // parameters in sorted name order: pos (2 lanes), then time
    let got = run_wat(&text, &[pv[0], pv[1], tv], 2);
    assert_eq!(got, value_lanes(&native));
}

#[test]
fn both_backends_agree_on_component_selection() {
    for idx in [-2.0f32, 0.0, 0.5, 1.0, 2.7, 3.0, 9.0, f32::NAN, f32::INFINITY] {
        let mut g = NodeGraph::new();
        let parts: Vec<NodeId> = [4.0f32, 5.0, 6.0, 7.0]
            .iter()
            .map(|x| g.constant(sc(*x)))
            .collect();
        let v = g.make(parts, DataType::Vec4);
        let ci = g.constant(sc(idx));
        let sel = g.get_component(v, ci);
        let ctx = ExternParameters::new();
        let native = evaluate_node(&g, sel, &ctx, wops).unwrap();
        let params = ParameterList::new();
        let text = compile(g, sel, &params, "kernel").unwrap();
        let got = run_wat(&text, &[], 1);
        assert_eq!(got, value_lanes(&native), "index {idx}");
    }
}

#[test]
fn float_literals_are_exact() {
    let mut g = NodeGraph::new();
    let c = g.constant(sc(0.5));
    let params = ParameterList::new();
    let text = compile(g, c, &params, "k").unwrap();
    assert!(text.contains("f32.const 0x1.000000p-1"), "{text}");

    let cases = [0.0f32, -0.0, 1.0, -1.5, 3.14159265, 1e-40, f32::INFINITY];
    for x in cases {
        let mut g = NodeGraph::new();
        let c = g.constant(sc(x));
        let params = ParameterList::new();
        let text = compile(g, c, &params, "k").unwrap();
        let got = run_wat(&text, &[], 1);
        assert_eq!(got[0].to_bits(), x.to_bits(), "value {x}");
    }
}

#[test]
fn shared_node_is_emitted_once_and_copies_twice() {
    // One dot node with two parents: its block appears once.
    let mut g = NodeGraph::new();
    let v = g.constant(Value::Vec2((1.0f32).to_bits(), (2.0f32).to_bits()));
    let d = g.dot(v, v);
    let s = g.component_infix_op(d, ComponentInfixOp::Add, d);
    let params = ParameterList::new();
    let text = compile(g, s, &params, "k").unwrap();
    assert_eq!(text.matches(";; Dot product").count(), 1);

    // Two equal but separately built dot nodes: two blocks.
    let mut g2 = NodeGraph::new();
    let v2 = g2.constant(Value::Vec2((1.0f32).to_bits(), (2.0f32).to_bits()));
    let d1 = g2.dot(v2, v2);
    let d2 = g2.dot(v2, v2);
    let s2 = g2.component_infix_op(d1, ComponentInfixOp::Add, d2);
    let params2 = ParameterList::new();
    let text2 = compile(g2, s2, &params2, "k").unwrap();
    assert_eq!(text2.matches(";; Dot product").count(), 2);
}

fn param_shape(text: &str) -> Vec<String> {
    let decl = text
        .lines()
        .find(|l| l.trim_start().starts_with("(func $"))
        .unwrap();
    let mut shapes = Vec::new();
    let mut rest = decl;
    while let Some(p) = rest.find("(param") {
        rest = &rest[p + "(param".len()..];
        let close = rest.find(')').unwrap();
        let ty = rest[..close].split_whitespace().last().unwrap();
        shapes.push(ty.to_string());
        rest = &rest[close + 1..];
    }
    shapes
}

#[test]
fn parameter_layout_is_stable_across_graphs() {
    let mut params = ParameterList::new();
    params.insert(ExternInputId::new(String::from("beta")), DataType::Vec3);
    params.insert(ExternInputId::new(String::from("alpha")), DataType::Scalar);

    // First graph reads only alpha; second reads nothing.
    let mut g1 = NodeGraph::new();
    let a = g1.extern_input(ExternInputId::new(String::from("alpha")), DataType::Scalar);
    let r1 = g1.component_fn(ComponentFn::Ceil, a);
    let t1 = compile(g1, r1, &params, "k").unwrap();

    let mut g2 = NodeGraph::new();
    let c = g2.constant(sc(7.0));
    let t2 = compile(g2, c, &params, "k").unwrap();

    let s1 = param_shape(&t1);
    let s2 = param_shape(&t2);
    assert_eq!(s1, s2);
    // the pointer plus one lane for alpha and three for beta
    assert_eq!(s1.len(), 1 + 1 + 3);
    assert_eq!(s1[0], "i32");
    assert!(s1[1..].iter().all(|t| t == "f32"));
}

#[test]
fn unused_declared_inputs_keep_their_places() {
    let mut params = ParameterList::new();
    params.insert(ExternInputId::new(String::from("unused")), DataType::Vec2);
    let mut g = NodeGraph::new();
    let c = g.constant(sc(1.0));
    let text = compile(g, c, &params, "k").unwrap();
    let decl = text
        .lines()
        .find(|l| l.trim_start().starts_with("(func $"))
        .unwrap();
    assert_eq!(decl.matches("(param f32)").count(), 2, "{decl}");
}

#[test]
fn conflicting_input_occurrences_are_rejected() {
    let mut g = NodeGraph::new();
    let a = g.extern_input(ExternInputId::new(String::from("x")), DataType::Scalar);
    let b = g.extern_input(ExternInputId::new(String::from("x")), DataType::Vec2);
    let d = g.dot(a, b);
    let params = ParameterList::new();
    match compile(g, d, &params, "k") {
        Err(CompileError::InputTypeConflict(id)) => assert_eq!(id.as_str(), "x"),
        other => panic!("expected a conflict, got {:?}", other),
    }
}

#[test]
fn declared_type_must_match_the_graph() {
    let mut params = ParameterList::new();
    params.insert(ExternInputId::new(String::from("x")), DataType::Vec2);
    let mut g = NodeGraph::new();
    let a = g.extern_input(ExternInputId::new(String::from("x")), DataType::Scalar);
    let r = g.component_fn(ComponentFn::Abs, a);
    match compile(g, r, &params, "k") {
        Err(CompileError::InputTypeConflict(id)) => assert_eq!(id.as_str(), "x"),
        other => panic!("expected a conflict, got {:?}", other),
    }
}

#[test]
fn ill_typed_graphs_are_rejected_at_compile_time() {
    // A Make whose child count is not its type's lane count.
    let mut g = NodeGraph::new();
    let a = g.constant(sc(1.0));
    let m = g.make(vec![a, a, a], DataType::Vec2);
    let params = ParameterList::new();
    assert!(matches!(
        compile(g, m, &params, "k"),
        Err(CompileError::TypeMismatch)
    ));

    // Mismatched dot operands.
    let mut g2 = NodeGraph::new();
    let x = g2.constant(sc(1.0));
    let y = g2.constant(Value::Vec2(0, 0));
    let d = g2.dot(x, y);
    let params2 = ParameterList::new();
    assert!(matches!(
        compile(g2, d, &params2, "k"),
        Err(CompileError::TypeMismatch)
    ));
}

#[test]
fn analysis_reports_the_root_type_and_parameters() {
    let (g, root, params) = sample_graph();
    let a = CodeAnalysis::new(g, root, &params).unwrap();
    assert_eq!(a.final_output_dtype(), DataType::Vec2);
    // output pointer plus the two declared inputs
    assert_eq!(a.input_list().len(), 3);
    let decl = a.func_name_wat("kernel");
    assert!(decl.starts_with("(func $kernel (param $0 i32) "));
    let module = a.compile_to_wat("kernel");
    assert!(module.contains("(export \"kernel\" (func $kernel))"));
    assert!(module.contains("(import \"builtins\" \"equal_to\""));
}

#[test]
fn imports_cover_every_builtin() {
    let mut g = NodeGraph::new();
    let c = g.constant(sc(1.0));
    let params = ParameterList::new();
    let text = compile(g, c, &params, "k").unwrap();
    for name in [
        "sine",
        "cosine",
        "tangent",
        "natural_log",
        "natural_exp",
        "power",
        "logbase",
        "greater_than",
        "less_than",
        "equal_to",
    ] {
        assert!(
            text.contains(&format!("(import \"builtins\" \"{name}\"")),
            "missing import {name}"
        );
    }
}

#[test]
fn declared_inputs_are_sorted_by_name() {
    let mut params = ParameterList::new();
    params.insert(ExternInputId::new(String::from("zeta")), DataType::Scalar);
    params.insert(ExternInputId::new(String::from("alpha")), DataType::Scalar);
    params.insert(ExternInputId::new(String::from("mid")), DataType::Scalar);
    let mut g = NodeGraph::new();
    let a = g.extern_input(ExternInputId::new(String::from("alpha")), DataType::Scalar);
    let z = g.extern_input(ExternInputId::new(String::from("zeta")), DataType::Scalar);
    let m = g.extern_input(ExternInputId::new(String::from("mid")), DataType::Scalar);
    let s1 = g.component_infix_op(a, ComponentInfixOp::Subtract, z);
    let s2 = g.component_infix_op(s1, ComponentInfixOp::Subtract, m);
    let mut ctx = ExternParameters::new();
    ctx.insert_input(&ExternInputId::new(String::from("alpha")), sc(10.0))
        .unwrap();
    ctx.insert_input(&ExternInputId::new(String::from("zeta")), sc(3.0))
        .unwrap();
    ctx.insert_input(&ExternInputId::new(String::from("mid")), sc(2.0))
        .unwrap();
    let native = evaluate_node(&g, s2, &ctx, wops).unwrap();
    let text = compile(g, s2, &params, "k").unwrap();
    // arguments in name order: alpha, mid, zeta
    let got = run_wat(&text, &[10.0, 2.0, 3.0], 1);
    assert_eq!(got, value_lanes(&native));
    assert_eq!(value_lanes(&native), vec![5.0]);
}

#[test]
fn string_order_is_lexicographic() {
    assert!(vorpal::inputs::str_lex_lt("abc", "abd"));
    assert!(vorpal::inputs::str_lex_lt("ab", "abc"));
    assert!(!vorpal::inputs::str_lex_lt("abc", "abc"));
    assert!(!vorpal::inputs::str_lex_lt("b", "aaaa"));
    assert!(vorpal::inputs::str_lex_lt("", "a"));
    assert!(vorpal::inputs::str_lex_lt("Time", "pos"));
}
