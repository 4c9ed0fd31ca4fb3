//! The type tags of the expression language: a value is a scalar or a
//! vector of two, three or four scalar lanes, and the operators act on
//! lanes componentwise.

use vstd::prelude::*;

verus! {

/// The type of a value: a scalar or a fixed-width vector.
#[derive(Clone, Copy, Debug, PartialEq, Eq, Structural)]
pub enum DataType {
    Scalar,
    Vec2,
    Vec3,
    Vec4,
}

/// A componentwise infix operator on two values of one `DataType`.
#[derive(Clone, Copy, Debug, PartialEq, Eq, Structural)]
pub enum ComponentInfixOp {
    Add,
    Subtract,
    Multiply,
    Divide,
    Power,
    Logbase,
    GreaterThan,
    LessThan,
    EqualTo,
}

/// A componentwise unary function on one value.
#[derive(Clone, Copy, Debug, PartialEq, Eq, Structural)]
pub enum ComponentFn {
    Cosine,
    Sine,
    Tangent,
    NaturalLog,
    NaturalExp,
    Ceil,
    Floor,
    Abs,
}

impl DataType {
    /// How many scalar lanes a value of this type holds.
    pub open spec fn lane_count(self) -> nat {
        match self {
            DataType::Scalar => 1,
            DataType::Vec2 => 2,
            DataType::Vec3 => 3,
            DataType::Vec4 => 4,
        }
    }

    pub fn n_lanes(&self) -> (n: usize)
        ensures
            n == self.lane_count(),
            1 <= n <= 4,
    {
        match self {
            DataType::Scalar => 1,
            DataType::Vec2 => 2,
            DataType::Vec3 => 3,
            DataType::Vec4 => 4,
        }
    }

    /// Every type, in the order scalar first, widest vector last.
    pub fn all() -> (r: [DataType; 4])
        ensures
            r@ =~= seq![DataType::Scalar, DataType::Vec2, DataType::Vec3, DataType::Vec4],
    {
        [DataType::Scalar, DataType::Vec2, DataType::Vec3, DataType::Vec4]
    }

    pub fn dtype_name(&self) -> (r: &'static str)
        ensures
            r@ == self.name_chars(),
    {
        match self {
            DataType::Scalar => "Scalar",
            DataType::Vec2 => "Vec2",
            DataType::Vec3 => "Vec3",
            DataType::Vec4 => "Vec4",
        }
    }

    /// The characters of `dtype_name`.
    pub open spec fn name_chars(self) -> Seq<char> {
        match self {
            DataType::Scalar => "Scalar"@,
            DataType::Vec2 => "Vec2"@,
            DataType::Vec3 => "Vec3"@,
            DataType::Vec4 => "Vec4"@,
        }
    }

    /// The letter that names lane `i`: the first `lane_count` of x, y, z, w.
    pub open spec fn lane_letter(i: int) -> char {
        if i == 0 {
            'x'
        } else if i == 1 {
            'y'
        } else if i == 2 {
            'z'
        } else {
            'w'
        }
    }

    /// The names of this type's lanes, in order.
    pub fn lane_names(&self) -> (r: Vec<char>)
        ensures
            r@.len() == self.lane_count(),
            forall|i: int| 0 <= i < r@.len() ==> r@[i] == DataType::lane_letter(i),
    {
        let n = self.n_lanes();
        let mut r: Vec<char> = Vec::new();
        if n >= 1 {
            r.push('x');
        }
        if n >= 2 {
            r.push('y');
        }
        if n >= 3 {
            r.push('z');
        }
        if n >= 4 {
            r.push('w');
        }
        r
    }
}

impl ComponentInfixOp {
    /// Every infix operator, in a fixed order.
    pub fn all() -> (r: [ComponentInfixOp; 9])
        ensures
            r@ =~= seq![
                ComponentInfixOp::Add,
                ComponentInfixOp::Subtract,
                ComponentInfixOp::Multiply,
                ComponentInfixOp::Divide,
                ComponentInfixOp::Power,
                ComponentInfixOp::Logbase,
                ComponentInfixOp::GreaterThan,
                ComponentInfixOp::LessThan,
                ComponentInfixOp::EqualTo,
            ],
    {
        [
            ComponentInfixOp::Add,
            ComponentInfixOp::Subtract,
            ComponentInfixOp::Multiply,
            ComponentInfixOp::Divide,
            ComponentInfixOp::Power,
            ComponentInfixOp::Logbase,
            ComponentInfixOp::GreaterThan,
            ComponentInfixOp::LessThan,
            ComponentInfixOp::EqualTo,
        ]
    }

    pub fn symbol(&self) -> (r: &'static str)
        ensures
            r@ == self.symbol_chars(),
    {
        match self {
            ComponentInfixOp::Add => "+",
            ComponentInfixOp::Subtract => "-",
            ComponentInfixOp::Multiply => "*",
            ComponentInfixOp::Divide => "/",
            ComponentInfixOp::Power => "^",
            ComponentInfixOp::Logbase => "logbase",
            ComponentInfixOp::GreaterThan => ">",
            ComponentInfixOp::LessThan => "<",
            ComponentInfixOp::EqualTo => "=",
        }
    }

    /// The characters of `symbol`.
    pub open spec fn symbol_chars(self) -> Seq<char> {
        match self {
            ComponentInfixOp::Add => "+"@,
            ComponentInfixOp::Subtract => "-"@,
            ComponentInfixOp::Multiply => "*"@,
            ComponentInfixOp::Divide => "/"@,
            ComponentInfixOp::Power => "^"@,
            ComponentInfixOp::Logbase => "logbase"@,
            ComponentInfixOp::GreaterThan => ">"@,
            ComponentInfixOp::LessThan => "<"@,
            ComponentInfixOp::EqualTo => "="@,
        }
    }

    /// The code under which the evaluator asks a builtin table for this
    /// operator, applied to two lanes.
    pub open spec fn code_spec(self) -> u32 {
        match self {
            ComponentInfixOp::Add => 0,
            ComponentInfixOp::Subtract => 1,
            ComponentInfixOp::Multiply => 2,
            ComponentInfixOp::Divide => 3,
            ComponentInfixOp::Power => 4,
            ComponentInfixOp::Logbase => 5,
            ComponentInfixOp::GreaterThan => 6,
            ComponentInfixOp::LessThan => 7,
            ComponentInfixOp::EqualTo => 8,
        }
    }

    pub fn code(&self) -> (c: u32)
        ensures
            c == self.code_spec(),
    {
        match self {
            ComponentInfixOp::Add => 0,
            ComponentInfixOp::Subtract => 1,
            ComponentInfixOp::Multiply => 2,
            ComponentInfixOp::Divide => 3,
            ComponentInfixOp::Power => 4,
            ComponentInfixOp::Logbase => 5,
            ComponentInfixOp::GreaterThan => 6,
            ComponentInfixOp::LessThan => 7,
            ComponentInfixOp::EqualTo => 8,
        }
    }
}

impl ComponentFn {
    /// Every componentwise function, in a fixed order.
    pub fn all() -> (r: [ComponentFn; 8])
        ensures
            r@ =~= seq![
                ComponentFn::Cosine,
                ComponentFn::Sine,
                ComponentFn::Tangent,
                ComponentFn::NaturalLog,
                ComponentFn::NaturalExp,
                ComponentFn::Ceil,
                ComponentFn::Floor,
                ComponentFn::Abs,
            ],
    {
        [
            ComponentFn::Cosine,
            ComponentFn::Sine,
            ComponentFn::Tangent,
            ComponentFn::NaturalLog,
            ComponentFn::NaturalExp,
            ComponentFn::Ceil,
            ComponentFn::Floor,
            ComponentFn::Abs,
        ]
    }

    pub fn symbol(&self) -> (r: &'static str)
        ensures
            r@ == self.symbol_chars(),
    {
        match self {
            ComponentFn::Cosine => "cos",
            ComponentFn::Sine => "sin",
            ComponentFn::Tangent => "tan",
            ComponentFn::NaturalLog => "ln",
            ComponentFn::NaturalExp => "e^",
            ComponentFn::Ceil => "ceil",
            ComponentFn::Floor => "floor",
            ComponentFn::Abs => "abs",
        }
    }

    /// The characters of `symbol`.
    pub open spec fn symbol_chars(self) -> Seq<char> {
        match self {
            ComponentFn::Cosine => "cos"@,
            ComponentFn::Sine => "sin"@,
            ComponentFn::Tangent => "tan"@,
            ComponentFn::NaturalLog => "ln"@,
            ComponentFn::NaturalExp => "e^"@,
            ComponentFn::Ceil => "ceil"@,
            ComponentFn::Floor => "floor"@,
            ComponentFn::Abs => "abs"@,
        }
    }

    /// The code under which the evaluator asks a builtin table for this
    /// function, applied to one lane; the second lane argument is unused.
    pub open spec fn code_spec(self) -> u32 {
        match self {
            ComponentFn::Cosine => 9,
            ComponentFn::Sine => 10,
            ComponentFn::Tangent => 11,
            ComponentFn::NaturalLog => 12,
            ComponentFn::NaturalExp => 13,
            ComponentFn::Ceil => 14,
            ComponentFn::Floor => 15,
            ComponentFn::Abs => 16,
        }
    }

    pub fn code(&self) -> (c: u32)
        ensures
            c == self.code_spec(),
    {
        match self {
            ComponentFn::Cosine => 9,
            ComponentFn::Sine => 10,
            ComponentFn::Tangent => 11,
            ComponentFn::NaturalLog => 12,
            ComponentFn::NaturalExp => 13,
            ComponentFn::Ceil => 14,
            ComponentFn::Floor => 15,
            ComponentFn::Abs => 16,
        }
    }
}

} // verus!
