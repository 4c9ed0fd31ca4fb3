//! Tagged values: one to four scalar lanes, each carried as the 32-bit
//! pattern of an IEEE-754 single-precision float.

use vstd::prelude::*;

use crate::dtype::DataType;

verus! {

/// A value of the expression language. Each lane is the bit pattern of a
/// single-precision float; `0` is the pattern of positive zero.
#[derive(Clone, Copy, Debug, PartialEq, Eq, Structural)]
pub enum Value {
    Scalar(u32),
    Vec2(u32, u32),
    Vec3(u32, u32, u32),
    Vec4(u32, u32, u32, u32),
}

/// The value of type `dtype` whose lanes are the first `dtype.lane_count()`
/// entries of `lanes`.
pub open spec fn value_of_lanes(dtype: DataType, lanes: Seq<u32>) -> Value
    recommends
        lanes.len() >= dtype.lane_count(),
{
    match dtype {
        DataType::Scalar => Value::Scalar(lanes[0]),
        DataType::Vec2 => Value::Vec2(lanes[0], lanes[1]),
        DataType::Vec3 => Value::Vec3(lanes[0], lanes[1], lanes[2]),
        DataType::Vec4 => Value::Vec4(lanes[0], lanes[1], lanes[2], lanes[3]),
    }
}

impl Value {
    /// The lanes of this value, in order.
    pub open spec fn lanes(self) -> Seq<u32> {
        match self {
            Value::Scalar(x) => seq![x],
            Value::Vec2(x, y) => seq![x, y],
            Value::Vec3(x, y, z) => seq![x, y, z],
            Value::Vec4(x, y, z, w) => seq![x, y, z, w],
        }
    }

    pub open spec fn dtype_spec(self) -> DataType {
        match self {
            Value::Scalar(..) => DataType::Scalar,
            Value::Vec2(..) => DataType::Vec2,
            Value::Vec3(..) => DataType::Vec3,
            Value::Vec4(..) => DataType::Vec4,
        }
    }

    pub fn dtype(&self) -> (t: DataType)
        ensures
            t == self.dtype_spec(),
    {
        match self {
            Value::Scalar(..) => DataType::Scalar,
            Value::Vec2(..) => DataType::Vec2,
            Value::Vec3(..) => DataType::Vec3,
            Value::Vec4(..) => DataType::Vec4,
        }
    }

    /// The all-zero value of a type: every lane is the pattern of `+0.0`.
    pub fn default_of_dtype(dtype: DataType) -> (v: Value)
        ensures
            v.dtype_spec() == dtype,
            forall|i: int| 0 <= i < v.lanes().len() ==> v.lanes()[i] == 0u32,
    {
        match dtype {
            DataType::Scalar => Value::Scalar(0),
            DataType::Vec2 => Value::Vec2(0, 0),
            DataType::Vec3 => Value::Vec3(0, 0, 0),
            DataType::Vec4 => Value::Vec4(0, 0, 0, 0),
        }
    }

    /// Builds a value of type `dtype` out of the first `dtype.lane_count()`
    /// entries of `lanes`.
    pub fn from_lanes(dtype: DataType, lanes: &Vec<u32>) -> (v: Value)
        requires
            lanes@.len() >= dtype.lane_count(),
        ensures
            v.dtype_spec() == dtype,
            v.lanes() =~= lanes@.take(dtype.lane_count() as int),
            v == value_of_lanes(dtype, lanes@),
    {
        match dtype {
            DataType::Scalar => Value::Scalar(lanes[0]),
            DataType::Vec2 => Value::Vec2(lanes[0], lanes[1]),
            DataType::Vec3 => Value::Vec3(lanes[0], lanes[1], lanes[2]),
            DataType::Vec4 => Value::Vec4(lanes[0], lanes[1], lanes[2], lanes[3]),
        }
    }

    /// The lanes of this value as a vector of bit patterns.
    pub fn lane_vec(&self) -> (r: Vec<u32>)
        ensures
            r@ =~= self.lanes(),
    {
        let mut r: Vec<u32> = Vec::new();
        match self {
            Value::Scalar(x) => {
                r.push(*x);
            },
            Value::Vec2(x, y) => {
                r.push(*x);
                r.push(*y);
            },
            Value::Vec3(x, y, z) => {
                r.push(*x);
                r.push(*y);
                r.push(*z);
            },
            Value::Vec4(x, y, z, w) => {
                r.push(*x);
                r.push(*y);
                r.push(*z);
                r.push(*w);
            },
        }
        r
    }

    /// The bit pattern of lane `i`.
    pub fn lane(&self, i: usize) -> (x: u32)
        requires
            i < self.lanes().len(),
        ensures
            x == self.lanes()[i as int],
    {
        match self {
            Value::Scalar(x) => *x,
            Value::Vec2(x, y) => if i == 0 {
                *x
            } else {
                *y
            },
            Value::Vec3(x, y, z) => if i == 0 {
                *x
            } else if i == 1 {
                *y
            } else {
                *z
            },
            Value::Vec4(x, y, z, w) => if i == 0 {
                *x
            } else if i == 1 {
                *y
            } else if i == 2 {
                *z
            } else {
                *w
            },
        }
    }

    /// The scalar this value holds, if it is a scalar.
    pub fn as_scalar(&self) -> (r: Option<u32>)
        ensures
            match r {
                Some(x) => *self == Value::Scalar(x) && self.lanes() =~= seq![x],
                None => !(self is Scalar),
            },
    {
        match self {
            Value::Scalar(x) => Some(*x),
            _ => None,
        }
    }
}

/// A value's lane count always agrees with its type tag.
pub proof fn lemma_lanes_match_dtype(v: Value)
    ensures
        v.lanes().len() == v.dtype_spec().lane_count(),
{
}

} // verus!
