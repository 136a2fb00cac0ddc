//! Vectors as they come from documents and as they are stored.

use vstd::prelude::*;
use crate::float::{
    are_equal_singles, equal_singles, single_from_double, single_from_half, single_from_i64, single_of_double,
    single_of_double_is_unique, single_of_half, single_of_half_is_unique, single_of_integer,
    single_of_integer_is_unique,
};

verus! {

/// The element type that an index declares for its column.
#[derive(Clone, Copy, Debug, PartialEq, Eq, Structural)]
pub enum VectorType {
    F64,
    F32,
    I64,
    I32,
    I16,
    F16,
    I8,
    U8,
}

/// A vector in its declared element type. Floating-point elements are held as bit patterns.
#[derive(Debug)]
pub enum SerializedVector {
    F64(Vec<u64>),
    F32(Vec<u32>),
    I64(Vec<i64>),
    I32(Vec<i32>),
    I16(Vec<i16>),
    F16(Vec<u16>),
    I8(Vec<i8>),
    U8(Vec<u8>),
}

/// A value of the indexed column.
#[derive(Debug)]
pub enum Value {
    /// `NONE`.
    Absent,
    /// `NULL`.
    Null,
    /// Any other value, after coercion to the declared element type: a vector, or the reason why
    /// it is not one.
    Present(Result<SerializedVector, String>),
}

/// Why a value cannot be indexed.
#[derive(Debug)]
pub enum VectorError {
    /// The value is not a vector of the declared element type.
    Invalid(String),
    /// The vector has another length than the index.
    Dimension { current: usize, expected: usize },
}

/// The key of a record within its table, in its encoded form.
#[derive(Debug)]
pub struct RecordIdKey {
    pub bytes: Vec<u8>,
}

impl View for RecordIdKey {
    type V = Seq<u8>;

    open spec fn view(&self) -> Seq<u8> {
        self.bytes@
    }
}

impl Clone for RecordIdKey {
    fn clone(&self) -> (r: Self)
        ensures
            r@ == self@,
            r.bytes@ == self.bytes@,
    {
        RecordIdKey { bytes: self.bytes.clone() }
    }
}

/// What is stored of one point: the record that it belongs to, and its vector in single
/// precision.
#[derive(Debug)]
pub struct QortexVecValue {
    /// The record id this point belongs to.
    pub rid: RecordIdKey,
    /// The bit patterns of the vector's elements.
    pub vector: Vec<u32>,
}

/// The contents of a stored point.
pub struct PointView {
    pub rid: Seq<u8>,
    pub vector: Seq<u32>,
}

impl View for QortexVecValue {
    type V = PointView;

    open spec fn view(&self) -> PointView {
        PointView { rid: self.rid@, vector: self.vector@ }
    }
}

impl Clone for QortexVecValue {
    fn clone(&self) -> (r: Self)
        ensures
            r@ == self@,
            r.rid.bytes@ == self.rid.bytes@,
            r.vector@ == self.vector@,
    {
        QortexVecValue { rid: self.rid.clone(), vector: self.vector.clone() }
    }
}

/// Whether the two records are one, and the vectors have equal numbers as elements.
pub open spec fn equal_points(a: PointView, b: PointView) -> bool {
    &&& a.rid == b.rid
    &&& a.vector.len() == b.vector.len()
    &&& forall|i: int|
        0 <= i < a.vector.len() ==> equal_singles(#[trigger] a.vector[i], b.vector[i])
}

fn equal_bytes(a: &Vec<u8>, b: &Vec<u8>) -> (r: bool)
    ensures
        r == (a@ == b@),
{
    if a.len() != b.len() {
        return false;
    }
    for i in 0..a.len()
        invariant
            a@.len() == b@.len(),
            forall|j: int| 0 <= j < i ==> a@[j] == b@[j],
    {
        if a[i] != b[i] {
            return false;
        }
    }
    assert(a@ =~= b@);
    true
}

impl PartialEq for QortexVecValue {
    /// Elements are compared as numbers: the two zeros are equal, and what is not a number is
    /// equal to nothing.
    fn eq(&self, other: &Self) -> (r: bool) {
        if !equal_bytes(&self.rid.bytes, &other.rid.bytes) || self.vector.len()
            != other.vector.len() {
            return false;
        }
        for i in 0..self.vector.len()
            invariant
                self@.vector.len() == other@.vector.len(),
                forall|j: int|
                    0 <= j < i ==> equal_singles(#[trigger] self@.vector[j], other@.vector[j]),
        {
            if !are_equal_singles(self.vector[i], other.vector[i]) {
                assert(!equal_singles(self@.vector[i as int], other@.vector[i as int]));
                return false;
            }
        }
        true
    }
}

impl vstd::std_specs::cmp::PartialEqSpecImpl for QortexVecValue {
    open spec fn obeys_eq_spec() -> bool {
        true
    }

    open spec fn eq_spec(&self, other: &Self) -> bool {
        equal_points(self@, other@)
    }
}

impl SerializedVector {
    /// How many elements the vector has.
    pub open spec fn spec_dimension(&self) -> nat {
        match *self {
            SerializedVector::F64(v) => v@.len(),
            SerializedVector::F32(v) => v@.len(),
            SerializedVector::I64(v) => v@.len(),
            SerializedVector::I32(v) => v@.len(),
            SerializedVector::I16(v) => v@.len(),
            SerializedVector::F16(v) => v@.len(),
            SerializedVector::I8(v) => v@.len(),
            SerializedVector::U8(v) => v@.len(),
        }
    }

    /// `r` is the single-precision number nearest to element `i`.
    pub open spec fn element_is(&self, i: int, r: u32) -> bool {
        match *self {
            SerializedVector::F64(v) => single_of_double(v@[i], r),
            SerializedVector::F32(v) => r == v@[i],
            SerializedVector::I64(v) => single_of_integer(v@[i] as int, r),
            SerializedVector::I32(v) => single_of_integer(v@[i] as int, r),
            SerializedVector::I16(v) => single_of_integer(v@[i] as int, r),
            SerializedVector::F16(v) => single_of_half(v@[i], r),
            SerializedVector::I8(v) => single_of_integer(v@[i] as int, r),
            SerializedVector::U8(v) => single_of_integer(v@[i] as int, r),
        }
    }

    /// `r` is the vector in single precision, element by element.
    pub open spec fn in_single_precision(&self, r: Seq<u32>) -> bool {
        &&& r.len() == self.spec_dimension()
        &&& forall|i: int| 0 <= i < r.len() ==> self.element_is(i, #[trigger] r[i])
    }

    /// How many elements the vector has.
    pub fn dimension(&self) -> (d: usize)
        ensures
            d == self.spec_dimension(),
            match *self {
                SerializedVector::F64(v) => d == v@.len(),
                SerializedVector::F32(v) => d == v@.len(),
                SerializedVector::I64(v) => d == v@.len(),
                SerializedVector::I32(v) => d == v@.len(),
                SerializedVector::I16(v) => d == v@.len(),
                SerializedVector::F16(v) => d == v@.len(),
                SerializedVector::I8(v) => d == v@.len(),
                SerializedVector::U8(v) => d == v@.len(),
            },
    {
        match self {
            SerializedVector::F64(v) => v.len(),
            SerializedVector::F32(v) => v.len(),
            SerializedVector::I64(v) => v.len(),
            SerializedVector::I32(v) => v.len(),
            SerializedVector::I16(v) => v.len(),
            SerializedVector::F16(v) => v.len(),
            SerializedVector::I8(v) => v.len(),
            SerializedVector::U8(v) => v.len(),
        }
    }
}

/// Converts a serialized vector into the segment's single-precision representation.
pub fn serialized_to_f32(sv: &SerializedVector) -> (r: Vec<u32>)
    ensures
        sv.in_single_precision(r@),
        sv matches SerializedVector::F32(v) ==> r@ == v@,
{
    let mut r: Vec<u32> = Vec::new();
    match sv {
        SerializedVector::F64(v) => {
            for i in 0..v.len()
                invariant
                    *sv == SerializedVector::F64(*v),
                    r@.len() == i,
                    forall|j: int| 0 <= j < i ==> sv.element_is(j, #[trigger] r@[j]),
            {
                r.push(single_from_double(v[i]));
            }
            r
        },
        SerializedVector::F32(v) => v.clone(),
        SerializedVector::I64(v) => {
            for i in 0..v.len()
                invariant
                    *sv == SerializedVector::I64(*v),
                    r@.len() == i,
                    forall|j: int| 0 <= j < i ==> sv.element_is(j, #[trigger] r@[j]),
            {
                r.push(single_from_i64(v[i]));
            }
            r
        },
        SerializedVector::I32(v) => {
            for i in 0..v.len()
                invariant
                    *sv == SerializedVector::I32(*v),
                    r@.len() == i,
                    forall|j: int| 0 <= j < i ==> sv.element_is(j, #[trigger] r@[j]),
            {
                r.push(single_from_i64(v[i] as i64));
            }
            r
        },
        SerializedVector::I16(v) => {
            for i in 0..v.len()
                invariant
                    *sv == SerializedVector::I16(*v),
                    r@.len() == i,
                    forall|j: int| 0 <= j < i ==> sv.element_is(j, #[trigger] r@[j]),
            {
                r.push(single_from_i64(v[i] as i64));
            }
            r
        },
        SerializedVector::F16(v) => {
            for i in 0..v.len()
                invariant
                    *sv == SerializedVector::F16(*v),
                    r@.len() == i,
                    forall|j: int| 0 <= j < i ==> sv.element_is(j, #[trigger] r@[j]),
            {
                r.push(single_from_half(v[i]));
            }
            r
        },
        SerializedVector::I8(v) => {
            for i in 0..v.len()
                invariant
                    *sv == SerializedVector::I8(*v),
                    r@.len() == i,
                    forall|j: int| 0 <= j < i ==> sv.element_is(j, #[trigger] r@[j]),
            {
                r.push(single_from_i64(v[i] as i64));
            }
            r
        },
        SerializedVector::U8(v) => {
            for i in 0..v.len()
                invariant
                    *sv == SerializedVector::U8(*v),
                    r@.len() == i,
                    forall|j: int| 0 <= j < i ==> sv.element_is(j, #[trigger] r@[j]),
            {
                r.push(single_from_i64(v[i] as i64));
            }
            r
        },
    }
}

/// A vector has one form in single precision.
pub proof fn single_precision_is_unique(sv: SerializedVector, a: Seq<u32>, b: Seq<u32>)
    requires
        sv.in_single_precision(a),
        sv.in_single_precision(b),
    ensures
        a == b,
{
    assert forall|i: int| 0 <= i < a.len() implies a[i] == b[i] by {
        assert(sv.element_is(i, a[i]) && sv.element_is(i, b[i]));
        match sv {
            SerializedVector::F64(v) => single_of_double_is_unique(v@[i], a[i], b[i]),
            SerializedVector::F32(v) => {},
            SerializedVector::I64(v) => single_of_integer_is_unique(v@[i] as int, a[i], b[i]),
            SerializedVector::I32(v) => single_of_integer_is_unique(v@[i] as int, a[i], b[i]),
            SerializedVector::I16(v) => single_of_integer_is_unique(v@[i] as int, a[i], b[i]),
            SerializedVector::F16(v) => single_of_half_is_unique(v@[i], a[i], b[i]),
            SerializedVector::I8(v) => single_of_integer_is_unique(v@[i] as int, a[i], b[i]),
            SerializedVector::U8(v) => single_of_integer_is_unique(v@[i] as int, a[i], b[i]),
        }
    }
    assert(a =~= b);
}

/// What becomes of indexing a coerced value in an index of `dim` dimensions: the vector in
/// single precision, or the reason why it cannot be indexed.
pub open spec fn indexed_as(
    coerced: Result<SerializedVector, String>,
    dim: usize,
    r: Result<Vec<u32>, VectorError>,
) -> bool {
    match coerced {
        Ok(sv) => if sv.spec_dimension() == dim {
            r matches Ok(v) && sv.in_single_precision(v@)
        } else {
            r matches Err(VectorError::Dimension { current, expected }) && current
                == sv.spec_dimension() && expected == dim
        },
        Err(why) => r matches Err(VectorError::Invalid(text)) && text@ == why@,
    }
}

/// The first of `values` that is neither `NONE` nor `NULL`.
pub open spec fn first_present(values: Seq<Value>) -> Option<Result<SerializedVector, String>>
    decreases values.len(),
{
    if values.len() == 0 {
        None
    } else {
        match values[0] {
            Value::Present(coerced) => Some(coerced),
            _ => first_present(values.drop_first()),
        }
    }
}

} // verus!
