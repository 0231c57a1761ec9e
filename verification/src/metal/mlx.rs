//! Array element types and allocator counters of the MLX runtime.
use vstd::prelude::*;

verus! {

#[derive(Debug, Clone, Copy, PartialEq, Eq, Structural)]
pub enum Dtype {
    Bool,
    Uint8,
    Uint16,
    Uint32,
    Uint64,
    Int8,
    Int16,
    Int32,
    Int64,
    Float16,
    Float32,
    Float64,
    Bfloat16,
    Complex64,
}

/// The numbers by which the runtime knows its element types.
#[derive(Debug, Clone, Copy)]
pub struct DtypeCodes {
    pub bool_: i32,
    pub uint8: i32,
    pub uint16: i32,
    pub uint32: i32,
    pub uint64: i32,
    pub int8: i32,
    pub int16: i32,
    pub int32: i32,
    pub int64: i32,
    pub float16: i32,
    pub float32: i32,
    pub float64: i32,
    pub bfloat16: i32,
    pub complex64: i32,
}

impl DtypeCodes {
    pub open spec fn code(self, d: Dtype) -> i32 {
        match d {
            Dtype::Bool => self.bool_,
            Dtype::Uint8 => self.uint8,
            Dtype::Uint16 => self.uint16,
            Dtype::Uint32 => self.uint32,
            Dtype::Uint64 => self.uint64,
            Dtype::Int8 => self.int8,
            Dtype::Int16 => self.int16,
            Dtype::Int32 => self.int32,
            Dtype::Int64 => self.int64,
            Dtype::Float16 => self.float16,
            Dtype::Float32 => self.float32,
            Dtype::Float64 => self.float64,
            Dtype::Bfloat16 => self.bfloat16,
            Dtype::Complex64 => self.complex64,
        }
    }

    /// No two element types share a number.
    pub open spec fn distinct(self) -> bool {
        forall|a: Dtype, b: Dtype| #[trigger] self.code(a) == #[trigger] self.code(b) ==> a == b
    }

    /// The first element type, in declaration order, with the number `raw`.
    pub open spec fn decode(self, raw: i32) -> Option<Dtype> {
        if raw == self.bool_ {
            Some(Dtype::Bool)
        } else if raw == self.uint8 {
            Some(Dtype::Uint8)
        } else if raw == self.uint16 {
            Some(Dtype::Uint16)
        } else if raw == self.uint32 {
            Some(Dtype::Uint32)
        } else if raw == self.uint64 {
            Some(Dtype::Uint64)
        } else if raw == self.int8 {
            Some(Dtype::Int8)
        } else if raw == self.int16 {
            Some(Dtype::Int16)
        } else if raw == self.int32 {
            Some(Dtype::Int32)
        } else if raw == self.int64 {
            Some(Dtype::Int64)
        } else if raw == self.float16 {
            Some(Dtype::Float16)
        } else if raw == self.float32 {
            Some(Dtype::Float32)
        } else if raw == self.float64 {
            Some(Dtype::Float64)
        } else if raw == self.bfloat16 {
            Some(Dtype::Bfloat16)
        } else if raw == self.complex64 {
            Some(Dtype::Complex64)
        } else {
            None
        }
    }
}

impl Dtype {
    pub fn to_raw(self, codes: &DtypeCodes) -> (raw: i32)
        ensures
            raw == codes.code(self),
    {
        match self {
            Dtype::Bool => codes.bool_,
            Dtype::Uint8 => codes.uint8,
            Dtype::Uint16 => codes.uint16,
            Dtype::Uint32 => codes.uint32,
            Dtype::Uint64 => codes.uint64,
            Dtype::Int8 => codes.int8,
            Dtype::Int16 => codes.int16,
            Dtype::Int32 => codes.int32,
            Dtype::Int64 => codes.int64,
            Dtype::Float16 => codes.float16,
            Dtype::Float32 => codes.float32,
            Dtype::Float64 => codes.float64,
            Dtype::Bfloat16 => codes.bfloat16,
            Dtype::Complex64 => codes.complex64,
        }
    }

    pub fn from_raw(raw: i32, codes: &DtypeCodes) -> (d: Option<Dtype>)
        ensures
            d == codes.decode(raw),
    {
        if raw == codes.bool_ {
            Some(Dtype::Bool)
        } else if raw == codes.uint8 {
            Some(Dtype::Uint8)
        } else if raw == codes.uint16 {
            Some(Dtype::Uint16)
        } else if raw == codes.uint32 {
            Some(Dtype::Uint32)
        } else if raw == codes.uint64 {
            Some(Dtype::Uint64)
        } else if raw == codes.int8 {
            Some(Dtype::Int8)
        } else if raw == codes.int16 {
            Some(Dtype::Int16)
        } else if raw == codes.int32 {
            Some(Dtype::Int32)
        } else if raw == codes.int64 {
            Some(Dtype::Int64)
        } else if raw == codes.float16 {
            Some(Dtype::Float16)
        } else if raw == codes.float32 {
            Some(Dtype::Float32)
        } else if raw == codes.float64 {
            Some(Dtype::Float64)
        } else if raw == codes.bfloat16 {
            Some(Dtype::Bfloat16)
        } else if raw == codes.complex64 {
            Some(Dtype::Complex64)
        } else {
            None
        }
    }
}

/// Where the numbers are distinct, a number that is decoded is the number of
/// what it decodes to, and every element type comes back from its number.
pub proof fn codes_round_trip(codes: DtypeCodes, d: Dtype, raw: i32)
    requires
        codes.distinct(),
    ensures
        codes.decode(codes.code(d)) == Some(d),
        codes.decode(raw) == Some(d) <==> raw == codes.code(d),
{
    let found = codes.decode(codes.code(d));
    assert(found is Some);
    assert(codes.code(found->0) == codes.code(d));
}

/// Bytes per element.
pub open spec fn elem_bytes(d: Dtype) -> nat {
    match d {
        Dtype::Bool | Dtype::Uint8 | Dtype::Int8 => 1,
        Dtype::Uint16 | Dtype::Int16 | Dtype::Float16 | Dtype::Bfloat16 => 2,
        Dtype::Uint32 | Dtype::Int32 | Dtype::Float32 => 4,
        Dtype::Uint64 | Dtype::Int64 | Dtype::Float64 | Dtype::Complex64 => 8,
    }
}

pub fn dtype_size(dtype: Dtype) -> (n: usize)
    ensures
        n == elem_bytes(dtype),
{
    match dtype {
        Dtype::Bool | Dtype::Uint8 | Dtype::Int8 => 1,
        Dtype::Uint16 | Dtype::Int16 | Dtype::Float16 | Dtype::Bfloat16 => 2,
        Dtype::Uint32 | Dtype::Int32 | Dtype::Float32 => 4,
        Dtype::Uint64 | Dtype::Int64 | Dtype::Float64 | Dtype::Complex64 => 8,
    }
}

/// What the allocator says of its memory, in bytes.
#[derive(Debug, Clone, Copy, PartialEq, Eq, Structural)]
pub struct AllocatorMemory {
    pub active_bytes: usize,
    pub peak_bytes: usize,
    pub cache_bytes: usize,
}

} // verus!
