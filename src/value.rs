use vstd::prelude::*;

verus! {

/// A structured value as the dispatcher presents it: one variant per node
/// kind. Integers of every width are widened to 64 bits; floating-point
/// numbers of every width are held as the bit pattern of an IEEE-754 double.
#[derive(Debug)]
pub enum Value {
    Bool(bool),
    Signed(i64),
    Unsigned(u64),
    /// The IEEE-754 binary64 bit pattern of a floating-point number.
    Float(u64),
    Char(char),
    Str(String),
    Bytes(Vec<u8>),
    /// An absent optional.
    Absent,
    /// A present optional.
    Present(Box<Value>),
    Unit,
    UnitStruct,
    /// A unit variant of an enum, with its discriminant.
    UnitVariant(u32),
    NewtypeStruct(Box<Value>),
    /// A single-payload variant: discriminant and payload.
    NewtypeVariant(u32, Box<Value>),
    Sequence(Vec<Value>),
    Tuple(Vec<Value>),
    TupleStruct(Vec<Value>),
    /// A tuple-payload variant: discriminant and fields in order.
    TupleVariant(u32, Vec<Value>),
    /// A key-value map, entries in the order presented.
    Mapping(Vec<(Value, Value)>),
    /// A record: field names and values in declaration order.
    Struct(Vec<(String, Value)>),
    /// A named-fields variant: discriminant, then named fields in order.
    StructVariant(u32, Vec<(String, Value)>),
    /// A failure that the dispatcher reported at this position.
    Failed(String),
}

/// A number written into the flat map. Booleans and discriminants are
/// unsigned integers; unit and absent values are the NaN sentinel.
#[derive(Debug, Clone, Copy, PartialEq, Eq)]
pub enum Number {
    Signed(i64),
    Unsigned(u64),
    /// The IEEE-754 binary64 bit pattern of a floating-point number.
    Float(u64),
    /// NaN, standing for "no data".
    Nan,
}

} // verus!
