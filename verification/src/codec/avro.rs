use vstd::prelude::*;

verus! {

/// Where the fields of a record sit in its encoding.
#[derive(Debug, PartialEq)]
pub enum Type {
    Literal(usize),
    Record(Vec<(String, Type)>),
}

/// The kinds of Avro schema.
#[derive(Debug, Clone, Copy, PartialEq, Eq, Structural)]
pub enum Model {
    Null,
    Boolean,
    Int,
    Long,
    Float,
    Double,
    Bytes,
    String,
    Record,
}

/// An Avro schema, as far as the selection of messages reads it.
#[derive(Debug)]
pub enum AvroType {
    Null,
    Boolean,
    Int,
    Long,
    Float,
    Double,
    Bytes,
    String,
    Record { name: String, fields: Vec<RecordField> },
    /// Arrays, maps, unions, enums, fixed and logical types.
    Other,
}

/// A field of a record schema.
#[derive(Debug)]
pub struct RecordField {
    pub name: String,
    pub schema: AvroType,
}

} // verus!
