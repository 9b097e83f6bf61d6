use vstd::prelude::*;

verus! {

#[verifier::external_type_specification]
#[verifier::external_body]
pub struct ExAvroSchema(avro_rs::Schema);

#[verifier::external_type_specification]
#[verifier::external_body]
pub struct ExFailureError(failure::Error);

/// Where the fields of an encoded record begin.
#[derive(Debug, PartialEq)]
pub enum Type {
    Literal(usize),
    Record(Vec<(String, Type)>),
}

/// Maps the fields of a record encoded with `schema` to their positions: each
/// kind of schema, records included, is placed as one literal at `offset`.
pub fn map_fields(schema: &avro_rs::Schema, record: &[u8], offset: usize) -> (map: Result<
    Type,
    failure::Error,
>)
    ensures
        map matches Ok(Type::Literal(at)) && at == offset,
{
    Ok(Type::Literal(offset))
}

} // verus!
