use crate::codec::avro::{AvroType, RecordField};
use vstd::prelude::*;

verus! {

/// The schema model, as message selection reads it, of what
/// `avro_rs::Schema::parse_str` makes of the text `input`; `None` where it
/// refuses the text.
pub uninterp spec fn avro_model(input: Seq<char>) -> Option<AvroType>;

/// Calls `avro_rs::Schema::parse_str`, which reads `input` as JSON and then as
/// an Avro schema, and turns the schema it gives into the library's model, one
/// variant for one. The contract claims that the call succeeds exactly on the
/// texts to which `avro_model` gives a model, and that the model is the one it
/// names: a property of the text alone. What the parser reads from the text
/// is left unsaid.
#[verifier::external_body]
pub(crate) fn parse_schema(input: &str) -> (schema: Result<AvroType, failure::Error>)
    ensures
        schema is Ok <==> avro_model(input@) is Some,
        schema matches Ok(model) ==> avro_model(input@) == Some(model),
{
    Ok(avro_type(&avro_rs::Schema::parse_str(input)?))
}

/// The model of an Avro schema: each kind that selection reads becomes its
/// own variant, a record with its name and each field's name and model, every
/// other kind `Other`.
#[verifier::external_body]
fn avro_type(schema: &avro_rs::Schema) -> AvroType {
    match schema {
        avro_rs::Schema::Null => AvroType::Null,
        avro_rs::Schema::Boolean => AvroType::Boolean,
        avro_rs::Schema::Int => AvroType::Int,
        avro_rs::Schema::Long => AvroType::Long,
        avro_rs::Schema::Float => AvroType::Float,
        avro_rs::Schema::Double => AvroType::Double,
        avro_rs::Schema::Bytes => AvroType::Bytes,
        avro_rs::Schema::String => AvroType::String,
        avro_rs::Schema::Record { name, fields, .. } => AvroType::Record {
            name: name.name.clone(),
            fields: fields.iter().map(|f| RecordField { name: f.name.clone(), schema: avro_type(&f.schema) }).collect(),
        },
        _ => AvroType::Other,
    }
}

/// Schemas checked by the Avro parser.
pub struct Registry {
    schemas: Vec<(String, avro_rs::Schema)>,
}

impl Registry {
    /// The number of schemas held.
    pub closed spec fn size(&self) -> nat {
        self.schemas@.len()
    }

    /// A registry that holds no schema.
    pub fn new() -> (registry: Registry)
        ensures
            registry.size() == 0,
    {
        Registry { schemas: Vec::new() }
    }

    /// Checks that `input` is an Avro schema; the registry is left as it is.
    pub fn add(&self, input: &str) -> (r: Result<(), failure::Error>)
        ensures
            r is Ok <==> avro_model(input@) is Some,
    {
        match parse_schema(input) {
            Ok(_) => Ok(()),
            Err(e) => Err(e),
        }
    }
}

} // verus!
