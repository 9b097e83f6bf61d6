use crate::assoc::{
    byte_keys, find_bytes_key, keys, lemma_lookup_upsert, lemma_upsert, lookup, unique_keys, upsert,
};
use crate::codec::avro::AvroType;
use crate::registry::{avro_model, parse_schema};
use vstd::prelude::*;

verus! {

/// The schemas known for each message type, each with the text it was read
/// from.
pub struct Registry {
    models: Vec<(Vec<u8>, (AvroType, String))>,
}

pub type RegistryView = Seq<(Seq<u8>, (AvroType, Seq<char>))>;

impl Registry {
    /// The schemas by message type, in the order the types were first added.
    pub closed spec fn view(&self) -> RegistryView {
        self.models@.map_values(|e: (Vec<u8>, (AvroType, String))| (e.0@, (e.1.0, e.1.1@)))
    }

    /// Each message type has one entry.
    pub closed spec fn wf(&self) -> bool {
        unique_keys(self.view())
    }

    pub fn new() -> (registry: Registry)
        ensures
            registry.view() == RegistryView::empty(),
            registry.wf(),
    {
        let registry = Registry { models: Vec::new() };
        assert(registry.view() =~= RegistryView::empty());
        registry
    }

    /// Stores a schema model of a message type, with its text, replacing the
    /// one stored before.
    fn store(&mut self, message_type: Vec<u8>, schema: AvroType, raw_schema: String)
        ensures
            final(self).view() == upsert(
                old(self).view(),
                message_type@,
                (schema, raw_schema@),
            ),
            old(self).wf() ==> final(self).wf(),
    {
        let ghost old_view = self.view();
        let ghost entry = (schema, raw_schema@);
        assert(keys(old_view) =~= byte_keys(self.models@));
        proof {
            if unique_keys(old_view) {
                lemma_upsert(old_view, message_type@, entry);
            }
        }
        match find_bytes_key(&self.models, message_type.as_slice()) {
            Some(i) => {
                self.models.remove(i);
                self.models.insert(i, (message_type, (schema, raw_schema)));
            },
            None => {
                self.models.push((message_type, (schema, raw_schema)));
            },
        }
        assert(self.view() =~= upsert(old_view, message_type@, entry));
    }

    /// Reads the text of a schema for a message type and stores its model with
    /// the text, replacing the one stored before; a text that is not an Avro
    /// schema is refused and the registry left as it is.
    pub fn add(&mut self, message_type: Vec<u8>, raw_schema: String) -> (r: Result<
        (),
        failure::Error,
    >)
        ensures
            r is Ok <==> avro_model(raw_schema@) is Some,
            r is Ok ==> final(self).view() == upsert(
                old(self).view(),
                message_type@,
                (avro_model(raw_schema@)->Some_0, raw_schema@),
            ),
            r is Err ==> final(self).view() == old(self).view(),
            old(self).wf() ==> final(self).wf(),
    {
        match parse_schema(raw_schema.as_str()) {
            Ok(schema) => {
                self.store(message_type, schema, raw_schema);
                Ok(())
            },
            Err(e) => Err(e),
        }
    }

    /// The text of the schema of a message type.
    pub fn get_raw(&self, message_type: Vec<u8>) -> (raw: Result<&str, ()>)
        ensures
            match lookup(self.view(), message_type@) {
                Some(entry) => raw is Ok && raw->Ok_0@ == entry.1,
                None => raw is Err,
            },
    {
        assert(keys(self.view()) =~= byte_keys(self.models@));
        match find_bytes_key(&self.models, message_type.as_slice()) {
            Some(i) => Ok(self.models[i].1.1.as_str()),
            None => Err(()),
        }
    }

    /// The schema of a message type.
    pub fn get(&self, message_type: &[u8]) -> (schema: Option<&AvroType>)
        ensures
            match lookup(self.view(), message_type@) {
                Some(entry) => schema is Some && *schema->Some_0 == entry.0,
                None => schema is None,
            },
    {
        assert(keys(self.view()) =~= byte_keys(self.models@));
        match find_bytes_key(&self.models, message_type) {
            Some(i) => Some(&self.models[i].1.0),
            None => None,
        }
    }
}

/// A schema read back after it was added is the one added, with its text, and
/// adding it leaves what every other message type reads back as it was.
pub proof fn law_get_after_add(
    before: RegistryView,
    message_type: Seq<u8>,
    entry: (AvroType, Seq<char>),
    other: Seq<u8>,
)
    ensures
        lookup(upsert(before, message_type, entry), message_type) == Some(entry),
        other != message_type ==> lookup(upsert(before, message_type, entry), other) == lookup(
            before,
            other,
        ),
{
    lemma_lookup_upsert(before, message_type, entry, other);
}

} // verus!
