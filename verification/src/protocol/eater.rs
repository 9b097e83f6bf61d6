use crate::assoc::{lookup, upsert};
use crate::codec::avro::AvroType;
use crate::codec::registry::law_get_after_add;
use crate::codec::bytes::le_bytes;
use crate::codec::registry::Registry;
use crate::protocol::command::{command_byte, Command};
use crate::protocol::out::extend_bytes;
use crate::protocol::writer::{command_frame, message_ack_frame, message_nack_frame, size_frame};
use crate::registry::avro_model;
use crate::router::Router;
use crate::selection::filter::{
    checks_spec, checks_view, filter_view, parse_filter_spec, read_filter, Parsed, Reading,
};
use crate::selection::json::{json_document, parse_json, JsonValue};
use crate::selection::selector::{distribute_spec, selector_view, try_distribute};
use crate::selection::subscription::{integrate_spec, Subscription};
use std::sync::Arc;
use vstd::prelude::*;

verus! {

/// Handles the requests that one client sends, one at a time.
pub struct Eater {}

/// What handling one published message leaves to do: relay it to the
/// recipients and write the reply back to the publisher. Where `completed` is
/// false the connection cannot go on.
pub struct Delivery {
    pub recipients: Vec<Arc<Subscription>>,
    pub reply: Vec<u8>,
    pub completed: bool,
}

/// The reply to a message whose type has no schema: a request for the schema
/// of the type, then a negative acknowledgement of the message.
pub open spec fn schema_needed_reply(message_type: Seq<u8>, id: Seq<u8>) -> Seq<u8> {
    seq![command_byte(Command::SchemaNeeded)] + message_type + seq![
        command_byte(Command::MessageNack),
    ] + id
}

/// The positive acknowledgement of the message with the given id.
pub open spec fn ack_reply(id: Seq<u8>) -> Seq<u8> {
    seq![command_byte(Command::MessageAck)] + id
}

/// The negative acknowledgement of the message with the given id.
pub open spec fn nack_reply(id: Seq<u8>) -> Seq<u8> {
    seq![command_byte(Command::MessageNack)] + id
}

/// The reply to a request for the schema of a message type: the schema's
/// text, sized, where the registry knows one; else a notice that there is
/// none.
pub open spec fn schema_reply_spec(registry: Registry, message_type: Seq<u8>) -> Seq<u8> {
    match lookup(registry.view(), message_type) {
        Some(entry) => {
            let text = vstd::utf8::encode_utf8(entry.1);
            seq![command_byte(Command::Schema)] + message_type + le_bytes(
                text.len() % 0x1_0000_0000,
                4,
            ) + text
        },
        None => seq![command_byte(Command::NoSchema)] + message_type,
    }
}

/// What handling a subscription with the filter document `filter` does to
/// the router and gives back: a filter that cannot be read, or a stored
/// message to replay whose type has no schema, gives no subscription and
/// leaves the selector as it was; otherwise the subscription, with the
/// client's id, its own id and the filter read, is filed in the selector.
pub open spec fn subscribed(
    before: Router,
    after: Router,
    client: Seq<u8>,
    offset: u64,
    subscription_id: Seq<u8>,
    filter: JsonValue,
    subscription: Option<Arc<Subscription>>,
) -> bool {
    &&& after.clients == before.clients
    &&& after.registry == before.registry
    &&& after.store == before.store
    &&& match parse_filter_spec(filter) {
        Parsed::Value(f) => if offset <= before.store.current && !before.store.schemas_known(
            offset,
            &before.registry,
        ) {
            &&& subscription is None
            &&& after.selector == before.selector
        } else {
            &&& subscription is Some
            &&& subscription->Some_0.id@ == subscription_id
            &&& subscription->Some_0.client@ == client
            &&& filter_view(subscription->Some_0.filter@) == f
            &&& checks_view(subscription->Some_0.checks_per_type@) == checks_spec(f)
            &&& selector_view(after.selector@) == integrate_spec(
                selector_view(before.selector@),
                f,
                subscription->Some_0,
            )
        },
        _ => {
            &&& subscription is None
            &&& after.selector == before.selector
        },
    }
}

/// Decodes bytes as UTF-8 text with `String::from_utf8`, which refuses exactly
/// the byte strings that are not valid UTF-8; the text holds the characters
/// that the bytes encode.
#[verifier::external_body]
fn string_from_utf8(bytes: Vec<u8>) -> (text: Result<String, ()>)
    ensures
        text is Ok <==> vstd::utf8::valid_utf8(bytes@),
        text matches Ok(t) ==> t@ == vstd::utf8::decode_utf8(bytes@),
{
    match String::from_utf8(bytes) {
        Ok(t) => Ok(t),
        Err(_) => Err(()),
    }
}

impl Eater {
    /// Handles a published message: without a schema for its type the
    /// publisher is asked for it and the message refused; else the message is
    /// distributed, stored, and acknowledged. Distribution or storage that
    /// cannot complete leaves the connection unable to go on; storage then
    /// stops where making room stopped.
    pub fn handle_message(
        router: &mut Router,
        id: [u8; 6],
        message_type: [u8; 4],
        message: Vec<u8>,
    ) -> (delivery: Delivery)
        ensures
            final(router).clients == old(router).clients,
            final(router).selector == old(router).selector,
            final(router).registry == old(router).registry,
            match lookup(old(router).registry.view(), message_type@) {
                None => {
                    &&& delivery.completed
                    &&& delivery.recipients@.len() == 0
                    &&& delivery.reply@ == schema_needed_reply(message_type@, id@)
                    &&& final(router).store == old(router).store
                },
                Some(entry) => match distribute_spec(
                    selector_view(old(router).selector@),
                    message_type@,
                    entry.0,
                    message@,
                ) {
                    None => {
                        &&& !delivery.completed
                        &&& delivery.recipients@.len() == 0
                        &&& delivery.reply@.len() == 0
                        &&& final(router).store == old(router).store
                    },
                    Some(recipients) => {
                        &&& delivery.recipients@ == recipients
                        &&& if old(router).store.append_defined(message@.len()) {
                            &&& delivery.completed
                            &&& delivery.reply@ == ack_reply(id@)
                            &&& old(router).store.appended(
                                final(router).store,
                                id@,
                                message_type,
                                message,
                            )
                        } else {
                            &&& !delivery.completed
                            &&& delivery.reply@.len() == 0
                            &&& old(router).store.append_stopped(
                                final(router).store,
                                message@.len(),
                            )
                        }
                    },
                },
            },
    {
        let recipients = match router.registry.get(&message_type) {
            None => {
                let mut reply = command_frame(Command::SchemaNeeded);
                extend_bytes(&mut reply, &message_type);
                let nack = message_nack_frame(&id);
                extend_bytes(&mut reply, nack.as_slice());
                assert(reply@ =~= schema_needed_reply(message_type@, id@));
                return Delivery { recipients: Vec::new(), reply, completed: true };
            },
            Some(schema) => match try_distribute(
                &router.selector,
                &message_type,
                schema,
                message.as_slice(),
            ) {
                None => {
                    return Delivery { recipients: Vec::new(), reply: Vec::new(), completed: false };
                },
                Some(recipients) => recipients,
            },
        };
        match router.store.try_append(id, message_type, message) {
            Ok(_) => {
                let reply = message_ack_frame(&id);
                Delivery { recipients, reply, completed: true }
            },
            Err(_) => Delivery { recipients, reply: Vec::new(), completed: false },
        }
    }

    /// Handles a subscription request: reads the filter, makes the
    /// subscription, replays the stored messages from `offset` on for it and
    /// files it in the selector. `None` where the connection cannot go on: a
    /// filter that cannot be read, or a stored message to replay whose type has
    /// no schema.
    pub fn handle_subscription(
        router: &mut Router,
        client: &Vec<u8>,
        offset: u64,
        subscription_id: [u8; 4],
        filter: &JsonValue,
    ) -> (subscription: Option<Arc<Subscription>>)
        ensures
            subscribed(
                *old(router),
                *final(router),
                client@,
                offset,
                subscription_id@,
                *filter,
                subscription,
            ),
    {
        let filter = match read_filter(filter) {
            Reading::Read(f) => f,
            _ => {
                return None;
            },
        };
        if offset <= router.store.current && !router.store.check_schemas_known(
            offset,
            &router.registry,
        ) {
            return None;
        }
        let mut id = Vec::new();
        extend_bytes(&mut id, &subscription_id);
        let mut owner = Vec::new();
        extend_bytes(&mut owner, client.as_slice());
        assert(id@ =~= subscription_id@);
        assert(owner@ =~= client@);
        let subscription = Subscription::new(id, owner, filter);
        router.store.pipe(offset, &subscription, &router.registry);
        subscription.integrate(&mut router.selector);
        Some(subscription)
    }

    /// Handles a schema sent by a client for a message type: its bytes must be
    /// UTF-8 and the text an Avro schema, whose model is then stored with the
    /// text; otherwise the schema is refused with the reason and the registry
    /// left as it is.
    pub fn handle_schema(router: &mut Router, message_type: [u8; 4], schema: Vec<u8>) -> (r: Result<
        (),
        &'static str,
    >)
        ensures
            final(router).clients == old(router).clients,
            final(router).selector == old(router).selector,
            final(router).store == old(router).store,
            old(router).registry.wf() ==> final(router).registry.wf(),
            match r {
                Ok(_) => {
                    let text = vstd::utf8::decode_utf8(schema@);
                    &&& vstd::utf8::valid_utf8(schema@)
                    &&& avro_model(text) is Some
                    &&& final(router).registry.view() == upsert(
                        old(router).registry.view(),
                        message_type@,
                        (avro_model(text)->Some_0, text),
                    )
                },
                Err(m) => {
                    &&& final(router).registry.view() == old(router).registry.view()
                    &&& if !vstd::utf8::valid_utf8(schema@) {
                        m@ == "Found invalid UTF-8"@
                    } else {
                        avro_model(vstd::utf8::decode_utf8(schema@)) is None && m@
                            == "Cannot parse schema"@
                    }
                },
            },
    {
        let text = match string_from_utf8(schema) {
            Ok(t) => t,
            Err(_) => {
                return Err("Found invalid UTF-8");
            },
        };
        let mut key = Vec::new();
        extend_bytes(&mut key, &message_type);
        assert(key@ =~= message_type@);
        match router.registry.add(key, text) {
            Ok(_) => Ok(()),
            Err(_) => Err("Cannot parse schema"),
        }
    }

    /// Handles a subscription frame: the filter's bytes must be UTF-8 and the
    /// text a JSON document, which `handle_subscription` then reads; otherwise
    /// the request is refused with the reason and the router left as it is.
    pub fn handle_subscription_frame(
        router: &mut Router,
        client: &Vec<u8>,
        offset: u64,
        subscription_id: [u8; 4],
        filter: Vec<u8>,
    ) -> (r: Result<Arc<Subscription>, &'static str>)
        ensures
            !vstd::utf8::valid_utf8(filter@) ==> r == Err::<Arc<Subscription>, &'static str>(
                "Cannot decode filter",
            ) && *final(router) == *old(router),
            vstd::utf8::valid_utf8(filter@) ==> match json_document(
                vstd::utf8::decode_utf8(filter@),
            ) {
                None => r == Err::<Arc<Subscription>, &'static str>("Cannot deserialise filter")
                    && *final(router) == *old(router),
                Some(document) => match r {
                    Ok(s) => subscribed(
                        *old(router),
                        *final(router),
                        client@,
                        offset,
                        subscription_id@,
                        document,
                        Some(s),
                    ),
                    Err(m) => m == "Cannot add subscription" && subscribed(
                        *old(router),
                        *final(router),
                        client@,
                        offset,
                        subscription_id@,
                        document,
                        None,
                    ),
                },
            },
    {
        let text = match string_from_utf8(filter) {
            Ok(t) => t,
            Err(_) => {
                return Err("Cannot decode filter");
            },
        };
        let document = match parse_json(text.as_str()) {
            Some(d) => d,
            None => {
                return Err("Cannot deserialise filter");
            },
        };
        match Eater::handle_subscription(router, client, offset, subscription_id, &document) {
            Some(s) => Ok(s),
            None => Err("Cannot add subscription"),
        }
    }

    /// The reply to a request for the schema of a message type.
    pub fn schema_reply(registry: &Registry, message_type: [u8; 4]) -> (reply: Vec<u8>)
        ensures
            reply@ == schema_reply_spec(*registry, message_type@),
    {
        let mut key = Vec::new();
        extend_bytes(&mut key, &message_type);
        assert(key@ =~= message_type@);
        match registry.get_raw(key) {
            Ok(raw) => {
                let text = raw.as_bytes();
                let mut reply = command_frame(Command::Schema);
                extend_bytes(&mut reply, &message_type);
                let size = size_frame(text.len());
                extend_bytes(&mut reply, size.as_slice());
                extend_bytes(&mut reply, text);
                assert(reply@ =~= schema_reply_spec(*registry, message_type@));
                reply
            },
            Err(_) => {
                let mut reply = command_frame(Command::NoSchema);
                extend_bytes(&mut reply, &message_type);
                assert(reply@ =~= schema_reply_spec(*registry, message_type@));
                reply
            },
        }
    }

    /// The acknowledgement of a message: positive where handling it succeeded,
    /// negative where it failed.
    pub fn acknowledge(result: Result<(), ()>, id: Vec<u8>) -> (reply: Vec<u8>)
        ensures
            reply@ == if result is Ok {
                ack_reply(id@)
            } else {
                nack_reply(id@)
            },
    {
        match result {
            Ok(_) => message_ack_frame(id.as_slice()),
            Err(_) => message_nack_frame(id.as_slice()),
        }
    }
}

/// Once a schema is added for a message type, a request for that type's
/// schema is answered with the text that was added.
pub proof fn law_schema_reply_after_add(
    before: Registry,
    after: Registry,
    message_type: Seq<u8>,
    schema: AvroType,
    raw_schema: Seq<char>,
)
    requires
        after.view() == upsert(before.view(), message_type, (schema, raw_schema)),
    ensures
        schema_reply_spec(after, message_type) == seq![command_byte(Command::Schema)]
            + message_type + le_bytes(
            vstd::utf8::encode_utf8(raw_schema).len() % 0x1_0000_0000,
            4,
        ) + vstd::utf8::encode_utf8(raw_schema),
{
    law_get_after_add(before.view(), message_type, (schema, raw_schema), message_type);
}

} // verus!
