use gaze::codec::avro::AvroType;
use gaze::codec::registry::Registry;
use gaze::connection::ConnectionStatus;
use gaze::errors::ParseError;
use gaze::gaze::protocol::{generate_id, write_id};
use gaze::codec::number::VarInt;
use gaze::mode::Mode;
use gaze::operation::{Operation, SchemaOperation};
use gaze::protocol::eater::Eater;
use gaze::router::Router;
use gaze::selection::filter::{Filter, FilterBuilder};
use gaze::selection::json::JsonValue;
use gaze::storage::Store;

const PERSON_SCHEMA: &str =
    r#"{"type": "record", "name": "Person", "fields": [{"name": "name", "type": "string"}]}"#;

#[test]
fn registry_reads_back_what_was_added() {
    let mut registry = Registry::new();
    assert!(registry.get(&[1, 2, 3, 4]).is_none());
    assert_eq!(registry.get_raw(vec![1, 2, 3, 4]), Err(()));
    registry.add(vec![1, 2, 3, 4], "\"int\"".to_string()).unwrap();
    assert!(matches!(registry.get(&[1, 2, 3, 4]), Some(AvroType::Int)));
    assert_eq!(registry.get_raw(vec![1, 2, 3, 4]), Ok("\"int\""));
    registry.add(vec![1, 2, 3, 4], "\"long\"".to_string()).unwrap();
    assert!(matches!(registry.get(&[1, 2, 3, 4]), Some(AvroType::Long)));
    assert_eq!(registry.get_raw(vec![1, 2, 3, 4]), Ok("\"long\""));
    assert!(registry.get(&[9, 9, 9, 9]).is_none());
}

#[test]
fn store_appends_under_the_offset_of_the_id() {
    let mut store = Store::new(100);
    assert_eq!(store.append([0, 0, 0, 0, 0, 1], [1, 1, 1, 1], vec![1, 2, 3]), Ok(()));
    assert_eq!(store.current, 1u64 << 56);
    assert_eq!(store.length, 3);
    assert_eq!(store.btree.get(&(1u64 << 56)), Some(&([1, 1, 1, 1], vec![1, 2, 3])));
}

#[test]
fn store_takes_out_the_lowest_offsets_to_stay_within_budget() {
    let mut store = Store::new(10);
    store.append([1, 0, 0, 0, 0, 0], [1, 1, 1, 1], vec![1, 2, 3]).unwrap();
    store.append([2, 0, 0, 0, 0, 0], [1, 1, 1, 1], vec![4, 5]).unwrap();
    assert_eq!(store.length, 5);
    store.append([3, 0, 0, 0, 0, 0], [1, 1, 1, 1], vec![0; 7]).unwrap();
    assert_eq!(store.length, 9);
    assert!(store.length <= store.max_length);
    assert_eq!(store.current, 3 * 65536);
    assert!(store.btree.get(&65536).is_none());
    assert_eq!(store.btree.get(&(2 * 65536)), Some(&([1, 1, 1, 1], vec![4, 5])));
    assert_eq!(store.btree.len(), 2);
}

#[test]
fn store_refuses_what_it_cannot_make_room_for() {
    let mut store = Store::new(0);
    assert_eq!(store.try_append([1, 0, 0, 0, 0, 0], [1, 1, 1, 1], vec![1]), Err(()));
    assert_eq!(store.length, 1);
    assert!(store.btree.is_empty());
    assert_eq!(store.current, 0);
    let mut store = Store::new(0);
    assert_eq!(store.try_append([1, 0, 0, 0, 0, 0], [1, 1, 1, 1], vec![]), Ok(()));
    let mut store = Store::new(4);
    store.append([1, 0, 0, 0, 0, 0], [1, 1, 1, 1], vec![1, 2]).unwrap();
    assert_eq!(store.try_append([2, 0, 0, 0, 0, 0], [1, 1, 1, 1], vec![0; 5]), Err(()));
    assert!(store.btree.is_empty());
    assert_eq!(store.length, 5);
}

#[test]
fn store_budget_follows_free_memory() {
    let mut store = Store::new(10);
    store.append([1, 0, 0, 0, 0, 0], [1, 1, 1, 1], vec![1, 2]).unwrap();
    store.update_max_length(50);
    assert_eq!(store.max_length, 48);
    assert_eq!(store.length, 2);
}

#[test]
fn store_replay_checks_known_schemas() {
    let mut store = Store::new(100);
    store.append([1, 0, 0, 0, 0, 0], [1, 1, 1, 1], vec![1]).unwrap();
    let mut registry = Registry::new();
    assert!(!store.check_schemas_known(0, &registry));
    assert!(store.check_schemas_known(65537, &registry));
    registry.add(vec![1, 1, 1, 1], "\"int\"".to_string()).unwrap();
    assert!(store.check_schemas_known(0, &registry));
}

#[test]
fn router_tracks_clients() {
    let mut router = Router::new(100);
    router.add_client(vec![1]);
    router.add_client(vec![2]);
    router.add_client(vec![1]);
    assert_eq!(router.clients, vec![vec![1], vec![2]]);
    router.remove_client(&vec![1], &vec![]);
    assert_eq!(router.clients, vec![vec![2]]);
    router.add_client(vec![1]);
    router.remove_client(&vec![1], &vec![]);
    assert_eq!(router.clients, vec![vec![2]]);
}

#[test]
fn a_message_without_schema_asks_for_it() {
    let mut router = Router::new(100);
    let delivery = Eater::handle_message(&mut router, [1, 2, 3, 4, 5, 6], [7, 7, 7, 7], vec![0]);
    assert!(delivery.completed);
    assert!(delivery.recipients.is_empty());
    assert_eq!(delivery.reply, vec![0x10, 7, 7, 7, 7, 0x04, 1, 2, 3, 4, 5, 6]);
    assert_eq!(router.store.length, 0);
}

#[test]
fn a_message_with_schema_is_stored_distributed_and_acknowledged() {
    let mut router = Router::new(100);
    let person_type = Filter::hash_message_type("Person".to_string());
    let mut t = [0u8; 4];
    t.copy_from_slice(&person_type);
    router.registry.add(person_type.clone(), PERSON_SCHEMA.to_string()).unwrap();
    let filter = JsonValue::Array(vec![JsonValue::Object(vec![
        ("$type".to_string(), JsonValue::String("Person".to_string())),
        ("name".to_string(), JsonValue::String("ann".to_string())),
    ])]);
    let subscription =
        Eater::handle_subscription(&mut router, &vec![5], 0, [4, 3, 2, 1], &filter).unwrap();
    assert_eq!(subscription.id, vec![4, 3, 2, 1]);
    assert_eq!(subscription.client, vec![5]);

    let message = vec![6, b'a', b'n', b'n'];
    let delivery = Eater::handle_message(&mut router, [1, 0, 0, 0, 0, 0], t, message.clone());
    assert!(delivery.completed);
    assert_eq!(delivery.recipients.len(), 1);
    assert_eq!(delivery.recipients[0].id, vec![4, 3, 2, 1]);
    assert_eq!(delivery.reply, vec![0x03, 1, 0, 0, 0, 0, 0]);
    assert_eq!(router.store.current, 65536);
    assert_eq!(router.store.btree.get(&65536), Some(&(t, message)));

    let other = Eater::handle_message(&mut router, [2, 0, 0, 0, 0, 0], t, vec![6, b'b', b'o', b'b']);
    assert!(other.completed);
    assert!(other.recipients.is_empty());
}

#[test]
fn a_message_that_cannot_be_stored_stops_the_connection() {
    let mut router = Router::new(0);
    router.registry.add(vec![7, 7, 7, 7], "\"int\"".to_string()).unwrap();
    let delivery = Eater::handle_message(&mut router, [1, 0, 0, 0, 0, 0], [7, 7, 7, 7], vec![2]);
    assert!(!delivery.completed);
    assert!(delivery.reply.is_empty());
    assert_eq!(router.store.length, 1);
    assert!(router.store.btree.is_empty());
}

#[test]
fn subscriptions_with_unreadable_filters_or_unknown_stored_types_fail() {
    let mut router = Router::new(100);
    assert!(Eater::handle_subscription(&mut router, &vec![5], 0, [1, 1, 1, 1], &JsonValue::Null).is_none());
    router.store.append([1, 0, 0, 0, 0, 0], [8, 8, 8, 8], vec![1]).unwrap();
    let filter = JsonValue::Array(vec![]);
    assert!(Eater::handle_subscription(&mut router, &vec![5], 0, [1, 1, 1, 1], &filter).is_none());
    assert!(Eater::handle_subscription(&mut router, &vec![5], 65537, [1, 1, 1, 1], &filter).is_some());
}

#[test]
fn schema_replies() {
    let mut registry = Registry::new();
    assert_eq!(Eater::schema_reply(&registry, [1, 2, 3, 4]), vec![0x11, 1, 2, 3, 4]);
    registry.add(vec![1, 2, 3, 4], "\"null\"".to_string()).unwrap();
    let mut expected = vec![0x08, 1, 2, 3, 4, 6, 0, 0, 0];
    expected.extend_from_slice(b"\"null\"");
    assert_eq!(Eater::schema_reply(&registry, [1, 2, 3, 4]), expected);
}

#[test]
fn acknowledgements() {
    assert_eq!(Eater::acknowledge(Ok(()), vec![1, 2]), vec![0x03, 1, 2]);
    assert_eq!(Eater::acknowledge(Err(()), vec![1, 2]), vec![0x04, 1, 2]);
}

#[test]
fn modes() {
    assert_eq!(Mode::parse("b".to_string()), Ok(Mode::Machine));
    assert_eq!(Mode::parse("B".to_string()), Ok(Mode::Machine));
    assert_eq!(Mode::parse("x".to_string()), Ok(Mode::Readable));
    assert_eq!(Mode::parse("bb".to_string()), Ok(Mode::Readable));
    assert_eq!(Mode::parse("".to_string()), Ok(Mode::Readable));
}

#[test]
fn operations() {
    assert_eq!(
        Operation::parse("subscribe topic".to_string()),
        Ok((Operation::Subscribe, "topic".to_string()))
    );
    assert_eq!(
        Operation::parse("publish hello there".to_string()),
        Ok((Operation::Publish, "hello there".to_string()))
    );
    assert_eq!(Operation::parse("exit ".to_string()), Ok((Operation::Close, "".to_string())));
    assert_eq!(
        Operation::parse("schema add {}".to_string()),
        Ok((Operation::Schema(SchemaOperation::Add), "{}".to_string()))
    );
    assert_eq!(Operation::parse("subscribers".to_string()), Ok((Operation::Subscribe, "s".to_string())));
    assert_eq!(Operation::parse("hello".to_string()), Err(ParseError));
    assert_eq!(Operation::parse("schema update x".to_string()), Err(ParseError));
}

#[test]
fn parse_error_message() {
    assert_eq!(ParseError.message(), "Cannot parse input");
}

#[test]
fn ids_are_encoded_sums() {
    let mut dst = [0xaau8; 19];
    assert_eq!(write_id(&mut dst, 1, 2), 1);
    assert_eq!(dst[0], 6);
    assert_eq!(dst[1], 0xaa);
    let mut dst = [0u8; 19];
    let id = generate_id(&mut dst).unwrap();
    assert_eq!(id.len(), 19);
    let end = id.iter().position(|b| b & 0x80 == 0);
    assert!(end.is_some());
    let (_, read) = i128::decode_var(&[0x96, 0x01]);
    assert_eq!(read, 2);
}

#[test]
fn connection_status_is_copy() {
    let s = ConnectionStatus::Keep;
    let t = s;
    assert_eq!(s, t);
}

#[test]
fn schema_and_filter_texts() {
    let mut router = Router::new(100);
    assert_eq!(Eater::handle_schema(&mut router, [1, 1, 1, 1], b"\"int\"".to_vec()), Ok(()));
    assert!(matches!(router.registry.get(&[1, 1, 1, 1]), Some(AvroType::Int)));
    assert_eq!(router.registry.get_raw(vec![1, 1, 1, 1]), Ok("\"int\""));
    assert_eq!(Eater::handle_schema(&mut router, [2, 2, 2, 2], vec![0xff, 0xfe]), Err("Found invalid UTF-8"));
    assert_eq!(
        Eater::handle_schema(&mut router, [2, 2, 2, 2], b"not a schema".to_vec()),
        Err("Cannot parse schema")
    );
    assert!(router.registry.get(&[2, 2, 2, 2]).is_none());
    assert_eq!(Eater::handle_schema(&mut router, [3, 3, 3, 3], PERSON_SCHEMA.as_bytes().to_vec()), Ok(()));
    match router.registry.get(&[3, 3, 3, 3]) {
        Some(AvroType::Record { name, fields }) => {
            assert_eq!(name, "Person");
            assert_eq!(fields.len(), 1);
            assert_eq!(fields[0].name, "name");
            assert!(matches!(fields[0].schema, AvroType::String));
        }
        _ => panic!("expected a record model"),
    }
}

#[test]
fn subscription_frames() {
    let mut router = Router::new(100);
    let frame = |f: &[u8]| f.to_vec();
    assert_eq!(
        Eater::handle_subscription_frame(&mut router, &vec![5], 0, [1, 1, 1, 1], vec![0xc3]).err(),
        Some("Cannot decode filter")
    );
    assert_eq!(
        Eater::handle_subscription_frame(&mut router, &vec![5], 0, [1, 1, 1, 1], frame(b"[1,")).err(),
        Some("Cannot deserialise filter")
    );
    assert_eq!(
        Eater::handle_subscription_frame(&mut router, &vec![5], 0, [1, 1, 1, 1], frame(b"{}")).err(),
        Some("Cannot add subscription")
    );
    assert!(router.selector.is_empty());
    let filter = br#"[{"$type": "Person", "name": "ann", "age": {"$gt": 3}}]"#;
    let subscription =
        Eater::handle_subscription_frame(&mut router, &vec![5], 0, [1, 1, 1, 1], filter.to_vec()).unwrap();
    assert_eq!(subscription.id, vec![1, 1, 1, 1]);
    assert_eq!(subscription.client, vec![5]);
    assert_eq!(subscription.filter.len(), 1);
    assert_eq!(subscription.filter[0].0, Filter::hash_message_type("Person".to_string()));
    assert_eq!(subscription.filter[0].1.len(), 2);
    assert_eq!(router.selector.len(), 1);
}

#[test]
fn registry_refuses_text_that_is_not_a_schema() {
    let mut registry = Registry::new();
    assert!(registry.add(vec![1, 2, 3, 4], "not json".to_string()).is_err());
    assert!(registry.get(&[1, 2, 3, 4]).is_none());
    assert_eq!(registry.get_raw(vec![1, 2, 3, 4]), Err(()));
}
