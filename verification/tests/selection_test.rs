use gaze::codec::avro::{AvroType, RecordField};
use gaze::selection::filter::{read_constraint, read_filter, Constraint, Filter, FilterBuilder, Reading};
use gaze::selection::json::{JsonNumber, JsonValue};
use gaze::selection::selector::{try_distribute, Selection, Selector};
use gaze::selection::subscription::Subscription;

fn string(s: &str) -> JsonValue {
    JsonValue::String(s.to_string())
}

fn object(members: Vec<(&str, JsonValue)>) -> JsonValue {
    JsonValue::Object(members.into_iter().map(|(k, v)| (k.to_string(), v)).collect())
}

fn person_schema() -> AvroType {
    AvroType::Record {
        name: "Person".to_string(),
        fields: vec![
            RecordField { name: "name".to_string(), schema: AvroType::String },
            RecordField { name: "age".to_string(), schema: AvroType::Int },
        ],
    }
}

/// An encoded person: the name as a sized string, then the age as a zigzag varint.
fn person(name: &str, age: u8) -> Vec<u8> {
    let mut m = vec![(2 * name.len()) as u8];
    m.extend_from_slice(name.as_bytes());
    m.push(2 * age);
    m
}

#[test]
fn message_type_names_hash_with_xxhash() {
    let hashed = Filter::hash_message_type("Person".to_string());
    let expected = fasthash::xx::hash32("Person".as_bytes()).to_le_bytes().to_vec();
    assert_eq!(hashed, expected);
    assert_eq!(hashed.len(), 4);
    assert_ne!(hashed, b"Pers".to_vec());
}

#[test]
fn reading_constraints() {
    match read_constraint(&string("ann")) {
        Reading::Read(Constraint::Equal(v)) => assert_eq!(v, b"ann".to_vec()),
        _ => panic!("expected an equality"),
    }
    match read_constraint(&JsonValue::Number(JsonNumber::PosInt(5))) {
        Reading::Read(Constraint::Equal(v)) => assert_eq!(v, 5u64.to_le_bytes().to_vec()),
        _ => panic!("expected an equality"),
    }
    match read_constraint(&JsonValue::Number(JsonNumber::NegInt(-1))) {
        Reading::Read(Constraint::Equal(v)) => assert_eq!(v, (-1i64).to_le_bytes().to_vec()),
        _ => panic!("expected an equality"),
    }
    match read_constraint(&object(vec![("$gt", JsonValue::Number(JsonNumber::PosInt(5)))])) {
        Reading::Read(Constraint::GreaterThan(v)) => assert_eq!(v, 5u64.to_le_bytes().to_vec()),
        _ => panic!("expected a greater-than"),
    }
    match read_constraint(&object(vec![("$lt", string("a"))])) {
        Reading::Read(Constraint::LowerThan(v)) => assert_eq!(v, b"a".to_vec()),
        _ => panic!("expected a lower-than"),
    }
}

#[test]
fn refused_constraints() {
    match read_constraint(&object(vec![("$gt", string("a")), ("$lt", string("b"))])) {
        Reading::Refused(m) => assert_eq!(m, "Filter contains more than 1 operator"),
        _ => panic!("expected a refusal"),
    }
    match read_constraint(&object(vec![("$eq", string("a"))])) {
        Reading::Refused(m) => assert_eq!(m, "Filter operator not known"),
        _ => panic!("expected a refusal"),
    }
    match read_constraint(&object(vec![("$gt", object(vec![("$lt", string("a"))]))])) {
        Reading::Refused(m) => assert_eq!(m, "Filter contains an operator that cannot be parsed"),
        _ => panic!("expected a refusal"),
    }
    match read_constraint(&JsonValue::Bool(true)) {
        Reading::Refused(m) => assert_eq!(m, "Filter contains field not allowed"),
        _ => panic!("expected a refusal"),
    }
    assert!(matches!(read_constraint(&object(vec![])), Reading::Panic));
    assert_eq!(
        Filter::parse_constraint(JsonValue::Null).unwrap_err(),
        "Filter contains field not allowed"
    );
}

#[test]
fn reading_a_filter() {
    let input = JsonValue::Array(vec![object(vec![("$type", string("Person")), ("name", string("ann"))])]);
    let filter = match read_filter(&input) {
        Reading::Read(f) => f,
        _ => panic!("expected a filter"),
    };
    assert_eq!(filter.len(), 1);
    assert_eq!(filter[0].0, Filter::hash_message_type("Person".to_string()));
    assert_eq!(filter[0].1.len(), 1);
    assert_eq!(filter[0].1[0].0, "name");
    let checks = filter.build_checks_per_type();
    assert_eq!(checks, vec![(Filter::hash_message_type("Person".to_string()), 1)]);
    assert!(Filter::parse(input).is_ok());
}

#[test]
fn refused_filters() {
    assert!(matches!(read_filter(&string("x")), Reading::Refused(_)));
    assert!(matches!(read_filter(&JsonValue::Array(vec![string("x")])), Reading::Refused(_)));
    let no_type = JsonValue::Array(vec![object(vec![("name", string("ann"))])]);
    assert!(matches!(read_filter(&no_type), Reading::Refused(_)));
    assert!(Filter::parse(JsonValue::Null).is_err());
}

#[test]
fn checks_count_the_last_entry_of_a_type() {
    let input = JsonValue::Array(vec![
        object(vec![("$type", string("Person")), ("name", string("ann")), ("age", JsonValue::Number(JsonNumber::PosInt(3)))]),
        object(vec![("$type", string("Person")), ("name", string("bob"))]),
    ]);
    let filter = Filter::parse(input).unwrap();
    let checks = filter.build_checks_per_type();
    assert_eq!(checks, vec![(Filter::hash_message_type("Person".to_string()), 1)]);
}

fn subscribed_selector(filter_input: JsonValue) -> (Selector, std::sync::Arc<Subscription>) {
    let filter = Filter::parse(filter_input).unwrap();
    let subscription = Subscription::new(vec![1, 2, 3, 4], vec![9], filter);
    let mut selector: Selector = Vec::new();
    subscription.integrate(&mut selector);
    (selector, subscription)
}

#[test]
fn a_message_reaches_the_subscription_whose_filter_it_passes() {
    let (selector, subscription) = subscribed_selector(JsonValue::Array(vec![object(vec![
        ("$type", string("Person")),
        ("name", string("ann")),
    ])]));
    let person_type = Filter::hash_message_type("Person".to_string());
    let recipients = try_distribute(&selector, &person_type, &person_schema(), &person("ann", 30)).unwrap();
    assert_eq!(recipients.len(), 1);
    assert_eq!(recipients[0].id, subscription.id);
    let recipients = try_distribute(&selector, &person_type, &person_schema(), &person("bob", 30)).unwrap();
    assert!(recipients.is_empty());
    let recipients = selector.distribute(&person_type, &person_schema(), &person("ann", 1));
    assert_eq!(recipients.len(), 1);
}

#[test]
fn a_message_of_another_type_reaches_nobody() {
    let (selector, _) = subscribed_selector(JsonValue::Array(vec![object(vec![
        ("$type", string("Person")),
        ("name", string("ann")),
    ])]));
    let other_type = Filter::hash_message_type("Animal".to_string());
    let recipients = try_distribute(&selector, &other_type, &person_schema(), &person("ann", 30)).unwrap();
    assert!(recipients.is_empty());
}

#[test]
fn greater_than_compares_the_encodings() {
    let (selector, _) = subscribed_selector(JsonValue::Array(vec![object(vec![
        ("$type", string("Person")),
        ("age", object(vec![("$gt", JsonValue::Number(JsonNumber::PosInt(2)))])),
    ])]));
    let person_type = Filter::hash_message_type("Person".to_string());
    let none = try_distribute(&selector, &person_type, &person_schema(), &person("ann", 30)).unwrap();
    assert!(none.is_empty());
}

#[test]
fn integration_files_the_subscription_by_type_and_field() {
    let (selector, _) = subscribed_selector(JsonValue::Array(vec![object(vec![
        ("$type", string("Person")),
        ("name", string("ann")),
    ])]));
    assert_eq!(selector.len(), 1);
    assert_eq!(selector[0].0, Filter::hash_message_type("Person".to_string()));
    assert_eq!(selector[0].1.len(), 1);
    assert_eq!(selector[0].1[0].0, ".name");
    let mut selector = selector;
    let before = selector.len();
    let (_, other) = subscribed_selector(JsonValue::Array(vec![]));
    other.disgregate(&mut selector);
    assert_eq!(selector.len(), before);
}

#[test]
fn one_field_equality_delivery() {
    let (selector, subscription) = subscribed_selector(JsonValue::Array(vec![object(vec![
        ("$type", string("Tag")),
        ("label", string("red")),
    ])]));
    let tag_type = Filter::hash_message_type("Tag".to_string());
    let schema = AvroType::Record {
        name: "Tag".to_string(),
        fields: vec![RecordField { name: "label".to_string(), schema: AvroType::String }],
    };
    let mut red = vec![6u8];
    red.extend_from_slice(b"red");
    let mut blue = vec![8u8];
    blue.extend_from_slice(b"blue");
    let to_red = try_distribute(&selector, &tag_type, &schema, &red).unwrap();
    assert_eq!(to_red.len(), 1);
    assert_eq!(to_red[0].id, subscription.id);
    assert!(try_distribute(&selector, &tag_type, &schema, &blue).unwrap().is_empty());
}

#[test]
fn integrating_twice_keeps_one_entry_per_type_and_field() {
    let input = || {
        JsonValue::Array(vec![object(vec![("$type", string("Person")), ("name", string("ann"))])])
    };
    let first = Subscription::new(vec![1], vec![9], Filter::parse(input()).unwrap());
    let second = Subscription::new(vec![2], vec![9], Filter::parse(input()).unwrap());
    let mut selector: Selector = Vec::new();
    first.integrate(&mut selector);
    second.integrate(&mut selector);
    assert_eq!(selector.len(), 1);
    assert_eq!(selector[0].1.len(), 1);
    let equality = &(selector[0].1[0].1).0;
    assert_eq!(equality.len(), 1);
    assert_eq!(equality[0].1.len(), 2);
}

#[test]
fn relaying_builds_one_frame_per_recipient() {
    let (selector, subscription) = subscribed_selector(JsonValue::Array(vec![object(vec![
        ("$type", string("Person")),
        ("name", string("ann")),
    ])]));
    let person_type = Filter::hash_message_type("Person".to_string());
    let message = person("ann", 3);
    let recipients = selector.distribute(&person_type, &person_schema(), &message);
    let frames = Selector::relay(&recipients, &person_type, &message).unwrap();
    assert_eq!(frames.len(), 1);
    assert_eq!(frames[0].0, subscription.client);
    let frame = &frames[0].1;
    assert_eq!(frame[0], 0x13);
    assert_eq!(frame[1] & 0xfc, 0xfc);
    assert_eq!(&frame[7..11], &person_type[..]);
    assert_eq!(&frame[11..15], &subscription.id[..]);
    assert_eq!(&frame[15..19], &(message.len() as u32).to_le_bytes()[..]);
    assert_eq!(&frame[19..], &message[..]);
}

#[test]
fn selecting_a_string_field_reads_its_header() {
    let mut checker: gaze::selection::selector::Checker = (Vec::new(), Vec::new());
    let by_field: gaze::selection::selector::SubscriptionsByField = Vec::new();
    let end = gaze::selection::selector::try_select(
        &mut checker,
        &by_field,
        &AvroType::String,
        "",
        &[0x08, b't', b'e', b's', b't'],
    );
    assert_eq!(end, Some(5));
    assert!(checker.0.is_empty() && checker.1.is_empty());
}

#[test]
fn relaying_to_nobody_gives_no_frames() {
    let frames = Selector::relay(&Vec::new(), &[1, 2, 3, 4], b"x").unwrap();
    assert!(frames.is_empty());
}

#[test]
fn equality_subscriptions_receive_in_integration_order() {
    let tag = |id: u8, label: &str| {
        let filter = Filter::parse(JsonValue::Array(vec![object(vec![
            ("$type", string("Tag")),
            ("label", string(label)),
        ])]))
        .unwrap();
        Subscription::new(vec![id], vec![id], filter)
    };
    let subs = vec![tag(1, "red"), tag(2, "blue"), tag(3, "red")];
    let mut selector: Selector = Vec::new();
    for s in &subs {
        s.integrate(&mut selector);
    }
    let tag_type = Filter::hash_message_type("Tag".to_string());
    let schema = AvroType::Record {
        name: "Tag".to_string(),
        fields: vec![RecordField { name: "label".to_string(), schema: AvroType::String }],
    };
    let red = try_distribute(&selector, &tag_type, &schema, &[6, b'r', b'e', b'd']).unwrap();
    let ids: Vec<Vec<u8>> = red.iter().map(|s| s.id.clone()).collect();
    assert_eq!(ids, vec![vec![1], vec![3]]);
    let long = "x".repeat(200);
    let mut message = vec![0x90, 0x03];
    message.extend_from_slice(long.as_bytes());
    assert!(try_distribute(&selector, &tag_type, &schema, &message).unwrap().is_empty());
}
