use avro_rs::Schema;
use gaze::registry::Registry;
use gaze::schema::{map_fields, Type};

#[test]
fn test_map_fields_with_null() {
    let schema = Schema::parse_str(
        r#"
            {
                "type": "null",
                "name": "test"
            }
        "#,
    )
    .unwrap();
    let input: &[u8] = &[0x00];
    let map = map_fields(&schema, input, 0).unwrap();

    assert_eq!(map, Type::Literal(0))
}

#[test]
fn test_map_fields_with_record() {
    let schema = Schema::parse_str(
        r#"
            {
                "type": "record",
                "name": "test",
                "fields": [
                    {"name": "a", "type": "long", "default": 42},
                    {"name": "b", "type": "string"}
                ]
            }
        "#,
    )
    .unwrap();
    let input: &[u8] = &[0x02, 0x08, 0x74, 0x65, 0x73, 0x74, 0x02, 0x00];
    let map = map_fields(&schema, input, 0).unwrap();

    assert_eq!(map, Type::Literal(0))
}

#[test]
fn map_fields_places_at_the_offset() {
    let schema = Schema::parse_str(r#"{"type": "string"}"#).unwrap();
    let map = map_fields(&schema, &[0x02, 0x61], 7).unwrap();
    assert_eq!(map, Type::Literal(7));
}

#[test]
fn registry_accepts_an_avro_schema() {
    let registry = Registry::new();
    assert!(registry.add(r#"{"type": "null"}"#).is_ok());
    assert!(registry
        .add(r#"{"type": "record", "name": "p", "fields": [{"name": "a", "type": "int"}]}"#)
        .is_ok());
}

#[test]
fn registry_refuses_what_is_not_a_schema() {
    let registry = Registry::new();
    assert!(registry.add("not json at all").is_err());
    assert!(registry.add(r#"{"type": "no such type"}"#).is_err());
}
