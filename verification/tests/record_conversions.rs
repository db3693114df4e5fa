//! Conversions between whole records and attribute maps, and key projection.

use korat::attributes::AttributeMap;
use korat::attributes::AttributeValue;
use korat::codec::decode_record;
use korat::codec::encode_record;
use korat::schema::attribute_names;
use korat::schema::AttributeType;
use korat::schema::BaseAttributeType;
use korat::schema::FieldDescriptor;
use korat::schema::ItemSchema;
use korat::schema::KeyRole;
use korat::schema::NumberType;
use korat::typed::FieldValue;
use korat::typed::TypedRecord;
use korat::DynamoDBInsertable;
use korat::DynamoDBItem;
use korat::ItemWithHashAndRange;
use korat::ItemWithHashAndRangeKey;

fn plain(base: BaseAttributeType) -> AttributeType {
    AttributeType {
        optional: false,
        base,
    }
}

fn field(name: &str, base: BaseAttributeType) -> FieldDescriptor {
    FieldDescriptor {
        name: name.to_string(),
        role: KeyRole::NonKey,
        ty: plain(base),
    }
}

fn single_field_schema() -> ItemSchema {
    ItemSchema {
        fields: vec![field("number_attribute", BaseAttributeType::Num(NumberType::I32))],
    }
}

fn item_with_all_types_schema() -> ItemSchema {
    ItemSchema {
        fields: vec![
            field("number_attribute", BaseAttributeType::Num(NumberType::I32)),
            field("string_attribute", BaseAttributeType::Str),
            field("string_set_attribute", BaseAttributeType::StrSet),
            field(
                "number_set_attribute",
                BaseAttributeType::NumSet(NumberType::I32),
            ),
            field("binary_set_attribute", BaseAttributeType::BinSet),
            field("boolean_attribute", BaseAttributeType::Bool),
            field("binary_attribute", BaseAttributeType::Bin),
            field(
                "item_attribute",
                BaseAttributeType::Rec(single_field_schema()),
            ),
            field(
                "item_list_attribute",
                BaseAttributeType::RecList(single_field_schema()),
            ),
        ],
    }
}

fn item_with_all_types_value() -> TypedRecord {
    TypedRecord {
        values: vec![
            FieldValue::Num(1231),
            FieldValue::Str("string".to_string()),
            FieldValue::StrSet(vec!["string".to_string()]),
            FieldValue::NumSet(vec![1, 2, 3]),
            FieldValue::BinSet(vec![vec![12, 11, 28]]),
            FieldValue::Bool(true),
            FieldValue::Bin(vec![12, 44, 28, 11]),
            FieldValue::Rec(TypedRecord {
                values: vec![FieldValue::Num(1231)],
            }),
            FieldValue::RecList(vec![
                TypedRecord {
                    values: vec![FieldValue::Num(1231)],
                },
                TypedRecord {
                    values: vec![FieldValue::Num(1231)],
                },
            ]),
        ],
    }
}

fn item_attributes() -> AttributeMap {
    let mut m = AttributeMap::new();
    m.insert(
        "number_attribute".to_string(),
        AttributeValue::Num(1231.to_string()),
    );
    m
}

#[test]
fn test_derive_can_deserialize_valid_input() {
    let mut attributes = AttributeMap::new();

    attributes.insert(
        "number_attribute".to_string(),
        AttributeValue::Num(1231.to_string()),
    );
    attributes.insert(
        "string_attribute".to_string(),
        AttributeValue::Str("string".to_string()),
    );
    attributes.insert(
        "string_set_attribute".to_string(),
        AttributeValue::StrSet(vec!["string".to_string()]),
    );
    attributes.insert(
        "number_set_attribute".to_string(),
        AttributeValue::NumSet(vec![
            1.to_string(),
            2.to_string(),
            3.to_string(),
        ]),
    );
    attributes.insert(
        "binary_set_attribute".to_string(),
        AttributeValue::BinSet(vec![vec![12, 11, 28]]),
    );
    attributes.insert("boolean_attribute".to_string(), AttributeValue::Bool(true));
    attributes.insert(
        "binary_attribute".to_string(),
        AttributeValue::Bin(vec![12, 44, 28, 11]),
    );
    attributes.insert(
        "item_attribute".to_string(),
        AttributeValue::Rec(item_attributes()),
    );
    attributes.insert(
        "item_list_attribute".to_string(),
        AttributeValue::List(vec![
            AttributeValue::Rec(item_attributes()),
            AttributeValue::Rec(item_attributes()),
        ]),
    );

    let schema = item_with_all_types_schema();
    let item = decode_record(&schema, attributes).unwrap();

    assert_eq!(item_with_all_types_value(), item);
}

#[test]
fn test_derive_fails_to_deserialize_invalid_input() {
    let attributes = AttributeMap::new();
    let schema = item_with_all_types_schema();
    let res = decode_record(&schema, attributes);
    assert!(res.is_err())
}

#[test]
fn test_derive_can_deserialize_serialized() {
    let item = item_with_all_types_value();
    let expected = item_with_all_types_value();

    let schema = item_with_all_types_schema();
    let serialized = encode_record(&schema, item);
    let deserialized = decode_record(&schema, serialized).unwrap();

    assert_eq!(expected, deserialized);
}

#[test]
fn can_get_hash_key_from_insertable() {
    let item = ItemWithHashAndRange {
        hash: "hash value".to_string(),
        range: "range value".to_string(),
        other: "other value".to_string(),
    };

    let key = item.get_key();
    assert_eq!(
        &AttributeValue::Str("hash value".to_string()),
        key.get(&"hash".to_string()).unwrap()
    );
    assert_eq!(
        &AttributeValue::Str("range value".to_string()),
        key.get(&"range".to_string()).unwrap()
    )
}

#[test]
fn can_create_key_structure_from_insertable() {
    let key = ItemWithHashAndRangeKey {
        hash: "something".to_string(),
        range: "something else".to_string(),
    };

    let attr_map = key.clone().into_attribute_map();
    let deserialized = ItemWithHashAndRangeKey::try_from_attribute_map(attr_map).unwrap();

    assert_eq!(key, deserialized);
}

#[test]
fn can_get_attribute_names() {
    assert_eq!(
        vec!["number_attribute"],
        attribute_names(&single_field_schema())
    )
}

#[test]
fn parent_pub_visibility_is_tranfered_to_key() {
    let _item: Option<korat::dynamodb_item::ItemWithHashAndRange> = None;
    let _key: Option<korat::dynamodb_item::ItemWithHashAndRangeKey> = None;
}

#[test]
fn trait_reports_declared_attribute_names() {
    assert_eq!(
        vec!["hash", "range", "other"],
        ItemWithHashAndRange::get_attribute_names()
    );
    assert_eq!(
        vec!["hash", "range"],
        ItemWithHashAndRangeKey::get_attribute_names()
    );
}

#[test]
fn items_convert_through_nested_record_attributes() {
    let key = ItemWithHashAndRangeKey {
        hash: "h".to_string(),
        range: "r".to_string(),
    };
    let av = korat::dynamodb_item::item_to_attribute_value(key.clone());
    let back: ItemWithHashAndRangeKey =
        korat::dynamodb_item::item_from_attribute_value(av).unwrap();
    assert_eq!(key, back);

    let wrong: Result<ItemWithHashAndRangeKey, _> =
        korat::dynamodb_item::item_from_attribute_value(AttributeValue::Bool(true));
    assert!(wrong.is_err());
}

#[test]
fn item_lists_convert_through_list_attributes() {
    let keys = vec![
        ItemWithHashAndRangeKey {
            hash: "a".to_string(),
            range: "b".to_string(),
        },
        ItemWithHashAndRangeKey {
            hash: "c".to_string(),
            range: "d".to_string(),
        },
    ];
    let av = korat::dynamodb_item::item_list_to_attribute_value(keys.clone());
    let back: Vec<ItemWithHashAndRangeKey> =
        korat::dynamodb_item::item_list_from_attribute_value(av).unwrap();
    assert_eq!(keys, back);
}

#[test]
fn item_round_trips_through_attribute_map() {
    let item = ItemWithHashAndRange {
        hash: "h".to_string(),
        range: "r".to_string(),
        other: "o".to_string(),
    };
    let encoded = item.clone().into_attribute_map();
    let decoded = ItemWithHashAndRange::try_from_attribute_map(encoded).unwrap();
    assert_eq!(item, decoded);
}

#[test]
fn can_deserialize_valid_input() {}

#[test]
fn fails_to_deserialize_invalid_input() {}

#[test]
fn can_deserialize_serialized() {}
