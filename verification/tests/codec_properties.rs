//! Edge cases and concrete instances of the codec's laws.

use korat::attributes::AttributeMap;
use korat::attributes::AttributeValue;
use korat::codec::decode_record;
use korat::codec::decode_value;
use korat::codec::encode_record;
use korat::codec::encode_value;
use korat::keys::get_key;
use korat::keys::key_schema;
use korat::schema::clone_schema;
use korat::schema::schema_is_valid;
use korat::schema::AttributeType;
use korat::schema::BaseAttributeType;
use korat::schema::FieldDescriptor;
use korat::schema::ItemSchema;
use korat::schema::KeyRole;
use korat::schema::NumberType;
use korat::typed::FieldValue;
use korat::typed::TypedRecord;
use korat::ConversionError;

fn plain(base: BaseAttributeType) -> AttributeType {
    AttributeType {
        optional: false,
        base,
    }
}

fn optional(base: BaseAttributeType) -> AttributeType {
    AttributeType {
        optional: true,
        base,
    }
}

fn keyed_field(name: &str, role: KeyRole, base: BaseAttributeType) -> FieldDescriptor {
    FieldDescriptor {
        name: name.to_string(),
        role,
        ty: plain(base),
    }
}

fn round_trips(ty: AttributeType, value: FieldValue) {
    let encoded = encode_value(&ty, &value);
    let decoded = decode_value(&ty, encoded).unwrap();
    assert_eq!(value, decoded);
}

#[test]
fn scalar_values_round_trip() {
    round_trips(plain(BaseAttributeType::Str), FieldValue::Str("abc".to_string()));
    round_trips(plain(BaseAttributeType::Bool), FieldValue::Bool(false));
    round_trips(plain(BaseAttributeType::Bin), FieldValue::Bin(vec![0, 255, 7]));
    round_trips(
        plain(BaseAttributeType::Num(NumberType::U16)),
        FieldValue::Num(65535),
    );
    round_trips(
        plain(BaseAttributeType::Num(NumberType::U32)),
        FieldValue::Num(4294967295),
    );
    round_trips(
        plain(BaseAttributeType::Num(NumberType::I32)),
        FieldValue::Num(-2147483648),
    );
    round_trips(
        plain(BaseAttributeType::Num(NumberType::I64)),
        FieldValue::Num(i64::MIN),
    );
    round_trips(
        plain(BaseAttributeType::Num(NumberType::I64)),
        FieldValue::Num(i64::MAX),
    );
    round_trips(plain(BaseAttributeType::Num(NumberType::I64)), FieldValue::Num(0));
}

#[test]
fn collection_values_round_trip() {
    round_trips(
        plain(BaseAttributeType::StrSet),
        FieldValue::StrSet(vec!["a".to_string(), "b".to_string()]),
    );
    round_trips(
        plain(BaseAttributeType::NumSet(NumberType::I32)),
        FieldValue::NumSet(vec![3, -1, 2]),
    );
    round_trips(
        plain(BaseAttributeType::BinSet),
        FieldValue::BinSet(vec![vec![1], vec![2, 3]]),
    );
    round_trips(
        plain(BaseAttributeType::NumList(NumberType::I64)),
        FieldValue::NumList(vec![5, 5, -5, 5]),
    );
    round_trips(
        plain(BaseAttributeType::StrSet),
        FieldValue::StrSet(vec![]),
    );
}

#[test]
fn optional_values_round_trip() {
    round_trips(optional(BaseAttributeType::Str), FieldValue::Nothing);
    round_trips(
        optional(BaseAttributeType::Str),
        FieldValue::Str("present".to_string()),
    );
}

#[test]
fn absent_optional_decodes_to_nothing() {
    let decoded = decode_value(&optional(BaseAttributeType::Bool), AttributeValue::Absent);
    assert_eq!(Ok(FieldValue::Nothing), decoded);
}

#[test]
fn wrong_variant_optional_decodes_to_nothing() {
    let decoded = decode_value(
        &optional(BaseAttributeType::Bool),
        AttributeValue::Num("1".to_string()),
    );
    assert_eq!(Ok(FieldValue::Nothing), decoded);
}

#[test]
fn invalid_content_fails_even_when_optional() {
    let decoded = decode_value(
        &optional(BaseAttributeType::Num(NumberType::I64)),
        AttributeValue::Num("abc".to_string()),
    );
    assert_eq!(Err(ConversionError::InvalidValue), decoded);
}

#[test]
fn wrong_variant_yields_missing_value() {
    let decoded = decode_value(
        &plain(BaseAttributeType::Str),
        AttributeValue::Bool(true),
    );
    assert_eq!(Err(ConversionError::MissingValue), decoded);
}

#[test]
fn invalid_number_yields_invalid_value() {
    let decoded = decode_value(
        &plain(BaseAttributeType::Num(NumberType::I32)),
        AttributeValue::Num("abc".to_string()),
    );
    assert_eq!(Err(ConversionError::InvalidValue), decoded);
}

#[test]
fn out_of_width_number_yields_invalid_value() {
    let decoded = decode_value(
        &plain(BaseAttributeType::Num(NumberType::U16)),
        AttributeValue::Num("70000".to_string()),
    );
    assert_eq!(Err(ConversionError::InvalidValue), decoded);

    let negative = decode_value(
        &plain(BaseAttributeType::Num(NumberType::U32)),
        AttributeValue::Num("-1".to_string()),
    );
    assert_eq!(Err(ConversionError::InvalidValue), negative);

    let overflow = decode_value(
        &plain(BaseAttributeType::Num(NumberType::I64)),
        AttributeValue::Num("9223372036854775808".to_string()),
    );
    assert_eq!(Err(ConversionError::InvalidValue), overflow);
}

#[test]
fn lenient_number_texts_parse() {
    let plus = decode_value(
        &plain(BaseAttributeType::Num(NumberType::I32)),
        AttributeValue::Num("+7".to_string()),
    );
    assert_eq!(Ok(FieldValue::Num(7)), plus);

    let zeros = decode_value(
        &plain(BaseAttributeType::Num(NumberType::I32)),
        AttributeValue::Num("007".to_string()),
    );
    assert_eq!(Ok(FieldValue::Num(7)), zeros);

    let negative_zero = decode_value(
        &plain(BaseAttributeType::Num(NumberType::U16)),
        AttributeValue::Num("-0".to_string()),
    );
    assert_eq!(Ok(FieldValue::Num(0)), negative_zero);

    let empty = decode_value(
        &plain(BaseAttributeType::Num(NumberType::I64)),
        AttributeValue::Num("".to_string()),
    );
    assert_eq!(Err(ConversionError::InvalidValue), empty);

    let sign_only = decode_value(
        &plain(BaseAttributeType::Num(NumberType::I64)),
        AttributeValue::Num("-".to_string()),
    );
    assert_eq!(Err(ConversionError::InvalidValue), sign_only);
}

#[test]
fn encode_renders_canonical_decimal_text() {
    let encoded = encode_value(
        &plain(BaseAttributeType::Num(NumberType::I64)),
        &FieldValue::Num(-90),
    );
    assert_eq!(AttributeValue::Num("-90".to_string()), encoded);

    let zero = encode_value(
        &plain(BaseAttributeType::Num(NumberType::I64)),
        &FieldValue::Num(0),
    );
    assert_eq!(AttributeValue::Num("0".to_string()), zero);
}

#[test]
fn partial_number_set_is_rejected() {
    let decoded = decode_value(
        &plain(BaseAttributeType::NumSet(NumberType::I32)),
        AttributeValue::NumSet(vec!["12".to_string(), "abc".to_string()]),
    );
    assert_eq!(Err(ConversionError::InvalidValue), decoded);
}

#[test]
fn sets_collapse_duplicates_on_decode() {
    let strings = decode_value(
        &plain(BaseAttributeType::StrSet),
        AttributeValue::StrSet(vec!["a".to_string(), "a".to_string(), "b".to_string()]),
    );
    assert_eq!(
        Ok(FieldValue::StrSet(vec!["a".to_string(), "b".to_string()])),
        strings
    );

    let numbers = decode_value(
        &plain(BaseAttributeType::NumSet(NumberType::I64)),
        AttributeValue::NumSet(vec!["01".to_string(), "1".to_string()]),
    );
    assert_eq!(Ok(FieldValue::NumSet(vec![1])), numbers);

    let list = decode_value(
        &plain(BaseAttributeType::NumList(NumberType::I64)),
        AttributeValue::NumSet(vec!["01".to_string(), "1".to_string()]),
    );
    assert_eq!(Ok(FieldValue::NumList(vec![1, 1])), list);
}

#[test]
fn missing_required_field_fails() {
    let schema = ItemSchema {
        fields: vec![
            keyed_field("present", KeyRole::NonKey, BaseAttributeType::Bool),
            keyed_field("absent", KeyRole::NonKey, BaseAttributeType::Str),
        ],
    };
    let mut m = AttributeMap::new();
    m.insert("present".to_string(), AttributeValue::Bool(true));
    let decoded = decode_record(&schema, m);
    assert_eq!(Err(ConversionError::MissingField), decoded);
}

#[test]
fn unknown_fields_are_ignored() {
    let schema = ItemSchema {
        fields: vec![keyed_field("wanted", KeyRole::NonKey, BaseAttributeType::Bool)],
    };
    let mut m = AttributeMap::new();
    m.insert("wanted".to_string(), AttributeValue::Bool(true));
    m.insert(
        "extra".to_string(),
        AttributeValue::Str("ignored".to_string()),
    );
    let decoded = decode_record(&schema, m).unwrap();
    assert_eq!(
        TypedRecord {
            values: vec![FieldValue::Bool(true)]
        },
        decoded
    );
}

#[test]
fn nested_list_failure_propagates() {
    let inner = ItemSchema {
        fields: vec![keyed_field("key", KeyRole::NonKey, BaseAttributeType::Str)],
    };
    let mut good = AttributeMap::new();
    good.insert("key".to_string(), AttributeValue::Str("ok".to_string()));
    let bad = AttributeMap::new();
    let decoded = decode_value(
        &plain(BaseAttributeType::RecList(inner)),
        AttributeValue::List(vec![AttributeValue::Rec(good), AttributeValue::Rec(bad)]),
    );
    assert_eq!(Err(ConversionError::MissingField), decoded);
}

#[test]
fn key_projection_yields_exactly_the_key_fields() {
    let schema = ItemSchema {
        fields: vec![
            keyed_field("id", KeyRole::Hash, BaseAttributeType::Num(NumberType::I64)),
            keyed_field("sort", KeyRole::Range, BaseAttributeType::Str),
            keyed_field("payload", KeyRole::NonKey, BaseAttributeType::Bool),
        ],
    };
    let rec = TypedRecord {
        values: vec![
            FieldValue::Num(7),
            FieldValue::Str("a".to_string()),
            FieldValue::Bool(false),
        ],
    };
    let key = get_key(&schema, &rec);
    assert_eq!(2, key.len());
    assert_eq!(
        &AttributeValue::Num("7".to_string()),
        key.get(&"id".to_string()).unwrap()
    );
    assert_eq!(
        &AttributeValue::Str("a".to_string()),
        key.get(&"sort".to_string()).unwrap()
    );
}

#[test]
fn key_schema_strips_roles_and_round_trips() {
    let schema = ItemSchema {
        fields: vec![
            keyed_field("id", KeyRole::Hash, BaseAttributeType::Num(NumberType::I64)),
            keyed_field("sort", KeyRole::Range, BaseAttributeType::Str),
            keyed_field("payload", KeyRole::NonKey, BaseAttributeType::Bool),
        ],
    };
    let ks = key_schema(&schema);
    assert_eq!(2, ks.fields.len());
    assert_eq!("id", ks.fields[0].name);
    assert_eq!(KeyRole::NonKey, ks.fields[0].role);
    assert_eq!("sort", ks.fields[1].name);
    assert_eq!(KeyRole::NonKey, ks.fields[1].role);

    let rec = TypedRecord {
        values: vec![
            FieldValue::Num(7),
            FieldValue::Str("a".to_string()),
            FieldValue::Bool(false),
        ],
    };
    let key_map = get_key(&schema, &rec);
    let key_rec = decode_record(&ks, key_map).unwrap();
    assert_eq!(
        TypedRecord {
            values: vec![FieldValue::Num(7), FieldValue::Str("a".to_string())]
        },
        key_rec
    );
}

#[test]
fn record_round_trip_with_optional_fields() {
    let schema = ItemSchema {
        fields: vec![
            FieldDescriptor {
                name: "required".to_string(),
                role: KeyRole::NonKey,
                ty: plain(BaseAttributeType::Str),
            },
            FieldDescriptor {
                name: "maybe".to_string(),
                role: KeyRole::NonKey,
                ty: optional(BaseAttributeType::Num(NumberType::I32)),
            },
        ],
    };
    let rec = TypedRecord {
        values: vec![FieldValue::Str("x".to_string()), FieldValue::Nothing],
    };
    let schema_copy = clone_schema(&schema);
    let encoded = encode_record(&schema, rec);
    let decoded = decode_record(&schema_copy, encoded).unwrap();
    assert_eq!(
        TypedRecord {
            values: vec![FieldValue::Str("x".to_string()), FieldValue::Nothing]
        },
        decoded
    );
}

#[test]
fn schema_validation_detects_configuration_errors() {
    let two_hashes = ItemSchema {
        fields: vec![
            keyed_field("a", KeyRole::Hash, BaseAttributeType::Str),
            keyed_field("b", KeyRole::Hash, BaseAttributeType::Str),
        ],
    };
    assert!(!schema_is_valid(&two_hashes));

    let two_ranges = ItemSchema {
        fields: vec![
            keyed_field("a", KeyRole::Range, BaseAttributeType::Str),
            keyed_field("b", KeyRole::Range, BaseAttributeType::Str),
        ],
    };
    assert!(!schema_is_valid(&two_ranges));

    let duplicate_names = ItemSchema {
        fields: vec![
            keyed_field("a", KeyRole::NonKey, BaseAttributeType::Str),
            keyed_field("a", KeyRole::NonKey, BaseAttributeType::Bool),
        ],
    };
    assert!(!schema_is_valid(&duplicate_names));

    let good = ItemSchema {
        fields: vec![
            keyed_field("a", KeyRole::Hash, BaseAttributeType::Str),
            keyed_field("b", KeyRole::Range, BaseAttributeType::Str),
        ],
    };
    assert!(schema_is_valid(&good));
}

#[test]
fn error_messages_name_the_kind() {
    assert_eq!("missing field", ConversionError::MissingField.message());
    assert_eq!("missing value", ConversionError::MissingValue.message());
    assert_eq!("invalid value", ConversionError::InvalidValue.message());
}

#[test]
fn empty_collections_are_distinct_from_absent() {
    let empty_set = decode_value(
        &plain(BaseAttributeType::StrSet),
        AttributeValue::StrSet(vec![]),
    );
    assert_eq!(Ok(FieldValue::StrSet(vec![])), empty_set);

    let absent = decode_value(&plain(BaseAttributeType::StrSet), AttributeValue::Absent);
    assert_eq!(Err(ConversionError::MissingValue), absent);
}
