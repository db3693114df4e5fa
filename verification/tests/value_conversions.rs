//! Conversions between single native values and attribute values.

use korat::attributes::AttributeMap;
use korat::attributes::AttributeValue;
use korat::codec::decode_value;
use korat::codec::encode_value;
use korat::schema::AttributeType;
use korat::schema::BaseAttributeType;
use korat::schema::FieldDescriptor;
use korat::schema::ItemSchema;
use korat::schema::KeyRole;
use korat::schema::NumberType;
use korat::typed::FieldValue;
use korat::typed::TypedRecord;
use korat::AttributeValueConverter;

fn plain(base: BaseAttributeType) -> AttributeType {
    AttributeType {
        optional: false,
        base,
    }
}

fn single_field_schema() -> ItemSchema {
    ItemSchema {
        fields: vec![FieldDescriptor {
            name: "key".to_string(),
            role: KeyRole::NonKey,
            ty: plain(BaseAttributeType::Num(NumberType::I32)),
        }],
    }
}

fn single_field_map(number_text: &str) -> AttributeMap {
    let mut m = AttributeMap::new();
    m.insert(
        "key".to_string(),
        AttributeValue::Num(number_text.to_string()),
    );
    m
}

#[test]
fn can_convert_from_string() {
    let av = AttributeValue::Str(String::from("value"));

    let converted: String = AttributeValueConverter::from_attribute_value(av).unwrap();
    assert_eq!("value", &converted);
}

#[test]
fn can_convert_string_into_attribute_value() {
    let value = String::from("value");
    let converted = AttributeValueConverter::to_attribute_value(value.clone());
    match converted {
        AttributeValue::Str(s) => assert_eq!(value, s),
        _ => panic!("expected a string attribute"),
    }
}

#[test]
fn can_convert_from_attribute_value_string_set() {
    let input = vec!["one".to_string(), "two".to_string()];
    let expected = FieldValue::StrSet(input.clone());
    let av = AttributeValue::StrSet(input);

    let converted = decode_value(&plain(BaseAttributeType::StrSet), av).unwrap();
    assert_eq!(expected, converted);
}

#[test]
fn can_convert_string_set_into_attribute_value() {
    let value = FieldValue::StrSet(vec![String::from("value")]);
    let converted = encode_value(&plain(BaseAttributeType::StrSet), &value);
    match converted {
        AttributeValue::StrSet(retrieved) => {
            assert!(retrieved.contains(&String::from("value")));
        }
        _ => panic!("expected a string-set attribute"),
    }
}

#[test]
fn can_convert_from_binary() {
    let input = vec![1, 2, 3, 4];
    let expected = vec![1, 2, 3, 4];
    let av = AttributeValue::Bin(input);

    let converted: Vec<u8> = AttributeValueConverter::from_attribute_value(av).unwrap();
    assert_eq!(expected, converted);
}

#[test]
fn can_convert_binary_into_attribute_value() {
    let value: Vec<u8> = vec![1, 2, 3, 4];
    let converted = AttributeValueConverter::to_attribute_value(value.clone());
    match converted {
        AttributeValue::Bin(b) => assert_eq!(value, b),
        _ => panic!("expected a binary attribute"),
    }
}

#[test]
fn can_convert_from_binary_set() {
    let input = vec![
        "one".to_string().into_bytes(),
        "two".to_string().into_bytes(),
    ];
    let expected = FieldValue::BinSet(input.clone());
    let av = AttributeValue::BinSet(input);

    let converted = decode_value(&plain(BaseAttributeType::BinSet), av).unwrap();
    assert_eq!(expected, converted);
}

#[test]
fn can_convert_binary_set_into_attribute_value() {
    let element = "vec".to_string().into_bytes();
    let value = FieldValue::BinSet(vec![element.clone()]);
    let converted = encode_value(&plain(BaseAttributeType::BinSet), &value);
    match converted {
        AttributeValue::BinSet(retrieved) => {
            assert!(retrieved.contains(&element));
        }
        _ => panic!("expected a binary-set attribute"),
    }
}

#[test]
fn can_convert_from_bool() {
    let av = AttributeValue::Bool(true);

    let converted: bool = AttributeValueConverter::from_attribute_value(av).unwrap();
    assert_eq!(true, converted);
}

#[test]
fn can_convert_bool_into_attribute_value() {
    let value = true;
    let converted = AttributeValueConverter::to_attribute_value(value);
    match converted {
        AttributeValue::Bool(b) => assert_eq!(value, b),
        _ => panic!("expected a boolean attribute"),
    }
}

#[test]
fn can_convert_from_dynamodb_item() {
    let av = AttributeValue::Rec(single_field_map("123"));

    let converted = decode_value(
        &plain(BaseAttributeType::Rec(single_field_schema())),
        av,
    )
    .unwrap();
    let expected = FieldValue::Rec(TypedRecord {
        values: vec![FieldValue::Num(123)],
    });
    assert_eq!(expected, converted);
}

#[test]
fn can_convert_dynamodb_item_into_attribute_value() {
    let value = FieldValue::Rec(TypedRecord {
        values: vec![FieldValue::Num(123)],
    });

    let converted = encode_value(&plain(BaseAttributeType::Rec(single_field_schema())), &value);

    match converted {
        AttributeValue::Rec(retrieved) => {
            let key = retrieved.get(&"key".to_string()).unwrap();
            assert_eq!(&AttributeValue::Num("123".to_string()), key);
        }
        _ => panic!("expected a nested-record attribute"),
    }
}

#[test]
fn can_convert_from_dynamodb_item_list() {
    let values = vec![
        AttributeValue::Rec(single_field_map("123")),
        AttributeValue::Rec(single_field_map("123")),
    ];
    let av = AttributeValue::List(values);

    let converted = decode_value(
        &plain(BaseAttributeType::RecList(single_field_schema())),
        av,
    )
    .unwrap();
    let expected = FieldValue::RecList(vec![
        TypedRecord {
            values: vec![FieldValue::Num(123)],
        },
        TypedRecord {
            values: vec![FieldValue::Num(123)],
        },
    ]);
    assert_eq!(expected, converted);
}

#[test]
fn can_convert_dynamodb_item_list_into_attribute_value() {
    let value = FieldValue::RecList(vec![
        TypedRecord {
            values: vec![FieldValue::Num(123)],
        },
        TypedRecord {
            values: vec![FieldValue::Num(124)],
        },
    ]);

    let converted = encode_value(
        &plain(BaseAttributeType::RecList(single_field_schema())),
        &value,
    );

    match converted {
        AttributeValue::List(retrieved) => {
            let expected_texts = ["123", "124"];
            assert_eq!(expected_texts.len(), retrieved.len());
            for (index, item) in retrieved.iter().enumerate() {
                match item {
                    AttributeValue::Rec(map) => {
                        let key = map.get(&"key".to_string()).unwrap();
                        assert_eq!(
                            &AttributeValue::Num(expected_texts[index].to_string()),
                            key
                        );
                    }
                    _ => panic!("expected a nested-record element"),
                }
            }
        }
        _ => panic!("expected a list attribute"),
    }
}

#[test]
fn can_convert_from_option_none() {
    let av = AttributeValue::Absent;

    let converted: Option<bool> = AttributeValueConverter::from_attribute_value(av).unwrap();
    assert!(converted.is_none());
}

#[test]
fn can_convert_from_option_with_value() {
    let av = AttributeValue::Bool(true);

    let converted: Option<bool> = AttributeValueConverter::from_attribute_value(av).unwrap();
    assert_eq!(Some(true), converted);
}

#[test]
fn can_convert_option_none_into_attribute_value() {
    let value: Option<bool> = None;
    let converted = AttributeValueConverter::to_attribute_value(value);
    assert_eq!(AttributeValue::Absent, converted);
}

#[test]
fn can_convert_option_with_value_into_attribute_value() {
    let value: Option<bool> = Some(true);
    let converted = AttributeValueConverter::to_attribute_value(value);
    assert_eq!(AttributeValue::Bool(true), converted);
}
