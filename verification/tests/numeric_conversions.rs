//! Conversions between the numeric scalar widths and attribute values.

use korat::attributes::AttributeValue;
use korat::AttributeValueConverter;
use korat::ConversionError;

#[test]
fn u16_fails_on_missing_value() {
    let result: Result<u16, _> = AttributeValueConverter::from_attribute_value(AttributeValue::Absent);
    assert_eq!(Err(ConversionError::MissingValue), result);
}

#[test]
fn u16_can_convert_from_valid() {
    let av = AttributeValue::Num(format!("{}", 123));
    let converted: u16 = AttributeValueConverter::from_attribute_value(av).unwrap();
    assert_eq!(123, converted);
}

#[test]
fn u16_can_convert_into_attribute_value() {
    let converted = AttributeValueConverter::to_attribute_value(123u16);
    assert_eq!(AttributeValue::Num("123".to_string()), converted);
}

#[test]
fn u16_fails_on_incompatible_number_type() {
    let av = AttributeValue::Num(String::from("non-numeric"));
    let res: Result<u16, _> = AttributeValueConverter::from_attribute_value(av);
    assert_eq!(Err(ConversionError::InvalidValue), res);
}

#[test]
fn u32_can_convert_from_valid() {
    let av = AttributeValue::Num(format!("{}", 1234));
    let converted: u32 = AttributeValueConverter::from_attribute_value(av).unwrap();
    assert_eq!(1234, converted);
}

#[test]
fn u32_can_convert_into_attribute_value() {
    let converted = AttributeValueConverter::to_attribute_value(1234u32);
    assert_eq!(AttributeValue::Num("1234".to_string()), converted);
}

#[test]
fn i32_can_convert_from_valid() {
    let av = AttributeValue::Num(format!("{}", -1234));
    let converted: i32 = AttributeValueConverter::from_attribute_value(av).unwrap();
    assert_eq!(-1234, converted);
}

#[test]
fn i32_can_convert_into_attribute_value() {
    let converted = AttributeValueConverter::to_attribute_value(-1234i32);
    assert_eq!(AttributeValue::Num("-1234".to_string()), converted);
}

#[test]
fn i64_can_convert_from_valid() {
    let av = AttributeValue::Num(format!("{}", 1234));
    let converted: i64 = AttributeValueConverter::from_attribute_value(av).unwrap();
    assert_eq!(1234, converted);
}

#[test]
fn i64_can_convert_extreme_values() {
    let min = AttributeValueConverter::to_attribute_value(i64::MIN);
    assert_eq!(
        AttributeValue::Num("-9223372036854775808".to_string()),
        min
    );
    let back: i64 = AttributeValueConverter::from_attribute_value(min).unwrap();
    assert_eq!(i64::MIN, back);

    let max = AttributeValueConverter::to_attribute_value(i64::MAX);
    assert_eq!(AttributeValue::Num("9223372036854775807".to_string()), max);
    let back: i64 = AttributeValueConverter::from_attribute_value(max).unwrap();
    assert_eq!(i64::MAX, back);
}

#[test]
fn optional_number_collapses_absence_but_rejects_junk() {
    let none: Option<i32> =
        AttributeValueConverter::from_attribute_value(AttributeValue::Absent).unwrap();
    assert_eq!(None, none);

    let wrong_variant: Option<i32> =
        AttributeValueConverter::from_attribute_value(AttributeValue::Bool(true)).unwrap();
    assert_eq!(None, wrong_variant);

    let junk: Result<Option<i32>, _> = AttributeValueConverter::from_attribute_value(
        AttributeValue::Num("junk".to_string()),
    );
    assert_eq!(Err(ConversionError::InvalidValue), junk);
}
