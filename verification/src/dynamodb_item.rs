//! The typed conversion surface: traits for values and records that ride on
//! the codec, and the record types this crate ships with.
//!
//! [`AttributeValueConverter`] is implemented per native type; its contracts
//! are stated over the codec's spec functions, so every implementation
//! inherits the codec's laws.  [`DynamoDBItem`] is the record-level
//! counterpart, written by hand per record type against a declared schema —
//! the explicit form of what a schema declaration mechanism would generate.
//! [`DynamoDBInsertable`] adds key projection for types whose schema
//! designates a hash key.

use vstd::prelude::*;

use crate::attributes::AttributeMap;
use crate::attributes::AttributeValue;
use crate::attributes::value_wf;
use crate::codec::spec_decode_record;
use crate::codec::spec_decode_value;
use crate::codec::spec_encode_record;
use crate::codec::spec_encode_value;
use crate::errors::ConversionError;
use crate::schema::BaseTypeModel;
use crate::schema::FieldModel;
use crate::schema::TypeModel;
use crate::schema::schema_wf;
use crate::schema::type_wf;
use crate::typed::FieldValueModel;
use crate::typed::record_conforms;
use crate::typed::value_conforms;

verus! {

/// A native type with a place in the value codec: it names its attribute
/// type, gives its values a model, and converts to and from attribute
/// values exactly as the codec's spec functions say.
pub trait AttributeValueConverter: Sized {
    /// The attribute type this native type occupies.
    spec fn attr_type() -> TypeModel;

    /// The model of a value of this type.
    spec fn native_model(&self) -> FieldValueModel;

    /// Decode an attribute value into this type.
    fn from_attribute_value(v: AttributeValue) -> (r: Result<Self, ConversionError>)
        requires
            value_wf(v),
        ensures
            match r {
                Ok(x) => spec_decode_value(Self::attr_type(), v@) == Ok::<_, ConversionError>(
                    x.native_model(),
                ),
                Err(e) => spec_decode_value(Self::attr_type(), v@) == Err::<FieldValueModel, _>(
                    e,
                ),
            },
    ;

    /// Encode a value of this type as an attribute value.
    fn to_attribute_value(self) -> (r: AttributeValue)
        requires
            value_conforms(Self::attr_type(), self.native_model()),
        ensures
            r@ == spec_encode_value(Self::attr_type(), self.native_model()),
            value_wf(r),
    ;

    /// Only an optional type models a value as the absent native value.
    proof fn lemma_nothing_model(&self)
        ensures
            self.native_model() is Nothing ==> Self::attr_type().optional,
    ;

    /// The named attribute type is well-formed.
    proof fn lemma_type_wf()
        ensures
            type_wf(Self::attr_type()),
    ;
}

impl AttributeValueConverter for String {
    open spec fn attr_type() -> TypeModel {
        TypeModel { optional: false, base: BaseTypeModel::Str }
    }

    open spec fn native_model(&self) -> FieldValueModel {
        FieldValueModel::Str(self@)
    }

    fn from_attribute_value(v: AttributeValue) -> (r: Result<Self, ConversionError>) {
        match v {
            AttributeValue::Str(s) => Ok(s),
            _ => Err(ConversionError::MissingValue),
        }
    }

    fn to_attribute_value(self) -> (r: AttributeValue) {
        AttributeValue::Str(self)
    }

    proof fn lemma_nothing_model(&self) {
    }

    proof fn lemma_type_wf() {
    }
}

impl AttributeValueConverter for bool {
    open spec fn attr_type() -> TypeModel {
        TypeModel { optional: false, base: BaseTypeModel::Bool }
    }

    open spec fn native_model(&self) -> FieldValueModel {
        FieldValueModel::Bool(*self)
    }

    fn from_attribute_value(v: AttributeValue) -> (r: Result<Self, ConversionError>) {
        match v {
            AttributeValue::Bool(x) => Ok(x),
            _ => Err(ConversionError::MissingValue),
        }
    }

    fn to_attribute_value(self) -> (r: AttributeValue) {
        AttributeValue::Bool(self)
    }

    proof fn lemma_nothing_model(&self) {
    }

    proof fn lemma_type_wf() {
    }
}

impl AttributeValueConverter for Vec<u8> {
    open spec fn attr_type() -> TypeModel {
        TypeModel { optional: false, base: BaseTypeModel::Bin }
    }

    open spec fn native_model(&self) -> FieldValueModel {
        FieldValueModel::Bin(self@)
    }

    fn from_attribute_value(v: AttributeValue) -> (r: Result<Self, ConversionError>) {
        match v {
            AttributeValue::Bin(b) => Ok(b),
            _ => Err(ConversionError::MissingValue),
        }
    }

    fn to_attribute_value(self) -> (r: AttributeValue) {
        AttributeValue::Bin(self)
    }

    proof fn lemma_nothing_model(&self) {
    }

    proof fn lemma_type_wf() {
    }
}

impl AttributeValueConverter for u16 {
    open spec fn attr_type() -> TypeModel {
        TypeModel { optional: false, base: BaseTypeModel::Num(crate::schema::NumberType::U16) }
    }

    open spec fn native_model(&self) -> FieldValueModel {
        FieldValueModel::Num(*self as i64)
    }

    fn from_attribute_value(v: AttributeValue) -> (r: Result<Self, ConversionError>) {
        match v {
            AttributeValue::Num(s) => match crate::codec::parse_num(
                crate::schema::NumberType::U16,
                &s,
            ) {
                Ok(n) => Ok(n as u16),
                Err(e) => Err(e),
            },
            _ => Err(ConversionError::MissingValue),
        }
    }

    fn to_attribute_value(self) -> (r: AttributeValue) {
        AttributeValue::Num(crate::numbers::render_i64(self as i64))
    }

    proof fn lemma_nothing_model(&self) {
    }

    proof fn lemma_type_wf() {
    }
}

impl AttributeValueConverter for u32 {
    open spec fn attr_type() -> TypeModel {
        TypeModel { optional: false, base: BaseTypeModel::Num(crate::schema::NumberType::U32) }
    }

    open spec fn native_model(&self) -> FieldValueModel {
        FieldValueModel::Num(*self as i64)
    }

    fn from_attribute_value(v: AttributeValue) -> (r: Result<Self, ConversionError>) {
        match v {
            AttributeValue::Num(s) => match crate::codec::parse_num(
                crate::schema::NumberType::U32,
                &s,
            ) {
                Ok(n) => Ok(n as u32),
                Err(e) => Err(e),
            },
            _ => Err(ConversionError::MissingValue),
        }
    }

    fn to_attribute_value(self) -> (r: AttributeValue) {
        AttributeValue::Num(crate::numbers::render_i64(self as i64))
    }

    proof fn lemma_nothing_model(&self) {
    }

    proof fn lemma_type_wf() {
    }
}

impl AttributeValueConverter for i32 {
    open spec fn attr_type() -> TypeModel {
        TypeModel { optional: false, base: BaseTypeModel::Num(crate::schema::NumberType::I32) }
    }

    open spec fn native_model(&self) -> FieldValueModel {
        FieldValueModel::Num(*self as i64)
    }

    fn from_attribute_value(v: AttributeValue) -> (r: Result<Self, ConversionError>) {
        match v {
            AttributeValue::Num(s) => match crate::codec::parse_num(
                crate::schema::NumberType::I32,
                &s,
            ) {
                Ok(n) => Ok(n as i32),
                Err(e) => Err(e),
            },
            _ => Err(ConversionError::MissingValue),
        }
    }

    fn to_attribute_value(self) -> (r: AttributeValue) {
        AttributeValue::Num(crate::numbers::render_i64(self as i64))
    }

    proof fn lemma_nothing_model(&self) {
    }

    proof fn lemma_type_wf() {
    }
}

impl AttributeValueConverter for i64 {
    open spec fn attr_type() -> TypeModel {
        TypeModel { optional: false, base: BaseTypeModel::Num(crate::schema::NumberType::I64) }
    }

    open spec fn native_model(&self) -> FieldValueModel {
        FieldValueModel::Num(*self)
    }

    fn from_attribute_value(v: AttributeValue) -> (r: Result<Self, ConversionError>) {
        match v {
            AttributeValue::Num(s) => match crate::codec::parse_num(
                crate::schema::NumberType::I64,
                &s,
            ) {
                Ok(n) => Ok(n),
                Err(e) => Err(e),
            },
            _ => Err(ConversionError::MissingValue),
        }
    }

    fn to_attribute_value(self) -> (r: AttributeValue) {
        AttributeValue::Num(crate::numbers::render_i64(self))
    }

    proof fn lemma_nothing_model(&self) {
    }

    proof fn lemma_type_wf() {
    }
}

impl<T: AttributeValueConverter> AttributeValueConverter for Option<T> {
    /// The element's base type, made optional.  Of a doubly optional type —
    /// an option of an option — the contracts below say nothing.
    open spec fn attr_type() -> TypeModel {
        TypeModel { optional: true, base: T::attr_type().base }
    }

    open spec fn native_model(&self) -> FieldValueModel {
        match self {
            Some(x) => x.native_model(),
            None => FieldValueModel::Nothing,
        }
    }

    fn from_attribute_value(v: AttributeValue) -> (r: Result<Self, ConversionError>) {
        match T::from_attribute_value(v) {
            Ok(x) => Ok(Some(x)),
            Err(e) => match e {
                ConversionError::MissingValue => Ok(None),
                ConversionError::MissingField => Ok(None),
                ConversionError::InvalidValue => Err(ConversionError::InvalidValue),
            },
        }
    }

    fn to_attribute_value(self) -> (r: AttributeValue) {
        match self {
            Some(x) => {
                proof {
                    x.lemma_nothing_model();
                }
                x.to_attribute_value()
            },
            None => AttributeValue::Absent,
        }
    }

    proof fn lemma_nothing_model(&self) {
    }

    proof fn lemma_type_wf() {
        T::lemma_type_wf();
    }
}


/// A record type with a declared schema, convertible to and from an
/// attribute map exactly as the record codec's spec functions say.  An
/// implementation is what a declarative schema mechanism would generate for
/// one struct: a schema, a model, and the two conversions.
pub trait DynamoDBItem: Sized {
    /// The declared field descriptors, in declaration order.
    spec fn schema_model() -> Seq<FieldModel>;

    /// The model of a value of this type, one entry per field.
    spec fn item_model(&self) -> Seq<FieldValueModel>;

    /// The declared schema is well-formed.
    proof fn lemma_schema_wf()
        ensures
            schema_wf(Self::schema_model()),
    ;

    /// Every value of this type conforms to the declared schema.
    proof fn lemma_conforms(&self)
        ensures
            record_conforms(Self::schema_model(), self.item_model()),
    ;

    /// The declared schema, as a runtime value.
    fn schema() -> (s: crate::schema::ItemSchema)
        ensures
            s@ == Self::schema_model(),
    ;

    /// The declared field names, in declaration order.
    fn get_attribute_names() -> (r: Vec<String>)
        ensures
            r.deep_view() == Self::schema_model().map_values(|f: FieldModel| f.name),
    ;

    /// Decode a record into this type, draining the map.
    fn try_from_attribute_map(m: AttributeMap) -> (r: Result<Self, ConversionError>)
        requires
            m.wf(),
        ensures
            match r {
                Ok(item) => spec_decode_record(Self::schema_model(), m@) == Ok::<
                    _,
                    ConversionError,
                >(item.item_model()),
                Err(e) => spec_decode_record(Self::schema_model(), m@) == Err::<
                    Seq<FieldValueModel>,
                    _,
                >(e),
            },
    ;

    /// Encode a value of this type as a fresh attribute map.
    fn into_attribute_map(self) -> (r: AttributeMap)
        ensures
            r@ == spec_encode_record(Self::schema_model(), self.item_model()),
            r.wf(),
    ;
}

/// A record type whose schema designates a hash key, and which can
/// therefore be addressed: its key is the projection of its key fields.
pub trait DynamoDBInsertable: DynamoDBItem {
    /// The schema designates a hash key.
    proof fn lemma_has_hash_key()
        ensures
            crate::keys::has_hash_key(Self::schema_model()),
    ;

    /// The reduced record that addresses this value: exactly the hash-key
    /// entry and, if the schema has one, the range-key entry.
    fn get_key(&self) -> (r: AttributeMap)
        ensures
            r@ == crate::keys::spec_key_map(Self::schema_model(), self.item_model()),
            r.wf(),
    ;
}

/// A record with a string hash key, a string range key, and one more
/// string field.
#[derive(Debug, PartialEq, Clone)]
pub struct ItemWithHashAndRange {
    /// The hash-key field.
    pub hash: String,
    /// The range-key field.
    pub range: String,
    /// A non-key field.
    pub other: String,
}

/// The key record of [`ItemWithHashAndRange`]: its two key fields, with the
/// role tags stripped.
#[derive(Debug, PartialEq, Clone)]
pub struct ItemWithHashAndRangeKey {
    /// The hash-key field.
    pub hash: String,
    /// The range-key field.
    pub range: String,
}

/// A plain string type, as a runtime value.
fn string_type() -> (t: crate::schema::AttributeType)
    ensures
        t@ == (TypeModel { optional: false, base: BaseTypeModel::Str }),
{
    crate::schema::AttributeType { optional: false, base: crate::schema::BaseAttributeType::Str }
}

impl DynamoDBItem for ItemWithHashAndRange {
    open spec fn schema_model() -> Seq<FieldModel> {
        seq![
            FieldModel {
                name: "hash"@,
                role: crate::schema::KeyRole::Hash,
                ty: TypeModel { optional: false, base: BaseTypeModel::Str },
            },
            FieldModel {
                name: "range"@,
                role: crate::schema::KeyRole::Range,
                ty: TypeModel { optional: false, base: BaseTypeModel::Str },
            },
            FieldModel {
                name: "other"@,
                role: crate::schema::KeyRole::NonKey,
                ty: TypeModel { optional: false, base: BaseTypeModel::Str },
            },
        ]
    }

    open spec fn item_model(&self) -> Seq<FieldValueModel> {
        seq![
            FieldValueModel::Str(self.hash@),
            FieldValueModel::Str(self.range@),
            FieldValueModel::Str(self.other@),
        ]
    }

    proof fn lemma_schema_wf() {
        reveal_strlit("hash");
        reveal_strlit("range");
        reveal_strlit("other");
        let fs = Self::schema_model();
        assert(fs[0].name == "hash"@ && fs[1].name == "range"@ && fs[2].name == "other"@);
        assert("hash"@.len() == 4 && "range"@.len() == 5 && "other"@.len() == 5);
        assert("range"@[0] == 'r' && "other"@[0] == 'o');
        assert(type_wf(fs[0].ty) && type_wf(fs[1].ty) && type_wf(fs[2].ty));
    }

    proof fn lemma_conforms(&self) {
    }

    fn schema() -> (s: crate::schema::ItemSchema) {
        let fields: Vec<crate::schema::FieldDescriptor> = vec![
            crate::schema::FieldDescriptor {
                name: "hash".to_owned(),
                role: crate::schema::KeyRole::Hash,
                ty: string_type(),
            },
            crate::schema::FieldDescriptor {
                name: "range".to_owned(),
                role: crate::schema::KeyRole::Range,
                ty: string_type(),
            },
            crate::schema::FieldDescriptor {
                name: "other".to_owned(),
                role: crate::schema::KeyRole::NonKey,
                ty: string_type(),
            },
        ];
        let s = crate::schema::ItemSchema { fields };
        proof {
            crate::schema::lemma_seq_field_model_index(s.fields@);
            assert(s@ =~= Self::schema_model());
        }
        s
    }

    fn get_attribute_names() -> (r: Vec<String>) {
        let s = Self::schema();
        crate::schema::attribute_names(&s)
    }

    fn try_from_attribute_map(m: AttributeMap) -> (r: Result<Self, ConversionError>) {
        let s = Self::schema();
        proof {
            Self::lemma_schema_wf();
        }
        match crate::codec::decode_record(&s, m) {
            Ok(rec) => {
                let ghost dm = spec_decode_record(Self::schema_model(), m@)->Ok_0;
                let ghost vs0 = rec.values@;
                proof {
                    crate::laws::lemma_decode_record_conforms(Self::schema_model(), m@);
                    crate::typed::lemma_record_model_index(rec.values@);
                    let fs = Self::schema_model();
                    assert(value_conforms(fs[0].ty, dm[0]));
                    assert(value_conforms(fs[1].ty, dm[1]));
                    assert(value_conforms(fs[2].ty, dm[2]));
                    assert(dm[0] is Str && dm[1] is Str && dm[2] is Str);
                    assert(dm[0] == crate::typed::field_value_model(vs0[0]));
                    assert(dm[1] == crate::typed::field_value_model(vs0[1]));
                    assert(dm[2] == crate::typed::field_value_model(vs0[2]));
                }
                let mut values = rec.values;
                let other = match values.pop() {
                    Some(crate::typed::FieldValue::Str(x)) => x,
                    _ => vstd::pervasive::unreached(),
                };
                let range = match values.pop() {
                    Some(crate::typed::FieldValue::Str(x)) => x,
                    _ => vstd::pervasive::unreached(),
                };
                let hash = match values.pop() {
                    Some(crate::typed::FieldValue::Str(x)) => x,
                    _ => vstd::pervasive::unreached(),
                };
                let item = ItemWithHashAndRange { hash, range, other };
                proof {
                    assert(item.item_model() =~= dm);
                }
                Ok(item)
            },
            Err(e) => Err(e),
        }
    }

    fn into_attribute_map(self) -> (r: AttributeMap) {
        let s = Self::schema();
        proof {
            Self::lemma_schema_wf();
            self.lemma_conforms();
        }
        let rec = crate::typed::TypedRecord {
            values: vec![
                crate::typed::FieldValue::Str(self.hash),
                crate::typed::FieldValue::Str(self.range),
                crate::typed::FieldValue::Str(self.other),
            ],
        };
        proof {
            crate::typed::lemma_record_model_index(rec.values@);
            assert(rec@ =~= seq![
                FieldValueModel::Str(rec.values@[0]->Str_0@),
                FieldValueModel::Str(rec.values@[1]->Str_0@),
                FieldValueModel::Str(rec.values@[2]->Str_0@),
            ]);
        }
        crate::codec::encode_record(&s, rec)
    }
}

impl DynamoDBInsertable for ItemWithHashAndRange {
    proof fn lemma_has_hash_key() {
        assert(Self::schema_model()[0].role is Hash);
    }

    fn get_key(&self) -> (r: AttributeMap) {
        let s = Self::schema();
        proof {
            Self::lemma_schema_wf();
            self.lemma_conforms();
            Self::lemma_has_hash_key();
        }
        let rec = crate::typed::TypedRecord {
            values: vec![
                crate::typed::FieldValue::Str(self.hash.clone()),
                crate::typed::FieldValue::Str(self.range.clone()),
                crate::typed::FieldValue::Str(self.other.clone()),
            ],
        };
        proof {
            crate::typed::lemma_record_model_index(rec.values@);
            assert(rec@ =~= self.item_model());
        }
        crate::keys::get_key(&s, &rec)
    }
}

impl DynamoDBItem for ItemWithHashAndRangeKey {
    open spec fn schema_model() -> Seq<FieldModel> {
        seq![
            FieldModel {
                name: "hash"@,
                role: crate::schema::KeyRole::NonKey,
                ty: TypeModel { optional: false, base: BaseTypeModel::Str },
            },
            FieldModel {
                name: "range"@,
                role: crate::schema::KeyRole::NonKey,
                ty: TypeModel { optional: false, base: BaseTypeModel::Str },
            },
        ]
    }

    open spec fn item_model(&self) -> Seq<FieldValueModel> {
        seq![FieldValueModel::Str(self.hash@), FieldValueModel::Str(self.range@)]
    }

    proof fn lemma_schema_wf() {
        reveal_strlit("hash");
        reveal_strlit("range");
        let fs = Self::schema_model();
        assert(fs[0].name == "hash"@ && fs[1].name == "range"@);
        assert("hash"@.len() == 4 && "range"@.len() == 5);
        assert(type_wf(fs[0].ty) && type_wf(fs[1].ty));
    }

    proof fn lemma_conforms(&self) {
    }

    fn schema() -> (s: crate::schema::ItemSchema) {
        let fields: Vec<crate::schema::FieldDescriptor> = vec![
            crate::schema::FieldDescriptor {
                name: "hash".to_owned(),
                role: crate::schema::KeyRole::NonKey,
                ty: string_type(),
            },
            crate::schema::FieldDescriptor {
                name: "range".to_owned(),
                role: crate::schema::KeyRole::NonKey,
                ty: string_type(),
            },
        ];
        let s = crate::schema::ItemSchema { fields };
        proof {
            crate::schema::lemma_seq_field_model_index(s.fields@);
            assert(s@ =~= Self::schema_model());
        }
        s
    }

    fn get_attribute_names() -> (r: Vec<String>) {
        let s = Self::schema();
        crate::schema::attribute_names(&s)
    }

    fn try_from_attribute_map(m: AttributeMap) -> (r: Result<Self, ConversionError>) {
        let s = Self::schema();
        proof {
            Self::lemma_schema_wf();
        }
        match crate::codec::decode_record(&s, m) {
            Ok(rec) => {
                let ghost dm = spec_decode_record(Self::schema_model(), m@)->Ok_0;
                let ghost vs0 = rec.values@;
                proof {
                    crate::laws::lemma_decode_record_conforms(Self::schema_model(), m@);
                    crate::typed::lemma_record_model_index(rec.values@);
                    let fs = Self::schema_model();
                    assert(value_conforms(fs[0].ty, dm[0]));
                    assert(value_conforms(fs[1].ty, dm[1]));
                    assert(dm[0] is Str && dm[1] is Str);
                    assert(dm[0] == crate::typed::field_value_model(vs0[0]));
                    assert(dm[1] == crate::typed::field_value_model(vs0[1]));
                }
                let mut values = rec.values;
                let range = match values.pop() {
                    Some(crate::typed::FieldValue::Str(x)) => x,
                    _ => vstd::pervasive::unreached(),
                };
                let hash = match values.pop() {
                    Some(crate::typed::FieldValue::Str(x)) => x,
                    _ => vstd::pervasive::unreached(),
                };
                let item = ItemWithHashAndRangeKey { hash, range };
                proof {
                    assert(item.item_model() =~= dm);
                }
                Ok(item)
            },
            Err(e) => Err(e),
        }
    }

    fn into_attribute_map(self) -> (r: AttributeMap) {
        let s = Self::schema();
        proof {
            Self::lemma_schema_wf();
            self.lemma_conforms();
        }
        let rec = crate::typed::TypedRecord {
            values: vec![
                crate::typed::FieldValue::Str(self.hash),
                crate::typed::FieldValue::Str(self.range),
            ],
        };
        proof {
            crate::typed::lemma_record_model_index(rec.values@);
            assert(rec@ =~= seq![
                FieldValueModel::Str(rec.values@[0]->Str_0@),
                FieldValueModel::Str(rec.values@[1]->Str_0@),
            ]);
        }
        crate::codec::encode_record(&s, rec)
    }
}


/// The models of a list of items, element by element.
pub open spec fn items_model<T: DynamoDBItem>(items: Seq<T>) -> Seq<Seq<FieldValueModel>> {
    items.map_values(|x: T| x.item_model())
}

/// Decode a nested-record attribute into an item type: the counterpart of
/// [`AttributeValueConverter::from_attribute_value`] for any
/// [`DynamoDBItem`], requiring the nested-record variant and delegating to
/// the record codec.
pub fn item_from_attribute_value<T: DynamoDBItem>(v: AttributeValue) -> (r: Result<
    T,
    ConversionError,
>)
    requires
        value_wf(v),
    ensures
        match r {
            Ok(item) => crate::codec::spec_decode_base(
                BaseTypeModel::Rec(T::schema_model()),
                v@,
            ) == Ok::<_, ConversionError>(FieldValueModel::Rec(item.item_model())),
            Err(e) => crate::codec::spec_decode_base(BaseTypeModel::Rec(T::schema_model()), v@)
                == Err::<FieldValueModel, _>(e),
        },
{
    match v {
        AttributeValue::Rec(m) => match T::try_from_attribute_map(m) {
            Ok(item) => Ok(item),
            Err(e) => Err(e),
        },
        _ => Err(ConversionError::MissingValue),
    }
}

/// Encode an item as a nested-record attribute: the counterpart of
/// [`AttributeValueConverter::to_attribute_value`] for any [`DynamoDBItem`].
pub fn item_to_attribute_value<T: DynamoDBItem>(item: T) -> (r: AttributeValue)
    ensures
        r@ == crate::attributes::ValueModel::Rec(
            spec_encode_record(T::schema_model(), item.item_model()),
        ),
        value_wf(r),
{
    AttributeValue::Rec(item.into_attribute_map())
}

/// Decode a list attribute into a list of items, in order; the first
/// failing element aborts the whole list.
pub fn item_list_from_attribute_value<T: DynamoDBItem>(v: AttributeValue) -> (r: Result<
    Vec<T>,
    ConversionError,
>)
    requires
        value_wf(v),
    ensures
        match r {
            Ok(items) => crate::codec::spec_decode_base(
                BaseTypeModel::RecList(T::schema_model()),
                v@,
            ) == Ok::<_, ConversionError>(FieldValueModel::RecList(items_model(items@))),
            Err(e) => crate::codec::spec_decode_base(
                BaseTypeModel::RecList(T::schema_model()),
                v@,
            ) == Err::<FieldValueModel, _>(e),
        },
{
    let l = match v {
        AttributeValue::List(l) => l,
        _ => {
            return Err(ConversionError::MissingValue);
        },
    };
    let ghost wl = crate::attributes::seq_value_model(l@);
    proof {
        crate::attributes::lemma_seq_value_model_index(l@);
        crate::attributes::lemma_seq_value_wf_iff(l@);
        assert(wl.subrange(0, 0) =~= Seq::<crate::attributes::ValueModel>::empty());
    }
    let mut rest = l;
    let mut out: Vec<T> = Vec::new();
    proof {
        assert(items_model(out@) =~= Seq::<Seq<FieldValueModel>>::empty());
    }
    while rest.len() > 0
        invariant
            v@ == crate::attributes::ValueModel::List(wl),
            wl == crate::attributes::seq_value_model(l@),
            out@.len() + rest@.len() == wl.len(),
            forall|j: int|
                0 <= j < rest@.len() ==> #[trigger] crate::attributes::value_model(rest@[j])
                    == wl[j + out@.len()] && value_wf(rest@[j]),
            crate::codec::spec_decode_rec_seq(T::schema_model(), wl.subrange(0, out@.len() as int))
                == Ok::<_, ConversionError>(items_model(out@)),
        decreases rest@.len(),
    {
        let ghost idx = out@.len() as int;
        let ghost preout = out@;
        proof {
            assert(wl.subrange(0, idx + 1).drop_last() =~= wl.subrange(0, idx));
            assert(wl.subrange(0, idx + 1).last() == wl[idx]);
            assert(crate::attributes::value_model(rest@[0]) == wl[idx]);
        }
        let elem = rest.remove(0);
        match elem {
            AttributeValue::Rec(m) => {
                match T::try_from_attribute_map(m) {
                    Ok(item) => {
                        out.push(item);
                        proof {
                            assert(items_model(out@) =~= items_model(preout).push(
                                out@.last().item_model(),
                            ));
                        }
                    },
                    Err(e) => {
                        proof {
                            assert(crate::codec::spec_decode_rec_seq(
                                T::schema_model(),
                                wl.subrange(0, idx + 1),
                            ) == Err::<Seq<Seq<FieldValueModel>>, _>(e));
                            crate::codec::lemma_decode_rec_seq_prefix_error(
                                T::schema_model(),
                                wl,
                                idx + 1,
                            );
                        }
                        return Err(e);
                    },
                }
            },
            _ => {
                proof {
                    assert(crate::codec::spec_decode_list_elem(T::schema_model(), wl[idx])
                        == Err::<Seq<FieldValueModel>, _>(ConversionError::MissingValue));
                    assert(crate::codec::spec_decode_rec_seq(
                        T::schema_model(),
                        wl.subrange(0, idx + 1),
                    ) == Err::<Seq<Seq<FieldValueModel>>, _>(ConversionError::MissingValue));
                    crate::codec::lemma_decode_rec_seq_prefix_error(
                        T::schema_model(),
                        wl,
                        idx + 1,
                    );
                }
                return Err(ConversionError::MissingValue);
            },
        }
    }
    proof {
        assert(wl.subrange(0, out@.len() as int) =~= wl);
    }
    Ok(out)
}

/// Encode a list of items as a list attribute, in order.
pub fn item_list_to_attribute_value<T: DynamoDBItem>(items: Vec<T>) -> (r: AttributeValue)
    ensures
        r@ == crate::attributes::ValueModel::List(
            crate::codec::spec_encode_rec_seq(T::schema_model(), items_model(items@)),
        ),
        value_wf(r),
{
    let ghost ism = items_model(items@);
    let mut out: Vec<AttributeValue> = Vec::new();
    let mut rest = items;
    while rest.len() > 0
        invariant
            ism == items_model(items@),
            out@.len() + rest@.len() == ism.len(),
            forall|j: int|
                0 <= j < rest@.len() ==> #[trigger] rest@[j].item_model() == ism[j + out@.len()],
            crate::attributes::seq_value_model(out@) =~= crate::codec::spec_encode_rec_seq(
                T::schema_model(),
                ism.subrange(0, out@.len() as int),
            ),
            crate::attributes::seq_value_wf(out@),
        decreases rest@.len(),
    {
        let ghost idx = out@.len() as int;
        let ghost preout = out@;
        proof {
            assert(ism.subrange(0, idx + 1).drop_last() =~= ism.subrange(0, idx));
            assert(ism.subrange(0, idx + 1).last() == ism[idx]);
            assert(rest@[0].item_model() == ism[idx]);
        }
        let item = rest.remove(0);
        let enc = item_to_attribute_value(item);
        out.push(enc);
        proof {
            assert(out@.drop_last() =~= preout);
            assert(crate::attributes::seq_value_model(out@)
                == crate::attributes::seq_value_model(preout).push(
                crate::attributes::value_model(out@.last()),
            ));
            assert(crate::attributes::seq_value_wf(out@));
        }
    }
    proof {
        assert(ism.subrange(0, ism.len() as int) =~= ism);
    }
    AttributeValue::List(out)
}


/// Round trip at the converter surface: for any converter type and any
/// conforming value of it, decoding the encoding of the value's model
/// yields the model back.
pub proof fn lemma_converter_round_trip<T: AttributeValueConverter>(x: T)
    requires
        value_conforms(T::attr_type(), x.native_model()),
    ensures
        spec_decode_value(T::attr_type(), spec_encode_value(T::attr_type(), x.native_model()))
            == Ok::<_, ConversionError>(x.native_model()),
{
    T::lemma_type_wf();
    crate::laws::lemma_value_round_trip(T::attr_type(), x.native_model());
}

/// Round trip at the item surface: for any item type and any value of it,
/// decoding the encoding of the item's model yields the model back.
pub proof fn lemma_item_round_trip<T: DynamoDBItem>(x: T)
    ensures
        spec_decode_record(
            T::schema_model(),
            spec_encode_record(T::schema_model(), x.item_model()),
        ) == Ok::<_, ConversionError>(x.item_model()),
{
    T::lemma_schema_wf();
    x.lemma_conforms();
    crate::laws::lemma_record_round_trip(T::schema_model(), x.item_model());
}

} // verus!
