//! Typed records: the native side of the codec.
//!
//! A [`TypedRecord`] holds one native value per field of its schema, in
//! declaration order.  [`record_conforms`] says what it means for those
//! values to fit a schema: right variants, numbers within their width, sets
//! free of duplicates, and nested records conforming in turn.

use vstd::prelude::*;

use crate::schema::BaseTypeModel;
use crate::schema::FieldModel;
use crate::schema::NumberType;
use crate::schema::TypeModel;

verus! {

/// One native field value.
#[derive(Debug, PartialEq)]
pub enum FieldValue {
    /// A string.
    Str(String),
    /// A number; widths narrower than 64 bits are constrained by
    /// [`num_in_range`].
    Num(i64),
    /// A binary blob.
    Bin(Vec<u8>),
    /// A boolean.
    Bool(bool),
    /// A set of strings, free of duplicates, in first-seen order.
    StrSet(Vec<String>),
    /// A set of numbers, free of duplicates, in first-seen order.
    NumSet(Vec<i64>),
    /// A set of binary blobs, free of duplicates, in first-seen order.
    BinSet(Vec<Vec<u8>>),
    /// An ordered list of numbers; duplicates allowed.
    NumList(Vec<i64>),
    /// A nested record.
    Rec(TypedRecord),
    /// An ordered list of nested records.
    RecList(Vec<TypedRecord>),
    /// The absent value of an optional field.
    Nothing,
}

/// A decoded record: one native value per schema field, in declaration order.
#[derive(Debug, PartialEq)]
pub struct TypedRecord {
    /// The field values, aligned with the schema's descriptors.
    pub values: Vec<FieldValue>,
}

/// The model of a native field value.
pub enum FieldValueModel {
    Str(Seq<char>),
    Num(i64),
    Bin(Seq<u8>),
    Bool(bool),
    StrSet(Seq<Seq<char>>),
    NumSet(Seq<i64>),
    BinSet(Seq<Seq<u8>>),
    NumList(Seq<i64>),
    Rec(Seq<FieldValueModel>),
    RecList(Seq<Seq<FieldValueModel>>),
    Nothing,
}

/// The model of a native field value.
pub open spec fn field_value_model(v: FieldValue) -> FieldValueModel
    decreases v,
{
    match v {
        FieldValue::Str(s) => FieldValueModel::Str(s@),
        FieldValue::Num(n) => FieldValueModel::Num(n),
        FieldValue::Bin(b) => FieldValueModel::Bin(b@),
        FieldValue::Bool(b) => FieldValueModel::Bool(b),
        FieldValue::StrSet(ss) => FieldValueModel::StrSet(ss.deep_view()),
        FieldValue::NumSet(ns) => FieldValueModel::NumSet(ns@),
        FieldValue::BinSet(bs) => FieldValueModel::BinSet(bs.deep_view()),
        FieldValue::NumList(ns) => FieldValueModel::NumList(ns@),
        FieldValue::Rec(r) => FieldValueModel::Rec(record_model(r.values@)),
        FieldValue::RecList(rs) => FieldValueModel::RecList(seq_record_model(rs@)),
        FieldValue::Nothing => FieldValueModel::Nothing,
    }
}

/// The elementwise model of a record's values.
pub open spec fn record_model(vs: Seq<FieldValue>) -> Seq<FieldValueModel>
    decreases vs,
{
    if vs.len() == 0 {
        Seq::empty()
    } else {
        record_model(vs.drop_last()).push(field_value_model(vs.last()))
    }
}

/// The elementwise model of a sequence of records.
pub open spec fn seq_record_model(rs: Seq<TypedRecord>) -> Seq<Seq<FieldValueModel>>
    decreases rs,
{
    if rs.len() == 0 {
        Seq::empty()
    } else {
        seq_record_model(rs.drop_last()).push(record_model(rs.last().values@))
    }
}

impl View for FieldValue {
    type V = FieldValueModel;

    open spec fn view(&self) -> FieldValueModel {
        field_value_model(*self)
    }
}

impl View for TypedRecord {
    type V = Seq<FieldValueModel>;

    open spec fn view(&self) -> Seq<FieldValueModel> {
        record_model(self.values@)
    }
}

/// The modelled value sequence is the sequence of modelled values.
pub proof fn lemma_record_model_index(vs: Seq<FieldValue>)
    ensures
        record_model(vs).len() == vs.len(),
        forall|i: int|
            0 <= i < vs.len() ==> #[trigger] record_model(vs)[i] == field_value_model(vs[i]),
    decreases vs,
{
    if vs.len() > 0 {
        lemma_record_model_index(vs.drop_last());
    }
}

/// The modelled record sequence is the sequence of modelled records.
pub proof fn lemma_seq_record_model_index(rs: Seq<TypedRecord>)
    ensures
        seq_record_model(rs).len() == rs.len(),
        forall|i: int|
            0 <= i < rs.len() ==> #[trigger] seq_record_model(rs)[i] == record_model(
                rs[i].values@,
            ),
    decreases rs,
{
    if rs.len() > 0 {
        lemma_seq_record_model_index(rs.drop_last());
    }
}

/// Whether every element of `s` occurs only once.
pub open spec fn seq_unique<A>(s: Seq<A>) -> bool {
    forall|i: int, j: int| 0 <= i < j < s.len() ==> s[i] != s[j]
}

/// Whether `n` lies within the numeric width `w`.
pub open spec fn num_in_range(w: NumberType, n: i64) -> bool {
    match w {
        NumberType::U16 => 0 <= n <= u16::MAX,
        NumberType::U32 => 0 <= n <= u32::MAX,
        NumberType::I32 => i32::MIN <= n <= i32::MAX,
        NumberType::I64 => true,
    }
}

/// Whether a native value fits a base type.
pub open spec fn base_conforms(b: BaseTypeModel, v: FieldValueModel) -> bool
    decreases b,
{
    match b {
        BaseTypeModel::Str => v is Str,
        BaseTypeModel::Num(w) => v matches FieldValueModel::Num(n) && num_in_range(w, n),
        BaseTypeModel::Bin => v is Bin,
        BaseTypeModel::Bool => v is Bool,
        BaseTypeModel::StrSet => v matches FieldValueModel::StrSet(ss) && seq_unique(ss),
        BaseTypeModel::NumSet(w) => v matches FieldValueModel::NumSet(ns) && seq_unique(ns)
            && forall|i: int| 0 <= i < ns.len() ==> num_in_range(w, #[trigger] ns[i]),
        BaseTypeModel::BinSet => v matches FieldValueModel::BinSet(bs) && seq_unique(bs),
        BaseTypeModel::NumList(w) => v matches FieldValueModel::NumList(ns) && forall|i: int|
            0 <= i < ns.len() ==> num_in_range(w, #[trigger] ns[i]),
        BaseTypeModel::Rec(fs) => v matches FieldValueModel::Rec(vs) && record_conforms(fs, vs),
        BaseTypeModel::RecList(fs) => v matches FieldValueModel::RecList(rs) && forall|i: int|
            0 <= i < rs.len() ==> record_conforms(fs, #[trigger] rs[i]),
    }
}

/// Whether a native value fits an attribute type: the absent value fits any
/// optional type, and otherwise the value must fit the base type.
pub open spec fn value_conforms(t: TypeModel, v: FieldValueModel) -> bool
    decreases t,
{
    if t.optional && v is Nothing {
        true
    } else {
        base_conforms(t.base, v)
    }
}

/// Whether a record's values fit a schema, field by field.
pub open spec fn record_conforms(fs: Seq<FieldModel>, vs: Seq<FieldValueModel>) -> bool
    decreases fs,
{
    &&& vs.len() == fs.len()
    &&& forall|i: int|
        0 <= i < fs.len() ==> value_conforms(#[trigger] fs[i].ty, vs[i])
}

} // verus!
