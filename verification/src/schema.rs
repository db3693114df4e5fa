//! Field descriptors: the static metadata that drives the record codec.
//!
//! A type's schema is an ordered list of [`FieldDescriptor`]s, one per field:
//! a name, a key role, and an attribute type.  An attribute type is a base
//! type plus an optionality flag — optionality is a property of a field, not
//! a nesting combinator, so an optional type never wraps another optional
//! type.  Schemas are declared once per record type and validated at
//! definition time by [`schema_is_valid`]; the codec assumes a well-formed
//! schema and never re-checks it at run time.

use vstd::prelude::*;

verus! {

/// The width of a numeric attribute.
#[derive(Debug, Clone, Copy, PartialEq, Eq, Structural)]
pub enum NumberType {
    /// An unsigned 16-bit number.
    U16,
    /// An unsigned 32-bit number.
    U32,
    /// A signed 32-bit number.
    I32,
    /// A signed 64-bit number.
    I64,
}

/// The key role of a field: partition key, sort key, or no role.
#[derive(Debug, Clone, Copy, PartialEq, Eq, Structural)]
pub enum KeyRole {
    /// The partition (hash) key.
    Hash,
    /// The sort (range) key.
    Range,
    /// Not part of the key.
    NonKey,
}

/// The base (non-optional) type of a field.
#[derive(Debug, PartialEq)]
pub enum BaseAttributeType {
    /// A string scalar.
    Str,
    /// A numeric scalar of the given width.
    Num(NumberType),
    /// A binary blob.
    Bin,
    /// A boolean.
    Bool,
    /// A set of strings.
    StrSet,
    /// A set of numbers of the given width.
    NumSet(NumberType),
    /// A set of binary blobs.
    BinSet,
    /// An ordered list of numbers of the given width, carried over the same
    /// wire variant as a number set but preserving order and duplicates.
    NumList(NumberType),
    /// A nested record with the given schema.
    Rec(ItemSchema),
    /// An ordered list of nested records, each with the given schema.
    RecList(ItemSchema),
}

/// The type of a field: a base type, possibly optional.
#[derive(Debug, PartialEq)]
pub struct AttributeType {
    /// Whether the field tolerates an absent value, decoding it as nothing.
    pub optional: bool,
    /// The underlying type.
    pub base: BaseAttributeType,
}

/// The static metadata of one field: its name, key role, and type.
#[derive(Debug, PartialEq)]
pub struct FieldDescriptor {
    /// The field name, unique within its schema.
    pub name: String,
    /// The key role of the field.
    pub role: KeyRole,
    /// The type of the field.
    pub ty: AttributeType,
}

/// The schema of a record type: its field descriptors, in declaration order.
#[derive(Debug, PartialEq)]
pub struct ItemSchema {
    /// The descriptors, in declaration order.
    pub fields: Vec<FieldDescriptor>,
}

/// The model of a base attribute type.
pub enum BaseTypeModel {
    Str,
    Num(NumberType),
    Bin,
    Bool,
    StrSet,
    NumSet(NumberType),
    BinSet,
    NumList(NumberType),
    Rec(Seq<FieldModel>),
    RecList(Seq<FieldModel>),
}

/// The model of an attribute type.
pub struct TypeModel {
    pub optional: bool,
    pub base: BaseTypeModel,
}

/// The model of a field descriptor.
pub struct FieldModel {
    pub name: Seq<char>,
    pub role: KeyRole,
    pub ty: TypeModel,
}

/// The model of a base attribute type.
pub open spec fn base_type_model(b: BaseAttributeType) -> BaseTypeModel
    decreases b,
{
    match b {
        BaseAttributeType::Str => BaseTypeModel::Str,
        BaseAttributeType::Num(w) => BaseTypeModel::Num(w),
        BaseAttributeType::Bin => BaseTypeModel::Bin,
        BaseAttributeType::Bool => BaseTypeModel::Bool,
        BaseAttributeType::StrSet => BaseTypeModel::StrSet,
        BaseAttributeType::NumSet(w) => BaseTypeModel::NumSet(w),
        BaseAttributeType::BinSet => BaseTypeModel::BinSet,
        BaseAttributeType::NumList(w) => BaseTypeModel::NumList(w),
        BaseAttributeType::Rec(s) => BaseTypeModel::Rec(seq_field_model(s.fields@)),
        BaseAttributeType::RecList(s) => BaseTypeModel::RecList(seq_field_model(s.fields@)),
    }
}

/// The model of an attribute type.
pub open spec fn type_model(t: AttributeType) -> TypeModel
    decreases t,
{
    TypeModel { optional: t.optional, base: base_type_model(t.base) }
}

/// The model of a field descriptor.
pub open spec fn field_model(f: FieldDescriptor) -> FieldModel
    decreases f,
{
    FieldModel { name: f.name@, role: f.role, ty: type_model(f.ty) }
}

/// The elementwise model of a descriptor sequence.
pub open spec fn seq_field_model(fs: Seq<FieldDescriptor>) -> Seq<FieldModel>
    decreases fs,
{
    if fs.len() == 0 {
        Seq::empty()
    } else {
        seq_field_model(fs.drop_last()).push(field_model(fs.last()))
    }
}

impl View for BaseAttributeType {
    type V = BaseTypeModel;

    open spec fn view(&self) -> BaseTypeModel {
        base_type_model(*self)
    }
}

impl View for AttributeType {
    type V = TypeModel;

    open spec fn view(&self) -> TypeModel {
        type_model(*self)
    }
}

impl View for FieldDescriptor {
    type V = FieldModel;

    open spec fn view(&self) -> FieldModel {
        field_model(*self)
    }
}

impl View for ItemSchema {
    type V = Seq<FieldModel>;

    open spec fn view(&self) -> Seq<FieldModel> {
        seq_field_model(self.fields@)
    }
}

/// The modelled descriptor sequence is the sequence of modelled descriptors.
pub proof fn lemma_seq_field_model_index(fs: Seq<FieldDescriptor>)
    ensures
        seq_field_model(fs).len() == fs.len(),
        forall|i: int|
            0 <= i < fs.len() ==> #[trigger] seq_field_model(fs)[i] == field_model(fs[i]),
    decreases fs,
{
    if fs.len() > 0 {
        lemma_seq_field_model_index(fs.drop_last());
    }
}

/// Well-formedness of a base type: every nested schema is well-formed.
pub open spec fn base_type_wf(b: BaseTypeModel) -> bool
    decreases b,
{
    match b {
        BaseTypeModel::Rec(fs) => schema_wf(fs),
        BaseTypeModel::RecList(fs) => schema_wf(fs),
        _ => true,
    }
}

/// Well-formedness of an attribute type.
pub open spec fn type_wf(t: TypeModel) -> bool
    decreases t,
{
    base_type_wf(t.base)
}

/// Well-formedness of a schema: field names are unique, at most one field
/// carries each key role, and every field type is well-formed.
pub open spec fn schema_wf(fs: Seq<FieldModel>) -> bool
    decreases fs,
{
    &&& forall|i: int, j: int| 0 <= i < j < fs.len() ==> fs[i].name != fs[j].name
    &&& forall|i: int, j: int|
        0 <= i < j < fs.len() ==> !(fs[i].role is Hash && fs[j].role is Hash)
    &&& forall|i: int, j: int|
        0 <= i < j < fs.len() ==> !(fs[i].role is Range && fs[j].role is Range)
    &&& forall|i: int| 0 <= i < fs.len() ==> type_wf(#[trigger] fs[i].ty)
}

/// Copy a base attribute type.
pub fn clone_base_type(b: &BaseAttributeType) -> (r: BaseAttributeType)
    ensures
        r@ == b@,
    decreases *b, 0int, 0int,
{
    match b {
        BaseAttributeType::Str => BaseAttributeType::Str,
        BaseAttributeType::Num(w) => BaseAttributeType::Num(*w),
        BaseAttributeType::Bin => BaseAttributeType::Bin,
        BaseAttributeType::Bool => BaseAttributeType::Bool,
        BaseAttributeType::StrSet => BaseAttributeType::StrSet,
        BaseAttributeType::NumSet(w) => BaseAttributeType::NumSet(*w),
        BaseAttributeType::BinSet => BaseAttributeType::BinSet,
        BaseAttributeType::NumList(w) => BaseAttributeType::NumList(*w),
        BaseAttributeType::Rec(s) => BaseAttributeType::Rec(clone_schema(s)),
        BaseAttributeType::RecList(s) => BaseAttributeType::RecList(clone_schema(s)),
    }
}

/// Copy an attribute type.
pub fn clone_attribute_type(t: &AttributeType) -> (r: AttributeType)
    ensures
        r@ == t@,
    decreases *t, 1int, 0int,
{
    AttributeType { optional: t.optional, base: clone_base_type(&t.base) }
}

/// Copy a field descriptor.
pub fn clone_field(f: &FieldDescriptor) -> (r: FieldDescriptor)
    ensures
        r@ == f@,
    decreases *f, 2int, 0int,
{
    FieldDescriptor { name: f.name.clone(), role: f.role, ty: clone_attribute_type(&f.ty) }
}

/// Copy a schema.
pub fn clone_schema(s: &ItemSchema) -> (r: ItemSchema)
    ensures
        r@ == s@,
    decreases *s, 3int, 0int,
{
    proof {
        lemma_seq_field_model_index(s.fields@);
    }
    let mut fields: Vec<FieldDescriptor> = Vec::new();
    let n = s.fields.len();
    let mut i: usize = 0;
    while i < n
        invariant
            n == s.fields@.len(),
            s@.len() == n,
            i <= n,
            fields@.len() == i,
            forall|j: int|
                0 <= j < n ==> #[trigger] s@[j] == field_model(s.fields@[j]),
            forall|j: int| 0 <= j < i ==> #[trigger] field_model(fields@[j]) == s@[j],
        decreases n - i,
    {
        proof {
            assert(decreases_to!(*s => s.fields));
        }
        let f = clone_field(&s.fields[i]);
        fields.push(f);
        i = i + 1;
    }
    let out = ItemSchema { fields };
    proof {
        lemma_seq_field_model_index(out.fields@);
        assert(out@ =~= s@);
    }
    out
}

/// Whether a base type is well-formed: every schema nested in it passes
/// [`schema_is_valid`].
pub fn base_type_is_valid(b: &BaseAttributeType) -> (r: bool)
    ensures
        r == base_type_wf(b@),
    decreases *b, 0int, 0int,
{
    match b {
        BaseAttributeType::Rec(s) => schema_is_valid(s),
        BaseAttributeType::RecList(s) => schema_is_valid(s),
        _ => true,
    }
}

/// Check a schema at definition time: field names unique, at most one field
/// per key role, every field type well-formed.  A schema that fails this
/// check is a configuration error; the codec is specified only for schemas
/// that pass it.
pub fn schema_is_valid(s: &ItemSchema) -> (r: bool)
    ensures
        r == schema_wf(s@),
    decreases *s, 3int, 0int,
{
    proof {
        lemma_seq_field_model_index(s.fields@);
    }
    let n = s.fields.len();
    let mut i: usize = 0;
    let mut seen_hash = false;
    let mut seen_range = false;
    while i < n
        invariant
            n == s.fields@.len(),
            s@.len() == n,
            i <= n,
            forall|j: int|
                0 <= j < n ==> #[trigger] s@[j] == field_model(s.fields@[j]),
            forall|a: int, b: int| 0 <= a < b < i ==> s@[a].name != s@[b].name,
            forall|a: int, b: int|
                0 <= a < b < i ==> !(s@[a].role is Hash && s@[b].role is Hash),
            forall|a: int, b: int|
                0 <= a < b < i ==> !(s@[a].role is Range && s@[b].role is Range),
            forall|a: int| 0 <= a < i ==> type_wf(#[trigger] s@[a].ty),
            seen_hash == (exists|a: int| 0 <= a < i && (#[trigger] s@[a].role) is Hash),
            seen_range == (exists|a: int| 0 <= a < i && (#[trigger] s@[a].role) is Range),
        decreases n - i,
    {
        let fd = &s.fields[i];
        let mut j: usize = 0;
        while j < i
            invariant
                n == s.fields@.len(),
                s@.len() == n,
                j <= i < n,
                forall|k: int|
                    0 <= k < n ==> #[trigger] s@[k] == field_model(s.fields@[k]),
                forall|k: int| 0 <= k < j ==> s@[k].name != s@[i as int].name,
            decreases i - j,
        {
            if s.fields[j].name == s.fields[i].name {
                assert(s@[j as int].name == s@[i as int].name);
                return false;
            }
            j = j + 1;
        }
        match fd.role {
            KeyRole::Hash => {
                if seen_hash {
                    return false;
                }
                seen_hash = true;
            },
            KeyRole::Range => {
                if seen_range {
                    return false;
                }
                seen_range = true;
            },
            KeyRole::NonKey => {},
        }
        proof {
            assert(decreases_to!(*s => s.fields));
        }
        if !base_type_is_valid(&fd.ty.base) {
            assert(!type_wf(s@[i as int].ty));
            return false;
        }
        i = i + 1;
    }
    true
}

/// The declared field names, in declaration order.
pub fn attribute_names(s: &ItemSchema) -> (r: Vec<String>)
    ensures
        r.deep_view() == s@.map_values(|f: FieldModel| f.name),
{
    proof {
        lemma_seq_field_model_index(s.fields@);
    }
    let n = s.fields.len();
    let mut out: Vec<String> = Vec::new();
    let mut i: usize = 0;
    while i < n
        invariant
            n == s.fields@.len(),
            s@.len() == n,
            i <= n,
            out@.len() == i,
            forall|j: int|
                0 <= j < n ==> #[trigger] s@[j] == field_model(s.fields@[j]),
            forall|j: int| 0 <= j < i ==> #[trigger] out.deep_view()[j] == s@[j].name,
        decreases n - i,
    {
        let ghost pre = out.deep_view();
        out.push(s.fields[i].name.clone());
        proof {
            assert(out.deep_view() =~= pre.push(s.fields@[i as int].name@));
        }
        i = i + 1;
    }
    proof {
        assert(out.deep_view() =~= s@.map_values(|f: FieldModel| f.name));
    }
    out
}

} // verus!
