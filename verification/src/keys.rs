//! The key projector: from a record to the reduced record that addresses it.
//!
//! A schema designates at most one field as the hash (partition) key and at
//! most one as the range (sort) key.  [`get_key`] projects a typed record to
//! an attribute map holding exactly those fields, encoded by the value
//! codec; [`key_schema`] derives the schema of the standalone key record,
//! with the role tags stripped, and [`lemma_key_map_is_encoded_key_record`]
//! shows the two agree: the projected map is the record codec's encoding of
//! the key record.

use vstd::prelude::*;

use crate::attributes::AttributeMap;
use crate::attributes::ValueModel;
use crate::codec::encode_value;
use crate::codec::spec_encode_record;
use crate::codec::spec_encode_value;
use crate::schema::FieldDescriptor;
use crate::schema::FieldModel;
use crate::schema::ItemSchema;
use crate::schema::KeyRole;
use crate::schema::schema_wf;
use crate::schema::type_wf;
use crate::typed::FieldValueModel;
use crate::typed::TypedRecord;
use crate::typed::record_conforms;
use crate::typed::value_conforms;

verus! {

/// Whether some field carries the hash-key role.
pub open spec fn has_hash_key(fs: Seq<FieldModel>) -> bool {
    exists|i: int| 0 <= i < fs.len() && (#[trigger] fs[i].role) is Hash
}

/// The index of the hash-key field.
pub open spec fn hash_index(fs: Seq<FieldModel>) -> int {
    choose|i: int| 0 <= i < fs.len() && (#[trigger] fs[i].role) is Hash
}

/// Whether some field carries the range-key role.
pub open spec fn has_range_key(fs: Seq<FieldModel>) -> bool {
    exists|i: int| 0 <= i < fs.len() && (#[trigger] fs[i].role) is Range
}

/// The index of the range-key field.
pub open spec fn range_index(fs: Seq<FieldModel>) -> int {
    choose|i: int| 0 <= i < fs.len() && (#[trigger] fs[i].role) is Range
}

/// A field descriptor with its key role stripped.
pub open spec fn strip_role(f: FieldModel) -> FieldModel {
    FieldModel { name: f.name, role: KeyRole::NonKey, ty: f.ty }
}

/// The values of the key fields, hash first.
pub open spec fn spec_key_values(fs: Seq<FieldModel>, vs: Seq<FieldValueModel>) -> Seq<
    FieldValueModel,
> {
    if has_range_key(fs) {
        seq![vs[hash_index(fs)], vs[range_index(fs)]]
    } else {
        seq![vs[hash_index(fs)]]
    }
}

/// The schema of the standalone key record: the key fields in hash-then-range
/// order, stripped of their role tags.
pub open spec fn spec_key_schema(fs: Seq<FieldModel>) -> Seq<FieldModel> {
    if has_range_key(fs) {
        seq![strip_role(fs[hash_index(fs)]), strip_role(fs[range_index(fs)])]
    } else {
        seq![strip_role(fs[hash_index(fs)])]
    }
}

/// The reduced record that addresses an item: exactly the hash-key entry
/// and, if a range key exists, the range-key entry, each encoded by the
/// value codec.
pub open spec fn spec_key_map(fs: Seq<FieldModel>, vs: Seq<FieldValueModel>) -> Map<
    Seq<char>,
    ValueModel,
> {
    let h = hash_index(fs);
    let base = Map::<Seq<char>, ValueModel>::empty().insert(
        fs[h].name,
        spec_encode_value(fs[h].ty, vs[h]),
    );
    if has_range_key(fs) {
        let r = range_index(fs);
        base.insert(fs[r].name, spec_encode_value(fs[r].ty, vs[r]))
    } else {
        base
    }
}

/// The index of the field with the hash role, if any.
fn find_hash(schema: &ItemSchema) -> (r: Option<usize>)
    ensures
        match r {
            Some(j) => j < schema@.len() && schema@[j as int].role is Hash,
            None => !has_hash_key(schema@),
        },
{
    proof {
        crate::schema::lemma_seq_field_model_index(schema.fields@);
    }
    let n = schema.fields.len();
    let mut i: usize = 0;
    while i < n
        invariant
            n == schema.fields@.len(),
            schema@.len() == n,
            i <= n,
            forall|j: int|
                0 <= j < n ==> #[trigger] schema@[j] == crate::schema::field_model(
                    schema.fields@[j],
                ),
            forall|j: int| 0 <= j < i ==> !((#[trigger] schema@[j].role) is Hash),
        decreases n - i,
    {
        match schema.fields[i].role {
            KeyRole::Hash => {
                return Some(i);
            },
            _ => {},
        }
        i = i + 1;
    }
    None
}

/// The index of the field with the range role, if any.
fn find_range(schema: &ItemSchema) -> (r: Option<usize>)
    ensures
        match r {
            Some(j) => j < schema@.len() && schema@[j as int].role is Range,
            None => !has_range_key(schema@),
        },
{
    proof {
        crate::schema::lemma_seq_field_model_index(schema.fields@);
    }
    let n = schema.fields.len();
    let mut i: usize = 0;
    while i < n
        invariant
            n == schema.fields@.len(),
            schema@.len() == n,
            i <= n,
            forall|j: int|
                0 <= j < n ==> #[trigger] schema@[j] == crate::schema::field_model(
                    schema.fields@[j],
                ),
            forall|j: int| 0 <= j < i ==> !((#[trigger] schema@[j].role) is Range),
        decreases n - i,
    {
        match schema.fields[i].role {
            KeyRole::Range => {
                return Some(i);
            },
            _ => {},
        }
        i = i + 1;
    }
    None
}

/// Project a record to its key: a fresh map holding exactly the hash-key
/// entry and, if the schema has one, the range-key entry, each encoded by
/// the value codec; the record's other fields do not appear.
pub fn get_key(schema: &ItemSchema, rec: &TypedRecord) -> (r: AttributeMap)
    requires
        schema_wf(schema@),
        record_conforms(schema@, rec@),
        has_hash_key(schema@),
    ensures
        r@ == spec_key_map(schema@, rec@),
        r.wf(),
{
    proof {
        crate::schema::lemma_seq_field_model_index(schema.fields@);
        crate::typed::lemma_record_model_index(rec.values@);
    }
    let mut out = AttributeMap::new();
    let h = match find_hash(schema) {
        Some(j) => j,
        None => {
            return vstd::pervasive::unreached();
        },
    };
    proof {
        assert(hash_index(schema@) == h);
        assert(schema@[h as int] == crate::schema::field_model(schema.fields@[h as int]));
        assert(type_wf(schema@[h as int].ty));
        assert(value_conforms(schema@[h as int].ty, rec@[h as int]));
        assert(rec@[h as int] == crate::typed::field_value_model(rec.values@[h as int]));
    }
    let hf = &schema.fields[h];
    let hv = encode_value(&hf.ty, &rec.values[h]);
    out.insert(hf.name.clone(), hv);
    match find_range(schema) {
        Some(k) => {
            proof {
                assert(range_index(schema@) == k);
                assert(schema@[k as int] == crate::schema::field_model(
                    schema.fields@[k as int],
                ));
                assert(type_wf(schema@[k as int].ty));
                assert(value_conforms(schema@[k as int].ty, rec@[k as int]));
                assert(rec@[k as int] == crate::typed::field_value_model(
                    rec.values@[k as int],
                ));
            }
            let kf = &schema.fields[k];
            let kv = encode_value(&kf.ty, &rec.values[k]);
            out.insert(kf.name.clone(), kv);
            proof {
                assert(out@ =~= spec_key_map(schema@, rec@));
            }
        },
        None => {
            proof {
                assert(out@ =~= spec_key_map(schema@, rec@));
            }
        },
    }
    out
}

/// Derive the schema of the standalone key record: the hash-key field and,
/// if present, the range-key field, in that order, stripped of their role
/// tags.  The result is itself a well-formed schema, so the key record has
/// its own decode and encode through the record codec.
pub fn key_schema(schema: &ItemSchema) -> (r: ItemSchema)
    requires
        schema_wf(schema@),
        has_hash_key(schema@),
    ensures
        r@ == spec_key_schema(schema@),
        schema_wf(r@),
{
    proof {
        crate::schema::lemma_seq_field_model_index(schema.fields@);
    }
    let h = match find_hash(schema) {
        Some(j) => j,
        None => {
            return vstd::pervasive::unreached();
        },
    };
    proof {
        assert(hash_index(schema@) == h);
        assert(schema@[h as int] == crate::schema::field_model(schema.fields@[h as int]));
        assert(type_wf(schema@[h as int].ty));
    }
    let hf = &schema.fields[h];
    let mut fields: Vec<FieldDescriptor> = Vec::new();
    fields.push(
        FieldDescriptor {
            name: hf.name.clone(),
            role: KeyRole::NonKey,
            ty: crate::schema::clone_attribute_type(&hf.ty),
        },
    );
    match find_range(schema) {
        Some(k) => {
            proof {
                assert(range_index(schema@) == k);
                assert(schema@[k as int] == crate::schema::field_model(
                    schema.fields@[k as int],
                ));
                assert(type_wf(schema@[k as int].ty));
                assert(h != k);
                assert(schema@[h as int].name != schema@[k as int].name);
            }
            let kf = &schema.fields[k];
            fields.push(
                FieldDescriptor {
                    name: kf.name.clone(),
                    role: KeyRole::NonKey,
                    ty: crate::schema::clone_attribute_type(&kf.ty),
                },
            );
        },
        None => {},
    }
    let out = ItemSchema { fields };
    proof {
        crate::schema::lemma_seq_field_model_index(out.fields@);
        assert(out@ =~= spec_key_schema(schema@));
    }
    out
}

/// The projected key is exactly the record codec's encoding of the key
/// record: projecting with [`get_key`] and encoding the key values against
/// the key schema produce the same attribute map.
pub proof fn lemma_key_map_is_encoded_key_record(fs: Seq<FieldModel>, vs: Seq<FieldValueModel>)
    requires
        schema_wf(fs),
        record_conforms(fs, vs),
        has_hash_key(fs),
    ensures
        spec_key_map(fs, vs) == spec_encode_record(spec_key_schema(fs), spec_key_values(fs, vs)),
    decreases 0int,
{
    let ks = spec_key_schema(fs);
    let kv = spec_key_values(fs, vs);
    let h = hash_index(fs);
    let hf = fs[h];
    if has_range_key(fs) {
        let r = range_index(fs);
        let rf = fs[r];
        let ks1 = ks.drop_last();
        let kv1 = kv.drop_last();
        assert(ks1 =~= seq![strip_role(hf)]);
        assert(kv1 =~= seq![vs[h]]);
        assert(ks.last() == strip_role(rf));
        assert(kv.last() == vs[r]);
        assert(ks1.drop_last() =~= Seq::<FieldModel>::empty());
        assert(ks1.last() == strip_role(hf));
        assert(kv1.last() == vs[h]);
        assert(spec_encode_record(ks1.drop_last(), kv1.drop_last()) =~= Map::<
            Seq<char>,
            ValueModel,
        >::empty());
        assert(spec_encode_record(ks1, kv1) =~= Map::<Seq<char>, ValueModel>::empty().insert(
            hf.name,
            spec_encode_value(hf.ty, vs[h]),
        ));
        assert(spec_encode_record(ks, kv) =~= spec_encode_record(ks1, kv1).insert(
            rf.name,
            spec_encode_value(rf.ty, vs[r]),
        ));
        assert(spec_key_map(fs, vs) =~= spec_encode_record(ks, kv));
    } else {
        let ks1 = ks.drop_last();
        let kv1 = kv.drop_last();
        assert(ks1 =~= Seq::<FieldModel>::empty());
        assert(ks.last() == strip_role(hf));
        assert(kv.last() == vs[h]);
        assert(spec_encode_record(ks1, kv1) =~= Map::<Seq<char>, ValueModel>::empty());
        assert(spec_encode_record(ks, kv) =~= Map::<Seq<char>, ValueModel>::empty().insert(
            hf.name,
            spec_encode_value(hf.ty, vs[h]),
        ));
        assert(spec_key_map(fs, vs) =~= spec_encode_record(ks, kv));
    }
}


/// The projected key holds entries under exactly the key names: the hash
/// name, and the range name when the schema has a range key.
pub proof fn lemma_key_map_entries(fs: Seq<FieldModel>, vs: Seq<FieldValueModel>)
    requires
        has_hash_key(fs),
    ensures
        has_range_key(fs) ==> spec_key_map(fs, vs).dom() =~= set![
            fs[hash_index(fs)].name,
            fs[range_index(fs)].name,
        ],
        !has_range_key(fs) ==> spec_key_map(fs, vs).dom() =~= set![fs[hash_index(fs)].name],
{
}

/// The projected key depends only on the key fields: two records that agree
/// on the hash-key value (and the range-key value, when one exists) project
/// to the same key, whatever their other fields hold.
pub proof fn lemma_key_map_ignores_other_fields(
    fs: Seq<FieldModel>,
    vs1: Seq<FieldValueModel>,
    vs2: Seq<FieldValueModel>,
)
    requires
        has_hash_key(fs),
        vs1[hash_index(fs)] == vs2[hash_index(fs)],
        has_range_key(fs) ==> vs1[range_index(fs)] == vs2[range_index(fs)],
    ensures
        spec_key_map(fs, vs1) == spec_key_map(fs, vs2),
{
}

} // verus!
