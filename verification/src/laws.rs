//! The laws of the codec, stated once over the spec functions and proved for
//! every well-formed schema and conforming value.

use vstd::prelude::*;

use crate::attributes::ValueModel;
use crate::codec::dedup;
use crate::codec::lemma_decode_record_prefix_error;
use crate::codec::lemma_decode_rec_seq_prefix_error;
use crate::codec::lemma_dedup_members;
use crate::codec::lemma_dedup_of_unique;
use crate::codec::spec_decode_base;
use crate::codec::spec_decode_field;
use crate::codec::spec_decode_list_elem;
use crate::codec::spec_decode_rec_seq;
use crate::codec::spec_decode_record;
use crate::codec::spec_decode_value;
use crate::codec::spec_encode_base;
use crate::codec::spec_encode_rec_seq;
use crate::codec::spec_encode_record;
use crate::codec::spec_encode_value;
use crate::codec::spec_parse_num;
use crate::codec::spec_parse_num_seq;
use crate::codec::spec_render_num_seq;
use crate::errors::ConversionError;
use crate::numbers::lemma_parse_render_round_trip;
use crate::schema::BaseTypeModel;
use crate::schema::FieldModel;
use crate::schema::TypeModel;
use crate::schema::base_type_wf;
use crate::schema::schema_wf;
use crate::schema::type_wf;
use crate::typed::FieldValueModel;
use crate::typed::base_conforms;
use crate::typed::num_in_range;
use crate::typed::record_conforms;
use crate::typed::value_conforms;

verus! {

/// Decoding the absent value at any base type reports a missing value.
pub proof fn lemma_decode_base_absent(b: BaseTypeModel)
    ensures
        spec_decode_base(b, ValueModel::Absent) == Err::<FieldValueModel, _>(
            ConversionError::MissingValue,
        ),
{
}

/// Absence handling: decoding the absent value at an optional type yields
/// the absent native value, not an error.
pub proof fn lemma_optional_absent(t: TypeModel)
    requires
        t.optional,
    ensures
        spec_decode_value(t, ValueModel::Absent) == Ok::<_, ConversionError>(
            FieldValueModel::Nothing,
        ),
{
    lemma_decode_base_absent(t.base);
}

/// Absence handling: an optional type turns exactly the missing-value and
/// missing-field failures of its base type into the absent native value,
/// while invalid content still fails.
pub proof fn lemma_optional_collapses_absence(t: TypeModel, w: ValueModel)
    requires
        t.optional,
    ensures
        spec_decode_base(t.base, w) == Err::<FieldValueModel, _>(ConversionError::MissingValue)
            ==> spec_decode_value(t, w) == Ok::<_, ConversionError>(FieldValueModel::Nothing),
        spec_decode_base(t.base, w) == Err::<FieldValueModel, _>(ConversionError::MissingField)
            ==> spec_decode_value(t, w) == Ok::<_, ConversionError>(FieldValueModel::Nothing),
        spec_decode_base(t.base, w) == Err::<FieldValueModel, _>(ConversionError::InvalidValue)
            ==> spec_decode_value(t, w) == Err::<FieldValueModel, _>(
            ConversionError::InvalidValue,
        ),
{
}

/// Parsing the canonical texts of in-range numbers yields the numbers back.
proof fn lemma_parse_render_num_seq(w: crate::schema::NumberType, ns: Seq<i64>)
    requires
        forall|i: int| 0 <= i < ns.len() ==> num_in_range(w, #[trigger] ns[i]),
    ensures
        spec_parse_num_seq(w, spec_render_num_seq(ns)) == Ok::<_, ConversionError>(ns),
    decreases ns.len(),
{
    let ss = spec_render_num_seq(ns);
    if ns.len() == 0 {
        assert(ss.len() == 0);
        assert(ns =~= Seq::<i64>::empty());
    } else {
        assert(forall|i: int| 0 <= i < ns.len() - 1 ==> ns.drop_last()[i] == ns[i]);
        assert(ss.drop_last() =~= spec_render_num_seq(ns.drop_last()));
        lemma_parse_render_num_seq(w, ns.drop_last());
        lemma_parse_render_round_trip(ns.last() as int);
        assert(ss.last() == crate::numbers::spec_render_int(ns.last() as int));
        assert(crate::numbers::spec_parse_i64(ss.last()) == Some(ns.last()));
        assert(num_in_range(w, ns[ns.len() - 1]));
        assert(spec_parse_num(w, ss.last()) == Ok::<_, ConversionError>(ns.last()));
        assert(ns.drop_last().push(ns.last()) =~= ns);
    }
}

/// Two maps that agree on every declared field name decode identically: the
/// record codec never inspects entries under other names.
pub proof fn lemma_decode_record_agrees(
    fs: Seq<FieldModel>,
    m1: Map<Seq<char>, ValueModel>,
    m2: Map<Seq<char>, ValueModel>,
)
    requires
        forall|j: int|
            0 <= j < fs.len() ==> (m1.dom().contains(#[trigger] fs[j].name) == m2.dom().contains(
                fs[j].name,
            ) && (m1.dom().contains(fs[j].name) ==> m1[fs[j].name] == m2[fs[j].name])),
    ensures
        spec_decode_record(fs, m1) == spec_decode_record(fs, m2),
    decreases fs,
{
    if fs.len() > 0 {
        assert(forall|j: int| 0 <= j < fs.len() - 1 ==> fs.drop_last()[j] == fs[j]);
        lemma_decode_record_agrees(fs.drop_last(), m1, m2);
        assert(fs[fs.len() - 1] == fs.last());
        assert(spec_decode_field(fs.last(), m1) == spec_decode_field(fs.last(), m2));
    }
}

/// Unknown-field tolerance: an entry under a name that no field declares
/// changes nothing about a record's decode.
pub proof fn lemma_unknown_field_ignored(
    fs: Seq<FieldModel>,
    m: Map<Seq<char>, ValueModel>,
    name: Seq<char>,
    w: ValueModel,
)
    requires
        forall|j: int| 0 <= j < fs.len() ==> (#[trigger] fs[j].name) != name,
    ensures
        spec_decode_record(fs, m.insert(name, w)) == spec_decode_record(fs, m),
{
    lemma_decode_record_agrees(fs, m.insert(name, w), m);
}

/// Missing field: when the record holds no entry for a required field and
/// every earlier field decodes, the whole decode fails with a missing field.
pub proof fn lemma_missing_field(fs: Seq<FieldModel>, m: Map<Seq<char>, ValueModel>, i: int)
    requires
        0 <= i < fs.len(),
        spec_decode_record(fs.subrange(0, i), m) is Ok,
        !m.dom().contains(fs[i].name),
    ensures
        spec_decode_record(fs, m) == Err::<Seq<FieldValueModel>, _>(ConversionError::MissingField),
{
    assert(fs.subrange(0, i + 1).drop_last() =~= fs.subrange(0, i));
    assert(fs.subrange(0, i + 1).last() == fs[i]);
    assert(spec_decode_field(fs[i], m) == Err::<FieldValueModel, _>(
        ConversionError::MissingField,
    ));
    assert(spec_decode_record(fs.subrange(0, i + 1).drop_last(), m) is Ok);
    assert(spec_decode_record(fs.subrange(0, i + 1), m) == Err::<Seq<FieldValueModel>, _>(
        ConversionError::MissingField,
    ));
    lemma_decode_record_prefix_error(fs, m, i + 1);
}

/// A failing numeric sequence always fails with invalid content.
proof fn lemma_num_seq_err_is_invalid(w: crate::schema::NumberType, ss: Seq<Seq<char>>)
    ensures
        spec_parse_num_seq(w, ss) is Err ==> spec_parse_num_seq(w, ss) == Err::<Seq<i64>, _>(
            ConversionError::InvalidValue,
        ),
    decreases ss,
{
    if ss.len() > 0 {
        lemma_num_seq_err_is_invalid(w, ss.drop_last());
    }
}

/// Partial-set rejection: one unparsable element fails the whole numeric
/// sequence with invalid content; no partially decoded set exists.
pub proof fn lemma_num_seq_element_failure(
    w: crate::schema::NumberType,
    ss: Seq<Seq<char>>,
    j: int,
)
    requires
        0 <= j < ss.len(),
        spec_parse_num(w, ss[j]) is Err,
    ensures
        spec_parse_num_seq(w, ss) == Err::<Seq<i64>, _>(ConversionError::InvalidValue),
    decreases ss.len(),
{
    if j == ss.len() - 1 {
        lemma_num_seq_err_is_invalid(w, ss.drop_last());
    } else {
        assert(ss.drop_last()[j] == ss[j]);
        lemma_num_seq_element_failure(w, ss.drop_last(), j);
    }
}

/// Nested list failure propagation: when every earlier element decodes and
/// element `i` fails, the whole list fails with that element's error.
pub proof fn lemma_rec_list_element_failure(
    fs: Seq<FieldModel>,
    l: Seq<ValueModel>,
    i: int,
    e: ConversionError,
)
    requires
        0 <= i < l.len(),
        spec_decode_rec_seq(fs, l.subrange(0, i)) is Ok,
        spec_decode_list_elem(fs, l[i]) == Err::<Seq<FieldValueModel>, _>(e),
    ensures
        spec_decode_rec_seq(fs, l) == Err::<Seq<Seq<FieldValueModel>>, _>(e),
{
    assert(l.subrange(0, i + 1).drop_last() =~= l.subrange(0, i));
    assert(l.subrange(0, i + 1).last() == l[i]);
    assert(spec_decode_rec_seq(fs, l.subrange(0, i + 1)) == Err::<Seq<Seq<FieldValueModel>>, _>(
        e,
    ));
    lemma_decode_rec_seq_prefix_error(fs, l, i + 1);
}

/// A successfully parsed numeric sequence lies within its width.
proof fn lemma_parse_num_seq_in_range(w: crate::schema::NumberType, ss: Seq<Seq<char>>)
    ensures
        spec_parse_num_seq(w, ss) matches Ok(ns) ==> forall|i: int|
            0 <= i < ns.len() ==> num_in_range(w, #[trigger] ns[i]),
    decreases ss,
{
    if ss.len() > 0 {
        lemma_parse_num_seq_in_range(w, ss.drop_last());
    }
}

/// What a successful decode returns conforms to the type it was decoded at.
pub proof fn lemma_decode_value_conforms(t: TypeModel, w: ValueModel)
    requires
        type_wf(t),
        spec_decode_value(t, w) is Ok,
    ensures
        value_conforms(t, spec_decode_value(t, w)->Ok_0),
    decreases t, 1int, 0int,
{
    if spec_decode_base(t.base, w) is Ok {
        lemma_decode_base_conforms(t.base, w);
    }
}

/// What a successful decode returns conforms to the base type.
pub proof fn lemma_decode_base_conforms(b: BaseTypeModel, w: ValueModel)
    requires
        base_type_wf(b),
        spec_decode_base(b, w) is Ok,
    ensures
        base_conforms(b, spec_decode_base(b, w)->Ok_0),
    decreases b, 0int, 0int,
{
    match b {
        BaseTypeModel::StrSet => {
            lemma_dedup_members(w->StrSet_0);
        },
        BaseTypeModel::NumSet(nw) => {
            let ss = w->NumSet_0;
            let ns = spec_parse_num_seq(nw, ss)->Ok_0;
            lemma_parse_num_seq_in_range(nw, ss);
            lemma_dedup_members(ns);
            assert forall|i: int|
                0 <= i < dedup(ns).len() implies num_in_range(nw, #[trigger] dedup(ns)[i]) by {
                assert(dedup(ns).contains(dedup(ns)[i]));
                assert(ns.contains(dedup(ns)[i]));
                let j = choose|j: int| 0 <= j < ns.len() && ns[j] == dedup(ns)[i];
                assert(num_in_range(nw, ns[j]));
            }
        },
        BaseTypeModel::BinSet => {
            lemma_dedup_members(w->BinSet_0);
        },
        BaseTypeModel::NumList(nw) => {
            lemma_parse_num_seq_in_range(nw, w->NumSet_0);
        },
        BaseTypeModel::Rec(fs) => {
            lemma_decode_record_conforms(fs, w->Rec_0);
        },
        BaseTypeModel::RecList(fs) => {
            lemma_decode_rec_seq_conforms(fs, w->List_0);
        },
        _ => {},
    }
}

/// What a successful record decode returns conforms to the schema.
pub proof fn lemma_decode_record_conforms(fs: Seq<FieldModel>, m: Map<Seq<char>, ValueModel>)
    requires
        schema_wf(fs),
        spec_decode_record(fs, m) is Ok,
    ensures
        record_conforms(fs, spec_decode_record(fs, m)->Ok_0),
    decreases fs, 3int, 0int,
{
    let vs = spec_decode_record(fs, m)->Ok_0;
    if fs.len() > 0 {
        let fs1 = fs.drop_last();
        assert(forall|j: int| 0 <= j < fs1.len() ==> fs1[j] == fs[j]);
        assert(schema_wf(fs1)) by {
            assert(forall|j: int| 0 <= j < fs1.len() ==> type_wf(#[trigger] fs1[j].ty));
        }
        lemma_decode_record_conforms(fs1, m);
        let vs1 = spec_decode_record(fs1, m)->Ok_0;
        assert(fs[fs.len() - 1] == fs.last());
        assert(type_wf(fs.last().ty));
        if !(m.dom().contains(fs.last().name)) {
        } else {
            if spec_decode_value(fs.last().ty, m[fs.last().name]) is Ok {
                lemma_decode_value_conforms(fs.last().ty, m[fs.last().name]);
            }
        }
        assert(vs == vs1.push(spec_decode_field(fs.last(), m)->Ok_0));
        assert forall|i: int| 0 <= i < fs.len() implies value_conforms(
            #[trigger] fs[i].ty,
            vs[i],
        ) by {
            if i < fs.len() - 1 {
                assert(value_conforms(fs1[i].ty, vs1[i]));
                assert(vs[i] == vs1[i]);
            }
        }
    }
}

/// What a successful record-list decode returns conforms, element by element.
pub proof fn lemma_decode_rec_seq_conforms(fs: Seq<FieldModel>, l: Seq<ValueModel>)
    requires
        schema_wf(fs),
        spec_decode_rec_seq(fs, l) is Ok,
    ensures
        spec_decode_rec_seq(fs, l)->Ok_0.len() == l.len(),
        forall|i: int|
            0 <= i < l.len() ==> record_conforms(fs, #[trigger] spec_decode_rec_seq(fs, l)->Ok_0[i]),
    decreases fs, 5int, l.len(),
{
    let rs = spec_decode_rec_seq(fs, l)->Ok_0;
    if l.len() > 0 {
        lemma_decode_rec_seq_conforms(fs, l.drop_last());
        let rs1 = spec_decode_rec_seq(fs, l.drop_last())->Ok_0;
        if l.last() matches ValueModel::Rec(m) && spec_decode_record(fs, m) is Ok {
            lemma_decode_record_conforms(fs, l.last()->Rec_0);
        }
        assert(rs == rs1.push(spec_decode_list_elem(fs, l.last())->Ok_0));
        assert forall|i: int| 0 <= i < l.len() implies record_conforms(
            fs,
            #[trigger] rs[i],
        ) by {
            if i < l.len() - 1 {
                assert(record_conforms(fs, rs1[i]));
                assert(rs[i] == rs1[i]);
            }
        }
    }
}

/// Round trip: decoding the encoding of a conforming value at its own
/// well-formed type yields the value back, exactly.
pub proof fn lemma_value_round_trip(t: TypeModel, v: FieldValueModel)
    requires
        type_wf(t),
        value_conforms(t, v),
    ensures
        spec_decode_value(t, spec_encode_value(t, v)) == Ok::<_, ConversionError>(v),
    decreases t, 1int, 0int,
{
    if t.optional && v is Nothing {
        lemma_decode_base_absent(t.base);
    } else {
        lemma_base_round_trip(t.base, v);
    }
}

/// Round trip at a base type.
pub proof fn lemma_base_round_trip(b: BaseTypeModel, v: FieldValueModel)
    requires
        base_type_wf(b),
        base_conforms(b, v),
    ensures
        spec_decode_base(b, spec_encode_base(b, v)) == Ok::<_, ConversionError>(v),
    decreases b, 0int, 0int,
{
    match b {
        BaseTypeModel::Num(w) => {
            let n = v->Num_0;
            lemma_parse_render_round_trip(n as int);
        },
        BaseTypeModel::StrSet => {
            lemma_dedup_of_unique(v->StrSet_0);
        },
        BaseTypeModel::NumSet(w) => {
            let ns = v->NumSet_0;
            lemma_parse_render_num_seq(w, ns);
            lemma_dedup_of_unique(ns);
        },
        BaseTypeModel::BinSet => {
            lemma_dedup_of_unique(v->BinSet_0);
        },
        BaseTypeModel::NumList(w) => {
            lemma_parse_render_num_seq(w, v->NumList_0);
        },
        BaseTypeModel::Rec(fs) => {
            lemma_record_round_trip(fs, v->Rec_0);
        },
        BaseTypeModel::RecList(fs) => {
            lemma_rec_seq_round_trip(fs, v->RecList_0);
        },
        _ => {},
    }
}

/// Record round trip: decoding the encoding of a conforming record at its
/// own well-formed schema yields the record back, exactly.
pub proof fn lemma_record_round_trip(fs: Seq<FieldModel>, vs: Seq<FieldValueModel>)
    requires
        schema_wf(fs),
        record_conforms(fs, vs),
    ensures
        spec_decode_record(fs, spec_encode_record(fs, vs)) == Ok::<_, ConversionError>(vs),
    decreases fs, 3int, 0int,
{
    let m = spec_encode_record(fs, vs);
    if fs.len() == 0 {
        assert(vs =~= Seq::<FieldValueModel>::empty());
    } else {
        let fs1 = fs.drop_last();
        let vs1 = vs.drop_last();
        let m1 = spec_encode_record(fs1, vs1);
        assert(forall|j: int| 0 <= j < fs1.len() ==> fs1[j] == fs[j]);
        assert(forall|j: int| 0 <= j < vs1.len() ==> vs1[j] == vs[j]);
        assert(record_conforms(fs1, vs1)) by {
            assert(forall|j: int|
                0 <= j < fs1.len() ==> value_conforms(#[trigger] fs1[j].ty, vs1[j]));
        }
        lemma_record_round_trip(fs1, vs1);
        assert(fs[fs.len() - 1] == fs.last());
        lemma_encode_record_covers_own_names(fs1, vs1);
        assert(forall|j: int| 0 <= j < fs1.len() ==> fs1[j].name != fs.last().name);
        lemma_decode_record_agrees(fs1, m1, m);
        assert(spec_decode_record(fs1, m) == Ok::<_, ConversionError>(vs1));
        assert(m.dom().contains(fs.last().name));
        assert(m[fs.last().name] == spec_encode_value(fs.last().ty, vs.last()));
        assert(value_conforms(fs.last().ty, vs.last()));
        assert(type_wf(fs.last().ty));
        lemma_value_round_trip(fs.last().ty, vs.last());
        assert(spec_decode_field(fs.last(), m) == Ok::<_, ConversionError>(vs.last()));
        assert(vs1.push(vs.last()) =~= vs);
    }
}

/// The encoding of a record holds an entry under exactly the schema's own
/// field names: one entry per declared field, nothing else.
pub proof fn lemma_encode_record_covers_own_names(fs: Seq<FieldModel>, vs: Seq<FieldValueModel>)
    ensures
        forall|k: Seq<char>|
            spec_encode_record(fs, vs).dom().contains(k) <==> exists|j: int|
                0 <= j < fs.len() && (#[trigger] fs[j].name) == k,
    decreases fs,
{
    if fs.len() > 0 {
        lemma_encode_record_covers_own_names(fs.drop_last(), vs.drop_last());
        assert forall|k: Seq<char>|
            spec_encode_record(fs, vs).dom().contains(k) implies exists|j: int|
            0 <= j < fs.len() && (#[trigger] fs[j].name) == k by {
            if k == fs.last().name {
                assert(fs[fs.len() - 1].name == k);
            } else {
                assert(spec_encode_record(fs.drop_last(), vs.drop_last()).dom().contains(k));
                let j = choose|j: int|
                    0 <= j < fs.drop_last().len() && (#[trigger] fs.drop_last()[j].name) == k;
                assert(fs[j].name == k);
            }
        }
        assert forall|k: Seq<char>|
            exists|j: int|
                0 <= j < fs.len() && (#[trigger] fs[j].name) == k implies spec_encode_record(
            fs,
            vs,
        ).dom().contains(k) by {
            let j = choose|j: int| 0 <= j < fs.len() && (#[trigger] fs[j].name) == k;
            if j < fs.len() - 1 {
                assert(fs.drop_last()[j].name == k);
                assert(spec_encode_record(fs.drop_last(), vs.drop_last()).dom().contains(k));
            }
        }
    }
}

/// Record-list round trip.
pub proof fn lemma_rec_seq_round_trip(fs: Seq<FieldModel>, rs: Seq<Seq<FieldValueModel>>)
    requires
        schema_wf(fs),
        forall|i: int| 0 <= i < rs.len() ==> record_conforms(fs, #[trigger] rs[i]),
    ensures
        spec_decode_rec_seq(fs, spec_encode_rec_seq(fs, rs)) == Ok::<_, ConversionError>(rs),
    decreases fs, 5int, rs.len(),
{
    let l = spec_encode_rec_seq(fs, rs);
    if rs.len() == 0 {
        assert(rs =~= Seq::<Seq<FieldValueModel>>::empty());
    } else {
        let rs1 = rs.drop_last();
        assert(forall|i: int| 0 <= i < rs1.len() ==> rs1[i] == rs[i]);
        assert(forall|i: int|
            0 <= i < rs1.len() ==> record_conforms(fs, #[trigger] rs1[i]));
        lemma_rec_seq_round_trip(fs, rs1);
        assert(l.drop_last() =~= spec_encode_rec_seq(fs, rs1));
        assert(rs[rs.len() - 1] == rs.last());
        lemma_record_round_trip(fs, rs.last());
        assert(l.last() == ValueModel::Rec(spec_encode_record(fs, rs.last())));
        assert(spec_decode_list_elem(fs, l.last()) == Ok::<_, ConversionError>(rs.last()));
        assert(rs1.push(rs.last()) =~= rs);
    }
}

} // verus!
