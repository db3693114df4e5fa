//! The codec: between native field values and attribute values, and between
//! typed records and attribute maps.
//!
//! The meaning of every conversion is fixed by spec functions
//! ([`spec_decode_value`], [`spec_encode_value`], [`spec_decode_record`],
//! [`spec_encode_record`]); the executable codec is proved to return exactly
//! what they say.  Decoding classifies failures into the three kinds of
//! [`ConversionError`]; encoding of conforming values always succeeds.

use vstd::prelude::*;

use crate::attributes::AttributeMap;
use crate::attributes::AttributeValue;
use crate::attributes::ValueModel;
use crate::attributes::seq_value_model;
use crate::attributes::seq_value_wf;
use crate::attributes::value_model;
use crate::attributes::value_wf;
use crate::errors::ConversionError;
use crate::numbers::spec_parse_i64;
use crate::numbers::spec_render_int;
use crate::schema::AttributeType;
use crate::schema::BaseAttributeType;
use crate::schema::BaseTypeModel;
use crate::schema::FieldModel;
use crate::schema::ItemSchema;
use crate::schema::NumberType;
use crate::schema::TypeModel;
use crate::schema::base_type_wf;
use crate::schema::schema_wf;
use crate::schema::type_wf;
use crate::typed::FieldValue;
use crate::typed::FieldValueModel;
use crate::typed::TypedRecord;
use crate::typed::field_value_model;
use crate::typed::num_in_range;
use crate::typed::record_conforms;
use crate::typed::record_model;
use crate::typed::seq_record_model;

verus! {

/// Drop every repetition of an element already seen to its left, keeping
/// first occurrences in order.
pub open spec fn dedup<A>(s: Seq<A>) -> Seq<A>
    decreases s,
{
    if s.len() == 0 {
        Seq::empty()
    } else if s.drop_last().contains(s.last()) {
        dedup(s.drop_last())
    } else {
        dedup(s.drop_last()).push(s.last())
    }
}

/// Deduplication keeps exactly the members, without repetition.
pub proof fn lemma_dedup_members<A>(s: Seq<A>)
    ensures
        crate::typed::seq_unique(dedup(s)),
        forall|x: A| #[trigger] dedup(s).contains(x) <==> s.contains(x),
    decreases s,
{
    if s.len() > 0 {
        let dl = s.drop_last();
        let d = dedup(s);
        lemma_dedup_members(dl);
        assert forall|x: A| s.contains(x) implies d.contains(x) by {
            let i = choose|i: int| 0 <= i < s.len() && s[i] == x;
            if i < s.len() - 1 {
                assert(dl[i] == x);
                assert(dl.contains(x));
                assert(dedup(dl).contains(x));
                let j = choose|j: int| 0 <= j < dedup(dl).len() && dedup(dl)[j] == x;
                assert(d[j] == x);
                assert(d.contains(x));
            } else {
                if dl.contains(s.last()) {
                    assert(dedup(dl).contains(x));
                    let j = choose|j: int| 0 <= j < dedup(dl).len() && dedup(dl)[j] == x;
                    assert(d[j] == x);
                    assert(d.contains(x));
                } else {
                    assert(d[d.len() - 1] == x);
                    assert(d.contains(x));
                }
            }
        }
        assert forall|x: A| d.contains(x) implies s.contains(x) by {
            let j = choose|j: int| 0 <= j < d.len() && d[j] == x;
            if dl.contains(s.last()) || j < dedup(dl).len() {
                assert(dedup(dl)[j] == x);
                assert(dedup(dl).contains(x));
                assert(dl.contains(x));
                let i = choose|i: int| 0 <= i < dl.len() && dl[i] == x;
                assert(s[i] == x);
                assert(s.contains(x));
            } else {
                assert(x == s.last());
                assert(s[s.len() - 1] == x);
                assert(s.contains(x));
            }
        }
        if !dl.contains(s.last()) {
            assert(!dedup(dl).contains(s.last()));
            assert forall|i: int, j: int| 0 <= i < j < d.len() implies d[i] != d[j] by {
                if j < d.len() - 1 {
                    assert(d[i] == dedup(dl)[i] && d[j] == dedup(dl)[j]);
                } else {
                    assert(d[i] == dedup(dl)[i]);
                    assert(dedup(dl).contains(dedup(dl)[i]));
                }
            }
        }
    }
}

/// A sequence already free of duplicates deduplicates to itself.
pub proof fn lemma_dedup_of_unique<A>(s: Seq<A>)
    requires
        crate::typed::seq_unique(s),
    ensures
        dedup(s) == s,
    decreases s,
{
    if s.len() > 0 {
        assert(forall|i: int| 0 <= i < s.drop_last().len() ==> s.drop_last()[i] == s[i]);
        lemma_dedup_of_unique(s.drop_last());
        if s.drop_last().contains(s.last()) {
            let i = choose|i: int| 0 <= i < s.drop_last().len() && s.drop_last()[i] == s.last();
            assert(s[i] == s[s.len() - 1]);
            assert(false);
        }
        assert(dedup(s) =~= s);
    }
}

/// What decoding one numeric text at width `w` means: the parsed value when
/// the text means one within the width, invalid otherwise.
pub open spec fn spec_parse_num(w: NumberType, s: Seq<char>) -> Result<i64, ConversionError> {
    match spec_parse_i64(s) {
        Some(n) => if num_in_range(w, n) {
            Ok(n)
        } else {
            Err(ConversionError::InvalidValue)
        },
        None => Err(ConversionError::InvalidValue),
    }
}

/// Decode every element of a numeric set or list; one unparsable element
/// fails the whole sequence.
pub open spec fn spec_parse_num_seq(w: NumberType, ss: Seq<Seq<char>>) -> Result<
    Seq<i64>,
    ConversionError,
>
    decreases ss,
{
    if ss.len() == 0 {
        Ok(Seq::empty())
    } else {
        match spec_parse_num_seq(w, ss.drop_last()) {
            Ok(ns) => match spec_parse_num(w, ss.last()) {
                Ok(n) => Ok(ns.push(n)),
                Err(e) => Err(e),
            },
            Err(e) => Err(e),
        }
    }
}

/// The canonical texts of a numeric sequence.
pub open spec fn spec_render_num_seq(ns: Seq<i64>) -> Seq<Seq<char>> {
    ns.map_values(|n: i64| spec_render_int(n as int))
}

/// What decoding an attribute value at a base type means.
pub open spec fn spec_decode_base(b: BaseTypeModel, w: ValueModel) -> Result<
    FieldValueModel,
    ConversionError,
>
    decreases b, 0int,
{
    match b {
        BaseTypeModel::Str => match w {
            ValueModel::Str(s) => Ok(FieldValueModel::Str(s)),
            _ => Err(ConversionError::MissingValue),
        },
        BaseTypeModel::Num(nw) => match w {
            ValueModel::Num(s) => match spec_parse_num(nw, s) {
                Ok(n) => Ok(FieldValueModel::Num(n)),
                Err(e) => Err(e),
            },
            _ => Err(ConversionError::MissingValue),
        },
        BaseTypeModel::Bin => match w {
            ValueModel::Bin(bytes) => Ok(FieldValueModel::Bin(bytes)),
            _ => Err(ConversionError::MissingValue),
        },
        BaseTypeModel::Bool => match w {
            ValueModel::Bool(x) => Ok(FieldValueModel::Bool(x)),
            _ => Err(ConversionError::MissingValue),
        },
        BaseTypeModel::StrSet => match w {
            ValueModel::StrSet(ss) => Ok(FieldValueModel::StrSet(dedup(ss))),
            _ => Err(ConversionError::MissingValue),
        },
        BaseTypeModel::NumSet(nw) => match w {
            ValueModel::NumSet(ss) => match spec_parse_num_seq(nw, ss) {
                Ok(ns) => Ok(FieldValueModel::NumSet(dedup(ns))),
                Err(e) => Err(e),
            },
            _ => Err(ConversionError::MissingValue),
        },
        BaseTypeModel::BinSet => match w {
            ValueModel::BinSet(bs) => Ok(FieldValueModel::BinSet(dedup(bs))),
            _ => Err(ConversionError::MissingValue),
        },
        BaseTypeModel::NumList(nw) => match w {
            ValueModel::NumSet(ss) => match spec_parse_num_seq(nw, ss) {
                Ok(ns) => Ok(FieldValueModel::NumList(ns)),
                Err(e) => Err(e),
            },
            _ => Err(ConversionError::MissingValue),
        },
        BaseTypeModel::Rec(fs) => match w {
            ValueModel::Rec(m) => match spec_decode_record(fs, m) {
                Ok(vs) => Ok(FieldValueModel::Rec(vs)),
                Err(e) => Err(e),
            },
            _ => Err(ConversionError::MissingValue),
        },
        BaseTypeModel::RecList(fs) => match w {
            ValueModel::List(l) => match spec_decode_rec_seq(fs, l) {
                Ok(rs) => Ok(FieldValueModel::RecList(rs)),
                Err(e) => Err(e),
            },
            _ => Err(ConversionError::MissingValue),
        },
    }
}

/// What decoding an attribute value at a full type means: an optional type
/// turns a missing value (or a missing field of a nested record) into the
/// absent native value, while invalid content still fails.
pub open spec fn spec_decode_value(t: TypeModel, w: ValueModel) -> Result<
    FieldValueModel,
    ConversionError,
>
    decreases t, 1int,
{
    if t.optional {
        match spec_decode_base(t.base, w) {
            Ok(v) => Ok(v),
            Err(ConversionError::MissingValue) => Ok(FieldValueModel::Nothing),
            Err(ConversionError::MissingField) => Ok(FieldValueModel::Nothing),
            Err(e) => Err(e),
        }
    } else {
        spec_decode_base(t.base, w)
    }
}

/// What decoding one field from a record means: no entry under the field's
/// name is a missing field; otherwise the entry's value is decoded at the
/// field's type.
///
/// A record entry must exist for every declared field, optional or not:
/// optionality tolerates an absent or wrongly shaped value under the
/// field's name, never an absent entry.  (Within a nested record a missing
/// field does collapse to the absent value when the nested record sits
/// under an optional field, since the optional rule catches every
/// absence-class failure of its base type.)
pub open spec fn spec_decode_field(f: FieldModel, m: Map<Seq<char>, ValueModel>) -> Result<
    FieldValueModel,
    ConversionError,
>
    decreases f, 2int,
{
    if !m.dom().contains(f.name) {
        Err(ConversionError::MissingField)
    } else {
        spec_decode_value(f.ty, m[f.name])
    }
}

/// What decoding a record means: each field in declaration order, the first
/// failure aborting the whole decode; entries under no declared name are
/// ignored.
pub open spec fn spec_decode_record(fs: Seq<FieldModel>, m: Map<Seq<char>, ValueModel>) -> Result<
    Seq<FieldValueModel>,
    ConversionError,
>
    decreases fs, 3int,
{
    if fs.len() == 0 {
        Ok(Seq::empty())
    } else {
        match spec_decode_record(fs.drop_last(), m) {
            Ok(vs) => match spec_decode_field(fs.last(), m) {
                Ok(v) => Ok(vs.push(v)),
                Err(e) => Err(e),
            },
            Err(e) => Err(e),
        }
    }
}

/// What decoding one element of a record list means: the element must be a
/// nested record, decoded at the list's schema.
pub open spec fn spec_decode_list_elem(fs: Seq<FieldModel>, w: ValueModel) -> Result<
    Seq<FieldValueModel>,
    ConversionError,
>
    decreases fs, 4int,
{
    match w {
        ValueModel::Rec(m) => spec_decode_record(fs, m),
        _ => Err(ConversionError::MissingValue),
    }
}

/// What decoding a record list means: every element in order, the first
/// failure aborting the whole list.
pub open spec fn spec_decode_rec_seq(fs: Seq<FieldModel>, l: Seq<ValueModel>) -> Result<
    Seq<Seq<FieldValueModel>>,
    ConversionError,
>
    decreases fs, 5int, l,
{
    if l.len() == 0 {
        Ok(Seq::empty())
    } else {
        match spec_decode_rec_seq(fs, l.drop_last()) {
            Ok(rs) => match spec_decode_list_elem(fs, l.last()) {
                Ok(vs) => Ok(rs.push(vs)),
                Err(e) => Err(e),
            },
            Err(e) => Err(e),
        }
    }
}

/// What encoding a native value at a base type means.
pub open spec fn spec_encode_base(b: BaseTypeModel, v: FieldValueModel) -> ValueModel
    decreases b, 0int,
{
    match b {
        BaseTypeModel::Str => match v {
            FieldValueModel::Str(s) => ValueModel::Str(s),
            _ => ValueModel::Absent,
        },
        BaseTypeModel::Num(nw) => match v {
            FieldValueModel::Num(n) => ValueModel::Num(spec_render_int(n as int)),
            _ => ValueModel::Absent,
        },
        BaseTypeModel::Bin => match v {
            FieldValueModel::Bin(bytes) => ValueModel::Bin(bytes),
            _ => ValueModel::Absent,
        },
        BaseTypeModel::Bool => match v {
            FieldValueModel::Bool(x) => ValueModel::Bool(x),
            _ => ValueModel::Absent,
        },
        BaseTypeModel::StrSet => match v {
            FieldValueModel::StrSet(ss) => ValueModel::StrSet(ss),
            _ => ValueModel::Absent,
        },
        BaseTypeModel::NumSet(nw) => match v {
            FieldValueModel::NumSet(ns) => ValueModel::NumSet(spec_render_num_seq(ns)),
            _ => ValueModel::Absent,
        },
        BaseTypeModel::BinSet => match v {
            FieldValueModel::BinSet(bs) => ValueModel::BinSet(bs),
            _ => ValueModel::Absent,
        },
        BaseTypeModel::NumList(nw) => match v {
            FieldValueModel::NumList(ns) => ValueModel::NumSet(spec_render_num_seq(ns)),
            _ => ValueModel::Absent,
        },
        BaseTypeModel::Rec(fs) => match v {
            FieldValueModel::Rec(vs) => ValueModel::Rec(spec_encode_record(fs, vs)),
            _ => ValueModel::Absent,
        },
        BaseTypeModel::RecList(fs) => match v {
            FieldValueModel::RecList(rs) => ValueModel::List(spec_encode_rec_seq(fs, rs)),
            _ => ValueModel::Absent,
        },
    }
}

/// What encoding a native value at a full type means: the absent value of an
/// optional field encodes as the absent attribute value.
pub open spec fn spec_encode_value(t: TypeModel, v: FieldValueModel) -> ValueModel
    decreases t, 1int,
{
    if t.optional && v is Nothing {
        ValueModel::Absent
    } else {
        spec_encode_base(t.base, v)
    }
}

/// What encoding a record means: one entry per field, in declaration order,
/// each under its field's name.
pub open spec fn spec_encode_record(fs: Seq<FieldModel>, vs: Seq<FieldValueModel>) -> Map<
    Seq<char>,
    ValueModel,
>
    decreases fs, 3int,
{
    if fs.len() == 0 {
        Map::empty()
    } else {
        spec_encode_record(fs.drop_last(), vs.drop_last()).insert(
            fs.last().name,
            spec_encode_value(fs.last().ty, vs.last()),
        )
    }
}

/// Decode one numeric text at width `w`.
pub fn parse_num(w: NumberType, s: &String) -> (r: Result<i64, ConversionError>)
    ensures
        r == spec_parse_num(w, s@),
{
    match crate::numbers::parse_i64(s) {
        Some(n) => {
            let fits = match w {
                NumberType::U16 => 0 <= n && n <= u16::MAX as i64,
                NumberType::U32 => 0 <= n && n <= u32::MAX as i64,
                NumberType::I32 => i32::MIN as i64 <= n && n <= i32::MAX as i64,
                NumberType::I64 => true,
            };
            if fits {
                Ok(n)
            } else {
                Err(ConversionError::InvalidValue)
            }
        },
        None => Err(ConversionError::InvalidValue),
    }
}

/// Whether some element of `v` equals `x`, compared as strings.
fn contains_string(v: &Vec<String>, x: &String) -> (r: bool)
    ensures
        r == v.deep_view().contains(x@),
{
    let mut i: usize = 0;
    while i < v.len()
        invariant
            i <= v@.len(),
            forall|j: int| 0 <= j < i ==> v.deep_view()[j] != x@,
        decreases v@.len() - i,
    {
        assert(v.deep_view()[i as int] == v@[i as int]@);
        if v[i] == *x {
            return true;
        }
        i = i + 1;
    }
    assert(forall|j: int| 0 <= j < v.deep_view().len() ==> v.deep_view()[j] != x@);
    false
}

/// Whether some element of `v` equals `x`.
fn contains_i64(v: &Vec<i64>, x: i64) -> (r: bool)
    ensures
        r == v@.contains(x),
{
    let mut i: usize = 0;
    while i < v.len()
        invariant
            i <= v@.len(),
            forall|j: int| 0 <= j < i ==> v@[j] != x,
        decreases v@.len() - i,
    {
        if v[i] == x {
            return true;
        }
        i = i + 1;
    }
    false
}

/// Whether two byte sequences hold the same bytes.
fn bytes_eq(a: &Vec<u8>, b: &Vec<u8>) -> (r: bool)
    ensures
        r == (a@ == b@),
{
    if a.len() != b.len() {
        return false;
    }
    let mut i: usize = 0;
    while i < a.len()
        invariant
            i <= a@.len(),
            a@.len() == b@.len(),
            forall|j: int| 0 <= j < i ==> a@[j] == b@[j],
        decreases a@.len() - i,
    {
        if a[i] != b[i] {
            return false;
        }
        i = i + 1;
    }
    proof {
        assert(a@ =~= b@);
    }
    true
}

/// Whether some element of `v` holds the same bytes as `x`.
fn contains_bytes(v: &Vec<Vec<u8>>, x: &Vec<u8>) -> (r: bool)
    ensures
        r == v.deep_view().contains(x@),
{
    let mut i: usize = 0;
    while i < v.len()
        invariant
            i <= v@.len(),
            forall|j: int| 0 <= j < i ==> v.deep_view()[j] != x@,
        decreases v@.len() - i,
    {
        assert(v.deep_view()[i as int] == v@[i as int]@);
        if bytes_eq(&v[i], x) {
            return true;
        }
        i = i + 1;
    }
    assert(forall|j: int| 0 <= j < v.deep_view().len() ==> v.deep_view()[j] != x@);
    false
}

/// Copy `v`, dropping every string already seen to its left.
fn dedup_strings(v: &Vec<String>) -> (r: Vec<String>)
    ensures
        r.deep_view() == dedup(v.deep_view()),
{
    let mut out: Vec<String> = Vec::new();
    let mut i: usize = 0;
    while i < v.len()
        invariant
            i <= v@.len(),
            out.deep_view() =~= dedup(v.deep_view().subrange(0, i as int)),
        decreases v@.len() - i,
    {
        proof {
            lemma_dedup_members(v.deep_view().subrange(0, i as int));
            assert(v.deep_view().subrange(0, i + 1).drop_last() =~= v.deep_view().subrange(
                0,
                i as int,
            ));
            assert(v.deep_view().subrange(0, i + 1).last() == v.deep_view()[i as int]);
        }
        let ghost pre = out.deep_view();
        assert(v.deep_view()[i as int] == v@[i as int]@);
        if !contains_string(&out, &v[i]) {
            let s = v[i].clone();
            out.push(s);
            proof {
                assert(out.deep_view() =~= pre.push(v.deep_view()[i as int]));
            }
        }
        i = i + 1;
    }
    proof {
        assert(v.deep_view().subrange(0, v@.len() as int) =~= v.deep_view());
    }
    out
}

/// Copy `v`, dropping every number already seen to its left.
fn dedup_i64s(v: &Vec<i64>) -> (r: Vec<i64>)
    ensures
        r@ == dedup(v@),
{
    let mut out: Vec<i64> = Vec::new();
    let mut i: usize = 0;
    while i < v.len()
        invariant
            i <= v@.len(),
            out@ =~= dedup(v@.subrange(0, i as int)),
        decreases v@.len() - i,
    {
        proof {
            lemma_dedup_members(v@.subrange(0, i as int));
            assert(v@.subrange(0, i + 1).drop_last() =~= v@.subrange(0, i as int));
            assert(v@.subrange(0, i + 1).last() == v@[i as int]);
        }
        if !contains_i64(&out, v[i]) {
            out.push(v[i]);
        }
        i = i + 1;
    }
    proof {
        assert(v@.subrange(0, v@.len() as int) =~= v@);
    }
    out
}

/// Copy `v`, dropping every byte sequence already seen to its left.
fn dedup_byte_seqs(v: &Vec<Vec<u8>>) -> (r: Vec<Vec<u8>>)
    ensures
        r.deep_view() == dedup(v.deep_view()),
{
    let mut out: Vec<Vec<u8>> = Vec::new();
    let mut i: usize = 0;
    while i < v.len()
        invariant
            i <= v@.len(),
            out.deep_view() =~= dedup(v.deep_view().subrange(0, i as int)),
        decreases v@.len() - i,
    {
        proof {
            lemma_dedup_members(v.deep_view().subrange(0, i as int));
            assert(v.deep_view().subrange(0, i + 1).drop_last() =~= v.deep_view().subrange(
                0,
                i as int,
            ));
            assert(v.deep_view().subrange(0, i + 1).last() == v.deep_view()[i as int]);
        }
        let ghost pre = out.deep_view();
        assert(v.deep_view()[i as int] == v@[i as int]@);
        if !contains_bytes(&out, &v[i]) {
            let b = clone_bytes(&v[i]);
            out.push(b);
            proof {
                assert(out.deep_view() =~= pre.push(v.deep_view()[i as int]));
            }
        }
        i = i + 1;
    }
    proof {
        assert(v.deep_view().subrange(0, v@.len() as int) =~= v.deep_view());
    }
    out
}

/// Copy a byte sequence.
fn clone_bytes(v: &Vec<u8>) -> (r: Vec<u8>)
    ensures
        r@ == v@,
{
    let mut out: Vec<u8> = Vec::new();
    let mut i: usize = 0;
    while i < v.len()
        invariant
            i <= v@.len(),
            out@ =~= v@.subrange(0, i as int),
        decreases v@.len() - i,
    {
        out.push(v[i]);
        proof {
            assert(out@ =~= v@.subrange(0, i + 1));
        }
        i = i + 1;
    }
    proof {
        assert(out@ =~= v@);
    }
    out
}

/// Decode every element of a numeric set or list at width `w`.
fn parse_num_vec(w: NumberType, ss: &Vec<String>) -> (r: Result<Vec<i64>, ConversionError>)
    ensures
        match r {
            Ok(ns) => spec_parse_num_seq(w, ss.deep_view()) == Ok::<_, ConversionError>(ns@),
            Err(e) => spec_parse_num_seq(w, ss.deep_view()) == Err::<Seq<i64>, _>(e),
        },
{
    let mut out: Vec<i64> = Vec::new();
    let mut i: usize = 0;
    while i < ss.len()
        invariant
            i <= ss@.len(),
            spec_parse_num_seq(w, ss.deep_view().subrange(0, i as int)) == Ok::<
                _,
                ConversionError,
            >(out@),
        decreases ss@.len() - i,
    {
        proof {
            assert(ss.deep_view().subrange(0, i + 1).drop_last() =~= ss.deep_view().subrange(
                0,
                i as int,
            ));
            assert(ss.deep_view().subrange(0, i + 1).last() == ss.deep_view()[i as int]);
        }
        match parse_num(w, &ss[i]) {
            Ok(n) => {
                out.push(n);
            },
            Err(e) => {
                proof {
                    lemma_parse_num_seq_prefix_error(w, ss.deep_view(), i + 1);
                }
                return Err(e);
            },
        }
        i = i + 1;
    }
    proof {
        assert(ss.deep_view().subrange(0, ss@.len() as int) =~= ss.deep_view());
    }
    Ok(out)
}

/// A failing prefix fails the whole numeric sequence with the same error.
proof fn lemma_parse_num_seq_prefix_error(w: NumberType, ss: Seq<Seq<char>>, j: int)
    requires
        0 <= j <= ss.len(),
        spec_parse_num_seq(w, ss.subrange(0, j)) is Err,
    ensures
        spec_parse_num_seq(w, ss) == spec_parse_num_seq(w, ss.subrange(0, j)),
    decreases ss.len() - j,
{
    if j < ss.len() {
        assert(ss.subrange(0, j + 1).drop_last() =~= ss.subrange(0, j));
        lemma_parse_num_seq_prefix_error(w, ss, j + 1);
    } else {
        assert(ss.subrange(0, j) =~= ss);
    }
}

/// What encoding a record list means: each record wrapped as a nested
/// record value, in order.
pub open spec fn spec_encode_rec_seq(fs: Seq<FieldModel>, rs: Seq<Seq<FieldValueModel>>) -> Seq<
    ValueModel,
>
    decreases fs, 5int, rs,
{
    if rs.len() == 0 {
        Seq::empty()
    } else {
        spec_encode_rec_seq(fs, rs.drop_last()).push(
            ValueModel::Rec(spec_encode_record(fs, rs.last())),
        )
    }
}


/// A failing prefix fails the whole record decode with the same error.
pub proof fn lemma_decode_record_prefix_error(
    fs: Seq<FieldModel>,
    m: Map<Seq<char>, ValueModel>,
    j: int,
)
    requires
        0 <= j <= fs.len(),
        spec_decode_record(fs.subrange(0, j), m) is Err,
    ensures
        spec_decode_record(fs, m) == spec_decode_record(fs.subrange(0, j), m),
    decreases fs.len() - j,
{
    if j < fs.len() {
        assert(fs.subrange(0, j + 1).drop_last() =~= fs.subrange(0, j));
        lemma_decode_record_prefix_error(fs, m, j + 1);
    } else {
        assert(fs.subrange(0, j) =~= fs);
    }
}

/// A failing prefix fails the whole record-list decode with the same error.
pub proof fn lemma_decode_rec_seq_prefix_error(fs: Seq<FieldModel>, l: Seq<ValueModel>, j: int)
    requires
        0 <= j <= l.len(),
        spec_decode_rec_seq(fs, l.subrange(0, j)) is Err,
    ensures
        spec_decode_rec_seq(fs, l) == spec_decode_rec_seq(fs, l.subrange(0, j)),
    decreases l.len() - j,
{
    if j < l.len() {
        assert(l.subrange(0, j + 1).drop_last() =~= l.subrange(0, j));
        lemma_decode_rec_seq_prefix_error(fs, l, j + 1);
    } else {
        assert(l.subrange(0, j) =~= l);
    }
}

/// Decode an attribute value at a full type, consuming the value.
pub fn decode_value(t: &AttributeType, w: AttributeValue) -> (r: Result<
    FieldValue,
    ConversionError,
>)
    requires
        type_wf(t@),
        value_wf(w),
    ensures
        match r {
            Ok(v) => spec_decode_value(t@, w@) == Ok::<_, ConversionError>(field_value_model(v)),
            Err(e) => spec_decode_value(t@, w@) == Err::<FieldValueModel, _>(e),
        },
    decreases *t, 1int, 0int,
{
    if t.optional {
        match decode_base(&t.base, w) {
            Ok(v) => Ok(v),
            Err(e) => match e {
                ConversionError::MissingValue => Ok(FieldValue::Nothing),
                ConversionError::MissingField => Ok(FieldValue::Nothing),
                ConversionError::InvalidValue => Err(ConversionError::InvalidValue),
            },
        }
    } else {
        decode_base(&t.base, w)
    }
}

/// Decode an attribute value at a base type, consuming the value.
pub fn decode_base(b: &BaseAttributeType, w: AttributeValue) -> (r: Result<
    FieldValue,
    ConversionError,
>)
    requires
        base_type_wf(b@),
        value_wf(w),
    ensures
        match r {
            Ok(v) => spec_decode_base(b@, w@) == Ok::<_, ConversionError>(field_value_model(v)),
            Err(e) => spec_decode_base(b@, w@) == Err::<FieldValueModel, _>(e),
        },
    decreases *b, 0int, 0int,
{
    match b {
        BaseAttributeType::Str => match w {
            AttributeValue::Str(s) => Ok(FieldValue::Str(s)),
            _ => Err(ConversionError::MissingValue),
        },
        BaseAttributeType::Num(nw) => match w {
            AttributeValue::Num(s) => match parse_num(*nw, &s) {
                Ok(n) => Ok(FieldValue::Num(n)),
                Err(e) => Err(e),
            },
            _ => Err(ConversionError::MissingValue),
        },
        BaseAttributeType::Bin => match w {
            AttributeValue::Bin(bytes) => Ok(FieldValue::Bin(bytes)),
            _ => Err(ConversionError::MissingValue),
        },
        BaseAttributeType::Bool => match w {
            AttributeValue::Bool(x) => Ok(FieldValue::Bool(x)),
            _ => Err(ConversionError::MissingValue),
        },
        BaseAttributeType::StrSet => match w {
            AttributeValue::StrSet(ss) => Ok(FieldValue::StrSet(dedup_strings(&ss))),
            _ => Err(ConversionError::MissingValue),
        },
        BaseAttributeType::NumSet(nw) => match w {
            AttributeValue::NumSet(ss) => match parse_num_vec(*nw, &ss) {
                Ok(ns) => Ok(FieldValue::NumSet(dedup_i64s(&ns))),
                Err(e) => Err(e),
            },
            _ => Err(ConversionError::MissingValue),
        },
        BaseAttributeType::BinSet => match w {
            AttributeValue::BinSet(bs) => Ok(FieldValue::BinSet(dedup_byte_seqs(&bs))),
            _ => Err(ConversionError::MissingValue),
        },
        BaseAttributeType::NumList(nw) => match w {
            AttributeValue::NumSet(ss) => match parse_num_vec(*nw, &ss) {
                Ok(ns) => Ok(FieldValue::NumList(ns)),
                Err(e) => Err(e),
            },
            _ => Err(ConversionError::MissingValue),
        },
        BaseAttributeType::Rec(schema) => match w {
            AttributeValue::Rec(m) => match decode_record(schema, m) {
                Ok(rec) => Ok(FieldValue::Rec(rec)),
                Err(e) => Err(e),
            },
            _ => Err(ConversionError::MissingValue),
        },
        BaseAttributeType::RecList(schema) => match w {
            AttributeValue::List(l) => match decode_rec_list(schema, l) {
                Ok(recs) => Ok(FieldValue::RecList(recs)),
                Err(e) => Err(e),
            },
            _ => Err(ConversionError::MissingValue),
        },
    }
}

/// Decode a record against a schema, draining the consumed map: each field
/// in declaration order, the first failure aborting the decode, entries
/// under no declared name ignored.
pub fn decode_record(schema: &ItemSchema, m: AttributeMap) -> (r: Result<
    TypedRecord,
    ConversionError,
>)
    requires
        schema_wf(schema@),
        m.wf(),
    ensures
        match r {
            Ok(rec) => spec_decode_record(schema@, m@) == Ok::<_, ConversionError>(rec@),
            Err(e) => spec_decode_record(schema@, m@) == Err::<Seq<FieldValueModel>, _>(e),
        },
    decreases *schema, 3int, 0int,
{
    proof {
        crate::schema::lemma_seq_field_model_index(schema.fields@);
    }
    let ghost worig = m@;
    let mut mm = m;
    let mut out: Vec<FieldValue> = Vec::new();
    let n = schema.fields.len();
    let mut i: usize = 0;
    while i < n
        invariant
            n == schema.fields@.len(),
            schema@.len() == n,
            i <= n,
            worig == m@,
            schema_wf(schema@),
            forall|j: int|
                0 <= j < n ==> #[trigger] schema@[j] == crate::schema::field_model(
                    schema.fields@[j],
                ),
            mm.wf(),
            out@.len() == i,
            spec_decode_record(schema@.subrange(0, i as int), worig) == Ok::<
                _,
                ConversionError,
            >(record_model(out@)),
            forall|k: Seq<char>| #[trigger]
                mm@.dom().contains(k) ==> worig.dom().contains(k) && mm@[k] == worig[k],
            forall|j: int|
                i <= j < n ==> #[trigger] mm@.dom().contains(schema@[j].name)
                    == worig.dom().contains(schema@[j].name),
        decreases n - i,
    {
        proof {
            assert(schema@.subrange(0, i + 1).drop_last() =~= schema@.subrange(0, i as int));
            assert(schema@.subrange(0, i + 1).last() == schema@[i as int]);
        }
        let ghost pre = mm@;
        let ghost preout = out@;
        let fd = &schema.fields[i];
        match mm.remove(&fd.name) {
            None => {
                proof {
                    assert(schema@[i as int].name == fd.name@);
                    assert(!worig.dom().contains(fd.name@));
                    assert(spec_decode_field(schema@[i as int], worig) == Err::<
                        FieldValueModel,
                        _,
                    >(ConversionError::MissingField));
                    assert(spec_decode_record(schema@.subrange(0, i + 1), worig) == Err::<
                        Seq<FieldValueModel>,
                        _,
                    >(ConversionError::MissingField));
                    lemma_decode_record_prefix_error(schema@, worig, i + 1);
                }
                return Err(ConversionError::MissingField);
            },
            Some(v) => {
                match decode_value(&fd.ty, v) {
                    Ok(fv) => {
                        out.push(fv);
                        proof {
                            assert(out@.drop_last() =~= preout);
                            assert(record_model(out@) == record_model(preout).push(
                                field_value_model(out@.last()),
                            ));
                            assert forall|j: int|
                                i + 1 <= j < n implies #[trigger] mm@.dom().contains(
                                schema@[j].name,
                            ) == worig.dom().contains(schema@[j].name) by {
                                assert(schema@[j].name != schema@[i as int].name);
                            }
                        }
                    },
                    Err(e) => {
                        proof {
                            assert(schema@[i as int].name == fd.name@);
                            assert(pre.dom().contains(fd.name@));
                            assert(pre[fd.name@] == worig[fd.name@]);
                            assert(spec_decode_field(schema@[i as int], worig) == Err::<
                                FieldValueModel,
                                _,
                            >(e));
                            assert(spec_decode_record(schema@.subrange(0, i + 1), worig)
                                == Err::<Seq<FieldValueModel>, _>(e));
                            lemma_decode_record_prefix_error(schema@, worig, i + 1);
                        }
                        return Err(e);
                    },
                }
            },
        }
        i = i + 1;
    }
    proof {
        assert(schema@.subrange(0, n as int) =~= schema@);
    }
    Ok(TypedRecord { values: out })
}

/// Decode a list of nested records against one schema, consuming the list:
/// every element in order, the first failure aborting the whole list.
pub fn decode_rec_list(schema: &ItemSchema, l: Vec<AttributeValue>) -> (r: Result<
    Vec<TypedRecord>,
    ConversionError,
>)
    requires
        schema_wf(schema@),
        seq_value_wf(l@),
    ensures
        match r {
            Ok(recs) => spec_decode_rec_seq(schema@, seq_value_model(l@)) == Ok::<
                _,
                ConversionError,
            >(seq_record_model(recs@)),
            Err(e) => spec_decode_rec_seq(schema@, seq_value_model(l@)) == Err::<
                Seq<Seq<FieldValueModel>>,
                _,
            >(e),
        },
    decreases *schema, 5int, 0int,
{
    let ghost wl = seq_value_model(l@);
    proof {
        crate::attributes::lemma_seq_value_model_index(l@);
        crate::attributes::lemma_seq_value_wf_iff(l@);
    }
    let mut rest = l;
    let mut out: Vec<TypedRecord> = Vec::new();
    while rest.len() > 0
        invariant
            schema_wf(schema@),
            wl == seq_value_model(l@),
            out@.len() + rest@.len() == wl.len(),
            forall|j: int|
                0 <= j < rest@.len() ==> #[trigger] value_model(rest@[j]) == wl[
                    j + out@.len()
                ] && value_wf(rest@[j]),
            spec_decode_rec_seq(schema@, wl.subrange(0, out@.len() as int)) == Ok::<
                _,
                ConversionError,
            >(seq_record_model(out@)),
        decreases rest@.len(),
    {
        let ghost idx = out@.len() as int;
        let ghost preout = out@;
        let ghost prerest = rest@;
        proof {
            assert(wl.subrange(0, idx + 1).drop_last() =~= wl.subrange(0, idx));
            assert(wl.subrange(0, idx + 1).last() == wl[idx]);
            assert(value_model(rest@[0]) == wl[idx]);
        }
        let elem = rest.remove(0);
        match elem {
            AttributeValue::Rec(m) => {
                match decode_record(schema, m) {
                    Ok(rec) => {
                        out.push(rec);
                        proof {
                            assert(out@.drop_last() =~= preout);
                            assert(seq_record_model(out@) == seq_record_model(preout).push(
                                record_model(out@.last().values@),
                            ));
                        }
                    },
                    Err(e) => {
                        proof {
                            assert(spec_decode_list_elem(schema@, wl[idx]) == Err::<
                                Seq<FieldValueModel>,
                                _,
                            >(e));
                            assert(spec_decode_rec_seq(schema@, wl.subrange(0, idx + 1))
                                == Err::<Seq<Seq<FieldValueModel>>, _>(e));
                            lemma_decode_rec_seq_prefix_error(schema@, wl, idx + 1);
                        }
                        return Err(e);
                    },
                }
            },
            _ => {
                proof {
                    assert(spec_decode_list_elem(schema@, wl[idx]) == Err::<
                        Seq<FieldValueModel>,
                        _,
                    >(ConversionError::MissingValue));
                    assert(spec_decode_rec_seq(schema@, wl.subrange(0, idx + 1)) == Err::<
                        Seq<Seq<FieldValueModel>>,
                        _,
                    >(ConversionError::MissingValue));
                    lemma_decode_rec_seq_prefix_error(schema@, wl, idx + 1);
                }
                return Err(ConversionError::MissingValue);
            },
        }
    }
    proof {
        assert(wl.subrange(0, out@.len() as int) =~= wl);
    }
    Ok(out)
}


/// Copy a vector of strings.
fn clone_strings(v: &Vec<String>) -> (r: Vec<String>)
    ensures
        r.deep_view() == v.deep_view(),
{
    let mut out: Vec<String> = Vec::new();
    let mut i: usize = 0;
    while i < v.len()
        invariant
            i <= v@.len(),
            out.deep_view() =~= v.deep_view().subrange(0, i as int),
        decreases v@.len() - i,
    {
        let ghost pre = out.deep_view();
        out.push(v[i].clone());
        proof {
            assert(out.deep_view() =~= pre.push(v.deep_view()[i as int]));
            assert(out.deep_view() =~= v.deep_view().subrange(0, i + 1));
        }
        i = i + 1;
    }
    proof {
        assert(v.deep_view().subrange(0, v@.len() as int) =~= v.deep_view());
    }
    out
}

/// Copy a vector of byte sequences.
fn clone_byte_seqs(v: &Vec<Vec<u8>>) -> (r: Vec<Vec<u8>>)
    ensures
        r.deep_view() == v.deep_view(),
{
    let mut out: Vec<Vec<u8>> = Vec::new();
    let mut i: usize = 0;
    while i < v.len()
        invariant
            i <= v@.len(),
            out.deep_view() =~= v.deep_view().subrange(0, i as int),
        decreases v@.len() - i,
    {
        let ghost pre = out.deep_view();
        out.push(clone_bytes(&v[i]));
        proof {
            assert(out.deep_view() =~= pre.push(v.deep_view()[i as int]));
            assert(out.deep_view() =~= v.deep_view().subrange(0, i + 1));
        }
        i = i + 1;
    }
    proof {
        assert(v.deep_view().subrange(0, v@.len() as int) =~= v.deep_view());
    }
    out
}

/// Render every number of a numeric set or list as decimal text.
fn render_num_vec(ns: &Vec<i64>) -> (r: Vec<String>)
    ensures
        r.deep_view() == spec_render_num_seq(ns@),
{
    let mut out: Vec<String> = Vec::new();
    let mut i: usize = 0;
    while i < ns.len()
        invariant
            i <= ns@.len(),
            out.deep_view() =~= spec_render_num_seq(ns@).subrange(0, i as int),
        decreases ns@.len() - i,
    {
        let ghost pre = out.deep_view();
        out.push(crate::numbers::render_i64(ns[i]));
        proof {
            assert(out.deep_view() =~= pre.push(spec_render_num_seq(ns@)[i as int]));
            assert(out.deep_view() =~= spec_render_num_seq(ns@).subrange(0, i + 1));
        }
        i = i + 1;
    }
    proof {
        assert(spec_render_num_seq(ns@).subrange(0, ns@.len() as int) =~= spec_render_num_seq(
            ns@,
        ));
    }
    out
}

/// Encode a native value at a base type.
pub fn encode_base(b: &BaseAttributeType, v: &FieldValue) -> (r: AttributeValue)
    requires
        base_type_wf(b@),
        crate::typed::base_conforms(b@, v@),
    ensures
        value_model(r) == spec_encode_base(b@, v@),
        value_wf(r),
    decreases *b, 0int, 0int,
{
    match b {
        BaseAttributeType::Str => match v {
            FieldValue::Str(x) => AttributeValue::Str(x.clone()),
            _ => vstd::pervasive::unreached(),
        },
        BaseAttributeType::Num(nw) => match v {
            FieldValue::Num(n) => AttributeValue::Num(crate::numbers::render_i64(*n)),
            _ => vstd::pervasive::unreached(),
        },
        BaseAttributeType::Bin => match v {
            FieldValue::Bin(bytes) => AttributeValue::Bin(clone_bytes(bytes)),
            _ => vstd::pervasive::unreached(),
        },
        BaseAttributeType::Bool => match v {
            FieldValue::Bool(x) => AttributeValue::Bool(*x),
            _ => vstd::pervasive::unreached(),
        },
        BaseAttributeType::StrSet => match v {
            FieldValue::StrSet(ss) => AttributeValue::StrSet(clone_strings(ss)),
            _ => vstd::pervasive::unreached(),
        },
        BaseAttributeType::NumSet(nw) => match v {
            FieldValue::NumSet(ns) => AttributeValue::NumSet(render_num_vec(ns)),
            _ => vstd::pervasive::unreached(),
        },
        BaseAttributeType::BinSet => match v {
            FieldValue::BinSet(bs) => AttributeValue::BinSet(clone_byte_seqs(bs)),
            _ => vstd::pervasive::unreached(),
        },
        BaseAttributeType::NumList(nw) => match v {
            FieldValue::NumList(ns) => AttributeValue::NumSet(render_num_vec(ns)),
            _ => vstd::pervasive::unreached(),
        },
        BaseAttributeType::Rec(schema) => match v {
            FieldValue::Rec(rec) => AttributeValue::Rec(encode_record_ref(schema, rec)),
            _ => vstd::pervasive::unreached(),
        },
        BaseAttributeType::RecList(schema) => match v {
            FieldValue::RecList(recs) => {
                let mut out: Vec<AttributeValue> = Vec::new();
                let ghost rsm = seq_record_model(recs@);
                proof {
                    crate::typed::lemma_seq_record_model_index(recs@);
                }
                let mut i: usize = 0;
                while i < recs.len()
                    invariant
                        i <= recs@.len(),
                        *b == BaseAttributeType::RecList(*schema),
                        rsm == seq_record_model(recs@),
                        rsm.len() == recs@.len(),
                        schema_wf(schema@),
                        forall|j: int|
                            0 <= j < recs@.len() ==> #[trigger] rsm[j] == record_model(
                                recs@[j].values@,
                            ) && record_conforms(schema@, rsm[j]),
                        seq_value_model(out@) =~= spec_encode_rec_seq(
                            schema@,
                            rsm.subrange(0, i as int),
                        ),
                        seq_value_wf(out@),
                        out@.len() == i,
                    decreases recs@.len() - i,
                {
                    let ghost preout = out@;
                    proof {
                        assert(rsm[i as int] == record_model(recs@[i as int].values@));
                        assert(record_conforms(schema@, rsm[i as int]));
                        assert(decreases_to!(*b => (*b)->RecList_0));
                        assert((*b)->RecList_0 == *schema);
                        assert(decreases_to!(*b => *schema));
                    }
                    let enc = encode_record_ref(schema, &recs[i]);
                    out.push(AttributeValue::Rec(enc));
                    proof {
                        assert(out@.drop_last() =~= preout);
                        assert(value_wf(out@.last()));
                        assert(seq_value_wf(out@));
                        assert(seq_value_model(out@) == seq_value_model(preout).push(
                            value_model(out@.last()),
                        ));
                        assert(rsm.subrange(0, i + 1).drop_last() =~= rsm.subrange(
                            0,
                            i as int,
                        ));
                        assert(rsm.subrange(0, i + 1).last() == rsm[i as int]);
                    }
                    i = i + 1;
                }
                proof {
                    assert(rsm.subrange(0, recs@.len() as int) =~= rsm);
                }
                AttributeValue::List(out)
            },
            _ => vstd::pervasive::unreached(),
        },
    }
}

/// Encode a native value at a full type: the absent value of an optional
/// field encodes as the absent attribute value.
pub fn encode_value(t: &AttributeType, v: &FieldValue) -> (r: AttributeValue)
    requires
        type_wf(t@),
        crate::typed::value_conforms(t@, v@),
    ensures
        value_model(r) == spec_encode_value(t@, v@),
        value_wf(r),
    decreases *t, 1int, 0int,
{
    if t.optional {
        match v {
            FieldValue::Nothing => AttributeValue::Absent,
            _ => encode_base(&t.base, v),
        }
    } else {
        encode_base(&t.base, v)
    }
}

/// Encode a borrowed record against a schema into a fresh attribute map.
pub fn encode_record_ref(schema: &ItemSchema, rec: &TypedRecord) -> (r: AttributeMap)
    requires
        schema_wf(schema@),
        record_conforms(schema@, rec@),
    ensures
        r@ == spec_encode_record(schema@, rec@),
        r.wf(),
    decreases *schema, 3int, 0int,
{
    proof {
        crate::schema::lemma_seq_field_model_index(schema.fields@);
        crate::typed::lemma_record_model_index(rec.values@);
    }
    let ghost vsm = rec@;
    let mut out = AttributeMap::new();
    let n = schema.fields.len();
    let mut i: usize = 0;
    while i < n
        invariant
            n == schema.fields@.len(),
            schema@.len() == n,
            vsm == rec@,
            vsm.len() == n,
            rec.values@.len() == n,
            i <= n,
            schema_wf(schema@),
            record_conforms(schema@, vsm),
            forall|j: int|
                0 <= j < n ==> #[trigger] schema@[j] == crate::schema::field_model(
                    schema.fields@[j],
                ),
            forall|j: int|
                0 <= j < n ==> #[trigger] vsm[j] == crate::typed::field_value_model(
                    rec.values@[j],
                ),
            out.wf(),
            out@ =~= spec_encode_record(schema@.subrange(0, i as int), vsm.subrange(0, i as int)),
        decreases n - i,
    {
        let fd = &schema.fields[i];
        proof {
            assert(schema@[i as int] == crate::schema::field_model(schema.fields@[i as int]));
            assert(type_wf(schema@[i as int].ty));
            assert(crate::typed::value_conforms(schema@[i as int].ty, vsm[i as int]));
            assert(vsm[i as int] == crate::typed::field_value_model(rec.values@[i as int]));
        }
        let name = fd.name.clone();
        let val = encode_value(&fd.ty, &rec.values[i]);
        out.insert(name, val);
        proof {
            assert(schema@.subrange(0, i + 1).drop_last() =~= schema@.subrange(0, i as int));
            assert(vsm.subrange(0, i + 1).drop_last() =~= vsm.subrange(0, i as int));
            assert(schema@.subrange(0, i + 1).last() == schema@[i as int]);
            assert(vsm.subrange(0, i + 1).last() == vsm[i as int]);
            assert(out@ =~= spec_encode_record(
                schema@.subrange(0, i + 1),
                vsm.subrange(0, i + 1),
            ));
        }
        i = i + 1;
    }
    proof {
        assert(schema@.subrange(0, n as int) =~= schema@);
        assert(vsm.subrange(0, n as int) =~= vsm);
    }
    out
}

/// Encode a record against a schema, consuming it: one entry per field, in
/// declaration order, each under its field's name.
pub fn encode_record(schema: &ItemSchema, rec: TypedRecord) -> (r: AttributeMap)
    requires
        schema_wf(schema@),
        record_conforms(schema@, rec@),
    ensures
        r@ == spec_encode_record(schema@, rec@),
        r.wf(),
{
    encode_record_ref(schema, &rec)
}

} // verus!
