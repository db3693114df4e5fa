//! The tagged-union attribute values of the document store, and the records
//! (name-to-value mappings) built from them.
//!
//! An [`AttributeValue`] populates exactly one variant; [`AttributeValue::Absent`]
//! stands for "no value was set" and is distinct from an explicitly empty
//! collection.  An [`AttributeMap`] is a mapping from field name to attribute
//! value with unique names; its mathematical model is a `Map<Seq<char>, ValueModel>`,
//! so that contracts do not depend on entry order.

use vstd::prelude::*;

verus! {

/// One stored value: a tagged union over the wire variants of the store.
#[derive(Debug, PartialEq)]
pub enum AttributeValue {
    /// A string scalar.
    Str(String),
    /// A number, carried as decimal text.
    Num(String),
    /// A binary blob.
    Bin(Vec<u8>),
    /// A boolean.
    Bool(bool),
    /// A set of strings.
    StrSet(Vec<String>),
    /// A set of numbers, each carried as decimal text.
    NumSet(Vec<String>),
    /// A set of binary blobs.
    BinSet(Vec<Vec<u8>>),
    /// An ordered list of nested values.
    List(Vec<AttributeValue>),
    /// A nested record.
    Rec(AttributeMap),
    /// No variant is populated.
    Absent,
}

/// A record: a mapping from field name to attribute value.
///
/// Names are unique (see [`AttributeMap::wf`]); the insertion order of the
/// entries is irrelevant to the model.
#[derive(Debug, PartialEq)]
pub struct AttributeMap {
    /// The entries, in insertion order; [`AttributeMap::wf`] keeps names unique.
    pub entries: Vec<(String, AttributeValue)>,
}

/// The mathematical model of an [`AttributeValue`].
pub enum ValueModel {
    Str(Seq<char>),
    Num(Seq<char>),
    Bin(Seq<u8>),
    Bool(bool),
    StrSet(Seq<Seq<char>>),
    NumSet(Seq<Seq<char>>),
    BinSet(Seq<Seq<u8>>),
    List(Seq<ValueModel>),
    Rec(Map<Seq<char>, ValueModel>),
    Absent,
}

/// The model of an attribute value.
pub open spec fn value_model(v: AttributeValue) -> ValueModel
    decreases v,
{
    match v {
        AttributeValue::Str(s) => ValueModel::Str(s@),
        AttributeValue::Num(s) => ValueModel::Num(s@),
        AttributeValue::Bin(b) => ValueModel::Bin(b@),
        AttributeValue::Bool(b) => ValueModel::Bool(b),
        AttributeValue::StrSet(ss) => ValueModel::StrSet(ss.deep_view()),
        AttributeValue::NumSet(ns) => ValueModel::NumSet(ns.deep_view()),
        AttributeValue::BinSet(bs) => ValueModel::BinSet(bs.deep_view()),
        AttributeValue::List(l) => ValueModel::List(seq_value_model(l@)),
        AttributeValue::Rec(m) => ValueModel::Rec(entries_model(m.entries@)),
        AttributeValue::Absent => ValueModel::Absent,
    }
}

/// The elementwise model of a sequence of attribute values.
pub open spec fn seq_value_model(s: Seq<AttributeValue>) -> Seq<ValueModel>
    decreases s,
{
    if s.len() == 0 {
        Seq::empty()
    } else {
        seq_value_model(s.drop_last()).push(value_model(s.last()))
    }
}

/// The model of a sequence of record entries: later entries shadow earlier
/// ones, which is irrelevant under [`entries_wf`].
pub open spec fn entries_model(s: Seq<(String, AttributeValue)>) -> Map<Seq<char>, ValueModel>
    decreases s,
{
    if s.len() == 0 {
        Map::empty()
    } else {
        entries_model(s.drop_last()).insert(s.last().0@, value_model(s.last().1))
    }
}

/// Well-formedness of record entries: names are unique and every nested
/// record is itself well-formed.
pub open spec fn entries_wf(s: Seq<(String, AttributeValue)>) -> bool
    decreases s,
{
    if s.len() == 0 {
        true
    } else {
        entries_wf(s.drop_last()) && value_wf(s.last().1)
            && !entries_model(s.drop_last()).dom().contains(s.last().0@)
    }
}

/// Well-formedness of an attribute value: every record nested in it has
/// unique names.
pub open spec fn value_wf(v: AttributeValue) -> bool
    decreases v,
{
    match v {
        AttributeValue::List(l) => seq_value_wf(l@),
        AttributeValue::Rec(m) => entries_wf(m.entries@),
        _ => true,
    }
}

/// Elementwise well-formedness of a sequence of attribute values.
pub open spec fn seq_value_wf(s: Seq<AttributeValue>) -> bool
    decreases s,
{
    if s.len() == 0 {
        true
    } else {
        seq_value_wf(s.drop_last()) && value_wf(s.last())
    }
}

impl View for AttributeValue {
    type V = ValueModel;

    open spec fn view(&self) -> ValueModel {
        value_model(*self)
    }
}

impl View for AttributeMap {
    type V = Map<Seq<char>, ValueModel>;

    open spec fn view(&self) -> Map<Seq<char>, ValueModel> {
        entries_model(self.entries@)
    }
}

impl AttributeMap {
    /// Unique field names, and well-formed nested records.
    pub open spec fn wf(&self) -> bool {
        entries_wf(self.entries@)
    }

    /// The empty record.
    pub fn new() -> (r: AttributeMap)
        ensures
            r@ == Map::<Seq<char>, ValueModel>::empty(),
            r.wf(),
    {
        AttributeMap { entries: Vec::new() }
    }

    /// Whether an entry under `name` exists.
    pub fn contains_key(&self, name: &String) -> (r: bool)
        ensures
            r == self@.dom().contains(name@),
    {
        let n = self.entries.len();
        let mut i: usize = 0;
        while i < n
            invariant
                n == self.entries@.len(),
                i <= n,
                forall|j: int| 0 <= j < i ==> self.entries@[j].0@ != name@,
            decreases n - i,
        {
            if self.entries[i].0 == *name {
                proof {
                    lemma_entries_model_contains(self.entries@, i as int);
                }
                return true;
            }
            i = i + 1;
        }
        proof {
            lemma_entries_model_absent(self.entries@, name@);
        }
        false
    }

    /// A borrow of the value stored under `name`, if any.
    pub fn get(&self, name: &String) -> (r: Option<&AttributeValue>)
        requires
            self.wf(),
        ensures
            match r {
                Some(v) => {
                    &&& self@.dom().contains(name@)
                    &&& v@ == self@[name@]
                    &&& value_wf(*v)
                },
                None => !self@.dom().contains(name@),
            },
    {
        let n = self.entries.len();
        let mut i: usize = 0;
        while i < n
            invariant
                n == self.entries@.len(),
                i <= n,
                self.wf(),
                forall|j: int| 0 <= j < i ==> self.entries@[j].0@ != name@,
            decreases n - i,
        {
            if self.entries[i].0 == *name {
                proof {
                    lemma_entries_model_index(self.entries@, i as int);
                }
                return Some(&self.entries[i].1);
            }
            i = i + 1;
        }
        proof {
            lemma_entries_model_absent(self.entries@, name@);
        }
        None
    }

    /// Insert `v` under `name`, replacing any earlier value under that name.
    pub fn insert(&mut self, name: String, v: AttributeValue)
        requires
            old(self).wf(),
            value_wf(v),
        ensures
            final(self).wf(),
            final(self)@ == old(self)@.insert(name@, v@),
    {
        let n = self.entries.len();
        let mut i: usize = 0;
        while i < n
            invariant
                n == self.entries@.len(),
                i <= n,
                *self == *old(self),
                self.wf(),
                value_wf(v),
                forall|j: int| 0 <= j < i ==> self.entries@[j].0@ != name@,
            decreases n - i,
        {
            if self.entries[i].0 == name {
                proof {
                    lemma_entries_model_update(self.entries@, i as int, (name, v));
                }
                self.entries.set(i, (name, v));
                return ;
            }
            i = i + 1;
        }
        proof {
            lemma_entries_model_absent(self.entries@, name@);
            lemma_entries_model_push(self.entries@, (name, v));
        }
        self.entries.push((name, v));
    }

    /// Remove and return the value stored under `name`, if any; the record is
    /// unchanged when no entry carries `name`.
    pub fn remove(&mut self, name: &String) -> (r: Option<AttributeValue>)
        requires
            old(self).wf(),
        ensures
            final(self).wf(),
            match r {
                Some(v) => {
                    &&& old(self)@.dom().contains(name@)
                    &&& v@ == old(self)@[name@]
                    &&& value_wf(v)
                    &&& final(self)@ == old(self)@.remove(name@)
                },
                None => {
                    &&& !old(self)@.dom().contains(name@)
                    &&& *final(self) == *old(self)
                },
            },
    {
        let n = self.entries.len();
        let mut i: usize = 0;
        while i < n
            invariant
                n == self.entries@.len(),
                i <= n,
                *self == *old(self),
                self.wf(),
                forall|j: int| 0 <= j < i ==> self.entries@[j].0@ != name@,
            decreases n - i,
        {
            if self.entries[i].0 == *name {
                proof {
                    lemma_entries_model_index(self.entries@, i as int);
                    lemma_entries_model_remove(self.entries@, i as int);
                }
                let pair = self.entries.remove(i);
                return Some(pair.1);
            }
            i = i + 1;
        }
        proof {
            lemma_entries_model_absent(self.entries@, name@);
        }
        None
    }

    /// The number of entries.
    pub fn len(&self) -> (r: usize)
        requires
            self.wf(),
        ensures
            r == self@.dom().len(),
    {
        proof {
            lemma_entries_model_dom_len(self.entries@);
        }
        self.entries.len()
    }
}

/// The modelled value sequence is the sequence of modelled values.
pub proof fn lemma_seq_value_model_index(s: Seq<AttributeValue>)
    ensures
        seq_value_model(s).len() == s.len(),
        forall|i: int|
            0 <= i < s.len() ==> #[trigger] seq_value_model(s)[i] == value_model(s[i]),
    decreases s,
{
    if s.len() > 0 {
        lemma_seq_value_model_index(s.drop_last());
    }
}

/// A value sequence is well-formed exactly when each element is.
pub proof fn lemma_seq_value_wf_iff(s: Seq<AttributeValue>)
    ensures
        seq_value_wf(s) <==> (forall|i: int| 0 <= i < s.len() ==> value_wf(#[trigger] s[i])),
    decreases s,
{
    if s.len() > 0 {
        lemma_seq_value_wf_iff(s.drop_last());
        assert(forall|i: int| 0 <= i < s.len() - 1 ==> s.drop_last()[i] == s[i]);
        if forall|i: int| 0 <= i < s.len() ==> value_wf(#[trigger] s[i]) {
            assert(forall|i: int|
                0 <= i < s.drop_last().len() ==> value_wf(#[trigger] s.drop_last()[i]));
        }
    }
}

/// If some entry carries `name`, the model's domain contains it.
pub proof fn lemma_entries_model_contains(s: Seq<(String, AttributeValue)>, i: int)
    requires
        0 <= i < s.len(),
    ensures
        entries_model(s).dom().contains(s[i].0@),
    decreases s.len(),
{
    if i == s.len() - 1 {
    } else {
        lemma_entries_model_contains(s.drop_last(), i);
    }
}

/// If no entry carries `name`, the model's domain does not contain it.
pub proof fn lemma_entries_model_absent(s: Seq<(String, AttributeValue)>, name: Seq<char>)
    requires
        forall|j: int| 0 <= j < s.len() ==> s[j].0@ != name,
    ensures
        !entries_model(s).dom().contains(name),
    decreases s.len(),
{
    if s.len() > 0 {
        lemma_entries_model_absent(s.drop_last(), name);
    }
}

/// Under well-formedness, an entry's value is the model's value for its name,
/// and every entry's value is itself well-formed.
pub proof fn lemma_entries_model_index(s: Seq<(String, AttributeValue)>, i: int)
    requires
        entries_wf(s),
        0 <= i < s.len(),
    ensures
        entries_model(s).dom().contains(s[i].0@),
        entries_model(s)[s[i].0@] == value_model(s[i].1),
        value_wf(s[i].1),
    decreases s.len(),
{
    if i < s.len() - 1 {
        lemma_entries_model_index(s.drop_last(), i);
        lemma_entries_model_contains(s.drop_last(), i);
    }
}

/// Removing the entry at `i` removes exactly its name from the model.
pub proof fn lemma_entries_model_remove(s: Seq<(String, AttributeValue)>, i: int)
    requires
        entries_wf(s),
        0 <= i < s.len(),
    ensures
        entries_wf(s.remove(i)),
        entries_model(s.remove(i)) =~= entries_model(s).remove(s[i].0@),
    decreases s.len(),
{
    let name = s[i].0@;
    if i == s.len() - 1 {
        assert(s.remove(i) =~= s.drop_last());
        assert(entries_model(s.drop_last()) =~= entries_model(s).remove(name));
    } else {
        let t = s.remove(i);
        assert(t.drop_last() =~= s.drop_last().remove(i));
        assert(t.last() == s.last());
        lemma_entries_model_remove(s.drop_last(), i);
        lemma_entries_model_contains(s.drop_last(), i);
        assert(entries_model(t) =~= entries_model(s).remove(name));
    }
}

/// Replacing the entry at `i` under its own name replaces exactly that name's
/// value in the model.
pub proof fn lemma_entries_model_update(
    s: Seq<(String, AttributeValue)>,
    i: int,
    p: (String, AttributeValue),
)
    requires
        entries_wf(s),
        0 <= i < s.len(),
        p.0@ == s[i].0@,
        value_wf(p.1),
    ensures
        entries_wf(s.update(i, p)),
        entries_model(s.update(i, p)) =~= entries_model(s).insert(p.0@, value_model(p.1)),
    decreases s.len(),
{
    let t = s.update(i, p);
    if i == s.len() - 1 {
        assert(t.drop_last() =~= s.drop_last());
        assert(t.last() == p);
    } else {
        assert(t.drop_last() =~= s.drop_last().update(i, p));
        assert(t.last() == s.last());
        lemma_entries_model_update(s.drop_last(), i, p);
        lemma_entries_model_contains(s.drop_last(), i);
        assert(entries_model(t) =~= entries_model(s).insert(p.0@, value_model(p.1)));
    }
}

/// Appending an entry inserts its name into the model.
pub proof fn lemma_entries_model_push(s: Seq<(String, AttributeValue)>, p: (String, AttributeValue))
    ensures
        entries_model(s.push(p)) =~= entries_model(s).insert(p.0@, value_model(p.1)),
        entries_wf(s) && value_wf(p.1) && !entries_model(s).dom().contains(p.0@) ==> entries_wf(
            s.push(p),
        ),
{
    assert(s.push(p).drop_last() =~= s);
    assert(s.push(p).last() == p);
}

/// A well-formed record has as many model entries as stored entries.
pub proof fn lemma_entries_model_dom_len(s: Seq<(String, AttributeValue)>)
    requires
        entries_wf(s),
    ensures
        entries_model(s).dom().finite(),
        entries_model(s).dom().len() == s.len(),
    decreases s.len(),
{
    if s.len() == 0 {
        assert(entries_model(s).dom() =~= Set::empty());
    } else {
        lemma_entries_model_dom_len(s.drop_last());
        assert(entries_model(s).dom() =~= entries_model(s.drop_last()).dom().insert(
            s.last().0@,
        ));
    }
}

} // verus!
