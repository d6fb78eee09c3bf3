//! The data model: serializable values, map entries, and an entity's own
//! fields together with their per-field customizations.
//!
//! A [`Value`] stands for anything the surrounding serialization framework
//! could be asked to serialize. Only the *shape* of a value matters to this
//! library: the flattening adapter accepts record-shaped values and rejects
//! every other shape, and all field and extra-entry values travel through the
//! merge untouched. Each executable type has a spec-level model (`Spec*`)
//! reached through its view, so contracts can speak about values, entries and
//! fields mathematically.

use vstd::prelude::*;

verus! {

broadcast use vstd::std_specs::vec::group_vec_axioms;

/// Spec-level model of a serializable value.
pub enum SpecValue {
    /// The unit / absent-optional value.
    Null,
    Bool(bool),
    Int(int),
    Str(Seq<char>),
    /// A present optional.
    OptSome(Box<SpecValue>),
    /// A sequence (or tuple) of values.
    List(Seq<SpecValue>),
    /// A map-shaped value that is *not* a record: free-form keyed entries.
    Dict(Seq<SpecEntry>),
    /// A tagged-union (variant) value.
    Tagged(Seq<char>, Box<SpecValue>),
    /// A record-shaped value: named fields, each with its customizations.
    Rec(Seq<SpecField>),
}

/// Spec-level model of one key/value entry of a map output.
pub struct SpecEntry {
    pub key: Seq<char>,
    pub value: SpecValue,
}

/// Spec-level model of one of an entity's own declared fields.
pub struct SpecField {
    pub name: Seq<char>,
    pub rename: Option<Seq<char>>,
    pub skip_if_null: bool,
    pub value: SpecValue,
}

/// A serializable value, as handed to a serializer by the framework.
#[derive(Debug, PartialEq, Eq)]
pub enum Value {
    /// The unit / absent-optional value.
    Null,
    Bool(bool),
    Int(i64),
    Str(String),
    /// A present optional.
    OptSome(Box<Value>),
    /// A sequence (or tuple) of values.
    List(Vec<Value>),
    /// A map-shaped value that is *not* a record.
    Dict(Vec<Entry>),
    /// A tagged-union (variant) value.
    Tagged(String, Box<Value>),
    /// A record-shaped value: the entity's own fields, customizations
    /// included, exactly as its normal serialization logic sees them.
    Rec(Vec<OwnField>),
}

/// One key/value entry of a map output.
#[derive(Debug, PartialEq, Eq)]
pub struct Entry {
    pub key: String,
    pub value: Value,
}

/// One of an entity's own declared fields, carrying its independent
/// serialization customizations: an optional rename and a conditional skip.
/// Both are declared on the entity by the surrounding framework and are only
/// passed through by this library, never interpreted beyond what the merge
/// needs.
#[derive(Debug, PartialEq, Eq)]
pub struct OwnField {
    /// The declared field name.
    pub name: String,
    /// An output name overriding `name`, if the field was renamed.
    pub rename: Option<String>,
    /// Omit the field from the output when its value is the absent
    /// ([`Value::Null`]) state.
    pub skip_if_null: bool,
    /// The field's current value.
    pub value: Value,
}

/// The model of a value, an entry, and a field, defined together because a
/// record value holds fields and a map value holds entries.
pub open spec fn spec_value_of(v: Value) -> SpecValue
    decreases v,
{
    match v {
        Value::Null => SpecValue::Null,
        Value::Bool(b) => SpecValue::Bool(b),
        Value::Int(n) => SpecValue::Int(n as int),
        Value::Str(s) => SpecValue::Str(s@),
        Value::OptSome(inner) => SpecValue::OptSome(Box::new(spec_value_of(*inner))),
        Value::List(items) => SpecValue::List(spec_values_of(items@)),
        Value::Dict(entries) => SpecValue::Dict(spec_entries_of(entries@)),
        Value::Tagged(tag, inner) => SpecValue::Tagged(tag@, Box::new(spec_value_of(*inner))),
        Value::Rec(fields) => SpecValue::Rec(spec_fields_of(fields@)),
    }
}

/// The models of a sequence of values.
pub open spec fn spec_values_of(s: Seq<Value>) -> Seq<SpecValue>
    decreases s,
{
    if s.len() == 0 {
        Seq::empty()
    } else {
        spec_values_of(s.subrange(0, s.len() - 1)).push(spec_value_of(s[s.len() - 1]))
    }
}

/// The models of a sequence of entries.
pub open spec fn spec_entries_of(s: Seq<Entry>) -> Seq<SpecEntry>
    decreases s,
{
    if s.len() == 0 {
        Seq::empty()
    } else {
        spec_entries_of(s.subrange(0, s.len() - 1)).push(spec_entry_of(s[s.len() - 1]))
    }
}

/// The models of a sequence of own fields.
pub open spec fn spec_fields_of(s: Seq<OwnField>) -> Seq<SpecField>
    decreases s,
{
    if s.len() == 0 {
        Seq::empty()
    } else {
        spec_fields_of(s.subrange(0, s.len() - 1)).push(spec_field_of(s[s.len() - 1]))
    }
}

/// The model of one map entry.
pub open spec fn spec_entry_of(e: Entry) -> SpecEntry
    decreases e,
{
    SpecEntry { key: e.key@, value: spec_value_of(e.value) }
}

/// The model of one own field.
pub open spec fn spec_field_of(f: OwnField) -> SpecField
    decreases f,
{
    SpecField {
        name: f.name@,
        rename: match f.rename {
            Some(r) => Some(r@),
            None => None,
        },
        skip_if_null: f.skip_if_null,
        value: spec_value_of(f.value),
    }
}

impl View for Value {
    type V = SpecValue;

    open spec fn view(&self) -> SpecValue {
        spec_value_of(*self)
    }
}

impl View for Entry {
    type V = SpecEntry;

    open spec fn view(&self) -> SpecEntry {
        spec_entry_of(*self)
    }
}

impl View for OwnField {
    type V = SpecField;

    open spec fn view(&self) -> SpecField {
        spec_field_of(*self)
    }
}

/// Model extraction distributes over concatenation of field lists.
pub proof fn lemma_fields_of_concat(a: Seq<OwnField>, b: Seq<OwnField>)
    ensures
        spec_fields_of(a + b) == spec_fields_of(a) + spec_fields_of(b),
    decreases b.len(),
{
    if b.len() == 0 {
        assert(a + b =~= a);
        assert(spec_fields_of(a) + spec_fields_of(b) =~= spec_fields_of(a));
    } else {
        let b2 = b.subrange(0, b.len() - 1);
        lemma_fields_of_concat(a, b2);
        assert((a + b).subrange(0, (a + b).len() - 1) =~= a + b2);
        assert((a + b)[(a + b).len() - 1] == b[b.len() - 1]);
        assert(spec_fields_of(a) + spec_fields_of(b2) + seq![spec_field_of(b[b.len() - 1])]
            =~= spec_fields_of(a) + spec_fields_of(b));
    }
}

/// A deep copy of a value, proved to keep the value's model. `Value` owns
/// heap data, so copying is written out by hand.
pub fn clone_value(v: &Value) -> (r: Value)
    ensures
        r@ == v@,
    decreases *v,
{
    match v {
        Value::Null => Value::Null,
        Value::Bool(b) => Value::Bool(*b),
        Value::Int(n) => Value::Int(*n),
        Value::Str(s) => Value::Str(s.clone()),
        Value::OptSome(inner) => Value::OptSome(Box::new(clone_value(&**inner))),
        Value::List(items) => Value::List(clone_values(items)),
        Value::Dict(entries) => Value::Dict(clone_entries(entries)),
        Value::Tagged(tag, inner) => Value::Tagged(tag.clone(), Box::new(clone_value(&**inner))),
        Value::Rec(fields) => Value::Rec(clone_fields(fields)),
    }
}

fn clone_values(items: &Vec<Value>) -> (r: Vec<Value>)
    ensures
        spec_values_of(r@) == spec_values_of(items@),
    decreases items@,
{
    let mut out: Vec<Value> = Vec::new();
    let mut i: usize = 0;
    while i < items.len()
        invariant
            i <= items@.len(),
            spec_values_of(out@) == spec_values_of(items@.subrange(0, i as int)),
        decreases items@.len() - i,
    {
        let c = clone_value(&items[i]);
        let ghost pre = out@;
        out.push(c);
        proof {
            assert(out@.subrange(0, out@.len() - 1) =~= pre);
            let post = items@.subrange(0, i as int + 1);
            assert(post.subrange(0, post.len() - 1) =~= items@.subrange(0, i as int));
            assert(post[post.len() - 1] == items@[i as int]);
        }
        i = i + 1;
    }
    proof {
        assert(items@.subrange(0, i as int) =~= items@);
    }
    out
}

fn clone_entries(entries: &Vec<Entry>) -> (r: Vec<Entry>)
    ensures
        spec_entries_of(r@) == spec_entries_of(entries@),
    decreases entries@,
{
    let mut out: Vec<Entry> = Vec::new();
    let mut i: usize = 0;
    while i < entries.len()
        invariant
            i <= entries@.len(),
            spec_entries_of(out@) == spec_entries_of(entries@.subrange(0, i as int)),
        decreases entries@.len() - i,
    {
        let c = Entry {
            key: entries[i].key.clone(),
            value: clone_value(&entries[i].value),
        };
        let ghost pre = out@;
        proof {
            assert(spec_entry_of(c) == spec_entry_of(entries@[i as int]));
        }
        out.push(c);
        proof {
            assert(out@.subrange(0, out@.len() - 1) =~= pre);
            let post = entries@.subrange(0, i as int + 1);
            assert(post.subrange(0, post.len() - 1) =~= entries@.subrange(0, i as int));
            assert(post[post.len() - 1] == entries@[i as int]);
        }
        i = i + 1;
    }
    proof {
        assert(entries@.subrange(0, i as int) =~= entries@);
    }
    out
}

/// A deep copy of a field list, proved to keep each field's model.
pub fn clone_fields(fields: &Vec<OwnField>) -> (r: Vec<OwnField>)
    ensures
        spec_fields_of(r@) == spec_fields_of(fields@),
    decreases fields@,
{
    let mut out: Vec<OwnField> = Vec::new();
    let mut i: usize = 0;
    while i < fields.len()
        invariant
            i <= fields@.len(),
            spec_fields_of(out@) == spec_fields_of(fields@.subrange(0, i as int)),
        decreases fields@.len() - i,
    {
        let c = OwnField {
            name: fields[i].name.clone(),
            rename: match &fields[i].rename {
                Some(r) => Some(r.clone()),
                None => None,
            },
            skip_if_null: fields[i].skip_if_null,
            value: clone_value(&fields[i].value),
        };
        let ghost pre = out@;
        proof {
            assert(spec_field_of(c) == spec_field_of(fields@[i as int]));
        }
        out.push(c);
        proof {
            assert(out@.subrange(0, out@.len() - 1) =~= pre);
            let post = fields@.subrange(0, i as int + 1);
            assert(post.subrange(0, post.len() - 1) =~= fields@.subrange(0, i as int));
            assert(post[post.len() - 1] == fields@[i as int]);
        }
        i = i + 1;
    }
    proof {
        assert(fields@.subrange(0, i as int) =~= fields@);
    }
    out
}

} // verus!
