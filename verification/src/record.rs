//! The entity's own field-serialization logic: each field's customizations
//! (rename, conditional skip) applied in declared order, and the surviving
//! fields written as entries. The same logic serves both the record's normal
//! standalone serialization and the flattening adapter, so per-field output
//! is identical on both paths by construction.

use crate::errors::SerError;
use crate::value::Entry;
use crate::value::OwnField;
use crate::value::SpecEntry;
use crate::value::SpecField;
use crate::value::Value;
use crate::value::clone_value;
use crate::value::spec_entries_of;
use crate::value::spec_field_of;
use crate::value::spec_fields_of;
use crate::writer::MapWriter;
use crate::writer::spec_accepts;
use vstd::prelude::*;

verus! {

/// The output key of one field: its rename when present, else its name.
pub open spec fn spec_field_key(f: SpecField) -> Seq<char> {
    match f.rename {
        Some(r) => r,
        None => f.name,
    }
}

/// Whether a field is omitted from the output: it asked to be skipped when
/// absent, and its value is the absent state.
pub open spec fn spec_field_skipped(f: SpecField) -> bool {
    f.skip_if_null && f.value is Null
}

/// The entries one field contributes: none when skipped, else one entry
/// under its output key, with its value unchanged.
pub open spec fn spec_emitted_one(f: SpecField) -> Seq<SpecEntry> {
    if spec_field_skipped(f) {
        Seq::empty()
    } else {
        seq![SpecEntry { key: spec_field_key(f), value: f.value }]
    }
}

/// The entries a field list emits, in declared order.
pub open spec fn spec_emitted(fs: Seq<SpecField>) -> Seq<SpecEntry>
    decreases fs.len(),
{
    if fs.len() == 0 {
        Seq::empty()
    } else {
        spec_emitted(fs.subrange(0, fs.len() - 1)) + spec_emitted_one(fs[fs.len() - 1])
    }
}

/// The entries an entity's own fields contribute to any output.
pub open spec fn spec_record_entries(fields: Seq<OwnField>) -> Seq<SpecEntry> {
    spec_emitted(spec_fields_of(fields))
}

/// The position of the first entry whose value the consumer rejects, or the
/// length when every entry is accepted.
pub open spec fn spec_first_rejected(reject_null: bool, es: Seq<SpecEntry>) -> int
    decreases es.len(),
{
    if es.len() == 0 {
        0
    } else {
        let p = spec_first_rejected(reject_null, es.subrange(0, es.len() - 1));
        if p < es.len() - 1 {
            p
        } else if spec_accepts(reject_null, es[es.len() - 1].value) {
            es.len() as int
        } else {
            es.len() - 1
        }
    }
}

/// Every entry's value is accepted by the consumer.
pub open spec fn spec_all_accepted(reject_null: bool, es: Seq<SpecEntry>) -> bool {
    spec_first_rejected(reject_null, es) == es.len()
}

/// The first rejected position lies between zero and the length.
pub proof fn lemma_first_rejected_bounds(reject_null: bool, es: Seq<SpecEntry>)
    ensures
        0 <= spec_first_rejected(reject_null, es) <= es.len(),
    decreases es.len(),
{
    if es.len() > 0 {
        lemma_first_rejected_bounds(reject_null, es.subrange(0, es.len() - 1));
    }
}

/// Once a rejection happened, later entries do not move it.
pub proof fn lemma_first_rejected_extend(reject_null: bool, es: Seq<SpecEntry>, tail: Seq<SpecEntry>)
    requires
        spec_first_rejected(reject_null, es) < es.len(),
    ensures
        spec_first_rejected(reject_null, es + tail) == spec_first_rejected(reject_null, es),
    decreases tail.len(),
{
    lemma_first_rejected_bounds(reject_null, es);
    if tail.len() == 0 {
        assert(es + tail =~= es);
    } else {
        let t2 = tail.subrange(0, tail.len() - 1);
        lemma_first_rejected_extend(reject_null, es, t2);
        assert((es + tail).subrange(0, (es + tail).len() - 1) =~= es + t2);
        assert((es + tail)[(es + tail).len() - 1] == tail[tail.len() - 1]);
    }
}

/// Emission distributes over concatenation of field lists.
pub proof fn lemma_emitted_concat(a: Seq<SpecField>, b: Seq<SpecField>)
    ensures
        spec_emitted(a + b) == spec_emitted(a) + spec_emitted(b),
    decreases b.len(),
{
    if b.len() == 0 {
        assert(a + b =~= a);
        assert(spec_emitted(a) + spec_emitted(b) =~= spec_emitted(a));
    } else {
        let b2 = b.subrange(0, b.len() - 1);
        lemma_emitted_concat(a, b2);
        assert((a + b).subrange(0, (a + b).len() - 1) =~= a + b2);
        assert((a + b)[(a + b).len() - 1] == b[b.len() - 1]);
        assert(spec_emitted(a) + spec_emitted(b2) + spec_emitted_one(b[b.len() - 1]) =~= spec_emitted(
            a,
        ) + spec_emitted(b));
    }
}

/// Serialize an entity's own fields by writing each surviving field's entry,
/// in declared order, through the given open map writer. This is the
/// record's normal field logic; only the destination varies between the
/// standalone path and the flattening adapter. On the first rejected value
/// the operation stops with that failure; the writer keeps what was already
/// appended (the map is not transactional), but no partial output is valid
/// for the caller.
pub fn write_own_fields(fields: &Vec<OwnField>, w: &mut MapWriter) -> (r: Result<(), SerError>)
    ensures
        final(w).reject_null == old(w).reject_null,
        final(w).size_hint == old(w).size_hint,
        spec_all_accepted(old(w).reject_null, spec_record_entries(fields@))
            ==> r is Ok && final(w).model() == old(w).model() + spec_record_entries(fields@),
        !spec_all_accepted(old(w).reject_null, spec_record_entries(fields@))
            ==> r == Err::<(), SerError>(SerError::ValueRejected)
                && final(w).model() == old(w).model()
                + spec_record_entries(fields@).take(
                    spec_first_rejected(old(w).reject_null, spec_record_entries(fields@))),
{
    let ghost rn = w.reject_null;
    let ghost hint0 = w.size_hint;
    let ghost base = w.model();
    let mut i: usize = 0;
    while i < fields.len()
        invariant
            i <= fields@.len(),
            rn == old(w).reject_null,
            hint0 == old(w).size_hint,
            base == old(w).model(),
            w.reject_null == rn,
            w.size_hint == hint0,
            spec_all_accepted(rn, spec_record_entries(fields@.subrange(0, i as int))),
            w.model() == base + spec_record_entries(fields@.subrange(0, i as int)),
        decreases fields@.len() - i,
    {
        let ghost pre_fields = fields@.subrange(0, i as int);
        let ghost pre_em = spec_record_entries(pre_fields);
        proof {
            let step = fields@.subrange(0, i as int + 1);
            assert(step.subrange(0, step.len() - 1) =~= pre_fields);
            assert(step[step.len() - 1] == fields@[i as int]);
            let sf = spec_fields_of(step);
            assert(sf.subrange(0, sf.len() - 1) =~= spec_fields_of(pre_fields));
            assert(spec_emitted(sf) == spec_emitted(spec_fields_of(pre_fields)) + spec_emitted_one(
                spec_field_of(fields@[i as int]),
            ));
            lemma_first_rejected_bounds(rn, pre_em);
        }
        let f = &fields[i];
        let is_null = match &f.value {
            Value::Null => true,
            _ => false,
        };
        proof {
            assert(is_null <==> fields@[i as int]@.value is Null);
        }
        if f.skip_if_null && is_null {
            proof {
                assert(spec_record_entries(fields@.subrange(0, i as int + 1)) =~= pre_em);
            }
        } else {
            let key = match &f.rename {
                Some(r) => r.clone(),
                None => f.name.clone(),
            };
            let value = clone_value(&f.value);
            let ghost e = SpecEntry { key: key@, value: value@ };
            proof {
                assert(e == (SpecEntry {
                    key: spec_field_key(spec_field_of(fields@[i as int])),
                    value: fields@[i as int]@.value,
                }));
                assert(spec_record_entries(fields@.subrange(0, i as int + 1)) =~= pre_em.push(e));
                assert(pre_em.push(e).subrange(0, pre_em.push(e).len() - 1) =~= pre_em);
                assert(pre_em.push(e)[pre_em.push(e).len() - 1] == e);
            }
            match w.write_entry(key, value) {
                Ok(()) => {
                    proof {
                        assert(spec_first_rejected(rn, pre_em.push(e)) == pre_em.push(e).len());
                    }
                },
                Err(err) => {
                    proof {
                        let rest = fields@.subrange(i as int + 1, fields@.len() as int);
                        assert(fields@ =~= fields@.subrange(0, i as int + 1) + rest);
                        let sf_step = spec_fields_of(fields@.subrange(0, i as int + 1));
                        let sf_rest = spec_fields_of(rest);
                        crate::value::lemma_fields_of_concat(
                            fields@.subrange(0, i as int + 1),
                            rest,
                        );
                        lemma_emitted_concat(sf_step, sf_rest);
                        assert(spec_record_entries(fields@) == pre_em.push(e) + spec_emitted(
                            sf_rest,
                        ));
                        assert(spec_first_rejected(rn, pre_em.push(e)) == pre_em.len());
                        lemma_first_rejected_extend(rn, pre_em.push(e), spec_emitted(sf_rest));
                        assert(spec_first_rejected(rn, spec_record_entries(fields@))
                            == pre_em.len());
                        assert(spec_record_entries(fields@).take(pre_em.len() as int) =~= pre_em);
                    }
                    return Err(err);
                },
            }
        }
        i = i + 1;
    }
    proof {
        assert(fields@.subrange(0, i as int) =~= fields@);
    }
    Ok(())
}

/// Serialize an entity's own fields alone, into a fresh container of the
/// same consumer profile: the record's normal, unmerged serialization.
pub fn serialize_record_standalone(fields: &Vec<OwnField>, reject_null: bool) -> (r: Result<
    Vec<Entry>,
    SerError,
>)
    ensures
        r is Ok <==> spec_all_accepted(reject_null, spec_record_entries(fields@)),
        r is Ok ==> spec_entries_of(r->Ok_0@) == spec_record_entries(fields@),
        r is Err ==> r->Err_0 == SerError::ValueRejected,
{
    let mut w = MapWriter::begin(None, reject_null);
    match write_own_fields(fields, &mut w) {
        Ok(()) => Ok(w.finish()),
        Err(e) => Err(e),
    }
}

} // verus!
