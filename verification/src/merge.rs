//! The merge orchestrator. For one entity instance it produces the single,
//! flat, ordered map output: it opens one map on the consumer (with no size
//! hint, since conditional skips make the final count unknown), writes the
//! front extras in declared order, drives the entity's own fields through
//! the flattening adapter into the same open map, writes the back extras,
//! and closes the map. Serialization is single-shot and synchronous: the
//! first failure aborts the whole operation with that failure, and no
//! partial output is valid.

use crate::adapter::flatten_into;
use crate::errors::SerError;
use crate::errors::SpecSerError;
use crate::record::spec_all_accepted;
use crate::record::spec_record_entries;
use crate::resolve::ExtraDecl;
use crate::resolve::SpecDecl;
use crate::resolve::spec_decls_of;
use crate::value::Entry;
use crate::value::OwnField;
use crate::value::SpecEntry;
use crate::value::SpecValue;
use crate::value::Value;
use crate::value::clone_fields;
use crate::value::clone_value;
use crate::value::spec_entries_of;
use crate::writer::MapWriter;
use crate::writer::spec_accepts;
use vstd::prelude::*;

verus! {

/// One accessor the entity provides: a zero-argument method producing a
/// serializable value, modelled by its name and the value an invocation
/// returns.
#[derive(Debug, PartialEq, Eq)]
pub struct Accessor {
    pub name: String,
    pub result: Value,
}

/// Spec-level model of an accessor.
pub struct SpecAccessor {
    pub name: Seq<char>,
    pub result: SpecValue,
}

impl View for Accessor {
    type V = SpecAccessor;

    open spec fn view(&self) -> SpecAccessor {
        SpecAccessor { name: self.name@, result: self.result@ }
    }
}

/// The models of an accessor table.
pub open spec fn spec_accessors_of(s: Seq<Accessor>) -> Seq<SpecAccessor> {
    Seq::new(s.len(), |i: int| s[i]@)
}

/// An entity instance ready to serialize: its own declared fields, each with
/// its customizations and current value, and the accessors that extra
/// entries may invoke.
#[derive(Debug, PartialEq, Eq)]
pub struct Entity {
    pub fields: Vec<OwnField>,
    pub accessors: Vec<Accessor>,
}

/// The result of the first accessor under a name, if the entity provides
/// one.
pub open spec fn spec_lookup(accs: Seq<SpecAccessor>, name: Seq<char>) -> Option<SpecValue>
    decreases accs.len(),
{
    if accs.len() == 0 {
        None
    } else if accs[0].name == name {
        Some(accs[0].result)
    } else {
        spec_lookup(accs.subrange(1, accs.len() as int), name)
    }
}

/// Looking up a name skips a prefix that does not hold it.
pub proof fn lemma_lookup_skip(accs: Seq<SpecAccessor>, name: Seq<char>, i: int)
    requires
        0 <= i <= accs.len(),
        forall|j: int| 0 <= j < i ==> accs[j].name != name,
    ensures
        spec_lookup(accs, name) == spec_lookup(accs.subrange(i, accs.len() as int), name),
    decreases i,
{
    if i == 0 {
        assert(accs.subrange(0, accs.len() as int) =~= accs);
    } else {
        lemma_lookup_skip(accs, name, i - 1);
        let s1 = accs.subrange(i - 1, accs.len() as int);
        assert(s1[0] == accs[i - 1]);
        assert(s1.subrange(1, s1.len() as int) =~= accs.subrange(i, accs.len() as int));
    }
}

/// Invoke the named accessor: find it and take one result.
#[verifier::loop_isolation(false)]
fn invoke_accessor(accessors: &Vec<Accessor>, name: &String) -> (r: Option<Value>)
    ensures
        r is Some <==> spec_lookup(spec_accessors_of(accessors@), name@) is Some,
        r is Some ==> Some(r->0@) == spec_lookup(spec_accessors_of(accessors@), name@),
{
    let ghost accs = spec_accessors_of(accessors@);
    let mut i: usize = 0;
    while i < accessors.len()
        invariant
            i <= accessors@.len(),
            forall|j: int| 0 <= j < i ==> accs[j].name != name@,
        decreases accessors@.len() - i,
    {
        if accessors[i].name == *name {
            proof {
                lemma_lookup_skip(accs, name@, i as int);
                let s1 = accs.subrange(i as int, accs.len() as int);
                assert(s1[0] == accs[i as int]);
            }
            return Some(clone_value(&accessors[i].result));
        }
        i = i + 1;
    }
    proof {
        lemma_lookup_skip(accs, name@, accs.len() as int);
        assert(accs.subrange(accs.len() as int, accs.len() as int).len() == 0);
    }
    None
}

/// The first failure while writing a list of extras, in declared order: a
/// missing accessor is reported as such, a value the consumer cannot
/// represent as a rejection.
pub open spec fn spec_extras_err(
    ds: Seq<SpecDecl>,
    accs: Seq<SpecAccessor>,
    reject_null: bool,
) -> Option<SpecSerError>
    decreases ds.len(),
{
    if ds.len() == 0 {
        None
    } else {
        let prior = spec_extras_err(ds.subrange(0, ds.len() - 1), accs, reject_null);
        if prior is Some {
            prior
        } else {
            let d = ds[ds.len() - 1];
            match spec_lookup(accs, d.accessor) {
                None => Some(SpecSerError::UnknownAccessor { accessor: d.accessor }),
                Some(v) => if !spec_accepts(reject_null, v) {
                    Some(SpecSerError::ValueRejected)
                } else {
                    None
                },
            }
        }
    }
}

/// The entries a list of extras contributes when every accessor resolves:
/// one entry per declaration, under its key, in declared order.
pub open spec fn spec_extra_entries(ds: Seq<SpecDecl>, accs: Seq<SpecAccessor>) -> Seq<SpecEntry>
    decreases ds.len(),
{
    if ds.len() == 0 {
        Seq::empty()
    } else {
        let prior = spec_extra_entries(ds.subrange(0, ds.len() - 1), accs);
        let d = ds[ds.len() - 1];
        match spec_lookup(accs, d.accessor) {
            Some(v) => prior.push(SpecEntry { key: d.key, value: v }),
            None => prior,
        }
    }
}

/// The entries actually written by an extras stage: everything before its
/// first failure.
pub open spec fn spec_extras_written(
    ds: Seq<SpecDecl>,
    accs: Seq<SpecAccessor>,
    reject_null: bool,
) -> Seq<SpecEntry>
    decreases ds.len(),
{
    if ds.len() == 0 {
        Seq::empty()
    } else {
        let prior_err = spec_extras_err(ds.subrange(0, ds.len() - 1), accs, reject_null);
        let prior = spec_extras_written(ds.subrange(0, ds.len() - 1), accs, reject_null);
        if prior_err is Some {
            prior
        } else {
            let d = ds[ds.len() - 1];
            match spec_lookup(accs, d.accessor) {
                Some(v) => if spec_accepts(reject_null, v) {
                    prior.push(SpecEntry { key: d.key, value: v })
                } else {
                    prior
                },
                None => prior,
            }
        }
    }
}

/// Once an extras stage failed, later declarations change neither the error
/// nor what was written.
pub proof fn lemma_extras_stage_extend(
    ds: Seq<SpecDecl>,
    accs: Seq<SpecAccessor>,
    reject_null: bool,
    j: int,
)
    requires
        0 <= j <= ds.len(),
        spec_extras_err(ds.subrange(0, j), accs, reject_null) is Some,
    ensures
        spec_extras_err(ds, accs, reject_null) == spec_extras_err(
            ds.subrange(0, j),
            accs,
            reject_null,
        ),
        spec_extras_written(ds, accs, reject_null) == spec_extras_written(
            ds.subrange(0, j),
            accs,
            reject_null,
        ),
    decreases ds.len() - j,
{
    if j == ds.len() {
        assert(ds.subrange(0, j) =~= ds);
    } else {
        let s1 = ds.subrange(0, j + 1);
        assert(s1.subrange(0, s1.len() - 1) =~= ds.subrange(0, j));
        lemma_extras_stage_extend(ds, accs, reject_null, j + 1);
    }
}

/// Write one list of extras, in declared order, into the open map: invoke
/// each accessor, then write `(key, result)`. The first failure aborts the
/// stage; the writer keeps what was already appended.
#[verifier::loop_isolation(false)]
pub fn write_extras(decls: &Vec<ExtraDecl>, accessors: &Vec<Accessor>, w: &mut MapWriter) -> (r:
    Result<(), SerError>)
    ensures
        final(w).reject_null == old(w).reject_null,
        final(w).size_hint == old(w).size_hint,
        final(w).model() == old(w).model() + spec_extras_written(
            spec_decls_of(decls@),
            spec_accessors_of(accessors@),
            old(w).reject_null,
        ),
        r is Ok <==> spec_extras_err(
            spec_decls_of(decls@),
            spec_accessors_of(accessors@),
            old(w).reject_null,
        ) is None,
        r is Ok ==> final(w).model() == old(w).model() + spec_extra_entries(
            spec_decls_of(decls@),
            spec_accessors_of(accessors@),
        ),
        r is Err ==> Some(r->Err_0@) == spec_extras_err(
            spec_decls_of(decls@),
            spec_accessors_of(accessors@),
            old(w).reject_null,
        ),
{
    let ghost ds = spec_decls_of(decls@);
    let ghost accs = spec_accessors_of(accessors@);
    let ghost rn = old(w).reject_null;
    let mut i: usize = 0;
    while i < decls.len()
        invariant
            i <= decls@.len(),
            w.reject_null == rn,
            w.size_hint == old(w).size_hint,
            spec_extras_err(ds.subrange(0, i as int), accs, rn) is None,
            w.model() == old(w).model() + spec_extra_entries(ds.subrange(0, i as int), accs),
            spec_extras_written(ds.subrange(0, i as int), accs, rn) == spec_extra_entries(
                ds.subrange(0, i as int),
                accs,
            ),
        decreases decls@.len() - i,
    {
        let ghost pre = ds.subrange(0, i as int);
        proof {
            let step = ds.subrange(0, i as int + 1);
            assert(step.subrange(0, step.len() - 1) =~= pre);
            assert(step[step.len() - 1] == ds[i as int]);
            assert(ds[i as int] == decls@[i as int]@);
        }
        let d = &decls[i];
        match invoke_accessor(accessors, &d.accessor) {
            None => {
                proof {
                    lemma_extras_stage_extend(ds, accs, rn, i as int + 1);
                }
                return Err(SerError::UnknownAccessor { accessor: d.accessor.clone() });
            },
            Some(value) => {
                match w.write_entry(d.key.clone(), value) {
                    Ok(()) => {},
                    Err(err) => {
                        proof {
                            lemma_extras_stage_extend(ds, accs, rn, i as int + 1);
                        }
                        return Err(err);
                    },
                }
            },
        }
        i = i + 1;
    }
    proof {
        assert(ds.subrange(0, i as int) =~= ds);
    }
    Ok(())
}

/// The first failure of a whole merge, in output order: the front extras,
/// then the entity's own fields, then the back extras.
pub open spec fn spec_merge_err(
    fields: Seq<OwnField>,
    front: Seq<SpecDecl>,
    back: Seq<SpecDecl>,
    accs: Seq<SpecAccessor>,
    reject_null: bool,
) -> Option<SpecSerError> {
    if spec_extras_err(front, accs, reject_null) is Some {
        spec_extras_err(front, accs, reject_null)
    } else if !spec_all_accepted(reject_null, spec_record_entries(fields)) {
        Some(SpecSerError::ValueRejected)
    } else {
        spec_extras_err(back, accs, reject_null)
    }
}

/// Serialize one entity with its extras merged in. The output map holds, in
/// order: the front extras as declared, then the entity's own surviving
/// fields exactly as its normal field logic emits them (through the
/// flattening adapter, into the same open map), then the back extras as
/// declared. Any failure — a missing accessor, or a value the consumer
/// rejects — aborts the whole operation with that failure and yields no
/// output.
pub fn merge_serialize(
    entity: &Entity,
    front: &Vec<ExtraDecl>,
    back: &Vec<ExtraDecl>,
    reject_null: bool,
) -> (r: Result<Vec<Entry>, SerError>)
    ensures
        r is Ok <==> spec_merge_err(
            entity.fields@,
            spec_decls_of(front@),
            spec_decls_of(back@),
            spec_accessors_of(entity.accessors@),
            reject_null,
        ) is None,
        r is Ok ==> spec_entries_of(r->Ok_0@) == spec_extra_entries(
            spec_decls_of(front@),
            spec_accessors_of(entity.accessors@),
        ) + spec_record_entries(entity.fields@) + spec_extra_entries(
            spec_decls_of(back@),
            spec_accessors_of(entity.accessors@),
        ),
        r is Err ==> Some(r->Err_0@) == spec_merge_err(
            entity.fields@,
            spec_decls_of(front@),
            spec_decls_of(back@),
            spec_accessors_of(entity.accessors@),
            reject_null,
        ),
{
    let ghost accs = spec_accessors_of(entity.accessors@);
    let mut w = MapWriter::begin(None, reject_null);
    match write_extras(front, &entity.accessors, &mut w) {
        Ok(()) => {},
        Err(e) => {
            return Err(e);
        },
    }
    let ghost after_front = w.model();
    let record_view = Value::Rec(clone_fields(&entity.fields));
    match flatten_into(&record_view, &mut w) {
        Ok(()) => {},
        Err(e) => {
            proof {
                assert(spec_record_entries(record_view->Rec_0@) == spec_record_entries(
                    entity.fields@,
                ));
            }
            return Err(e);
        },
    }
    match write_extras(back, &entity.accessors, &mut w) {
        Ok(()) => {},
        Err(e) => {
            return Err(e);
        },
    }
    proof {
        assert(spec_record_entries(record_view->Rec_0@) == spec_record_entries(entity.fields@));
        assert(Seq::<SpecEntry>::empty() + spec_extra_entries(spec_decls_of(front@), accs)
            =~= spec_extra_entries(spec_decls_of(front@), accs));
        assert(spec_extra_entries(spec_decls_of(front@), accs) + spec_record_entries(
            entity.fields@,
        ) + spec_extra_entries(spec_decls_of(back@), accs) =~= (spec_extra_entries(
            spec_decls_of(front@),
            accs,
        ) + spec_record_entries(entity.fields@)) + spec_extra_entries(
            spec_decls_of(back@),
            accs,
        ));
    }
    Ok(w.finish())
}

/// When every extra's accessor resolves, the stage contributes exactly one
/// entry per declaration: the declared key, in declared order, with the
/// accessor's value.
pub proof fn lemma_extra_entries_count(
    ds: Seq<SpecDecl>,
    accs: Seq<SpecAccessor>,
    reject_null: bool,
)
    requires
        spec_extras_err(ds, accs, reject_null) is None,
    ensures
        spec_extra_entries(ds, accs).len() == ds.len(),
        forall|i: int|
            0 <= i < ds.len() ==> #[trigger] spec_extra_entries(ds, accs)[i].key == ds[i].key
                && Some(spec_extra_entries(ds, accs)[i].value) == spec_lookup(
                accs,
                ds[i].accessor,
            ),
    decreases ds.len(),
{
    if ds.len() > 0 {
        let d2 = ds.subrange(0, ds.len() - 1);
        assert(spec_extras_err(d2, accs, reject_null) is None);
        lemma_extra_entries_count(d2, accs, reject_null);
        assert(forall|i: int| 0 <= i < d2.len() ==> ds[i] == d2[i]);
        assert(forall|i: int|
            0 <= i < d2.len() ==> #[trigger] spec_extra_entries(ds, accs)[i]
                == spec_extra_entries(d2, accs)[i]);
    }
}

/// Order law: a successful merge output is exactly the front extras in
/// declared order, then the entity's surviving own fields in their declared
/// and customized order, then the back extras in declared order; its length
/// is the sum of the three parts, one entry per declared extra.
pub proof fn lemma_merge_output_order(
    fields: Seq<OwnField>,
    front: Seq<SpecDecl>,
    back: Seq<SpecDecl>,
    accs: Seq<SpecAccessor>,
    reject_null: bool,
)
    requires
        spec_merge_err(fields, front, back, accs, reject_null) is None,
    ensures
        spec_extra_entries(front, accs).len() == front.len(),
        spec_extra_entries(back, accs).len() == back.len(),
        (spec_extra_entries(front, accs) + spec_record_entries(fields) + spec_extra_entries(
            back,
            accs,
        )).len() == front.len() + spec_record_entries(fields).len() + back.len(),
        (spec_extra_entries(front, accs) + spec_record_entries(fields) + spec_extra_entries(
            back,
            accs,
        )).subrange(0, front.len() as int) == spec_extra_entries(front, accs),
        (spec_extra_entries(front, accs) + spec_record_entries(fields) + spec_extra_entries(
            back,
            accs,
        )).subrange(
            front.len() as int,
            front.len() + spec_record_entries(fields).len() as int,
        ) == spec_record_entries(fields),
        (spec_extra_entries(front, accs) + spec_record_entries(fields) + spec_extra_entries(
            back,
            accs,
        )).subrange(
            front.len() + spec_record_entries(fields).len() as int,
            front.len() + spec_record_entries(fields).len() + back.len() as int,
        ) == spec_extra_entries(back, accs),
{
    lemma_extra_entries_count(front, accs, reject_null);
    lemma_extra_entries_count(back, accs, reject_null);
    let f = spec_extra_entries(front, accs);
    let m = spec_record_entries(fields);
    let b = spec_extra_entries(back, accs);
    assert((f + m + b).subrange(0, f.len() as int) =~= f);
    assert((f + m + b).subrange(f.len() as int, f.len() + m.len() as int) =~= m);
    assert((f + m + b).subrange(f.len() + m.len() as int, f.len() + m.len() + b.len() as int) =~= b);
}

/// Pass-through fidelity law: whenever the merge succeeds, serializing the
/// same fields standalone succeeds too, and the own-field segment of the
/// merged output equals the standalone output entry for entry — the merge
/// changes where a field's entry lands, never its key or value.
pub proof fn lemma_pass_through_fidelity(
    fields: Seq<OwnField>,
    front: Seq<SpecDecl>,
    back: Seq<SpecDecl>,
    accs: Seq<SpecAccessor>,
    reject_null: bool,
)
    requires
        spec_merge_err(fields, front, back, accs, reject_null) is None,
    ensures
        spec_all_accepted(reject_null, spec_record_entries(fields)),
        (spec_extra_entries(front, accs) + spec_record_entries(fields) + spec_extra_entries(
            back,
            accs,
        )).subrange(
            spec_extra_entries(front, accs).len() as int,
            spec_extra_entries(front, accs).len() + spec_record_entries(fields).len() as int,
        ) == spec_record_entries(fields),
{
    let f = spec_extra_entries(front, accs);
    let m = spec_record_entries(fields);
    let b = spec_extra_entries(back, accs);
    assert((f + m + b).subrange(f.len() as int, f.len() + m.len() as int) =~= m);
}

} // verus!
