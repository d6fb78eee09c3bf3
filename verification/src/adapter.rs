//! The flattening adapter: a serializer that accepts exactly one shape of
//! value. Handed a record-shaped value, it succeeds by forwarding every
//! field entry the record's own serialization logic emits into the supplied
//! open map writer; it never opens a container of its own and never closes
//! the one it borrowed, whose lifecycle belongs to the caller. Every other
//! value shape — a bare scalar, a sequence, an optional, a tagged value, a
//! free-form map — is rejected outright as a usage error: the adapter
//! flattens one level of one record into a parent map, nothing else.

use crate::errors::SerError;
use crate::record::spec_all_accepted;
use crate::record::spec_first_rejected;
use crate::record::spec_record_entries;
use crate::record::write_own_fields;
use crate::value::Value;
use crate::writer::MapWriter;
use vstd::prelude::*;

verus! {

/// Serialize `v` by flattening: forward a record's fields into `w`, and
/// fail on any other shape with the map left exactly as it was.
pub fn flatten_into(v: &Value, w: &mut MapWriter) -> (r: Result<(), SerError>)
    ensures
        final(w).reject_null == old(w).reject_null,
        final(w).size_hint == old(w).size_hint,
        !(v@ is Rec) ==> r == Err::<(), SerError>(SerError::ExpectedRecord)
            && *final(w) == *old(w),
        *v matches Value::Rec(fields) ==> (spec_all_accepted(
            old(w).reject_null,
            spec_record_entries(fields@),
        ) ==> r is Ok && final(w).model() == old(w).model() + spec_record_entries(fields@)),
        *v matches Value::Rec(fields) ==> (!spec_all_accepted(
            old(w).reject_null,
            spec_record_entries(fields@),
        ) ==> r == Err::<(), SerError>(SerError::ValueRejected)
            && final(w).model() == old(w).model() + spec_record_entries(fields@).take(
                spec_first_rejected(old(w).reject_null, spec_record_entries(fields@)))),
{
    match v {
        Value::Rec(fields) => {
            proof {
                assert(v@ is Rec);
            }
            write_own_fields(fields, w)
        },
        _ => {
            proof {
                assert(!(v@ is Rec));
            }
            Err(SerError::ExpectedRecord)
        },
    }
}

} // verus!
