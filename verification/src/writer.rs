//! The map writer: the runtime object through which ordered key/value
//! entries are appended to produce a map-shaped output. The writer is owned
//! by the consumer of a serialization; the merge orchestrator and the
//! flattening adapter only borrow it to append entries, and the map is not
//! transactional — after a failed write the consumer must discard whatever
//! was appended so far.

use crate::errors::SerError;
use crate::value::Entry;
use crate::value::SpecEntry;
use crate::value::SpecValue;
use crate::value::Value;
use crate::value::spec_entries_of;
use crate::value::spec_entry_of;
use vstd::prelude::*;

verus! {

/// Whether a consumer with the given profile can represent `v`. A profile
/// with `reject_null` set stands for a format that has no way to encode the
/// absent value and fails on it at write time.
pub open spec fn spec_accepts(reject_null: bool, v: SpecValue) -> bool {
    !(reject_null && v is Null)
}

/// An open, ordered map output.
pub struct MapWriter {
    /// The entries written so far, in order.
    pub entries: Vec<Entry>,
    /// The consumer's profile: when set, the format cannot represent the
    /// [`Value::Null`] value and rejects any entry holding it.
    pub reject_null: bool,
    /// The advisory size hint the map was opened with; this in-memory
    /// consumer keeps it but has no use for it.
    pub size_hint: Option<usize>,
}

impl MapWriter {
    /// The model of the written entries.
    pub open spec fn model(&self) -> Seq<SpecEntry> {
        spec_entries_of(self.entries@)
    }

    /// Open a new, empty map output for a consumer with the given profile.
    pub fn begin(size_hint: Option<usize>, reject_null: bool) -> (w: MapWriter)
        ensures
            w.model() == Seq::<SpecEntry>::empty(),
            w.reject_null == reject_null,
            w.size_hint == size_hint,
    {
        MapWriter { entries: Vec::new(), reject_null, size_hint }
    }

    /// Append one entry. A value the consumer cannot represent is rejected,
    /// and the map keeps exactly the entries it had.
    pub fn write_entry(&mut self, key: String, value: Value) -> (r: Result<(), SerError>)
        ensures
            final(self).reject_null == old(self).reject_null,
            final(self).size_hint == old(self).size_hint,
            spec_accepts(old(self).reject_null, value@) ==> r is Ok && final(self).model()
                == old(self).model().push(SpecEntry { key: key@, value: value@ }),
            !spec_accepts(old(self).reject_null, value@) ==> r == Err::<(), SerError>(
                SerError::ValueRejected,
            ) && *final(self) == *old(self),
    {
        let is_null = match &value {
            Value::Null => true,
            _ => false,
        };
        proof {
            assert(is_null <==> value@ is Null);
        }
        if self.reject_null && is_null {
            Err(SerError::ValueRejected)
        } else {
            let ghost pre = self.entries@;
            self.entries.push(Entry { key, value });
            proof {
                assert(self.entries@.subrange(0, self.entries@.len() - 1) =~= pre);
                assert(self.entries@[self.entries@.len() - 1] == (Entry { key, value }));
                assert(spec_entries_of(self.entries@) == spec_entries_of(pre).push(
                    spec_entry_of(self.entries@[self.entries@.len() - 1])));
                assert(spec_entry_of(self.entries@[self.entries@.len() - 1]) == (SpecEntry {
                    key: key@,
                    value: value@,
                }));
            }
            Ok(())
        }
    }

    /// Close the map and hand the finished, ordered entries to the caller.
    pub fn finish(self) -> (out: Vec<Entry>)
        ensures
            spec_entries_of(out@) == self.model(),
    {
        self.entries
    }
}

} // verus!
