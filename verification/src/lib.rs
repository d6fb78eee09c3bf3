//! Merge extra, computed key/value entries into a record's serialized map
//! output while reusing the record's own field-serialization logic.
//!
//! The library has three parts, composed at configuration time and executed
//! at serialization time:
//!
//! * a *declaration resolver* ([`resolve`]) that reads per-entity extension
//!   declarations and partitions the extra entries into a front and a back
//!   list, forwarding every unrelated declaration untouched;
//! * a *flattening adapter* ([`adapter`]) that serializes a record-shaped
//!   value by forwarding each of its fields into an already-open parent map
//!   writer, and rejects every other value shape;
//! * a *merge orchestrator* ([`merge`]) that opens one map, writes the
//!   front extras, drives the entity's own fields through the adapter,
//!   writes the back extras, and closes the map.
//!
//! Values, map writers and field customizations are modelled by the types in
//! [`value`] and [`writer`]; wire formats and the surrounding serialization
//! framework are outside this library's scope.

pub mod adapter;
pub mod errors;
pub mod merge;
pub mod record;
pub mod resolve;
pub mod value;
pub mod writer;
