//! The two error families: configuration errors, found while an entity's
//! declarations are resolved, and serialization errors, raised while a map
//! output is produced. No error is ever swallowed or downgraded; each one
//! names what went wrong and surfaces to the immediate caller.

use vstd::prelude::*;

verus! {

/// Spec-level model of a configuration error.
pub enum SpecConfigError {
    UnsupportedShape { entity: Seq<char> },
    UnsupportedFields { entity: Seq<char> },
    UnknownParam { entity: Seq<char>, param: Seq<char> },
    InvalidPosition { entity: Seq<char>, token: Seq<char> },
}

/// An error in an entity's declarations, reported when they are resolved —
/// before any serialization artifact exists for the entity, so it can never
/// surface at serialization time.
#[derive(Debug, PartialEq, Eq)]
pub enum ConfigError {
    /// The entity is not a record at all: a tagged union, for instance.
    UnsupportedShape { entity: String },
    /// The entity is a record, but without named fields (positional fields,
    /// or none).
    UnsupportedFields { entity: String },
    /// An extension declaration used a parameter other than `key`, `k`,
    /// `value`, `v` or `position`.
    UnknownParam { entity: String, param: String },
    /// A `position` parameter carried a token other than `front` or `back`
    /// (compared without regard to ASCII case).
    InvalidPosition { entity: String, token: String },
}

impl View for ConfigError {
    type V = SpecConfigError;

    open spec fn view(&self) -> SpecConfigError {
        match self {
            ConfigError::UnsupportedShape { entity } => SpecConfigError::UnsupportedShape {
                entity: entity@,
            },
            ConfigError::UnsupportedFields { entity } => SpecConfigError::UnsupportedFields {
                entity: entity@,
            },
            ConfigError::UnknownParam { entity, param } => SpecConfigError::UnknownParam {
                entity: entity@,
                param: param@,
            },
            ConfigError::InvalidPosition { entity, token } => SpecConfigError::InvalidPosition {
                entity: entity@,
                token: token@,
            },
        }
    }
}

/// Spec-level model of a serialization error.
pub enum SpecSerError {
    ExpectedRecord,
    ValueRejected,
    UnknownAccessor { accessor: Seq<char> },
}

/// An error raised while a map output is produced. Serialization is
/// single-shot: on any of these the whole operation aborts and no partial
/// output is valid.
#[derive(Debug, PartialEq, Eq)]
pub enum SerError {
    /// The flattening adapter was driven with a value that is not
    /// record-shaped; it flattens one record into a parent map and nothing
    /// else.
    ExpectedRecord,
    /// The consumer format cannot represent a value it was asked to write.
    ValueRejected,
    /// An extra entry named an accessor the entity does not provide.
    UnknownAccessor { accessor: String },
}

impl View for SerError {
    type V = SpecSerError;

    open spec fn view(&self) -> SpecSerError {
        match self {
            SerError::ExpectedRecord => SpecSerError::ExpectedRecord,
            SerError::ValueRejected => SpecSerError::ValueRejected,
            SerError::UnknownAccessor { accessor } => SpecSerError::UnknownAccessor {
                accessor: accessor@,
            },
        }
    }
}

} // verus!
