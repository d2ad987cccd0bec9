//! The kinds of failure that the engine reports.

use vstd::prelude::*;

verus! {

/// The closed set of failure kinds reported by the engine.
#[derive(Clone, Copy, Debug, PartialEq, Eq, Structural)]
pub enum DbError {
    /// A collection, vector, bucket or shard with the given identifier is absent.
    NotFound,
    /// The name or identifier is already taken.
    AlreadyExists,
    /// A vector's length differs from the collection's dimension.
    DimensionMismatch,
    /// An argument is outside the accepted set of values.
    InvalidArgument,
    /// Stored bytes could not be read back.
    Io,
    /// A shard could not be reached.
    RemoteUnavailable,
    /// A shard answered with a failure.
    RemoteError,
    /// The node is draining or stopped.
    ShuttingDown,
}

impl DbError {
    /// The kind's name, as shown in messages.
    pub open spec fn name(self) -> Seq<char> {
        match self {
            DbError::NotFound => "NotFound"@,
            DbError::AlreadyExists => "AlreadyExists"@,
            DbError::DimensionMismatch => "DimensionMismatch"@,
            DbError::InvalidArgument => "InvalidArgument"@,
            DbError::Io => "Io"@,
            DbError::RemoteUnavailable => "RemoteUnavailable"@,
            DbError::RemoteError => "RemoteError"@,
            DbError::ShuttingDown => "ShuttingDown"@,
        }
    }

    pub fn to_string(&self) -> (s: String)
        ensures
            s@ == self.name(),
    {
        match self {
            DbError::NotFound => "NotFound".to_owned(),
            DbError::AlreadyExists => "AlreadyExists".to_owned(),
            DbError::DimensionMismatch => "DimensionMismatch".to_owned(),
            DbError::InvalidArgument => "InvalidArgument".to_owned(),
            DbError::Io => "Io".to_owned(),
            DbError::RemoteUnavailable => "RemoteUnavailable".to_owned(),
            DbError::RemoteError => "RemoteError".to_owned(),
            DbError::ShuttingDown => "ShuttingDown".to_owned(),
        }
    }
}

} // verus!
