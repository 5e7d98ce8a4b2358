//! The failures that reading a volume can end in.

use vstd::prelude::*;

verus! {

/// Why an operation on the volume failed. No failure is retried and none is
/// turned into an empty or shortened result.
#[derive(Clone, Copy, Debug, PartialEq, Eq, Structural)]
pub enum NtfsError {
    /// The boot sector does not describe an NTFS volume.
    NotNtfs,
    /// The device could not deliver the requested bytes.
    IoFault,
    /// A record number lies beyond the end of the master file table.
    RecordOutOfRange,
    /// The addressed record is not in use.
    RecordNotInUse,
    /// A length or offset inside a record points past the record's end.
    MalformedRecord,
    /// The update sequence of a record does not match: a torn write.
    RecordDamaged,
    /// A directory index points outside its own allocation.
    IndexCorrupt,
    /// A component of the path does not exist.
    PathNotFound,
    /// A component of the path that must be a directory is none.
    NotADirectory,
    /// The record holds no attribute of the requested type and name.
    AttributeNotFound,
    /// The reference carries a sequence number that the record has outlived.
    StaleReference,
}

/// Where on the volume an operation failed.
#[derive(Clone, Copy, Debug, PartialEq, Eq, Structural)]
pub enum Site {
    /// While the volume was set up.
    Volume,
    /// At the record with this number.
    Record(u64),
    /// At the name with this index among the names of the path.
    Component(usize),
    /// At the attribute of this type.
    Attribute(u32),
    /// At the byte of the contents with this offset.
    Contents(u64),
}

/// A failure and the place at which it came up.
#[derive(Clone, Copy, Debug, PartialEq, Eq, Structural)]
pub struct Failure {
    pub error: NtfsError,
    pub site: Site,
}

/// Whether `got` is what `expected` says: the same failure, or a value
/// whose view is the expected one.
pub open spec fn agrees<T: View>(
    got: Result<T, NtfsError>,
    expected: Result<T::V, NtfsError>,
) -> bool {
    match got {
        Ok(value) => expected == Ok::<T::V, NtfsError>(value@),
        Err(e) => expected == Err::<T::V, NtfsError>(e),
    }
}

impl NtfsError {
    /// A short name for the failure, for messages.
    pub fn name(&self) -> (s: &'static str)
        ensures
            s@ == Self::spec_name(*self)@,
    {
        match self {
            NtfsError::NotNtfs => "not an NTFS volume",
            NtfsError::IoFault => "device read failed",
            NtfsError::RecordOutOfRange => "record number out of range",
            NtfsError::RecordNotInUse => "record not in use",
            NtfsError::MalformedRecord => "malformed record",
            NtfsError::RecordDamaged => "record damaged",
            NtfsError::IndexCorrupt => "directory index corrupt",
            NtfsError::PathNotFound => "path not found",
            NtfsError::NotADirectory => "not a directory",
            NtfsError::AttributeNotFound => "attribute not found",
            NtfsError::StaleReference => "stale file reference",
        }
    }

    /// The text that [`NtfsError::name`] returns.
    pub open spec fn spec_name(e: NtfsError) -> &'static str {
        match e {
            NtfsError::NotNtfs => "not an NTFS volume",
            NtfsError::IoFault => "device read failed",
            NtfsError::RecordOutOfRange => "record number out of range",
            NtfsError::RecordNotInUse => "record not in use",
            NtfsError::MalformedRecord => "malformed record",
            NtfsError::RecordDamaged => "record damaged",
            NtfsError::IndexCorrupt => "directory index corrupt",
            NtfsError::PathNotFound => "path not found",
            NtfsError::NotADirectory => "not a directory",
            NtfsError::AttributeNotFound => "attribute not found",
            NtfsError::StaleReference => "stale file reference",
        }
    }
}

} // verus!
