//! Errors of the storage engine and the query pipeline.
use vstd::prelude::*;
use vstd::string::*;
use crate::page_id::PageId;
use crate::text::decimal;

verus! {

/// Failures of a page store.
#[derive(Debug, Clone, Copy, PartialEq, Eq, Structural)]
pub enum DiskError {
    /// The page read back does not match its stored checksum.
    Checksum(PageId),
    /// The backing store failed, or the page does not exist.
    Io,
}

/// Failures of the storage engine and the query pipeline.
#[derive(Debug, Clone, Copy, PartialEq, Eq, Structural)]
pub enum DbError {
    /// A page store failure.
    Disk(DiskError),
    /// A heap page cannot hold the tuple and its slot.
    OutOfSpace,
    /// A slot number beyond the slot directory.
    OutOfRange,
    /// The SQL text is not in the accepted grammar.
    Parse,
    /// A SELECT without FROM cannot be planned.
    SelectWithoutFromUnsupported,
    /// A wildcard mixed with explicit select items.
    WildcardInProjection,
    /// A column name absent from the schema.
    CatalogMiss,
    /// An operator applied to operands it does not accept, or a predicate
    /// that is not boolean.
    TypeError,
    /// Integer division by zero.
    DivisionByZero,
    /// Integer arithmetic outside the 32-bit range.
    Overflow,
    /// A tuple shorter than its schema requires.
    TruncatedTuple,
    /// Varchar bytes that are not UTF-8.
    Utf8Error,
}

/// The message that describes an error.
pub open spec fn message_of(e: DbError) -> Seq<char> {
    match e {
        DbError::Disk(DiskError::Checksum(pid)) => "checksum mismatch for "@ + ("PageId("@
            + decimal(pid.spec_file_id() as nat) + ":"@ + decimal(pid.spec_page_no() as nat)
            + ")"@),
        DbError::Disk(DiskError::Io) => "I/O error"@,
        DbError::OutOfSpace => "not enough free space"@,
        DbError::OutOfRange => "slot out of range"@,
        DbError::Parse => "Parse error: not a supported SELECT statement"@,
        DbError::SelectWithoutFromUnsupported => "SELECT without FROM not yet supported"@,
        DbError::WildcardInProjection => "Wildcard not supported in projection"@,
        DbError::CatalogMiss => "column not found in schema"@,
        DbError::TypeError => "operator or predicate applied to values of the wrong type"@,
        DbError::DivisionByZero => "Division by zero"@,
        DbError::Overflow => "integer overflow"@,
        DbError::TruncatedTuple => "tuple shorter than its schema"@,
        DbError::Utf8Error => "varchar bytes are not valid UTF-8"@,
    }
}

impl DbError {
    /// A human-readable description of the error.
    pub fn message(&self) -> (r: String)
        ensures
            r@ == message_of(*self),
    {
        match self {
            DbError::Disk(DiskError::Checksum(pid)) => {
                let mut out = String::from_str("checksum mismatch for ");
                out.append(pid.describe().as_str());
                out
            },
            DbError::Disk(DiskError::Io) => String::from_str("I/O error"),
            DbError::OutOfSpace => String::from_str("not enough free space"),
            DbError::OutOfRange => String::from_str("slot out of range"),
            DbError::Parse => String::from_str("Parse error: not a supported SELECT statement"),
            DbError::SelectWithoutFromUnsupported => String::from_str(
                "SELECT without FROM not yet supported",
            ),
            DbError::WildcardInProjection => String::from_str("Wildcard not supported in projection"),
            DbError::CatalogMiss => String::from_str("column not found in schema"),
            DbError::TypeError => String::from_str(
                "operator or predicate applied to values of the wrong type",
            ),
            DbError::DivisionByZero => String::from_str("Division by zero"),
            DbError::Overflow => String::from_str("integer overflow"),
            DbError::TruncatedTuple => String::from_str("tuple shorter than its schema"),
            DbError::Utf8Error => String::from_str("varchar bytes are not valid UTF-8"),
        }
    }
}

} // verus!
