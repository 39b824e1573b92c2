//! Errors reported by the store's decoding and lookup logic.
use crate::text::{push_decimal, push_hex, push_str, spec_decimal, spec_hex, string_from};
use vstd::prelude::*;

verus! {

/// Why a record, a hint file, or a lookup was refused.
#[derive(Clone, Copy, Debug, PartialEq, Eq, Structural)]
pub enum BitdbError {
    /// The input ends before the record does.
    TruncatedRecord,
    /// The first four bytes are not the record magic.
    InvalidRecordMagic(u32),
    /// The format version byte is not the supported one.
    InvalidRecordVersion(u8),
    /// The flags byte names no known flag.
    InvalidRecordFlags(u8),
    /// The stored checksum differs from the one computed over the record.
    ChecksumMismatch { expected: u32, actual: u32 },
    /// No data file with this id is known.
    DataFileNotFound(u32),
    /// A hint file is malformed.
    InvalidHintFile,
}

impl BitdbError {
    /// True for the errors that mean a record's bytes are damaged (as
    /// opposed to merely cut short).
    pub open spec fn spec_is_corruption(&self) -> bool {
        match self {
            BitdbError::ChecksumMismatch { .. } => true,
            BitdbError::InvalidRecordMagic(_) => true,
            BitdbError::InvalidRecordVersion(_) => true,
            BitdbError::InvalidRecordFlags(_) => true,
            _ => false,
        }
    }

    /// Whether this error means a record's bytes are damaged.
    #[verifier::when_used_as_spec(spec_is_corruption)]
    pub fn is_corruption(&self) -> (b: bool)
        ensures
            b == self.spec_is_corruption(),
    {
        match self {
            BitdbError::ChecksumMismatch { .. } => true,
            BitdbError::InvalidRecordMagic(_) => true,
            BitdbError::InvalidRecordVersion(_) => true,
            BitdbError::InvalidRecordFlags(_) => true,
            _ => false,
        }
    }

    /// The message shown for the error: the numbers of the magic and the
    /// checksums in lowercase hexadecimal after `0x`, the others in decimal.
    pub open spec fn spec_message(&self) -> Seq<char> {
        match self {
            BitdbError::TruncatedRecord => "record truncated"@,
            BitdbError::InvalidRecordMagic(m) => "invalid record magic: 0x"@ + spec_hex(*m as nat),
            BitdbError::InvalidRecordVersion(v) => "invalid record version: "@ + spec_decimal(
                *v as nat,
            ),
            BitdbError::InvalidRecordFlags(f) => "invalid record flags: "@ + spec_decimal(*f as nat),
            BitdbError::ChecksumMismatch { expected, actual } => "record checksum mismatch: expected=0x"@
                + spec_hex(*expected as nat) + ", actual=0x"@ + spec_hex(*actual as nat),
            BitdbError::DataFileNotFound(id) => "data file not found: "@ + spec_decimal(*id as nat),
            BitdbError::InvalidHintFile => "invalid hint file"@,
        }
    }

    /// The message shown for the error, such as
    /// `invalid record magic: 0x12345678` or `data file not found: 7`.
    pub fn message(&self) -> (s: String)
        ensures
            s@ == self.spec_message(),
    {
        match self {
            BitdbError::TruncatedRecord => string_from("record truncated"),
            BitdbError::InvalidRecordMagic(m) => {
                let mut s = string_from("invalid record magic: 0x");
                push_hex(&mut s, *m as u64);
                s
            },
            BitdbError::InvalidRecordVersion(v) => {
                let mut s = string_from("invalid record version: ");
                push_decimal(&mut s, *v as u64);
                s
            },
            BitdbError::InvalidRecordFlags(f) => {
                let mut s = string_from("invalid record flags: ");
                push_decimal(&mut s, *f as u64);
                s
            },
            BitdbError::ChecksumMismatch { expected, actual } => {
                let mut s = string_from("record checksum mismatch: expected=0x");
                push_hex(&mut s, *expected as u64);
                push_str(&mut s, ", actual=0x");
                push_hex(&mut s, *actual as u64);
                s
            },
            BitdbError::DataFileNotFound(id) => {
                let mut s = string_from("data file not found: ");
                push_decimal(&mut s, *id as u64);
                s
            },
            BitdbError::InvalidHintFile => string_from("invalid hint file"),
        }
    }
}

/// The errors that mean a record's bytes are damaged are exactly a wrong
/// checksum, magic, version or flags byte; a record cut short, a missing
/// data file and a malformed hint file are not.
pub proof fn law_damage_errors(e: BitdbError)
    ensures
        e.spec_is_corruption() <==> (e is ChecksumMismatch || e is InvalidRecordMagic
            || e is InvalidRecordVersion || e is InvalidRecordFlags),
{
}

} // verus!
