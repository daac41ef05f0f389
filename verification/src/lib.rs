//! Converts archived per-agent motion tables into one aggregated show
//! document: home positions plus inter-frame deltas for every agent, after an
//! optional rigid transform, ordered by agent id.

use vstd::prelude::*;

pub mod archive;
pub mod delta;
pub mod ident;
pub mod num;
pub mod show;
pub mod table;
pub mod transform;

verus! {

/// Why a conversion failed. Every failure is final: nothing is skipped and no
/// partial document is produced.
#[derive(Clone, Copy, Debug, PartialEq, Eq, Structural)]
pub enum ConvertError {
    /// The archive bytes could not be read as a compressed container.
    ArchiveRead,
    /// An entry's bytes could not be read as a table.
    TableSyntax,
    /// A table row has too few fields.
    RowFields,
    /// A numeric table field is not a decimal number in range.
    FieldNumeric,
    /// An entry name does not start with the agent pattern.
    EntryName,
    /// The agent number is zero or too large.
    IdOutOfRange,
    /// An entry holds a header but no data rows.
    EntryEmpty,
    /// A transform argument is not three space-separated decimals.
    TripleFormat,
    /// A replacement position list does not fit the records it is for.
    PositionMismatch,
}

} // verus!
