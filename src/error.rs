//! Errors of query execution.

use vstd::prelude::*;

verus! {

/// Why an execution step failed.
#[derive(Debug, PartialEq, Eq)]
pub enum ExecError {
    /// Stored bytes are malformed or do not match the schema.
    Decode(String),
    /// A not-null output column (its id first) has no stored value, key or default in
    /// the row of the given handle.
    MissingColumn(i64, i64),
    /// A value had to be shortened to fit its type.
    Truncated(String),
    /// A numeric conversion overflowed.
    Overflow(String),
    /// The data changed while it was being read.
    Outdated,
    /// A value could not be read as the type named first; the text of the value follows.
    TruncatedWrongValue(String, String),
    /// A time zone offset, in seconds, that no fixed zone has.
    UnknownTimezone(i64),
    /// A condition that is reported to the client in the response.
    Other(String),
}

} // verus!
