//! A plain model of the typed values the store's protocol can reply with.
//!
//! The routing engine reads topology replies through this type; the caller
//! converts the transport library's own reply type into it, so the parsing
//! logic here works on data the verifier can see.

use vstd::prelude::*;

verus! {

/// One reply value: an integer, a byte string, a status line, a nested
/// array, an okay marker, or nothing.
pub enum Value {
    /// The absence of a value.
    Nil,
    /// A signed integer.
    Int(i64),
    /// A binary-safe byte string.
    Data(Vec<u8>),
    /// A nested array of values.
    Bulk(Vec<Value>),
    /// A status line, as raw bytes.
    Status(Vec<u8>),
    /// The bare okay confirmation.
    Okay,
}

} // verus!
