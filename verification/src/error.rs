//! Errors reported while reading delimiter-separated data.

use vstd::prelude::*;

use crate::position::Position;

verus! {

/// A description of the first place at which a field's bytes stop being
/// valid UTF-8.
#[derive(Clone, Copy, Debug)]
pub struct Utf8Error {
    field: usize,
    valid_up_to: usize,
}

impl Utf8Error {
    /// The index of the first field with invalid UTF-8.
    pub closed spec fn spec_field(&self) -> usize {
        self.field
    }

    /// The byte offset within that field up to which the bytes are valid
    /// UTF-8.
    pub closed spec fn spec_valid_up_to(&self) -> usize {
        self.valid_up_to
    }

    pub(crate) fn new(field: usize, valid_up_to: usize) -> (e: Utf8Error)
        ensures
            e.spec_field() == field,
            e.spec_valid_up_to() == valid_up_to,
    {
        Utf8Error { field, valid_up_to }
    }

    /// The index of the first field with invalid UTF-8.
    #[verifier::when_used_as_spec(spec_field)]
    pub fn field(&self) -> (f: usize)
        ensures
            f == self.spec_field(),
    {
        self.field
    }

    /// The byte offset within that field up to which the bytes are valid
    /// UTF-8.
    #[verifier::when_used_as_spec(spec_valid_up_to)]
    pub fn valid_up_to(&self) -> (v: usize)
        ensures
            v == self.spec_valid_up_to(),
    {
        self.valid_up_to
    }
}

/// An error produced while reading delimiter-separated data.
#[derive(Debug)]
pub enum Error {
    /// In strict mode, a record had a field count different from that of
    /// the first record. `pos` is the position of the last record that was
    /// accepted, not of the offending one.
    UnequalLengths { expected_len: u64, pos: Position, len: u64 },
    /// A text-typed accessor was used on a record whose bytes are not
    /// valid UTF-8. For headers, `pos` is the position the header row was
    /// read from, when it came from the stream.
    Utf8 { pos: Option<Position>, err: Utf8Error },
    /// Header data was requested after a seek, without headers ever having
    /// been captured before the seek.
    Seek,
}

} // verus!
