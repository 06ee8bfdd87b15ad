//! A position in the record stream, usable for error reporting and seeking.

use vstd::prelude::*;

verus! {

/// A position in delimiter-separated data.
///
/// A position records the byte offset, line number and record index at
/// which a record starts. It is the unit handed to `Reader::seek`.
#[derive(Clone, Copy, PartialEq, Eq, Structural, Debug)]
pub struct Position {
    byte: u64,
    line: u64,
    record: u64,
}

impl Position {
    /// Returns a new position initialized to the start of a stream:
    /// byte offset `0`, line `1`, record index `0`.
    pub fn new() -> (pos: Position)
        ensures
            pos.byte() == 0,
            pos.line() == 1,
            pos.record() == 0,
    {
        Position { byte: 0, line: 1, record: 0 }
    }

    /// The byte offset, starting at `0`, of this position.
    pub closed spec fn spec_byte(&self) -> u64 {
        self.byte
    }

    /// The line number, starting at `1`, of this position.
    pub closed spec fn spec_line(&self) -> u64 {
        self.line
    }

    /// The record index, starting at `0`, of this position.
    pub closed spec fn spec_record(&self) -> u64 {
        self.record
    }

    /// The byte offset, starting at `0`, of this position.
    #[verifier::when_used_as_spec(spec_byte)]
    pub fn byte(&self) -> (b: u64)
        ensures
            b == self.spec_byte(),
    {
        self.byte
    }

    /// The line number, starting at `1`, of this position.
    #[verifier::when_used_as_spec(spec_line)]
    pub fn line(&self) -> (l: u64)
        ensures
            l == self.spec_line(),
    {
        self.line
    }

    /// The record index, starting at `0`, of this position.
    #[verifier::when_used_as_spec(spec_record)]
    pub fn record(&self) -> (r: u64)
        ensures
            r == self.spec_record(),
    {
        self.record
    }

    /// Replaces the byte offset of this position.
    pub fn set_byte(&mut self, byte: u64)
        ensures
            final(self).byte() == byte,
            final(self).line() == old(self).line(),
            final(self).record() == old(self).record(),
    {
        self.byte = byte;
    }

    /// Replaces the line number of this position.
    pub fn set_line(&mut self, line: u64)
        ensures
            final(self).byte() == old(self).byte(),
            final(self).line() == line,
            final(self).record() == old(self).record(),
    {
        self.line = line;
    }

    /// Replaces the record index of this position.
    pub fn set_record(&mut self, record: u64)
        ensures
            final(self).byte() == old(self).byte(),
            final(self).line() == old(self).line(),
            final(self).record() == record,
    {
        self.record = record;
    }
}

} // verus!
