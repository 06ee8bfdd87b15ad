//! The tokenizer adapter: the trusted interface to `csv_core`'s
//! incremental tokenizer.
//!
//! The tokenizer is consumed as an external capability. One step feeds it
//! a slice of buffered input together with the unused tails of a record's
//! field and offset storage, and it reports an outcome plus how much
//! input it consumed and how much output it wrote.
//!
//! Beside the machine itself, each tokenizer carries a ghost model of the
//! hidden parser state: the configuration it was built with, the bytes it
//! has consumed, how many records it has completed and the content of the
//! record in progress. The parse itself is named, not restated: the spec
//! function `records_of` stands for the sequence of records that the
//! tokenizer extracts from a byte stream under a given configuration, and
//! the trusted contracts below say that, step by step, the records the
//! machine completes are exactly those of `records_of` on the whole
//! input. The model mirrors the machine faithfully only while the caller
//! feeds it plain prefixes of one input under the table-driven engine;
//! the `sync` flag records that, and every content clause is conditional
//! on it.

use vstd::prelude::*;

use crate::byte_record::record_view;

verus! {

/// The record terminator to use when parsing.
#[derive(Clone, Copy, PartialEq, Eq, Structural)]
pub enum Terminator {
    /// Any of `\r`, `\n` or `\r\n` ends a record.
    CRLF,
    /// The given byte ends a record.
    Any(u8),
}

/// The terminator as a plain value: `None` for the CR/LF/CRLF rule and
/// `Some(b)` for a single terminator byte.
pub open spec fn terminator_code(t: Terminator) -> Option<u8> {
    match t {
        Terminator::CRLF => None,
        Terminator::Any(b) => Some(b),
    }
}

/// The records that `csv_core`'s tokenizer extracts from `data`, under
/// the configuration given by the first five arguments, when `data` is
/// fed to it in full and then end of input is signalled: every record a
/// sequence of fields, every field its unescaped bytes, a trailing
/// unterminated record included. The parse is deterministic in these
/// arguments, but far too intricate to restate; the contracts below only
/// name it.
pub uninterp spec fn records_of(
    delimiter: u8,
    terminator: Option<u8>,
    quote: u8,
    escape: Option<u8>,
    double_quote: bool,
    data: Seq<u8>,
) -> Seq<Seq<Seq<u8>>>;

/// The ghost model of a tokenizer: its configuration and its hidden
/// parsing state.
pub struct TokModel {
    /// The configured field delimiter.
    pub delimiter: u8,
    /// The configured record terminator, as `terminator_code` encodes it.
    pub terminator: Option<u8>,
    /// The configured quote character.
    pub quote: u8,
    /// The configured escape character, when there is one.
    pub escape: Option<u8>,
    /// Whether doubled quotes are read as escapes.
    pub double_quote: bool,
    /// Whether the table-driven engine is in use. Only that engine's
    /// output placement is tracked by this model.
    pub dfa: bool,
    /// The bytes consumed since creation or the last reset.
    pub fed: Seq<u8>,
    /// How many records have been completed since creation or the last
    /// reset.
    pub nrec: nat,
    /// The field bytes of the record in progress, as emitted so far.
    pub pend: Seq<u8>,
    /// The row-absolute field-end offsets of the record in progress, as
    /// emitted so far.
    pub pend_ends: Seq<usize>,
    /// Whether no read step has happened since creation or the last
    /// reset. The machine treats the very first chunk specially (a byte
    /// order mark is stripped only when it lies whole in that chunk).
    pub virgin: bool,
    /// Whether the model has followed the machine faithfully so far:
    /// true as long as every read step satisfied `step_ok`.
    pub sync: bool,
}

/// What one read step must look like for the model to keep following the
/// machine: the table-driven engine is in use, the machine has consumed
/// exactly a prefix of this same input, an empty chunk is passed only at
/// the very end, and the first chunk is either the whole input or long
/// enough that a leading byte order mark lies whole in it.
pub open spec fn step_ok(m: TokModel, input: Seq<u8>, from: int, upto: int) -> bool {
    &&& m.dfa
    &&& m.fed == input.take(from)
    &&& (from == upto ==> upto == input.len())
    &&& (m.virgin ==> upto == input.len() || upto - from >= 4)
}

/// The parse of `data` under the model's configuration.
pub open spec fn model_records(m: TokModel, data: Seq<u8>) -> Seq<Seq<Seq<u8>>> {
    records_of(m.delimiter, m.terminator, m.quote, m.escape, m.double_quote, data)
}

/// The machine itself, held opaquely: `csv_core::Reader` cannot be
/// declared to the verifier here, so it is carried inside this struct.
#[verifier::external_body]
pub(crate) struct TokenizerCore {
    inner: csv_core::Reader,
}

/// The incremental tokenizer together with the ghost model of its hidden
/// state. The wrappers below are its only interface.
pub struct Tokenizer {
    pub(crate) core: TokenizerCore,
    pub(crate) shadow: Ghost<TokModel>,
}

/// What one tokenizer step reported.
pub(crate) enum ReadOutcome {
    /// The input given was exhausted before a record ended.
    InputEmpty,
    /// The field storage is full; grow it and retry.
    OutputFull,
    /// The offset storage is full; grow it and retry.
    OutputEndsFull,
    /// A full record has been written.
    Record,
    /// There is nothing left to read.
    End,
}

/// Relies on csv_core::ReaderBuilder: `delimiter`, `terminator`, `quote`,
/// `escape`, `double_quote` and `nfa` set the configuration knobs of
/// those names, and `build` returns a machine for that configuration
/// that has consumed nothing yet.
#[verifier::external_body]
fn new_core(
    delimiter: u8,
    terminator: Terminator,
    quote: u8,
    escape: Option<u8>,
    double_quote: bool,
    nfa: bool,
) -> TokenizerCore {
    let term = match terminator {
        Terminator::CRLF => csv_core::Terminator::CRLF,
        Terminator::Any(b) => csv_core::Terminator::Any(b),
    };
    let mut builder = csv_core::ReaderBuilder::new();
    builder.delimiter(delimiter).terminator(term).quote(quote);
    builder.escape(escape).double_quote(double_quote).nfa(nfa);
    TokenizerCore { inner: builder.build() }
}

/// Builds a tokenizer and starts its model over the fresh machine.
pub(crate) fn build_tokenizer(
    delimiter: u8,
    terminator: Terminator,
    quote: u8,
    escape: Option<u8>,
    double_quote: bool,
    nfa: bool,
) -> (r: Tokenizer)
    ensures
        r.shadow@.delimiter == delimiter,
        r.shadow@.terminator == terminator_code(terminator),
        r.shadow@.quote == quote,
        r.shadow@.escape == escape,
        r.shadow@.double_quote == double_quote,
        r.shadow@.dfa == !nfa,
        r.shadow@.fed == Seq::<u8>::empty(),
        r.shadow@.nrec == 0,
        r.shadow@.pend == Seq::<u8>::empty(),
        r.shadow@.pend_ends == Seq::<usize>::empty(),
        r.shadow@.virgin,
        r.shadow@.sync,
{
    let core = new_core(delimiter, terminator, quote, escape, double_quote, nfa);
    Tokenizer {
        core,
        shadow: Ghost(
            TokModel {
                delimiter,
                terminator: terminator_code(terminator),
                quote,
                escape,
                double_quote,
                dfa: !nfa,
                fed: Seq::empty(),
                nrec: 0,
                pend: Seq::empty(),
                pend_ends: Seq::empty(),
                virgin: true,
                sync: true,
            },
        ),
    }
}

/// Relies on csv_core::Reader::read_record: it parses at most one record
/// from `input[from..upto]`, writing field bytes into `fields[outlen..]`
/// and row-absolute field-end offsets into `ends[endlen..]`, and returns
/// the outcome together with the counts of input bytes consumed, field
/// bytes written and offsets written. Input consumed and offsets written
/// are bounded by the room given, and only the slices passed in are
/// written. While the model is in sync (every step so far fed the
/// table-driven engine a plain prefix of this same `input`, see
/// `step_ok`), the machine's behaviour is a function of the bytes
/// consumed, and the records it completes are exactly, and in order,
/// those of `records_of` on the whole of `input`; a completed record is
/// reported through the buffers just written, end of stream is reported
/// exactly when every record of the parse is out, and a full-output
/// report that consumed nothing means the room given was zero.
#[verifier::external_body]
pub(crate) fn tokenizer_read(
    tok: &mut Tokenizer,
    input: &Vec<u8>,
    from: usize,
    upto: usize,
    fields: &mut Vec<u8>,
    outlen: usize,
    ends: &mut Vec<usize>,
    endlen: usize,
) -> (r: (ReadOutcome, usize, usize, usize))
    requires
        from <= upto <= input@.len(),
        outlen <= old(fields)@.len(),
        endlen <= old(ends)@.len(),
    ensures
        r.1 <= upto - from,
        r.3 <= old(ends)@.len() - endlen,
        final(fields)@.len() == old(fields)@.len(),
        final(ends)@.len() == old(ends)@.len(),
        final(fields)@.subrange(0, outlen as int) == old(fields)@.subrange(0, outlen as int),
        final(ends)@.subrange(0, endlen as int) == old(ends)@.subrange(0, endlen as int),
        final(tok).shadow@.delimiter == old(tok).shadow@.delimiter,
        final(tok).shadow@.terminator == old(tok).shadow@.terminator,
        final(tok).shadow@.quote == old(tok).shadow@.quote,
        final(tok).shadow@.escape == old(tok).shadow@.escape,
        final(tok).shadow@.double_quote == old(tok).shadow@.double_quote,
        final(tok).shadow@.dfa == old(tok).shadow@.dfa,
        !final(tok).shadow@.virgin,
        final(tok).shadow@.sync == (old(tok).shadow@.sync && step_ok(
            old(tok).shadow@,
            input@,
            from as int,
            upto as int,
        )),
        final(tok).shadow@.sync ==> {
            let m = old(tok).shadow@;
            let rec = records_of(m.delimiter, m.terminator, m.quote, m.escape, m.double_quote, input@);
            &&& final(tok).shadow@.fed == m.fed + input@.subrange(from as int, from + r.1)
            &&& r.2 <= old(fields)@.len() - outlen
            &&& r.2 <= r.1
            &&& r.3 <= r.1 + 1
            &&& (!(r.0 is Record) ==> r.3 <= r.1)
            &&& (r.0 is InputEmpty ==> r.1 == upto - from)
            &&& (r.0 is Record ==> {
                &&& final(tok).shadow@.nrec == m.nrec + 1
                &&& final(tok).shadow@.pend == Seq::<u8>::empty()
                &&& final(tok).shadow@.pend_ends == Seq::<usize>::empty()
                &&& r.3 >= 1
                &&& m.nrec < rec.len()
                &&& ((old(fields)@.subrange(0, outlen as int) == m.pend && old(ends)@.subrange(
                    0,
                    endlen as int,
                ) == m.pend_ends) ==> rec[m.nrec as int] == record_view(
                    final(fields)@,
                    final(ends)@,
                    endlen + r.3,
                ))
            })
            &&& (!(r.0 is Record) ==> {
                &&& final(tok).shadow@.nrec == m.nrec
                &&& final(tok).shadow@.pend == m.pend + final(fields)@.subrange(
                    outlen as int,
                    outlen + r.2,
                )
                &&& final(tok).shadow@.pend_ends == m.pend_ends + final(ends)@.subrange(
                    endlen as int,
                    endlen + r.3,
                )
            })
            &&& (r.0 is End ==> {
                &&& m.nrec == rec.len()
                &&& final(tok).shadow@.fed == input@
                &&& final(tok).shadow@.pend == Seq::<u8>::empty()
                &&& final(tok).shadow@.pend_ends == Seq::<usize>::empty()
                &&& r.2 == 0
                &&& r.3 == 0
            })
            &&& ((r.0 is OutputFull && r.1 == 0) ==> outlen == old(fields)@.len() && r.2 == 0
                && r.3 == 0)
            &&& ((r.0 is OutputEndsFull && r.1 == 0) ==> endlen == old(ends)@.len() && r.2 == 0
                && r.3 == 0)
            &&& (from == upto ==> (r.0 is Record || r.0 is End || r.0 is OutputEndsFull))
            &&& ((from < upto && outlen < old(fields)@.len() && endlen < old(ends)@.len())
                ==> r.1 >= 1)
        },
{
    let (res, nin, nout, nend) = tok.core.inner.read_record(
        &input[from..upto],
        &mut fields[outlen..],
        &mut ends[endlen..],
    );
    let outcome = match res {
        csv_core::ReadRecordResult::InputEmpty => ReadOutcome::InputEmpty,
        csv_core::ReadRecordResult::OutputFull => ReadOutcome::OutputFull,
        csv_core::ReadRecordResult::OutputEndsFull => ReadOutcome::OutputEndsFull,
        csv_core::ReadRecordResult::Record => ReadOutcome::Record,
        csv_core::ReadRecordResult::End => ReadOutcome::End,
    };
    (outcome, nin, nout, nend)
}

/// Relies on csv_core::Reader::line: the tokenizer's current line
/// counter, as advanced by the terminators it has consumed.
#[verifier::external_body]
pub(crate) fn tokenizer_line(tok: &Tokenizer) -> u64 {
    tok.core.inner.line()
}

/// Relies on csv_core::Reader::reset: it clears all incremental parsing
/// state, as if the tokenizer had never been used, while keeping the
/// configuration; the model starts over with it.
#[verifier::external_body]
pub(crate) fn tokenizer_reset(tok: &mut Tokenizer)
    ensures
        final(tok).shadow@.delimiter == old(tok).shadow@.delimiter,
        final(tok).shadow@.terminator == old(tok).shadow@.terminator,
        final(tok).shadow@.quote == old(tok).shadow@.quote,
        final(tok).shadow@.escape == old(tok).shadow@.escape,
        final(tok).shadow@.double_quote == old(tok).shadow@.double_quote,
        final(tok).shadow@.dfa == old(tok).shadow@.dfa,
        final(tok).shadow@.fed == Seq::<u8>::empty(),
        final(tok).shadow@.nrec == 0,
        final(tok).shadow@.pend == Seq::<u8>::empty(),
        final(tok).shadow@.pend_ends == Seq::<usize>::empty(),
        final(tok).shadow@.virgin,
        final(tok).shadow@.sync,
{
    tok.core.inner.reset();
}

/// Relies on csv_core::Reader::set_line: it primes the tokenizer's line
/// counter, for use after a reset. The counter is not part of the model.
#[verifier::external_body]
pub(crate) fn tokenizer_set_line(tok: &mut Tokenizer, line: u64)
    ensures
        final(tok).shadow == old(tok).shadow,
{
    tok.core.inner.set_line(line);
}

} // verus!
