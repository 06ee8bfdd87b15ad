//! The stream engine: a buffered read loop over the tokenizer that
//! assembles records, tracks position, caches the header row, enforces
//! field-count consistency and supports seeking.
//!
//! The engine owns the byte source as an in-memory buffer together with a
//! cursor, and feeds it to the tokenizer in chunks of at most the
//! configured buffer capacity. Two ghost histories document its
//! behaviour: `phys` collects every record the tokenizer completed, and
//! `delivered` collects every record handed to the caller. The header
//! protocol and the order of reads are specified, and proved, as
//! relations between the two.

use vstd::prelude::*;

use vstd::utf8::valid_utf8;

use crate::byte_record::ByteRecord;
use crate::error::{Error, Utf8Error};
use crate::position::Position;
use crate::string_record::{
    StringRecord,
    all_fields_utf8,
    describes_first_invalid,
    first_invalid_field,
};
use crate::tokenizer::{
    ReadOutcome,
    Terminator,
    Tokenizer,
    build_tokenizer,
    model_records,
    records_of,
    step_ok,
    terminator_code,
    tokenizer_line,
    tokenizer_read,
    tokenizer_reset,
    tokenizer_set_line,
};

verus! {

/// Builds a reader with various configuration knobs.
///
/// Once a `Reader` is built, its configuration cannot be changed.
pub struct ReaderBuilder {
    delimiter: u8,
    terminator: Terminator,
    quote: u8,
    escape: Option<u8>,
    double_quote: bool,
    nfa: bool,
    capacity: usize,
    flexible: bool,
    has_headers: bool,
}

impl ReaderBuilder {
    /// Whether the first row is hidden from normal reads.
    pub closed spec fn spec_has_headers(&self) -> bool {
        self.has_headers
    }

    /// Whether records may differ in field count.
    pub closed spec fn spec_flexible(&self) -> bool {
        self.flexible
    }

    /// The configured buffer capacity.
    pub closed spec fn spec_capacity(&self) -> usize {
        self.capacity
    }

    /// The configured field delimiter.
    pub closed spec fn spec_delimiter(&self) -> u8 {
        self.delimiter
    }

    /// The configured record terminator, as `terminator_code` encodes it.
    pub closed spec fn spec_terminator(&self) -> Option<u8> {
        terminator_code(self.terminator)
    }

    /// The configured quote character.
    pub closed spec fn spec_quote(&self) -> u8 {
        self.quote
    }

    /// The configured escape character, when there is one.
    pub closed spec fn spec_escape(&self) -> Option<u8> {
        self.escape
    }

    /// Whether doubled quotes are read as escapes.
    pub closed spec fn spec_double_quote(&self) -> bool {
        self.double_quote
    }

    /// Whether the tokenizer's NFA engine was requested.
    pub closed spec fn spec_nfa(&self) -> bool {
        self.nfa
    }

    /// The whole configuration that shapes the parse, as one tuple:
    /// delimiter, terminator, quote, escape, doubled-quote toggle, NFA
    /// toggle.
    pub open spec fn spec_parse_config(&self) -> (u8, Option<u8>, u8, Option<u8>, bool, bool) {
        (
            self.spec_delimiter(),
            self.spec_terminator(),
            self.spec_quote(),
            self.spec_escape(),
            self.spec_double_quote(),
            self.spec_nfa(),
        )
    }

    /// Creates a new builder with the default configuration: `,` as the
    /// delimiter, CR, LF or CRLF as the terminator, `"` as the quote, no
    /// escape character, doubled quotes read as escapes, headers treated
    /// specially, strict field counts and an 8 KiB buffer.
    pub fn new() -> (b: ReaderBuilder)
        ensures
            b.spec_has_headers(),
            !b.spec_flexible(),
            b.spec_capacity() == 8192,
            b.spec_parse_config() == (0x2cu8, None::<u8>, 0x22u8, None::<u8>, true, false),
    {
        ReaderBuilder {
            delimiter: 0x2c,  // ','
            terminator: Terminator::CRLF,
            quote: 0x22,  // '"'
            escape: None,
            double_quote: true,
            nfa: false,
            capacity: 8192,
            flexible: false,
            has_headers: true,
        }
    }

    /// Builds a reader over the given source bytes with this
    /// configuration.
    pub fn from_reader(&self, data: Vec<u8>) -> (rdr: Reader)
        ensures
            rdr.wf(),
            rdr.aligned(),
            rdr.has_headers_cfg() == self.spec_has_headers(),
            rdr.is_flexible() == self.spec_flexible(),
            !rdr.has_seeked(),
            !rdr.first_done(),
            !rdr.at_eof(),
            !rdr.manual_headers(),
            rdr.is_clean(),
            rdr.header_bytes() is None,
            rdr.first_count() is None,
            rdr.phys() == Seq::<Seq<Seq<u8>>>::empty(),
            rdr.delivered() == Seq::<Seq<Seq<u8>>>::empty(),
            rdr.spec_position().byte() == 0,
            rdr.spec_position().line() == 1,
            rdr.spec_position().record() == 0,
            rdr.prev_position() == rdr.spec_position(),
            rdr.source() == data@,
            rdr.source_offset() == 0,
            rdr.source_records() == records_of(
                self.spec_delimiter(),
                self.spec_terminator(),
                self.spec_quote(),
                self.spec_escape(),
                self.spec_double_quote(),
                data@,
            ),
            (!self.spec_nfa() && self.spec_capacity() >= 4 && data@.len() < usize::MAX)
                ==> rdr.content_tracked(),
    {
        Reader::build(self, data)
    }

    /// The field delimiter to use when parsing. The default is `,`.
    pub fn delimiter(&mut self, delimiter: u8) -> (ret: &mut ReaderBuilder)
        ensures
            ret.spec_has_headers() == old(self).spec_has_headers(),
            ret.spec_flexible() == old(self).spec_flexible(),
            ret.spec_capacity() == old(self).spec_capacity(),
            ret.spec_parse_config() == (delimiter, old(self).spec_terminator(), old(self).spec_quote(), old(self).spec_escape(), old(self).spec_double_quote(), old(self).spec_nfa()),
            *final(self) == *final(ret),
    {
        self.delimiter = delimiter;
        self
    }

    /// Whether to treat the first row as a special header row.
    ///
    /// By default the first row is hidden from the record reading
    /// methods. The `headers` and `byte_headers` accessors are unaffected
    /// by this setting and always return the first row.
    pub fn has_headers(&mut self, yes: bool) -> (ret: &mut ReaderBuilder)
        ensures
            ret.spec_has_headers() == yes,
            ret.spec_flexible() == old(self).spec_flexible(),
            ret.spec_capacity() == old(self).spec_capacity(),
            ret.spec_parse_config() == old(self).spec_parse_config(),
            *final(self) == *final(ret),
    {
        self.has_headers = yes;
        self
    }

    /// Whether the number of fields may change from record to record.
    ///
    /// Disabled by default: a record whose field count differs from the
    /// first record's is reported as an error.
    pub fn flexible(&mut self, yes: bool) -> (ret: &mut ReaderBuilder)
        ensures
            ret.spec_has_headers() == old(self).spec_has_headers(),
            ret.spec_flexible() == yes,
            ret.spec_capacity() == old(self).spec_capacity(),
            ret.spec_parse_config() == old(self).spec_parse_config(),
            *final(self) == *final(ret),
    {
        self.flexible = yes;
        self
    }

    /// The record terminator to use when parsing. The default treats any
    /// of CR, LF or CRLF as a terminator.
    pub fn terminator(&mut self, term: Terminator) -> (ret: &mut ReaderBuilder)
        ensures
            ret.spec_has_headers() == old(self).spec_has_headers(),
            ret.spec_flexible() == old(self).spec_flexible(),
            ret.spec_capacity() == old(self).spec_capacity(),
            ret.spec_parse_config() == (old(self).spec_delimiter(), terminator_code(term), old(self).spec_quote(), old(self).spec_escape(), old(self).spec_double_quote(), old(self).spec_nfa()),
            *final(self) == *final(ret),
    {
        self.terminator = term;
        self
    }

    /// The quote character to use when parsing. The default is `"`.
    pub fn quote(&mut self, quote: u8) -> (ret: &mut ReaderBuilder)
        ensures
            ret.spec_has_headers() == old(self).spec_has_headers(),
            ret.spec_flexible() == old(self).spec_flexible(),
            ret.spec_capacity() == old(self).spec_capacity(),
            ret.spec_parse_config() == (old(self).spec_delimiter(), old(self).spec_terminator(), quote, old(self).spec_escape(), old(self).spec_double_quote(), old(self).spec_nfa()),
            *final(self) == *final(ret),
    {
        self.quote = quote;
        self
    }

    /// The escape character to use when parsing. Disabled by default; in
    /// some data quotes are escaped with a character like `\` instead of
    /// by doubling.
    pub fn escape(&mut self, escape: Option<u8>) -> (ret: &mut ReaderBuilder)
        ensures
            ret.spec_has_headers() == old(self).spec_has_headers(),
            ret.spec_flexible() == old(self).spec_flexible(),
            ret.spec_capacity() == old(self).spec_capacity(),
            ret.spec_parse_config() == (old(self).spec_delimiter(), old(self).spec_terminator(), old(self).spec_quote(), escape, old(self).spec_double_quote(), old(self).spec_nfa()),
            *final(self) == *final(ret),
    {
        self.escape = escape;
        self
    }

    /// Enable or disable doubled quotes as escapes. Enabled by default.
    pub fn double_quote(&mut self, yes: bool) -> (ret: &mut ReaderBuilder)
        ensures
            ret.spec_has_headers() == old(self).spec_has_headers(),
            ret.spec_flexible() == old(self).spec_flexible(),
            ret.spec_capacity() == old(self).spec_capacity(),
            ret.spec_parse_config() == (old(self).spec_delimiter(), old(self).spec_terminator(), old(self).spec_quote(), old(self).spec_escape(), yes, old(self).spec_nfa()),
            *final(self) == *final(ret),
    {
        self.double_quote = yes;
        self
    }

    /// A convenience that configures reading of ASCII delimited text: the
    /// delimiter becomes the unit separator and the terminator the record
    /// separator.
    pub fn ascii(&mut self) -> (ret: &mut ReaderBuilder)
        ensures
            ret.spec_has_headers() == old(self).spec_has_headers(),
            ret.spec_flexible() == old(self).spec_flexible(),
            ret.spec_capacity() == old(self).spec_capacity(),
            ret.spec_parse_config() == (0x1fu8, Some(0x1eu8), old(self).spec_quote(), old(self).spec_escape(), old(self).spec_double_quote(), old(self).spec_nfa()),
            *final(self) == *final(ret),
    {
        self.delimiter = 0x1f;
        self.terminator = Terminator::Any(0x1e);
        self
    }

    /// Sets the capacity (in bytes) of the chunks in which the source is
    /// fed to the tokenizer.
    pub fn buffer_capacity(&mut self, capacity: usize) -> (ret: &mut ReaderBuilder)
        ensures
            ret.spec_has_headers() == old(self).spec_has_headers(),
            ret.spec_flexible() == old(self).spec_flexible(),
            ret.spec_capacity() == capacity,
            ret.spec_parse_config() == old(self).spec_parse_config(),
            *final(self) == *final(ret),
    {
        self.capacity = capacity;
        self
    }

    /// Enable or disable the tokenizer's NFA. Intended for debugging; the
    /// NFA is always slower than the DFA.
    pub fn nfa(&mut self, yes: bool) -> (ret: &mut ReaderBuilder)
        ensures
            ret.spec_has_headers() == old(self).spec_has_headers(),
            ret.spec_flexible() == old(self).spec_flexible(),
            ret.spec_capacity() == old(self).spec_capacity(),
            ret.spec_parse_config() == (old(self).spec_delimiter(), old(self).spec_terminator(), old(self).spec_quote(), old(self).spec_escape(), old(self).spec_double_quote(), yes),
            *final(self) == *final(ret),
    {
        self.nfa = yes;
        self
    }
}

struct Headers {
    /// The position just before the header row was parsed; absent when
    /// the caller set the headers explicitly.
    pos: Option<Position>,
    /// The header row, as raw bytes.
    byte_record: ByteRecord,
    /// The header row as validated text, or the description of where its
    /// bytes stop being valid UTF-8. Computed once.
    string_record: Result<StringRecord, Utf8Error>,
}

struct ReaderState {
    /// The first row of the data, captured regardless of whether headers
    /// are hidden from reads.
    headers: Option<Headers>,
    /// When set, the first row is excluded from normal reads.
    has_headers: bool,
    /// When set, records may differ in field count.
    flexible: bool,
    /// The field count of the first record parsed, in strict mode.
    first_field_count: Option<u64>,
    /// The position just before the previous record was parsed.
    prev_pos: Position,
    /// The current position; observable at record starts.
    cur_pos: Position,
    /// Whether this reader has been seeked.
    seeked: bool,
    /// Whether a first record has been handed to the caller.
    first: bool,
    /// Whether the end of the source has been reached.
    eof: bool,
    /// Every record the tokenizer has completed, in order.
    phys: Ghost<Seq<Seq<Seq<u8>>>>,
    /// Every record handed to the caller by the raw read, in order.
    delivered: Ghost<Seq<Seq<Seq<u8>>>>,
    /// Whether no field-count error has occurred so far.
    clean: Ghost<bool>,
    /// Whether the caller has overridden the headers.
    manual: Ghost<bool>,
}

/// A reader of delimiter-separated records over an in-memory byte source.
pub struct Reader {
    core: Tokenizer,
    input: Vec<u8>,
    cursor: usize,
    capacity: usize,
    state: ReaderState,
}

impl Reader {
    /// The cached header row's bytes, when one is cached.
    pub closed spec fn header_bytes(&self) -> Option<Seq<Seq<u8>>> {
        match self.state.headers {
            Some(h) => Some(h.byte_record@),
            None => None,
        }
    }

    /// The cached header row's text form: the same bytes when they are
    /// valid UTF-8, and otherwise the description of the first invalid
    /// field.
    pub closed spec fn header_text(&self) -> Option<Result<Seq<Seq<u8>>, Utf8Error>> {
        match self.state.headers {
            Some(h) => Some(
                match h.string_record {
                    Ok(s) => Ok(s@),
                    Err(e) => Err(e),
                },
            ),
            None => None,
        }
    }

    /// The position the cached header row was read from; `None` inside
    /// the outer `Some` when the caller set the headers explicitly.
    pub closed spec fn header_origin(&self) -> Option<Option<Position>> {
        match self.state.headers {
            Some(h) => Some(h.pos),
            None => None,
        }
    }

    /// Whether the first row is hidden from normal reads.
    pub closed spec fn has_headers_cfg(&self) -> bool {
        self.state.has_headers
    }

    /// Whether records may differ in field count.
    pub closed spec fn is_flexible(&self) -> bool {
        self.state.flexible
    }

    /// Whether this reader has been seeked.
    pub closed spec fn has_seeked(&self) -> bool {
        self.state.seeked
    }

    /// Whether a first record has been handed to the caller.
    pub closed spec fn first_done(&self) -> bool {
        self.state.first
    }

    /// Whether the end of the source has been reached.
    pub closed spec fn at_eof(&self) -> bool {
        self.state.eof
    }

    /// The field count of the first record parsed, in strict mode.
    pub closed spec fn first_count(&self) -> Option<u64> {
        self.state.first_field_count
    }

    /// The position of the record about to be read next.
    pub closed spec fn spec_position(&self) -> Position {
        self.state.cur_pos
    }

    /// The position just before the previous record was parsed.
    pub closed spec fn prev_position(&self) -> Position {
        self.state.prev_pos
    }

    /// Every record the tokenizer has completed, in order.
    pub closed spec fn phys(&self) -> Seq<Seq<Seq<u8>>> {
        self.state.phys@
    }

    /// Every record handed to the caller by the raw read, in order.
    pub closed spec fn delivered(&self) -> Seq<Seq<Seq<u8>>> {
        self.state.delivered@
    }

    /// Whether no field-count error has occurred so far.
    pub closed spec fn is_clean(&self) -> bool {
        self.state.clean@
    }

    /// Whether the caller has overridden the headers.
    pub closed spec fn manual_headers(&self) -> bool {
        self.state.manual@
    }

    /// The source bytes this reader was built over.
    pub closed spec fn source(&self) -> Seq<u8> {
        self.input@
    }

    /// How far into the source the reader has moved: the offset of the
    /// first byte not yet handed to the tokenizer. Reads advance it by
    /// exactly the bytes they consume; a seek moves it to the seeked
    /// byte offset.
    pub closed spec fn source_offset(&self) -> int {
        self.cursor as int
    }

    /// The records that the tokenizer extracts from the whole source
    /// under this reader's configuration: `records_of` applied to the
    /// configuration and `source()`.
    pub closed spec fn source_records(&self) -> Seq<Seq<Seq<u8>>> {
        model_records(self.core.shadow@, self.input@)
    }

    /// Whether the records parsed so far are tied to the source. This
    /// holds from construction — under the tokenizer's table-driven
    /// engine, with a buffer capacity of at least 4 and a source shorter
    /// than the address space — and is kept by every read; only a real
    /// seek gives it up. See `lemma_content_tracked` for what it pins.
    pub closed spec fn content_tracked(&self) -> bool {
        let m = self.core.shadow@;
        &&& m.sync
        &&& m.dfa
        &&& !self.state.seeked
        &&& self.capacity >= 4
        &&& self.input@.len() < usize::MAX
        &&& m.fed == self.input@.take(self.cursor as int)
        &&& m.pend == Seq::<u8>::empty()
        &&& m.pend_ends == Seq::<usize>::empty()
        &&& m.nrec == self.state.phys@.len()
        &&& self.state.phys@.len() <= self.source_records().len()
        &&& self.state.phys@ == self.source_records().take(self.state.phys@.len() as int)
        &&& (self.state.eof ==> self.state.phys@ == self.source_records())
    }

    /// Structural soundness of the reader, preserved by every operation:
    /// the cursor stays inside the source, chunks are non-empty, a cached
    /// header keeps its byte and text forms consistent, and a stream that
    /// was never seeked and has no cached header has not parsed anything.
    pub closed spec fn wf(&self) -> bool {
        &&& self.wf_core()
        &&& (!self.state.seeked && self.state.headers is None) ==> {
            &&& self.state.first_field_count is None
            &&& !self.state.first
            &&& !self.state.eof
            &&& self.state.phys@.len() == 0
            &&& self.state.delivered@.len() == 0
        }
    }

    spec fn wf_core(&self) -> bool {
        &&& self.cursor <= self.input@.len()
        &&& self.capacity >= 1
        &&& match self.state.headers {
            None => true,
            Some(h) => {
                &&& h.byte_record.wf()
                &&& match h.string_record {
                    Ok(s) => s.wf() && s@ == h.byte_record@,
                    Err(e) => describes_first_invalid(h.byte_record@, e),
                }
            },
        }
    }

    /// The correspondence between the records handed out and the records
    /// physically parsed. It is claimed only while no seek, no manual
    /// header override and no field-count error has disturbed the stream.
    pub closed spec fn aligned(&self) -> bool {
        (self.state.clean@ && !self.state.seeked && !self.state.manual@) ==> self.corresponds()
    }

    spec fn corresponds(&self) -> bool {
        if self.state.has_headers {
            match self.state.headers {
                None => self.state.phys@.len() == 0 && self.state.delivered@.len() == 0,
                Some(h) => {
                    if self.state.phys@.len() == 0 {
                        &&& h.byte_record@ == Seq::<Seq<u8>>::empty()
                        &&& self.state.eof
                        &&& self.state.delivered@.len() == 0
                    } else {
                        &&& h.byte_record@ == self.state.phys@[0]
                        &&& self.state.delivered@ == self.state.phys@.skip(1)
                    }
                },
            }
        } else {
            match self.state.headers {
                None => self.state.phys@ == self.state.delivered@,
                Some(h) => {
                    if self.state.first {
                        self.state.phys@ == self.state.delivered@
                    } else {
                        &&& self.state.delivered@.len() == 0
                        &&& if self.state.phys@.len() == 0 {
                            h.byte_record@ == Seq::<Seq<u8>>::empty() && self.state.eof
                        } else {
                            &&& self.state.phys@.len() == 1
                            &&& h.byte_record@ == self.state.phys@[0]
                            &&& !self.state.eof
                        }
                    }
                },
            }
        }
    }

    fn build(builder: &ReaderBuilder, data: Vec<u8>) -> (rdr: Reader)
        ensures
            rdr.wf(),
            rdr.aligned(),
            rdr.has_headers_cfg() == builder.spec_has_headers(),
            rdr.is_flexible() == builder.spec_flexible(),
            !rdr.has_seeked(),
            !rdr.first_done(),
            !rdr.at_eof(),
            !rdr.manual_headers(),
            rdr.is_clean(),
            rdr.header_bytes() is None,
            rdr.first_count() is None,
            rdr.phys() == Seq::<Seq<Seq<u8>>>::empty(),
            rdr.delivered() == Seq::<Seq<Seq<u8>>>::empty(),
            rdr.spec_position().byte() == 0,
            rdr.spec_position().line() == 1,
            rdr.spec_position().record() == 0,
            rdr.prev_position() == rdr.spec_position(),
            rdr.source() == data@,
            rdr.source_offset() == 0,
            rdr.source_records() == records_of(
                builder.spec_delimiter(),
                builder.spec_terminator(),
                builder.spec_quote(),
                builder.spec_escape(),
                builder.spec_double_quote(),
                data@,
            ),
            (!builder.spec_nfa() && builder.spec_capacity() >= 4 && data@.len() < usize::MAX)
                ==> rdr.content_tracked(),
    {
        let core = build_tokenizer(
            builder.delimiter,
            builder.terminator,
            builder.quote,
            builder.escape,
            builder.double_quote,
            builder.nfa,
        );
        let capacity = if builder.capacity == 0 {
            1
        } else {
            builder.capacity
        };
        let start = Position::new();
        let rdr = Reader {
            core,
            input: data,
            cursor: 0,
            capacity,
            state: ReaderState {
                headers: None,
                has_headers: builder.has_headers,
                flexible: builder.flexible,
                first_field_count: None,
                prev_pos: start,
                cur_pos: start,
                seeked: false,
                first: false,
                eof: false,
                phys: Ghost(Seq::empty()),
                delivered: Ghost(Seq::empty()),
                clean: Ghost(true),
                manual: Ghost(false),
            },
        };
        proof {
            assert(rdr.core.shadow@.fed =~= rdr.input@.take(0));
            assert(rdr.phys() =~= rdr.source_records().take(0));
        }
        rdr
    }

    /// Builds a reader over the given source bytes with the default
    /// configuration.
    pub fn from_reader(data: Vec<u8>) -> (rdr: Reader)
        ensures
            rdr.wf(),
            rdr.aligned(),
            rdr.has_headers_cfg(),
            !rdr.is_flexible(),
            !rdr.has_seeked(),
            !rdr.first_done(),
            !rdr.at_eof(),
            !rdr.manual_headers(),
            rdr.is_clean(),
            rdr.header_bytes() is None,
            rdr.first_count() is None,
            rdr.phys() == Seq::<Seq<Seq<u8>>>::empty(),
            rdr.delivered() == Seq::<Seq<Seq<u8>>>::empty(),
            rdr.spec_position().byte() == 0,
            rdr.spec_position().line() == 1,
            rdr.spec_position().record() == 0,
            rdr.prev_position() == rdr.spec_position(),
            rdr.source() == data@,
            rdr.source_offset() == 0,
            rdr.source_records() == records_of(0x2cu8, None::<u8>, 0x22u8, None::<u8>, true, data@),
            data@.len() < usize::MAX ==> rdr.content_tracked(),
    {
        let builder = ReaderBuilder::new();
        builder.from_reader(data)
    }

    /// The position of the record about to be read next: the byte offset
    /// here can be handed back to `seek` to reproduce the record that
    /// follows it.
    pub fn position(&self) -> (p: &Position)
        ensures
            *p == self.spec_position(),
    {
        &self.state.cur_pos
    }

    /// Seeks to the position given.
    ///
    /// After a seek, `headers` and `byte_headers` fail unless the headers
    /// were already captured. If the given position has the byte offset
    /// the reader is already at, nothing at all is done, which keeps an
    /// in-flight header cache usable.
    pub fn seek(&mut self, pos: &Position) -> (r: Result<(), Error>)
        requires
            old(self).wf(),
        ensures
            final(self).wf(),
            r is Ok,
            old(self).aligned() ==> final(self).aligned(),
            pos.byte() == old(self).spec_position().byte() ==> *final(self) == *old(self),
            pos.byte() != old(self).spec_position().byte() ==> {
                &&& final(self).spec_position() == *pos
                &&& final(self).prev_position() == *pos
                &&& final(self).has_seeked()
                &&& !final(self).at_eof()
                &&& final(self).header_bytes() == old(self).header_bytes()
                &&& final(self).header_text() == old(self).header_text()
                &&& final(self).header_origin() == old(self).header_origin()
                &&& final(self).has_headers_cfg() == old(self).has_headers_cfg()
                &&& final(self).is_flexible() == old(self).is_flexible()
                &&& final(self).first_done() == old(self).first_done()
                &&& final(self).first_count() == old(self).first_count()
                &&& final(self).manual_headers() == old(self).manual_headers()
                &&& final(self).phys() == old(self).phys()
                &&& final(self).delivered() == old(self).delivered()
                &&& final(self).is_clean() == old(self).is_clean()
            },
    {
        if pos.byte() == self.state.cur_pos.byte() {
            return Ok(());
        }
        self.seek_raw(pos.byte(), pos)
    }

    /// Like `seek`, but always repositions, to the byte offset given,
    /// while taking the position information from `pos`. The two should
    /// agree; if they do not, the positions this reader reports afterward
    /// are equally wrong.
    pub fn seek_raw(&mut self, byte: u64, pos: &Position) -> (r: Result<(), Error>)
        requires
            old(self).wf(),
        ensures
            final(self).wf(),
            r is Ok,
            old(self).aligned() ==> final(self).aligned(),
            final(self).spec_position() == *pos,
            final(self).prev_position() == *pos,
            final(self).has_seeked(),
            !final(self).at_eof(),
            final(self).header_bytes() == old(self).header_bytes(),
            final(self).header_text() == old(self).header_text(),
            final(self).header_origin() == old(self).header_origin(),
            final(self).has_headers_cfg() == old(self).has_headers_cfg(),
            final(self).is_flexible() == old(self).is_flexible(),
            final(self).first_done() == old(self).first_done(),
            final(self).first_count() == old(self).first_count(),
            final(self).manual_headers() == old(self).manual_headers(),
            final(self).phys() == old(self).phys(),
            final(self).delivered() == old(self).delivered(),
            final(self).is_clean() == old(self).is_clean(),
    {
        let len = self.input.len();
        self.cursor = if byte <= len as u64 {
            byte as usize
        } else {
            len
        };
        tokenizer_reset(&mut self.core);
        tokenizer_set_line(&mut self.core, pos.line());
        self.state.seeked = true;
        self.state.prev_pos = *pos;
        self.state.cur_pos = *pos;
        self.state.eof = false;
        Ok(())
    }

    /// The tokenizer-driving loop: parses one record out of the buffered
    /// source into `record`, growing the record's storage on demand, and
    /// applies the position and field-count bookkeeping.
    #[verifier::rlimit(100)]
    fn read_record_bytes_impl(&mut self, record: &mut ByteRecord) -> (r: Result<bool, Error>)
        requires
            old(self).wf_core(),
            old(self).state.cur_pos.record() < u64::MAX,
        ensures
            final(self).wf_core(),
            final(record).wf(),
            final(self).input == old(self).input,
            final(self).capacity == old(self).capacity,
            final(self).state.headers == old(self).state.headers,
            final(self).state.has_headers == old(self).state.has_headers,
            final(self).state.flexible == old(self).state.flexible,
            final(self).state.seeked == old(self).state.seeked,
            final(self).state.first == old(self).state.first,
            final(self).state.manual == old(self).state.manual,
            final(self).state.delivered == old(self).state.delivered,
            final(self).state.cur_pos.byte() >= old(self).state.cur_pos.byte(),
            final(self).source() == old(self).source(),
            final(self).source_records() == old(self).source_records(),
            final(self).source_offset() >= old(self).source_offset(),
            final(self).state.cur_pos.byte() == advanced_byte(
                old(self).state.cur_pos.byte(),
                final(self).source_offset() - old(self).source_offset(),
            ),
            old(self).state.eof ==> (r == Ok::<bool, Error>(true) && final(self).source_offset()
                == old(self).source_offset() && final(self).state.cur_pos == old(
                self,
            ).state.cur_pos),
            old(self).content_tracked() ==> final(self).content_tracked(),
            match r {
                Ok(true) => {
                    &&& final(self).state.eof
                    &&& final(record)@ == Seq::<Seq<u8>>::empty()
                    &&& final(self).state.phys == old(self).state.phys
                    &&& final(self).state.clean == old(self).state.clean
                    &&& final(self).state.first_field_count == old(self).state.first_field_count
                    &&& final(self).state.prev_pos == old(self).state.prev_pos
                    &&& final(self).state.cur_pos.record() == old(self).state.cur_pos.record()
                },
                Ok(false) => {
                    &&& !final(self).state.eof
                    &&& !old(self).state.eof
                    &&& final(self).state.phys@ == old(self).state.phys@.push(final(record)@)
                    &&& final(self).state.clean == old(self).state.clean
                    &&& final(self).state.cur_pos.record() == old(self).state.cur_pos.record() + 1
                    &&& final(self).state.prev_pos == final(self).state.cur_pos
                    &&& (!final(self).state.flexible ==> {
                        &&& (old(self).state.first_field_count is None
                            ==> final(self).state.first_field_count == Some(
                            final(record)@.len() as u64,
                        ))
                        &&& (old(self).state.first_field_count matches Some(e) ==> {
                            &&& final(self).state.first_field_count == Some(e)
                            &&& final(record)@.len() as u64 == e
                        })
                    })
                    &&& (final(self).state.flexible ==> final(self).state.first_field_count == old(self).state.first_field_count)
                },
                Err(e) => {
                    &&& (e matches Error::UnequalLengths { expected_len, pos, len } && {
                        &&& !final(self).state.flexible
                        &&& old(self).state.first_field_count == Some(expected_len)
                        &&& final(self).state.first_field_count == Some(expected_len)
                        &&& pos == old(self).state.prev_pos
                        &&& len == final(record)@.len() as u64
                        &&& len != expected_len
                    })
                    &&& final(self).state.phys@ == old(self).state.phys@.push(final(record)@)
                    &&& !final(self).state.eof
                    &&& !old(self).state.eof
                    &&& !final(self).state.clean@
                    &&& final(self).state.prev_pos == old(self).state.prev_pos
                    &&& final(self).state.cur_pos.record() == old(self).state.cur_pos.record() + 1
                },
            },
    {
        record.clear();
        proof {
            record.lemma_view_def();
        }
        if self.state.eof {
            return Ok(true);
        }
        let total = self.input.len();
        let mut outlen: usize = 0;
        let mut endlen: usize = 0;
        let mut fuel: u128 = u128::MAX;
        loop
            invariant
                self.wf_core(),
                self.input == old(self).input,
                total == self.input@.len(),
                self.capacity == old(self).capacity,
                self.state.headers == old(self).state.headers,
                self.state.has_headers == old(self).state.has_headers,
                self.state.flexible == old(self).state.flexible,
                self.state.seeked == old(self).state.seeked,
                self.state.first == old(self).state.first,
                self.state.manual == old(self).state.manual,
                self.state.delivered == old(self).state.delivered,
                self.state.phys == old(self).state.phys,
                self.state.clean == old(self).state.clean,
                self.state.first_field_count == old(self).state.first_field_count,
                self.state.prev_pos == old(self).state.prev_pos,
                self.state.cur_pos.record() == old(self).state.cur_pos.record(),
                self.state.cur_pos.record() < u64::MAX,
                self.cursor >= old(self).cursor,
                self.state.cur_pos.byte() == advanced_byte(
                    old(self).state.cur_pos.byte(),
                    self.cursor - old(self).cursor,
                ),
                !self.state.eof,
                !old(self).state.eof,
                outlen <= record.fields@.len(),
                endlen <= record.ends@.len(),
                record.n_fields == 0,
                self.core.shadow@.delimiter == old(self).core.shadow@.delimiter,
                self.core.shadow@.terminator == old(self).core.shadow@.terminator,
                self.core.shadow@.quote == old(self).core.shadow@.quote,
                self.core.shadow@.escape == old(self).core.shadow@.escape,
                self.core.shadow@.double_quote == old(self).core.shadow@.double_quote,
                self.core.shadow@.dfa == old(self).core.shadow@.dfa,
                old(self).content_tracked() ==> {
                    &&& self.core.shadow@.sync
                    &&& self.core.shadow@.fed == self.input@.take(self.cursor as int)
                    &&& self.core.shadow@.pend == record.fields@.subrange(0, outlen as int)
                    &&& self.core.shadow@.pend_ends == record.ends@.subrange(0, endlen as int)
                    &&& self.core.shadow@.nrec == self.state.phys@.len()
                    &&& outlen <= self.cursor
                    &&& endlen <= self.cursor
                    &&& fuel >= 3 * (self.input@.len() - self.cursor) + (if outlen
                        == record.fields@.len() {
                        1int
                    } else {
                        0int
                    }) + (if endlen == record.ends@.len() {
                        1int
                    } else {
                        0int
                    }) + 1
                },
            decreases fuel,
        {
            if fuel == 0 {
                // Unreachable while the parse is tied to the source: the
                // tokenizer's progress facts bound the whole loop. Without
                // the tie (the table-driven engine off), stop rather than
                // spin.
                proof {
                    if old(self).content_tracked() {
                        assert(3 * (self.input@.len() - self.cursor) >= 0);
                        assert(false);
                    }
                }
                self.state.eof = true;
                proof {
                    record.lemma_view_def();
                    record.lemma_wf_def();
                }
                return Ok(true);
            }
            fuel = fuel - 1;
            let from = self.cursor;
            let upto = if total - from <= self.capacity {
                total
            } else {
                from + self.capacity
            };
            let ghost m_pre = self.core.shadow@;
            let ghost fields_pre = record.fields@;
            let ghost ends_pre = record.ends@;
            let ghost outlen_pre = outlen;
            let ghost endlen_pre = endlen;
            proof {
                if old(self).content_tracked() {
                    assert(step_ok(m_pre, self.input@, from as int, upto as int));
                }
            }
            let (outcome, nin, nout, nend) = tokenizer_read(
                &mut self.core,
                &self.input,
                from,
                upto,
                &mut record.fields,
                outlen,
                &mut record.ends,
                endlen,
            );
            self.cursor = self.cursor + nin;
            let b = self.state.cur_pos.byte();
            let nb = if b <= u64::MAX - (nin as u64) {
                b + (nin as u64)
            } else {
                u64::MAX
            };
            self.state.cur_pos.set_byte(nb);
            let line = tokenizer_line(&self.core);
            self.state.cur_pos.set_line(line);
            proof {
                assert(record.ends.len() == record.ends@.len());
                if old(self).content_tracked() {
                    assert(self.core.shadow@.fed =~= self.input@.take(self.cursor as int));
                }
            }
            // The byte count is clamped to the room that was available:
            // see `tokenizer_read` on what the tokenizer promises of it.
            let fcap = record.fields.len();
            outlen = if nout <= fcap - outlen {
                outlen + nout
            } else {
                fcap
            };
            endlen = endlen + nend;
            proof {
                if old(self).content_tracked() && !(outcome is Record) {
                    assert(self.core.shadow@.pend =~= record.fields@.subrange(0, outlen as int));
                    assert(self.core.shadow@.pend_ends =~= record.ends@.subrange(
                        0,
                        endlen as int,
                    ));
                }
            }
            match outcome {
                ReadOutcome::InputEmpty => {
                    proof {
                        if old(self).content_tracked() {
                            assert(from < upto);
                        }
                    }
                },
                ReadOutcome::OutputFull => {
                    let ghost before = record.fields@;
                    record.expand_fields();
                    proof {
                        if old(self).content_tracked() {
                            if nin == 0 {
                                assert(outlen_pre == before.len());
                                assert(before.len() < usize::MAX);
                            }
                            assert forall|i: int| 0 <= i < outlen implies record.fields@[i]
                                == before[i] by {
                                assert(record.fields@.subrange(0, before.len() as int)[i]
                                    == before[i]);
                            }
                            assert(record.fields@.subrange(0, outlen as int) =~= before.subrange(
                                0,
                                outlen as int,
                            ));
                        }
                    }
                },
                ReadOutcome::OutputEndsFull => {
                    let ghost before = record.ends@;
                    record.expand_ends();
                    proof {
                        if old(self).content_tracked() {
                            if nin == 0 {
                                assert(endlen_pre == before.len());
                                assert(before.len() < usize::MAX);
                            }
                            assert forall|i: int| 0 <= i < endlen implies record.ends@[i]
                                == before[i] by {
                                assert(record.ends@.subrange(0, before.len() as int)[i]
                                    == before[i]);
                            }
                            assert(record.ends@.subrange(0, endlen as int) =~= before.subrange(
                                0,
                                endlen as int,
                            ));
                        }
                    }
                },
                ReadOutcome::Record => {
                    record.set_len(endlen);
                    proof {
                        record.lemma_view_def();
                        if old(self).content_tracked() {
                            assert(fields_pre.subrange(0, outlen_pre as int) == m_pre.pend);
                            assert(ends_pre.subrange(0, endlen_pre as int) == m_pre.pend_ends);
                            assert(record@ == model_records(m_pre, self.input@)[m_pre.nrec as int]);
                        }
                        self.state.phys@ = self.state.phys@.push(record@);
                        if old(self).content_tracked() {
                            assert(self.state.phys@ =~= self.source_records().take(
                                self.state.phys@.len() as int,
                            ));
                        }
                    }
                    match self.state.add_record(endlen as u64) {
                        Ok(_) => {
                            return Ok(false);
                        },
                        Err(e) => {
                            proof {
                                self.state.clean@ = false;
                            }
                            return Err(e);
                        },
                    }
                },
                ReadOutcome::End => {
                    self.state.eof = true;
                    proof {
                        record.lemma_view_def();
                        record.lemma_wf_def();
                        if old(self).content_tracked() {
                            assert(self.core.shadow@.fed == self.input@);
                            assert(self.input@.take(self.cursor as int).len() == self.cursor as int);
                            assert(self.cursor == self.input@.len());
                            assert(self.state.phys@ =~= self.source_records());
                        }
                    }
                    return Ok(true);
                },
            }
        }
    }
}

/// The byte offset after advancing `b` by `d` source bytes: the sum,
/// saturating at the largest offset.
pub open spec fn advanced_byte(b: u64, d: int) -> u64 {
    if b + d <= u64::MAX {
        (b + d) as u64
    } else {
        u64::MAX
    }
}

/// While the parse is tied to the source, the records physically parsed
/// are exactly the first `phys().len()` records of the source's parse,
/// in order, and the end of the stream is reached only once all of them
/// are out. So a raw read that reports end of stream on a tied reader
/// owes the caller every record of `source_records()` first.
pub proof fn lemma_content_tracked(r: &Reader)
    requires
        r.content_tracked(),
    ensures
        r.phys().len() <= r.source_records().len(),
        r.phys() == r.source_records().take(r.phys().len() as int),
        forall|k: int| 0 <= k < r.phys().len() ==> r.phys()[k] == r.source_records()[k],
        r.at_eof() ==> r.phys() == r.source_records(),
{
    assert forall|k: int| 0 <= k < r.phys().len() implies r.phys()[k] == r.source_records()[k] by {
        assert(r.phys()[k] == r.source_records().take(r.phys().len() as int)[k]);
    }
}

/// The deferred-header replay applies: the hiding of headers from reads
/// is off, no record has been handed out yet, and a header row is
/// already cached.
pub open spec fn replay_state(r: Reader) -> bool {
    &&& !r.has_headers_cfg()
    &&& !r.first_done()
    &&& r.header_bytes() is Some
}

impl Reader {
    /// Populates the header cache from a raw record, computing its text
    /// form once.
    fn cache_headers_bytes(&mut self, rec: ByteRecord, pos: Option<Position>)
        requires
            old(self).wf_core(),
            rec.wf(),
        ensures
            final(self).wf_core(),
            (final(self).state.headers matches Some(h) && h.byte_record@ == rec@ && h.pos == pos),
            final(self).core == old(self).core,
            final(self).input == old(self).input,
            final(self).cursor == old(self).cursor,
            final(self).capacity == old(self).capacity,
            final(self).state.has_headers == old(self).state.has_headers,
            final(self).state.flexible == old(self).state.flexible,
            final(self).state.first_field_count == old(self).state.first_field_count,
            final(self).state.prev_pos == old(self).state.prev_pos,
            final(self).state.cur_pos == old(self).state.cur_pos,
            final(self).state.seeked == old(self).state.seeked,
            final(self).state.first == old(self).state.first,
            final(self).state.eof == old(self).state.eof,
            final(self).state.phys == old(self).state.phys,
            final(self).state.delivered == old(self).state.delivered,
            final(self).state.clean == old(self).state.clean,
            final(self).state.manual == old(self).state.manual,
    {
        let text = StringRecord::from_byte_record(&rec);
        self.state.headers = Some(Headers { pos, byte_record: rec, string_record: text });
    }

    /// Reads one record of raw fields into `record` and returns whether
    /// the end of the stream was reached instead (the record then has no
    /// fields).
    ///
    /// The header protocol is a function of the cache state alone: if
    /// headers are hidden and this is the stream's first read and a
    /// header row is already cached, that row is handed back without
    /// touching the source. Otherwise a record is parsed; if it is the
    /// stream's first and no seek has happened, it is cached as the
    /// header row, and, when headers are hidden, one more record is
    /// parsed to produce the caller-visible result.
    pub fn read_record_bytes(&mut self, record: &mut ByteRecord) -> (r: Result<bool, Error>)
        requires
            old(self).wf(),
            old(self).spec_position().record() < u64::MAX - 1,
        ensures
            final(self).wf(),
            final(record).wf(),
            final(self).has_headers_cfg() == old(self).has_headers_cfg(),
            final(self).is_flexible() == old(self).is_flexible(),
            final(self).has_seeked() == old(self).has_seeked(),
            final(self).manual_headers() == old(self).manual_headers(),
            old(self).aligned() ==> final(self).aligned(),
            final(self).is_flexible() ==> r is Ok,
            final(self).source() == old(self).source(),
            final(self).source_records() == old(self).source_records(),
            final(self).source_offset() >= old(self).source_offset(),
            final(self).spec_position().byte() == advanced_byte(
                old(self).spec_position().byte(),
                final(self).source_offset() - old(self).source_offset(),
            ),
            old(self).content_tracked() ==> final(self).content_tracked(),
            final(self).spec_position().record() == old(self).spec_position().record()
                + (final(self).phys().len() - old(self).phys().len()),
            old(self).first_done() ==> final(self).first_done(),
            final(self).is_flexible() ==> final(self).first_count() == old(self).first_count(),
            old(self).at_eof() ==> {
                &&& r == Ok::<bool, Error>(true)
                &&& final(self).at_eof()
                &&& final(self).spec_position() == old(self).spec_position()
                &&& final(self).prev_position() == old(self).prev_position()
                &&& final(self).phys() == old(self).phys()
                &&& final(self).delivered() == old(self).delivered()
                &&& final(self).first_count() == old(self).first_count()
                &&& final(self).source_offset() == old(self).source_offset()
            },
            ((old(self).header_bytes() is Some || old(self).has_seeked()) && !replay_state(
                *old(self),
            )) ==> {
                &&& final(self).phys().len() <= old(self).phys().len() + 1
                &&& (((r matches Ok(b) && !b) || r is Err) ==> final(self).phys().len()
                    == old(self).phys().len() + 1)
                &&& ((r matches Ok(b) && b) ==> final(self).phys() == old(self).phys())
            },
            (old(self).first_count() is Some) ==> final(self).first_count() == old(
                self,
            ).first_count(),
            (r is Err && old(self).first_count() is Some) ==> (r matches Err(
                Error::UnequalLengths { expected_len, .. },
            ) ==> old(self).first_count() == Some(expected_len)),
            (r is Err && (old(self).header_bytes() is Some || old(self).has_seeked()))
                ==> final(self).prev_position() == old(self).prev_position(),
            (old(self).header_bytes() is Some ==> {
                &&& final(self).header_bytes() == old(self).header_bytes()
                &&& final(self).header_text() == old(self).header_text()
                &&& final(self).header_origin() == old(self).header_origin()
            }),
            (old(self).header_bytes() is None && old(self).has_seeked() ==> final(self).header_bytes() is None),
            (replay_state(*old(self)) ==> {
                &&& r == Ok::<bool, Error>(old(self).at_eof())
                &&& (old(self).header_bytes() matches Some(h) && final(record)@ == h)
                &&& final(self).phys() == old(self).phys()
                &&& final(self).delivered() == (if old(self).at_eof() {
                    old(self).delivered()
                } else {
                    old(self).delivered().push(final(record)@)
                })
                &&& final(self).first_done()
                &&& final(self).spec_position() == old(self).spec_position()
                &&& final(self).prev_position() == old(self).prev_position()
                &&& final(self).at_eof() == old(self).at_eof()
                &&& final(self).first_count() == old(self).first_count()
                &&& final(self).is_clean() == old(self).is_clean()
            }),
            (!replay_state(*old(self)) ==> {
                &&& old(self).phys().len() <= final(self).phys().len() <= old(self).phys().len()
                    + 2
                &&& final(self).phys().take(old(self).phys().len() as int) == old(self).phys()
                &&& final(self).spec_position().byte() >= old(self).spec_position().byte()
                &&& (match r {
                    Ok(true) => {
                        &&& final(self).at_eof()
                        &&& final(record)@ == Seq::<Seq<u8>>::empty()
                        &&& final(self).delivered() == old(self).delivered()
                        &&& final(self).first_done()
                        &&& final(self).is_clean() == old(self).is_clean()
                    },
                    Ok(false) => {
                        &&& !final(self).at_eof()
                        &&& final(self).phys().len() > old(self).phys().len()
                        &&& final(record)@ == final(self).phys().last()
                        &&& final(self).delivered() == old(self).delivered().push(final(record)@)
                        &&& final(self).first_done()
                        &&& final(self).is_clean() == old(self).is_clean()
                        &&& final(self).spec_position().record() == old(self).spec_position().record() + (final(self).phys().len() - old(self).phys().len())
                        &&& final(self).prev_position() == final(self).spec_position()
                        &&& (!final(self).is_flexible() ==> (final(self).first_count() matches Some(
                            c,
                        ) && c == final(record)@.len() as u64))
                    },
                    Err(e) => {
                        &&& !final(self).is_flexible()
                        &&& !final(self).is_clean()
                        &&& (e matches Error::UnequalLengths { expected_len, pos, len } && {
                            &&& final(self).first_count() == Some(expected_len)
                            &&& len == final(record)@.len() as u64
                            &&& len != expected_len
                            &&& pos == final(self).prev_position()
                        })
                        &&& final(self).delivered() == old(self).delivered()
                        &&& final(self).phys().len() > old(self).phys().len()
                        &&& final(record)@ == final(self).phys().last()
                        &&& !final(self).at_eof()
                    },
                })
            }),
            (!replay_state(*old(self)) && old(self).header_bytes() is None && !old(self).has_seeked() ==> {
                &&& final(self).header_origin() == Some(Some(old(self).spec_position()))
                &&& final(self).header_bytes() == Some(
                    (if final(self).phys().len() > old(self).phys().len() {
                        final(self).phys()[old(self).phys().len() as int]
                    } else {
                        Seq::<Seq<u8>>::empty()
                    }),
                )
                &&& (old(self).has_headers_cfg() && r == Ok::<bool, Error>(false) ==> final(self).phys().len() == old(self).phys().len() + 2)
                &&& (!old(self).has_headers_cfg() ==> final(self).phys().len() <= old(self).phys().len() + 1)
            }),
    {
        if !self.state.has_headers && !self.state.first && self.state.headers.is_some() {
            self.state.first = true;
            match &self.state.headers {
                Some(h) => {
                    record.copy_from(&h.byte_record);
                },
                None => {
                    proof {
                        assert(false);
                    }
                },
            }
            if !self.state.eof {
                self.state.delivered = Ghost(self.state.delivered@.push(record@));
            }
            proof {
                if old(self).aligned() && self.state.clean@ && !self.state.seeked
                    && !self.state.manual@ {
                    assert(self.state.delivered@ =~= self.state.phys@);
                }
            }
            return Ok(self.state.eof);
        }
        let pos = self.state.cur_pos;
        let res1 = self.read_record_bytes_impl(record);
        let eof = match res1 {
            Ok(b) => b,
            Err(e) => {
                return Err(e);
            },
        };
        self.state.first = true;
        if !self.state.seeked && self.state.headers.is_none() {
            let cached = record.clone_record();
            proof {
                record.lemma_wf_def();
            }
            self.cache_headers_bytes(cached, Some(pos));
            if self.state.has_headers {
                let res2 = self.read_record_bytes_impl(record);
                match res2 {
                    Ok(b2) => {
                        if !b2 {
                            self.state.delivered = Ghost(self.state.delivered@.push(record@));
                        }
                        proof {
                            assert(self.state.phys@.take(old(self).state.phys@.len() as int)
                                =~= old(self).state.phys@);
                            if old(self).aligned() && self.state.clean@ && !self.state.seeked
                                && !self.state.manual@ {
                                if self.state.phys@.len() > 0 {
                                    assert(self.state.delivered@ =~= self.state.phys@.skip(1));
                                }
                            }
                        }
                        return Ok(b2);
                    },
                    Err(e) => {
                        proof {
                            assert(self.state.phys@.take(old(self).state.phys@.len() as int)
                                =~= old(self).state.phys@);
                        }
                        return Err(e);
                    },
                }
            }
        }
        if !eof {
            self.state.delivered = Ghost(self.state.delivered@.push(record@));
        }
        proof {
            assert(self.state.phys@.take(old(self).state.phys@.len() as int) =~= old(self).state.phys@);
            if old(self).aligned() && self.state.clean@ && !self.state.seeked
                && !self.state.manual@ {
                if self.state.has_headers {
                    if self.state.phys@.len() > 0 {
                        assert(self.state.delivered@ =~= self.state.phys@.skip(1));
                    }
                } else {
                    assert(self.state.delivered@ =~= self.state.phys@);
                }
            }
        }
        Ok(eof)
    }

    /// Returns a reference to the first row of the data, as raw bytes,
    /// parsing it now if no row has been read yet. Usable regardless of
    /// whether headers are hidden from reads; after a seek it fails
    /// unless the headers were captured before.
    pub fn byte_headers(&mut self) -> (r: Result<&ByteRecord, Error>)
        requires
            old(self).wf(),
            old(self).spec_position().record() < u64::MAX,
        ensures
            final(self).wf(),
            final(self).has_headers_cfg() == old(self).has_headers_cfg(),
            final(self).is_flexible() == old(self).is_flexible(),
            final(self).has_seeked() == old(self).has_seeked(),
            final(self).manual_headers() == old(self).manual_headers(),
            final(self).first_done() == old(self).first_done(),
            final(self).delivered() == old(self).delivered(),
            final(self).is_clean() == old(self).is_clean(),
            old(self).aligned() ==> final(self).aligned(),
            final(self).source() == old(self).source(),
            final(self).source_records() == old(self).source_records(),
            final(self).source_offset() >= old(self).source_offset(),
            final(self).spec_position().byte() == advanced_byte(
                old(self).spec_position().byte(),
                final(self).source_offset() - old(self).source_offset(),
            ),
            old(self).content_tracked() ==> final(self).content_tracked(),
            final(self).spec_position().record() == old(self).spec_position().record()
                + (final(self).phys().len() - old(self).phys().len()),
            final(self).prev_position() == (if final(self).phys().len() > old(self).phys().len() {
                final(self).spec_position()
            } else {
                old(self).prev_position()
            }),
            final(self).at_eof() == (old(self).at_eof() || (old(self).header_bytes() is None
                && !old(self).has_seeked() && final(self).phys().len() == old(self).phys().len())),
            (!final(self).is_flexible() && final(self).phys().len() > old(self).phys().len())
                ==> final(self).first_count() == Some(final(self).phys().last().len() as u64),
            (final(self).phys().len() == old(self).phys().len() || final(self).is_flexible())
                ==> final(self).first_count() == old(self).first_count(),
            old(self).header_bytes() is Some ==> *final(self) == *old(self),
            (old(self).header_bytes() is None && old(self).has_seeked() ==> (*final(self) == *old(self) && (r matches Err(e) && e is Seek))),
            (old(self).header_bytes() is None && !old(self).has_seeked() ==> {
                &&& r is Ok
                &&& final(self).header_origin() == Some(Some(old(self).spec_position()))
                &&& final(self).phys().len() <= old(self).phys().len() + 1
                &&& final(self).phys().take(old(self).phys().len() as int) == old(self).phys()
                &&& final(self).header_bytes() == Some(
                    (if final(self).phys().len() > old(self).phys().len() {
                        final(self).phys().last()
                    } else {
                        Seq::<Seq<u8>>::empty()
                    }),
                )
            }),
            (r matches Ok(h) ==> (final(self).header_bytes() matches Some(hb) && h@ == hb
                && h.wf())),
            (r is Err <==> (old(self).header_bytes() is None && old(self).has_seeked())),
    {
        if self.state.headers.is_none() {
            if self.state.seeked {
                return Err(Error::Seek);
            }
            let mut record = ByteRecord::new();
            let pos = self.state.cur_pos;
            let res = self.read_record_bytes_impl(&mut record);
            match res {
                Ok(_) => {},
                Err(e) => {
                    proof {
                        assert(false);
                    }
                    return Err(e);
                },
            }
            proof {
                record.lemma_wf_def();
                assert(self.state.phys@.take(old(self).state.phys@.len() as int) =~= old(self).state.phys@);
            }
            self.cache_headers_bytes(record, Some(pos));
            proof {
                if old(self).aligned() && self.state.clean@ && !self.state.seeked
                    && !self.state.manual@ {
                    if self.state.phys@.len() > 0 {
                        assert(self.state.delivered@ =~= self.state.phys@.skip(1));
                    }
                }
            }
        }
        match &self.state.headers {
            Some(h) => Ok(&h.byte_record),
            None => {
                proof {
                    assert(false);
                }
                Err(Error::Seek)
            },
        }
    }

    /// Returns a reference to the first row of the data, as validated
    /// text, parsing it now if no row has been read yet. Fails with a
    /// UTF-8 error when the first row is not valid text, and after a seek
    /// unless the headers were captured before.
    pub fn headers(&mut self) -> (r: Result<&StringRecord, Error>)
        requires
            old(self).wf(),
            old(self).spec_position().record() < u64::MAX,
        ensures
            final(self).wf(),
            final(self).has_headers_cfg() == old(self).has_headers_cfg(),
            final(self).is_flexible() == old(self).is_flexible(),
            final(self).has_seeked() == old(self).has_seeked(),
            final(self).manual_headers() == old(self).manual_headers(),
            final(self).first_done() == old(self).first_done(),
            final(self).delivered() == old(self).delivered(),
            final(self).is_clean() == old(self).is_clean(),
            old(self).aligned() ==> final(self).aligned(),
            final(self).source() == old(self).source(),
            final(self).source_records() == old(self).source_records(),
            final(self).source_offset() >= old(self).source_offset(),
            final(self).spec_position().byte() == advanced_byte(
                old(self).spec_position().byte(),
                final(self).source_offset() - old(self).source_offset(),
            ),
            old(self).content_tracked() ==> final(self).content_tracked(),
            final(self).spec_position().record() == old(self).spec_position().record()
                + (final(self).phys().len() - old(self).phys().len()),
            final(self).prev_position() == (if final(self).phys().len() > old(self).phys().len() {
                final(self).spec_position()
            } else {
                old(self).prev_position()
            }),
            final(self).at_eof() == (old(self).at_eof() || (old(self).header_bytes() is None
                && !old(self).has_seeked() && final(self).phys().len() == old(self).phys().len())),
            (!final(self).is_flexible() && final(self).phys().len() > old(self).phys().len())
                ==> final(self).first_count() == Some(final(self).phys().last().len() as u64),
            (final(self).phys().len() == old(self).phys().len() || final(self).is_flexible())
                ==> final(self).first_count() == old(self).first_count(),
            old(self).header_bytes() is Some ==> *final(self) == *old(self),
            (old(self).header_bytes() is None && old(self).has_seeked() ==> (*final(self) == *old(self) && (r matches Err(e) && e is Seek))),
            (old(self).header_bytes() is None && !old(self).has_seeked() ==> {
                &&& final(self).header_origin() == Some(Some(old(self).spec_position()))
                &&& final(self).phys().len() <= old(self).phys().len() + 1
                &&& final(self).phys().take(old(self).phys().len() as int) == old(self).phys()
                &&& final(self).header_bytes() == Some(
                    (if final(self).phys().len() > old(self).phys().len() {
                        final(self).phys().last()
                    } else {
                        Seq::<Seq<u8>>::empty()
                    }),
                )
            }),
            (r matches Ok(s) ==> (final(self).header_bytes() matches Some(hb) && s@ == hb && s.wf()
                && all_fields_utf8(hb))),
            (!(old(self).header_bytes() is None && old(self).has_seeked()) ==> (r is Ok <==> (final(self).header_bytes() matches Some(hb) && all_fields_utf8(hb)))),
            (r matches Err(e) ==> (e matches Error::Utf8 { pos, err } ==> (final(self).header_bytes() matches Some(hb) && describes_first_invalid(hb, err) && final(self).header_origin() == Some(pos)))),
            (r matches Err(e) ==> !(e is UnequalLengths)),
            (r matches Err(e) ==> ((e is Seek) <==> (old(self).header_bytes() is None && old(
                self,
            ).has_seeked()))),
    {
        if self.state.headers.is_none() {
            if self.state.seeked {
                return Err(Error::Seek);
            }
            let mut record = ByteRecord::new();
            let pos = self.state.cur_pos;
            let res = self.read_record_bytes_impl(&mut record);
            match res {
                Ok(_) => {},
                Err(e) => {
                    proof {
                        assert(false);
                    }
                    return Err(e);
                },
            }
            proof {
                record.lemma_wf_def();
                assert(self.state.phys@.take(old(self).state.phys@.len() as int) =~= old(self).state.phys@);
            }
            self.cache_headers_bytes(record, Some(pos));
            proof {
                if old(self).aligned() && self.state.clean@ && !self.state.seeked
                    && !self.state.manual@ {
                    if self.state.phys@.len() > 0 {
                        assert(self.state.delivered@ =~= self.state.phys@.skip(1));
                    }
                }
            }
        }
        proof {
            match &self.state.headers {
                Some(h) => {
                    match &h.string_record {
                        Ok(s) => {
                            s.lemma_inner();
                        },
                        Err(e) => {
                            assert(!valid_utf8(h.byte_record@[e.spec_field() as int]));
                            assert(!all_fields_utf8(h.byte_record@));
                        },
                    }
                },
                None => {},
            }
        }
        match &self.state.headers {
            Some(h) => match &h.string_record {
                Ok(s) => Ok(s),
                Err(e) => Err(Error::Utf8 { pos: h.pos, err: *e }),
            },
            None => {
                proof {
                    assert(false);
                }
                Err(Error::Seek)
            },
        }
    }

    /// Sets the headers of this reader manually, from validated text.
    /// This overrides any cached row and any future automatic detection;
    /// the header origin position is cleared.
    pub fn set_headers(&mut self, headers: StringRecord)
        requires
            old(self).wf(),
            headers.wf(),
        ensures
            final(self).wf(),
            final(self).aligned(),
            final(self).header_bytes() == Some(headers@),
            final(self).header_text() == Some(Ok::<Seq<Seq<u8>>, Utf8Error>(headers@)),
            final(self).header_origin() == Some(Option::<Position>::None),
            final(self).manual_headers(),
            final(self).has_headers_cfg() == old(self).has_headers_cfg(),
            final(self).is_flexible() == old(self).is_flexible(),
            final(self).has_seeked() == old(self).has_seeked(),
            final(self).first_done() == old(self).first_done(),
            final(self).at_eof() == old(self).at_eof(),
            final(self).first_count() == old(self).first_count(),
            final(self).spec_position() == old(self).spec_position(),
            final(self).prev_position() == old(self).prev_position(),
            final(self).phys() == old(self).phys(),
            final(self).delivered() == old(self).delivered(),
            final(self).is_clean() == old(self).is_clean(),
    {
        let bytes = headers.clone_record().into_byte_record();
        self.state.headers = Some(
            Headers { pos: None, byte_record: bytes, string_record: Ok(headers) },
        );
        self.state.manual = Ghost(true);
    }

    /// Sets the headers of this reader manually, from raw bytes; the text
    /// form is computed once. This overrides any cached row and any
    /// future automatic detection; the header origin position is cleared.
    pub fn set_byte_headers(&mut self, headers: ByteRecord)
        requires
            old(self).wf(),
            headers.wf(),
        ensures
            final(self).wf(),
            final(self).aligned(),
            final(self).header_bytes() == Some(headers@),
            final(self).header_origin() == Some(Option::<Position>::None),
            final(self).manual_headers(),
            (all_fields_utf8(headers@) ==> final(self).header_text() == Some(Ok::<
                Seq<Seq<u8>>,
                Utf8Error,
            >(headers@))),
            (!all_fields_utf8(headers@) ==> (final(self).header_text() matches Some(t)
                && t matches Err(e) && describes_first_invalid(headers@, e))),
            final(self).has_headers_cfg() == old(self).has_headers_cfg(),
            final(self).is_flexible() == old(self).is_flexible(),
            final(self).has_seeked() == old(self).has_seeked(),
            final(self).first_done() == old(self).first_done(),
            final(self).at_eof() == old(self).at_eof(),
            final(self).first_count() == old(self).first_count(),
            final(self).spec_position() == old(self).spec_position(),
            final(self).prev_position() == old(self).prev_position(),
            final(self).phys() == old(self).phys(),
            final(self).delivered() == old(self).delivered(),
            final(self).is_clean() == old(self).is_clean(),
    {
        let text = StringRecord::from_byte_record(&headers);
        self.state.headers = Some(
            Headers { pos: None, byte_record: headers, string_record: text },
        );
        self.state.manual = Ghost(true);
    }

    /// Reads one record into `record` as validated text and returns
    /// whether the end of the stream was reached instead. The stream
    /// moves exactly as for the raw read; when the record's bytes are not
    /// valid UTF-8 the record is cleared and the first invalid field is
    /// reported.
    pub fn read_record(&mut self, record: &mut StringRecord) -> (r: Result<bool, Error>)
        requires
            old(self).wf(),
            old(self).spec_position().record() < u64::MAX - 1,
        ensures
            final(self).wf(),
            final(record).wf(),
            final(self).has_headers_cfg() == old(self).has_headers_cfg(),
            final(self).is_flexible() == old(self).is_flexible(),
            final(self).has_seeked() == old(self).has_seeked(),
            final(self).manual_headers() == old(self).manual_headers(),
            old(self).aligned() ==> final(self).aligned(),
            final(self).source() == old(self).source(),
            final(self).source_records() == old(self).source_records(),
            final(self).source_offset() >= old(self).source_offset(),
            final(self).spec_position().byte() == advanced_byte(
                old(self).spec_position().byte(),
                final(self).source_offset() - old(self).source_offset(),
            ),
            old(self).content_tracked() ==> final(self).content_tracked(),
            final(self).spec_position().record() == old(self).spec_position().record()
                + (final(self).phys().len() - old(self).phys().len()),
            old(self).first_done() ==> final(self).first_done(),
            final(self).is_flexible() ==> final(self).first_count() == old(self).first_count(),
            old(self).phys().len() <= final(self).phys().len() <= old(self).phys().len() + 2,
            final(self).phys().take(old(self).phys().len() as int) == old(self).phys(),
            old(self).at_eof() ==> {
                &&& final(self).at_eof()
                &&& final(self).spec_position() == old(self).spec_position()
                &&& final(self).prev_position() == old(self).prev_position()
                &&& final(self).phys() == old(self).phys()
                &&& final(self).delivered() == old(self).delivered()
                &&& final(self).first_count() == old(self).first_count()
                &&& final(self).source_offset() == old(self).source_offset()
            },
            (old(self).at_eof() && !replay_state(*old(self))) ==> r == Ok::<bool, Error>(true),
            ((old(self).header_bytes() is Some || old(self).has_seeked()) && !replay_state(
                *old(self),
            )) ==> {
                &&& final(self).phys().len() <= old(self).phys().len() + 1
                &&& (((r matches Ok(b) && !b) || (r matches Err(e) && !(e is Seek)))
                    ==> final(self).phys().len() == old(self).phys().len() + 1)
                &&& ((r matches Ok(b) && b) ==> final(self).phys() == old(self).phys())
            },
            (r is Err && old(self).first_count() is Some) ==> {
                &&& final(self).first_count() == old(self).first_count()
                &&& (r matches Err(Error::UnequalLengths { expected_len, .. })
                    ==> old(self).first_count() == Some(expected_len))
            },
            (r matches Err(e) && e is UnequalLengths && (old(self).header_bytes() is Some
                || old(self).has_seeked())) ==> final(self).prev_position() == old(
                self,
            ).prev_position(),
            (!replay_state(*old(self)) && ((r matches Ok(b) && !b) || (r matches Err(e)
                && e is Utf8))) ==> final(self).prev_position() == final(self).spec_position(),
            (old(self).header_bytes() is Some ==> {
                &&& final(self).header_bytes() == old(self).header_bytes()
                &&& final(self).header_text() == old(self).header_text()
                &&& final(self).header_origin() == old(self).header_origin()
            }),
            (r matches Ok(b) ==> {
                &&& all_fields_utf8(final(record)@)
                &&& (replay_state(*old(self)) ==> (b == old(self).at_eof() && (old(self).header_bytes() matches Some(h) && final(record)@ == h)))
                &&& (!replay_state(*old(self)) && !b ==> (final(self).phys().len() > old(self).phys().len() && final(record)@ == final(self).phys().last() && final(self).delivered() == old(self).delivered().push(final(record)@)))
                &&& (!replay_state(*old(self)) && b ==> (final(record)@ == Seq::<Seq<u8>>::empty()
                    && final(self).at_eof()))
            }),
            (r matches Err(e) ==> final(record)@ == Seq::<Seq<u8>>::empty()),
            (r matches Err(e) ==> (e matches Error::UnequalLengths { expected_len, pos, len }
                ==> {
                &&& !final(self).is_flexible()
                &&& final(self).first_count() == Some(expected_len)
                &&& len != expected_len
                &&& pos == final(self).prev_position()
            })),
            (r matches Err(e) ==> (e matches Error::Utf8 { pos, err } ==> {
                &&& pos == Some(old(self).spec_position())
                &&& (replay_state(*old(self)) ==> (old(self).header_bytes() matches Some(h)
                    && describes_first_invalid(h, err)))
                &&& (!replay_state(*old(self)) ==> (final(self).delivered().len() > 0
                    && describes_first_invalid(final(self).delivered().last(), err)))
            })),
            (r matches Err(e) ==> !(e is Seek)),
            (final(self).is_flexible() ==> (r matches Err(e) ==> !(e is UnequalLengths))),
    {
        let pos = self.state.cur_pos;
        let res = self.read_record_bytes(&mut record.inner);
        match res {
            Err(e) => {
                record.inner.clear();
                proof {
                    record.lemma_inner();
                }
                Err(e)
            },
            Ok(eof) => {
                match first_invalid_field(&record.inner) {
                    None => {
                        proof {
                            record.lemma_inner();
                        }
                        Ok(eof)
                    },
                    Some(err) => {
                        proof {
                            record.lemma_inner();
                        }
                        record.inner.clear();
                        proof {
                            record.lemma_inner();
                        }
                        Err(Error::Utf8 { pos: Some(pos), err })
                    },
                }
            },
        }
    }
}

impl ReaderState {
    /// Advances the record counter and applies the field-count rule: in
    /// strict mode the first record's count binds all later records.
    fn add_record(&mut self, num_fields: u64) -> (r: Result<(), Error>)
        requires
            old(self).cur_pos.record() < u64::MAX,
        ensures
            final(self).headers == old(self).headers,
            final(self).has_headers == old(self).has_headers,
            final(self).flexible == old(self).flexible,
            final(self).seeked == old(self).seeked,
            final(self).first == old(self).first,
            final(self).eof == old(self).eof,
            final(self).phys == old(self).phys,
            final(self).delivered == old(self).delivered,
            final(self).clean == old(self).clean,
            final(self).manual == old(self).manual,
            final(self).cur_pos.byte() == old(self).cur_pos.byte(),
            final(self).cur_pos.line() == old(self).cur_pos.line(),
            final(self).cur_pos.record() == old(self).cur_pos.record() + 1,
            match r {
                Ok(_) => {
                    &&& final(self).prev_pos == final(self).cur_pos
                    &&& (!old(self).flexible ==> {
                        &&& (old(self).first_field_count is None ==> final(self).first_field_count
                            == Some(num_fields))
                        &&& (old(self).first_field_count matches Some(e) ==> {
                            &&& final(self).first_field_count == Some(e)
                            &&& num_fields == e
                        })
                    })
                    &&& (old(self).flexible ==> final(self).first_field_count == old(self).first_field_count)
                },
                Err(e) => {
                    &&& (e matches Error::UnequalLengths { expected_len, pos, len } && {
                        &&& !old(self).flexible
                        &&& old(self).first_field_count == Some(expected_len)
                        &&& pos == old(self).prev_pos
                        &&& len == num_fields
                        &&& len != expected_len
                    })
                    &&& final(self).first_field_count == old(self).first_field_count
                    &&& final(self).prev_pos == old(self).prev_pos
                },
            },
    {
        let rec_idx = self.cur_pos.record();
        self.cur_pos.set_record(rec_idx + 1);
        if !self.flexible {
            match self.first_field_count {
                None => {
                    self.first_field_count = Some(num_fields);
                },
                Some(expected) => {
                    if num_fields != expected {
                        return Err(
                            Error::UnequalLengths {
                                expected_len: expected,
                                pos: self.prev_pos,
                                len: num_fields,
                            },
                        );
                    }
                },
            }
        }
        self.prev_pos = self.cur_pos;
        Ok(())
    }
}

/// With header suppression on — and no seek, no manual header override
/// and no field-count error so far — the `k`-th record handed out by the
/// raw read is the `k + 1`-th record physically parsed, and the cached
/// header row is the first physical record.
pub proof fn lemma_suppressed_reads_skip_header(r: &Reader, k: int)
    requires
        r.aligned(),
        r.is_clean(),
        !r.has_seeked(),
        !r.manual_headers(),
        r.has_headers_cfg(),
        0 <= k < r.delivered().len(),
    ensures
        r.delivered()[k] == r.phys()[k + 1],
        r.header_bytes() matches Some(h) && h == r.phys()[0],
{
}

/// With header suppression off — and no seek, no manual header override
/// and no field-count error so far — the raw read hands out the physical
/// records in order, the first one included, and reading the header row
/// through its accessor does not consume a position in that order.
pub proof fn lemma_unsuppressed_reads_in_order(r: &Reader, k: int)
    requires
        r.aligned(),
        r.is_clean(),
        !r.has_seeked(),
        !r.manual_headers(),
        !r.has_headers_cfg(),
        0 <= k < r.delivered().len(),
    ensures
        r.delivered()[k] == r.phys()[k],
{
}

/// A cached header row keeps its byte and text forms consistent: the
/// text form, when present, holds exactly the bytes of the raw form, it
/// is present exactly when every field of the raw form is valid UTF-8,
/// and otherwise the stored error names the first invalid field.
pub proof fn lemma_header_forms_consistent(r: &Reader)
    requires
        r.wf(),
        r.header_bytes() is Some,
    ensures
        r.header_text() matches Some(t) && (r.header_bytes() matches Some(hb) && {
            &&& (t matches Ok(s) ==> s == hb && all_fields_utf8(hb))
            &&& (t matches Err(e) ==> describes_first_invalid(hb, e))
            &&& ((t is Ok) <==> all_fields_utf8(hb))
        }),
{
    match r.state.headers {
        Some(h) => {
            match h.string_record {
                Ok(s) => {
                    s.lemma_inner();
                },
                Err(e) => {
                    assert(!valid_utf8(h.byte_record@[e.spec_field() as int]));
                    assert(!all_fields_utf8(h.byte_record@));
                },
            }
        },
        None => {},
    }
}

} // verus!
