//! Records whose fields are validated text.
//!
//! A text record is a byte record together with the guarantee that every
//! field holds valid UTF-8. Validation happens once, when a record is
//! converted from its raw form; raw accessors never validate.

use vstd::prelude::*;

use vstd::string::StringSliceAdditionalSpecFns;
use vstd::utf8::encode_scalar;
use vstd::utf8::encode_utf8;
use vstd::utf8::valid_utf8;

use crate::byte_record::ByteRecord;
use crate::error::Utf8Error;

verus! {

/// Every field of the record holds valid UTF-8.
pub open spec fn all_fields_utf8(fields: Seq<Seq<u8>>) -> bool {
    forall|i: int| 0 <= i < fields.len() ==> valid_utf8(#[trigger] fields[i])
}

/// `e` names the first field of `fields` whose bytes are not valid UTF-8:
/// every earlier field is valid, and `valid_up_to` is the length of the
/// longest prefix of that field that is valid UTF-8.
pub open spec fn describes_first_invalid(fields: Seq<Seq<u8>>, e: Utf8Error) -> bool {
    let i = e.spec_field() as int;
    let k = e.spec_valid_up_to() as int;
    &&& 0 <= i < fields.len()
    &&& !valid_utf8(fields[i])
    &&& forall|j: int| 0 <= j < i ==> valid_utf8(#[trigger] fields[j])
    &&& 0 <= k < fields[i].len()
    &&& valid_utf8(fields[i].subrange(0, k))
    &&& forall|j: int|
        k < j <= fields[i].len() ==> !valid_utf8(#[trigger] fields[i].subrange(0, j))
}

/// Relies on std::str::from_utf8: it succeeds exactly on valid UTF-8 and
/// returns the string slice viewing the given bytes; on failure,
/// `valid_up_to` gives the longest prefix that is valid UTF-8, and no
/// longer prefix is valid.
#[verifier::external_body]
fn try_str(b: &[u8]) -> (r: Result<&str, usize>)
    ensures
        valid_utf8(b@) <==> r is Ok,
        r matches Ok(s) ==> s.spec_bytes() == b@,
        r matches Err(k) ==> {
            &&& 0 <= k < b@.len()
            &&& valid_utf8(b@.subrange(0, k as int))
            &&& forall|j: int| k < j <= b@.len() ==> !valid_utf8(#[trigger] b@.subrange(0, j))
        },
{
    match std::str::from_utf8(b) {
        Ok(s) => Ok(s),
        Err(e) => Err(e.valid_up_to()),
    }
}

/// Scans the fields of a raw record in order and reports the first one
/// that is not valid UTF-8.
pub(crate) fn first_invalid_field(rec: &ByteRecord) -> (r: Option<Utf8Error>)
    requires
        rec.wf(),
    ensures
        r is None <==> all_fields_utf8(rec@),
        r matches Some(e) ==> describes_first_invalid(rec@, e),
{
    let n = rec.len();
    let mut i: usize = 0;
    while i < n
        invariant
            i <= n,
            n == rec@.len(),
            rec.wf(),
            forall|j: int| 0 <= j < i ==> valid_utf8(#[trigger] rec@[j]),
        decreases n - i,
    {
        if let Some(f) = rec.get(i) {
            match try_str(f) {
                Ok(_) => {},
                Err(k) => {
                    return Some(Utf8Error::new(i, k));
                },
            }
        } else {
            proof {
                assert(false);
            }
        }
        i += 1;
    }
    None
}

/// Each scalar value encodes to at most four UTF-8 bytes, so a string's
/// byte length is at most four times its character count.
pub proof fn lemma_encode_utf8_len(chars: Seq<char>)
    ensures
        encode_utf8(chars).len() <= 4 * chars.len(),
    decreases chars.len(),
{
    if chars.len() > 0 {
        assert(encode_scalar(chars[0] as u32).len() <= 4);
        lemma_encode_utf8_len(chars.drop_first());
    }
}

/// A record whose fields are valid text.
#[derive(Debug)]
pub struct StringRecord {
    pub(crate) inner: ByteRecord,
}

impl View for StringRecord {
    type V = Seq<Seq<u8>>;

    /// A text record is seen as the sequence of the UTF-8 bytes of its
    /// fields.
    closed spec fn view(&self) -> Seq<Seq<u8>> {
        self.inner@
    }
}

impl StringRecord {
    /// The stored record is coherent and every field is valid UTF-8.
    pub closed spec fn wf(&self) -> bool {
        &&& self.inner.wf()
        &&& all_fields_utf8(self.inner@)
    }

    /// See `ByteRecord::tidy`.
    pub closed spec fn tidy(&self) -> bool {
        self.inner.tidy()
    }

    /// See `ByteRecord::used_bytes`.
    pub closed spec fn used_bytes(&self) -> int {
        self.inner.used_bytes()
    }

    /// How the view and well-formedness follow from the stored record.
    pub(crate) proof fn lemma_inner(&self)
        ensures
            self@ == self.inner@,
            self.wf() <==> (self.inner.wf() && all_fields_utf8(self.inner@)),
    {
    }

    /// Returns an empty text record.
    pub fn new() -> (rec: StringRecord)
        ensures
            rec@ == Seq::<Seq<u8>>::empty(),
            rec.wf(),
            rec.tidy(),
            rec.used_bytes() == 0,
    {
        StringRecord { inner: ByteRecord::new() }
    }

    /// The number of fields in this record.
    pub fn len(&self) -> (n: usize)
        ensures
            n == self@.len(),
    {
        self.inner.len()
    }

    /// Field `i` as text, or `None` when `i` is out of range.
    pub fn get(&self, i: usize) -> (r: Option<&str>)
        requires
            self.wf(),
        ensures
            i < self@.len() ==> (r matches Some(s) && s.spec_bytes() == self@[i as int]),
            i >= self@.len() ==> r is None,
    {
        match self.inner.get(i) {
            None => None,
            Some(b) => match try_str(b) {
                Ok(s) => Some(s),
                Err(_) => {
                    proof {
                        assert(false);
                    }
                    None
                },
            },
        }
    }

    /// Appends a field holding the given text.
    pub fn push_field(&mut self, field: &str)
        requires
            old(self).wf(),
            old(self).tidy(),
            old(self).used_bytes() + 4 * field@.len() <= usize::MAX,
            old(self)@.len() < usize::MAX,
        ensures
            final(self)@ == old(self)@.push(field.spec_bytes()),
            final(self).wf(),
            final(self).tidy(),
            final(self).used_bytes() <= old(self).used_bytes() + 4 * field@.len(),
    {
        let b = field.as_bytes();
        proof {
            vstd::utf8::encode_utf8_valid_utf8(field@);
            lemma_encode_utf8_len(field@);
        }
        self.inner.push_field(b);
    }

    /// Validates a raw record: returns its text form when every field is
    /// valid UTF-8, and otherwise reports the first invalid field.
    pub fn from_byte_record(rec: &ByteRecord) -> (r: Result<StringRecord, Utf8Error>)
        requires
            rec.wf(),
        ensures
            r is Ok <==> all_fields_utf8(rec@),
            r matches Ok(s) ==> s@ == rec@ && s.wf() && s.tidy() == rec.tidy(),
            r matches Err(e) ==> describes_first_invalid(rec@, e),
    {
        match first_invalid_field(rec) {
            Some(e) => Err(e),
            None => Ok(StringRecord { inner: rec.clone_record() }),
        }
    }

    /// Gives up the text guarantee and hands back the underlying raw
    /// record.
    pub fn into_byte_record(self) -> (r: ByteRecord)
        ensures
            r@ == self@,
            self.wf() ==> r.wf(),
            self.tidy() ==> r.tidy(),
    {
        self.inner
    }

    /// Returns a copy of this record.
    pub fn clone_record(&self) -> (r: StringRecord)
        ensures
            r@ == self@,
            r.wf() == self.wf(),
            r.tidy() == self.tidy(),
    {
        StringRecord { inner: self.inner.clone_record() }
    }
}

} // verus!
