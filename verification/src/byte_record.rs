//! Record storage: a growable byte buffer plus an ordered sequence of
//! field-end offsets.
//!
//! A record owns one contiguous byte buffer and a buffer of end offsets.
//! Field `i` is the byte range between offset `i - 1` (or `0`) and offset
//! `i`. Both buffers keep spare room at their tails so that the tokenizer
//! can write into them directly; `set_len` fixes the field count once a
//! record has been parsed. Clearing a record resets the field count only,
//! so the backing storage is reused across reads.

use vstd::prelude::*;

verus! {

/// The bytes of field `i`, read out of a byte buffer and an offset buffer.
///
/// Offsets that run past the byte buffer, or backwards, are clamped, so
/// the result is defined for every buffer state.
pub(crate) open spec fn field_span(fields: Seq<u8>, ends: Seq<usize>, i: int) -> Seq<u8> {
    let hi0 = ends[i] as int;
    let hi = if hi0 <= fields.len() {
        hi0
    } else {
        fields.len() as int
    };
    let lo0 = if i == 0 {
        0
    } else {
        ends[i - 1] as int
    };
    let lo = if 0 <= lo0 <= hi {
        lo0
    } else if lo0 > hi {
        hi
    } else {
        0
    };
    fields.subrange(lo, hi)
}

/// The sequence of fields described by a byte buffer, an offset buffer
/// and a field count.
pub(crate) open spec fn record_view(fields: Seq<u8>, ends: Seq<usize>, n: int) -> Seq<Seq<u8>> {
    Seq::new(n as nat, |i: int| field_span(fields, ends, i))
}

/// A record whose fields are raw bytes.
#[derive(Debug)]
pub struct ByteRecord {
    pub(crate) fields: Vec<u8>,
    pub(crate) ends: Vec<usize>,
    pub(crate) n_fields: usize,
}

impl View for ByteRecord {
    type V = Seq<Seq<u8>>;

    /// A record is seen as the sequence of the byte sequences of its
    /// fields.
    closed spec fn view(&self) -> Seq<Seq<u8>> {
        record_view(self.fields@, self.ends@, self.n_fields as int)
    }
}

impl ByteRecord {
    /// The field count fits inside the offset buffer.
    pub closed spec fn wf(&self) -> bool {
        self.n_fields <= self.ends@.len()
    }

    /// The offsets in use are non-decreasing and bounded by the byte
    /// buffer. This is the state kept by records built field by field;
    /// records filled by the tokenizer need not satisfy it.
    pub closed spec fn tidy(&self) -> bool {
        &&& self.wf()
        &&& forall|i: int, j: int|
            0 <= i <= j < self.n_fields ==> self.ends@[i] <= self.ends@[j]
        &&& self.n_fields > 0 ==> self.ends@[self.n_fields - 1] <= self.fields@.len()
    }

    /// The number of buffer bytes holding field data.
    pub closed spec fn used_bytes(&self) -> int {
        if self.n_fields == 0 {
            0
        } else if self.ends@[self.n_fields - 1] <= self.fields@.len() {
            self.ends@[self.n_fields - 1] as int
        } else {
            self.fields@.len() as int
        }
    }

    /// How the view follows from the stored buffers.
    pub(crate) proof fn lemma_view_def(&self)
        ensures
            self@ == record_view(self.fields@, self.ends@, self.n_fields as int),
            self@.len() == self.n_fields,
    {
    }

    /// How well-formedness follows from the stored buffers.
    pub(crate) proof fn lemma_wf_def(&self)
        ensures
            self.wf() <==> self.n_fields <= self.ends@.len(),
    {
    }

    /// Returns an empty record.
    pub fn new() -> (rec: ByteRecord)
        ensures
            rec@ == Seq::<Seq<u8>>::empty(),
            rec.wf(),
            rec.tidy(),
            rec.used_bytes() == 0,
    {
        let rec = ByteRecord { fields: Vec::new(), ends: Vec::new(), n_fields: 0 };
        proof {
            assert(rec@ =~= Seq::<Seq<u8>>::empty());
        }
        rec
    }

    /// The number of fields in this record.
    pub fn len(&self) -> (n: usize)
        ensures
            n == self@.len(),
    {
        self.n_fields
    }

    /// Resets the field count to zero. The backing storage is kept, so a
    /// record can be reused across reads without reallocating.
    pub fn clear(&mut self)
        ensures
            final(self)@ == Seq::<Seq<u8>>::empty(),
            final(self).wf(),
            final(self).tidy(),
    {
        self.n_fields = 0;
        proof {
            assert(self@ =~= Seq::<Seq<u8>>::empty());
        }
    }

    /// The bytes of field `i`, or `None` when `i` is out of range.
    pub fn get(&self, i: usize) -> (r: Option<&[u8]>)
        requires
            self.wf(),
        ensures
            i < self@.len() ==> (r matches Some(f) && f@ == self@[i as int]),
            i >= self@.len() ==> r is None,
    {
        if i >= self.n_fields {
            return None;
        }
        let hi0 = self.ends[i];
        let flen = self.fields.len();
        let hi = if hi0 <= flen {
            hi0
        } else {
            flen
        };
        let lo0 = if i == 0 {
            0
        } else {
            self.ends[i - 1]
        };
        let lo = if lo0 <= hi {
            lo0
        } else {
            hi
        };
        let f = &self.fields[lo..hi];
        proof {
            assert(f@ =~= field_span(self.fields@, self.ends@, i as int));
        }
        Some(f)
    }

    /// Appends a field holding the given bytes.
    ///
    /// The byte buffer is first truncated to the bytes in use, so spare
    /// tail space left by an earlier parse is dropped.
    pub fn push_field(&mut self, field: &[u8])
        requires
            old(self).tidy(),
            old(self).used_bytes() + field@.len() <= usize::MAX,
            old(self)@.len() < usize::MAX,
        ensures
            final(self)@ == old(self)@.push(field@),
            final(self).wf(),
            final(self).tidy(),
            final(self).used_bytes() == old(self).used_bytes() + field@.len(),
    {
        let ghost old_self = *self;
        let used = if self.n_fields == 0 {
            0
        } else {
            self.ends[self.n_fields - 1]
        };
        self.fields.truncate(used);
        let ghost mid_fields = self.fields@;
        let mut j: usize = 0;
        while j < field.len()
            invariant
                j <= field@.len(),
                self.fields@ == mid_fields + field@.subrange(0, j as int),
                self.ends == old_self.ends,
                self.n_fields == old_self.n_fields,
                mid_fields.len() == used,
                used == old_self.used_bytes(),
                field@.len() + used <= usize::MAX,
            decreases field@.len() - j,
        {
            self.fields.push(field[j]);
            proof {
                assert(self.fields@ =~= mid_fields + field@.subrange(0, j + 1));
            }
            j += 1;
        }
        proof {
            assert(field@.subrange(0, field@.len() as int) =~= field@);
        }
        self.ends.truncate(self.n_fields);
        let new_end = used + field.len();
        self.ends.push(new_end);
        self.n_fields = self.n_fields + 1;
        proof {
            let nf = old_self.n_fields as int;
            assert forall|i: int| 0 <= i < nf implies self@[i] == old_self@[i] by {
                assert(self.ends@[i] == old_self.ends@[i]);
                if i > 0 {
                    assert(self.ends@[i - 1] == old_self.ends@[i - 1]);
                }
                assert(self.ends@[i] <= used);
                assert(field_span(self.fields@, self.ends@, i) =~= field_span(
                    old_self.fields@,
                    old_self.ends@,
                    i,
                ));
            }
            assert(self@[nf] == field_span(self.fields@, self.ends@, nf));
            assert(field_span(self.fields@, self.ends@, nf) =~= field@);
            assert(self@ =~= old_self@.push(field@));
        }
    }

    /// Fixes the field count after a parse has written `n` offsets.
    pub(crate) fn set_len(&mut self, n: usize)
        requires
            n <= old(self).ends@.len(),
        ensures
            final(self).fields == old(self).fields,
            final(self).ends == old(self).ends,
            final(self).n_fields == n,
            final(self).wf(),
            final(self)@.len() == n,
    {
        self.n_fields = n;
    }

    /// Grows the byte buffer by doubling (from a small floor), keeping
    /// its contents.
    pub(crate) fn expand_fields(&mut self)
        ensures
            final(self).ends == old(self).ends,
            final(self).n_fields == old(self).n_fields,
            final(self).fields@.len() >= old(self).fields@.len(),
            old(self).fields@.len() < usize::MAX ==> final(self).fields@.len() > old(
                self,
            ).fields@.len(),
            final(self).fields@.subrange(0, old(self).fields@.len() as int) == old(self).fields@,
    {
        let len = self.fields.len();
        let target = if len == 0 {
            4
        } else if len <= usize::MAX / 2 {
            2 * len
        } else {
            usize::MAX
        };
        let ghost old_fields = self.fields@;
        while self.fields.len() < target
            invariant
                self.fields@.len() >= old_fields.len(),
                self.fields@.subrange(0, old_fields.len() as int) == old_fields,
                self.ends == old(self).ends,
                self.n_fields == old(self).n_fields,
            decreases target - self.fields@.len(),
        {
            self.fields.push(0);
            proof {
                assert(self.fields@.subrange(0, old_fields.len() as int) =~= old_fields);
            }
        }
    }

    /// Grows the offset buffer by doubling (from a small floor), keeping
    /// its contents.
    pub(crate) fn expand_ends(&mut self)
        ensures
            final(self).fields == old(self).fields,
            final(self).n_fields == old(self).n_fields,
            final(self).ends@.len() >= old(self).ends@.len(),
            old(self).ends@.len() < usize::MAX ==> final(self).ends@.len() > old(self).ends@.len(),
            final(self).ends@.subrange(0, old(self).ends@.len() as int) == old(self).ends@,
    {
        let len = self.ends.len();
        let target = if len == 0 {
            4
        } else if len <= usize::MAX / 2 {
            2 * len
        } else {
            usize::MAX
        };
        let ghost old_ends = self.ends@;
        while self.ends.len() < target
            invariant
                self.ends@.len() >= old_ends.len(),
                self.ends@.subrange(0, old_ends.len() as int) == old_ends,
                self.fields == old(self).fields,
                self.n_fields == old(self).n_fields,
            decreases target - self.ends@.len(),
        {
            self.ends.push(0);
            proof {
                assert(self.ends@.subrange(0, old_ends.len() as int) =~= old_ends);
            }
        }
    }

    /// Returns a copy of this record.
    pub fn clone_record(&self) -> (r: ByteRecord)
        ensures
            r@ == self@,
            r.wf() == self.wf(),
            r.tidy() == self.tidy(),
    {
        ByteRecord {
            fields: copy_bytes(&self.fields),
            ends: copy_offsets(&self.ends),
            n_fields: self.n_fields,
        }
    }

    /// Replaces this record with a copy of another.
    pub fn copy_from(&mut self, other: &ByteRecord)
        ensures
            final(self)@ == other@,
            final(self).wf() == other.wf(),
            final(self).tidy() == other.tidy(),
    {
        self.fields = copy_bytes(&other.fields);
        self.ends = copy_offsets(&other.ends);
        self.n_fields = other.n_fields;
    }
}

fn copy_bytes(v: &Vec<u8>) -> (r: Vec<u8>)
    ensures
        r@ == v@,
{
    let mut r: Vec<u8> = Vec::new();
    let mut j: usize = 0;
    while j < v.len()
        invariant
            j <= v@.len(),
            r@ == v@.subrange(0, j as int),
        decreases v@.len() - j,
    {
        r.push(v[j]);
        proof {
            assert(r@ =~= v@.subrange(0, j + 1));
        }
        j += 1;
    }
    proof {
        assert(v@.subrange(0, v@.len() as int) =~= v@);
    }
    r
}

fn copy_offsets(v: &Vec<usize>) -> (r: Vec<usize>)
    ensures
        r@ == v@,
{
    let mut r: Vec<usize> = Vec::new();
    let mut j: usize = 0;
    while j < v.len()
        invariant
            j <= v@.len(),
            r@ == v@.subrange(0, j as int),
        decreases v@.len() - j,
    {
        r.push(v[j]);
        proof {
            assert(r@ =~= v@.subrange(0, j + 1));
        }
        j += 1;
    }
    proof {
        assert(v@.subrange(0, v@.len() as int) =~= v@);
    }
    r
}

} // verus!
