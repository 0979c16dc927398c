//! Record Layout: a fixed-width binary record described once by an ordered
//! list of field byte-lengths. Construction validates that the lengths sum
//! to the declared total, so splitting a correctly-sized buffer can never
//! fail; a padded variant wraps a layout with a fixed-size leading type tag
//! and a fixed-size trailer.

use vstd::prelude::*;
use crate::constants::PADDING_SIZE;

verus! {

/// Byte offset of field `i`: the sum of the lengths of the fields before it.
pub open spec fn offset_of(sizes: Seq<usize>, i: int) -> int
    decreases i,
{
    if i <= 0 {
        0
    } else {
        offset_of(sizes, i - 1) + sizes[i - 1]
    }
}

/// Total width of a record: the sum of all field lengths.
pub open spec fn total_of(sizes: Seq<usize>) -> int {
    offset_of(sizes, sizes.len() as int)
}

/// Offsets grow with the field index.
pub proof fn lemma_offset_mono(sizes: Seq<usize>, i: int, j: int)
    requires
        0 <= i <= j <= sizes.len(),
    ensures
        offset_of(sizes, i) <= offset_of(sizes, j),
    decreases j,
{
    if i < j {
        lemma_offset_mono(sizes, i, j - 1);
    }
}

/// The concatenation of the first `i` buffers of `fields`.
pub open spec fn concat_prefix(fields: Seq<Seq<u8>>, i: int) -> Seq<u8>
    decreases i,
{
    if i <= 0 {
        Seq::empty()
    } else {
        concat_prefix(fields, i - 1) + fields[i - 1]
    }
}

/// The concatenation of all buffers of `fields`.
pub open spec fn concat_fields(fields: Seq<Seq<u8>>) -> Seq<u8> {
    concat_prefix(fields, fields.len() as int)
}

/// The concatenation of the first `i` fields is exactly `offset_of(i)`
/// bytes long.
proof fn lemma_concat_prefix_len(sizes: Seq<usize>, fields: Seq<Seq<u8>>, i: int)
    requires
        fields.len() == sizes.len(),
        forall|p: int| 0 <= p < fields.len() ==> (#[trigger] fields[p]).len() == sizes[p],
        0 <= i <= fields.len(),
    ensures
        concat_prefix(fields, i).len() == offset_of(sizes, i),
    decreases i,
{
    if i > 0 {
        lemma_concat_prefix_len(sizes, fields, i - 1);
    }
}

proof fn lemma_concat_prefix_field(sizes: Seq<usize>, fields: Seq<Seq<u8>>, j: int, i: int)
    requires
        fields.len() == sizes.len(),
        forall|p: int| 0 <= p < fields.len() ==> (#[trigger] fields[p]).len() == sizes[p],
        0 <= j < i <= fields.len(),
    ensures
        concat_prefix(fields, i).subrange(
            offset_of(sizes, j),
            offset_of(sizes, j) + sizes[j],
        ) == fields[j],
    decreases i,
{
    lemma_offset_mono(sizes, 0, j);
    lemma_concat_prefix_len(sizes, fields, i - 1);
    if i - 1 == j {
        assert(concat_prefix(fields, i).subrange(offset_of(sizes, j), offset_of(sizes, j)
            + sizes[j]) =~= fields[j]);
    } else {
        lemma_concat_prefix_field(sizes, fields, j, i - 1);
        lemma_offset_mono(sizes, j + 1, i - 1);
        assert(concat_prefix(fields, i).subrange(offset_of(sizes, j), offset_of(sizes, j)
            + sizes[j]) =~= concat_prefix(fields, i - 1).subrange(
            offset_of(sizes, j),
            offset_of(sizes, j) + sizes[j],
        ));
    }
}

/// Splitting a composed record gives the fields back: in the concatenation
/// of fields whose lengths follow the layout, field `j` occupies exactly
/// the byte range that `split` reads it from.
pub proof fn lemma_split_of_compose(sizes: Seq<usize>, fields: Seq<Seq<u8>>, j: int)
    requires
        fields.len() == sizes.len(),
        forall|p: int| 0 <= p < fields.len() ==> (#[trigger] fields[p]).len() == sizes[p],
        0 <= j < fields.len(),
    ensures
        concat_fields(fields).subrange(
            offset_of(sizes, j),
            offset_of(sizes, j) + sizes[j],
        ) == fields[j],
{
    lemma_concat_prefix_field(sizes, fields, j, fields.len() as int);
}

/// Append `src[start .. start + len]` to `dst`.
pub fn push_range(dst: &mut Vec<u8>, src: &Vec<u8>, start: usize, len: usize)
    requires
        start + len <= src@.len(),
    ensures
        final(dst)@ == old(dst)@ + src@.subrange(start as int, start + len),
{
    let n = src.len();
    let mut k: usize = 0;
    while k < len
        invariant
            start + len <= src@.len(),
            src@.len() == n,
            0 <= k <= len,
            dst@ == old(dst)@ + src@.subrange(start as int, start + k),
        decreases len - k,
    {
        dst.push(src[start + k]);
        k += 1;
        assert(dst@ =~= old(dst)@ + src@.subrange(start as int, start + k));
    }
}

/// A fixed-width record shape: an ordered list of field byte-lengths whose
/// sum is the record's total width.
pub struct RecordLayout {
    pub sizes: Vec<usize>,
    pub total: usize,
}

impl RecordLayout {
    /// The declared total equals the sum of the field lengths (checked once,
    /// at definition time).
    pub open spec fn wf(&self) -> bool {
        self.total == total_of(self.sizes@)
    }

    /// Define a layout from an ordered list of field lengths; fails exactly
    /// when the lengths do not sum to a representable size.
    pub fn new(sizes: Vec<usize>) -> (r: Option<RecordLayout>)
        ensures
            match r {
                Some(l) => l.wf() && l.sizes@ == sizes@ && l.total == total_of(sizes@),
                None => total_of(sizes@) > usize::MAX,
            },
    {
        let mut acc: usize = 0;
        let mut i: usize = 0;
        while i < sizes.len()
            invariant
                0 <= i <= sizes.len(),
                acc == offset_of(sizes@, i as int),
            decreases sizes.len() - i,
        {
            acc = match acc.checked_add(sizes[i]) {
                Some(a) => a,
                None => {
                    proof {
                        lemma_offset_mono(sizes@, i as int + 1, sizes@.len() as int);
                    }
                    return None;
                },
            };
            i += 1;
        }
        Some(RecordLayout { sizes, total: acc })
    }

    /// Split a record of exactly the declared width into its fields, each a
    /// copy of the corresponding byte range, in field order.
    pub fn split(&self, buf: &Vec<u8>) -> (r: Vec<Vec<u8>>)
        requires
            self.wf(),
            buf@.len() == self.total,
        ensures
            r@.len() == self.sizes@.len(),
            forall|j: int|
                0 <= j < r@.len() ==> r@[j]@ == buf@.subrange(
                    offset_of(self.sizes@, j),
                    offset_of(self.sizes@, j) + self.sizes@[j],
                ),
    {
        let mut fields: Vec<Vec<u8>> = Vec::new();
        let mut off: usize = 0;
        let mut i: usize = 0;
        while i < self.sizes.len()
            invariant
                self.wf(),
                buf@.len() == self.total,
                0 <= i <= self.sizes@.len(),
                off == offset_of(self.sizes@, i as int),
                fields@.len() == i,
                forall|j: int|
                    0 <= j < i ==> fields@[j]@ == buf@.subrange(
                        offset_of(self.sizes@, j),
                        offset_of(self.sizes@, j) + self.sizes@[j],
                    ),
            decreases self.sizes@.len() - i,
        {
            let sz = self.sizes[i];
            proof {
                assert(offset_of(self.sizes@, i as int + 1) == off + sz);
                lemma_offset_mono(self.sizes@, i as int + 1, self.sizes@.len() as int);
            }
            let mut f: Vec<u8> = Vec::new();
            push_range(&mut f, buf, off, sz);
            fields.push(f);
            off += sz;
            i += 1;
        }
        fields
    }

    /// Compose fields of exactly the declared lengths into one record: the
    /// result is their concatenation in field order.
    pub fn compose(&self, fields: &Vec<Vec<u8>>) -> (r: Vec<u8>)
        requires
            self.wf(),
            fields@.len() == self.sizes@.len(),
            forall|j: int| 0 <= j < fields@.len() ==> (#[trigger] fields@[j])@.len()
                == self.sizes@[j],
        ensures
            r@.len() == self.total,
            r@ == concat_fields(fields@.map_values(|f: Vec<u8>| f@)),
    {
        let ghost views = fields@.map_values(|f: Vec<u8>| f@);
        let mut r: Vec<u8> = Vec::new();
        let mut i: usize = 0;
        while i < fields.len()
            invariant
                self.wf(),
                views == fields@.map_values(|f: Vec<u8>| f@),
                fields@.len() == self.sizes@.len(),
                forall|j: int| 0 <= j < fields@.len() ==> (#[trigger] fields@[j])@.len()
                    == self.sizes@[j],
                0 <= i <= fields@.len(),
                r@ == concat_prefix(views, i as int),
                r@.len() == offset_of(self.sizes@, i as int),
            decreases fields@.len() - i,
        {
            let field = &fields[i];
            let len = field.len();
            push_range(&mut r, field, 0, len);
            proof {
                assert(field@.subrange(0, len as int) =~= field@);
                assert(offset_of(self.sizes@, i as int + 1) == offset_of(self.sizes@, i as int)
                    + self.sizes@[i as int]);
            }
            i += 1;
        }
        proof {
            lemma_offset_mono(self.sizes@, 0, self.sizes@.len() as int);
        }
        r
    }
}

/// A layout wrapped with a fixed-size leading type tag and a fixed-size
/// trailer; the same split contract applies after stripping the wrapper.
pub struct PaddedLayout {
    pub inner: RecordLayout,
    pub prefix: Vec<u8>,
    pub suffix: Vec<u8>,
}

impl PaddedLayout {
    pub open spec fn wf(&self) -> bool {
        &&& self.inner.wf()
        &&& self.prefix@.len() == PADDING_SIZE
        &&& self.suffix@.len() == PADDING_SIZE
        &&& self.inner.total + 2 * PADDING_SIZE <= usize::MAX
    }

    /// Total width of a padded record: tag, fields, trailer.
    pub open spec fn spec_pad_total(&self) -> int {
        self.inner.total + 2 * PADDING_SIZE
    }

    pub fn pad_total(&self) -> (r: usize)
        requires
            self.wf(),
        ensures
            r == self.spec_pad_total(),
    {
        self.inner.total + 2 * PADDING_SIZE
    }

    /// True of a buffer that starts with the tag and ends with the trailer.
    pub open spec fn framed(&self, buf: Seq<u8>) -> bool {
        &&& buf.subrange(0, PADDING_SIZE as int) == self.prefix@
        &&& buf.subrange(buf.len() - PADDING_SIZE, buf.len() as int) == self.suffix@
    }

    /// Split a whole padded record into the inner fields. Succeeds exactly
    /// when the leading tag and the trailer match; any mismatch yields
    /// `None` (a fatal frame error for the caller).
    pub fn pad_split(&self, buf: &Vec<u8>) -> (r: Option<Vec<Vec<u8>>>)
        requires
            self.wf(),
            buf@.len() == self.spec_pad_total(),
        ensures
            r is Some <==> self.framed(buf@),
            match r {
                Some(fields) => {
                    &&& fields@.len() == self.inner.sizes@.len()
                    &&& forall|j: int|
                        0 <= j < fields@.len() ==> fields@[j]@ == buf@.subrange(
                            PADDING_SIZE + offset_of(self.inner.sizes@, j),
                            PADDING_SIZE + offset_of(self.inner.sizes@, j)
                                + self.inner.sizes@[j],
                        )
                },
                None => true,
            },
    {
        let n = buf.len();
        let mut k: usize = 0;
        while k < PADDING_SIZE
            invariant
                self.wf(),
                buf@.len() == self.spec_pad_total(),
                n == buf@.len(),
                0 <= k <= PADDING_SIZE,
                forall|j: int| 0 <= j < k ==> buf@[j] == self.prefix@[j],
                forall|j: int| 0 <= j < k ==> buf@[n - PADDING_SIZE + j] == self.suffix@[j],
            decreases PADDING_SIZE - k,
        {
            if buf[k] != self.prefix[k] {
                proof {
                    assert(buf@.subrange(0, PADDING_SIZE as int)[k as int] != self.prefix@[
                        k as int]);
                }
                return None;
            }
            if buf[n - PADDING_SIZE + k] != self.suffix[k] {
                proof {
                    assert(buf@.subrange(n - PADDING_SIZE, n as int)[k as int] != self.suffix@[
                        k as int]);
                }
                return None;
            }
            k += 1;
        }
        proof {
            assert(buf@.subrange(0, PADDING_SIZE as int) =~= self.prefix@);
            assert(buf@.subrange(n - PADDING_SIZE, n as int) =~= self.suffix@);
        }
        let mut middle: Vec<u8> = Vec::new();
        push_range(&mut middle, buf, PADDING_SIZE, self.inner.total);
        let fields = self.inner.split(&middle);
        proof {
            assert forall|j: int| 0 <= j < fields@.len() implies fields@[j]@ == buf@.subrange(
                PADDING_SIZE + offset_of(self.inner.sizes@, j),
                PADDING_SIZE + offset_of(self.inner.sizes@, j) + self.inner.sizes@[j],
            ) by {
                lemma_offset_mono(self.inner.sizes@, 0, j);
                lemma_offset_mono(self.inner.sizes@, j + 1, self.inner.sizes@.len() as int);
                assert(fields@[j]@ =~= buf@.subrange(
                    PADDING_SIZE + offset_of(self.inner.sizes@, j),
                    PADDING_SIZE + offset_of(self.inner.sizes@, j) + self.inner.sizes@[j],
                ));
            }
        }
        Some(fields)
    }

    /// Compose fields into a whole padded record: tag, fields, trailer.
    pub fn pad_compose(&self, fields: &Vec<Vec<u8>>) -> (r: Vec<u8>)
        requires
            self.wf(),
            fields@.len() == self.inner.sizes@.len(),
            forall|j: int| 0 <= j < fields@.len() ==> (#[trigger] fields@[j])@.len()
                == self.inner.sizes@[j],
        ensures
            r@.len() == self.spec_pad_total(),
            r@ == self.prefix@ + concat_fields(fields@.map_values(|f: Vec<u8>| f@))
                + self.suffix@,
            self.framed(r@),
    {
        let middle = self.inner.compose(fields);
        let mut r: Vec<u8> = Vec::new();
        push_range(&mut r, &self.prefix, 0, PADDING_SIZE);
        push_range(&mut r, &middle, 0, self.inner.total);
        push_range(&mut r, &self.suffix, 0, PADDING_SIZE);
        proof {
            assert(self.prefix@.subrange(0, PADDING_SIZE as int) =~= self.prefix@);
            assert(middle@.subrange(0, middle@.len() as int) =~= middle@);
            assert(self.suffix@.subrange(0, PADDING_SIZE as int) =~= self.suffix@);
            assert(r@ =~= self.prefix@ + middle@ + self.suffix@);
            assert(r@.subrange(0, PADDING_SIZE as int) =~= self.prefix@);
            assert(r@.subrange(r@.len() - PADDING_SIZE, r@.len() as int) =~= self.suffix@);
        }
        r
    }
}

} // verus!
