//! Index files: the ordered digest lists that name the chunks of an archive.
//!
//! Both shapes serialize as a 144-byte header followed by an entry array.
//! A fixed index stores one 32-byte digest per chunk of a fixed
//! `chunk_size`; a dynamic index stores `(end_offset, digest)` pairs with
//! strictly increasing offsets.  `index_csum` is a rolling SHA-256 folded
//! over the entries exactly as they are serialized: offset then digest for
//! dynamic entries, digest alone for fixed entries.

use vstd::prelude::*;
use vstd::bytes::{
    spec_u64_from_le_bytes, spec_u64_to_le_bytes, u64_from_le_bytes, u64_to_le_bytes,
    lemma_auto_spec_u64_to_from_le_bytes,
};
use vstd::slice::slice_subrange;
use crate::crypt::{sha256, sha256_of};

verus! {

/// Index failures.
#[derive(Clone, Copy, Debug, PartialEq, Eq, Structural)]
pub enum IndexError {
    /// The bytes are no index file of the expected shape.
    Format,
    /// An entry would not keep the offsets strictly increasing.
    Order,
    /// A fixed index got more digests than its size allows.
    Full,
}

/// One dynamic-index entry: the offset just past the chunk, and the chunk's
/// digest.
#[derive(Clone, Copy)]
pub struct DynamicEntry {
    pub end_offset: u64,
    pub digest: [u8; 32],
}

pub open spec fn spec_dynamic_entry_bytes(e: DynamicEntry) -> Seq<u8> {
    spec_u64_to_le_bytes(e.end_offset) + e.digest@
}

/// The serialized entry array of a dynamic index; also the byte string the
/// rolling checksum folds over.
pub open spec fn spec_dynamic_entries_bytes(s: Seq<DynamicEntry>) -> Seq<u8>
    decreases s.len(),
{
    if s.len() == 0 {
        Seq::<u8>::empty()
    } else {
        spec_dynamic_entry_bytes(s[0]) + spec_dynamic_entries_bytes(s.skip(1))
    }
}

/// The serialized entry array of a fixed index; also the byte string its
/// rolling checksum folds over.  Offsets are implicit, so only digests are
/// folded: archives that share their chunks in a different order share a
/// checksum.
pub open spec fn spec_fixed_entries_bytes(s: Seq<[u8; 32]>) -> Seq<u8>
    decreases s.len(),
{
    if s.len() == 0 {
        Seq::<u8>::empty()
    } else {
        s[0]@ + spec_fixed_entries_bytes(s.skip(1))
    }
}

/// The offsets of a dynamic index grow strictly.
pub open spec fn spec_offsets_increasing(s: Seq<DynamicEntry>) -> bool {
    forall|i: int, j: int| 0 <= i < j < s.len() ==> s[i].end_offset < s[j].end_offset
}

pub proof fn lemma_dynamic_entries_bytes_push(s: Seq<DynamicEntry>, e: DynamicEntry)
    ensures
        spec_dynamic_entries_bytes(s.push(e)) == spec_dynamic_entries_bytes(s)
            + spec_dynamic_entry_bytes(e),
    decreases s.len(),
{
    lemma_auto_spec_u64_to_from_le_bytes();
    if s.len() == 0 {
        assert(s.push(e)[0] == e);
        assert(s.push(e).skip(1) =~= Seq::<DynamicEntry>::empty());
        assert(spec_dynamic_entries_bytes(s.push(e).skip(1)) =~= Seq::<u8>::empty());
        assert(spec_dynamic_entries_bytes(s) =~= Seq::<u8>::empty());
        assert(spec_dynamic_entries_bytes(s.push(e)) =~= spec_dynamic_entries_bytes(s)
            + spec_dynamic_entry_bytes(e));
    } else {
        lemma_dynamic_entries_bytes_push(s.skip(1), e);
        assert(s.push(e).skip(1) =~= s.skip(1).push(e));
        assert(s.push(e)[0] == s[0]);
        assert(spec_dynamic_entries_bytes(s.push(e)) == spec_dynamic_entry_bytes(s[0])
            + spec_dynamic_entries_bytes(s.skip(1).push(e)));
        assert(spec_dynamic_entries_bytes(s.skip(1).push(e)) == spec_dynamic_entries_bytes(
            s.skip(1),
        ) + spec_dynamic_entry_bytes(e));
        assert(spec_dynamic_entries_bytes(s.push(e)) =~= spec_dynamic_entries_bytes(s)
            + spec_dynamic_entry_bytes(e));
    }
}

pub proof fn lemma_fixed_entries_bytes_push(s: Seq<[u8; 32]>, d: [u8; 32])
    ensures
        spec_fixed_entries_bytes(s.push(d)) == spec_fixed_entries_bytes(s) + d@,
    decreases s.len(),
{
    assert(d@.len() == 32);
    if s.len() == 0 {
        assert(s.push(d)[0] == d);
        assert(s.push(d).skip(1) =~= Seq::<[u8; 32]>::empty());
        assert(spec_fixed_entries_bytes(s.push(d).skip(1)) =~= Seq::<u8>::empty());
        assert(spec_fixed_entries_bytes(s) =~= Seq::<u8>::empty());
        assert(spec_fixed_entries_bytes(s.push(d)) =~= spec_fixed_entries_bytes(s) + d@);
    } else {
        lemma_fixed_entries_bytes_push(s.skip(1), d);
        assert(s.push(d).skip(1) =~= s.skip(1).push(d));
        assert(s.push(d)[0] == s[0]);
        assert(spec_fixed_entries_bytes(s.push(d)) == s[0]@ + spec_fixed_entries_bytes(
            s.skip(1).push(d),
        ));
        assert(spec_fixed_entries_bytes(s.skip(1).push(d)) == spec_fixed_entries_bytes(s.skip(1))
            + d@);
        assert(spec_fixed_entries_bytes(s.push(d)) =~= spec_fixed_entries_bytes(s) + d@);
    }
}

pub proof fn lemma_dynamic_entries_bytes_len(s: Seq<DynamicEntry>)
    ensures
        spec_dynamic_entries_bytes(s).len() == 40 * s.len(),
    decreases s.len(),
{
    lemma_auto_spec_u64_to_from_le_bytes();
    if s.len() > 0 {
        lemma_dynamic_entries_bytes_len(s.skip(1));
    }
}

pub proof fn lemma_fixed_entries_bytes_len(s: Seq<[u8; 32]>)
    ensures
        spec_fixed_entries_bytes(s).len() == 32 * s.len(),
    decreases s.len(),
{
    if s.len() > 0 {
        lemma_fixed_entries_bytes_len(s.skip(1));
    }
}

/// Serialization of dynamic entries is injective: equal byte strings from
/// equally many entries mean equal entries.
pub proof fn lemma_dynamic_entries_bytes_injective(a: Seq<DynamicEntry>, b: Seq<DynamicEntry>)
    requires
        a.len() == b.len(),
        spec_dynamic_entries_bytes(a) == spec_dynamic_entries_bytes(b),
    ensures
        a == b,
    decreases a.len(),
{
    lemma_auto_spec_u64_to_from_le_bytes();
    if a.len() > 0 {
        let ab = spec_dynamic_entries_bytes(a);
        let bb = spec_dynamic_entries_bytes(b);
        lemma_dynamic_entries_bytes_len(a.skip(1));
        lemma_dynamic_entries_bytes_len(b.skip(1));
        assert(ab.take(40) =~= spec_dynamic_entry_bytes(a[0]));
        assert(bb.take(40) =~= spec_dynamic_entry_bytes(b[0]));
        assert(spec_dynamic_entry_bytes(a[0]).take(8) =~= spec_u64_to_le_bytes(a[0].end_offset));
        assert(spec_dynamic_entry_bytes(b[0]).take(8) =~= spec_u64_to_le_bytes(b[0].end_offset));
        assert(a[0].end_offset == b[0].end_offset) by {
            assert(spec_u64_from_le_bytes(spec_u64_to_le_bytes(a[0].end_offset))
                == spec_u64_from_le_bytes(spec_u64_to_le_bytes(b[0].end_offset)));
        }
        assert(spec_dynamic_entry_bytes(a[0]).skip(8) =~= a[0].digest@);
        assert(spec_dynamic_entry_bytes(b[0]).skip(8) =~= b[0].digest@);
        assert(a[0].digest@ == b[0].digest@);
        assert(a[0].digest =~= b[0].digest);
        assert(ab.skip(40) =~= spec_dynamic_entries_bytes(a.skip(1)));
        assert(bb.skip(40) =~= spec_dynamic_entries_bytes(b.skip(1)));
        lemma_dynamic_entries_bytes_injective(a.skip(1), b.skip(1));
        assert(a[0] == b[0]);
        assert forall|i: int| 0 <= i < a.len() implies a[i] == b[i] by {
            if i > 0 {
                assert(a[i] == a.skip(1)[i - 1]);
                assert(b[i] == b.skip(1)[i - 1]);
            }
        }
        assert(a =~= b);
    } else {
        assert(a =~= b);
    }
}

pub open spec fn spec_magic_dynamic_index() -> Seq<u8> {
    seq![80u8, 82u8, 79u8, 88u8, 68u8, 73u8, 68u8, 88u8]
}

pub open spec fn spec_magic_fixed_index() -> Seq<u8> {
    seq![80u8, 82u8, 79u8, 88u8, 70u8, 73u8, 68u8, 88u8]
}

pub fn magic_dynamic_index() -> (r: [u8; 8])
    ensures
        r@ == spec_magic_dynamic_index(),
{
    let r: [u8; 8] = [80, 82, 79, 88, 68, 73, 68, 88];
    assert(r@ =~= spec_magic_dynamic_index());
    r
}

pub fn magic_fixed_index() -> (r: [u8; 8])
    ensures
        r@ == spec_magic_fixed_index(),
{
    let r: [u8; 8] = [80, 82, 79, 88, 70, 73, 68, 88];
    assert(r@ =~= spec_magic_fixed_index());
    r
}

pub open spec fn spec_zero_bytes(n: nat) -> Seq<u8> {
    Seq::<u8>::new(n, |i: int| 0u8)
}

/// The serialized dynamic index: magic, uuid, ctime, checksum over the
/// entry bytes, archive size, reserved zeros, then the entries.
pub open spec fn spec_dynamic_index_bytes(
    uuid: Seq<u8>,
    ctime: u64,
    csum: Seq<u8>,
    entries: Seq<DynamicEntry>,
) -> Seq<u8> {
    spec_magic_dynamic_index() + uuid + spec_u64_to_le_bytes(ctime) + csum + spec_u64_to_le_bytes(
        spec_dynamic_size(entries),
    ) + spec_zero_bytes(72) + spec_dynamic_entries_bytes(entries)
}

/// The archive length named by a dynamic index: its last end offset.
pub open spec fn spec_dynamic_size(entries: Seq<DynamicEntry>) -> u64 {
    if entries.len() == 0 {
        0u64
    } else {
        entries.last().end_offset
    }
}

/// The serialized fixed index: magic, uuid, ctime, checksum over the digest
/// bytes, archive size, chunk size, reserved zeros, then the digests.
pub open spec fn spec_fixed_index_bytes(
    uuid: Seq<u8>,
    ctime: u64,
    csum: Seq<u8>,
    size: u64,
    chunk_size: u64,
    digests: Seq<[u8; 32]>,
) -> Seq<u8> {
    spec_magic_fixed_index() + uuid + spec_u64_to_le_bytes(ctime) + csum + spec_u64_to_le_bytes(
        size,
    ) + spec_u64_to_le_bytes(chunk_size) + spec_zero_bytes(64) + spec_fixed_entries_bytes(digests)
}

/// How many chunks a fixed archive of `size` has: size over chunk size,
/// rounded up.
pub open spec fn spec_fixed_chunk_count(size: u64, chunk_size: u64) -> u64
    recommends
        chunk_size > 0,
{
    (size / chunk_size + if size % chunk_size != 0 {
        1u64
    } else {
        0u64
    }) as u64
}

/// Copy 32 bytes out of a slice.
pub fn read_digest(s: &[u8], off: usize) -> (r: [u8; 32])
    requires
        off + 32 <= s@.len(),
    ensures
        r@ == s@.subrange(off as int, off + 32),
{
    let mut r = [0u8; 32];
    let n: usize = s.len();
    let mut i: usize = 0;
    while i < 32
        invariant
            i <= 32,
            off + 32 <= n,
            n == s@.len(),
            forall|j: int| 0 <= j < i ==> r@[j] == s@[off + j],
        decreases 32 - i,
    {
        r[i] = *slice_subrange(s, off + i, off + i + 1).first().unwrap();
        i = i + 1;
    }
    assert(r@ =~= s@.subrange(off as int, off + 32));
    r
}

/// Copy 16 bytes out of a slice.
pub fn read_uuid(s: &[u8], off: usize) -> (r: [u8; 16])
    requires
        off + 16 <= s@.len(),
    ensures
        r@ == s@.subrange(off as int, off + 16),
{
    let mut r = [0u8; 16];
    let n: usize = s.len();
    let mut i: usize = 0;
    while i < 16
        invariant
            i <= 16,
            off + 16 <= n,
            n == s@.len(),
            forall|j: int| 0 <= j < i ==> r@[j] == s@[off + j],
        decreases 16 - i,
    {
        r[i] = *slice_subrange(s, off + i, off + i + 1).first().unwrap();
        i = i + 1;
    }
    assert(r@ =~= s@.subrange(off as int, off + 16));
    r
}

/// Append the serialized form of one dynamic entry.
fn push_dynamic_entry_bytes(out: &mut Vec<u8>, end_offset: u64, digest: &[u8; 32])
    ensures
        final(out)@ == old(out)@ + spec_dynamic_entry_bytes(
            DynamicEntry { end_offset, digest: *digest },
        ),
{
    let mut end_bytes = u64_to_le_bytes(end_offset);
    out.append(&mut end_bytes);
    out.extend_from_slice(digest.as_slice());
    assert(final(out)@ =~= old(out)@ + spec_dynamic_entry_bytes(
        DynamicEntry { end_offset, digest: *digest },
    ));
}

/// Builds a dynamic index: entries are appended with strictly increasing
/// end offsets while the serialized entry bytes, which the checksum folds
/// over, accumulate alongside.
pub struct DynamicIndexWriter {
    entries: Vec<DynamicEntry>,
    csum_input: Vec<u8>,
}

impl DynamicIndexWriter {
    /// The entries appended so far.
    pub closed spec fn spec_entries(&self) -> Seq<DynamicEntry> {
        self.entries@
    }

    /// The accumulated entry bytes are exactly the serialization of the
    /// entries, and offsets grow strictly.
    pub closed spec fn wf(&self) -> bool {
        &&& self.csum_input@ == spec_dynamic_entries_bytes(self.entries@)
        &&& spec_offsets_increasing(self.entries@)
    }

    pub fn create() -> (r: DynamicIndexWriter)
        ensures
            r.wf(),
            r.spec_entries() == Seq::<DynamicEntry>::empty(),
    {
        let w = DynamicIndexWriter { entries: Vec::new(), csum_input: Vec::new() };
        assert(w.csum_input@ =~= spec_dynamic_entries_bytes(w.entries@));
        w
    }

    pub fn chunk_count(&self) -> (r: usize)
        ensures
            r == self.spec_entries().len(),
    {
        self.entries.len()
    }

    /// The archive length so far: the last end offset.
    pub fn size(&self) -> (r: u64)
        ensures
            r == spec_dynamic_size(self.spec_entries()),
    {
        if self.entries.len() == 0 {
            0
        } else {
            self.entries[self.entries.len() - 1].end_offset
        }
    }

    /// Append a chunk that ends at `end_offset`; refused unless the offset
    /// grows.
    pub fn add_chunk(&mut self, end_offset: u64, digest: &[u8; 32]) -> (r: Result<(), IndexError>)
        requires
            old(self).wf(),
        ensures
            final(self).wf(),
            r is Ok <==> (old(self).spec_entries().len() == 0 || end_offset > old(
                self,
            ).spec_entries().last().end_offset),
            r is Ok ==> final(self).spec_entries() == old(self).spec_entries().push(
                DynamicEntry { end_offset, digest: *digest },
            ),
            r is Err ==> final(self).spec_entries() == old(self).spec_entries(),
    {
        if self.entries.len() > 0 && end_offset <= self.entries[self.entries.len() - 1].end_offset {
            return Err(IndexError::Order);
        }
        let e = DynamicEntry { end_offset, digest: *digest };
        proof {
            lemma_dynamic_entries_bytes_push(self.entries@, e);
        }
        self.entries.push(e);
        push_dynamic_entry_bytes(&mut self.csum_input, end_offset, digest);
        proof {
            let s = self.entries@;
            assert forall|i: int, j: int| 0 <= i < j < s.len() implies s[i].end_offset
                < s[j].end_offset by {
                if j < s.len() - 1 {
                } else {
                    if i < s.len() - 2 {
                        assert(old(self).spec_entries()[i].end_offset < old(
                            self,
                        ).spec_entries().last().end_offset);
                    }
                }
            }
        }
        Ok(())
    }

    /// The final rolling checksum and the archive size.
    pub fn finish(&self) -> (r: ([u8; 32], u64))
        requires
            self.wf(),
        ensures
            r.0@ == sha256_of(spec_dynamic_entries_bytes(self.spec_entries())),
            r.1 == spec_dynamic_size(self.spec_entries()),
    {
        let csum = sha256(self.csum_input.as_slice());
        (csum, self.size())
    }

    /// The serialized index file for these entries.
    pub fn serialize(&self, uuid: &[u8; 16], ctime: u64) -> (r: Vec<u8>)
        requires
            self.wf(),
        ensures
            r@ == spec_dynamic_index_bytes(
                uuid@,
                ctime,
                sha256_of(spec_dynamic_entries_bytes(self.spec_entries())),
                self.spec_entries(),
            ),
    {
        let (csum, size) = self.finish();
        let mut out: Vec<u8> = Vec::new();
        out.extend_from_slice(magic_dynamic_index().as_slice());
        out.extend_from_slice(uuid.as_slice());
        let mut ctime_bytes = u64_to_le_bytes(ctime);
        out.append(&mut ctime_bytes);
        out.extend_from_slice(csum.as_slice());
        let mut size_bytes = u64_to_le_bytes(size);
        out.append(&mut size_bytes);
        let mut k: usize = 0;
        let ghost mid = out@;
        while k < 72
            invariant
                k <= 72,
                out@ == mid + spec_zero_bytes(k as nat),
            decreases 72 - k,
        {
            out.push(0);
            assert(out@ =~= mid + spec_zero_bytes((k + 1) as nat));
            k = k + 1;
        }
        out.extend_from_slice(self.csum_input.as_slice());
        assert(out@ =~= spec_dynamic_index_bytes(
            uuid@,
            ctime,
            sha256_of(spec_dynamic_entries_bytes(self.spec_entries())),
            self.spec_entries(),
        ));
        out
    }
}

/// The shape a dynamic index file must have before entries can be read:
/// long enough for the header, the right magic, and a whole number of
/// 40-byte entries.
pub open spec fn spec_dynamic_shape_ok(data: Seq<u8>) -> bool {
    &&& data.len() >= 144
    &&& data.take(8) == spec_magic_dynamic_index()
    &&& (data.len() - 144) % 40 == 0
}

/// A dynamic index read back from its serialized bytes.
pub struct DynamicIndexReader {
    entries: Vec<DynamicEntry>,
    uuid: [u8; 16],
    ctime: u64,
    csum: [u8; 32],
    size: u64,
}

impl DynamicIndexReader {
    pub closed spec fn spec_entries(&self) -> Seq<DynamicEntry> {
        self.entries@
    }

    pub closed spec fn spec_uuid(&self) -> Seq<u8> {
        self.uuid@
    }

    pub closed spec fn spec_ctime(&self) -> u64 {
        self.ctime
    }

    /// The checksum stored in the header, not recomputed.
    pub closed spec fn spec_stored_csum(&self) -> Seq<u8> {
        self.csum@
    }

    pub closed spec fn spec_stored_size(&self) -> u64 {
        self.size
    }

    /// Parse a serialized dynamic index.  The header checksum is read, not
    /// verified; `compute_csum` recomputes it from the entries.
    pub fn parse(data: &[u8]) -> (r: Result<DynamicIndexReader, IndexError>)
        ensures
            r matches Ok(ix) ==> {
                &&& ix.spec_uuid() == data@.subrange(8, 24)
                &&& ix.spec_ctime() == spec_u64_from_le_bytes(data@.subrange(24, 32))
                &&& ix.spec_stored_csum() == data@.subrange(32, 64)
                &&& ix.spec_stored_size() == spec_u64_from_le_bytes(data@.subrange(64, 72))
                &&& spec_dynamic_entries_bytes(ix.spec_entries()) == data@.skip(144)
                &&& 40 * ix.spec_entries().len() == data@.len() - 144
            },
            r is Ok <==> spec_dynamic_shape_ok(data@),
    {
        let n = data.len();
        if n < 144 {
            return Err(IndexError::Format);
        }
        if !crate::blob::bytes_eq(slice_subrange(data, 0, 8), magic_dynamic_index().as_slice()) {
            assert(data@.take(8) =~= data@.subrange(0, 8));
            return Err(IndexError::Format);
        }
        assert(data@.take(8) =~= data@.subrange(0, 8));
        if (n - 144) % 40 != 0 {
            return Err(IndexError::Format);
        }
        let uuid = read_uuid(data, 8);
        let ctime = u64_from_le_bytes(slice_subrange(data, 24, 32));
        let csum = read_digest(data, 32);
        let size = u64_from_le_bytes(slice_subrange(data, 64, 72));
        let count = (n - 144) / 40;
        let mut entries: Vec<DynamicEntry> = Vec::new();
        let mut i: usize = 0;
        proof {
            lemma_auto_spec_u64_to_from_le_bytes();
        }
        while i < count
            invariant
                i <= count,
                n == data@.len(),
                n >= 144,
                count == (n - 144) / 40,
                (n - 144) % 40 == 0,
                entries@.len() == i,
                spec_dynamic_entries_bytes(entries@) =~= data@.subrange(144, 144 + 40 * i),
            decreases count - i,
        {
            let off = 144 + 40 * i;
            let end_offset = u64_from_le_bytes(slice_subrange(data, off, off + 8));
            let digest = read_digest(data, off + 8);
            let e = DynamicEntry { end_offset, digest };
            proof {
                lemma_auto_spec_u64_to_from_le_bytes();
                lemma_dynamic_entries_bytes_push(entries@, e);
                assert(spec_u64_to_le_bytes(
                    spec_u64_from_le_bytes(data@.subrange(off as int, off + 8)),
                ) == data@.subrange(off as int, off + 8));
                assert(spec_u64_to_le_bytes(e.end_offset) =~= data@.subrange(
                    off as int,
                    off + 8,
                ));
                assert(spec_dynamic_entry_bytes(e) =~= data@.subrange(off as int, off + 40));
                assert(data@.subrange(144, 144 + 40 * (i + 1)) =~= data@.subrange(
                    144,
                    144 + 40 * i,
                ) + data@.subrange(off as int, off + 40));
            }
            entries.push(e);
            i = i + 1;
        }
        assert(data@.subrange(144, 144 + 40 * (count as int)) =~= data@.skip(144));
        Ok(DynamicIndexReader { entries, uuid, ctime, csum, size })
    }

    pub fn index_count(&self) -> (r: usize)
        ensures
            r == self.spec_entries().len(),
    {
        self.entries.len()
    }

    /// A second reader over the same parsed index.
    pub fn duplicate(&self) -> (r: DynamicIndexReader)
        ensures
            r.spec_entries() == self.spec_entries(),
            r.spec_uuid() == self.spec_uuid(),
            r.spec_ctime() == self.spec_ctime(),
            r.spec_stored_csum() == self.spec_stored_csum(),
            r.spec_stored_size() == self.spec_stored_size(),
    {
        let mut entries: Vec<DynamicEntry> = Vec::new();
        let mut i: usize = 0;
        while i < self.entries.len()
            invariant
                i <= self.entries@.len(),
                entries@ =~= self.entries@.take(i as int),
            decreases self.entries@.len() - i,
        {
            entries.push(self.entries[i]);
            assert(entries@ =~= self.entries@.take(i + 1));
            i = i + 1;
        }
        assert(entries@ =~= self.entries@);
        DynamicIndexReader {
            entries,
            uuid: self.uuid,
            ctime: self.ctime,
            csum: self.csum,
            size: self.size,
        }
    }

    pub fn index_digest(&self, pos: usize) -> (r: Option<[u8; 32]>)
        ensures
            r matches Some(d) ==> pos < self.spec_entries().len() && d == self.spec_entries()[pos as int].digest,
            r is None <==> pos >= self.spec_entries().len(),
    {
        if pos < self.entries.len() {
            Some(self.entries[pos].digest)
        } else {
            None
        }
    }

    pub fn chunk_end(&self, pos: usize) -> (r: Option<u64>)
        ensures
            r matches Some(e) ==> pos < self.spec_entries().len() && e == self.spec_entries()[pos as int].end_offset,
            r is None <==> pos >= self.spec_entries().len(),
    {
        if pos < self.entries.len() {
            Some(self.entries[pos].end_offset)
        } else {
            None
        }
    }

    /// Recompute the rolling checksum and the archive size by folding the
    /// entries exactly as the writer did.
    pub fn compute_csum(&self) -> (r: ([u8; 32], u64))
        ensures
            r.0@ == sha256_of(spec_dynamic_entries_bytes(self.spec_entries())),
            r.1 == spec_dynamic_size(self.spec_entries()),
    {
        let mut input: Vec<u8> = Vec::new();
        let mut i: usize = 0;
        while i < self.entries.len()
            invariant
                i <= self.entries@.len(),
                input@ == spec_dynamic_entries_bytes(self.entries@.take(i as int)),
            decreases self.entries@.len() - i,
        {
            let e = self.entries[i];
            proof {
                lemma_dynamic_entries_bytes_push(self.entries@.take(i as int), e);
                assert(self.entries@.take(i + 1) =~= self.entries@.take(i as int).push(e));
            }
            push_dynamic_entry_bytes(&mut input, e.end_offset, &e.digest);
            i = i + 1;
        }
        assert(self.entries@.take(self.entries@.len() as int) =~= self.entries@);
        let csum = sha256(input.as_slice());
        let size = if self.entries.len() == 0 {
            0
        } else {
            self.entries[self.entries.len() - 1].end_offset
        };
        (csum, size)
    }
}

/// Index checksum round-trip: a reader that parsed the bytes a writer
/// serialized holds the writer's entries, so the checksum it recomputes is
/// the checksum the writer finished with.
pub proof fn lemma_dynamic_index_csum_round_trip(
    uuid: Seq<u8>,
    ctime: u64,
    csum: Seq<u8>,
    written: Seq<DynamicEntry>,
    parsed: Seq<DynamicEntry>,
)
    requires
        uuid.len() == 16,
        csum.len() == 32,
        spec_dynamic_entries_bytes(parsed) == spec_dynamic_index_bytes(
            uuid,
            ctime,
            csum,
            written,
        ).skip(144),
        40 * parsed.len() == spec_dynamic_index_bytes(uuid, ctime, csum, written).len() - 144,
    ensures
        parsed == written,
        sha256_of(spec_dynamic_entries_bytes(parsed)) == sha256_of(
            spec_dynamic_entries_bytes(written),
        ),
{
    lemma_auto_spec_u64_to_from_le_bytes();
    let file = spec_dynamic_index_bytes(uuid, ctime, csum, written);
    assert(file.skip(144) =~= spec_dynamic_entries_bytes(written));
    lemma_dynamic_entries_bytes_len(written);
    lemma_dynamic_entries_bytes_len(parsed);
    lemma_dynamic_entries_bytes_injective(parsed, written);
}

/// Builds a fixed index: one digest per chunk of a fixed chunk size, the
/// last chunk possibly short.
pub struct FixedIndexWriter {
    size: u64,
    chunk_size: u64,
    digests: Vec<[u8; 32]>,
    csum_input: Vec<u8>,
}

impl FixedIndexWriter {
    pub closed spec fn spec_digests(&self) -> Seq<[u8; 32]> {
        self.digests@
    }

    pub closed spec fn spec_size(&self) -> u64 {
        self.size
    }

    pub closed spec fn spec_chunk_size(&self) -> u64 {
        self.chunk_size
    }

    pub closed spec fn wf(&self) -> bool {
        &&& self.chunk_size > 0
        &&& self.csum_input@ == spec_fixed_entries_bytes(self.digests@)
        &&& self.digests@.len() <= spec_fixed_chunk_count(self.size, self.chunk_size)
    }

    /// The writer is complete when every chunk of the archive has its
    /// digest.
    pub open spec fn spec_complete(&self) -> bool {
        self.spec_digests().len() == spec_fixed_chunk_count(self.spec_size(), self.spec_chunk_size())
    }

    pub fn create(size: u64, chunk_size: u64) -> (r: Result<FixedIndexWriter, IndexError>)
        ensures
            r matches Ok(w) ==> {
                &&& w.wf()
                &&& w.spec_size() == size
                &&& w.spec_chunk_size() == chunk_size
                &&& w.spec_digests() == Seq::<[u8; 32]>::empty()
            },
            r is Ok <==> chunk_size > 0,
    {
        if chunk_size == 0 {
            return Err(IndexError::Format);
        }
        let w = FixedIndexWriter { size, chunk_size, digests: Vec::new(), csum_input: Vec::new() };
        assert(w.csum_input@ =~= spec_fixed_entries_bytes(w.digests@));
        Ok(w)
    }

    pub fn chunk_count(&self) -> (r: usize)
        ensures
            r == self.spec_digests().len(),
    {
        self.digests.len()
    }

    /// Append the digest of the next chunk; refused once every chunk has
    /// one.
    pub fn add_digest(&mut self, digest: &[u8; 32]) -> (r: Result<(), IndexError>)
        requires
            old(self).wf(),
        ensures
            final(self).wf(),
            final(self).spec_size() == old(self).spec_size(),
            final(self).spec_chunk_size() == old(self).spec_chunk_size(),
            r is Ok <==> old(self).spec_digests().len() < spec_fixed_chunk_count(
                old(self).spec_size(),
                old(self).spec_chunk_size(),
            ),
            r is Ok ==> final(self).spec_digests() == old(self).spec_digests().push(*digest),
            r is Err ==> final(self).spec_digests() == old(self).spec_digests(),
    {
        let q = self.size / self.chunk_size;
        let rm = self.size % self.chunk_size;
        proof {
            assert(q * self.chunk_size + rm == self.size) by (nonlinear_arith)
                requires
                    self.chunk_size > 0,
                    q == self.size / self.chunk_size,
                    rm == self.size % self.chunk_size,
            ;
            assert(q <= q * self.chunk_size) by (nonlinear_arith)
                requires
                    self.chunk_size >= 1,
                    q >= 0,
            ;
        }
        let expected = if rm != 0 {
            q + 1
        } else {
            q
        };
        if self.digests.len() as u64 >= expected {
            return Err(IndexError::Full);
        }
        proof {
            lemma_fixed_entries_bytes_push(self.digests@, *digest);
        }
        self.digests.push(*digest);
        self.csum_input.extend_from_slice(digest.as_slice());
        assert(self.csum_input@ =~= spec_fixed_entries_bytes(self.digests@));
        Ok(())
    }

    /// The final rolling checksum and the archive size.  Only digests are
    /// folded, so the checksum fingerprints the chunk contents, not their
    /// order of use.
    pub fn finish(&self) -> (r: ([u8; 32], u64))
        requires
            self.wf(),
        ensures
            r.0@ == sha256_of(spec_fixed_entries_bytes(self.spec_digests())),
            r.1 == self.spec_size(),
    {
        let csum = sha256(self.csum_input.as_slice());
        (csum, self.size)
    }

    /// The serialized index file.
    pub fn serialize(&self, uuid: &[u8; 16], ctime: u64) -> (r: Vec<u8>)
        requires
            self.wf(),
        ensures
            r@ == spec_fixed_index_bytes(
                uuid@,
                ctime,
                sha256_of(spec_fixed_entries_bytes(self.spec_digests())),
                self.spec_size(),
                self.spec_chunk_size(),
                self.spec_digests(),
            ),
    {
        let (csum, _) = self.finish();
        let mut out: Vec<u8> = Vec::new();
        out.extend_from_slice(magic_fixed_index().as_slice());
        out.extend_from_slice(uuid.as_slice());
        let mut ctime_bytes = u64_to_le_bytes(ctime);
        out.append(&mut ctime_bytes);
        out.extend_from_slice(csum.as_slice());
        let mut size_bytes = u64_to_le_bytes(self.size);
        out.append(&mut size_bytes);
        let mut chunk_size_bytes = u64_to_le_bytes(self.chunk_size);
        out.append(&mut chunk_size_bytes);
        let mut k: usize = 0;
        let ghost mid = out@;
        while k < 64
            invariant
                k <= 64,
                out@ == mid + spec_zero_bytes(k as nat),
            decreases 64 - k,
        {
            out.push(0);
            assert(out@ =~= mid + spec_zero_bytes((k + 1) as nat));
            k = k + 1;
        }
        out.extend_from_slice(self.csum_input.as_slice());
        assert(out@ =~= spec_fixed_index_bytes(
            uuid@,
            ctime,
            sha256_of(spec_fixed_entries_bytes(self.spec_digests())),
            self.spec_size(),
            self.spec_chunk_size(),
            self.spec_digests(),
        ));
        out
    }
}

/// The shape a fixed index file must have: header, magic, and a whole
/// number of 32-byte digests.
pub open spec fn spec_fixed_shape_ok(data: Seq<u8>) -> bool {
    &&& data.len() >= 144
    &&& data.take(8) == spec_magic_fixed_index()
    &&& (data.len() - 144) % 32 == 0
}

/// A fixed index read back from its serialized bytes.
pub struct FixedIndexReader {
    digests: Vec<[u8; 32]>,
    uuid: [u8; 16],
    ctime: u64,
    csum: [u8; 32],
    size: u64,
    chunk_size: u64,
}

impl FixedIndexReader {
    pub closed spec fn spec_digests(&self) -> Seq<[u8; 32]> {
        self.digests@
    }

    pub closed spec fn spec_uuid(&self) -> Seq<u8> {
        self.uuid@
    }

    pub closed spec fn spec_ctime(&self) -> u64 {
        self.ctime
    }

    pub closed spec fn spec_stored_csum(&self) -> Seq<u8> {
        self.csum@
    }

    pub closed spec fn spec_stored_size(&self) -> u64 {
        self.size
    }

    pub closed spec fn spec_chunk_size(&self) -> u64 {
        self.chunk_size
    }

    /// Parse a serialized fixed index; the header checksum is read, not
    /// verified.
    pub fn parse(data: &[u8]) -> (r: Result<FixedIndexReader, IndexError>)
        ensures
            r matches Ok(ix) ==> {
                &&& ix.spec_uuid() == data@.subrange(8, 24)
                &&& ix.spec_ctime() == spec_u64_from_le_bytes(data@.subrange(24, 32))
                &&& ix.spec_stored_csum() == data@.subrange(32, 64)
                &&& ix.spec_stored_size() == spec_u64_from_le_bytes(data@.subrange(64, 72))
                &&& ix.spec_chunk_size() == spec_u64_from_le_bytes(data@.subrange(72, 80))
                &&& spec_fixed_entries_bytes(ix.spec_digests()) == data@.skip(144)
                &&& 32 * ix.spec_digests().len() == data@.len() - 144
            },
            r is Ok <==> spec_fixed_shape_ok(data@),
    {
        let n = data.len();
        if n < 144 {
            return Err(IndexError::Format);
        }
        if !crate::blob::bytes_eq(slice_subrange(data, 0, 8), magic_fixed_index().as_slice()) {
            assert(data@.take(8) =~= data@.subrange(0, 8));
            return Err(IndexError::Format);
        }
        assert(data@.take(8) =~= data@.subrange(0, 8));
        if (n - 144) % 32 != 0 {
            return Err(IndexError::Format);
        }
        let uuid = read_uuid(data, 8);
        let ctime = u64_from_le_bytes(slice_subrange(data, 24, 32));
        let csum = read_digest(data, 32);
        let size = u64_from_le_bytes(slice_subrange(data, 64, 72));
        let chunk_size = u64_from_le_bytes(slice_subrange(data, 72, 80));
        let count = (n - 144) / 32;
        let mut digests: Vec<[u8; 32]> = Vec::new();
        let mut i: usize = 0;
        while i < count
            invariant
                i <= count,
                n == data@.len(),
                n >= 144,
                count == (n - 144) / 32,
                (n - 144) % 32 == 0,
                digests@.len() == i,
                spec_fixed_entries_bytes(digests@) =~= data@.subrange(144, 144 + 32 * i),
            decreases count - i,
        {
            let off = 144 + 32 * i;
            let digest = read_digest(data, off);
            proof {
                lemma_fixed_entries_bytes_push(digests@, digest);
                assert(data@.subrange(144, 144 + 32 * (i + 1)) =~= data@.subrange(
                    144,
                    144 + 32 * i,
                ) + data@.subrange(off as int, off + 32));
            }
            digests.push(digest);
            i = i + 1;
        }
        assert(data@.subrange(144, 144 + 32 * (count as int)) =~= data@.skip(144));
        Ok(FixedIndexReader { digests, uuid, ctime, csum, size, chunk_size })
    }

    pub fn index_count(&self) -> (r: usize)
        ensures
            r == self.spec_digests().len(),
    {
        self.digests.len()
    }

    /// A second reader over the same parsed index.
    pub fn duplicate(&self) -> (r: FixedIndexReader)
        ensures
            r.spec_digests() == self.spec_digests(),
            r.spec_uuid() == self.spec_uuid(),
            r.spec_ctime() == self.spec_ctime(),
            r.spec_stored_csum() == self.spec_stored_csum(),
            r.spec_stored_size() == self.spec_stored_size(),
            r.spec_chunk_size() == self.spec_chunk_size(),
    {
        let mut digests: Vec<[u8; 32]> = Vec::new();
        let mut i: usize = 0;
        while i < self.digests.len()
            invariant
                i <= self.digests@.len(),
                digests@ =~= self.digests@.take(i as int),
            decreases self.digests@.len() - i,
        {
            digests.push(self.digests[i]);
            assert(digests@ =~= self.digests@.take(i + 1));
            i = i + 1;
        }
        assert(digests@ =~= self.digests@);
        FixedIndexReader {
            digests,
            uuid: self.uuid,
            ctime: self.ctime,
            csum: self.csum,
            size: self.size,
            chunk_size: self.chunk_size,
        }
    }

    pub fn index_digest(&self, pos: usize) -> (r: Option<[u8; 32]>)
        ensures
            r matches Some(d) ==> pos < self.spec_digests().len() && d == self.spec_digests()[pos as int],
            r is None <==> pos >= self.spec_digests().len(),
    {
        if pos < self.digests.len() {
            Some(self.digests[pos])
        } else {
            None
        }
    }

    /// Recompute the rolling checksum; the size is the header's, since
    /// fixed entries carry no offsets.
    pub fn compute_csum(&self) -> (r: ([u8; 32], u64))
        ensures
            r.0@ == sha256_of(spec_fixed_entries_bytes(self.spec_digests())),
            r.1 == self.spec_stored_size(),
    {
        let mut input: Vec<u8> = Vec::new();
        let mut i: usize = 0;
        while i < self.digests.len()
            invariant
                i <= self.digests@.len(),
                input@ == spec_fixed_entries_bytes(self.digests@.take(i as int)),
            decreases self.digests@.len() - i,
        {
            let d = self.digests[i];
            proof {
                lemma_fixed_entries_bytes_push(self.digests@.take(i as int), d);
                assert(self.digests@.take(i + 1) =~= self.digests@.take(i as int).push(d));
            }
            input.extend_from_slice(d.as_slice());
            i = i + 1;
        }
        assert(self.digests@.take(self.digests@.len() as int) =~= self.digests@);
        let csum = sha256(input.as_slice());
        (csum, self.size)
    }
}

/// The per-archive verify-and-skip decision of a sync: a local dynamic
/// archive is current exactly when the manifest lists it under this name
/// with the index's recomputed checksum and size, and such an archive
/// need not be pulled again.
pub fn dynamic_archive_up_to_date(
    manifest: &crate::manifest::BackupManifest,
    name: &str,
    index: &DynamicIndexReader,
) -> (r: bool)
    ensures
        r == (crate::manifest::spec_find_file(manifest.spec_files(), name@) matches Some(i)
            && manifest.spec_files()[i].size == spec_dynamic_size(index.spec_entries())
            && manifest.spec_files()[i].csum@ == sha256_of(
            spec_dynamic_entries_bytes(index.spec_entries()),
        )),
{
    let (csum, size) = index.compute_csum();
    manifest.verify_file(name, &csum, size).is_ok()
}

/// The same decision for a fixed archive: current exactly when the
/// manifest lists this name with the recomputed checksum and the header's
/// stored size.
pub fn fixed_archive_up_to_date(
    manifest: &crate::manifest::BackupManifest,
    name: &str,
    index: &FixedIndexReader,
) -> (r: bool)
    ensures
        r == (crate::manifest::spec_find_file(manifest.spec_files(), name@) matches Some(i)
            && manifest.spec_files()[i].size == index.spec_stored_size()
            && manifest.spec_files()[i].csum@ == sha256_of(
            spec_fixed_entries_bytes(index.spec_digests()),
        )),
{
    let (csum, size) = index.compute_csum();
    manifest.verify_file(name, &csum, size).is_ok()
}

} // verus!
