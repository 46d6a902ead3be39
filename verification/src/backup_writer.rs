//! The client-side upload pipeline.
//!
//! Chunks stream through digest computation, the rolling index checksum,
//! and the known-chunks filter: a digest the server already holds is only
//! registered at its offset, everything else is framed into a chunk blob
//! and uploaded.  A merge stage then coalesces consecutive runs of known
//! chunks into single batched registrations.  The network and the byte
//! stream live outside; this module takes each chunk's plaintext and
//! decides, and its decisions are what the wire traffic must amount to.

use vstd::prelude::*;
use vstd::bytes::u64_to_le_bytes;
use crate::blob::{DataBlob, BlobError, spec_blob_decodes_to, spec_key_of};
use crate::crypt::{CryptConfig, digest_of, sha256, sha256_of, compute_chunk_digest};
use crate::index::{
    DynamicEntry, spec_dynamic_entries_bytes, spec_fixed_entries_bytes,
    lemma_dynamic_entries_bytes_push, lemma_fixed_entries_bytes_push,
};

verus! {

/// Some digest in the list equals `d`.
pub open spec fn spec_digests_has(s: Seq<[u8; 32]>, d: Seq<u8>) -> bool {
    exists|i: int| 0 <= i < s.len() && s[i]@ == d
}

/// The set of chunk digests the server is known to hold for this archive.
pub struct KnownChunks {
    digests: Vec<[u8; 32]>,
}

impl KnownChunks {
    pub closed spec fn spec_digests(&self) -> Seq<[u8; 32]> {
        self.digests@
    }

    /// Whether a digest is known.
    pub open spec fn spec_contains(&self, d: Seq<u8>) -> bool {
        spec_digests_has(self.spec_digests(), d)
    }

    pub fn new() -> (r: KnownChunks)
        ensures
            r.spec_digests() == Seq::<[u8; 32]>::empty(),
    {
        KnownChunks { digests: Vec::new() }
    }

    pub fn len(&self) -> (r: usize)
        ensures
            r == self.spec_digests().len(),
    {
        self.digests.len()
    }

    pub fn contains(&self, digest: &[u8; 32]) -> (r: bool)
        ensures
            r == self.spec_contains(digest@),
    {
        let mut i: usize = 0;
        while i < self.digests.len()
            invariant
                i <= self.digests@.len(),
                forall|j: int| 0 <= j < i ==> self.digests@[j]@ != digest@,
            decreases self.digests@.len() - i,
        {
            if crate::blob::bytes_eq(self.digests[i].as_slice(), digest.as_slice()) {
                assert(spec_digests_has(self.digests@, digest@));
                return true;
            }
            i = i + 1;
        }
        false
    }

    /// Record a digest as known; membership of every other digest is
    /// unchanged.
    pub fn insert(&mut self, digest: &[u8; 32])
        ensures
            forall|d: Seq<u8>|
                final(self).spec_contains(d) == (old(self).spec_contains(d) || d == digest@),
    {
        self.digests.push(*digest);
        proof {
            let news = self.digests@;
            let olds = old(self).spec_digests();
            assert forall|d: Seq<u8>|
                spec_digests_has(news, d) == (spec_digests_has(olds, d) || d == digest@) by {
                if spec_digests_has(news, d) {
                    let i = choose|i: int| 0 <= i < news.len() && news[i]@ == d;
                    if i < news.len() - 1 {
                        assert(olds[i]@ == d);
                        assert(spec_digests_has(olds, d));
                    }
                }
                if spec_digests_has(olds, d) {
                    let i = choose|i: int| 0 <= i < olds.len() && olds[i]@ == d;
                    assert(news[i]@ == d);
                    assert(spec_digests_has(news, d));
                }
                if d == digest@ {
                    assert(news[news.len() - 1]@ == d);
                    assert(spec_digests_has(news, d));
                }
            }
        }
    }
}

/// A chunk that must be uploaded: its frame, digest, plaintext length and
/// stream offset.
pub struct ChunkInfo {
    pub chunk: DataBlob,
    pub digest: [u8; 32],
    pub chunk_len: u64,
    pub offset: u64,
}

/// One item of the upload stream: a run of already-known chunks to
/// register, or a new chunk to upload.
pub enum MergedChunkInfo {
    Known(Vec<(u64, [u8; 32])>),
    New(ChunkInfo),
}

/// The totals reported when an archive upload closes.
pub struct BackupStats {
    pub size: u64,
    pub csum: [u8; 32],
}

/// How many items of the stream are uploads.
pub open spec fn spec_count_new(s: Seq<MergedChunkInfo>) -> int
    decreases s.len(),
{
    if s.len() == 0 {
        0
    } else {
        spec_count_new(s.drop_last()) + match s.last() {
            MergedChunkInfo::New(_) => 1int,
            MergedChunkInfo::Known(_) => 0int,
        }
    }
}

/// The uploads of the stream, in order.
pub open spec fn spec_new_items(s: Seq<MergedChunkInfo>) -> Seq<ChunkInfo>
    decreases s.len(),
{
    if s.len() == 0 {
        Seq::<ChunkInfo>::empty()
    } else {
        spec_new_items(s.drop_last()) + match s.last() {
            MergedChunkInfo::New(info) => seq![info],
            MergedChunkInfo::Known(_) => Seq::<ChunkInfo>::empty(),
        }
    }
}

pub proof fn lemma_new_items_push(s: Seq<MergedChunkInfo>, x: MergedChunkInfo)
    ensures
        spec_new_items(s.push(x)) == spec_new_items(s) + match x {
            MergedChunkInfo::New(info) => seq![info],
            MergedChunkInfo::Known(_) => Seq::<ChunkInfo>::empty(),
        },
{
    assert(s.push(x).drop_last() =~= s);
    assert(s.push(x).last() == x);
}

/// The registration pairs of the stream, in order, runs flattened.
pub open spec fn spec_known_pairs(s: Seq<MergedChunkInfo>) -> Seq<(u64, [u8; 32])>
    decreases s.len(),
{
    if s.len() == 0 {
        Seq::<(u64, [u8; 32])>::empty()
    } else {
        spec_known_pairs(s.drop_last()) + match s.last() {
            MergedChunkInfo::New(_) => Seq::<(u64, [u8; 32])>::empty(),
            MergedChunkInfo::Known(pairs) => pairs@,
        }
    }
}

/// The state of one archive upload: the known set, the rolling checksum
/// input, and the stream totals.
pub struct ChunkUploadState {
    known: KnownChunks,
    csum_input: Vec<u8>,
    fixed: bool,
    stream_len: u64,
    chunk_count: u64,
    dynamic_entries: Ghost<Seq<DynamicEntry>>,
    fixed_digests: Ghost<Seq<[u8; 32]>>,
}

impl ChunkUploadState {
    pub closed spec fn spec_known(&self) -> KnownChunks {
        self.known
    }

    pub closed spec fn spec_fixed(&self) -> bool {
        self.fixed
    }

    pub closed spec fn spec_stream_len(&self) -> u64 {
        self.stream_len
    }

    pub closed spec fn spec_chunk_count(&self) -> u64 {
        self.chunk_count
    }

    /// The dynamic-index entries the checksum has folded.
    pub closed spec fn spec_dynamic_entries(&self) -> Seq<DynamicEntry> {
        self.dynamic_entries@
    }

    /// The fixed-index digests the checksum has folded.
    pub closed spec fn spec_fixed_digests(&self) -> Seq<[u8; 32]> {
        self.fixed_digests@
    }

    /// The checksum input is exactly the serialized entries of the index
    /// the server builds alongside.
    pub closed spec fn wf(&self) -> bool {
        &&& if self.fixed {
            self.csum_input@ == spec_fixed_entries_bytes(self.fixed_digests@)
        } else {
            self.csum_input@ == spec_dynamic_entries_bytes(self.dynamic_entries@)
        }
        &&& self.chunk_count == if self.fixed {
            self.fixed_digests@.len()
        } else {
            self.dynamic_entries@.len()
        }
    }

    /// A fresh upload over a known-chunks set, as downloaded from the
    /// prior snapshot's index.
    pub fn new(known: KnownChunks, fixed: bool) -> (r: ChunkUploadState)
        ensures
            r.wf(),
            r.spec_known() == known,
            r.spec_fixed() == fixed,
            r.spec_stream_len() == 0,
            r.spec_chunk_count() == 0,
            r.spec_dynamic_entries() == Seq::<DynamicEntry>::empty(),
            r.spec_fixed_digests() == Seq::<[u8; 32]>::empty(),
    {
        let r = ChunkUploadState {
            known,
            csum_input: Vec::new(),
            fixed,
            stream_len: 0,
            chunk_count: 0,
            dynamic_entries: Ghost(Seq::empty()),
            fixed_digests: Ghost(Seq::empty()),
        };
        proof {
            assert(r.csum_input@ =~= spec_fixed_entries_bytes(r.fixed_digests@));
            assert(r.csum_input@ =~= spec_dynamic_entries_bytes(r.dynamic_entries@));
        }
        r
    }

    /// Process one chunk of the stream: digest it, fold it into the
    /// checksum, and decide between registration and upload.  A chunk is
    /// uploaded exactly when its digest was not yet known; afterwards it
    /// is known either way.
    pub fn process_chunk(
        &mut self,
        data: &[u8],
        config: Option<&CryptConfig>,
        compress: bool,
    ) -> (r: Result<MergedChunkInfo, BlobError>)
        requires
            old(self).wf(),
            old(self).spec_stream_len() + data@.len() <= u64::MAX,
            old(self).spec_chunk_count() < u64::MAX,
            data@.len() <= crate::blob::MAX_BLOB_PLAIN,
            config matches Some(c) ==> c.wf(),
        ensures
            final(self).wf(),
            final(self).spec_fixed() == old(self).spec_fixed(),
            r matches Ok(item) ==> {
                let dg = digest_of(spec_key_of(config), data@);
                let end = (old(self).spec_stream_len() + data@.len()) as u64;
                &&& final(self).spec_stream_len() == end
                &&& final(self).spec_chunk_count() == old(self).spec_chunk_count() + 1
                &&& (forall|d: Seq<u8>|
                    final(self).spec_known().spec_contains(d) == (old(
                        self,
                    ).spec_known().spec_contains(d) || d == dg))
                &&& (item is Known <==> old(self).spec_known().spec_contains(dg))
                &&& (item matches MergedChunkInfo::Known(pairs) ==> pairs@.len() == 1
                    && pairs@[0].0 == old(self).spec_stream_len() && pairs@[0].1@ == dg)
                &&& (item matches MergedChunkInfo::New(info) ==> info.digest@ == dg
                    && info.offset == old(self).spec_stream_len() && info.chunk_len == data@.len()
                    && spec_blob_decodes_to(info.chunk.spec_raw(), spec_key_of(config)) == Some(
                    data@,
                ))
                &&& (!old(self).spec_fixed() ==> final(self).spec_dynamic_entries() == old(
                    self,
                ).spec_dynamic_entries().push(
                    DynamicEntry { end_offset: end, digest: spec_digest_arr(item) },
                ) && spec_digest_arr(item)@ == dg)
                &&& (old(self).spec_fixed() ==> final(self).spec_fixed_digests() == old(
                    self,
                ).spec_fixed_digests().push(spec_digest_arr(item)) && spec_digest_arr(item)@ == dg)
            },
            config is None ==> r is Ok,
            r is Err ==> final(self).spec_known() == old(self).spec_known(),
            r is Err ==> final(self).spec_stream_len() == old(self).spec_stream_len(),
            r is Err ==> final(self).spec_chunk_count() == old(self).spec_chunk_count(),
            r is Err ==> final(self).spec_dynamic_entries() == old(self).spec_dynamic_entries(),
            r is Err ==> final(self).spec_fixed_digests() == old(self).spec_fixed_digests(),
    {
        let digest = compute_chunk_digest(config, data);
        let offset = self.stream_len;
        let chunk_len = data.len() as u64;
        let end = offset + chunk_len;
        let is_known = self.known.contains(&digest);
        let item: MergedChunkInfo = if is_known {
            let mut pairs: Vec<(u64, [u8; 32])> = Vec::new();
            pairs.push((offset, digest));
            MergedChunkInfo::Known(pairs)
        } else {
            let blob = match DataBlob::encode(data, config, compress) {
                Ok(b) => b,
                Err(e) => {
                    return Err(e);
                },
            };
            MergedChunkInfo::New(ChunkInfo { chunk: blob, digest, chunk_len, offset })
        };
        // fold the entry into the rolling checksum
        if self.fixed {
            proof {
                lemma_fixed_entries_bytes_push(self.fixed_digests@, digest);
            }
            self.csum_input.extend_from_slice(digest.as_slice());
            proof {
                self.fixed_digests@ = self.fixed_digests@.push(digest);
            }
            assert(self.csum_input@ =~= spec_fixed_entries_bytes(self.fixed_digests@));
        } else {
            let e = DynamicEntry { end_offset: end, digest };
            proof {
                lemma_dynamic_entries_bytes_push(self.dynamic_entries@, e);
            }
            let mut end_bytes = u64_to_le_bytes(end);
            self.csum_input.append(&mut end_bytes);
            self.csum_input.extend_from_slice(digest.as_slice());
            proof {
                self.dynamic_entries@ = self.dynamic_entries@.push(e);
            }
            assert(self.csum_input@ =~= spec_dynamic_entries_bytes(self.dynamic_entries@));
        }
        self.known.insert(&digest);
        self.stream_len = end;
        self.chunk_count = self.chunk_count + 1;
        Ok(item)
    }

    /// Close the stream: the totals and the rolling checksum, computed
    /// exactly as the server-side index writer computes its own.
    pub fn finish(&self) -> (r: BackupStats)
        requires
            self.wf(),
        ensures
            r.size == self.spec_stream_len(),
            !self.spec_fixed() ==> r.csum@ == sha256_of(
                spec_dynamic_entries_bytes(self.spec_dynamic_entries()),
            ),
            self.spec_fixed() ==> r.csum@ == sha256_of(
                spec_fixed_entries_bytes(self.spec_fixed_digests()),
            ),
    {
        let csum = sha256(self.csum_input.as_slice());
        BackupStats { size: self.stream_len, csum }
    }

    pub fn chunk_count(&self) -> (r: u64)
        ensures
            r == self.spec_chunk_count(),
    {
        self.chunk_count
    }
}

/// Frame a whole blob for upload: the bytes to send and the totals the
/// close call reports; the checksum covers the frame as sent.
pub fn prepare_blob_upload(
    data: &[u8],
    config: Option<&CryptConfig>,
    compress: bool,
) -> (r: Result<(Vec<u8>, BackupStats), BlobError>)
    requires
        data@.len() <= crate::blob::MAX_BLOB_PLAIN,
        config matches Some(c) ==> c.wf(),
    ensures
        r matches Ok(p) ==> {
            &&& spec_blob_decodes_to(p.0@, spec_key_of(config)) == Some(data@)
            &&& p.1.csum@ == sha256_of(p.0@)
            &&& p.1.size == p.0@.len()
        },
        config is None ==> r is Ok,
{
    let blob = match DataBlob::encode(data, config, compress) {
        Ok(b) => b,
        Err(e) => {
            return Err(e);
        },
    };
    let raw = blob.into_inner();
    let csum = sha256(raw.as_slice());
    let size = raw.len() as u64;
    Ok((raw, BackupStats { size, csum }))
}

/// The digest an upload item carries.
pub open spec fn spec_digest_arr(item: MergedChunkInfo) -> [u8; 32] {
    match item {
        MergedChunkInfo::Known(pairs) => pairs@[0].1,
        MergedChunkInfo::New(info) => info.digest,
    }
}

/// Known-chunk deduplication: a stream whose every chunk digest is already
/// in the known set uploads nothing; each chunk only extends the known set
/// with its own digest, so later chunks cannot become uploads either.
pub proof fn lemma_known_dedup(items: Seq<MergedChunkInfo>)
    requires
        forall|i: int| 0 <= i < items.len() ==> items[i] is Known,
    ensures
        spec_count_new(items) == 0,
    decreases items.len(),
{
    if items.len() > 0 {
        lemma_known_dedup(items.drop_last());
    }
}

/// Coalesce consecutive runs of known chunks into single registrations;
/// uploads and the order and content of all registration pairs are kept,
/// and no two adjacent output items are both registrations.
pub fn merge_known_chunks(items: Vec<MergedChunkInfo>) -> (r: Vec<MergedChunkInfo>)
    ensures
        spec_count_new(r@) == spec_count_new(items@),
        spec_known_pairs(r@) == spec_known_pairs(items@),
        spec_new_items(r@) == spec_new_items(items@),
        forall|i: int|
            0 <= i < r@.len() - 1 ==> !((#[trigger] r@[i]) is Known && r@[i + 1] is Known),
{
    let mut out: Vec<MergedChunkInfo> = Vec::new();
    let mut pending: Vec<(u64, [u8; 32])> = Vec::new();
    let mut items = items;
    let ghost orig = items@;
    let mut i: usize = 0;
    let n = items.len();
    proof {
        assert(spec_count_new(orig.take(0)) == 0);
        assert(spec_known_pairs(orig.take(0)) =~= Seq::<(u64, [u8; 32])>::empty());
        assert(spec_count_new(out@) == 0);
        assert(spec_known_pairs(out@) =~= Seq::<(u64, [u8; 32])>::empty());
    }
    while items.len() > 0
        invariant
            i + items@.len() == n,
            n == orig.len(),
            items@ =~= orig.skip(i as int),
            spec_count_new(out@) == spec_count_new(orig.take(i as int)),
            spec_known_pairs(out@) + pending@ =~= spec_known_pairs(orig.take(i as int)),
            spec_new_items(out@) == spec_new_items(orig.take(i as int)),
            out@.len() > 0 ==> out@.last() is New,
            forall|m: int|
                0 <= m < out@.len() - 1 ==> !((#[trigger] out@[m]) is Known && out@[m + 1]
                    is Known),
        decreases items@.len(),
    {
        let item = items.remove(0);
        proof {
            assert(orig.skip(i as int)[0] == orig[i as int]);
            assert(orig.take(i + 1).drop_last() =~= orig.take(i as int));
            assert(orig.take(i + 1).last() == orig[i as int]);
            assert(items@ =~= orig.skip(i + 1));
            lemma_new_items_push(orig.take(i as int), orig[i as int]);
            assert(orig.take(i + 1) =~= orig.take(i as int).push(orig[i as int]));
        }
        match item {
            MergedChunkInfo::Known(mut pairs) => {
                pending.append(&mut pairs);
                proof {
                    assert(spec_known_pairs(out@) + pending@ =~= spec_known_pairs(
                        orig.take(i + 1),
                    ));
                    assert(spec_new_items(orig.take(i + 1)) == spec_new_items(
                        orig.take(i as int),
                    ));
                }
            },
            MergedChunkInfo::New(info) => {
                if pending.len() > 0 {
                    let flushed = pending;
                    pending = Vec::new();
                    let ghost before = out@;
                    let ghost flushed_view = flushed@;
                    out.push(MergedChunkInfo::Known(flushed));
                    proof {
                        assert(out@.drop_last() =~= before);
                        assert(spec_count_new(out@) == spec_count_new(before));
                        lemma_new_items_push(before, MergedChunkInfo::Known(flushed));
                        assert(spec_new_items(out@) =~= spec_new_items(before));
                        assert forall|m: int|
                            0 <= m < out@.len() - 1 implies !((#[trigger] out@[m]) is Known
                            && out@[m + 1] is Known) by {
                            if m < before.len() - 1 {
                                assert(out@[m] == before[m]);
                                assert(out@[m + 1] == before[m + 1]);
                            } else if m == before.len() - 1 && m >= 0 {
                                assert(out@[m] == before.last());
                            }
                        }
                    }
                }
                let ghost before2 = out@;
                out.push(MergedChunkInfo::New(info));
                proof {
                    assert(out@.drop_last() =~= before2);
                    assert(spec_known_pairs(out@) =~= spec_known_pairs(before2));
                    assert(pending@ =~= Seq::<(u64, [u8; 32])>::empty());
                    assert(spec_known_pairs(out@) + pending@ =~= spec_known_pairs(
                        orig.take(i + 1),
                    ));
                    lemma_new_items_push(before2, MergedChunkInfo::New(info));
                    lemma_new_items_push(orig.take(i as int), orig[i as int]);
                    assert(orig.take(i + 1) =~= orig.take(i as int).push(orig[i as int]));
                    assert(spec_new_items(out@) =~= spec_new_items(orig.take(i + 1)));
                    assert forall|m: int|
                        0 <= m < out@.len() - 1 implies !((#[trigger] out@[m]) is Known && out@[m
                        + 1] is Known) by {
                        if m < before2.len() - 1 {
                            assert(out@[m] == before2[m]);
                            assert(out@[m + 1] == before2[m + 1]);
                        } else if m == before2.len() - 1 && m >= 0 {
                            assert(out@[m + 1] == out@.last());
                        }
                    }
                }
            },
        }
        i = i + 1;
    }
    if pending.len() > 0 {
        let ghost before = out@;
        out.push(MergedChunkInfo::Known(pending));
        proof {
            assert(out@.drop_last() =~= before);
            assert(spec_count_new(out@) == spec_count_new(before));
            lemma_new_items_push(before, out@.last());
            assert(spec_new_items(out@) =~= spec_new_items(before));
            assert(orig.take(n as int) =~= orig);
            assert forall|m: int|
                0 <= m < out@.len() - 1 implies !((#[trigger] out@[m]) is Known && out@[m + 1]
                is Known) by {
                if m < before.len() - 1 {
                    assert(out@[m] == before[m]);
                    assert(out@[m + 1] == before[m + 1]);
                } else if m == before.len() - 1 && m >= 0 {
                    assert(out@[m] == before.last());
                }
            }
        }
    } else {
        proof {
            assert(orig.take(n as int) =~= orig);
            assert(spec_known_pairs(out@) =~= spec_known_pairs(orig));
        }
    }
    out
}

} // verus!
