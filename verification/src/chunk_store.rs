//! The chunk store: a content-addressed map from digests to chunk files.
//!
//! Each stored chunk carries the timestamps garbage collection reasons
//! about: `atime`, refreshed by every touch, and `ctime`, set at insertion.
//! The surrounding process performs the actual file operations; this model
//! is what those operations must amount to, and every decision — when an
//! insert is a no-op, what a touch changes, which chunks a sweep removes —
//! is taken here.

use vstd::prelude::*;
use vstd::std_specs::vec::vec_index_mut;
use crate::blob::DataBlob;

verus! {

/// Store failures.
#[derive(Clone, Copy, Debug, PartialEq, Eq, Structural)]
pub enum StoreError {
    /// The digest names no stored chunk.
    NotFound,
    /// A lock holder excludes the operation.
    Conflict,
}

/// One stored chunk file: its frame bytes and the two timestamps the
/// garbage collector reads.
pub struct ChunkFile {
    pub data: Vec<u8>,
    pub atime: i64,
    pub ctime: i64,
}

/// A digest paired with its chunk file.
pub type ChunkEntry = ([u8; 32], ChunkFile);

/// Some entry holds this digest.
pub open spec fn spec_has(s: Seq<ChunkEntry>, d: Seq<u8>) -> bool {
    exists|i: int| 0 <= i < s.len() && s[i].0@ == d
}

/// No two entries share a digest.
pub open spec fn spec_unique(s: Seq<ChunkEntry>) -> bool {
    forall|i: int, j: int| 0 <= i < j < s.len() ==> s[i].0@ != s[j].0@
}

/// The index of the entry holding a digest.
pub open spec fn spec_idx_of(s: Seq<ChunkEntry>, d: Seq<u8>) -> int {
    choose|i: int| 0 <= i < s.len() && s[i].0@ == d
}

/// The chunk file stored under a digest.
pub open spec fn spec_file(s: Seq<ChunkEntry>, d: Seq<u8>) -> ChunkFile {
    s[spec_idx_of(s, d)].1
}

/// In a store without duplicate digests, the entry found at any index is
/// the entry the lookup functions speak of.
pub proof fn lemma_lookup(s: Seq<ChunkEntry>, d: Seq<u8>, i: int)
    requires
        spec_unique(s),
        0 <= i < s.len(),
        s[i].0@ == d,
    ensures
        spec_has(s, d),
        spec_idx_of(s, d) == i,
{
    assert(spec_has(s, d));
    let j = spec_idx_of(s, d);
    if i < j {
        assert(s[i].0@ != s[j].0@);
    } else if j < i {
        assert(s[j].0@ != s[i].0@);
    }
}

/// Whether a sweep keeps a chunk file: it stays unless it is both unused
/// since the cutoff and older than every live writer.
pub open spec fn spec_sweep_keep(f: ChunkFile, cutoff: i64, oldest_writer: i64) -> bool {
    !(f.atime < cutoff && f.ctime < oldest_writer)
}

/// The total payload bytes of a run of store entries.
pub open spec fn spec_chunks_bytes(s: Seq<ChunkEntry>) -> int
    decreases s.len(),
{
    if s.len() == 0 {
        0
    } else {
        spec_chunks_bytes(s.drop_last()) + s.last().1.data@.len()
    }
}

pub proof fn lemma_chunks_bytes_push(s: Seq<ChunkEntry>, e: ChunkEntry)
    ensures
        spec_chunks_bytes(s.push(e)) == spec_chunks_bytes(s) + e.1.data@.len(),
{
    assert(s.push(e).drop_last() =~= s);
    assert(s.push(e).last() == e);
}

/// Two runs of entries with the same payloads entry for entry have the
/// same total payload bytes.
pub proof fn lemma_chunks_bytes_congruent(a: Seq<ChunkEntry>, b: Seq<ChunkEntry>)
    requires
        a.len() == b.len(),
        forall|i: int| 0 <= i < a.len() ==> a[i].1.data == b[i].1.data,
    ensures
        spec_chunks_bytes(a) == spec_chunks_bytes(b),
    decreases a.len(),
{
    if a.len() > 0 {
        assert(forall|i: int|
            0 <= i < a.drop_last().len() ==> a.drop_last()[i].1.data == b.drop_last()[i].1.data);
        lemma_chunks_bytes_congruent(a.drop_last(), b.drop_last());
        assert(a.last().1.data == b.last().1.data);
    }
}

/// The sweep decision as a predicate on store entries.
pub open spec fn spec_sweep_pred(cutoff: i64, oldest_writer: i64) -> spec_fn(ChunkEntry) -> bool {
    |e: ChunkEntry| spec_sweep_keep(e.1, cutoff, oldest_writer)
}

/// Filtering one more element appends it exactly when it passes.
pub proof fn lemma_filter_push<A>(s: Seq<A>, pred: spec_fn(A) -> bool, e: A)
    ensures
        s.push(e).filter(pred) == if pred(e) {
            s.filter(pred).push(e)
        } else {
            s.filter(pred)
        },
{
    reveal(Seq::filter);
    assert(s.push(e).drop_last() =~= s);
    assert(s.push(e).last() == e);
}

/// What digests survive a filter: those whose entry passes.
pub proof fn lemma_filter_has(s: Seq<ChunkEntry>, pred: spec_fn(ChunkEntry) -> bool, d: Seq<u8>)
    requires
        spec_unique(s),
    ensures
        spec_has(s.filter(pred), d) <==> (spec_has(s, d) && pred(s[spec_idx_of(s, d)])),
        spec_unique(s.filter(pred)),
        spec_has(s.filter(pred), d) ==> spec_file(s.filter(pred), d) == spec_file(s, d),
    decreases s.len(),
{
    reveal(Seq::filter);
    if s.len() == 0 {
        assert(!spec_has(s, d));
        assert(!spec_has(s.filter(pred), d));
    } else {
        let prefix = s.drop_last();
        let e = s.last();
        assert(spec_unique(prefix)) by {
            assert(forall|i: int, j: int|
                0 <= i < j < prefix.len() ==> s[i].0@ != s[j].0@);
        }
        lemma_filter_has(prefix, pred, d);
        assert(prefix.push(e) =~= s);
        lemma_filter_push(prefix, pred, e);
        let f = s.filter(pred);
        let fp = prefix.filter(pred);
        // uniqueness of the filtered sequence
        assert(spec_unique(f)) by {
            if pred(e) {
                assert(f =~= fp.push(e));
                assert forall|i: int, j: int| 0 <= i < j < f.len() implies f[i].0@ != f[j].0@ by {
                    if j < f.len() - 1 {
                        assert(fp[i].0@ != fp[j].0@);
                    } else {
                        // the last element is e; every earlier one is an
                        // element of the prefix, which e differs from
                        assert(0 <= i < fp.len());
                        assert(fp[i] == f[i]);
                        lemma_filter_element(prefix, pred, i);
                        let k = choose|k: int|
                            0 <= k < prefix.len() && prefix[k] == fp[i];
                        assert(s[k].0@ != s[s.len() - 1].0@);
                    }
                }
            } else {
                assert(f =~= fp);
            }
        }
        // membership in the filtered sequence
        if e.0@ == d {
            lemma_lookup(s, d, s.len() - 1);
            assert(!spec_has(prefix, d)) by {
                if spec_has(prefix, d) {
                    let i = spec_idx_of(prefix, d);
                    assert(s[i].0@ == d);
                    assert(s[i].0@ != s[s.len() - 1].0@);
                }
            }
            if pred(e) {
                assert(f =~= fp.push(e));
                assert(f[f.len() - 1] == e);
                lemma_lookup(f, d, f.len() - 1);
            } else {
                assert(f =~= fp);
                assert(!spec_has(f, d)) by {
                    if spec_has(f, d) {
                        let i = spec_idx_of(f, d);
                        lemma_filter_element(prefix, pred, i);
                        let k = choose|k: int|
                            0 <= k < prefix.len() && prefix[k] == fp[i];
                        lemma_lookup(prefix, d, k);
                    }
                }
            }
        } else {
            // d, if present, lives in the prefix
            if spec_has(s, d) {
                let i = spec_idx_of(s, d);
                assert(s[i].0@ == d);
                assert(i < s.len() - 1);
                assert(prefix[i] == s[i]);
                lemma_lookup(prefix, d, i);
                lemma_lookup(s, d, i);
            }
            if pred(e) {
                assert(f =~= fp.push(e));
                if spec_has(fp, d) {
                    let i = spec_idx_of(fp, d);
                    assert(f[i] == fp[i]);
                    lemma_lookup(f, d, i);
                }
                if spec_has(f, d) {
                    let i = spec_idx_of(f, d);
                    assert(f[i].0@ == d);
                    assert(i < f.len() - 1);
                    assert(fp[i] == f[i]);
                    lemma_lookup(fp, d, i);
                }
            } else {
                assert(f =~= fp);
            }
            if spec_has(prefix, d) {
                let i = spec_idx_of(prefix, d);
                assert(s[i] == prefix[i]);
                lemma_lookup(s, d, i);
            }
        }
    }
}

/// Every element of a filtered sequence is an element of the original.
pub proof fn lemma_filter_element<A>(s: Seq<A>, pred: spec_fn(A) -> bool, i: int)
    requires
        0 <= i < s.filter(pred).len(),
    ensures
        exists|k: int| 0 <= k < s.len() && s[k] == s.filter(pred)[i],
    decreases s.len(),
{
    reveal(Seq::filter);
    if s.len() > 0 {
        let prefix = s.drop_last();
        if pred(s.last()) && i == s.filter(pred).len() - 1 {
            assert(s[s.len() - 1] == s.filter(pred)[i]);
        } else {
            lemma_filter_element(prefix, pred, i);
            let k = choose|k: int| 0 <= k < prefix.len() && prefix[k] == prefix.filter(pred)[i];
            assert(s[k] == s.filter(pred)[i]);
        }
    }
}

/// The running totals a garbage collection reports.
#[derive(Clone, Copy, Debug)]
pub struct GarbageCollectionStatus {
    pub index_file_count: usize,
    pub index_data_bytes: u64,
    pub disk_bytes: u64,
    pub disk_chunks: usize,
    pub removed_bytes: u64,
    pub removed_chunks: usize,
}

impl GarbageCollectionStatus {
    pub open spec fn spec_zeroed(&self) -> bool {
        &&& self.index_file_count == 0
        &&& self.index_data_bytes == 0
        &&& self.disk_bytes == 0
        &&& self.disk_chunks == 0
        &&& self.removed_bytes == 0
        &&& self.removed_chunks == 0
    }

    pub fn new() -> (r: GarbageCollectionStatus)
        ensures
            r.spec_zeroed(),
    {
        GarbageCollectionStatus {
            index_file_count: 0,
            index_data_bytes: 0,
            disk_bytes: 0,
            disk_chunks: 0,
            removed_bytes: 0,
            removed_chunks: 0,
        }
    }
}

impl Default for GarbageCollectionStatus {
    fn default() -> (r: GarbageCollectionStatus)
        ensures
            r.spec_zeroed(),
    {
        GarbageCollectionStatus::new()
    }
}

/// The content-addressed chunk store with its process locks and writer
/// records.
pub struct ChunkStore {
    chunks: Vec<ChunkEntry>,
    shared_locks: usize,
    exclusive_locked: bool,
    writers: Vec<i64>,
}

/// The earliest start time among live writer records, or `now` when none
/// is live.
pub open spec fn spec_oldest_writer(ws: Seq<i64>, now: i64) -> i64
    decreases ws.len(),
{
    if ws.len() == 0 {
        now
    } else {
        let rest = spec_oldest_writer(ws.drop_last(), now);
        if ws.last() < rest {
            ws.last()
        } else {
            rest
        }
    }
}

impl ChunkStore {
    /// The stored entries.
    pub closed spec fn spec_chunks(&self) -> Seq<ChunkEntry> {
        self.chunks@
    }

    pub closed spec fn spec_shared_locks(&self) -> nat {
        self.shared_locks as nat
    }

    pub closed spec fn spec_exclusive_locked(&self) -> bool {
        self.exclusive_locked
    }

    pub closed spec fn spec_writers(&self) -> Seq<i64> {
        self.writers@
    }

    /// Digests are unique keys.
    pub open spec fn wf(&self) -> bool {
        spec_unique(self.spec_chunks())
    }

    /// An empty store, as `create` leaves it on disk.
    pub fn create() -> (r: ChunkStore)
        ensures
            r.wf(),
            r.spec_chunks() == Seq::<ChunkEntry>::empty(),
            r.spec_shared_locks() == 0,
            !r.spec_exclusive_locked(),
            r.spec_writers() == Seq::<i64>::empty(),
    {
        ChunkStore { chunks: Vec::new(), shared_locks: 0, exclusive_locked: false, writers: Vec::new() }
    }

    /// Find the entry holding a digest.
    fn position_of(&self, digest: &[u8; 32]) -> (r: Option<usize>)
        requires
            self.wf(),
        ensures
            r matches Some(i) ==> i < self.spec_chunks().len() && self.spec_chunks()[i as int].0@
                == digest@ && spec_has(self.spec_chunks(), digest@) && spec_idx_of(
                self.spec_chunks(),
                digest@,
            ) == i,
            r is None <==> !spec_has(self.spec_chunks(), digest@),
    {
        let mut i: usize = 0;
        while i < self.chunks.len()
            invariant
                self.wf(),
                i <= self.chunks@.len(),
                forall|j: int| 0 <= j < i ==> self.chunks@[j].0@ != digest@,
            decreases self.chunks@.len() - i,
        {
            if crate::blob::bytes_eq(self.chunks[i].0.as_slice(), digest.as_slice()) {
                proof {
                    lemma_lookup(self.chunks@, digest@, i as int);
                }
                return Some(i);
            }
            i = i + 1;
        }
        None
    }

    /// Whether a chunk is stored under this digest.
    pub fn has_chunk(&self, digest: &[u8; 32]) -> (r: bool)
        requires
            self.wf(),
        ensures
            r == spec_has(self.spec_chunks(), digest@),
    {
        self.position_of(digest).is_some()
    }

    /// The number of stored chunks.
    pub fn chunk_count(&self) -> (r: usize)
        ensures
            r == self.spec_chunks().len(),
    {
        self.chunks.len()
    }

    /// The frame bytes stored under a digest.
    pub fn read_chunk_data(&self, digest: &[u8; 32]) -> (r: Result<Vec<u8>, StoreError>)
        requires
            self.wf(),
        ensures
            r matches Ok(v) ==> spec_has(self.spec_chunks(), digest@) && v@ == spec_file(
                self.spec_chunks(),
                digest@,
            ).data@,
            r is Err <==> !spec_has(self.spec_chunks(), digest@),
    {
        match self.position_of(digest) {
            Some(i) => {
                let mut out: Vec<u8> = Vec::new();
                out.extend_from_slice(self.chunks[i].1.data.as_slice());
                assert(out@ =~= self.chunks@[i as int].1.data@);
                Ok(out)
            },
            None => Err(StoreError::NotFound),
        }
    }

    /// Store a chunk frame under its digest, atomically: when the digest is
    /// already present the frame on disk stays as it is and the call
    /// reports `existed`; otherwise the frame is written with both
    /// timestamps set to now.  The returned length is the length of the
    /// frame actually stored.
    pub fn insert_chunk(&mut self, chunk: &DataBlob, digest: &[u8; 32], now: i64) -> (r: (
        bool,
        u64,
    ))
        requires
            old(self).wf(),
        ensures
            final(self).wf(),
            final(self).spec_writers() == old(self).spec_writers(),
            final(self).spec_shared_locks() == old(self).spec_shared_locks(),
            final(self).spec_exclusive_locked() == old(self).spec_exclusive_locked(),
            r.0 == spec_has(old(self).spec_chunks(), digest@),
            r.0 ==> final(self).spec_chunks() == old(self).spec_chunks() && r.1 == spec_file(
                old(self).spec_chunks(),
                digest@,
            ).data@.len(),
            !r.0 ==> {
                let news = final(self).spec_chunks();
                &&& news.len() == old(self).spec_chunks().len() + 1
                &&& news.take(old(self).spec_chunks().len() as int) == old(self).spec_chunks()
                &&& news.last().0 == *digest
                &&& news.last().1.data@ == chunk.spec_raw()
                &&& news.last().1.atime == now
                &&& news.last().1.ctime == now
                &&& r.1 == chunk.spec_raw().len()
            },
            spec_has(final(self).spec_chunks(), digest@),
            spec_file(final(self).spec_chunks(), digest@).data@ == if r.0 {
                spec_file(old(self).spec_chunks(), digest@).data@
            } else {
                chunk.spec_raw()
            },
    {
        match self.position_of(digest) {
            Some(i) => {
                let len = self.chunks[i].1.data.len();
                (true, len as u64)
            },
            None => {
                let mut data: Vec<u8> = Vec::new();
                data.extend_from_slice(chunk.raw_data());
                assert(data@ =~= chunk.spec_raw());
                let len = data.len();
                let file = ChunkFile { data, atime: now, ctime: now };
                self.chunks.push((*digest, file));
                proof {
                    let s = self.chunks@;
                    assert(s[s.len() - 1].0@ == digest@);
                    assert forall|i: int, j: int| 0 <= i < j < s.len() implies s[i].0@
                        != s[j].0@ by {
                        if j == s.len() - 1 {
                            assert(!spec_has(old(self).spec_chunks(), digest@));
                        }
                    }
                    lemma_lookup(s, digest@, s.len() - 1);
                }
                (false, len as u64)
            },
        }
    }

    /// Record a chunk found in an existing store, with the timestamps its
    /// file carries; a duplicate digest is ignored.
    pub fn restore_chunk(&mut self, data: Vec<u8>, digest: &[u8; 32], atime: i64, ctime: i64)
        requires
            old(self).wf(),
        ensures
            final(self).wf(),
            final(self).spec_writers() == old(self).spec_writers(),
            final(self).spec_shared_locks() == old(self).spec_shared_locks(),
            final(self).spec_exclusive_locked() == old(self).spec_exclusive_locked(),
            spec_has(final(self).spec_chunks(), digest@),
            spec_has(old(self).spec_chunks(), digest@) ==> final(self).spec_chunks() == old(
                self,
            ).spec_chunks(),
            !spec_has(old(self).spec_chunks(), digest@) ==> {
                let news = final(self).spec_chunks();
                &&& news.len() == old(self).spec_chunks().len() + 1
                &&& news.take(old(self).spec_chunks().len() as int) == old(self).spec_chunks()
                &&& news.last().0 == *digest
                &&& news.last().1.data == data
                &&& news.last().1.atime == atime
                &&& news.last().1.ctime == ctime
            },
    {
        match self.position_of(digest) {
            Some(_) => {},
            None => {
                let file = ChunkFile { data, atime, ctime };
                self.chunks.push((*digest, file));
                proof {
                    let s = self.chunks@;
                    assert(s[s.len() - 1].0@ == digest@);
                    assert forall|i: int, j: int| 0 <= i < j < s.len() implies s[i].0@
                        != s[j].0@ by {
                        if j == s.len() - 1 {
                            assert(!spec_has(old(self).spec_chunks(), digest@));
                        }
                    }
                    lemma_lookup(s, digest@, s.len() - 1);
                }
            },
        }
    }

    /// The digests of every stored chunk, in store order.
    pub fn chunk_digests(&self) -> (r: Vec<[u8; 32]>)
        ensures
            r@.len() == self.spec_chunks().len(),
            forall|i: int| 0 <= i < r@.len() ==> r@[i] == self.spec_chunks()[i].0,
    {
        let mut out: Vec<[u8; 32]> = Vec::new();
        let mut i: usize = 0;
        while i < self.chunks.len()
            invariant
                i <= self.chunks@.len(),
                out@.len() == i,
                forall|j: int| 0 <= j < i ==> out@[j] == self.chunks@[j].0,
            decreases self.chunks@.len() - i,
        {
            out.push(self.chunks[i].0);
            i = i + 1;
        }
        out
    }

    /// Touch a chunk if present: refresh its access time, leave everything
    /// else alone.  Reports whether it was present; with `assert_exists`
    /// an absent chunk is an error instead.
    pub fn cond_touch_chunk(
        &mut self,
        digest: &[u8; 32],
        assert_exists: bool,
        now: i64,
    ) -> (r: Result<bool, StoreError>)
        requires
            old(self).wf(),
        ensures
            final(self).wf(),
            final(self).spec_writers() == old(self).spec_writers(),
            final(self).spec_shared_locks() == old(self).spec_shared_locks(),
            final(self).spec_exclusive_locked() == old(self).spec_exclusive_locked(),
            final(self).spec_chunks().len() == old(self).spec_chunks().len(),
            forall|i: int|
                0 <= i < old(self).spec_chunks().len() ==> {
                    &&& (#[trigger] final(self).spec_chunks()[i]).0 == old(self).spec_chunks()[i].0
                    &&& final(self).spec_chunks()[i].1.data == old(self).spec_chunks()[i].1.data
                    &&& final(self).spec_chunks()[i].1.ctime == old(self).spec_chunks()[i].1.ctime
                },
            r matches Ok(b) ==> b == spec_has(old(self).spec_chunks(), digest@),
            r is Err <==> (assert_exists && !spec_has(old(self).spec_chunks(), digest@)),
            !spec_has(old(self).spec_chunks(), digest@) ==> final(self).spec_chunks() == old(
                self,
            ).spec_chunks(),
            forall|d: Seq<u8>|
                spec_has(final(self).spec_chunks(), d) == spec_has(old(self).spec_chunks(), d),
            forall|d: Seq<u8>|
                spec_has(old(self).spec_chunks(), d) && d != digest@ ==> spec_file(
                    final(self).spec_chunks(),
                    d,
                ) == spec_file(old(self).spec_chunks(), d),
            spec_has(old(self).spec_chunks(), digest@) ==> {
                let f = spec_file(final(self).spec_chunks(), digest@);
                let g = spec_file(old(self).spec_chunks(), digest@);
                f.data == g.data && f.ctime == g.ctime && f.atime == now
            },
    {
        let pos = self.position_of(digest);
        match pos {
            Some(i) => {
                let entry = vec_index_mut(&mut self.chunks, i);
                entry.1.atime = now;
                proof {
                    let olds = old(self).spec_chunks();
                    let news = self.chunks@;
                    assert(news =~= olds.update(
                        i as int,
                        (olds[i as int].0, ChunkFile {
                            data: olds[i as int].1.data,
                            atime: now,
                            ctime: olds[i as int].1.ctime,
                        }),
                    ));
                    assert(spec_unique(news)) by {
                        assert(forall|k: int|
                            0 <= k < news.len() ==> news[k].0 == olds[k].0);
                    }
                    lemma_lookup(news, digest@, i as int);
                    assert forall|d: Seq<u8>|
                        spec_has(news, d) == spec_has(olds, d) by {
                        if spec_has(news, d) {
                            let k = spec_idx_of(news, d);
                            assert(olds[k].0@ == d);
                            assert(spec_has(olds, d));
                        }
                        if spec_has(olds, d) {
                            let k = spec_idx_of(olds, d);
                            assert(news[k].0@ == d);
                            assert(spec_has(news, d));
                        }
                    }
                    assert forall|d: Seq<u8>|
                        spec_has(olds, d) && d != digest@ implies spec_file(news, d) == spec_file(
                        olds,
                        d,
                    ) by {
                        let k = spec_idx_of(olds, d);
                        assert(olds[k].0@ == d);
                        lemma_lookup(olds, d, k);
                        assert(k != i as int);
                        assert(news[k] == olds[k]);
                        lemma_lookup(news, d, k);
                    }
                }
                Ok(true)
            },
            None => {
                if assert_exists {
                    Err(StoreError::NotFound)
                } else {
                    Ok(false)
                }
            },
        }
    }

    /// Touch a chunk; absent chunks are an error.
    pub fn touch_chunk(&mut self, digest: &[u8; 32], now: i64) -> (r: Result<(), StoreError>)
        requires
            old(self).wf(),
        ensures
            final(self).wf(),
            final(self).spec_writers() == old(self).spec_writers(),
            final(self).spec_shared_locks() == old(self).spec_shared_locks(),
            final(self).spec_exclusive_locked() == old(self).spec_exclusive_locked(),
            final(self).spec_chunks().len() == old(self).spec_chunks().len(),
            forall|i: int|
                0 <= i < old(self).spec_chunks().len() ==> {
                    &&& (#[trigger] final(self).spec_chunks()[i]).0 == old(self).spec_chunks()[i].0
                    &&& final(self).spec_chunks()[i].1.data == old(self).spec_chunks()[i].1.data
                    &&& final(self).spec_chunks()[i].1.ctime == old(self).spec_chunks()[i].1.ctime
                },
            r is Ok <==> spec_has(old(self).spec_chunks(), digest@),
            forall|d: Seq<u8>|
                spec_has(final(self).spec_chunks(), d) == spec_has(old(self).spec_chunks(), d),
            forall|d: Seq<u8>|
                spec_has(old(self).spec_chunks(), d) && d != digest@ ==> spec_file(
                    final(self).spec_chunks(),
                    d,
                ) == spec_file(old(self).spec_chunks(), d),
            spec_has(old(self).spec_chunks(), digest@) ==> {
                let f = spec_file(final(self).spec_chunks(), digest@);
                let g = spec_file(old(self).spec_chunks(), digest@);
                f.data == g.data && f.ctime == g.ctime && f.atime == now
            },
    {
        match self.cond_touch_chunk(digest, true, now) {
            Ok(_) => Ok(()),
            Err(e) => Err(e),
        }
    }

    /// Take a shared lock: granted unless the exclusive lock is held.
    /// Writers and sync hold one for their whole session.
    pub fn try_shared_lock(&mut self) -> (r: Result<(), StoreError>)
        requires
            old(self).wf(),
            old(self).spec_shared_locks() < usize::MAX,
        ensures
            final(self).wf(),
            final(self).spec_chunks() == old(self).spec_chunks(),
            final(self).spec_writers() == old(self).spec_writers(),
            final(self).spec_exclusive_locked() == old(self).spec_exclusive_locked(),
            r is Ok <==> !old(self).spec_exclusive_locked(),
            r is Ok ==> final(self).spec_shared_locks() == old(self).spec_shared_locks() + 1,
            r is Err ==> final(self).spec_shared_locks() == old(self).spec_shared_locks(),
    {
        if self.exclusive_locked {
            Err(StoreError::Conflict)
        } else {
            self.shared_locks = self.shared_locks + 1;
            Ok(())
        }
    }

    /// Release one shared lock.
    pub fn release_shared_lock(&mut self)
        requires
            old(self).wf(),
            old(self).spec_shared_locks() > 0,
        ensures
            final(self).wf(),
            final(self).spec_chunks() == old(self).spec_chunks(),
            final(self).spec_writers() == old(self).spec_writers(),
            final(self).spec_exclusive_locked() == old(self).spec_exclusive_locked(),
            final(self).spec_shared_locks() == old(self).spec_shared_locks() - 1,
    {
        self.shared_locks = self.shared_locks - 1;
    }

    /// Take the exclusive lock: granted only with no shared holders and no
    /// other exclusive holder.  Garbage collection holds it for the sweep.
    pub fn try_exclusive_lock(&mut self) -> (r: Result<(), StoreError>)
        requires
            old(self).wf(),
        ensures
            final(self).wf(),
            final(self).spec_chunks() == old(self).spec_chunks(),
            final(self).spec_writers() == old(self).spec_writers(),
            final(self).spec_shared_locks() == old(self).spec_shared_locks(),
            r is Ok <==> (old(self).spec_shared_locks() == 0 && !old(
                self,
            ).spec_exclusive_locked()),
            r is Ok ==> final(self).spec_exclusive_locked(),
            r is Err ==> final(self).spec_exclusive_locked() == old(self).spec_exclusive_locked(),
    {
        if self.shared_locks == 0 && !self.exclusive_locked {
            self.exclusive_locked = true;
            Ok(())
        } else {
            Err(StoreError::Conflict)
        }
    }

    /// Release the exclusive lock.
    pub fn release_exclusive_lock(&mut self)
        requires
            old(self).wf(),
        ensures
            final(self).wf(),
            final(self).spec_chunks() == old(self).spec_chunks(),
            final(self).spec_writers() == old(self).spec_writers(),
            final(self).spec_shared_locks() == old(self).spec_shared_locks(),
            !final(self).spec_exclusive_locked(),
    {
        self.exclusive_locked = false;
    }

    /// Record a writer that starts now; its start time bounds what a later
    /// sweep may remove.
    pub fn add_writer(&mut self, start: i64)
        requires
            old(self).wf(),
        ensures
            final(self).wf(),
            final(self).spec_chunks() == old(self).spec_chunks(),
            final(self).spec_shared_locks() == old(self).spec_shared_locks(),
            final(self).spec_exclusive_locked() == old(self).spec_exclusive_locked(),
            final(self).spec_writers() == old(self).spec_writers().push(start),
    {
        self.writers.push(start);
    }

    /// Drop every writer record, as when all sessions have finished.
    pub fn clear_writers(&mut self)
        requires
            old(self).wf(),
        ensures
            final(self).wf(),
            final(self).spec_chunks() == old(self).spec_chunks(),
            final(self).spec_shared_locks() == old(self).spec_shared_locks(),
            final(self).spec_exclusive_locked() == old(self).spec_exclusive_locked(),
            final(self).spec_writers() == Seq::<i64>::empty(),
    {
        self.writers.clear();
    }

    /// The start time of the oldest live writer, or `now` with no writers.
    pub fn oldest_writer(&self, now: i64) -> (r: i64)
        ensures
            r == spec_oldest_writer(self.spec_writers(), now),
    {
        let mut best = now;
        let mut i: usize = 0;
        while i < self.writers.len()
            invariant
                i <= self.writers@.len(),
                best == spec_oldest_writer(self.writers@.take(i as int), now),
            decreases self.writers@.len() - i,
        {
            let w = self.writers[i];
            proof {
                assert(self.writers@.take(i + 1).drop_last() =~= self.writers@.take(i as int));
                assert(self.writers@.take(i + 1).last() == w);
            }
            if w < best {
                best = w;
            }
            i = i + 1;
        }
        assert(self.writers@.take(self.writers@.len() as int) =~= self.writers@);
        best
    }

    /// Sweep: remove every chunk whose access time predates the cutoff and
    /// whose creation predates the oldest writer; keep the rest untouched.
    /// Totals for kept and removed chunks accumulate into `status`,
    /// saturating at the counter bounds.
    pub fn sweep_unused_chunks(
        &mut self,
        cutoff: i64,
        oldest_writer: i64,
        status: &mut GarbageCollectionStatus,
    )
        requires
            old(self).wf(),
        ensures
            final(self).wf(),
            final(self).spec_writers() == old(self).spec_writers(),
            final(self).spec_shared_locks() == old(self).spec_shared_locks(),
            final(self).spec_exclusive_locked() == old(self).spec_exclusive_locked(),
            final(self).spec_chunks() == old(self).spec_chunks().filter(
                spec_sweep_pred(cutoff, oldest_writer),
            ),
            final(status).index_file_count == old(status).index_file_count,
            final(status).index_data_bytes == old(status).index_data_bytes,
            final(status).disk_chunks >= old(status).disk_chunks,
            final(status).removed_chunks >= old(status).removed_chunks,
            final(status).disk_chunks - old(status).disk_chunks
                == final(self).spec_chunks().len() || final(status).disk_chunks == usize::MAX,
            final(status).removed_chunks - old(status).removed_chunks
                == old(self).spec_chunks().len() - final(self).spec_chunks().len()
                || final(status).removed_chunks == usize::MAX,
            final(status).disk_bytes - old(status).disk_bytes == spec_chunks_bytes(
                final(self).spec_chunks(),
            ) || final(status).disk_bytes == u64::MAX,
            final(status).removed_bytes - old(status).removed_bytes == spec_chunks_bytes(
                old(self).spec_chunks(),
            ) - spec_chunks_bytes(final(self).spec_chunks()) || final(status).removed_bytes
                == u64::MAX,
    {
        let ghost orig = self.chunks@;
        let mut kept: Vec<ChunkEntry> = Vec::new();
        let mut i: usize = 0;
        let n = self.chunks.len();
        proof {
            assert(orig.take(0).filter(spec_sweep_pred(cutoff, oldest_writer)) =~= Seq::<
                ChunkEntry,
            >::empty()) by {
                reveal(Seq::filter);
            }
        }
        while self.chunks.len() > 0
            invariant
                i + self.chunks@.len() == n,
                n == orig.len(),
                orig == old(self).spec_chunks(),
                self.chunks@ =~= orig.skip(i as int),
                self.writers@ == old(self).spec_writers(),
                self.shared_locks == old(self).spec_shared_locks(),
                self.exclusive_locked == old(self).spec_exclusive_locked(),
                kept@ == orig.take(i as int).filter(spec_sweep_pred(cutoff, oldest_writer)),
                status.disk_chunks >= old(status).disk_chunks,
                status.removed_chunks >= old(status).removed_chunks,
                status.disk_chunks - old(status).disk_chunks == kept@.len() || status.disk_chunks
                    == usize::MAX,
                status.removed_chunks - old(status).removed_chunks == i - kept@.len()
                    || status.removed_chunks == usize::MAX,
                status.disk_bytes - old(status).disk_bytes == spec_chunks_bytes(kept@)
                    || status.disk_bytes == u64::MAX,
                status.removed_bytes - old(status).removed_bytes == spec_chunks_bytes(
                    orig.take(i as int),
                ) - spec_chunks_bytes(kept@) || status.removed_bytes == u64::MAX,
                status.index_file_count == old(status).index_file_count,
                status.index_data_bytes == old(status).index_data_bytes,
            decreases self.chunks@.len(),
        {
            let e = self.chunks.remove(0);
            proof {
                assert(orig.skip(i as int)[0] == orig[i as int]);
                assert(orig.take(i + 1) =~= orig.take(i as int).push(orig[i as int]));
                lemma_filter_push(
                    orig.take(i as int),
                    spec_sweep_pred(cutoff, oldest_writer),
                    orig[i as int],
                );
                assert(self.chunks@ =~= orig.skip(i + 1));
                assert(spec_sweep_pred(cutoff, oldest_writer)(e) == spec_sweep_keep(
                    e.1,
                    cutoff,
                    oldest_writer,
                ));
                lemma_chunks_bytes_push(orig.take(i as int), orig[i as int]);
                lemma_chunks_bytes_push(kept@, orig[i as int]);
            }
            let keep = !(e.1.atime < cutoff && e.1.ctime < oldest_writer);
            if keep {
                status.disk_chunks = status.disk_chunks.saturating_add(1);
                status.disk_bytes = status.disk_bytes.saturating_add(e.1.data.len() as u64);
                kept.push(e);
            } else {
                status.removed_chunks = status.removed_chunks.saturating_add(1);
                status.removed_bytes = status.removed_bytes.saturating_add(e.1.data.len() as u64);
            }
            i = i + 1;
        }
        proof {
            assert(orig.take(n as int) =~= orig);
            lemma_filter_has(orig, spec_sweep_pred(cutoff, oldest_writer), Seq::<u8>::empty());
        }
        self.chunks = kept;
    }
}

} // verus!
