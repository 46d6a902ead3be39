//! The datastore: snapshots and their archives over one chunk store, and
//! the two-phase garbage collection that ties them together.
//!
//! A snapshot is `(backup type, backup id, backup time)`; its directory is
//! `<type>/<id>/<RFC 3339 time>/` under the store root.  Index files found
//! in the snapshot tree are the garbage collector's roots: the mark phase
//! touches every chunk they name, the sweep phase removes what stayed
//! untouched past the age cutoff and predates every live writer.

use vstd::prelude::*;
use crate::bytes_to_hex_string;
use crate::hex_of;
use crate::blob::DataBlob;
use crate::chunk_store::{
    ChunkStore, ChunkEntry, GarbageCollectionStatus, StoreError, spec_has, spec_file,
    spec_sweep_keep, spec_sweep_pred, spec_oldest_writer, lemma_filter_has,
};
use crate::index::{DynamicIndexReader, FixedIndexReader, IndexError};
use chrono::TimeZone;
use vstd::string::StringSliceAdditionalSpecFns;

verus! {

/// What an RFC 3339 UTC timestamp string reads for an epoch second.
pub uninterp spec fn rfc3339_z_of(epoch: i64) -> Seq<char>;

/// The last epoch second the timestamp formatting is specified for: the
/// end of year 9999.
pub const MAX_BACKUP_TIME: i64 = 253402300799;

/// The first epoch second a snapshot may carry: the start of year 0, so
/// timestamps before 1970 are ordinary values, not errors.
pub const MIN_BACKUP_TIME: i64 = -62167219200;

/// Relies on chrono's UTC timestamp formatting: the string depends on the
/// epoch second alone, and every epoch second up to year 9999 formats.
#[verifier::external_body]
pub fn format_rfc3339_z(epoch: i64) -> (r: Option<String>)
    ensures
        r matches Some(s) ==> s@ == rfc3339_z_of(epoch),
        MIN_BACKUP_TIME <= epoch <= MAX_BACKUP_TIME ==> r is Some,
{
    match chrono::Utc.timestamp_opt(epoch, 0) {
        chrono::LocalResult::Single(t) => Some(
            t.to_rfc3339_opts(chrono::SecondsFormat::Secs, true),
        ),
        _ => None,
    }
}

/// The three snapshot groups' kinds.
#[derive(Clone, Copy, Debug, PartialEq, Eq, Structural)]
pub enum BackupType {
    Host,
    Vm,
    Ct,
}

impl BackupType {
    /// The directory name of the kind.
    pub fn as_str(&self) -> (r: &'static str)
        ensures
            r@ == self.spec_chars(),
    {
        proof {
            reveal_strlit("host");
            reveal_strlit("vm");
            reveal_strlit("ct");
        }
        match self {
            BackupType::Host => "host",
            BackupType::Vm => "vm",
            BackupType::Ct => "ct",
        }
    }

    pub open spec fn spec_chars(&self) -> Seq<char> {
        match self {
            BackupType::Host => seq!['h', 'o', 's', 't'],
            BackupType::Vm => seq!['v', 'm'],
            BackupType::Ct => seq!['c', 't'],
        }
    }

    /// The kinds sort by their names: ct before host before vm.
    pub fn sort_index(&self) -> (r: u8)
        ensures
            r == self.spec_sort_index(),
    {
        match self {
            BackupType::Ct => 0,
            BackupType::Host => 1,
            BackupType::Vm => 2,
        }
    }

    pub open spec fn spec_sort_index(&self) -> u8 {
        match self {
            BackupType::Ct => 0u8,
            BackupType::Host => 1u8,
            BackupType::Vm => 2u8,
        }
    }
}

/// A backup group: every snapshot of one target.
#[derive(Clone, Debug)]
pub struct BackupGroup {
    backup_type: BackupType,
    backup_id: String,
}

impl BackupGroup {
    pub closed spec fn spec_backup_type(&self) -> BackupType {
        self.backup_type
    }

    pub closed spec fn spec_backup_id(&self) -> Seq<char> {
        self.backup_id@
    }

    pub fn new(backup_type: BackupType, backup_id: &str) -> (r: BackupGroup)
        ensures
            r.spec_backup_type() == backup_type,
            r.spec_backup_id() == backup_id@,
    {
        BackupGroup { backup_type, backup_id: backup_id.to_owned() }
    }

    pub fn backup_type(&self) -> (r: BackupType)
        ensures
            r == self.spec_backup_type(),
    {
        self.backup_type
    }

    pub fn backup_id(&self) -> (r: &str)
        ensures
            r@ == self.spec_backup_id(),
    {
        self.backup_id.as_str()
    }

    pub fn same_group(&self, other: &BackupGroup) -> (r: bool)
        ensures
            r == (self.spec_backup_type() == other.spec_backup_type() && self.spec_backup_id()
                == other.spec_backup_id()),
    {
        let types_equal = self.backup_type.sort_index() == other.backup_type.sort_index();
        proof {
            if self.backup_type.spec_sort_index() == other.backup_type.spec_sort_index() {
                assert(self.backup_type == other.backup_type);
            }
        }
        types_equal && self.backup_id.eq(&other.backup_id)
    }

    /// The group's directory: `<type>/<id>`.
    pub fn group_path(&self) -> (r: String)
        ensures
            r@ == self.spec_group_path(),
    {
        proof {
            reveal_strlit("/");
        }
        let mut out = String::new();
        out.append(self.backup_type.as_str());
        out.append("/");
        out.append(self.backup_id.as_str());
        assert(out@ =~= self.spec_group_path());
        out
    }

    pub open spec fn spec_group_path(&self) -> Seq<char> {
        self.spec_backup_type().spec_chars() + seq!['/'] + self.spec_backup_id()
    }
}

/// One snapshot: a group and an epoch second.
#[derive(Clone, Debug)]
pub struct BackupDir {
    group: BackupGroup,
    backup_time: i64,
}

impl BackupDir {
    pub closed spec fn spec_group(&self) -> BackupGroup {
        self.group
    }

    pub closed spec fn spec_backup_time(&self) -> i64 {
        self.backup_time
    }

    /// The timestamp is within the formattable range.
    pub open spec fn wf(&self) -> bool {
        MIN_BACKUP_TIME <= self.spec_backup_time() <= MAX_BACKUP_TIME
    }

    pub fn new(backup_type: BackupType, backup_id: &str, backup_time: i64) -> (r: Result<
        BackupDir,
        StoreError,
    >)
        ensures
            r matches Ok(d) ==> {
                &&& d.wf()
                &&& d.spec_group().spec_backup_type() == backup_type
                &&& d.spec_group().spec_backup_id() == backup_id@
                &&& d.spec_backup_time() == backup_time
            },
            r is Ok <==> MIN_BACKUP_TIME <= backup_time <= MAX_BACKUP_TIME,
    {
        if backup_time < MIN_BACKUP_TIME || backup_time > MAX_BACKUP_TIME {
            return Err(StoreError::NotFound);
        }
        Ok(BackupDir { group: BackupGroup::new(backup_type, backup_id), backup_time })
    }

    pub fn group(&self) -> (r: &BackupGroup)
        ensures
            r == self.spec_group(),
    {
        &self.group
    }

    pub fn backup_time(&self) -> (r: i64)
        ensures
            r == self.spec_backup_time(),
    {
        self.backup_time
    }

    /// A copy naming the same snapshot.
    pub fn duplicate(&self) -> (r: BackupDir)
        ensures
            r.spec_group().spec_backup_type() == self.spec_group().spec_backup_type(),
            r.spec_group().spec_backup_id() == self.spec_group().spec_backup_id(),
            r.spec_backup_time() == self.spec_backup_time(),
            spec_same_dir(r, *self),
    {
        BackupDir {
            group: BackupGroup::new(self.group.backup_type(), self.group.backup_id()),
            backup_time: self.backup_time,
        }
    }

    pub fn same_snapshot(&self, other: &BackupDir) -> (r: bool)
        ensures
            r == (self.spec_group().spec_backup_type() == other.spec_group().spec_backup_type()
                && self.spec_group().spec_backup_id() == other.spec_group().spec_backup_id()
                && self.spec_backup_time() == other.spec_backup_time()),
    {
        self.group.same_group(&other.group) && self.backup_time == other.backup_time
    }

    /// The snapshot's directory: `<type>/<id>/<RFC 3339 time>`.
    pub fn relative_path(&self) -> (r: String)
        requires
            self.wf(),
        ensures
            r@ == self.spec_relative_path(),
    {
        proof {
            reveal_strlit("/");
        }
        let mut out = self.group.group_path();
        out.append("/");
        let time = match format_rfc3339_z(self.backup_time) {
            Some(t) => t,
            None => {
                proof {
                    assert(false);
                }
                String::new()
            },
        };
        out.append(time.as_str());
        assert(out@ =~= self.spec_relative_path());
        out
    }

    pub open spec fn spec_relative_path(&self) -> Seq<char> {
        self.spec_group().spec_group_path() + seq!['/'] + rfc3339_z_of(self.spec_backup_time())
    }
}

/// The chunk file path for a digest under the store root:
/// `.chunks/<first two digest bytes in hex>/<digest in hex>`, a pure
/// function of the digest.
pub fn chunk_path(digest: &[u8; 32]) -> (r: (String, String))
    ensures
        r.0@ == spec_chunk_path(digest@),
        r.1@ == hex_of(digest@),
{
    proof {
        reveal_strlit(".chunks/");
        reveal_strlit("/");
    }
    let hex = bytes_to_hex_string(digest.as_slice());
    let prefix = vstd::slice::slice_subrange(digest.as_slice(), 0, 2);
    assert(prefix@ =~= digest@.take(2));
    let shard = bytes_to_hex_string(prefix);
    let mut path = String::new();
    path.append(".chunks/");
    path.append(shard.as_str());
    path.append("/");
    path.append(hex.as_str());
    assert(path@ =~= spec_chunk_path(digest@));
    (path, hex)
}

pub open spec fn spec_chunk_path(digest: Seq<u8>) -> Seq<char> {
    ".chunks/"@ + hex_of(digest.take(2)) + seq!['/'] + hex_of(digest)
}

/// The archive kinds a file name can carry.
#[derive(Clone, Copy, Debug, PartialEq, Eq, Structural)]
pub enum ArchiveType {
    DynamicIndex,
    FixedIndex,
    Blob,
}

pub open spec fn spec_suffix_didx() -> Seq<u8> {
    seq![46u8, 100u8, 105u8, 100u8, 120u8]
}

pub open spec fn spec_suffix_fidx() -> Seq<u8> {
    seq![46u8, 102u8, 105u8, 100u8, 120u8]
}

pub open spec fn spec_suffix_blob() -> Seq<u8> {
    seq![46u8, 98u8, 108u8, 111u8, 98u8]
}

pub open spec fn spec_has_suffix(name: Seq<u8>, suffix: Seq<u8>) -> bool {
    name.len() >= suffix.len() && name.skip(name.len() - suffix.len()) == suffix
}

/// What kind of archive a file name carries, by its suffix.
pub open spec fn spec_archive_type(name: Seq<u8>) -> Option<ArchiveType> {
    if spec_has_suffix(name, spec_suffix_didx()) {
        Some(ArchiveType::DynamicIndex)
    } else if spec_has_suffix(name, spec_suffix_fidx()) {
        Some(ArchiveType::FixedIndex)
    } else if spec_has_suffix(name, spec_suffix_blob()) {
        Some(ArchiveType::Blob)
    } else {
        None
    }
}

fn bytes_end_with(name: &[u8], suffix: &[u8]) -> (r: bool)
    ensures
        r == spec_has_suffix(name@, suffix@),
{
    if name.len() < suffix.len() {
        return false;
    }
    let tail = vstd::slice::slice_subrange(name, name.len() - suffix.len(), name.len());
    assert(tail@ =~= name@.skip(name@.len() - suffix@.len()));
    crate::blob::bytes_eq(tail, suffix)
}

/// Classify an archive file name (`.didx`, `.fidx`, `.blob`) by its
/// suffix.
pub fn archive_type(name: &str) -> (r: Result<ArchiveType, IndexError>)
    ensures
        r matches Ok(t) ==> spec_archive_type(name.spec_bytes()) == Some(t),
        r is Err <==> spec_archive_type(name.spec_bytes()) is None,
{
    let bytes = name.as_bytes();
    let didx: [u8; 5] = [46, 100, 105, 100, 120];
    let fidx: [u8; 5] = [46, 102, 105, 100, 120];
    let blob: [u8; 5] = [46, 98, 108, 111, 98];
    assert(didx@ =~= spec_suffix_didx());
    assert(fidx@ =~= spec_suffix_fidx());
    assert(blob@ =~= spec_suffix_blob());
    if bytes_end_with(bytes, didx.as_slice()) {
        Ok(ArchiveType::DynamicIndex)
    } else if bytes_end_with(bytes, fidx.as_slice()) {
        Ok(ArchiveType::FixedIndex)
    } else if bytes_end_with(bytes, blob.as_slice()) {
        Ok(ArchiveType::Blob)
    } else {
        Err(IndexError::Format)
    }
}

/// An index of either shape, as the garbage collector and sync walk them.
pub enum ArchiveIndex {
    Fixed(FixedIndexReader),
    Dynamic(DynamicIndexReader),
}

impl ArchiveIndex {
    /// The digests the index references, in entry order.
    pub open spec fn spec_digests(&self) -> Seq<Seq<u8>> {
        match self {
            ArchiveIndex::Fixed(ix) => ix.spec_digests().map_values(|d: [u8; 32]| d@),
            ArchiveIndex::Dynamic(ix) => ix.spec_entries().map_values(
                |e: crate::index::DynamicEntry| e.digest@,
            ),
        }
    }

    /// The archive length the index describes.
    pub open spec fn spec_index_bytes(&self) -> u64 {
        match self {
            ArchiveIndex::Fixed(ix) => ix.spec_stored_size(),
            ArchiveIndex::Dynamic(ix) => crate::index::spec_dynamic_size(ix.spec_entries()),
        }
    }

    pub fn index_count(&self) -> (r: usize)
        ensures
            r == self.spec_digests().len(),
    {
        match self {
            ArchiveIndex::Fixed(ix) => ix.index_count(),
            ArchiveIndex::Dynamic(ix) => ix.index_count(),
        }
    }

    pub fn index_digest(&self, pos: usize) -> (r: Option<[u8; 32]>)
        ensures
            r matches Some(d) ==> pos < self.spec_digests().len() && d@ == self.spec_digests()[pos as int],
            r is None <==> pos >= self.spec_digests().len(),
    {
        match self {
            ArchiveIndex::Fixed(ix) => ix.index_digest(pos),
            ArchiveIndex::Dynamic(ix) => ix.index_digest(pos),
        }
    }

    pub fn index_bytes(&self) -> (r: u64)
        ensures
            r == self.spec_index_bytes(),
    {
        match self {
            ArchiveIndex::Fixed(ix) => {
                let (_, size) = ix.compute_csum();
                size
            },
            ArchiveIndex::Dynamic(ix) => {
                let (_, size) = ix.compute_csum();
                size
            },
        }
    }

    /// A second walker over the same index.
    pub fn duplicate(&self) -> (r: ArchiveIndex)
        ensures
            r.spec_digests() == self.spec_digests(),
            r.spec_index_bytes() == self.spec_index_bytes(),
    {
        match self {
            ArchiveIndex::Fixed(ix) => ArchiveIndex::Fixed(ix.duplicate()),
            ArchiveIndex::Dynamic(ix) => ArchiveIndex::Dynamic(ix.duplicate()),
        }
    }

    /// Open serialized index bytes as whichever shape their magic names.
    pub fn open(data: &[u8]) -> (r: Result<ArchiveIndex, IndexError>)
        ensures
            r is Ok <==> (crate::index::spec_dynamic_shape_ok(data@) || crate::index::spec_fixed_shape_ok(data@)),
            r matches Ok(ix) ==> match ix {
                ArchiveIndex::Dynamic(d) => crate::index::spec_dynamic_shape_ok(data@)
                    && crate::index::spec_dynamic_entries_bytes(d.spec_entries()) == data@.skip(
                    144,
                ) && 40 * d.spec_entries().len() == data@.len() - 144,
                ArchiveIndex::Fixed(f) => crate::index::spec_fixed_shape_ok(data@)
                    && crate::index::spec_fixed_entries_bytes(f.spec_digests()) == data@.skip(144)
                    && 32 * f.spec_digests().len() == data@.len() - 144,
            },
    {
        match DynamicIndexReader::parse(data) {
            Ok(ix) => Ok(ArchiveIndex::Dynamic(ix)),
            Err(_) => {
                match FixedIndexReader::parse(data) {
                    Ok(ix) => Ok(ArchiveIndex::Fixed(ix)),
                    Err(e) => Err(e),
                }
            },
        }
    }
}

/// Open an archive file's bytes as the index its name announces; blob
/// archives hold no index.
pub fn open_index(name: &str, data: &[u8]) -> (r: Result<ArchiveIndex, IndexError>)
    ensures
        r is Ok <==> ((spec_archive_type(name.spec_bytes()) == Some(ArchiveType::DynamicIndex)
            && crate::index::spec_dynamic_shape_ok(data@)) || (spec_archive_type(
            name.spec_bytes(),
        ) == Some(ArchiveType::FixedIndex) && crate::index::spec_fixed_shape_ok(data@))),
        r matches Ok(ix) ==> match ix {
            ArchiveIndex::Dynamic(d) => spec_archive_type(name.spec_bytes()) == Some(
                ArchiveType::DynamicIndex,
            ) && crate::index::spec_dynamic_entries_bytes(d.spec_entries()) == data@.skip(144),
            ArchiveIndex::Fixed(f) => spec_archive_type(name.spec_bytes()) == Some(
                ArchiveType::FixedIndex,
            ) && crate::index::spec_fixed_entries_bytes(f.spec_digests()) == data@.skip(144),
        },
{
    match archive_type(name) {
        Ok(ArchiveType::DynamicIndex) => {
            match DynamicIndexReader::parse(data) {
                Ok(ix) => Ok(ArchiveIndex::Dynamic(ix)),
                Err(e) => Err(e),
            }
        },
        Ok(ArchiveType::FixedIndex) => {
            match FixedIndexReader::parse(data) {
                Ok(ix) => Ok(ArchiveIndex::Fixed(ix)),
                Err(e) => Err(e),
            }
        },
        _ => Err(IndexError::Format),
    }
}

/// An index file standing in a snapshot directory.
pub type Image = (BackupDir, ArchiveIndex);

/// A snapshot's manifest blob, as stored in its directory.
pub type ManifestEntry = (BackupDir, Vec<u8>);

/// The manifest stored for a snapshot directory, latest write winning.
pub open spec fn spec_manifest_of(ms: Seq<ManifestEntry>, dir: BackupDir) -> Option<Seq<u8>>
    decreases ms.len(),
{
    if ms.len() == 0 {
        None
    } else if spec_same_dir(ms.last().0, dir) {
        Some(ms.last().1@)
    } else {
        spec_manifest_of(ms.drop_last(), dir)
    }
}

/// Removing a directory's manifest entries leaves every other directory's
/// manifest as it was.
pub proof fn lemma_manifest_filter(ms: Seq<ManifestEntry>, dir: BackupDir, d2: BackupDir)
    ensures
        spec_manifest_of(
            ms.filter(|e: ManifestEntry| !spec_same_dir(e.0, dir)),
            d2,
        ) == if spec_same_dir(d2, dir) {
            None::<Seq<u8>>
        } else {
            spec_manifest_of(ms, d2)
        },
    decreases ms.len(),
{
    reveal(Seq::filter);
    let pred = |e: ManifestEntry| !spec_same_dir(e.0, dir);
    if ms.len() > 0 {
        lemma_manifest_filter(ms.drop_last(), dir, d2);
        let last = ms.last();
        if pred(last) {
            assert(ms.filter(pred) =~= ms.drop_last().filter(pred).push(last));
            assert(ms.filter(pred).drop_last() =~= ms.drop_last().filter(pred));
            assert(ms.filter(pred).last() == last);
        } else {
            assert(ms.filter(pred) =~= ms.drop_last().filter(pred));
        }
    }
}

/// Two snapshot names address the same directory.
pub open spec fn spec_same_dir(a: BackupDir, b: BackupDir) -> bool {
    &&& a.spec_group().spec_backup_type() == b.spec_group().spec_backup_type()
    &&& a.spec_group().spec_backup_id() == b.spec_group().spec_backup_id()
    &&& a.spec_backup_time() == b.spec_backup_time()
}

/// A snapshot directory belongs to a group.
pub open spec fn spec_dir_in_group(dir: BackupDir, group: BackupGroup) -> bool {
    &&& dir.spec_group().spec_backup_type() == group.spec_backup_type()
    &&& dir.spec_group().spec_backup_id() == group.spec_backup_id()
}

/// Two group values name the same group.
pub open spec fn spec_dir_in_group_pair(a: BackupGroup, b: BackupGroup) -> bool {
    &&& a.spec_backup_type() == b.spec_backup_type()
    &&& a.spec_backup_id() == b.spec_backup_id()
}

/// Two names of the same directory read the same manifest.
pub proof fn lemma_manifest_of_same_dir(ms: Seq<ManifestEntry>, d1: BackupDir, d2: BackupDir)
    requires
        spec_same_dir(d1, d2),
    ensures
        spec_manifest_of(ms, d1) == spec_manifest_of(ms, d2),
    decreases ms.len(),
{
    if ms.len() > 0 {
        lemma_manifest_of_same_dir(ms.drop_last(), d1, d2);
    }
}

/// A digest is referenced when some index of some snapshot names it.
pub open spec fn spec_referenced(images: Seq<Image>, d: Seq<u8>) -> bool {
    exists|k: int| 0 <= k < images.len() && images[k].1.spec_digests().contains(d)
}

/// A digest is referenced within a prefix of the mark phase's walk: by one
/// of the first `k` images, or by the first `pos` entries of image `k`.
pub open spec fn spec_marked_upto(images: Seq<Image>, k: int, pos: int, d: Seq<u8>) -> bool {
    ||| exists|k2: int| 0 <= k2 < k && images[k2].1.spec_digests().contains(d)
    ||| (0 <= k < images.len() && exists|p: int|
        0 <= p < pos && images[k].1.spec_digests()[p] == d)
}

/// The total archive bytes the images describe.
pub open spec fn spec_images_bytes(images: Seq<Image>) -> int
    decreases images.len(),
{
    if images.len() == 0 {
        0
    } else {
        spec_images_bytes(images.drop_last()) + images.last().1.spec_index_bytes()
    }
}

pub proof fn lemma_images_bytes_push(images: Seq<Image>, e: Image)
    ensures
        spec_images_bytes(images.push(e)) == spec_images_bytes(images) + e.1.spec_index_bytes(),
{
    assert(images.push(e).drop_last() =~= images);
    assert(images.push(e).last() == e);
}

/// Every chunk referenced by any of the images is present in the store.
pub open spec fn spec_all_referenced_present(images: Seq<Image>, chunks: Seq<ChunkEntry>) -> bool {
    forall|d: Seq<u8>| spec_referenced(images, d) ==> spec_has(chunks, d)
}

/// How long an untouched chunk survives: a day, plus five minutes of
/// clock-skew budget between the touch times the mark phase writes and the
/// sweep's reading of them.
pub const CHUNK_MAX_AGE: i64 = 86400 + 300;

/// The predicate for snapshots other than `dir`.
pub open spec fn spec_other_snapshot_pred(dir: BackupDir) -> spec_fn(BackupDir) -> bool {
    |s: BackupDir| !spec_same_dir(s, dir)
}

/// The predicate for images of snapshots other than `dir`.
pub open spec fn spec_other_image_pred(dir: BackupDir) -> spec_fn(Image) -> bool {
    |p: Image| !spec_same_dir(p.0, dir)
}

/// A datastore: one chunk store, the snapshot directories above it, and
/// the garbage collector's state.
pub struct DataStore {
    chunk_store: ChunkStore,
    snapshots: Vec<BackupDir>,
    images: Vec<Image>,
    manifests: Vec<ManifestEntry>,
    gc_running: bool,
    last_gc_status: GarbageCollectionStatus,
}

impl DataStore {
    pub closed spec fn spec_chunks(&self) -> Seq<ChunkEntry> {
        self.chunk_store.spec_chunks()
    }

    pub closed spec fn spec_snapshots(&self) -> Seq<BackupDir> {
        self.snapshots@
    }

    pub closed spec fn spec_images(&self) -> Seq<Image> {
        self.images@
    }

    pub closed spec fn spec_manifests(&self) -> Seq<ManifestEntry> {
        self.manifests@
    }

    pub closed spec fn spec_gc_running(&self) -> bool {
        self.gc_running
    }

    pub closed spec fn spec_last_gc_status(&self) -> GarbageCollectionStatus {
        self.last_gc_status
    }

    pub closed spec fn spec_store(&self) -> ChunkStore {
        self.chunk_store
    }

    pub closed spec fn wf(&self) -> bool {
        self.chunk_store.wf()
    }

    /// A fresh datastore over an empty chunk store.
    pub fn create() -> (r: DataStore)
        ensures
            r.wf(),
            r.spec_chunks() == Seq::<ChunkEntry>::empty(),
            r.spec_snapshots() == Seq::<BackupDir>::empty(),
            r.spec_images() == Seq::<Image>::empty(),
            r.spec_manifests() == Seq::<ManifestEntry>::empty(),
            !r.spec_gc_running(),
            r.spec_store().spec_writers() == Seq::<i64>::empty(),
            r.spec_store().spec_shared_locks() == 0,
            !r.spec_store().spec_exclusive_locked(),
    {
        DataStore {
            chunk_store: ChunkStore::create(),
            snapshots: Vec::new(),
            images: Vec::new(),
            manifests: Vec::new(),
            gc_running: false,
            last_gc_status: GarbageCollectionStatus::new(),
        }
    }

    /// Store a snapshot's manifest blob, replacing what was there.
    pub fn set_manifest(&mut self, dir: BackupDir, data: Vec<u8>)
        requires
            old(self).wf(),
        ensures
            final(self).wf(),
            final(self).spec_chunks() == old(self).spec_chunks(),
            final(self).spec_store() == old(self).spec_store(),
            final(self).spec_snapshots() == old(self).spec_snapshots(),
            final(self).spec_images() == old(self).spec_images(),
            final(self).spec_gc_running() == old(self).spec_gc_running(),
            forall|d2: BackupDir|
                #[trigger] spec_manifest_of(final(self).spec_manifests(), d2)
                    == if spec_same_dir(dir, d2) {
                    Some(data@)
                } else {
                    spec_manifest_of(old(self).spec_manifests(), d2)
                },
    {
        let ghost before = self.manifests@;
        let ghost data_view = data@;
        self.manifests.push((dir, data));
        proof {
            assert forall|d2: BackupDir|
                #[trigger] spec_manifest_of(self.manifests@, d2) == if spec_same_dir(dir, d2) {
                Some(data_view)
            } else {
                spec_manifest_of(before, d2)
            } by {
                assert(self.manifests@.drop_last() =~= before);
                assert(self.manifests@.last().0 == dir);
            }
        }
    }

    /// The manifest blob stored for a snapshot directory, if any.
    pub fn manifest_bytes(&self, dir: &BackupDir) -> (r: Option<Vec<u8>>)
        ensures
            r matches Some(v) ==> spec_manifest_of(self.spec_manifests(), *dir) == Some(v@),
            r is None <==> spec_manifest_of(self.spec_manifests(), *dir) is None,
    {
        let n = self.manifests.len();
        let mut i: usize = n;
        proof {
            assert(self.manifests@.take(n as int) =~= self.manifests@);
        }
        while i > 0
            invariant
                i <= n,
                n == self.manifests@.len(),
                spec_manifest_of(self.manifests@, *dir) == spec_manifest_of(
                    self.manifests@.take(i as int),
                    *dir,
                ),
            decreases i,
        {
            i = i - 1;
            proof {
                assert(self.manifests@.take(i + 1).drop_last() =~= self.manifests@.take(i as int));
                assert(self.manifests@.take(i + 1).last() == self.manifests@[i as int]);
            }
            if self.manifests[i].0.same_snapshot(dir) {
                let mut out: Vec<u8> = Vec::new();
                out.extend_from_slice(self.manifests[i].1.as_slice());
                assert(out@ =~= self.manifests@[i as int].1@);
                return Some(out);
            }
        }
        proof {
            assert(self.manifests@.take(0).len() == 0);
        }
        None
    }

    /// Store a chunk under its digest; a later duplicate is a no-op.
    pub fn insert_chunk(&mut self, chunk: &DataBlob, digest: &[u8; 32], now: i64) -> (r: (
        bool,
        u64,
    ))
        requires
            old(self).wf(),
        ensures
            final(self).wf(),
            final(self).spec_snapshots() == old(self).spec_snapshots(),
            final(self).spec_images() == old(self).spec_images(),
            final(self).spec_manifests() == old(self).spec_manifests(),
            final(self).spec_gc_running() == old(self).spec_gc_running(),
            final(self).spec_store().spec_shared_locks() == old(
                self,
            ).spec_store().spec_shared_locks(),
            final(self).spec_store().spec_exclusive_locked() == old(
                self,
            ).spec_store().spec_exclusive_locked(),
            final(self).spec_store().spec_writers() == old(self).spec_store().spec_writers(),
            r.0 == spec_has(old(self).spec_chunks(), digest@),
            r.0 ==> final(self).spec_chunks() == old(self).spec_chunks() && r.1 == spec_file(
                old(self).spec_chunks(),
                digest@,
            ).data@.len(),
            !r.0 ==> r.1 == chunk.spec_raw().len(),
            !r.0 ==> {
                let news = final(self).spec_chunks();
                &&& news.len() == old(self).spec_chunks().len() + 1
                &&& news.take(old(self).spec_chunks().len() as int) == old(self).spec_chunks()
                &&& news.last().0 == *digest
                &&& news.last().1.data@ == chunk.spec_raw()
                &&& news.last().1.atime == now
                &&& news.last().1.ctime == now
            },
            spec_has(final(self).spec_chunks(), digest@),
            spec_file(final(self).spec_chunks(), digest@).data@ == if r.0 {
                spec_file(old(self).spec_chunks(), digest@).data@
            } else {
                chunk.spec_raw()
            },
    {
        self.chunk_store.insert_chunk(chunk, digest, now)
    }

    /// Touch a chunk if present; used by sync to skip downloads.
    pub fn cond_touch_chunk(&mut self, digest: &[u8; 32], assert_exists: bool, now: i64) -> (r:
        Result<bool, StoreError>)
        requires
            old(self).wf(),
        ensures
            final(self).wf(),
            final(self).spec_snapshots() == old(self).spec_snapshots(),
            final(self).spec_images() == old(self).spec_images(),
            final(self).spec_manifests() == old(self).spec_manifests(),
            final(self).spec_gc_running() == old(self).spec_gc_running(),
            final(self).spec_store().spec_shared_locks() == old(
                self,
            ).spec_store().spec_shared_locks(),
            final(self).spec_store().spec_exclusive_locked() == old(
                self,
            ).spec_store().spec_exclusive_locked(),
            final(self).spec_store().spec_writers() == old(self).spec_store().spec_writers(),
            r matches Ok(b) ==> b == spec_has(old(self).spec_chunks(), digest@),
            r is Err <==> (assert_exists && !spec_has(old(self).spec_chunks(), digest@)),
            forall|d: Seq<u8>|
                spec_has(final(self).spec_chunks(), d) == spec_has(old(self).spec_chunks(), d),
            forall|d: Seq<u8>|
                spec_has(old(self).spec_chunks(), d) && d != digest@ ==> spec_file(
                    final(self).spec_chunks(),
                    d,
                ) == spec_file(old(self).spec_chunks(), d),
            spec_has(old(self).spec_chunks(), digest@) ==> spec_file(
                final(self).spec_chunks(),
                digest@,
            ).data == spec_file(old(self).spec_chunks(), digest@).data,
    {
        self.chunk_store.cond_touch_chunk(digest, assert_exists, now)
    }

    /// The frame bytes stored under a digest.
    pub fn read_chunk_data(&self, digest: &[u8; 32]) -> (r: Result<Vec<u8>, StoreError>)
        requires
            self.wf(),
        ensures
            r matches Ok(v) ==> spec_has(self.spec_chunks(), digest@) && v@ == spec_file(
                self.spec_chunks(),
                digest@,
            ).data@,
            r is Err <==> !spec_has(self.spec_chunks(), digest@),
    {
        self.chunk_store.read_chunk_data(digest)
    }

    /// Record a chunk found on disk, with its file's timestamps.
    pub fn restore_chunk(&mut self, data: Vec<u8>, digest: &[u8; 32], atime: i64, ctime: i64)
        requires
            old(self).wf(),
        ensures
            final(self).wf(),
            final(self).spec_snapshots() == old(self).spec_snapshots(),
            final(self).spec_images() == old(self).spec_images(),
            final(self).spec_manifests() == old(self).spec_manifests(),
            final(self).spec_gc_running() == old(self).spec_gc_running(),
            spec_has(final(self).spec_chunks(), digest@),
    {
        self.chunk_store.restore_chunk(data, digest, atime, ctime)
    }

    /// The digests of every stored chunk, in store order.
    pub fn chunk_digests(&self) -> (r: Vec<[u8; 32]>)
        ensures
            r@.len() == self.spec_chunks().len(),
            forall|i: int| 0 <= i < r@.len() ==> r@[i] == self.spec_chunks()[i].0,
    {
        self.chunk_store.chunk_digests()
    }

    pub fn has_chunk(&self, digest: &[u8; 32]) -> (r: bool)
        requires
            self.wf(),
        ensures
            r == spec_has(self.spec_chunks(), digest@),
    {
        self.chunk_store.has_chunk(digest)
    }

    pub fn chunk_count(&self) -> (r: usize)
        ensures
            r == self.spec_chunks().len(),
    {
        self.chunk_store.chunk_count()
    }

    /// Take a shared chunk-store lock for a writer or sync session.
    pub fn try_shared_chunk_store_lock(&mut self) -> (r: Result<(), StoreError>)
        requires
            old(self).wf(),
            old(self).spec_store().spec_shared_locks() < usize::MAX,
        ensures
            final(self).wf(),
            final(self).spec_chunks() == old(self).spec_chunks(),
            final(self).spec_snapshots() == old(self).spec_snapshots(),
            final(self).spec_images() == old(self).spec_images(),
            final(self).spec_gc_running() == old(self).spec_gc_running(),
            r is Ok <==> !old(self).spec_store().spec_exclusive_locked(),
            r is Ok ==> final(self).spec_store().spec_shared_locks() == old(
                self,
            ).spec_store().spec_shared_locks() + 1,
            r is Err ==> final(self).spec_store().spec_shared_locks() == old(
                self,
            ).spec_store().spec_shared_locks(),
            final(self).spec_store().spec_exclusive_locked() == old(
                self,
            ).spec_store().spec_exclusive_locked(),
            final(self).spec_store().spec_writers() == old(self).spec_store().spec_writers(),
            final(self).spec_manifests() == old(self).spec_manifests(),
    {
        self.chunk_store.try_shared_lock()
    }

    /// Release a writer's or sync's shared lock.
    pub fn release_shared_chunk_store_lock(&mut self)
        requires
            old(self).wf(),
            old(self).spec_store().spec_shared_locks() > 0,
        ensures
            final(self).wf(),
            final(self).spec_chunks() == old(self).spec_chunks(),
            final(self).spec_snapshots() == old(self).spec_snapshots(),
            final(self).spec_images() == old(self).spec_images(),
            final(self).spec_gc_running() == old(self).spec_gc_running(),
            final(self).spec_store().spec_shared_locks() == old(
                self,
            ).spec_store().spec_shared_locks() - 1,
            final(self).spec_store().spec_exclusive_locked() == old(
                self,
            ).spec_store().spec_exclusive_locked(),
            final(self).spec_store().spec_writers() == old(self).spec_store().spec_writers(),
            final(self).spec_manifests() == old(self).spec_manifests(),
    {
        self.chunk_store.release_shared_lock()
    }

    /// Record a writer session that starts now.
    pub fn add_writer(&mut self, start: i64)
        requires
            old(self).wf(),
        ensures
            final(self).wf(),
            final(self).spec_chunks() == old(self).spec_chunks(),
            final(self).spec_snapshots() == old(self).spec_snapshots(),
            final(self).spec_images() == old(self).spec_images(),
            final(self).spec_gc_running() == old(self).spec_gc_running(),
            final(self).spec_store().spec_writers() == old(self).spec_store().spec_writers().push(
                start,
            ),
            final(self).spec_store().spec_shared_locks() == old(
                self,
            ).spec_store().spec_shared_locks(),
            final(self).spec_store().spec_exclusive_locked() == old(
                self,
            ).spec_store().spec_exclusive_locked(),
    {
        self.chunk_store.add_writer(start)
    }

    /// Drop all writer records, as when every session has finished.
    pub fn clear_writers(&mut self)
        requires
            old(self).wf(),
        ensures
            final(self).wf(),
            final(self).spec_chunks() == old(self).spec_chunks(),
            final(self).spec_snapshots() == old(self).spec_snapshots(),
            final(self).spec_images() == old(self).spec_images(),
            final(self).spec_gc_running() == old(self).spec_gc_running(),
            final(self).spec_store().spec_writers() == Seq::<i64>::empty(),
            final(self).spec_store().spec_shared_locks() == old(
                self,
            ).spec_store().spec_shared_locks(),
            final(self).spec_store().spec_exclusive_locked() == old(
                self,
            ).spec_store().spec_exclusive_locked(),
    {
        self.chunk_store.clear_writers()
    }

    pub fn last_gc_status(&self) -> (r: GarbageCollectionStatus)
        ensures
            r == self.spec_last_gc_status(),
    {
        self.last_gc_status
    }

    fn snapshot_position(&self, dir: &BackupDir) -> (r: Option<usize>)
        ensures
            r matches Some(i) ==> i < self.spec_snapshots().len() && spec_same_dir(
                self.spec_snapshots()[i as int],
                *dir,
            ),
            r is None <==> !(exists|i: int|
                0 <= i < self.spec_snapshots().len() && spec_same_dir(
                    self.spec_snapshots()[i],
                    *dir,
                )),
    {
        let mut i: usize = 0;
        while i < self.snapshots.len()
            invariant
                i <= self.snapshots@.len(),
                forall|j: int| 0 <= j < i ==> !spec_same_dir(self.snapshots@[j], *dir),
            decreases self.snapshots@.len() - i,
        {
            if self.snapshots[i].same_snapshot(dir) {
                proof {
                    assert(0 <= (i as int) && (i as int) < self.spec_snapshots().len()
                        && spec_same_dir(
                        self.spec_snapshots()[i as int],
                        *dir,
                    ));
                    assert(exists|j: int|
                        0 <= j < self.spec_snapshots().len() && spec_same_dir(
                            self.spec_snapshots()[j],
                            *dir,
                        ));
                }
                return Some(i);
            }
            i = i + 1;
        }
        None
    }

    /// Create a snapshot directory; reports whether it is new, as rename
    /// collisions on disk would.
    pub fn create_backup_dir(&mut self, dir: &BackupDir) -> (r: (String, bool))
        requires
            old(self).wf(),
            dir.wf(),
        ensures
            final(self).wf(),
            final(self).spec_chunks() == old(self).spec_chunks(),
            final(self).spec_store() == old(self).spec_store(),
            final(self).spec_images() == old(self).spec_images(),
            final(self).spec_manifests() == old(self).spec_manifests(),
            final(self).spec_gc_running() == old(self).spec_gc_running(),
            r.0@ == dir.spec_relative_path(),
            r.1 == !(exists|i: int|
                0 <= i < old(self).spec_snapshots().len() && spec_same_dir(
                    old(self).spec_snapshots()[i],
                    *dir,
                )),
            r.1 ==> final(self).spec_snapshots().len() == old(self).spec_snapshots().len() + 1
                && final(self).spec_snapshots().take(old(self).spec_snapshots().len() as int)
                == old(self).spec_snapshots() && spec_same_dir(
                final(self).spec_snapshots().last(),
                *dir,
            ),
            !r.1 ==> final(self).spec_snapshots() == old(self).spec_snapshots(),
    {
        let path = dir.relative_path();
        match self.snapshot_position(dir) {
            Some(_) => (path, false),
            None => {
                let copy = BackupDir {
                    group: BackupGroup::new(dir.group().backup_type(), dir.group().backup_id()),
                    backup_time: dir.backup_time(),
                };
                self.snapshots.push(copy);
                proof {
                    assert(final(self).spec_snapshots().take(
                        old(self).spec_snapshots().len() as int,
                    ) =~= old(self).spec_snapshots());
                }
                (path, true)
            },
        }
    }

    /// Attach a finished index file to its snapshot directory, as the
    /// atomic rename on close does.
    pub fn add_index(&mut self, dir: BackupDir, index: ArchiveIndex)
        requires
            old(self).wf(),
        ensures
            final(self).wf(),
            final(self).spec_chunks() == old(self).spec_chunks(),
            final(self).spec_store() == old(self).spec_store(),
            final(self).spec_snapshots() == old(self).spec_snapshots(),
            final(self).spec_manifests() == old(self).spec_manifests(),
            final(self).spec_gc_running() == old(self).spec_gc_running(),
            final(self).spec_images() == old(self).spec_images().push((dir, index)),
    {
        self.images.push((dir, index));
    }

    /// Remove a snapshot directory with everything in it.
    pub fn remove_backup_dir(&mut self, dir: &BackupDir)
        requires
            old(self).wf(),
        ensures
            final(self).wf(),
            final(self).spec_chunks() == old(self).spec_chunks(),
            final(self).spec_store() == old(self).spec_store(),
            final(self).spec_gc_running() == old(self).spec_gc_running(),
            final(self).spec_snapshots() == old(self).spec_snapshots().filter(
                spec_other_snapshot_pred(*dir),
            ),
            final(self).spec_images() == old(self).spec_images().filter(
                spec_other_image_pred(*dir),
            ),
            forall|d2: BackupDir|
                #[trigger] spec_manifest_of(final(self).spec_manifests(), d2)
                    == if spec_same_dir(d2, *dir) {
                    None::<Seq<u8>>
                } else {
                    spec_manifest_of(old(self).spec_manifests(), d2)
                },
    {
        let ghost orig_snaps = self.snapshots@;
        let mut kept_snaps: Vec<BackupDir> = Vec::new();
        let mut i: usize = 0;
        let n = self.snapshots.len();
        proof {
            assert(orig_snaps.take(0).filter(spec_other_snapshot_pred(*dir)) =~= Seq::<
                BackupDir,
            >::empty()) by {
                reveal(Seq::filter);
            }
        }
        while self.snapshots.len() > 0
            invariant
                i + self.snapshots@.len() == n,
                n == orig_snaps.len(),
                self.snapshots@ =~= orig_snaps.skip(i as int),
                kept_snaps@ == orig_snaps.take(i as int).filter(spec_other_snapshot_pred(*dir)),
                self.chunk_store == old(self).spec_store(),
                self.images@ == old(self).spec_images(),
                self.manifests@ == old(self).spec_manifests(),
                self.gc_running == old(self).spec_gc_running(),
            decreases self.snapshots@.len(),
        {
            let s = self.snapshots.remove(0);
            proof {
                assert(orig_snaps.skip(i as int)[0] == orig_snaps[i as int]);
                assert(orig_snaps.take(i + 1) =~= orig_snaps.take(i as int).push(
                    orig_snaps[i as int],
                ));
                crate::chunk_store::lemma_filter_push(
                    orig_snaps.take(i as int),
                    spec_other_snapshot_pred(*dir),
                    orig_snaps[i as int],
                );
                assert(self.snapshots@ =~= orig_snaps.skip(i + 1));
            }
            if !s.same_snapshot(dir) {
                kept_snaps.push(s);
            }
            i = i + 1;
        }
        proof {
            assert(orig_snaps.take(n as int) =~= orig_snaps);
        }
        self.snapshots = kept_snaps;
        let ghost orig_images = self.images@;
        let mut kept_images: Vec<Image> = Vec::new();
        let mut k: usize = 0;
        let m = self.images.len();
        proof {
            assert(orig_images.take(0).filter(spec_other_image_pred(*dir)) =~= Seq::<
                Image,
            >::empty()) by {
                reveal(Seq::filter);
            }
        }
        while self.images.len() > 0
            invariant
                k + self.images@.len() == m,
                m == orig_images.len(),
                self.images@ =~= orig_images.skip(k as int),
                kept_images@ == orig_images.take(k as int).filter(spec_other_image_pred(*dir)),
                orig_images == old(self).spec_images(),
                self.snapshots@ == orig_snaps.filter(spec_other_snapshot_pred(*dir)),
                orig_snaps == old(self).spec_snapshots(),
                self.chunk_store == old(self).spec_store(),
                self.manifests@ == old(self).spec_manifests(),
                self.gc_running == old(self).spec_gc_running(),
            decreases self.images@.len(),
        {
            let p = self.images.remove(0);
            proof {
                assert(orig_images.skip(k as int)[0] == orig_images[k as int]);
                assert(orig_images.take(k + 1) =~= orig_images.take(k as int).push(
                    orig_images[k as int],
                ));
                crate::chunk_store::lemma_filter_push(
                    orig_images.take(k as int),
                    spec_other_image_pred(*dir),
                    orig_images[k as int],
                );
                assert(self.images@ =~= orig_images.skip(k + 1));
            }
            if !p.0.same_snapshot(dir) {
                kept_images.push(p);
            }
            k = k + 1;
        }
        proof {
            assert(orig_images.take(m as int) =~= orig_images);
        }
        self.images = kept_images;
        let ghost orig_manifests = self.manifests@;
        let mut kept_manifests: Vec<ManifestEntry> = Vec::new();
        let mut q: usize = 0;
        let t = self.manifests.len();
        proof {
            assert(orig_manifests.take(0).filter(
                |e: ManifestEntry| !spec_same_dir(e.0, *dir),
            ) =~= Seq::<ManifestEntry>::empty()) by {
                reveal(Seq::filter);
            }
        }
        while self.manifests.len() > 0
            invariant
                q + self.manifests@.len() == t,
                t == orig_manifests.len(),
                self.manifests@ =~= orig_manifests.skip(q as int),
                kept_manifests@ == orig_manifests.take(q as int).filter(
                    |e: ManifestEntry| !spec_same_dir(e.0, *dir),
                ),
                orig_manifests == old(self).spec_manifests(),
                self.snapshots@ == orig_snaps.filter(spec_other_snapshot_pred(*dir)),
                self.images@ == orig_images.filter(spec_other_image_pred(*dir)),
                orig_images == old(self).spec_images(),
                orig_snaps == old(self).spec_snapshots(),
                self.chunk_store == old(self).spec_store(),
                self.gc_running == old(self).spec_gc_running(),
            decreases self.manifests@.len(),
        {
            let e = self.manifests.remove(0);
            proof {
                assert(orig_manifests.skip(q as int)[0] == orig_manifests[q as int]);
                assert(orig_manifests.take(q + 1) =~= orig_manifests.take(q as int).push(
                    orig_manifests[q as int],
                ));
                crate::chunk_store::lemma_filter_push(
                    orig_manifests.take(q as int),
                    |e: ManifestEntry| !spec_same_dir(e.0, *dir),
                    orig_manifests[q as int],
                );
                assert(self.manifests@ =~= orig_manifests.skip(q + 1));
            }
            if !e.0.same_snapshot(dir) {
                kept_manifests.push(e);
            }
            q = q + 1;
        }
        proof {
            assert(orig_manifests.take(t as int) =~= orig_manifests);
        }
        self.manifests = kept_manifests;
        proof {
            assert forall|d2: BackupDir|
                #[trigger] spec_manifest_of(self.manifests@, d2) == if spec_same_dir(d2, *dir) {
                None::<Seq<u8>>
            } else {
                spec_manifest_of(old(self).spec_manifests(), d2)
            } by {
                lemma_manifest_filter(old(self).spec_manifests(), *dir, d2);
            }
        }
    }

    pub fn image_count(&self) -> (r: usize)
        ensures
            r == self.spec_images().len(),
    {
        self.images.len()
    }

    pub fn image_at(&self, i: usize) -> (r: &Image)
        requires
            i < self.spec_images().len(),
        ensures
            *r == self.spec_images()[i as int],
    {
        &self.images[i]
    }

    pub fn snapshot_count(&self) -> (r: usize)
        ensures
            r == self.spec_snapshots().len(),
    {
        self.snapshots.len()
    }

    pub fn snapshot_at(&self, i: usize) -> (r: &BackupDir)
        requires
            i < self.spec_snapshots().len(),
        ensures
            *r == self.spec_snapshots()[i as int],
    {
        &self.snapshots[i]
    }

    /// The time of the newest snapshot of a group, if the group has any:
    /// what a sync resumes after.
    pub fn last_successful_backup(&self, group: &BackupGroup) -> (r: Option<i64>)
        ensures
            r matches Some(t) ==> (exists|i: int|
                0 <= i < self.spec_snapshots().len() && spec_dir_in_group(
                    self.spec_snapshots()[i],
                    *group,
                ) && self.spec_snapshots()[i].spec_backup_time() == t),
            r matches Some(t) ==> (forall|i: int|
                0 <= i < self.spec_snapshots().len() && spec_dir_in_group(
                    self.spec_snapshots()[i],
                    *group,
                ) ==> self.spec_snapshots()[i].spec_backup_time() <= t),
            r is None <==> (forall|i: int|
                0 <= i < self.spec_snapshots().len() ==> !spec_dir_in_group(
                    self.spec_snapshots()[i],
                    *group,
                )),
    {
        let mut best: Option<i64> = None;
        let mut i: usize = 0;
        while i < self.snapshots.len()
            invariant
                i <= self.snapshots@.len(),
                best matches Some(t) ==> (exists|j: int|
                    0 <= j < i && spec_dir_in_group(self.snapshots@[j], *group)
                        && self.snapshots@[j].spec_backup_time() == t),
                best matches Some(t) ==> (forall|j: int|
                    0 <= j < i && spec_dir_in_group(self.snapshots@[j], *group)
                        ==> self.snapshots@[j].spec_backup_time() <= t),
                best is None <==> (forall|j: int|
                    0 <= j < i ==> !spec_dir_in_group(self.snapshots@[j], *group)),
            decreases self.snapshots@.len() - i,
        {
            let s = &self.snapshots[i];
            if s.group().same_group(group) {
                let t = s.backup_time();
                proof {
                    assert(spec_dir_in_group(self.snapshots@[i as int], *group));
                }
                match best {
                    None => {
                        best = Some(t);
                    },
                    Some(b) => {
                        if t > b {
                            best = Some(t);
                        }
                    },
                }
            }
            proof {
                if best is Some && spec_dir_in_group(self.snapshots@[i as int], *group) {
                    assert(self.snapshots@[i as int].spec_backup_time() <= best->0);
                }
                if spec_dir_in_group(self.snapshots@[i as int], *group) {
                    assert(best is Some);
                }
            }
            i = i + 1;
        }
        proof {
            assert(i == self.spec_snapshots().len());
        }
        best
    }

    /// Mark phase: touch every chunk referenced by any index of any
    /// snapshot, so their access times postdate the sweep cutoff.  A
    /// referenced chunk that is missing is fatal and stops the walk.
    pub fn mark_used_chunks(&mut self, status: &mut GarbageCollectionStatus, now: i64) -> (r:
        Result<(), StoreError>)
        requires
            old(self).wf(),
        ensures
            final(self).wf(),
            final(self).spec_images() == old(self).spec_images(),
            final(self).spec_snapshots() == old(self).spec_snapshots(),
            final(self).spec_manifests() == old(self).spec_manifests(),
            final(self).spec_gc_running() == old(self).spec_gc_running(),
            final(self).spec_store().spec_writers() == old(self).spec_store().spec_writers(),
            final(self).spec_store().spec_shared_locks() == old(
                self,
            ).spec_store().spec_shared_locks(),
            final(self).spec_store().spec_exclusive_locked() == old(
                self,
            ).spec_store().spec_exclusive_locked(),
            final(self).spec_last_gc_status() == old(self).spec_last_gc_status(),
            r is Ok <==> spec_all_referenced_present(
                old(self).spec_images(),
                old(self).spec_chunks(),
            ),
            final(self).spec_chunks().len() == old(self).spec_chunks().len(),
            forall|i: int|
                0 <= i < old(self).spec_chunks().len() ==> {
                    &&& (#[trigger] final(self).spec_chunks()[i]).0 == old(self).spec_chunks()[i].0
                    &&& final(self).spec_chunks()[i].1.data == old(self).spec_chunks()[i].1.data
                    &&& final(self).spec_chunks()[i].1.ctime == old(self).spec_chunks()[i].1.ctime
                },
            forall|d: Seq<u8>|
                spec_has(final(self).spec_chunks(), d) == spec_has(old(self).spec_chunks(), d),
            forall|d: Seq<u8>|
                spec_has(old(self).spec_chunks(), d) ==> spec_file(
                    final(self).spec_chunks(),
                    d,
                ).data == spec_file(old(self).spec_chunks(), d).data && spec_file(
                    final(self).spec_chunks(),
                    d,
                ).ctime == spec_file(old(self).spec_chunks(), d).ctime,
            r is Ok ==> forall|d: Seq<u8>|
                spec_has(old(self).spec_chunks(), d) ==> spec_file(
                    final(self).spec_chunks(),
                    d,
                ).atime == if spec_referenced(old(self).spec_images(), d) {
                    now
                } else {
                    (spec_file(old(self).spec_chunks(), d).atime)
                },
            final(status).disk_bytes == old(status).disk_bytes,
            final(status).disk_chunks == old(status).disk_chunks,
            final(status).removed_bytes == old(status).removed_bytes,
            final(status).removed_chunks == old(status).removed_chunks,
            r is Ok ==> final(status).index_file_count - old(status).index_file_count == old(
                self,
            ).spec_images().len() || final(status).index_file_count == usize::MAX,
            r is Ok ==> final(status).index_data_bytes - old(status).index_data_bytes
                == spec_images_bytes(old(self).spec_images()) || final(status).index_data_bytes
                == u64::MAX,
    {
        let image_total = self.images.len();
        let mut k: usize = 0;
        while k < image_total
            invariant
                self.chunk_store.wf(),
                image_total == self.images@.len(),
                k <= image_total,
                self.images@ == old(self).spec_images(),
                self.snapshots@ == old(self).spec_snapshots(),
                self.manifests@ == old(self).spec_manifests(),
                self.gc_running == old(self).spec_gc_running(),
                self.last_gc_status == old(self).spec_last_gc_status(),
                self.chunk_store.spec_writers() == old(self).spec_store().spec_writers(),
                self.chunk_store.spec_shared_locks() == old(self).spec_store().spec_shared_locks(),
                self.chunk_store.spec_exclusive_locked() == old(
                    self,
                ).spec_store().spec_exclusive_locked(),
                self.chunk_store.spec_chunks().len() == old(self).spec_chunks().len(),
                forall|i: int|
                    0 <= i < old(self).spec_chunks().len() ==> {
                        &&& (#[trigger] self.chunk_store.spec_chunks()[i]).0 == old(
                            self,
                        ).spec_chunks()[i].0
                        &&& self.chunk_store.spec_chunks()[i].1.data == old(
                            self,
                        ).spec_chunks()[i].1.data
                        &&& self.chunk_store.spec_chunks()[i].1.ctime == old(
                            self,
                        ).spec_chunks()[i].1.ctime
                    },
                forall|d: Seq<u8>|
                    spec_has(self.chunk_store.spec_chunks(), d) == spec_has(
                        old(self).spec_chunks(),
                        d,
                    ),
                forall|d: Seq<u8>|
                    spec_marked_upto(old(self).spec_images(), k as int, 0, d) ==> spec_has(
                        old(self).spec_chunks(),
                        d,
                    ),
                forall|d: Seq<u8>|
                    spec_has(old(self).spec_chunks(), d) ==> {
                        let f = spec_file(self.chunk_store.spec_chunks(), d);
                        let g = spec_file(old(self).spec_chunks(), d);
                        f.data == g.data && f.ctime == g.ctime && f.atime == (
                        if spec_marked_upto(old(self).spec_images(), k as int, 0, d) {
                            now
                        } else {
                            g.atime
                        })
                    },
                status.disk_bytes == old(status).disk_bytes,
                status.disk_chunks == old(status).disk_chunks,
                status.removed_bytes == old(status).removed_bytes,
                status.removed_chunks == old(status).removed_chunks,
                status.index_file_count - old(status).index_file_count == k
                    || status.index_file_count == usize::MAX,
                status.index_data_bytes - old(status).index_data_bytes == spec_images_bytes(
                    old(self).spec_images().take(k as int),
                ) || status.index_data_bytes == u64::MAX,
            decreases image_total - k,
        {
            let entry_total = self.images[k].1.index_count();
            proof {
                assert(old(self).spec_images().take(k + 1) =~= old(self).spec_images().take(
                    k as int,
                ).push(old(self).spec_images()[k as int]));
                lemma_images_bytes_push(
                    old(self).spec_images().take(k as int),
                    old(self).spec_images()[k as int],
                );
            }
            status.index_file_count = status.index_file_count.saturating_add(1);
            status.index_data_bytes = status.index_data_bytes.saturating_add(
                self.images[k].1.index_bytes(),
            );
            let mut pos: usize = 0;
            while pos < entry_total
                invariant
                    self.chunk_store.wf(),
                    image_total == self.images@.len(),
                    k < image_total,
                    entry_total == self.images@[k as int].1.spec_digests().len(),
                    pos <= entry_total,
                    self.images@ == old(self).spec_images(),
                    self.snapshots@ == old(self).spec_snapshots(),
                    self.manifests@ == old(self).spec_manifests(),
                    self.gc_running == old(self).spec_gc_running(),
                    self.last_gc_status == old(self).spec_last_gc_status(),
                    self.chunk_store.spec_writers() == old(self).spec_store().spec_writers(),
                    self.chunk_store.spec_shared_locks() == old(
                        self,
                    ).spec_store().spec_shared_locks(),
                    self.chunk_store.spec_exclusive_locked() == old(
                        self,
                    ).spec_store().spec_exclusive_locked(),
                    self.chunk_store.spec_chunks().len() == old(self).spec_chunks().len(),
                    forall|i: int|
                        0 <= i < old(self).spec_chunks().len() ==> {
                            &&& (#[trigger] self.chunk_store.spec_chunks()[i]).0 == old(
                                self,
                            ).spec_chunks()[i].0
                            &&& self.chunk_store.spec_chunks()[i].1.data == old(
                                self,
                            ).spec_chunks()[i].1.data
                            &&& self.chunk_store.spec_chunks()[i].1.ctime == old(
                                self,
                            ).spec_chunks()[i].1.ctime
                        },
                    forall|d: Seq<u8>|
                        spec_has(self.chunk_store.spec_chunks(), d) == spec_has(
                            old(self).spec_chunks(),
                            d,
                        ),
                    forall|d: Seq<u8>|
                        spec_marked_upto(old(self).spec_images(), k as int, pos as int, d)
                            ==> spec_has(old(self).spec_chunks(), d),
                    forall|d: Seq<u8>|
                        spec_has(old(self).spec_chunks(), d) ==> {
                            let f = spec_file(self.chunk_store.spec_chunks(), d);
                            let g = spec_file(old(self).spec_chunks(), d);
                            f.data == g.data && f.ctime == g.ctime && f.atime == (
                            if spec_marked_upto(
                                old(self).spec_images(),
                                k as int,
                                pos as int,
                                d,
                            ) {
                                now
                            } else {
                                g.atime
                            })
                        },
                    status.disk_bytes == old(status).disk_bytes,
                    status.disk_chunks == old(status).disk_chunks,
                    status.removed_bytes == old(status).removed_bytes,
                    status.removed_chunks == old(status).removed_chunks,
                    status.index_file_count - old(status).index_file_count == k + 1
                        || status.index_file_count == usize::MAX,
                    status.index_data_bytes - old(status).index_data_bytes == spec_images_bytes(
                        old(self).spec_images().take(k + 1),
                    ) || status.index_data_bytes == u64::MAX,
                decreases entry_total - pos,
            {
                let dg: [u8; 32] = match self.images[k].1.index_digest(pos) {
                    Some(d) => d,
                    None => {
                        proof {
                            assert(false);
                        }
                        [0u8; 32]
                    },
                };
                let ghost imgs = old(self).spec_images();
                let ghost pre_chunks = self.chunk_store.spec_chunks();
                let touched = self.chunk_store.touch_chunk(&dg, now);
                proof {
                    assert(imgs[k as int].1.spec_digests()[pos as int] == dg@);
                    assert(imgs[k as int].1.spec_digests().contains(dg@));
                }
                match touched {
                    Ok(_) => {},
                    Err(e) => {
                        proof {
                            assert(!spec_has(pre_chunks, dg@));
                            assert(!spec_has(old(self).spec_chunks(), dg@));
                            assert(spec_referenced(imgs, dg@));
                            assert(!spec_all_referenced_present(
                                imgs,
                                old(self).spec_chunks(),
                            )) by {
                                if spec_all_referenced_present(imgs, old(self).spec_chunks()) {
                                    assert(spec_has(old(self).spec_chunks(), dg@));
                                }
                            }
                        }
                        return Err(e);
                    },
                }
                proof {
                    assert forall|d: Seq<u8>|
                        spec_marked_upto(imgs, k as int, pos + 1, d) implies (spec_marked_upto(
                        imgs,
                        k as int,
                        pos as int,
                        d,
                    ) || d == dg@) by {
                        if !spec_marked_upto(imgs, k as int, pos as int, d) {
                            let p = choose|p: int|
                                0 <= p < pos + 1 && imgs[k as int].1.spec_digests()[p] == d;
                            assert(p == pos as int);
                        }
                    }
                    assert forall|d: Seq<u8>|
                        spec_marked_upto(imgs, k as int, pos + 1, d) implies spec_has(
                        old(self).spec_chunks(),
                        d,
                    ) by {
                        if d == dg@ {
                            assert(spec_has(pre_chunks, dg@));
                        }
                    }
                    assert forall|d: Seq<u8>|
                        spec_has(old(self).spec_chunks(), d) implies {
                        let f = spec_file(self.chunk_store.spec_chunks(), d);
                        let g = spec_file(old(self).spec_chunks(), d);
                        f.data == g.data && f.ctime == g.ctime && f.atime == (
                        if spec_marked_upto(imgs, k as int, pos + 1, d) {
                            now
                        } else {
                            g.atime
                        })
                    } by {
                        if d == dg@ {
                            assert(spec_marked_upto(imgs, k as int, pos + 1, d)) by {
                                assert(imgs[k as int].1.spec_digests()[pos as int] == d);
                            }
                        } else {
                            assert(spec_file(self.chunk_store.spec_chunks(), d) == spec_file(
                                pre_chunks,
                                d,
                            ));
                        }
                    }
                }
                pos = pos + 1;
            }
            proof {
                let imgs = old(self).spec_images();
                assert forall|d: Seq<u8>|
                    spec_marked_upto(imgs, k + 1, 0, d) == spec_marked_upto(
                    imgs,
                    k as int,
                    entry_total as int,
                    d,
                ) by {
                    if spec_marked_upto(imgs, k + 1, 0, d) {
                        let k2 = choose|k2: int|
                            0 <= k2 < k + 1 && imgs[k2].1.spec_digests().contains(d);
                        if k2 == k as int {
                            let p = choose|p: int|
                                0 <= p < imgs[k2].1.spec_digests().len()
                                    && imgs[k2].1.spec_digests()[p] == d;
                            assert(spec_marked_upto(imgs, k as int, entry_total as int, d));
                        }
                    }
                    if spec_marked_upto(imgs, k as int, entry_total as int, d) {
                        if exists|p: int|
                            0 <= p < entry_total && imgs[k as int].1.spec_digests()[p] == d {
                            assert(imgs[k as int].1.spec_digests().contains(d));
                        }
                    }
                }
            }
            k = k + 1;
        }
        proof {
            let imgs = old(self).spec_images();
            assert forall|d: Seq<u8>|
                spec_marked_upto(imgs, imgs.len() as int, 0, d) == spec_referenced(imgs, d) by {}
            assert(spec_all_referenced_present(imgs, old(self).spec_chunks()));
            assert(imgs.take(imgs.len() as int) =~= imgs);
        }
        Ok(())
    }

    /// Garbage collection: refused while another collection runs or any
    /// writer holds the shared lock; otherwise mark every referenced chunk,
    /// then sweep.  On success every referenced chunk survives; a chunk
    /// disappears exactly when it is unreferenced, untouched since the age
    /// cutoff, and older than every writer that was live at the start.
    pub fn garbage_collection(&mut self, now: i64) -> (r: Result<(), StoreError>)
        requires
            old(self).wf(),
            now >= 0,
        ensures
            final(self).wf(),
            final(self).spec_images() == old(self).spec_images(),
            final(self).spec_snapshots() == old(self).spec_snapshots(),
            final(self).spec_manifests() == old(self).spec_manifests(),
            final(self).spec_gc_running() == old(self).spec_gc_running(),
            final(self).spec_store().spec_writers() == old(self).spec_store().spec_writers(),
            final(self).spec_store().spec_shared_locks() == old(
                self,
            ).spec_store().spec_shared_locks(),
            final(self).spec_store().spec_exclusive_locked() == old(
                self,
            ).spec_store().spec_exclusive_locked(),
            r is Ok <==> (!old(self).spec_gc_running() && !old(
                self,
            ).spec_store().spec_exclusive_locked() && old(self).spec_store().spec_shared_locks()
                == 0 && spec_all_referenced_present(
                old(self).spec_images(),
                old(self).spec_chunks(),
            )),
            r is Ok ==> forall|d: Seq<u8>|
                spec_referenced(old(self).spec_images(), d) ==> spec_has(
                    final(self).spec_chunks(),
                    d,
                ),
            r is Ok ==> forall|d: Seq<u8>|
                spec_has(old(self).spec_chunks(), d) ==> (spec_has(final(self).spec_chunks(), d)
                    <==> !((if spec_referenced(old(self).spec_images(), d) {
                    now
                } else {
                    (spec_file(old(self).spec_chunks(), d).atime)
                }) < now - CHUNK_MAX_AGE && spec_file(old(self).spec_chunks(), d).ctime
                    < spec_oldest_writer(old(self).spec_store().spec_writers(), now))),
            r is Ok ==> forall|d: Seq<u8>|
                spec_has(final(self).spec_chunks(), d) ==> spec_has(old(self).spec_chunks(), d)
                    && spec_file(final(self).spec_chunks(), d).data == spec_file(
                    old(self).spec_chunks(),
                    d,
                ).data,
            r is Ok ==> forall|d: Seq<u8>|
                spec_has(old(self).spec_chunks(), d) && spec_file(old(self).spec_chunks(), d).ctime
                    >= spec_oldest_writer(old(self).spec_store().spec_writers(), now) ==> spec_has(
                    final(self).spec_chunks(),
                    d,
                ),
            forall|d: Seq<u8>|
                spec_has(final(self).spec_chunks(), d) == spec_has(old(self).spec_chunks(), d)
                    || r is Ok,
            r is Err ==> forall|d: Seq<u8>|
                spec_has(old(self).spec_chunks(), d) ==> spec_file(
                    final(self).spec_chunks(),
                    d,
                ).data == spec_file(old(self).spec_chunks(), d).data,
            r is Err ==> final(self).spec_last_gc_status() == old(self).spec_last_gc_status(),
            r is Err && (old(self).spec_gc_running() || old(
                self,
            ).spec_store().spec_exclusive_locked() || old(self).spec_store().spec_shared_locks()
                > 0) ==> final(self).spec_chunks() == old(self).spec_chunks(),
            r is Ok ==> {
                let st = final(self).spec_last_gc_status();
                &&& (st.index_file_count == old(self).spec_images().len()
                    || st.index_file_count == usize::MAX)
                &&& (st.index_data_bytes == spec_images_bytes(old(self).spec_images())
                    || st.index_data_bytes == u64::MAX)
                &&& (st.disk_chunks == final(self).spec_chunks().len() || st.disk_chunks
                    == usize::MAX)
                &&& (st.disk_bytes == crate::chunk_store::spec_chunks_bytes(
                    final(self).spec_chunks(),
                ) || st.disk_bytes == u64::MAX)
                &&& (st.removed_chunks == old(self).spec_chunks().len()
                    - final(self).spec_chunks().len() || st.removed_chunks == usize::MAX)
                &&& (st.removed_bytes == crate::chunk_store::spec_chunks_bytes(
                    old(self).spec_chunks(),
                ) - crate::chunk_store::spec_chunks_bytes(final(self).spec_chunks())
                    || st.removed_bytes == u64::MAX)
            },
    {
        if self.gc_running {
            return Err(StoreError::Conflict);
        }
        self.gc_running = true;
        if let Err(e) = self.chunk_store.try_exclusive_lock() {
            self.gc_running = false;
            return Err(e);
        }
        let oldest_writer = self.chunk_store.oldest_writer(now);
        let mut gc_status = GarbageCollectionStatus::new();
        if let Err(e) = self.mark_used_chunks(&mut gc_status, now) {
            self.chunk_store.release_exclusive_lock();
            self.gc_running = false;
            return Err(e);
        }
        let ghost marked = self.spec_chunks();
        let cutoff = now - CHUNK_MAX_AGE;
        self.chunk_store.sweep_unused_chunks(cutoff, oldest_writer, &mut gc_status);
        self.chunk_store.release_exclusive_lock();
        self.last_gc_status = gc_status;
        self.gc_running = false;
        proof {
            let pred = spec_sweep_pred(cutoff, oldest_writer);
            let olds = old(self).spec_chunks();
            let news = self.spec_chunks();
            crate::chunk_store::lemma_chunks_bytes_congruent(marked, olds);
            assert(news == marked.filter(pred));
            assert(crate::chunk_store::spec_unique(marked));
            assert(forall|d: Seq<u8>| spec_has(marked, d) == spec_has(olds, d));
            assert(forall|d: Seq<u8>|
                spec_has(olds, d) ==> spec_file(marked, d).ctime == spec_file(olds, d).ctime
                    && spec_file(marked, d).data == spec_file(olds, d).data);
            assert(forall|d: Seq<u8>|
                spec_has(olds, d) ==> spec_file(marked, d).atime == (if spec_referenced(
                    old(self).spec_images(),
                    d,
                ) {
                    now
                } else {
                    (spec_file(olds, d).atime)
                }));
            assert forall|d: Seq<u8>| spec_has(olds, d) implies (spec_has(news, d) <==> !((
            if spec_referenced(old(self).spec_images(), d) {
                now
            } else {
                (spec_file(olds, d).atime)
            }) < cutoff && spec_file(olds, d).ctime < oldest_writer)) by {
                lemma_filter_has(marked, pred, d);
                assert(spec_has(marked, d));
                assert(pred(marked[crate::chunk_store::spec_idx_of(marked, d)])
                    == spec_sweep_keep(spec_file(marked, d), cutoff, oldest_writer));
            }
            assert forall|d: Seq<u8>| spec_has(news, d) implies spec_has(olds, d) && spec_file(
                news,
                d,
            ).data == spec_file(olds, d).data by {
                lemma_filter_has(marked, pred, d);
            }
            assert forall|d: Seq<u8>|
                spec_referenced(old(self).spec_images(), d) implies spec_has(news, d) by {
                assert(spec_has(olds, d));
                assert(spec_file(marked, d).atime == now);
                lemma_filter_has(marked, pred, d);
            }
        }
        Ok(())
    }

}

/// The start time of the oldest writer bounds every writer record from
/// below.
pub proof fn lemma_oldest_writer_min(ws: Seq<i64>, now: i64, w: i64)
    requires
        ws.contains(w),
    ensures
        spec_oldest_writer(ws, now) <= w,
    decreases ws.len(),
{
    if ws.len() > 0 {
        if ws.last() == w {
        } else {
            let i = choose|i: int| 0 <= i < ws.len() && ws[i] == w;
            assert(ws.drop_last()[i] == w);
            assert(ws.drop_last().contains(w));
            lemma_oldest_writer_min(ws.drop_last(), now, w);
        }
    }
}

/// Safety under a live writer: a chunk created at or after the start of
/// any live writer is kept by the sweep, whatever its access time.  So a
/// writer that inserts a chunk and only later links it into an index never
/// loses it to a collection that runs in between, as long as its writer
/// record predates the insertion.
pub proof fn lemma_gc_writer_safety(
    writers: Seq<i64>,
    now: i64,
    w: i64,
    f: crate::chunk_store::ChunkFile,
    cutoff: i64,
)
    requires
        writers.contains(w),
        w <= f.ctime,
    ensures
        spec_sweep_keep(f, cutoff, spec_oldest_writer(writers, now)),
{
    lemma_oldest_writer_min(writers, now, w);
}

} // verus!
