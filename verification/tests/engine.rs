use proxmox_backup::backup_writer::{
    ChunkUploadState, KnownChunks, MergedChunkInfo, merge_known_chunks,
};
use proxmox_backup::blob::DataBlob;
use proxmox_backup::crypt::compute_chunk_digest;
use proxmox_backup::datastore::{
    ArchiveIndex, BackupDir, BackupGroup, BackupType, CHUNK_MAX_AGE, DataStore, archive_type,
    chunk_path, open_index, ArchiveType,
};
use proxmox_backup::index::DynamicIndexWriter;
use proxmox_backup::read_chunk::{ChunkReadError, LocalChunkReader, ReadChunk};
use proxmox_backup::pull::{
    PullError, pull_group, pull_index_chunks, pull_snapshot_from, pull_store, sort_group_list,
    sort_snapshot_times,
};

/// Build a dynamic index over the given chunks and the matching blobs.
fn make_index(chunks: &[&[u8]]) -> (ArchiveIndex, Vec<([u8; 32], DataBlob)>) {
    let mut writer = DynamicIndexWriter::create();
    let mut end = 0u64;
    let mut blobs = Vec::new();
    for chunk in chunks {
        end += chunk.len() as u64;
        let digest = compute_chunk_digest(None, chunk);
        writer.add_chunk(end, &digest).unwrap();
        blobs.push((digest, DataBlob::encode(chunk, None, true).unwrap()));
    }
    let bytes = writer.serialize(&[1u8; 16], 1);
    (ArchiveIndex::open(&bytes).unwrap(), blobs)
}

fn snapshot(ty: BackupType, id: &str, time: i64) -> BackupDir {
    BackupDir::new(ty, id, time).unwrap()
}

/// Store a snapshot: its chunks, its directory, and its index.
fn store_snapshot(store: &mut DataStore, dir: &BackupDir, chunks: &[&[u8]], now: i64) {
    let (index, blobs) = make_index(chunks);
    for (digest, blob) in &blobs {
        store.insert_chunk(blob, digest, now);
    }
    store.create_backup_dir(dir);
    store.add_index(dir.duplicate(), index);
}

#[test]
fn gc_keeps_referenced_and_removes_garbage() {
    let mut store = DataStore::create();
    let t0 = 1_000_000i64;
    let dir = snapshot(BackupType::Host, "pc1", t0);
    store_snapshot(&mut store, &dir, &[b"one", b"two"], t0);

    // an unreferenced chunk, old enough to be swept
    let stray = DataBlob::encode(b"stray", None, false).unwrap();
    let stray_digest = compute_chunk_digest(None, b"stray");
    store.insert_chunk(&stray, &stray_digest, t0);

    let now = t0 + CHUNK_MAX_AGE + 10;
    store.garbage_collection(now).unwrap();

    assert!(store.has_chunk(&compute_chunk_digest(None, b"one")));
    assert!(store.has_chunk(&compute_chunk_digest(None, b"two")));
    assert!(!store.has_chunk(&stray_digest));
    let status = store.last_gc_status();
    assert_eq!(status.removed_chunks, 1);
    assert_eq!(status.disk_chunks, 2);
    assert_eq!(status.index_file_count, 1);
}

#[test]
fn gc_safe_under_live_writer() {
    let mut store = DataStore::create();
    let t0 = 1_000_000i64;
    let dir = snapshot(BackupType::Vm, "100", t0);
    store_snapshot(&mut store, &dir, &[b"base"], t0);

    // a writer session starts, inserts a chunk, but has not linked it yet
    let writer_start = t0 + CHUNK_MAX_AGE + 5;
    store.add_writer(writer_start);
    let pending = DataBlob::encode(b"pending", None, false).unwrap();
    let pending_digest = compute_chunk_digest(None, b"pending");
    store.insert_chunk(&pending, &pending_digest, writer_start + 1);

    let now = writer_start + 10;
    store.garbage_collection(now).unwrap();

    // the old snapshot's chunk was marked, the writer's chunk is too young
    assert!(store.has_chunk(&compute_chunk_digest(None, b"base")));
    assert!(store.has_chunk(&pending_digest));

    // the writer finishes: its index appears, its record goes away
    let (index, _) = make_index(&[b"pending"]);
    let writer_dir = snapshot(BackupType::Vm, "100", writer_start);
    store.create_backup_dir(&writer_dir);
    store.add_index(writer_dir.duplicate(), index);
    store.clear_writers();

    store.garbage_collection(now + 1).unwrap();
    assert!(store.has_chunk(&compute_chunk_digest(None, b"base")));
    assert!(store.has_chunk(&pending_digest));
}

#[test]
fn gc_after_snapshot_removal() {
    let mut store = DataStore::create();
    let t0 = 50_000i64;
    let dir_x = snapshot(BackupType::Host, "x", t0);
    let dir_y = snapshot(BackupType::Host, "y", t0);
    store_snapshot(&mut store, &dir_x, &[b"shared", b"only-x"], t0);
    store_snapshot(&mut store, &dir_y, &[b"shared", b"only-y"], t0);

    store.remove_backup_dir(&dir_x);

    let now = t0 + CHUNK_MAX_AGE + 100;
    store.garbage_collection(now).unwrap();

    assert!(store.has_chunk(&compute_chunk_digest(None, b"shared")));
    assert!(store.has_chunk(&compute_chunk_digest(None, b"only-y")));
    assert!(!store.has_chunk(&compute_chunk_digest(None, b"only-x")));
}

#[test]
fn gc_mark_does_not_read_chunk_contents() {
    // a corrupt stored chunk is still touched by the mark phase and kept
    let mut store = DataStore::create();
    let t0 = 9_000i64;

    let blob = DataBlob::encode(b"will corrupt", None, false).unwrap();
    let digest = compute_chunk_digest(None, b"will corrupt");
    let mut raw = blob.into_inner();
    let last = raw.len() - 1;
    raw[last] ^= 0xFF;
    let corrupt = DataBlob::from_raw(raw).unwrap();
    assert!(corrupt.verify_crc().is_err());

    let mut writer = DynamicIndexWriter::create();
    writer.add_chunk(12, &digest).unwrap();
    let bytes = writer.serialize(&[2u8; 16], 5);
    let index = ArchiveIndex::open(&bytes).unwrap();

    let dir = snapshot(BackupType::Ct, "7", t0);
    store.insert_chunk(&corrupt, &digest, t0);
    store.create_backup_dir(&dir);
    store.add_index(dir.duplicate(), index);

    store.garbage_collection(t0 + CHUNK_MAX_AGE + 1).unwrap();
    assert!(store.has_chunk(&digest));
}

#[test]
fn gc_fails_when_referenced_chunk_missing() {
    let mut store = DataStore::create();
    let (index, _) = make_index(&[b"never inserted"]);
    let dir = snapshot(BackupType::Host, "gone", 1);
    store.create_backup_dir(&dir);
    store.add_index(dir.duplicate(), index);
    assert!(store.garbage_collection(10).is_err());
}

#[test]
fn gc_refused_under_shared_lock() {
    let mut store = DataStore::create();
    store.try_shared_chunk_store_lock().unwrap();
    assert!(store.garbage_collection(100).is_err());
    store.release_shared_chunk_store_lock();
    assert!(store.garbage_collection(100).is_ok());
}

#[test]
fn pull_transfers_only_missing_chunks() {
    let mut source = DataStore::create();
    let t0 = 2_000i64;
    let dir = snapshot(BackupType::Host, "pc", t0);
    store_snapshot(&mut source, &dir, &[b"alpha", b"beta", b"gamma"], t0);

    let mut target = DataStore::create();
    let (index, _) = make_index(&[b"alpha", b"beta", b"gamma"]);

    let first = pull_index_chunks(&source, &mut target, &index, t0 + 1).unwrap();
    assert_eq!(first, 3);

    // the second run transfers nothing
    let second = pull_index_chunks(&source, &mut target, &index, t0 + 2).unwrap();
    assert_eq!(second, 0);
}

#[test]
fn pull_snapshot_copies_archives() {
    let mut source = DataStore::create();
    let t0 = 3_000i64;
    let dir = snapshot(BackupType::Vm, "200", t0);
    store_snapshot(&mut source, &dir, &[b"disk chunk"], t0);

    let mut target = DataStore::create();
    let transferred = pull_snapshot_from(&source, &mut target, &dir, t0 + 5).unwrap();
    assert_eq!(transferred, 1);
    assert!(target.has_chunk(&compute_chunk_digest(None, b"disk chunk")));
    assert_eq!(target.image_count(), 1);
    assert_eq!(target.snapshot_count(), 1);
}

#[test]
fn pull_missing_source_chunk_fails() {
    let mut source = DataStore::create();
    let (index, _) = make_index(&[b"phantom"]);
    let dir = snapshot(BackupType::Host, "h", 10);
    source.create_backup_dir(&dir);
    source.add_index(dir.duplicate(), index);

    let mut target = DataStore::create();
    let res = pull_snapshot_from(&source, &mut target, &dir, 11);
    assert_eq!(res.unwrap_err(), PullError::ChunkMissing);
}

#[test]
fn pull_group_skips_old_snapshots_and_deletes_vanished() {
    let mut source = DataStore::create();
    let group = BackupGroup::new(BackupType::Host, "box");
    let t_new = 10_000i64;
    let dir_new = snapshot(BackupType::Host, "box", t_new);
    store_snapshot(&mut source, &dir_new, &[b"new data"], t_new);

    let mut target = DataStore::create();
    // the target has an older snapshot the source no longer offers
    let dir_old = snapshot(BackupType::Host, "box", 5_000);
    target.create_backup_dir(&dir_old);

    pull_group(&source, &mut target, &group, true, t_new + 1).unwrap();
    assert!(target.has_chunk(&compute_chunk_digest(None, b"new data")));
    // the vanished old snapshot was deleted
    assert_eq!(target.snapshot_count(), 1);
    assert_eq!(target.snapshot_at(0).backup_time(), t_new);
}

#[test]
fn pull_store_delete_empties_on_empty_remote() {
    let mut source = DataStore::create();
    let mut target = DataStore::create();
    let dir_a = snapshot(BackupType::Host, "a", 100);
    let dir_b = snapshot(BackupType::Vm, "b", 200);
    store_snapshot(&mut target, &dir_a, &[b"aa"], 100);
    store_snapshot(&mut target, &dir_b, &[b"bb"], 200);

    // without delete, nothing changes
    let owners = Vec::new();
    pull_store(&source, &mut target, Vec::new(), &owners, "root", false, 300).unwrap();
    assert_eq!(target.snapshot_count(), 2);

    // with delete, every local snapshot and group goes away
    pull_store(&source, &mut target, Vec::new(), &owners, "root", true, 301).unwrap();
    assert_eq!(target.snapshot_count(), 0);
}

#[test]
fn pull_store_owner_mismatch_is_soft_failure() {
    let mut source = DataStore::create();
    let t0 = 400i64;
    let dir_mine = snapshot(BackupType::Host, "mine", t0);
    let dir_other = snapshot(BackupType::Host, "theirs", t0);
    store_snapshot(&mut source, &dir_mine, &[b"mine data"], t0);
    store_snapshot(&mut source, &dir_other, &[b"their data"], t0);

    let mut target = DataStore::create();
    let owners = vec![(BackupGroup::new(BackupType::Host, "theirs"), "someone".to_string())];
    let list = vec![
        BackupGroup::new(BackupType::Host, "mine"),
        BackupGroup::new(BackupType::Host, "theirs"),
    ];

    let res = pull_store(&source, &mut target, list, &owners, "root", false, t0 + 1);
    assert_eq!(res.unwrap_err(), PullError::GroupFailures);
    // the owned group was skipped, the other synced
    assert!(target.has_chunk(&compute_chunk_digest(None, b"mine data")));
    assert!(!target.has_chunk(&compute_chunk_digest(None, b"their data")));
}

#[test]
fn sorting_orders_groups_and_times() {
    let groups = vec![
        BackupGroup::new(BackupType::Vm, "2"),
        BackupGroup::new(BackupType::Ct, "9"),
        BackupGroup::new(BackupType::Host, "alpha"),
        BackupGroup::new(BackupType::Host, "aardvark"),
    ];
    let sorted = sort_group_list(groups);
    assert_eq!(sorted[0].backup_type(), BackupType::Ct);
    assert_eq!(sorted[1].backup_id(), "aardvark");
    assert_eq!(sorted[2].backup_id(), "alpha");
    assert_eq!(sorted[3].backup_type(), BackupType::Vm);

    let times = sort_snapshot_times(vec![30, 10, 20, 10]);
    assert_eq!(times, vec![10, 10, 20, 30]);
}

#[test]
fn known_chunk_dedup_uploads_nothing() {
    // an archive identical to the previous snapshot: every digest is known
    let chunks: Vec<&[u8]> = vec![b"c1", b"c2", b"c3", b"c1"];
    let mut known = KnownChunks::new();
    for chunk in &chunks {
        known.insert(&compute_chunk_digest(None, chunk));
    }

    let mut upload = ChunkUploadState::new(known, false);
    let mut items = Vec::new();
    for chunk in &chunks {
        items.push(upload.process_chunk(chunk, None, true).unwrap());
    }
    let new_count = items
        .iter()
        .filter(|i| matches!(i, MergedChunkInfo::New(_)))
        .count();
    assert_eq!(new_count, 0);

    // the merge stage coalesces the whole run into one registration
    let merged = merge_known_chunks(items);
    assert_eq!(merged.len(), 1);
    match &merged[0] {
        MergedChunkInfo::Known(pairs) => assert_eq!(pairs.len(), 4),
        MergedChunkInfo::New(_) => panic!("unexpected upload"),
    }
}

#[test]
fn upload_state_matches_server_index_csum() {
    let chunks: Vec<&[u8]> = vec![b"first chunk", b"second chunk", b"third"];

    // client side: stream the chunks through the upload pipeline
    let mut upload = ChunkUploadState::new(KnownChunks::new(), false);
    let mut new_count = 0usize;
    for chunk in &chunks {
        match upload.process_chunk(chunk, None, true).unwrap() {
            MergedChunkInfo::New(info) => {
                // a new chunk's frame decodes back to its plaintext
                assert_eq!(info.chunk.decode(None).unwrap(), chunk.to_vec());
                new_count += 1;
            }
            MergedChunkInfo::Known(_) => {}
        }
    }
    assert_eq!(new_count, 3);
    let stats = upload.finish();

    // server side: the dynamic index writer folds the same entries
    let mut writer = DynamicIndexWriter::create();
    let mut end = 0u64;
    for chunk in &chunks {
        end += chunk.len() as u64;
        writer.add_chunk(end, &compute_chunk_digest(None, chunk)).unwrap();
    }
    let (server_csum, server_size) = writer.finish();
    assert_eq!(stats.csum, server_csum);
    assert_eq!(stats.size, server_size);
    assert_eq!(upload.chunk_count(), 3);
}

#[test]
fn repeated_chunk_within_stream_is_deduplicated() {
    let mut upload = ChunkUploadState::new(KnownChunks::new(), true);
    let first = upload.process_chunk(b"same", None, false).unwrap();
    let second = upload.process_chunk(b"same", None, false).unwrap();
    assert!(matches!(first, MergedChunkInfo::New(_)));
    assert!(matches!(second, MergedChunkInfo::Known(_)));
}

#[test]
fn archive_names_classify_by_suffix() {
    assert_eq!(archive_type("disk.didx").unwrap(), ArchiveType::DynamicIndex);
    assert_eq!(archive_type("disk.fidx").unwrap(), ArchiveType::FixedIndex);
    assert_eq!(archive_type("index.json.blob").unwrap(), ArchiveType::Blob);
    assert!(archive_type("notes.txt").is_err());
}

#[test]
fn chunk_paths_are_sharded_by_digest() {
    let mut digest = [0u8; 32];
    digest[0] = 0x0A;
    digest[1] = 0x1B;
    let (path, hex) = chunk_path(&digest);
    assert_eq!(hex.len(), 64);
    assert!(hex.starts_with("0a1b"));
    assert_eq!(path, format!(".chunks/0a1b/{}", hex));
}

#[test]
fn snapshot_paths_use_rfc3339_time() {
    let dir = snapshot(BackupType::Host, "pc1", 0);
    assert_eq!(dir.relative_path(), "host/pc1/1970-01-01T00:00:00Z");
    let dir = snapshot(BackupType::Vm, "100", 1700000000);
    assert_eq!(dir.relative_path(), "vm/100/2023-11-14T22:13:20Z");
}

#[test]
fn local_chunk_reader_round_trip() {
    let mut store = DataStore::create();
    let blob = DataBlob::encode(b"restore me", None, true).unwrap();
    let digest = compute_chunk_digest(None, b"restore me");
    store.insert_chunk(&blob, &digest, 1);

    let mut reader = LocalChunkReader::new(&store, None);
    let raw = reader.read_raw_chunk(&digest).unwrap();
    assert_eq!(raw.raw_data(), blob.raw_data());
    assert_eq!(reader.read_chunk(&digest).unwrap(), b"restore me");

    let missing = [0u8; 32];
    assert!(matches!(
        reader.read_raw_chunk(&missing),
        Err(ChunkReadError::NotFound)
    ));
}

#[test]
fn open_index_dispatches_by_name() {
    let mut writer = DynamicIndexWriter::create();
    writer.add_chunk(8, &[4u8; 32]).unwrap();
    let bytes = writer.serialize(&[0u8; 16], 0);
    let index = open_index("root.didx", &bytes).unwrap();
    assert_eq!(index.index_count(), 1);
    // the name announces the wrong shape: the magic does not match
    assert!(open_index("root.fidx", &bytes).is_err());
    assert!(open_index("root.blob", &bytes).is_err());
}

#[test]
fn pull_skips_snapshot_with_matching_manifest() {
    let mut source = DataStore::create();
    let t0 = 7_000i64;
    let dir = snapshot(BackupType::Host, "mf", t0);
    store_snapshot(&mut source, &dir, &[b"payload"], t0);
    let manifest = DataBlob::encode(b"manifest json body", None, false)
        .unwrap()
        .into_inner();
    source.set_manifest(dir.duplicate(), manifest.clone());

    // first pull transfers and mirrors the manifest
    let mut target = DataStore::create();
    let first = pull_snapshot_from(&source, &mut target, &dir, t0 + 1).unwrap();
    assert_eq!(first, 1);
    assert_eq!(target.manifest_bytes(&dir), Some(manifest));

    // the second pull sees a byte-equal manifest and moves nothing
    let before_images = target.image_count();
    let second = pull_snapshot_from(&source, &mut target, &dir, t0 + 2).unwrap();
    assert_eq!(second, 0);
    assert_eq!(target.image_count(), before_images);
}

#[test]
fn failed_pull_rolls_back_new_snapshot_dir() {
    let mut source = DataStore::create();
    let (index, _) = make_index(&[b"unavailable"]);
    let dir = snapshot(BackupType::Host, "rb", 42);
    source.create_backup_dir(&dir);
    source.add_index(dir.duplicate(), index);

    let mut target = DataStore::create();
    assert!(pull_snapshot_from(&source, &mut target, &dir, 43).is_err());
    // the snapshot directory created for the failed pull is gone again
    assert_eq!(target.snapshot_count(), 0);
    assert_eq!(target.image_count(), 0);
}

#[test]
fn merge_leaves_no_adjacent_registrations() {
    let mut upload = ChunkUploadState::new(KnownChunks::new(), false);
    let mut items = Vec::new();
    for chunk in [b"x1".as_slice(), b"x1", b"x2", b"x2", b"x2", b"x3"] {
        items.push(upload.process_chunk(chunk, None, false).unwrap());
    }
    let merged = merge_known_chunks(items);
    for pair in merged.windows(2) {
        assert!(!(
            matches!(pair[0], MergedChunkInfo::Known(_))
                && matches!(pair[1], MergedChunkInfo::Known(_))
        ));
    }
}

#[test]
fn pull_store_empty_listing_succeeds() {
    let source = DataStore::create();
    let mut target = DataStore::create();
    let owners = Vec::new();
    assert!(pull_store(&source, &mut target, Vec::new(), &owners, "root", false, 1).is_ok());
}

#[test]
fn corrupt_source_manifest_stops_the_pull() {
    let mut source = DataStore::create();
    let t0 = 9_000i64;
    let dir = snapshot(BackupType::Host, "cm", t0);
    store_snapshot(&mut source, &dir, &[b"payload"], t0);
    // not a valid blob frame: the pull must refuse it before comparing
    source.set_manifest(dir.duplicate(), b"junk".to_vec());

    let mut target = DataStore::create();
    let res = pull_snapshot_from(&source, &mut target, &dir, t0 + 1);
    assert_eq!(res.unwrap_err(), PullError::ManifestCorrupt);
    // the rollback left no trace of the refused snapshot
    assert_eq!(target.snapshot_count(), 0);

    // a whole-store pull reports the group as failed
    let groups = vec![BackupGroup::new(BackupType::Host, "cm")];
    let owners: Vec<(BackupGroup, String)> = Vec::new();
    let res = pull_store(&source, &mut target, groups, &owners, "root", false, t0 + 2);
    assert_eq!(res.unwrap_err(), PullError::GroupFailures);
}

#[test]
fn second_pull_of_a_mirrored_store_is_a_no_op() {
    let mut source = DataStore::create();
    let t0 = 11_000i64;
    let dir = snapshot(BackupType::Vm, "idem", t0);
    store_snapshot(&mut source, &dir, &[b"disk a", b"disk b"], t0);
    let manifest = DataBlob::encode(b"{\"files\":[]}", None, false)
        .unwrap()
        .into_inner();
    source.set_manifest(dir.duplicate(), manifest);

    let groups = vec![BackupGroup::new(BackupType::Vm, "idem")];
    let owners: Vec<(BackupGroup, String)> = Vec::new();
    let mut target = DataStore::create();
    let first = pull_store(
        &source,
        &mut target,
        groups.clone(),
        &owners,
        "root",
        true,
        t0 + 1,
    )
    .unwrap();
    assert_eq!(first, 2);

    // the mirror is complete: running the same sync again moves nothing
    let chunks_before = target.chunk_digests().len();
    let snaps_before = target.snapshot_count();
    let second = pull_store(&source, &mut target, groups, &owners, "root", true, t0 + 2).unwrap();
    assert_eq!(second, 0);
    assert_eq!(target.chunk_digests().len(), chunks_before);
    assert_eq!(target.snapshot_count(), snaps_before);
}

#[test]
fn snapshot_times_before_the_epoch_are_ordinary() {
    // seconds before 1970 are valid snapshot times down to year 0
    let old = BackupDir::new(BackupType::Host, "ancient", -1).unwrap();
    assert_eq!(old.backup_time(), -1);
    assert!(BackupDir::new(BackupType::Host, "ancient", -62_167_219_200).is_ok());
    assert!(BackupDir::new(BackupType::Host, "ancient", -62_167_219_201).is_err());
}
