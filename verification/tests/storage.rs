use proxmox_backup::blob::{BlobError, DataBlob, crc32, magic_compressed, verify_chunk_digest};
use proxmox_backup::manifest::BackupManifest;
use proxmox_backup::bytes_to_hex_string;
use proxmox_backup::chunk_store::ChunkStore;
use proxmox_backup::chunker::Chunker;
use proxmox_backup::crypt::{CryptConfig, compute_chunk_digest, sha256};
use proxmox_backup::index::{
    DynamicIndexWriter, DynamicIndexReader, FixedIndexWriter, FixedIndexReader, IndexError,
    dynamic_archive_up_to_date,
};

fn test_key() -> [u8; 32] {
    let mut key = [0u8; 32];
    for (i, b) in key.iter_mut().enumerate() {
        *b = (i as u8).wrapping_mul(7).wrapping_add(3);
    }
    key
}

fn pseudo_random(len: usize, seed: u64) -> Vec<u8> {
    let mut state = seed;
    let mut out = Vec::with_capacity(len);
    for _ in 0..len {
        state = state.wrapping_mul(6364136223846793005).wrapping_add(1442695040888963407);
        out.push((state >> 33) as u8);
    }
    out
}

#[test]
fn sha256_known_vector() {
    let digest = sha256(b"abc");
    assert_eq!(
        bytes_to_hex_string(&digest),
        "ba7816bf8f01cfea414140de5dae2223b00361a396177a9cb410ff61f20015ad"
    );
}

#[test]
fn crc32c_known_vector() {
    assert_eq!(crc32(b"123456789"), 0xE3069283);
}

#[test]
fn chunk_identity_is_deterministic() {
    let config = CryptConfig::new(test_key());
    let plain = b"the quick brown fox jumps over the lazy dog";

    let keyed_a = compute_chunk_digest(Some(&config), plain);
    let keyed_b = compute_chunk_digest(Some(&config), plain);
    assert_eq!(keyed_a, keyed_b);

    let unkeyed_a = compute_chunk_digest(None, plain);
    let unkeyed_b = compute_chunk_digest(None, plain);
    assert_eq!(unkeyed_a, unkeyed_b);

    // keyed and unkeyed digests of the same plaintext differ
    assert_ne!(keyed_a, unkeyed_a);

    // two different keys give different digests
    let mut other_key = test_key();
    other_key[0] ^= 0xFF;
    let other = CryptConfig::new(other_key);
    assert_ne!(compute_chunk_digest(Some(&other), plain), keyed_a);
}

#[test]
fn blob_round_trip_all_variants() {
    let config = CryptConfig::new(test_key());
    let mut plain = Vec::new();
    for i in 0..4096u32 {
        plain.push((i % 251) as u8);
        plain.push(0);
        plain.push(0);
    }

    for (key, compress) in [
        (None, false),
        (None, true),
        (Some(&config), false),
        (Some(&config), true),
    ] {
        let blob = DataBlob::encode(&plain, key, compress).unwrap();
        let decoded = blob.decode(key).unwrap();
        assert_eq!(decoded, plain);
    }
}

#[test]
fn blob_compression_shrinks_repetitive_data() {
    let plain = vec![7u8; 65536];
    let blob = DataBlob::encode(&plain, None, true).unwrap();
    assert!(blob.raw_len() < plain.len());
    assert_eq!(blob.decode(None).unwrap(), plain);
}

#[test]
fn blob_decode_without_key_fails() {
    let config = CryptConfig::new(test_key());
    let blob = DataBlob::encode(b"secret", Some(&config), false).unwrap();
    assert_eq!(blob.decode(None).unwrap_err(), BlobError::Crypt);
}

#[test]
fn blob_decode_with_wrong_key_fails() {
    let config = CryptConfig::new(test_key());
    let mut other_key = test_key();
    other_key[31] ^= 1;
    let other = CryptConfig::new(other_key);
    let blob = DataBlob::encode(b"secret", Some(&config), false).unwrap();
    assert_eq!(blob.decode(Some(&other)).unwrap_err(), BlobError::Crypt);
}

#[test]
fn blob_corruption_is_detected() {
    // flip one byte in a stored frame: the CRC probe and decoding fail
    let blob = DataBlob::encode(b"some chunk data", None, false).unwrap();
    let mut raw = blob.into_inner();
    let last = raw.len() - 1;
    raw[last] ^= 0x01;
    let corrupt = DataBlob::from_raw(raw).unwrap();
    assert!(corrupt.verify_crc().is_err());
    assert_eq!(corrupt.decode(None).unwrap_err(), BlobError::Checksum);
}

#[test]
fn blob_from_raw_rejects_garbage() {
    assert!(DataBlob::from_raw(vec![1, 2, 3]).is_err());
    assert!(DataBlob::from_raw(vec![0u8; 64]).is_err());
}

#[test]
fn blob_decompress_error_on_bad_body() {
    // a frame with the compressed magic, a valid CRC, and a body that no
    // compression produced
    let mut raw = Vec::new();
    raw.extend_from_slice(&magic_compressed());
    let body = [0xAAu8, 0xBB, 0xCC, 0xDD];
    let crc = crc32(&body);
    raw.extend_from_slice(&crc.to_le_bytes());
    raw.extend_from_slice(&body);
    let blob = DataBlob::from_raw(raw).unwrap();
    assert!(blob.verify_crc().is_ok());
    assert_eq!(blob.decode(None).unwrap_err(), BlobError::Decompress);
}

#[test]
fn insert_chunk_is_idempotent() {
    let mut store = ChunkStore::create();
    let blob = DataBlob::encode(b"chunk payload", None, false).unwrap();
    let digest = compute_chunk_digest(None, b"chunk payload");

    let (existed_first, len_first) = store.insert_chunk(&blob, &digest, 1000);
    let (existed_second, len_second) = store.insert_chunk(&blob, &digest, 2000);

    // exactly one insertion reports a new chunk; the stored bytes are the frame
    assert!(!existed_first);
    assert!(existed_second);
    assert_eq!(len_first, len_second);
    assert_eq!(store.chunk_count(), 1);
    assert_eq!(store.read_chunk_data(&digest).unwrap(), blob.raw_data());
}

#[test]
fn touch_missing_chunk_fails() {
    let mut store = ChunkStore::create();
    let digest = [0u8; 32];
    assert!(store.touch_chunk(&digest, 1000).is_err());
    assert_eq!(store.cond_touch_chunk(&digest, false, 1000), Ok(false));
    assert!(store.cond_touch_chunk(&digest, true, 1000).is_err());
}

#[test]
fn store_lock_discipline() {
    let mut store = ChunkStore::create();
    assert!(store.try_shared_lock().is_ok());
    assert!(store.try_exclusive_lock().is_err());
    store.release_shared_lock();
    assert!(store.try_exclusive_lock().is_ok());
    assert!(store.try_shared_lock().is_err());
    store.release_exclusive_lock();
    assert!(store.try_shared_lock().is_ok());
}

#[test]
fn dynamic_index_csum_round_trip() {
    let mut writer = DynamicIndexWriter::create();
    let mut end = 0u64;
    for i in 0..20u8 {
        end += 1000 + i as u64;
        let digest = compute_chunk_digest(None, &[i, i, i]);
        writer.add_chunk(end, &digest).unwrap();
    }
    let (written_csum, written_size) = writer.finish();

    let uuid = [9u8; 16];
    let bytes = writer.serialize(&uuid, 123456);
    let reader = DynamicIndexReader::parse(&bytes).unwrap();
    let (read_csum, read_size) = reader.compute_csum();

    assert_eq!(read_csum, written_csum);
    assert_eq!(read_size, written_size);
    assert_eq!(reader.index_count(), 20);
}

#[test]
fn dynamic_index_rejects_unordered_offsets() {
    let mut writer = DynamicIndexWriter::create();
    let digest = [1u8; 32];
    writer.add_chunk(100, &digest).unwrap();
    assert_eq!(writer.add_chunk(100, &digest), Err(IndexError::Order));
    assert_eq!(writer.add_chunk(50, &digest), Err(IndexError::Order));
    assert!(writer.add_chunk(101, &digest).is_ok());
}

#[test]
fn dynamic_index_parse_rejects_bad_bytes() {
    assert!(DynamicIndexReader::parse(&[0u8; 16]).is_err());
    let mut bytes = DynamicIndexWriter::create().serialize(&[0u8; 16], 0);
    bytes.push(0);
    assert!(DynamicIndexReader::parse(&bytes).is_err());
}

#[test]
fn fixed_index_zero_archive() {
    // a 16 MiB zero-filled archive with 4 MiB chunks: four entries, one
    // unique chunk, and the checksum folds the same digest four times
    let chunk_size: usize = 4 * 1024 * 1024;
    let chunk = vec![0u8; chunk_size];
    let digest = compute_chunk_digest(None, &chunk);

    let mut writer = FixedIndexWriter::create(16777216, chunk_size as u64).unwrap();
    for _ in 0..4 {
        writer.add_digest(&digest).unwrap();
    }
    // the index is full now
    assert_eq!(writer.add_digest(&digest), Err(IndexError::Full));

    let (csum, size) = writer.finish();
    assert_eq!(size, 16777216);
    assert_eq!(writer.chunk_count(), 4);

    let mut folded = Vec::new();
    for _ in 0..4 {
        folded.extend_from_slice(&digest);
    }
    assert_eq!(csum, sha256(&folded));

    // on disk the four entries point at a single stored chunk
    let mut store = ChunkStore::create();
    let blob = DataBlob::encode(&chunk, None, true).unwrap();
    for _ in 0..4 {
        store.insert_chunk(&blob, &digest, 1);
    }
    assert_eq!(store.chunk_count(), 1);

    let bytes = writer.serialize(&[3u8; 16], 77);
    let reader = FixedIndexReader::parse(&bytes).unwrap();
    let (read_csum, read_size) = reader.compute_csum();
    assert_eq!(read_csum, csum);
    assert_eq!(read_size, 16777216);
}

#[test]
fn chunker_is_deterministic_and_bounded() {
    let chunker = Chunker::new(4096).unwrap();
    let data = pseudo_random(256 * 1024, 42);
    let cuts_a = chunker.boundaries(&data);
    let cuts_b = chunker.boundaries(&data);
    assert_eq!(cuts_a, cuts_b);
    assert!(!cuts_a.is_empty());
    assert_eq!(*cuts_a.last().unwrap(), data.len());
    let mut prev = 0usize;
    for (i, &cut) in cuts_a.iter().enumerate() {
        let len = cut - prev;
        assert!(len <= 4 * 4096);
        if i + 1 < cuts_a.len() {
            assert!(len >= 1024);
        }
        prev = cut;
    }
}

#[test]
fn chunker_shares_chunks_after_prefix_change() {
    // a 10 MiB stream and the same stream with one byte prepended share
    // all chunks after the first cut past the divergence
    let target = 1024 * 1024;
    let chunker = Chunker::new(target).unwrap();
    let data = pseudo_random(10 * 1024 * 1024, 7);
    let mut shifted = Vec::with_capacity(data.len() + 1);
    shifted.push(0x55);
    shifted.extend_from_slice(&data);

    let digests_of = |buf: &[u8]| {
        let mut prev = 0usize;
        let mut digests = Vec::new();
        for &cut in chunker.boundaries(buf).iter() {
            digests.push(compute_chunk_digest(None, &buf[prev..cut]));
            prev = cut;
        }
        digests
    };

    let original = digests_of(&data);
    let prepended = digests_of(&shifted);

    let shared = original
        .iter()
        .filter(|d| prepended.contains(d))
        .count();
    assert!(shared >= 2, "only {} chunks shared", shared);
}

#[test]
fn stored_chunk_content_hashes_to_its_name() {
    let blob = DataBlob::encode(b"named by digest", None, true).unwrap();
    let digest = compute_chunk_digest(None, b"named by digest");
    assert!(verify_chunk_digest(&blob, None, &digest).is_ok());

    let other = compute_chunk_digest(None, b"some other content");
    assert_eq!(
        verify_chunk_digest(&blob, None, &other).unwrap_err(),
        BlobError::Checksum
    );
}

#[test]
fn encode_falls_back_when_compression_does_not_pay() {
    // high-entropy data compresses to more than ninety-five hundredths of
    // its size, so the frame stays uncompressed and round-trips
    let noisy = pseudo_random(4096, 99);
    let blob = DataBlob::encode(&noisy, None, true).unwrap();
    assert!(blob.raw_len() >= noisy.len());
    assert_eq!(blob.decode(None).unwrap(), noisy);
}

#[test]
fn archive_skip_decision_follows_the_manifest() {
    let mut writer = DynamicIndexWriter::create();
    let digest = compute_chunk_digest(None, b"archive body");
    writer.add_chunk(12, &digest).unwrap();
    let bytes = writer.serialize(&[7u8; 16], 3);
    let reader = DynamicIndexReader::parse(&bytes).unwrap();
    let (csum, size) = reader.compute_csum();

    let mut manifest = BackupManifest::new();
    manifest.add_file("root.didx".to_owned(), size, csum);

    // listed with the matching checksum: the archive may be skipped
    assert!(dynamic_archive_up_to_date(&manifest, "root.didx", &reader));
    // an unknown name or a changed checksum forces a re-pull
    assert!(!dynamic_archive_up_to_date(&manifest, "other.didx", &reader));
    let mut wrong = BackupManifest::new();
    let mut bad = csum;
    bad[0] ^= 1;
    wrong.add_file("root.didx".to_owned(), size, bad);
    assert!(!dynamic_archive_up_to_date(&wrong, "root.didx", &reader));
}
