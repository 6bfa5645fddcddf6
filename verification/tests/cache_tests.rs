use typst_bake::cache::{compress_decompress_round_trip, CompressionCache};

#[test]
fn compress_is_deterministic() {
    // Identical bytes at the same level give the same digest and the same
    // compressed length; the second call is a dedup hit.
    let mut cache = CompressionCache::new(None, 19);
    let data = b"deterministic content".to_vec();
    let first = cache.compress(&data);
    let second = cache.compress(&data);
    assert_eq!(first.hash, second.hash);
    assert_eq!(first.compressed_len, second.compressed_len);
    assert_eq!(cache.dedup_total_files(), 2);
    assert_eq!(cache.dedup_unique_blobs(), 1);
    assert_eq!(cache.dedup_duplicate_count(), 1);
}

#[test]
fn dedup_counts_n_minus_one_duplicates() {
    // Three identical inputs: one stored blob, two duplicates removed.
    let mut cache = CompressionCache::new(None, 19);
    let data = vec![7u8; 4096];
    let info = cache.compress(&data);
    cache.compress(&data);
    cache.compress(&data);
    assert_eq!(cache.dedup_total_files(), 3);
    assert_eq!(cache.dedup_unique_blobs(), 1);
    assert_eq!(cache.dedup_duplicate_count(), 2);
    assert_eq!(cache.dedup_saved_bytes(), 2 * info.compressed_len);
}

#[test]
fn distinct_contents_are_distinct_blobs() {
    let mut cache = CompressionCache::new(None, 19);
    cache.compress(&b"one".to_vec());
    cache.compress(&b"two".to_vec());
    assert_eq!(cache.dedup_unique_blobs(), 2);
    assert_eq!(cache.dedup_duplicate_count(), 0);
}

#[test]
fn empty_input_digest_is_the_known_vector() {
    let mut cache = CompressionCache::new(None, 19);
    let info = cache.compress(&Vec::new());
    assert_eq!(
        info.hash,
        "af1349b9f5f9a1a6a0404dea36dcc9499bcb25c9adc112b7cc9a93cae41f3262"
    );
}

#[test]
fn round_trip_recovers_input() {
    let data = b"some bytes to squeeze and restore".to_vec();
    assert_eq!(compress_decompress_round_trip(&data, 19), data);
    assert_eq!(compress_decompress_round_trip(&data, 1), data);
}

#[test]
fn round_trip_on_empty_input() {
    let data: Vec<u8> = Vec::new();
    assert_eq!(compress_decompress_round_trip(&data, 19), data);
}

#[test]
fn miss_queues_a_pending_write_and_marks_use() {
    let mut cache = CompressionCache::new(Some(Vec::new()), 19);
    let data = b"fresh content".to_vec();
    let info = cache.compress(&data);
    let pending = cache.pending_writes().clone();
    assert_eq!(pending.len(), 1);
    assert_eq!(pending[0].0, format!("{}_19.zst", info.hash));
    // The stored blob is a zstd frame, not the input bytes themselves.
    assert_ne!(pending[0].1, data);
    // The freshly written entry counts as used: nothing is evicted.
    assert_eq!(cache.cleanup().len(), 0);
}

#[test]
fn disk_snapshot_hit_avoids_recompression() {
    // First run: compress fresh and capture what would be persisted.
    let mut first_run = CompressionCache::new(Some(Vec::new()), 19);
    let data = b"cached across runs".to_vec();
    let info = first_run.compress(&data);
    let pending = first_run.pending_writes().clone();
    assert_eq!(pending.len(), 1);

    // Second run: the snapshot holds the entry, so the lookup is a cache
    // hit, nothing is queued for persistence, and the bytes are identical.
    let mut second_run = CompressionCache::new(Some(pending.clone()), 19);
    let again = second_run.compress(&data);
    assert_eq!(again.hash, info.hash);
    assert_eq!(again.compressed_len, info.compressed_len);
    assert_eq!(second_run.pending_writes().len(), 0);
    let entries = second_run.blob_entries().clone();
    assert_eq!(entries.len(), 1);
    assert_eq!(entries[0].1, pending[0].1);
}

#[test]
fn cleanup_evicts_unused_entries_only() {
    // A snapshot with one entry that this run uses, one stale cache entry,
    // and one foreign file: only the stale cache entry is evicted.
    let mut first_run = CompressionCache::new(Some(Vec::new()), 19);
    let data = b"still referenced".to_vec();
    first_run.compress(&data);
    let pending = first_run.pending_writes().clone();

    let mut snapshot = pending.clone();
    snapshot.push(("0123_19.zst".to_owned(), vec![1, 2, 3]));
    snapshot.push(("notes.txt".to_owned(), vec![4]));
    let mut second_run = CompressionCache::new(Some(snapshot), 19);
    second_run.compress(&data);
    let evicted = second_run.cleanup();
    assert_eq!(evicted, vec!["0123_19.zst".to_owned()]);
}

#[test]
fn blob_entries_are_sorted_by_digest() {
    let mut cache = CompressionCache::new(None, 19);
    cache.compress(&b"alpha".to_vec());
    cache.compress(&b"beta".to_vec());
    cache.compress(&b"gamma".to_vec());
    let entries = cache.blob_entries();
    assert_eq!(entries.len(), 3);
    assert!(entries[0].0 < entries[1].0);
    assert!(entries[1].0 < entries[2].0);
}

#[test]
fn disabled_cache_always_recompresses() {
    let mut cache = CompressionCache::new(None, 19);
    let data = b"no disk".to_vec();
    cache.compress(&data);
    assert_eq!(cache.pending_writes().len(), 0);
    assert_eq!(cache.cleanup().len(), 0);
}
