use auggie::cache::contains_name;
use auggie::ignore_rules::is_default_ignored;
use auggie::upload::{build_checkpoint, files_needing_upload, remove_deleted_from_cache};
use auggie::{
    base_path_for_cached_path, compute_blob_name, compute_path_uuid, create_upload_batches,
    file_blobs, finish_incremental, mark_files_as_uploaded, plan_incremental,
    BatchUploadResult, BlobsCache, FileBlob, LiveFile, MAX_BLOB_SIZE, MAX_LINES_PER_BLOB,
};

fn live(path: &str, mtime: u64) -> LiveFile {
    LiveFile { path: path.to_string(), mtime }
}

/// One incremental sync with every upload acknowledged: returns the
/// checkpoint's blob names and the number of blobs uploaded.
fn sync_all_acked(
    cache: &mut BlobsCache,
    files: &[(&str, &[u8], u64)],
    seq: &mut u64,
) -> (Vec<String>, usize) {
    let live_files: Vec<LiveFile> = files.iter().map(|(p, _, m)| live(p, *m)).collect();
    let plan = plan_incremental(cache, &live_files);
    let mut read = Vec::new();
    for (i, (p, c, m)) in files.iter().enumerate() {
        if plan[i] {
            read.extend(file_blobs(p, c, *m));
        }
    }
    let scan = finish_incremental(cache, &live_files, read);
    remove_deleted_from_cache(cache, &scan.deleted_paths);
    let mut acked = Vec::new();
    for batch in create_upload_batches(&scan.to_upload) {
        let names: Vec<String> = batch.iter().map(|b| b.blob_name.clone()).collect();
        let result = BatchUploadResult::from_batch_response(&batch, Some(names));
        acked.extend(result.uploaded_files);
    }
    *seq = mark_files_as_uploaded(cache, &acked, *seq);
    let uploaded = acked.len();
    let checkpoint = build_checkpoint(scan.unchanged_blobs, &acked);
    (checkpoint.added_blobs, uploaded)
}

#[test]
fn test_blobs_cache_update_and_remove() {
    let mut cache = BlobsCache::new();

    cache.update("file.txt".to_string(), 1000, "hash1".to_string(), 1);
    assert!(cache.has_blob("hash1"));
    assert_eq!(cache.get_blob_name("file.txt"), Some(&"hash1".to_string()));

    cache.update("file.txt".to_string(), 2000, "hash2".to_string(), 2);
    assert!(!cache.has_blob("hash1"));
    assert!(cache.has_blob("hash2"));
    assert_eq!(cache.get_blob_name("file.txt"), Some(&"hash2".to_string()));

    cache.remove("file.txt");
    assert!(!cache.has_blob("hash2"));
    assert!(cache.get_blob_name("file.txt").is_none());
}

#[test]
fn test_compute_blob_name() {
    let path = "src/main.rs";
    let content = b"fn main() {}";
    let blob_name = compute_blob_name(path, content);
    assert_eq!(blob_name.len(), 64);

    let blob_name2 = compute_blob_name(path, content);
    assert_eq!(blob_name, blob_name2);

    let blob_name3 = compute_blob_name("src/lib.rs", content);
    assert_ne!(blob_name, blob_name3);
}

#[test]
fn blob_name_is_hex_sha256_of_path_then_content() {
    assert_eq!(
        compute_blob_name("src/main.rs", b"fn main() {}"),
        "ca9c3fb8072127968dbcf4eb3076df854f2e52ec848f1d17e37f198dac0a3d9a"
    );
    assert_ne!(compute_blob_name("a.txt", b"x"), compute_blob_name("a.txt", b"y"));
}

#[test]
fn path_uuid_is_stable_and_slash_normalized() {
    assert_eq!(compute_path_uuid("/home/u/proj"), "0b27c08c-81aa-52a5-852e-e3f5d0b9e3f9");
    assert_eq!(compute_path_uuid("C:\\work\\proj"), "e980a7b0-31ff-52da-8002-9a60efde67dc");
    assert_eq!(compute_path_uuid("C:/work/proj"), compute_path_uuid("C:\\work\\proj"));
    assert_ne!(compute_path_uuid("/a"), compute_path_uuid("/b"));
}

#[test]
fn cold_sync_single_small_file() {
    let mut cache = BlobsCache::new();
    let mut seq = cache.next_content_seq();
    assert_eq!(seq, 1001);
    let (checkpoint, uploaded) = sync_all_acked(&mut cache, &[("a.txt", b"hello\n", 77)], &mut seq);
    let hash = "d9306845f15ab67f705ac3ce8af11566d4e674908d91d1147156a2d0a27d5a8a".to_string();
    assert_eq!(uploaded, 1);
    assert_eq!(checkpoint, vec![hash.clone()]);
    assert_eq!(cache.len(), 1);
    assert_eq!(cache.get_blob_name("a.txt"), Some(&hash));
    let records = cache.records();
    assert_eq!(records[0].1.mtime, 77);
    assert_eq!(records[0].1.content_seq, 1001);
}

#[test]
fn incremental_sync_no_changes() {
    let mut cache = BlobsCache::new();
    let mut seq = cache.next_content_seq();
    let files: [(&str, &[u8], u64); 1] = [("a.txt", b"hello\n", 77)];
    let (first, _) = sync_all_acked(&mut cache, &files, &mut seq);
    let live_files = vec![live("a.txt", 77)];
    assert_eq!(plan_incremental(&cache, &live_files), vec![false]);
    let scan = finish_incremental(&cache, &live_files, Vec::new());
    assert!(scan.to_upload.is_empty());
    assert!(scan.deleted_paths.is_empty());
    assert_eq!(scan.unchanged_blobs, first);
    let (second, uploaded) = sync_all_acked(&mut cache, &files, &mut seq);
    assert_eq!(uploaded, 0);
    assert_eq!(second, first);
}

#[test]
fn file_edited() {
    let mut cache = BlobsCache::new();
    let mut seq = cache.next_content_seq();
    sync_all_acked(&mut cache, &[("a.txt", b"hello\n", 77)], &mut seq);
    let old = "d9306845f15ab67f705ac3ce8af11566d4e674908d91d1147156a2d0a27d5a8a";
    let new = "1e8511120729ef5581beca12366be769ebb2b6668d78cfda45f8416189c704c5";
    let live_files = vec![live("a.txt", 80)];
    assert_eq!(plan_incremental(&cache, &live_files), vec![true]);
    let read = file_blobs("a.txt", b"world\n", 80);
    assert_eq!(read.len(), 1);
    assert_eq!(read[0].path, "a.txt");
    assert_eq!(read[0].content, b"world\n".to_vec());
    assert_eq!(read[0].blob_name, new);
    let (checkpoint, uploaded) = sync_all_acked(&mut cache, &[("a.txt", b"world\n", 80)], &mut seq);
    assert_eq!(uploaded, 1);
    assert_eq!(checkpoint, vec![new.to_string()]);
    assert!(!cache.has_blob(old));
    assert!(cache.has_blob(new));
}

#[test]
fn mtime_change_rereads_and_matches_cached_name() {
    let mut cache = BlobsCache::new();
    let mut seq = cache.next_content_seq();
    let (first, _) = sync_all_acked(&mut cache, &[("a.txt", b"hello\n", 77)], &mut seq);
    let live_files = vec![live("a.txt", 99)];
    assert_eq!(plan_incremental(&cache, &live_files), vec![true]);
    let (second, uploaded) = sync_all_acked(&mut cache, &[("a.txt", b"hello\n", 99)], &mut seq);
    assert_eq!(uploaded, 1);
    assert_eq!(second, first);
    assert_eq!(cache.records()[0].1.mtime, 99);
    // content changed but mtime kept: not noticed
    assert_eq!(plan_incremental(&cache, &live_files), vec![false]);
}

#[test]
fn large_file_two_chunks_in_checkpoint() {
    let mut content = Vec::new();
    for i in 0..1000 {
        content.extend_from_slice(format!("Line {:04}: padding padding padding padding...\n", i).as_bytes());
    }
    let blobs = file_blobs("big.txt", &content, 5);
    assert_eq!(blobs.len(), 2);
    assert_eq!(blobs[0].path, "big.txt#chunk1of2");
    assert_eq!(blobs[1].path, "big.txt#chunk2of2");
    assert!(blobs.iter().all(|b| b.content.len() <= MAX_BLOB_SIZE));
    let mut cache = BlobsCache::new();
    let mut seq = 1001;
    let (checkpoint, uploaded) = sync_all_acked(&mut cache, &[("big.txt", &content, 5)], &mut seq);
    assert_eq!(uploaded, 2);
    assert_eq!(checkpoint.len(), 2);
    assert_eq!(cache.len(), 2);
    // the two chunks are one unit for the mtime check
    assert_eq!(plan_incremental(&cache, &[live("big.txt", 5)]), vec![false]);
    assert_eq!(plan_incremental(&cache, &[live("big.txt", 6)]), vec![true]);
}

#[test]
fn partial_batch_acceptance_then_fallback() {
    let blobs: Vec<FileBlob> = ["a", "b", "c"]
        .iter()
        .flat_map(|p| file_blobs(p, p.as_bytes(), 1))
        .collect();
    let names: Vec<String> = blobs.iter().map(|b| b.blob_name.clone()).collect();
    let mut result =
        BatchUploadResult::from_batch_response(&blobs, Some(names[..2].to_vec()));
    assert_eq!(result.batch_uploaded, 2);
    assert_eq!(result.uploaded_files.len(), 2);
    for file in blobs.iter().skip(result.batch_uploaded) {
        result.record_single(file, Some(vec![file.blob_name.clone()]));
    }
    assert_eq!(result.sequential_uploaded, 1);
    let checkpoint = build_checkpoint(Vec::new(), &result.uploaded_files);
    assert_eq!(checkpoint.added_blobs, names);
    assert!(checkpoint.checkpoint_id.is_none());
    assert!(checkpoint.deleted_blobs.is_empty());
}

#[test]
fn failed_batch_and_failed_single_are_skipped() {
    let blobs = file_blobs("a", b"x", 1);
    let mut result = BatchUploadResult::from_batch_response(&blobs, None);
    assert_eq!(result.batch_uploaded, 0);
    result.record_single(&blobs[0], None);
    result.record_single(&blobs[0], Some(Vec::new()));
    assert!(result.uploaded_files.is_empty());
    assert_eq!(result.sequential_uploaded, 0);
    let more = BatchUploadResult::from_batch_response(&blobs, Some(vec!["x".into(), "y".into()]));
    assert_eq!(more.batch_uploaded, 1);
}

#[test]
fn deleted_file() {
    let mut cache = BlobsCache::new();
    let mut seq = 1001;
    sync_all_acked(&mut cache, &[("a.txt", b"a\n", 1), ("b.txt", b"b\n", 1)], &mut seq);
    let b_name = cache.get_blob_name("b.txt").unwrap().clone();
    let a_name = cache.get_blob_name("a.txt").unwrap().clone();
    let live_files = vec![live("a.txt", 1)];
    let scan = finish_incremental(&cache, &live_files, Vec::new());
    assert_eq!(scan.deleted_paths, vec!["b.txt".to_string()]);
    let (checkpoint, uploaded) = sync_all_acked(&mut cache, &[("a.txt", b"a\n", 1)], &mut seq);
    assert_eq!(uploaded, 0);
    assert_eq!(checkpoint, vec![a_name]);
    assert!(cache.get_blob_name("b.txt").is_none());
    assert!(!cache.has_blob(&b_name));
}

#[test]
fn stale_chunks_leave_the_cache() {
    let mut big = Vec::new();
    for _ in 0..900 {
        big.extend_from_slice(b"x\n");
    }
    let mut cache = BlobsCache::new();
    let mut seq = 1001;
    sync_all_acked(&mut cache, &[("f", &big, 1)], &mut seq);
    assert_eq!(cache.len(), 2);
    let (_, uploaded) = sync_all_acked(&mut cache, &[("f", b"small\n", 2)], &mut seq);
    assert_eq!(uploaded, 1);
    assert_eq!(cache.len(), 1);
    let (_, again) = sync_all_acked(&mut cache, &[("f", b"small\n", 2)], &mut seq);
    assert_eq!(again, 0);
}

#[test]
fn cache_retain_and_names() {
    let mut cache = BlobsCache::new();
    cache.update("a".into(), 1, "h1".into(), 1);
    cache.update("b".into(), 1, "h2".into(), 2);
    cache.update("c".into(), 1, "h3".into(), 7);
    assert_eq!(cache.next_content_seq(), 8);
    let mut names = cache.get_uploaded_blob_names();
    names.sort();
    assert_eq!(names, vec!["h1".to_string(), "h2".to_string(), "h3".to_string()]);
    let removed = cache.retain_blobs(&["h1".to_string(), "h3".to_string()]);
    assert_eq!(removed, vec!["h2".to_string()]);
    assert_eq!(cache.len(), 2);
    assert!(!cache.has_blob("h2"));
    assert_eq!(cache.get_path("h3"), Some(&"c".to_string()));
    assert!(!cache.is_empty());
}

#[test]
fn cache_from_records_rebuilds_reverse_index() {
    let mut source = BlobsCache::new();
    source.update("src/main.rs".into(), 1234567890, "hash1".into(), 1001);
    source.update("src/lib.rs".into(), 1234567891, "hash2".into(), 1002);
    let loaded = BlobsCache::from_records(source.records());
    assert_eq!(loaded.len(), 2);
    assert!(loaded.has_blob("hash1"));
    assert_eq!(loaded.get_path("hash2"), Some(&"src/lib.rs".to_string()));
    assert_eq!(loaded.next_content_seq(), 1003);
    assert_eq!(loaded.reverse_records().len(), 2);
}

#[test]
fn files_not_yet_uploaded() {
    let mut cache = BlobsCache::new();
    let blobs: Vec<FileBlob> = file_blobs("a", b"1", 1).into_iter().chain(file_blobs("b", b"2", 1)).collect();
    cache.update("a".into(), 1, blobs[0].blob_name.clone(), 1);
    let pending = files_needing_upload(&cache, &blobs);
    assert_eq!(pending.len(), 1);
    assert_eq!(pending[0].path, "b");
    assert!(contains_name(&[pending[0].blob_name.clone()], &blobs[1].blob_name));
}

#[test]
fn base_paths_of_cached_paths() {
    assert_eq!(base_path_for_cached_path("big.txt#chunk2of3"), "big.txt");
    assert_eq!(base_path_for_cached_path("plain.rs"), "plain.rs");
    assert_eq!(base_path_for_cached_path("a#chunk"), "a");
    assert_eq!(base_path_for_cached_path("a#chun"), "a#chun");
}

#[test]
fn test_should_ignore() {
    assert!(is_default_ignored(".git/config"));
    assert!(is_default_ignored("node_modules/package"));
    assert!(is_default_ignored("target/debug/app"));
    assert!(!is_default_ignored("src/main.rs"));
    assert!(is_default_ignored("a/b/__pycache__/x.pyc"));
    assert!(!is_default_ignored("targets/x"));
}

#[test]
fn test_large_file_splitting() {
    let mut content = String::new();
    for i in 0..1000 {
        content.push_str(&format!("Line {}: This is some content to make the file larger.\n", i));
    }
    let blobs = file_blobs("large.txt", content.as_bytes(), 0);
    let large_blobs: Vec<_> = blobs.iter().filter(|b| b.path.starts_with("large.txt")).collect();
    assert_eq!(large_blobs.len(), 2, "Expected 2 chunks for 1000-line file");
    assert!(large_blobs.iter().any(|b| b.path == "large.txt#chunk1of2"));
    assert!(large_blobs.iter().any(|b| b.path == "large.txt#chunk2of2"));
    for blob in &large_blobs {
        let line_count = String::from_utf8(blob.content.clone()).unwrap().lines().count();
        assert!(
            line_count <= MAX_LINES_PER_BLOB,
            "Chunk {} has {} lines, exceeds MAX_LINES_PER_BLOB ({})",
            blob.path, line_count, MAX_LINES_PER_BLOB
        );
    }
    let chunk1 = large_blobs.iter().find(|b| b.path.ends_with("#chunk1of2")).unwrap();
    assert_eq!(String::from_utf8(chunk1.content.clone()).unwrap().lines().count(), MAX_LINES_PER_BLOB);
    let chunk2 = large_blobs.iter().find(|b| b.path.ends_with("#chunk2of2")).unwrap();
    assert_eq!(String::from_utf8(chunk2.content.clone()).unwrap().lines().count(), 200);
}

#[test]
fn test_small_file_no_splitting() {
    let blobs = file_blobs("small.txt", b"Just a small file.\n", 0);
    let small_blobs: Vec<_> = blobs.iter().filter(|b| b.path.starts_with("small.txt")).collect();
    assert_eq!(small_blobs.len(), 1);
    assert_eq!(small_blobs[0].path, "small.txt");
}

#[test]
fn test_file_splitting_by_size() {
    let long_line = "X".repeat(180);
    let mut content = String::new();
    for i in 0..750 {
        content.push_str(&format!("Line {:04}: {}\n", i, long_line));
    }
    let blobs = file_blobs("biglines.txt", content.as_bytes(), 0);
    let big_blobs: Vec<_> = blobs.iter().filter(|b| b.path.starts_with("biglines.txt")).collect();
    assert!(big_blobs.len() >= 1, "Expected at least 1 blob");
    for blob in &big_blobs {
        assert!(
            blob.content.len() <= MAX_BLOB_SIZE * 2,
            "Chunk {} size {} is too large",
            blob.path, blob.content.len()
        );
        assert!(blob.content.len() <= MAX_BLOB_SIZE);
    }
    assert_eq!(big_blobs.len(), 2);
    let joined: Vec<u8> = big_blobs.iter().flat_map(|b| b.content.clone()).collect();
    assert_eq!(joined, content.as_bytes());
}

#[test]
fn cache_forward_and_reverse_stay_consistent() {
    let mut cache = BlobsCache::new();
    let ops: Vec<(&str, Option<&str>)> = vec![
        ("a", Some("h1")),
        ("b", Some("h2")),
        ("a", Some("h3")),
        ("c", Some("h4")),
        ("b", None),
        ("a", Some("h3")),
        ("c", Some("h5")),
        ("d", None),
    ];
    for (path, blob) in ops {
        match blob {
            Some(b) => cache.update(path.to_string(), 1, b.to_string(), 1),
            None => cache.remove(path),
        }
        for (p, e) in cache.records() {
            assert_eq!(cache.get_path(&e.blob_name), Some(&p));
        }
        for (b, p) in cache.reverse_records() {
            assert_eq!(cache.get_blob_name(&p), Some(&b));
        }
    }
    assert_eq!(cache.len(), 2);
    assert!(!cache.has_blob("h1") && !cache.has_blob("h2") && !cache.has_blob("h4"));
}
