use auggie::chunk::split_content_into_chunks;
use auggie::retry::{
    is_retriable_status, jittered_delay_ms, retry_base_delay, retry_step, AttemptOutcome,
    RetryStep,
};
use auggie::session::{choose_session, is_feature_enabled, FeatureFlagsV1, FeatureFlagsV2};
use auggie::text::{decimal_string, trim_white_space};
use auggie::{create_upload_batches, file_blobs, AuthSessionStore, FileBlob, Metadata, SessionData};

fn blob_of_size(i: usize, size: usize) -> FileBlob {
    file_blobs(&format!("f{}", i), &vec![b'a'; size], 0).remove(0)
}

#[test]
fn batches_cap_count_at_128() {
    let files: Vec<FileBlob> = (0..300).map(|i| blob_of_size(i, 10)).collect();
    let batches = create_upload_batches(&files);
    let sizes: Vec<usize> = batches.iter().map(|b| b.len()).collect();
    assert_eq!(sizes, vec![128, 128, 44]);
    let flat: Vec<String> = batches.iter().flatten().map(|b| b.path.clone()).collect();
    let orig: Vec<String> = files.iter().map(|b| b.path.clone()).collect();
    assert_eq!(flat, orig);
}

#[test]
fn batches_stay_under_byte_cap() {
    let files: Vec<FileBlob> = (0..10).map(|i| blob_of_size(i, 120_000)).collect();
    let batches = create_upload_batches(&files);
    let sizes: Vec<usize> = batches.iter().map(|b| b.len()).collect();
    assert_eq!(sizes, vec![8, 2]);
    for b in &batches {
        let bytes: usize = b.iter().map(|f| f.content.len()).sum();
        assert!(bytes < 1_000_000);
    }
}

#[test]
fn batching_meets_cap_exactly() {
    // 500_000 + 500_000 meets the cap: the second blob starts a new batch
    let files: Vec<FileBlob> = (0..2).map(|i| blob_of_size(i, 500_000)).collect();
    assert_eq!(create_upload_batches(&files).len(), 2);
    assert!(create_upload_batches(&[]).is_empty());
}

#[test]
fn chunking_edges() {
    assert_eq!(split_content_into_chunks(b""), vec![Vec::<u8>::new()]);
    assert_eq!(split_content_into_chunks(b"no newline"), vec![b"no newline".to_vec()]);
    let long = vec![b'z'; 200_000];
    let mut content = b"a\n".to_vec();
    content.extend_from_slice(&long);
    let chunks = split_content_into_chunks(&content);
    assert_eq!(chunks, vec![b"a\n".to_vec(), long]);
}

#[test]
fn retry_schedule_for_retriable_statuses() {
    for k in 0..6u32 {
        let mut attempt = 0u32;
        let mut waited = Vec::new();
        let final_status = loop {
            let status = if attempt < k { 503 } else { 200 };
            match retry_step(attempt, AttemptOutcome::Status(status)) {
                RetryStep::Respond => break status,
                RetryStep::RetryAfter { base_secs } => waited.push(base_secs),
                RetryStep::Fail => panic!("a status never fails"),
            }
            attempt += 1;
        };
        assert_eq!(final_status == 200, k <= 3);
        let expected: Vec<u64> = vec![1, 2, 4].into_iter().take(k.min(3) as usize).collect();
        assert_eq!(waited, expected);
    }
}

#[test]
fn retry_send_errors() {
    assert_eq!(
        retry_step(0, AttemptOutcome::SendError { retriable: true }),
        RetryStep::RetryAfter { base_secs: 1 }
    );
    assert_eq!(retry_step(3, AttemptOutcome::SendError { retriable: true }), RetryStep::Fail);
    assert_eq!(retry_step(0, AttemptOutcome::SendError { retriable: false }), RetryStep::Fail);
    assert_eq!(retry_step(0, AttemptOutcome::Status(404)), RetryStep::Respond);
    for s in [408u16, 429, 500, 502, 503, 504] {
        assert!(is_retriable_status(s));
    }
    assert!(!is_retriable_status(501));
    assert_eq!(retry_base_delay(0), 1);
    assert_eq!(retry_base_delay(2), 4);
    assert_eq!(retry_base_delay(64), u64::MAX);
}

#[test]
fn jitter_stays_within_a_quarter() {
    let mut total = 0u64;
    for base in [1u64, 2, 4] {
        let d = jittered_delay_ms(base);
        assert!(d >= base * 1000 && d <= base * 1250);
        total += d;
    }
    assert!((7000..=8750).contains(&total));
    assert_eq!(jittered_delay_ms(0), 0);
}

#[test]
fn text_helpers() {
    assert_eq!(decimal_string(0), "0");
    assert_eq!(decimal_string(1234567890), "1234567890");
    assert_eq!(trim_white_space("\u{2003} a b \t"), "a b");
}

#[test]
fn session_validity_and_metadata() {
    let s = SessionData {
        access_token: "t".into(),
        tenant_url: "https://x".into(),
        scopes: vec!["read".into()],
    };
    assert!(s.is_valid());
    let empty = SessionData { access_token: String::new(), ..s.clone() };
    assert!(!empty.is_valid());
    let store = AuthSessionStore::new("/tmp/session.json".into(), true);
    assert!(store.is_logged_in());
    assert_eq!(store.session_path(), "/tmp/session.json");
    match auggie::session::require_session(Ok(store), None) {
        Err(m) => assert_eq!(m, "Error: Could not read session information."),
        Ok(_) => panic!("expected an error"),
    }
    let m = Metadata { last_used: None, session_count: 4, first_used: None, first_version: None };
    let m = m.after_session("now".into(), "0.1.0".into());
    assert_eq!(m.session_count, 5);
    assert_eq!(m.first_used, Some("now".to_string()));
    let m = m.after_session("later".into(), "0.2.0".into());
    assert_eq!(m.first_version, Some("0.1.0".to_string()));
    assert_eq!(m.last_used, Some("later".to_string()));
}

#[test]
fn feature_flags() {
    let v1 = FeatureFlagsV1 {
        enable_codebase_retrieval: None,
        enable_commit_retrieval: None,
        enable_prompt_enhancer: Some(false),
        enable_telemetry: None,
        enable_mcp_mode: None,
        enable_cli_mode: None,
        other: vec![("custom".into(), Some(true)), ("odd".into(), None)],
    };
    assert!(is_feature_enabled(&v1, &None, "enable_codebase_retrieval"));
    assert!(!is_feature_enabled(&v1, &None, "enable_commit_retrieval"));
    assert!(!is_feature_enabled(&v1, &None, "enable_prompt_enhancer"));
    assert!(is_feature_enabled(&v1, &None, "custom"));
    assert!(!is_feature_enabled(&v1, &None, "odd"));
    assert!(!is_feature_enabled(&v1, &None, "missing"));
    let v2 = Some(FeatureFlagsV2 {
        enabled: vec!["enable_prompt_enhancer".into()],
        disabled: vec!["custom".into()],
    });
    assert!(is_feature_enabled(&v1, &v2, "enable_prompt_enhancer"));
    assert!(!is_feature_enabled(&v1, &v2, "custom"));
}

#[test]
fn mode_flags_respect_denied_status() {
    let v1 = FeatureFlagsV1 {
        enable_codebase_retrieval: None,
        enable_commit_retrieval: None,
        enable_prompt_enhancer: None,
        enable_telemetry: None,
        enable_mcp_mode: None,
        enable_cli_mode: Some(false),
        other: Vec::new(),
    };
    assert!(auggie::session::is_mode_enabled(None, &v1, &None, "enable_mcp_mode"));
    assert!(!auggie::session::is_mode_enabled(Some(8), &v1, &None, "enable_mcp_mode"));
    assert!(!auggie::session::is_mode_enabled(None, &v1, &None, "enable_cli_mode"));
}

#[test]
fn resolution_without_registry_is_none() {
    assert_eq!(auggie::models::resolve_with_registry(None, Some("x"), Some("d")), None);
    let reg = auggie::ModelInfoRegistry::new();
    assert_eq!(
        auggie::models::resolve_with_registry(Some(&reg), Some("x"), Some("d")),
        Some("d".to_string())
    );
}

#[test]
fn session_sources_in_priority_order() {
    let env = SessionData { access_token: "e".into(), tenant_url: "https://e".into(), scopes: vec!["read".into()] };
    let file = SessionData { access_token: "f".into(), tenant_url: "https://f".into(), scopes: vec!["read".into()] };
    let pick = choose_session(Some(env.clone()), Some(("p".into(), "https://p".into())), Some(file.clone()));
    assert_eq!(pick.unwrap().access_token, "e");
    let invalid = SessionData { scopes: Vec::new(), ..env.clone() };
    let pick = choose_session(Some(invalid), Some(("p".into(), "https://p".into())), Some(file.clone()));
    let pick = pick.unwrap();
    assert_eq!(pick.access_token, "p");
    assert_eq!(pick.scopes, vec!["read".to_string(), "write".to_string()]);
    let pick = choose_session(None, Some(("".into(), "https://p".into())), Some(file.clone()));
    assert_eq!(pick.unwrap().access_token, "f");
    assert!(choose_session(None, None, None).is_none());
}

#[test]
fn cache_file_is_named_by_workspace_key() {
    assert_eq!(
        auggie::digest::cache_file_name("/home/u/proj"),
        "0b27c08c-81aa-52a5-852e-e3f5d0b9e3f9.json"
    );
}

#[test]
fn payload_too_large_shrinks_cap_to_floor() {
    use_upload_helpers();
}

fn use_upload_helpers() {
    assert!(auggie::upload::is_payload_too_large("HTTP 413"));
    assert!(auggie::upload::is_payload_too_large("Request entity TOO LARGE"));
    assert!(auggie::upload::is_payload_too_large("Payload rejected"));
    assert!(!auggie::upload::is_payload_too_large("HTTP 500"));
    assert_eq!(auggie::upload::shrink_byte_cap(4 * 1024 * 1024), 2 * 1024 * 1024);
    assert_eq!(auggie::upload::shrink_byte_cap(300 * 1024), 256 * 1024);
    assert_eq!(auggie::upload::shrink_byte_cap(256 * 1024), 256 * 1024);
}
