use codex_tools::chunks::{
    assemble_chunks, check_chunk, check_chunk_facts, check_manifest_size, chunk_at, chunk_count, chunk_done_text,
    chunk_size, chunked_download_text, chunked_upload_text, describe_chunk, described_chunks, download_concurrency,
    is_chunked_blob,
    upload_concurrency, uploads_in_chunks, validate_chunk_descriptors, ChunkDescriptor, DEFAULT_CHUNK_SIZE_BYTES,
};
use codex_tools::cli::concurrency_option;
use codex_tools::digest::{sha256_hex, short_hash};
use codex_tools::envelope::{
    checked_nonce, decrypt_payload, derive_key, derive_sync_key_proof, encrypt_payload, encrypt_with_nonce,
    envelope_header, frame_envelope, seal_payload, verify_payload, EncryptedEnvelopeHeader, ENVELOPE_FORMAT,
};
use codex_tools::sessions::{
    group_local_sessions_by_id, is_rollout_name, latest_manifests, read_local_session_meta, session_record,
    sort_local_sessions, LocalSessionMeta, SessionManifest,
};
use codex_tools::transfer::{
    after_remote_check, after_version_noted, before_restore, check_blob, check_blob_hash, check_restored,
    checking_text, finish_restore, latest_version_optional, latest_version_required, next_upload_time, push_outcome,
    restore_payload, says_no_version, session_uploads, session_uploads_text, uploading_text, version_manifest,
    ApiManifestResponse, PullTally, PushSessionOutcome, PushStep, PushTally, RestoreEnd, RestoreOutcome, RestoreStep,
    SeenVersions,
};
use sha2::Digest;

fn header_json(header: &EncryptedEnvelopeHeader) -> Vec<u8> {
    let mut map = serde_json::Map::new();
    map.insert("format".to_string(), header.format.clone().into());
    map.insert("cipher".to_string(), header.cipher.clone().into());
    map.insert("compression".to_string(), header.compression.clone().into());
    map.insert("nonce".to_string(), header.nonce.clone().into());
    map.insert("rawSha256".to_string(), header.raw_sha256.clone().into());
    map.insert("createdAtMs".to_string(), (header.created_at_ms as u64).into());
    serde_json::to_vec(&serde_json::Value::Object(map)).unwrap()
}

fn header_of(line: &[u8]) -> EncryptedEnvelopeHeader {
    let value: serde_json::Value = serde_json::from_slice(line).unwrap();
    let text = |key: &str| value.get(key).and_then(|v| v.as_str()).unwrap().to_string();
    EncryptedEnvelopeHeader {
        format: text("format"),
        cipher: text("cipher"),
        compression: text("compression"),
        nonce: text("nonce"),
        raw_sha256: text("rawSha256"),
        created_at_ms: value.get("createdAtMs").and_then(|v| v.as_u64()).unwrap() as u128,
    }
}

fn encrypted_envelope(payload: &[u8], key: &str) -> Vec<u8> {
    let sealed = encrypt_payload(payload, key, 1700000000000).unwrap();
    frame_envelope(&header_json(&sealed.header), &sealed.ciphertext)
}

fn opened(envelope: &[u8], key: &str) -> Result<Vec<u8>, String> {
    let header = header_of(envelope_header(envelope)?);
    decrypt_payload(envelope, &header, key)
}

#[test]
fn encryption_round_trip_preserves_payload() {
    let payload = b"{\"type\":\"session_meta\",\"payload\":{\"id\":\"abc\"}}\n";
    let encrypted = encrypted_envelope(payload, "test-passphrase");
    assert_ne!(encrypted, payload);
    let decrypted = opened(&encrypted, "test-passphrase").unwrap();
    assert_eq!(decrypted, payload);
}

#[test]
fn an_empty_payload_and_a_long_one_come_back() {
    assert_eq!(opened(&encrypted_envelope(b"", "k"), "k").unwrap(), b"");
    let long: Vec<u8> = (0..200_000u32).map(|i| (i % 251) as u8).collect();
    let envelope = encrypted_envelope(&long, "k");
    assert!(envelope.len() < long.len());
    assert_eq!(opened(&envelope, "k").unwrap(), long);
}

#[test]
fn every_envelope_has_another_nonce() {
    let a = encrypt_payload(b"same", "k", 1).unwrap();
    let b = encrypt_payload(b"same", "k", 1).unwrap();
    assert_ne!(a.header.nonce, b.header.nonce);
    assert_ne!(a.ciphertext, b.ciphertext);
    assert_eq!(a.header.nonce.len(), 32);
    assert_eq!(a.header.cipher, "XChaCha20-Poly1305");
    assert_eq!(a.header.compression, "zstd");
    assert_eq!(a.header.format, "codex-tools-session-v1");
    assert_eq!(a.header.raw_sha256, sha256_hex(b"same"));
}

#[test]
fn a_payload_sealed_under_a_nonce_is_always_the_same() {
    let nonce = [7u8; 24];
    let a = seal_payload(b"raw", b"packed", &nonce, "key", 5).unwrap();
    let b = seal_payload(b"raw", b"packed", &nonce, "key", 5).unwrap();
    assert_eq!(a.ciphertext, b.ciphertext);
    assert_eq!(a.ciphertext.len(), 6 + 16);
    assert_eq!(a.header.nonce, "BwcHBwcHBwcHBwcHBwcHBwcHBwcHBwcH");
    assert_eq!(a.header.created_at_ms, 5);
}

#[test]
fn what_cannot_be_opened_is_told_apart() {
    let envelope = encrypted_envelope(b"payload", "right");
    assert_eq!(
        opened(&envelope, "wrong").unwrap_err(),
        "decrypt failed: Sync Key does not match this cloud session. Run `codex-tools cloud logout`, then `codex-tools cloud login --email <email>` with the same Sync Key used when uploading."
    );
    assert_eq!(opened(b"no line end", "k").unwrap_err(), "encrypted payload missing JSON header");

    let mut header = header_of(envelope_header(&envelope).unwrap());
    header.format = "v0".to_string();
    assert_eq!(decrypt_payload(&envelope, &header, "right").unwrap_err(), "unsupported encrypted payload format: v0");
    header.format = ENVELOPE_FORMAT.to_string();
    let nonce = header.nonce.clone();
    header.nonce = "AAAA".to_string();
    assert_eq!(
        decrypt_payload(&envelope, &header, "right").unwrap_err(),
        "encrypted payload nonce has invalid length"
    );
    header.nonce = "!".to_string();
    assert!(decrypt_payload(&envelope, &header, "right").unwrap_err().starts_with("Invalid"));
    header.nonce = nonce;
    header.raw_sha256 = sha256_hex(b"other");
    assert_eq!(decrypt_payload(&envelope, &header, "right").unwrap_err(), "decrypted payload hash mismatch");
}

#[test]
fn bytes_that_are_not_compressed_are_refused() {
    let nonce = [1u8; 24];
    let sealed = seal_payload(b"raw", b"not zstd", &nonce, "key", 0).unwrap();
    let envelope = frame_envelope(b"{}", &sealed.ciphertext);
    assert!(decrypt_payload(&envelope, &sealed.header, "key").is_err());
}

#[test]
fn a_nonce_and_a_payload_are_checked() {
    assert_eq!(checked_nonce(Ok(vec![0; 24])).unwrap().len(), 24);
    assert_eq!(checked_nonce(Ok(vec![0; 23])).unwrap_err(), "encrypted payload nonce has invalid length");
    assert_eq!(checked_nonce(Err("bad".to_string())).unwrap_err(), "bad");
    assert_eq!(verify_payload(vec![1], "h", "h").unwrap(), vec![1]);
    assert_eq!(verify_payload(vec![1], "h", "g").unwrap_err(), "decrypted payload hash mismatch");
}

#[test]
fn an_envelope_is_split_at_its_first_line_end() {
    let envelope = frame_envelope(b"head", b"body\nmore");
    assert_eq!(envelope, b"head\nbody\nmore");
    assert_eq!(envelope_header(&envelope).unwrap(), b"head");
}

#[test]
fn hashes_are_those_of_sha256() {
    assert_eq!(sha256_hex(b"abc"), "ba7816bf8f01cfea414140de5dae2223b00361a396177a9cb410ff61f20015ad");
    assert_eq!(short_hash("ba7816bf8f01cfea4141"), "ba7816bf8f01");
    assert_eq!(short_hash("abc"), "abc");
    assert_eq!(derive_key("k").len(), 32);
    assert_ne!(derive_key("k"), derive_key("l"));
    assert_ne!(derive_key("k"), sha2_of("k"));
}

fn sha2_of(text: &str) -> Vec<u8> {
    sha2::Sha256::digest(text.as_bytes()).to_vec()
}

#[test]
fn the_proof_of_a_sync_key_ignores_case_and_space_of_the_address() {
    let proof = derive_sync_key_proof("a@b.c", "key");
    assert_eq!(proof, sha256_hex("codex-tools-sync-login-proof-v1\0a@b.c\0key".as_bytes()));
    assert_eq!(derive_sync_key_proof("  A@B.C ", "key"), proof);
    assert_ne!(derive_sync_key_proof("a@b.c", "KEY"), proof);
}

fn manifest(session_id: &str, raw_sha256: &str, uploaded_at_ms: u128) -> SessionManifest {
    SessionManifest {
        format: ENVELOPE_FORMAT.into(),
        session_id: session_id.into(),
        relative_path: "sessions/a/rollout-a.jsonl".into(),
        source_dir: "sessions".into(),
        title: None,
        cwd: None,
        provider_name: None,
        model: None,
        raw_sha256: raw_sha256.into(),
        encrypted_sha256: raw_sha256.into(),
        encrypted_size: 1,
        blob_key: raw_sha256.into(),
        uploaded_at_ms,
        device_name: "dev-a".into(),
    }
}

#[test]
fn latest_manifest_keeps_newest_upload_per_session() {
    let older = manifest("s1", "old", 1);
    let newer = manifest("s1", "new", 2);

    let latest = latest_manifests(vec![older, newer]);
    assert_eq!(latest.len(), 1);
    assert_eq!(latest[0].raw_sha256, "new");
}

#[test]
fn latest_manifests_are_ordered_by_time_and_then_by_session() {
    let latest = latest_manifests(vec![
        manifest("b", "b1", 5),
        manifest("a", "a1", 5),
        manifest("c", "c1", 9),
        manifest("a", "a0", 4),
        manifest("b", "b2", 5),
    ]);
    let shown: Vec<(&str, &str)> =
        latest.iter().map(|m| (m.session_id.as_str(), m.raw_sha256.as_str())).collect();
    assert_eq!(shown, vec![("c", "c1"), ("a", "a1"), ("b", "b1")]);
}

fn test_local_session(session_id: &str, relative_path: &str, modified_at_ms: u128) -> LocalSessionMeta {
    LocalSessionMeta {
        session_id: session_id.into(),
        relative_path: relative_path.into(),
        source_dir: "sessions".into(),
        title: None,
        cwd: None,
        provider_name: None,
        model: None,
        modified_at_ms,
        size: 1,
    }
}

#[test]
fn session_groups_keep_same_session_versions_old_to_new() {
    let newest_s1 = test_local_session("s1", "sessions/new.jsonl", 30);
    let s2 = test_local_session("s2", "sessions/other.jsonl", 20);
    let oldest_s1 = test_local_session("s1", "sessions/old.jsonl", 10);

    let groups = group_local_sessions_by_id(vec![newest_s1, s2, oldest_s1]);

    assert_eq!(groups.len(), 2);
    assert_eq!(groups[0].len(), 2);
    assert_eq!(groups[0][0].relative_path, "sessions/old.jsonl");
    assert_eq!(groups[0][1].relative_path, "sessions/new.jsonl");
    assert_eq!(groups[1].len(), 1);
    assert_eq!(groups[1][0].session_id, "s2");
}

#[test]
fn local_sessions_are_listed_latest_first() {
    let sessions = sort_local_sessions(vec![
        test_local_session("a", "sessions/b", 10),
        test_local_session("b", "sessions/a", 10),
        test_local_session("c", "sessions/c", 20),
    ]);
    let paths: Vec<&str> = sessions.iter().map(|s| s.relative_path.as_str()).collect();
    assert_eq!(paths, vec!["sessions/c", "sessions/a", "sessions/b"]);
}

#[test]
fn the_first_line_of_a_rollout_file_tells_the_session() {
    let line = "{\"type\":\"session_meta\",\"payload\":{\"id\":\"abc\",\"title\":\"T\",\"cwd\":\"/w\",\"model_provider\":\"p\",\"model\":7}}\r\n";
    let record = session_record(line).unwrap();
    let meta = read_local_session_meta(&record, "archived_sessions/x/rollout-1.jsonl", 12, 34);
    assert_eq!(meta.session_id, "abc");
    assert_eq!(meta.source_dir, "archived_sessions");
    assert_eq!(meta.title.as_deref(), Some("T"));
    assert_eq!(meta.cwd.as_deref(), Some("/w"));
    assert_eq!(meta.provider_name.as_deref(), Some("p"));
    assert_eq!(meta.model, None);
    assert_eq!((meta.modified_at_ms, meta.size), (12, 34));
    assert!(session_record("{\"type\":\"other\",\"payload\":{\"id\":\"abc\"}}").is_none());
    assert!(session_record("{\"type\":\"session_meta\",\"payload\":{\"id\":\"  \"}}").is_none());
    assert!(session_record("{\"type\":\"session_meta\",\"payload\":1}").is_none());
    assert!(session_record("nonsense").is_none());
    assert!(is_rollout_name("rollout-1.jsonl"));
    assert!(!is_rollout_name("rollout-1.json"));
    assert!(!is_rollout_name("x-rollout-1.jsonl"));
}

#[test]
fn n_option_sets_transfer_concurrency() {
    let args = vec!["-n".to_string(), "6".to_string()];

    let value =
        concurrency_option(&args, &["--specific"], &["-n"], "MISSING_ENV_KEY", None, 1, 8).unwrap();

    assert_eq!(value, 6);
}

#[test]
fn specific_concurrency_option_overrides_n() {
    let args = vec!["-n".to_string(), "6".to_string(), "--specific".to_string(), "3".to_string()];

    let value =
        concurrency_option(&args, &["--specific"], &["-n"], "MISSING_ENV_KEY", None, 1, 8).unwrap();

    assert_eq!(value, 3);
}

#[test]
fn bytes_are_cut_into_chunks_and_put_together_again() {
    let bytes: Vec<u8> = (0..103u8).collect();
    let count = chunk_count(bytes.len(), 10);
    assert_eq!(count, 11);
    assert_eq!(chunk_at(&bytes, 10, 10), &[100, 101, 102]);
    let mut results: Vec<(usize, Vec<u8>)> = (0..count).map(|i| (i, chunk_at(&bytes, 10, i).to_vec())).collect();
    results.reverse();
    results.swap(2, 7);
    assert_eq!(assemble_chunks(results, bytes.len()).unwrap(), bytes);
    assert_eq!(chunk_count(100, 10), 10);
    assert_eq!(chunk_count(0, 10), 0);
}

#[test]
fn chunks_that_do_not_fit_together_are_refused() {
    let two = |a: usize, b: usize| vec![(a, vec![1u8]), (b, vec![2u8, 3])];
    assert_eq!(assemble_chunks(two(1, 0), 3).unwrap(), vec![2, 3, 1]);
    assert_eq!(assemble_chunks(two(0, 2), 3).unwrap_err(), "chunk download result order mismatch at index 1");
    assert_eq!(
        assemble_chunks(two(0, 1), 4).unwrap_err(),
        "downloaded encrypted size mismatch: expected 4, got 3"
    );
}

fn descriptor(index: usize, size: usize, sha256: &str) -> ChunkDescriptor {
    ChunkDescriptor { index, size, sha256: sha256.to_string() }
}

#[test]
fn a_list_of_chunks_is_checked() {
    let hash = "0123456789abcdefABCDEF0123456789abcdefABCDEF0123456789abcdef0123";
    assert_eq!(hash.len(), 64);
    assert!(validate_chunk_descriptors(&vec![descriptor(0, 1, hash), descriptor(1, 2, hash)]).is_ok());
    assert_eq!(validate_chunk_descriptors(&vec![]).unwrap_err(), "chunk manifest is empty");
    assert_eq!(
        validate_chunk_descriptors(&vec![descriptor(0, 1, hash), descriptor(2, 2, hash)]).unwrap_err(),
        "chunk manifest index mismatch: expected 1, got 2"
    );
    assert_eq!(
        validate_chunk_descriptors(&vec![descriptor(0, 0, hash)]).unwrap_err(),
        "chunk manifest has empty chunk 0"
    );
    assert_eq!(
        validate_chunk_descriptors(&vec![descriptor(0, 1, &hash[1..])]).unwrap_err(),
        "chunk manifest has invalid sha256 for chunk 0"
    );
    assert_eq!(
        validate_chunk_descriptors(&vec![descriptor(0, 1, &hash.replace('0', "g"))]).unwrap_err(),
        "chunk manifest has invalid sha256 for chunk 0"
    );
    let chunks = vec![descriptor(0, 1, hash), descriptor(1, 2, hash)];
    assert!(check_manifest_size(&chunks, 3).is_ok());
    assert_eq!(
        check_manifest_size(&chunks, 4).unwrap_err(),
        "chunk manifest encrypted size mismatch: expected 4, got 3"
    );
    let large = vec![descriptor(0, usize::MAX, hash), descriptor(1, usize::MAX, hash)];
    assert!(check_manifest_size(&large, usize::MAX).is_err());
}

#[test]
fn descriptors_of_chunks_are_valid_and_match() {
    let bytes = vec![9u8; 25];
    let descriptors: Vec<ChunkDescriptor> =
        (0..chunk_count(25, 10)).map(|i| describe_chunk(i, chunk_at(&bytes, 10, i))).collect();
    assert!(validate_chunk_descriptors(&descriptors).is_ok());
    assert!(check_manifest_size(&descriptors, 25).is_ok());
    assert!(check_chunk(&descriptors[2], chunk_at(&bytes, 10, 2)).is_ok());
    assert_eq!(
        check_chunk(&descriptors[2], &[9, 9]).unwrap_err(),
        "downloaded chunk 2 size mismatch: expected 5, got 2"
    );
    assert_eq!(check_chunk(&descriptors[2], &[1; 5]).unwrap_err(), "downloaded chunk 2 hash mismatch");
    assert!(check_chunk_facts(&descriptor(3, 4, "h"), 4, "h").is_ok());
    assert_eq!(check_chunk_facts(&descriptor(3, 4, "h"), 4, "i").unwrap_err(), "downloaded chunk 3 hash mismatch");
}

#[test]
fn transfers_are_bounded() {
    assert_eq!(chunk_size(&None), DEFAULT_CHUNK_SIZE_BYTES);
    assert_eq!(chunk_size(&Some("1024".to_string())), 1024);
    assert_eq!(chunk_size(&Some("0".to_string())), DEFAULT_CHUNK_SIZE_BYTES);
    assert_eq!(chunk_size(&Some("52428801".to_string())), DEFAULT_CHUNK_SIZE_BYTES);
    assert_eq!(chunk_size(&Some("52428800".to_string())), 52428800);
    assert_eq!(chunk_size(&Some("many".to_string())), DEFAULT_CHUNK_SIZE_BYTES);
    assert!(!uploads_in_chunks(50 * 1024 * 1024));
    assert!(uploads_in_chunks(50 * 1024 * 1024 + 1));
    assert!(is_chunked_blob("a/b.chunks.json"));
    assert!(!is_chunked_blob("a/b.bin"));
    assert_eq!(upload_concurrency(0, 5), 1);
    assert_eq!(upload_concurrency(99, 50), 16);
    assert_eq!(download_concurrency(9, 3), 3);
    assert_eq!(
        chunked_upload_text("s", 100, 3, 40, 2),
        "chunked upload s: 100 bytes in 3 chunk(s) of up to 40 bytes, 2 parallel upload(s)"
    );
    assert_eq!(
        chunked_download_text("s", 100, 3, 2),
        "chunked download s: 100 bytes in 3 chunk(s), 2 parallel download(s)"
    );
    assert_eq!(chunk_done_text("uploaded", 0, 3, "s"), "uploaded chunk 1/3 for s");
}

fn answer(ok: bool, manifest: Option<SessionManifest>, skipped: Option<bool>) -> ApiManifestResponse {
    ApiManifestResponse { ok, error: Some("e".to_string()), message: None, manifest, skipped }
}

#[test]
fn what_was_pushed_is_restored() {
    let raw = b"{\"type\":\"session_meta\"}\nmore";
    let envelope = encrypted_envelope(raw, "key");
    let session = test_local_session("s1", "sessions/x.jsonl", 1);
    let manifest = version_manifest(&session, &sha256_hex(raw), &envelope, 77, "dev");
    assert_eq!(manifest.encrypted_size, envelope.len());
    assert_eq!(manifest.uploaded_at_ms, 77);
    assert_eq!(manifest.blob_key, "");
    check_blob(&envelope, &manifest).unwrap();
    let header = header_of(envelope_header(&envelope).unwrap());
    assert_eq!(restore_payload(&envelope, &header, &manifest, "key").unwrap(), raw);

    let mut broken = envelope.clone();
    let last = broken.len() - 1;
    broken[last] ^= 1;
    assert_eq!(check_blob(&broken, &manifest).unwrap_err(), "downloaded encrypted blob hash does not match manifest");
    assert!(restore_payload(&broken, &header, &manifest, "key").is_err());
    let mut other = version_manifest(&session, &sha256_hex(b"other"), &envelope, 77, "dev");
    assert_eq!(
        restore_payload(&envelope, &header, &other, "key").unwrap_err(),
        "decrypted rollout hash does not match manifest"
    );
    other.encrypted_sha256 = "x".to_string();
    assert!(check_blob_hash("x", &other).is_ok());
    assert!(check_restored(vec![1], "h", &other).is_err());
}

#[test]
fn a_version_is_met_once() {
    let mut seen = SeenVersions::new();
    assert!(seen.note("s", "1"));
    assert!(seen.note("s", "2"));
    assert!(seen.note("t", "1"));
    assert!(!seen.note("s", "1"));
    assert_eq!(seen.keys.len(), 3);
}

#[test]
fn a_version_in_the_cloud_is_not_uploaded_again() {
    let same = Ok(Some(manifest("s", "h", 1)));
    match after_remote_check("s", "h", &same) {
        Ok(PushStep::Skip(text)) => assert_eq!(text, "skipped s: already uploaded h"),
        _ => panic!(),
    }
    assert!(matches!(after_remote_check("s", "i", &same), Ok(PushStep::Upload)));
    assert!(matches!(after_remote_check("s", "h", &Ok(None)), Ok(PushStep::Upload)));
    assert_eq!(
        after_remote_check("s", "h", &Err("down".to_string())).err().unwrap(),
        "cannot verify remote state for s before upload: down\nRe-run with --force to upload without the preflight duplicate check."
    );
    match after_version_noted("s", "h", false, true) {
        PushStep::Skip(text) => assert_eq!(text, "skipped s: duplicate local version h"),
        _ => panic!(),
    }
    assert!(matches!(after_version_noted("s", "h", true, true), PushStep::Upload));
    assert!(matches!(after_version_noted("s", "h", true, false), PushStep::AskRemote));
    assert!(says_no_version(404) && !says_no_version(200));
    assert_eq!(latest_version_optional(answer(true, None, None)).unwrap().is_none(), true);
    assert_eq!(latest_version_optional(answer(false, None, None)).err().unwrap(), "latest failed: e");
    assert_eq!(
        latest_version_required(answer(true, None, None), "s").err().unwrap(),
        "no cloud manifest found for session s"
    );
    assert_eq!(latest_version_required(answer(true, Some(manifest("s", "h", 1)), None), "s").unwrap().raw_sha256, "h");
}

#[test]
fn pushes_are_counted_and_told() {
    let mut tally = PushTally::new();
    let (outcome, text) = push_outcome(&answer(true, None, None), "s", "h").ok().unwrap();
    assert_eq!(text, "uploaded s -> API h");
    tally.count(&outcome);
    let (outcome, text) = push_outcome(&answer(true, None, Some(true)), "s", "h").ok().unwrap();
    assert_eq!(text, "skipped s: already existed on API h");
    assert!(matches!(outcome, PushSessionOutcome::Skipped));
    tally.count(&outcome);
    assert_eq!(push_outcome(&answer(false, None, None), "s", "h").err().unwrap(), "push failed: e");
    let mut all = PushTally::new();
    all.count_group(&tally);
    all.count_group(&tally);
    assert_eq!(all.text(), "cloud push ok: uploaded 2, skipped 2");
    assert_eq!(checking_text(&test_local_session("s", "p", 1)), "checking s  1 bytes  p");
    assert_eq!(uploading_text("s", "h", 9), "uploading s: raw h, encrypted 9 bytes");
    assert_eq!((session_uploads(8, 3), session_uploads(2, 3)), (3, 2));
    assert_eq!(session_uploads_text(2), "session upload concurrency: 2 parallel session group(s)");
    assert_eq!(next_upload_time(10, 3), 10);
    assert_eq!(next_upload_time(10, 10), 11);
    assert_eq!(next_upload_time(10, u128::MAX), u128::MAX);
}

#[test]
fn restores_are_decided_counted_and_told() {
    let hash = |h: &str| Some(h.to_string());
    assert!(matches!(before_restore(&None, "h", false, "/p"), Ok(RestoreStep::Download)));
    assert!(matches!(before_restore(&hash("x"), "h", true, "/p"), Ok(RestoreStep::Download)));
    match before_restore(&hash("h"), "h", false, "/p") {
        Ok(RestoreStep::Skip(text)) => assert_eq!(text, "already restored: /p"),
        _ => panic!(),
    }
    assert_eq!(
        before_restore(&hash("x"), "h", false, "/p").err().unwrap(),
        "/p already exists with different content. Use --force to overwrite."
    );
    let mut tally = PullTally::new();
    tally.count(&RestoreOutcome::Restored);
    tally.count(&RestoreOutcome::Skipped);
    tally.count(&RestoreOutcome::DryRun);
    tally.count(&RestoreOutcome::DryRun);
    let tail = "\nrun provider metadata sync after restore if this machine uses a different provider name";
    assert_eq!(tally.text(false), format!("cloud pull ok: restored 1, skipped 1{tail}"));
    assert_eq!(tally.text(true), format!("cloud pull dry run ok: planned 2, skipped 1{tail}"));
    let version = manifest("s", "0123456789abcdef", 1);
    match finish_restore(false, 5, &version, "/p") {
        RestoreEnd::Write(text) => {
            assert_eq!(text, "restored s -> /p\nverified local decrypt/decompress: raw 0123456789ab")
        }
        _ => panic!(),
    }
    match finish_restore(true, 5, &version, "/p") {
        RestoreEnd::DryRun(text) => assert_eq!(text, "dry run: would restore 5 bytes to /p"),
        _ => panic!(),
    }
}

#[test]
fn answers_describe_chunks() {
    let none: Option<String> = None;
    let chunks = vec![describe_chunk(0, b"abc")];
    let described = described_chunks(true, Some(chunks), &none, &none).unwrap();
    assert_eq!((described.len(), described[0].size), (1, 3));
    assert_eq!(
        described_chunks(false, None, &Some("gone".to_string()), &none).err().unwrap(),
        "get chunk manifest failed: gone"
    );
    assert_eq!(
        described_chunks(true, None, &none, &none).err().unwrap(),
        "get chunk manifest failed: missing chunks"
    );
    assert_eq!(described_chunks(true, Some(Vec::new()), &none, &none).err().unwrap(), "chunk manifest is empty");
}

#[test]
fn a_payload_is_sealed_under_the_nonce_that_was_drawn() {
    let failed = encrypt_with_nonce(b"raw", Err("no entropy".to_string()), "key", 5);
    assert_eq!(failed.err().unwrap(), "cannot draw a nonce: no entropy");
    let nonce = vec![7u8; 24];
    let a = encrypt_with_nonce(b"raw", Ok(nonce.clone()), "key", 5).unwrap();
    let b = encrypt_with_nonce(b"raw", Ok(nonce.clone()), "key", 5).unwrap();
    assert_eq!(a.ciphertext, b.ciphertext);
    assert_eq!(a.header.nonce, "BwcHBwcHBwcHBwcHBwcHBwcHBwcHBwcH");
    assert_eq!(a.header.raw_sha256, sha256_hex(b"raw"));
    let envelope = frame_envelope(b"{}", &a.ciphertext);
    assert_eq!(decrypt_payload(&envelope, &a.header, "key").unwrap(), b"raw");
    assert!(decrypt_payload(&envelope, &a.header, "other").unwrap_err().starts_with("decrypt failed: Sync Key does not match"));
}
