use iperf::download::{
    model_dir, next_retry_secs, parse_role, part_complete, select_files, to_hex, verdict, AttemptOutcome, CheckResult,
    Downloader, FileInfo, FileStatus, Sha256State, HubDownloader, NextAction, RetryState, RoleError, Verdict,
};

fn file(name: &str) -> FileInfo {
    FileInfo { filename: name.to_string(), sha256: None }
}

fn names(v: &[FileInfo]) -> Vec<String> {
    v.iter().map(|f| f.filename.clone()).collect()
}

#[test]
fn roles_read_as_n_of_m() {
    assert_eq!(parse_role("2/4"), Ok((2, 4)));
    assert_eq!(parse_role("2-4"), Err(RoleError::Format));
    assert_eq!(parse_role("a/4"), Err(RoleError::Number("a".to_string())));
    assert_eq!(parse_role("1/b"), Err(RoleError::Total("b".to_string())));
    assert_eq!(parse_role("0/4"), Err(RoleError::OutOfRange(0, 4)));
    assert_eq!(parse_role("5/4"), Err(RoleError::OutOfRange(5, 4)));
}

#[test]
fn roles_share_weights_and_keep_other_files() {
    let files = vec![
        file("config.json"),
        file("a.safetensors"),
        file("b.safetensors"),
        file("c.safetensors"),
        file("tokenizer.json"),
    ];
    let first = select_files(&files, Some((1, 2)), 0, 0, None);
    let second = select_files(&files, Some((2, 2)), 0, 0, None);
    assert!(names(&first).contains(&"a.safetensors".to_string()));
    assert!(names(&first).contains(&"config.json".to_string()));
    // the files other than weights go to the first role only
    assert!(names(&first).contains(&"tokenizer.json".to_string()));
    assert!(!names(&second).contains(&"tokenizer.json".to_string()));
    let mut weights: Vec<String> = names(&first).into_iter().chain(names(&second)).filter(|n| n.ends_with(".safetensors")).collect();
    weights.sort();
    assert_eq!(weights, vec!["a.safetensors", "b.safetensors", "c.safetensors"]);
}

#[test]
fn target_picks_one_file() {
    let files = vec![file("x.safetensors"), file("y.json")];
    let only = select_files(&files, None, 0, 0, Some("y.json"));
    assert_eq!(names(&only), vec!["y.json"]);
}

#[test]
fn checksums_in_lowercase_hex() {
    assert_eq!(to_hex(&[0x00, 0xab, 0x7f, 0xff]), "00ab7fff");
    let mut r = CheckResult::new(3);
    assert!(r.is_ok());
    assert!(r.record_digest("a", "00", "00"));
    assert!(!r.record_digest("b", "01", "00"));
    r.record_missing("c");
    assert!(!r.is_ok());
    assert_eq!(r.verified, 1);
    assert_eq!(r.corrupted, vec!["b"]);
    assert_eq!(r.missing, vec!["c"]);
}

#[test]
fn download_addresses() {
    let d = Downloader::new("Qwen/Q", "main", "./models/Qwen_Q", None);
    assert_eq!(d.list_url(), "https://huggingface.co/api/models/Qwen/Q/tree/main");
    assert_eq!(d.file_url("a.json"), "https://huggingface.co/Qwen/Q/resolve/main/a.json");
    let h = HubDownloader::new("http://hub:8080", "Qwen/Q", "d", Some("http://p"));
    assert_eq!(h.list_url(), "http://hub:8080/models/Qwen/Q");
    assert_eq!(h.file_url("a.json"), "http://hub:8080/models/Qwen/Q/a.json");
    assert_eq!(model_dir("Qwen/Q"), "./models/Qwen_Q");
}

#[test]
fn retries_back_off_to_five_minutes() {
    assert_eq!(next_retry_secs(1), 2);
    assert_eq!(next_retry_secs(128), 256);
    assert_eq!(next_retry_secs(256), 300);
}

#[test]
fn checksum_verdicts() {
    assert_eq!(verdict(Some("ab"), Some("ab")), Verdict::Verified);
    assert_eq!(verdict(Some("ab"), Some("cd")), Verdict::Mismatch);
    assert_eq!(verdict(Some("ab"), None), Verdict::Unverified);
    assert_eq!(verdict(None, Some("ab")), Verdict::Unverified);
}

#[test]
fn partial_downloads_complete_at_full_size() {
    assert!(part_complete(100, 100));
    assert!(part_complete(120, 100));
    assert!(!part_complete(99, 100));
    // an unknown size never counts as complete
    assert!(!part_complete(100, 0));
}

#[test]
fn offset_and_count_cut_the_whole_list() {
    let files = vec![file("config.json"), file("model.safetensors")];
    assert_eq!(names(&select_files(&files, None, 1, 0, None)), vec!["model.safetensors"]);
    assert_eq!(names(&select_files(&files, None, 0, 1, None)), vec!["config.json"]);
    assert_eq!(names(&select_files(&files, None, 0, 0, None)), vec!["config.json", "model.safetensors"]);
    assert!(select_files(&files, None, 5, 0, None).is_empty());
}

#[test]
fn adjoining_ranges_split_the_files() {
    let all: Vec<FileInfo> = (0..25).map(|i| file(&format!("f{i:02}.bin"))).collect();
    let first = select_files(&all, None, 0, 10, None);
    let second = select_files(&all, None, 10, 10, None);
    let rest = select_files(&all, None, 20, 0, None);
    assert_eq!(names(&first), (0..10).map(|i| format!("f{i:02}.bin")).collect::<Vec<_>>());
    assert_eq!(names(&second), (10..20).map(|i| format!("f{i:02}.bin")).collect::<Vec<_>>());
    let joined: Vec<String> = names(&first).into_iter().chain(names(&second)).chain(names(&rest)).collect();
    assert_eq!(joined, names(&all));
}

#[test]
fn retries_back_off_and_resume() {
    let mut s = RetryState::start(100);
    assert_eq!(s, RetryState { offset: 100, wait_secs: 1 });
    assert_eq!(s.after(AttemptOutcome::Failed { part_len: 500 }), NextAction::Retry { sleep_secs: 1, discard_part: false });
    assert_eq!(s, RetryState { offset: 500, wait_secs: 2 });
    assert_eq!(s.after(AttemptOutcome::Completed(Verdict::Mismatch)), NextAction::Retry { sleep_secs: 2, discard_part: true });
    assert_eq!(s, RetryState { offset: 0, wait_secs: 4 });
    assert_eq!(s.after(AttemptOutcome::Completed(Verdict::Verified)), NextAction::Finish);
    assert_eq!(s, RetryState { offset: 0, wait_secs: 4 });
    assert_eq!(s.after(AttemptOutcome::Completed(Verdict::Unverified)), NextAction::Finish);
}

#[test]
fn waits_reach_five_minutes_and_stay() {
    let mut s = RetryState::start(0);
    let mut sleeps = Vec::new();
    for _ in 0..12 {
        match s.after(AttemptOutcome::Failed { part_len: 0 }) {
            NextAction::Retry { sleep_secs, .. } => sleeps.push(sleep_secs),
            NextAction::Finish => panic!("a failed attempt is retried"),
        }
    }
    assert_eq!(sleeps, vec![1, 2, 4, 8, 16, 32, 64, 128, 256, 300, 300, 300]);
}

#[test]
fn sha256_of_known_inputs() {
    assert_eq!(Sha256State::new().finish_hex(), "e3b0c44298fc1c149afbf4c8996fb92427ae41e4649b934ca495991b7852b855");
    let mut s = Sha256State::new();
    s.update(b"abc");
    assert_eq!(s.finish_hex(), "ba7816bf8f01cfea414140de5dae2223b00361a396177a9cb410ff61f20015ad");
}

#[test]
fn sha256_does_not_depend_on_chunking() {
    let mut whole = Sha256State::new();
    whole.update(b"The quick brown fox jumps over the lazy dog");
    let mut parts = Sha256State::new();
    parts.update(b"The quick brown ");
    parts.update(b"");
    parts.update(b"fox jumps over the lazy dog");
    let a = whole.finish_hex();
    assert_eq!(a, "d7a8fbb307d7809469ca9abcb0082e4f8d5651e46d3cdb762d02d0bf37c9e592");
    assert_eq!(parts.finish_hex(), a);
}

#[test]
fn every_checked_file_counts_once() {
    let mut r = CheckResult::new(5);
    assert_eq!(r.record_file("a", false, Some("00"), None), FileStatus::Missing);
    assert_eq!(r.record_file("b", true, Some("00"), Some("00")), FileStatus::Verified);
    assert_eq!(r.record_file("c", true, Some("00"), Some("01")), FileStatus::Corrupted);
    assert_eq!(r.record_file("d", true, Some("00"), None), FileStatus::HashFailed);
    assert_eq!(r.record_file("e", true, None, None), FileStatus::NoChecksum);
    assert_eq!(r.missing, vec!["a"]);
    assert_eq!(r.corrupted, vec!["c"]);
    assert_eq!(r.verified, 1);
    assert_eq!(r.no_checksum, 2);
    assert_eq!(r.verified + r.no_checksum + r.missing.len() + r.corrupted.len(), r.total);
    assert!(!r.is_ok());
}

#[test]
fn file_checksum_against_hub_listing() {
    let mut s = Sha256State::new();
    s.update(b"abc");
    let computed = s.finish_hex();
    let expected = "ba7816bf8f01cfea414140de5dae2223b00361a396177a9cb410ff61f20015ad";
    assert_eq!(verdict(Some(expected), Some(&computed)), Verdict::Verified);
    let mut r = CheckResult::new(1);
    assert_eq!(r.record_file("m.safetensors", true, Some(expected), Some(&computed)), FileStatus::Verified);
    assert!(r.is_ok());
}

#[test]
fn summary_lists_problems_and_verdict() {
    let mut r = CheckResult::new(3);
    r.record_file("a.bin", false, None, None);
    r.record_file("b.bin", true, Some("00"), Some("01"));
    r.record_file("c.bin", true, None, None);
    assert_eq!(
        r.summary(),
        "\n=== Check Summary ===\nTotal files: 3\nVerified (SHA256): 0\nNo checksum available: 1\nMissing: 1\nCorrupted: 1\n\nMissing files:\n  - a.bin\n\nCorrupted files:\n  - b.bin\n\n\u{2717} Some files are missing or corrupted\n"
    );
    let mut ok = CheckResult::new(1);
    ok.record_file("d.bin", true, Some("ab"), Some("ab"));
    assert_eq!(
        ok.summary(),
        "\n=== Check Summary ===\nTotal files: 1\nVerified (SHA256): 1\nNo checksum available: 0\nMissing: 0\nCorrupted: 0\n\n\u{2713} All files present and verified\n"
    );
}
