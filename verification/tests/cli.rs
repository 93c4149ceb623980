//! One-shot download mode: selectors, resolution, token precedence, the run
//! tally and the reporter's decisions.

use rust_hf_downloader::cli::{
    apply_outcome_event, apply_verify_outcome, count_outcomes, merge_token, parse_selector,
    resolve_files, truncate_path, valid_model_id, DownloadArgs, FileDto, FileSpec, Notice,
    Reporter, ResolveError, RunTally, Selector, EXIT_AUTH, EXIT_FAILURE, EXIT_OK,
};
use rust_hf_downloader::models::{
    FileOutcome, ModelMetadata, QuantizationGroup, QuantizationInfo, RepoFile, VerifyOutcome,
};

fn file_spec(filename: &str, size: u64) -> FileSpec {
    FileSpec {
        filename: filename.to_string(),
        size_bytes: size,
        sha256: None,
    }
}

fn metadata_with(files: &[(&str, Option<u64>)]) -> ModelMetadata {
    ModelMetadata {
        model_id: "a/b".to_string(),
        library_name: None,
        pipeline_tag: None,
        card_data: None,
        siblings: files
            .iter()
            .map(|(name, size)| RepoFile {
                rfilename: name.to_string(),
                size: *size,
                lfs: None,
            })
            .collect(),
        tags: Vec::new(),
    }
}

#[test]
fn resolve_default_single_file_repo() {
    let metadata = metadata_with(&[("only.gguf", Some(10))]);
    let files = resolve_files(&metadata, &[], &Selector::Default).unwrap();
    assert_eq!(files, vec![file_spec("only.gguf", 10)]);
}

#[test]
fn resolve_default_multi_file_repo_is_ambiguous_with_list() {
    let metadata = metadata_with(&[("a.gguf", Some(10)), ("b.gguf", Some(20))]);
    let err = resolve_files(&metadata, &[], &Selector::Default).unwrap_err();
    match err {
        ResolveError::Ambiguous { available } => {
            assert_eq!(available.len(), 2);
            assert_eq!(available[1].filename, "b.gguf");
        }
        other => panic!("expected Ambiguous, got {:?}", other),
    }
}

#[test]
fn resolve_quant_case_insensitive_from_groups() {
    let metadata = metadata_with(&[]);
    let quants = vec![QuantizationGroup {
        quant_type: "Q4_K_M".to_string(),
        files: vec![
            QuantizationInfo {
                quant_type: "Q4_K_M".to_string(),
                filename: "m-00001-of-00002.gguf".to_string(),
                size: 1,
                sha256: Some("dead".to_string()),
            },
            QuantizationInfo {
                quant_type: "Q4_K_M".to_string(),
                filename: "m-00002-of-00002.gguf".to_string(),
                size: 2,
                sha256: None,
            },
        ],
        total_size: 3,
    }];
    let files = resolve_files(&metadata, &quants, &Selector::Quant("q4_k_m".to_string())).unwrap();
    assert_eq!(files.len(), 2);
    assert_eq!(files[0].sha256.as_deref(), Some("dead"));
    assert_eq!(files[1].filename, "m-00002-of-00002.gguf");
}

#[test]
fn resolve_quant_miss_lists_available() {
    let metadata = metadata_with(&[("a.gguf", Some(10))]);
    let err = resolve_files(&metadata, &[], &Selector::Quant("Q8_0".to_string())).unwrap_err();
    assert!(matches!(err, ResolveError::NoFilesMatch { .. }));
    assert_eq!(err.code(), "no_files_match");
}

#[test]
fn resolve_files_exact_and_missing() {
    let metadata = metadata_with(&[("a.gguf", Some(10)), ("b.gguf", Some(20))]);
    let files = resolve_files(&metadata, &[], &Selector::Files(vec!["b.gguf".to_string()])).unwrap();
    assert_eq!(files, vec![file_spec("b.gguf", 20)]);

    let err = resolve_files(
        &metadata,
        &[],
        &Selector::Files(vec!["nope.gguf".to_string()]),
    )
    .unwrap_err();
    assert_eq!(err.code(), "no_files_match");
    assert_eq!(err.available().len(), 2);
}

#[test]
fn resolve_files_dedups_repeatable_selectors() {
    let metadata = metadata_with(&[("a.gguf", Some(10))]);
    let files = resolve_files(
        &metadata,
        &[],
        &Selector::Files(vec!["a.gguf".to_string(), "a.gguf".to_string()]),
    )
    .unwrap();
    assert_eq!(files.len(), 1);
}

#[test]
fn resolve_all_skips_directories_and_unsized() {
    let metadata = metadata_with(&[
        ("a.gguf", Some(10)),
        ("subdir/", None),
        ("broken", None),
    ]);
    let files = resolve_files(&metadata, &[], &Selector::All).unwrap();
    assert_eq!(files, vec![file_spec("a.gguf", 10)]);
}

#[test]
fn resolve_error_messages() {
    let metadata = metadata_with(&[("a.gguf", Some(1)), ("b.gguf", Some(2))]);
    let err = resolve_files(&metadata, &[], &Selector::Default).unwrap_err();
    assert_eq!(err.code(), "ambiguous");
    assert_eq!(
        err.message(),
        "model has 2 downloadable file(s); specify --quant <TYPE>, --file <PATH>, or --all"
    );
    let err = resolve_files(&metadata, &[], &Selector::Files(vec!["x".to_string()])).unwrap_err();
    assert_eq!(err.message(), "no downloadable file matches --file x");
    let err = resolve_files(&metadata, &[], &Selector::Quant("Q2_K".to_string())).unwrap_err();
    assert_eq!(err.message(), "no downloadable file matches --quant Q2_K");
}

fn download_args(quant: Option<&str>, file: &[&str], all: bool) -> DownloadArgs {
    DownloadArgs {
        model_id: "a/b".to_string(),
        quant: quant.map(String::from),
        file: file.iter().map(|f| f.to_string()).collect(),
        all,
        output: None,
        token: None,
        skip_verification: false,
        json: false,
        quiet: false,
    }
}

#[test]
fn selector_default_when_none_given() {
    assert_eq!(
        parse_selector(&download_args(None, &[], false)).unwrap(),
        Selector::Default
    );
}

#[test]
fn selector_conflicts_rejected() {
    assert!(parse_selector(&download_args(Some("Q4"), &[], true)).is_err());
    assert!(parse_selector(&download_args(None, &["a.gguf"], true)).is_err());
    assert!(parse_selector(&download_args(Some("Q4"), &["a.gguf"], false)).is_err());
}

#[test]
fn selector_single_choice_is_kept() {
    assert_eq!(
        parse_selector(&download_args(Some("Q4"), &[], false)).unwrap(),
        Selector::Quant("Q4".to_string())
    );
    assert_eq!(
        parse_selector(&download_args(None, &["x", "y"], false)).unwrap(),
        Selector::Files(vec!["x".to_string(), "y".to_string()])
    );
    assert_eq!(parse_selector(&download_args(None, &[], true)).unwrap(), Selector::All);
    assert_eq!(
        parse_selector(&download_args(Some("Q4"), &["a"], true)).unwrap_err(),
        "use only one of --quant, --file, or --all"
    );
}

#[test]
fn model_id_validation() {
    assert!(valid_model_id("a/b"));
    assert!(!valid_model_id("a"));
    assert!(!valid_model_id("a/b/c"));
    assert!(!valid_model_id("/b"));
    assert!(!valid_model_id("a/"));
    assert!(!valid_model_id(""));
}

#[test]
fn token_precedence_flag_env_then_file() {
    let f = Some("flag".to_string());
    let e = Some("env".to_string());
    let c = Some("cfg".to_string());
    assert_eq!(
        merge_token(f.clone(), e.clone(), c.clone()).as_deref(),
        Some("flag")
    );
    assert_eq!(
        merge_token(None, e.clone(), c.clone()).as_deref(),
        Some("env")
    );
    assert_eq!(merge_token(None, None, c.clone()).as_deref(), Some("cfg"));
    assert_eq!(merge_token(None, None, None), None);
    assert_eq!(
        merge_token(Some(String::new()), e, c).as_deref(),
        Some("env")
    );
}

#[test]
fn truncate_keeps_tail() {
    assert_eq!(truncate_path("short.gguf", 20), "short.gguf");
    let long = "author/model-name/subdir/file-Q4_K_M.gguf";
    let cut = truncate_path(long, 20);
    assert!(cut.starts_with('…'));
    assert!(cut.ends_with("Q4_K_M.gguf"));
    assert_eq!(cut.chars().count(), 20);
}

#[test]
fn truncate_path_edge_limits() {
    assert_eq!(truncate_path("abc", 0), "…");
    assert_eq!(truncate_path("abc", 1), "…");
    assert_eq!(truncate_path("abcd", 3), "…cd");
    assert_eq!(truncate_path("", 0), "");
}

#[test]
fn file_dto_copies_spec() {
    let spec = FileSpec {
        filename: "m.gguf".to_string(),
        size_bytes: 7,
        sha256: Some("ab".to_string()),
    };
    let dto = FileDto::from(&spec);
    assert_eq!(dto.filename, "m.gguf");
    assert_eq!(dto.size_bytes, 7);
    assert_eq!(dto.sha256.as_deref(), Some("ab"));
}

#[test]
fn tally_exit_codes() {
    let mut t = RunTally::new(2, 10);
    assert_eq!(t.exit_code(), EXIT_OK);
    t.hash_mismatch = 1;
    assert_eq!(t.exit_code(), EXIT_FAILURE);
    t.auth_required = true;
    assert_eq!(t.exit_code(), EXIT_AUTH);
    let s = t.summary();
    assert_eq!((s.files, s.hash_mismatch, s.total_bytes), (2, 1, 10));
}

#[test]
fn outcome_events_update_tally() {
    let mut t = RunTally::new(3, 0);
    let n = apply_outcome_event(
        &FileOutcome::Complete { filename: "a".to_string(), bytes: 5 },
        &mut t,
    );
    assert!(matches!(n, Notice::FileComplete { status: "downloaded", bytes: 5, .. }));
    let n = apply_outcome_event(
        &FileOutcome::AlreadyExists { filename: "b".to_string(), bytes: 6 },
        &mut t,
    );
    assert!(matches!(n, Notice::FileComplete { status: "already_exists", .. }));
    let n = apply_outcome_event(
        &FileOutcome::Failed { filename: "c".to_string(), reason: "boom".to_string() },
        &mut t,
    );
    match n {
        Notice::Error { code, message } => {
            assert_eq!(code, "download_failed");
            assert_eq!(message, "c: boom");
        }
        other => panic!("unexpected {:?}", other),
    }
    let n = apply_outcome_event(&FileOutcome::AuthRequired { model_id: "o/m".to_string() }, &mut t);
    match n {
        Notice::Error { code, message } => {
            assert_eq!(code, "auth_required");
            assert_eq!(message, "authentication required for o/m (pass --token or set $HF_TOKEN)");
        }
        other => panic!("unexpected {:?}", other),
    }
    assert_eq!((t.downloaded, t.skipped, t.failed), (1, 1, 1));
    assert!(t.auth_required);
    assert_eq!(t.failures, vec!["c: boom".to_string()]);
    assert_eq!(t.exit_code(), EXIT_AUTH);
}

#[test]
fn recount_replaces_streamed_counts() {
    let mut t = RunTally::new(2, 0);
    t.downloaded = 9;
    t.verified = 4;
    count_outcomes(
        &[
            FileOutcome::Complete { filename: "a".to_string(), bytes: 1 },
            FileOutcome::Failed { filename: "b".to_string(), reason: "x".to_string() },
        ],
        &mut t,
    );
    assert_eq!((t.downloaded, t.skipped, t.failed, t.verified), (1, 0, 1, 4));
    assert!(!t.auth_required);
    assert_eq!(t.failures, vec!["b: x".to_string()]);
}

#[test]
fn verify_outcomes_update_tally() {
    let mut t = RunTally::new(1, 0);
    let n = apply_verify_outcome(&VerifyOutcome::Verified { filename: "a".to_string() }, &mut t);
    assert!(matches!(n, Notice::VerificationResult { ok: true, expected_sha256: None, .. }));
    let n = apply_verify_outcome(
        &VerifyOutcome::Mismatch {
            filename: "b".to_string(),
            expected_sha256: "e".to_string(),
            actual_sha256: "a".to_string(),
        },
        &mut t,
    );
    match n {
        Notice::VerificationResult { ok, expected_sha256, actual_sha256, .. } => {
            assert!(!ok);
            assert_eq!(expected_sha256.as_deref(), Some("e"));
            assert_eq!(actual_sha256.as_deref(), Some("a"));
        }
        other => panic!("unexpected {:?}", other),
    }
    let n = apply_verify_outcome(&VerifyOutcome::Missing { filename: "c".to_string() }, &mut t);
    match n {
        Notice::Error { code, message } => {
            assert_eq!(code, "verification_error");
            assert_eq!(message, "c: file not found for verification");
        }
        other => panic!("unexpected {:?}", other),
    }
    assert_eq!((t.verified, t.hash_mismatch), (1, 1));
    assert_eq!(t.mismatches, vec!["b".to_string()]);
    assert_eq!(t.exit_code(), EXIT_FAILURE);
}

#[test]
fn reporter_filters_status_lines() {
    let mut r = Reporter::new(false, false, true);
    assert!(r.progress_to_tty());
    assert!(r.status_line("Starting download: x").line.is_none());
    r.mark_progress_drawn();
    let e = r.status_line("AUTH_ERROR:o/m");
    assert!(e.clear_progress);
    assert_eq!(
        e.line.as_deref(),
        Some("authentication required for o/m (pass --token or set $HF_TOKEN)")
    );
    assert_eq!(r.status_line("hello").line.as_deref(), Some("hello"));
    assert!(!r.finish().clear_progress);
    assert_eq!(r.destination_line("/tmp/x").line.as_deref(), Some("Destination: /tmp/x"));

    let mut q = Reporter::new(false, true, true);
    assert!(!q.progress_to_tty());
    assert!(q.status_line("hello").line.is_none());
    assert_eq!(q.status_line("Error: bad").line.as_deref(), Some("Error: bad"));
    assert_eq!(q.status_line("Retrying in 1s").line.as_deref(), Some("Retrying in 1s"));
    assert!(q.destination_line("/tmp/x").line.is_none());

    let mut j = Reporter::new(true, false, true);
    assert!(j.is_json());
    assert!(j.status_line("Error: bad").line.is_none());
}
