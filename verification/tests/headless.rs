//! Command-line helpers: errors, model IDs, summaries, durations.

use rust_hf_downloader::headless::{
    calculate_gguf_download_summary, calculate_non_gguf_download_summary, check_gated_model, format_duration,
    model_download_queue, validate_model_id, GatedValue, HeadlessError, ProgressReporter, EXIT_AUTH_ERROR,
    EXIT_ERROR, EXIT_INVALID_ARGS,
};
use rust_hf_downloader::models::{LfsInfo, ModelMetadata, QuantizationGroup, QuantizationInfo, RepoFile};

fn group(q: &str, files: &[&str], total: u64) -> QuantizationGroup {
    QuantizationGroup {
        quant_type: q.to_string(),
        files: files
            .iter()
            .map(|f| QuantizationInfo {
                quant_type: q.to_string(),
                filename: f.to_string(),
                size: 1,
                sha256: None,
            })
            .collect(),
        total_size: total,
    }
}

#[test]
fn exit_codes_by_error_kind() {
    assert_eq!(HeadlessError::AuthError("x".into()).exit_code(), EXIT_AUTH_ERROR);
    assert_eq!(HeadlessError::ApiError("x".into()).exit_code(), EXIT_ERROR);
    assert_eq!(HeadlessError::ConfigError("x".into()).exit_code(), EXIT_ERROR);
}

#[test]
fn durations() {
    assert_eq!(format_duration(5), "5s");
    assert_eq!(format_duration(65), "1m 5s");
    assert_eq!(format_duration(3725), "1h 2m");
}

#[test]
fn model_id_checks() {
    assert!(validate_model_id("a/b").is_ok());
    for bad in ["ab", "a/b/c", "/b", "a/", ""] {
        match validate_model_id(bad) {
            Err(e @ HeadlessError::InvalidArgs(_)) => {
                assert_eq!(e.exit_code(), EXIT_INVALID_ARGS);
                match e {
                    HeadlessError::InvalidArgs(m) => {
                        assert_eq!(m, "Invalid model ID format. Expected: 'author/model-name'")
                    }
                    _ => unreachable!(),
                }
            }
            other => panic!("unexpected {:?}", other),
        }
    }
}

#[test]
fn gguf_summary_selects_and_lists() {
    let groups = vec![group("Q4_K_M", &["a", "b"], 2048), group("Q8_0", &["c"], 10)];
    let (files, total) = calculate_gguf_download_summary(&groups, Some("Q8_0"), false).unwrap();
    assert_eq!((files, total), (vec!["c".to_string()], 10));
    let (files, total) = calculate_gguf_download_summary(&groups, None, true).unwrap();
    assert_eq!(files, vec!["a", "b", "c"]);
    assert_eq!(total, 2058);
    match calculate_gguf_download_summary(&groups, Some("Q2_K"), false) {
        Err(HeadlessError::DownloadError(m)) => assert_eq!(
            m,
            "Quantization 'Q2_K' not found\n\nAvailable quantizations:\n  Q4_K_M (2 files, 2.00 KB)\n  Q8_0 (1 files, 10 B)"
        ),
        other => panic!("unexpected {:?}", other),
    }
    match calculate_gguf_download_summary(&groups, None, false) {
        Err(HeadlessError::DownloadError(m)) => {
            assert!(m.starts_with("Must specify --quantization or --all\n\nAvailable quantizations:\n  Q4_K_M"))
        }
        other => panic!("unexpected {:?}", other),
    }
}

#[test]
fn non_gguf_summary_needs_all() {
    let metadata = ModelMetadata {
        model_id: "a/b".into(),
        library_name: None,
        pipeline_tag: None,
        card_data: None,
        siblings: vec![
            RepoFile { rfilename: "x".into(), size: Some(3), lfs: None },
            RepoFile { rfilename: "dir/".into(), size: None, lfs: None },
            RepoFile { rfilename: "y".into(), size: Some(4), lfs: None },
        ],
        tags: vec![],
    };
    assert!(matches!(
        calculate_non_gguf_download_summary(&metadata, false),
        Err(HeadlessError::DownloadError(_))
    ));
    let (files, total) = calculate_non_gguf_download_summary(&metadata, true).unwrap();
    assert_eq!((files, total), (vec!["x".to_string(), "y".to_string()], 7));
}

#[test]
fn reporter_mode() {
    assert!(ProgressReporter::new(true).is_json());
    assert!(!ProgressReporter::new(false).is_json());
}

#[test]
fn gated_models_need_a_token() {
    let tok = Some("hf_x".to_string());
    assert!(check_gated_model("a/b", &GatedValue::Text("auto".into()), &tok).is_ok());
    assert!(check_gated_model("a/b", &GatedValue::Flag(false), &None).is_ok());
    assert!(check_gated_model("a/b", &GatedValue::Text("no".into()), &None).is_ok());
    assert!(check_gated_model("a/b", &GatedValue::Other, &None).is_ok());
    match check_gated_model("a/b", &GatedValue::Text("manual".into()), &Some(String::new())) {
        Err(HeadlessError::AuthError(m)) => {
            assert!(m.starts_with("Model 'a/b' is gated and requires authentication."));
            assert!(m.contains("2. Accept the model terms at: https://huggingface.co/a/b/\n"));
            assert!(m.ends_with("hf_token = \"hf_...\""));
        }
        other => panic!("unexpected {:?}", other),
    }
    assert!(matches!(check_gated_model("a/b", &GatedValue::Flag(true), &None), Err(HeadlessError::AuthError(_))));
}

#[test]
fn model_download_queues() {
    let metadata = ModelMetadata {
        model_id: "a/b".into(),
        library_name: None,
        pipeline_tag: None,
        card_data: None,
        siblings: vec![
            RepoFile { rfilename: "x.bin".into(), size: Some(3), lfs: Some(LfsInfo { oid: "h".into(), size: 3, pointer_size: 1 }) },
            RepoFile { rfilename: "y.txt".into(), size: None, lfs: None },
        ],
        tags: vec![],
    };
    let groups = vec![group("Q4_0", &["a.gguf"], 5), group("Q8_0", &["b.gguf", "c.gguf"], 9)];
    let q = model_download_queue(&metadata, true, &groups, Some("Q8_0"), false).unwrap();
    assert_eq!(q.iter().map(|f| f.0.as_str()).collect::<Vec<_>>(), vec!["b.gguf", "c.gguf"]);
    assert!(model_download_queue(&metadata, true, &groups, Some("q8_0"), false).unwrap().is_empty());
    assert_eq!(model_download_queue(&metadata, true, &groups, None, true).unwrap().len(), 3);
    match model_download_queue(&metadata, true, &groups, None, false) {
        Err(HeadlessError::DownloadError(m)) => assert_eq!(m, "Must specify --quantization or --all for GGUF models"),
        other => panic!("unexpected {:?}", other),
    }
    let all = model_download_queue(&metadata, false, &[], None, true).unwrap();
    assert_eq!(all, vec![("x.bin".to_string(), 3, Some("h".to_string())), ("y.txt".to_string(), 0, None)]);
    match model_download_queue(&metadata, false, &[], Some("Q8_0"), false) {
        Err(HeadlessError::DownloadError(m)) => assert_eq!(m, "Non-GGUF models require --all flag"),
        other => panic!("unexpected {:?}", other),
    }
}
