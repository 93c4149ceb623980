//! What the interface records around downloads and hash checks.

use rust_hf_downloader::actions::auth_error_message;
use rust_hf_downloader::models::{
    AppOptions, CompleteDownloads, DownloadMetadata, DownloadRegistry, DownloadStatus, FileTreeNode, FocusedPane,
    ModelInfo, ModelMetadata, PopupMode, QuantizationGroup, QuantizationInfo, RepoFile,
};
use rust_hf_downloader::panels::{option_lines, row_is_showable};
use rust_hf_downloader::tree::count_files_checked;
use rust_hf_downloader::ui::{App, KeyCode, KeyInput, Modifiers};

fn app() -> App {
    App::new(AppOptions::defaults_for("/home/u", None))
}

fn model(id: &str) -> ModelInfo {
    ModelInfo { id: id.to_string(), author: None, downloads: 0, likes: 0, tags: vec![], last_modified: None }
}

fn qinfo(name: &str, sha: Option<&str>) -> QuantizationInfo {
    QuantizationInfo {
        quant_type: "Q4_K_M".to_string(),
        filename: name.to_string(),
        size: 10,
        sha256: sha.map(|s| s.to_string()),
    }
}

fn meta_entry(name: &str, status: DownloadStatus, sha: Option<&str>) -> DownloadMetadata {
    DownloadMetadata {
        model_id: "org/repo".to_string(),
        filename: name.to_string(),
        url: format!("https://huggingface.co/org/repo/resolve/main/{}", name),
        local_path: format!("/m/org/repo/{}", name),
        total_size: 10,
        downloaded_size: if status == DownloadStatus::Complete { 10 } else { 3 },
        status,
        expected_sha256: sha.map(|s| s.to_string()),
    }
}

fn app_with_group(files: Vec<QuantizationInfo>) -> App {
    let mut a = app();
    a.models = vec![model("org/repo")];
    a.list_state = Some(0);
    a.quantizations = vec![QuantizationGroup { quant_type: "Q4_K_M".to_string(), files, total_size: 20 }];
    a.quant_list_state = Some(0);
    a.focused_pane = FocusedPane::QuantizationGroups;
    a
}

#[test]
fn hash_check_needs_a_download_with_a_hash() {
    let mut a = app_with_group(vec![qinfo("a.gguf", None), qinfo("b.gguf", None)]);
    assert_eq!(a.check_selection(), None);
    assert_eq!(a.status, "File a.gguf is not marked as downloaded");

    let mut complete = CompleteDownloads::new();
    complete.insert("a.gguf".to_string(), meta_entry("a.gguf", DownloadStatus::Complete, None));
    complete.insert("b.gguf".to_string(), meta_entry("b.gguf", DownloadStatus::Complete, Some("abcd")));
    a.complete_downloads = complete;
    assert_eq!(a.check_selection(), None);
    assert_eq!(a.status, "No SHA256 hash available for a.gguf, cannot verify");

    a.focused_pane = FocusedPane::QuantizationFiles;
    a.quant_file_list_state = Some(1);
    a.status = "before".to_string();
    assert_eq!(
        a.check_selection(),
        Some(("b.gguf".to_string(), "/m/org/repo/b.gguf".to_string(), "abcd".to_string()))
    );
    assert_eq!(a.status, "before");
    assert!(a.complete_downloads.is_well_formed());
}

#[test]
fn hash_check_messages() {
    let mut a = app();
    a.check_file_missing("/m/x.gguf");
    assert_eq!(a.status, "File not found: /m/x.gguf");
    assert_eq!(a.error.as_deref(), Some("File marked as downloaded but not found at /m/x.gguf"));
    a.check_queued("x.gguf");
    assert_eq!(a.status, "Queued x.gguf for verification");
}

#[test]
fn queued_downloads_report_what_started() {
    let mut a = app();
    a.record_queued("m-00001-of-00002.gguf", "/m/org/repo", 2, 2);
    assert_eq!(a.status, "Queued 2 parts of m-00001-of-00002.gguf to /m/org/repo");
    a.record_queued("m.gguf", "/m/org/repo", 1, 1);
    assert_eq!(a.status, "Starting download of m.gguf to /m/org/repo");
    a.record_queued("m.gguf", "/m/org/repo", 1, 0);
    assert_eq!(a.error.as_deref(), Some("Failed to start download"));
    let mut b = app();
    b.record_repository_queued("org/repo", "/m/org/repo", 3);
    assert_eq!(b.status, "Queued 3 files from org/repo to /m/org/repo");
    b.record_repository_queued("org/repo", "/m/org/repo", 0);
    assert_eq!(b.error.as_deref(), Some("Failed to start downloads"));
}

#[test]
fn repository_selection_skips_directories() {
    let mut a = app();
    a.models = vec![model("org/repo")];
    a.list_state = Some(0);
    assert_eq!(a.repository_selection(), None);
    a.model_metadata = Some(ModelMetadata {
        model_id: "org/repo".to_string(),
        library_name: None,
        pipeline_tag: None,
        card_data: None,
        siblings: vec![
            RepoFile { rfilename: "config.json".to_string(), size: Some(1), lfs: None },
            RepoFile { rfilename: "sub/".to_string(), size: Some(0), lfs: None },
            RepoFile { rfilename: "nosize".to_string(), size: None, lfs: None },
            RepoFile { rfilename: "sub/w.bin".to_string(), size: Some(5), lfs: None },
        ],
        tags: vec![],
    });
    assert_eq!(a.repository_selection(), Some(("org/repo".to_string(), vec![0, 3])));
    a.model_metadata.as_mut().unwrap().siblings.retain(|f| f.size.is_none());
    assert_eq!(a.repository_selection(), None);
    assert_eq!(a.error.as_deref(), Some("No files to download in this repository"));
}

#[test]
fn start_takes_the_registry_and_welcomes() {
    let mut registry = DownloadRegistry::default();
    registry.downloads.push(meta_entry("a.gguf", DownloadStatus::Incomplete, None));
    registry.downloads.push(meta_entry("b.gguf", DownloadStatus::Complete, None));
    let mut a = app();
    a.start(&registry);
    assert!(a.running);
    assert_eq!(a.status, "Welcome! Press '/' to search for models");
    assert_eq!(a.incomplete_downloads.len(), 1);
    assert_eq!(a.complete_downloads.len(), 1);
    assert_eq!(a.popup_mode, PopupMode::ResumeDownload);
    let mut b = app();
    b.start(&DownloadRegistry::default());
    assert_eq!(b.popup_mode, PopupMode::Closed);
}

#[test]
fn auth_message_protocol() {
    assert_eq!(auth_error_message("meta-llama/Llama-3"), "AUTH_ERROR:meta-llama/Llama-3");
    let mut a = app();
    a.apply_status_message(&auth_error_message("org/gated"));
    assert_eq!(a.status, "Authentication required for org/gated");
}

#[test]
fn keys_that_would_overflow_are_refused() {
    let mut a = app();
    let plus = KeyInput { modifiers: Modifiers::Plain, code: KeyCode::Char('+') };
    assert!(a.key_is_safe(plus));
    a.popup_mode = PopupMode::Options;
    a.options.selected_field = 4;
    a.options.min_chunk_size = i64::MAX as u64;
    assert!(!a.key_is_safe(plus));
    a.options.min_chunk_size = 1 << 20;
    assert!(a.key_is_safe(plus));
}

#[test]
fn showable_rows_and_checked_counts() {
    let mut m = model("a/b");
    assert!(row_is_showable(&m));
    m.last_modified = Some("2024-05-01T00:00:00Z".to_string());
    assert!(row_is_showable(&m));
    m.last_modified = Some("\u{65e5}\u{672c}\u{8a9e}\u{306e}\u{65e5}\u{4ed8}T1".to_string());
    assert!(!row_is_showable(&m));
    m.last_modified = Some("\u{65e5}\u{672c}".to_string());
    assert!(row_is_showable(&m));

    let leaf = |n: &str| FileTreeNode {
        name: n.to_string(),
        path: n.to_string(),
        is_dir: false,
        size: Some(1),
        children: vec![],
        expanded: false,
        depth: 1,
    };
    let root = FileTreeNode {
        name: String::new(),
        path: String::new(),
        is_dir: true,
        size: None,
        children: vec![leaf("a"), leaf("b"), leaf("c")],
        expanded: true,
        depth: 0,
    };
    assert_eq!(count_files_checked(&root), Some(3));
}

#[test]
fn option_fields_in_index_order() {
    let mut o = AppOptions::defaults_for("/home/u", None);
    let lines = option_lines(&o, "", "");
    assert_eq!(lines.len(), 14);
    assert_eq!(lines[0], ("Default Directory:".to_string(), "/home/u/models".to_string()));
    assert_eq!(lines[1].1, "[Not set]");
    assert_eq!(lines[4], ("Min Chunk Size:".to_string(), "5.00 MB".to_string()));
    assert_eq!(lines[10], ("Enable Verification:".to_string(), "Enabled".to_string()));
    assert_eq!(lines[12].1, "128.00 KB");
    o.hf_token = Some("hf_abc".to_string());
    assert_eq!(option_lines(&o, "", "")[1].1, "\u{2022}".repeat(6));
    o.hf_token = Some("x".repeat(40));
    assert_eq!(option_lines(&o, "", "")[1].1, "\u{2022}".repeat(20));
    o.editing_token = true;
    o.editing_directory = true;
    let lines = option_lines(&o, "/tmp/new", "hf_typed");
    assert_eq!(lines[0].1, "/tmp/new");
    assert_eq!(lines[1].1, "hf_typed");
}

#[test]
fn refused_paths_are_reported() {
    let mut a = app();
    a.record_invalid_path("Invalid author in model ID: ..");
    assert_eq!(a.error.as_deref(), Some("Invalid path: Invalid author in model ID: .."));
    assert_eq!(a.status, "Download cancelled due to invalid path");
    a.record_invalid_filename("../x", "Invalid filename component: ..");
    assert_eq!(a.error.as_deref(), Some("Invalid filename '../x': Invalid filename component: .."));
}
