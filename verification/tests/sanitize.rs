//! Path-traversal hardening of download targets.

use rust_hf_downloader::download::{sanitize_download_target, sanitize_path_component};
use std::path::PathBuf;

#[test]
fn rejects_traversal_components() {
    assert!(sanitize_path_component("..").is_none());
    assert!(sanitize_path_component(".").is_none());
    assert!(sanitize_path_component("").is_none());
    assert!(sanitize_path_component("a/b").is_none());
    assert!(sanitize_path_component("a\\b").is_none());
    assert!(sanitize_path_component("a\0b").is_none());
}

#[test]
fn accepts_valid_components() {
    assert_eq!(sanitize_path_component("meta-llama").as_deref(), Some("meta-llama"));
    assert_eq!(sanitize_path_component(".gitattributes").as_deref(), Some(".gitattributes"));
    assert_eq!(sanitize_path_component("  model.bin  ").as_deref(), Some("model.bin"));
}

#[test]
fn trailing_dots_and_blank_names() {
    assert_eq!(sanitize_path_component("name...").as_deref(), Some("name"));
    assert!(sanitize_path_component("   ").is_none());
    assert!(sanitize_path_component(" . ").is_none());
    assert_eq!(sanitize_path_component("\u{3000}x\u{a0}").as_deref(), Some("x"));
}

#[test]
fn validate_rejects_bad_model_id_format() {
    let err = sanitize_download_target("no-slash-here", "model.bin");
    assert!(err.is_err());
    assert_eq!(err.unwrap_err(), "Invalid model ID format: no-slash-here");
}

#[test]
fn validate_rejects_traversal_in_model_id() {
    assert!(sanitize_download_target("../etc", "model.bin").is_err());
    assert!(sanitize_download_target("author/..", "model.bin").is_err());
}

#[test]
fn validate_rejects_traversal_in_filename() {
    let err = sanitize_download_target("author/model", "../../../etc/passwd").unwrap_err();
    assert_eq!(err, "Invalid filename component: ..");
}

#[test]
fn validate_accepts_subdir_filename() {
    let target = sanitize_download_target("author/model", "Q4_K_M/file.gguf").unwrap();
    let mut path = PathBuf::from("/base").join(&target.author).join(&target.model_name);
    for part in &target.file_parts {
        path = path.join(part);
    }
    assert!(path.to_string_lossy().ends_with("author/model/Q4_K_M/file.gguf"));
}
