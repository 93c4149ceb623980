//! Registry filters and pending-entry seeding.

use rust_hf_downloader::api::{api_base_from, resolve_url};
use rust_hf_downloader::engine::{register_checked, register_pending};
use rust_hf_downloader::models::{CompleteDownloads, DownloadMetadata, DownloadRegistry, DownloadStatus};
use rust_hf_downloader::registry::{get_complete_downloads, get_incomplete_downloads};

fn sample(status: DownloadStatus, filename: &str) -> DownloadMetadata {
    DownloadMetadata {
        model_id: "author/model".into(),
        filename: filename.into(),
        url: format!("https://huggingface.co/author/model/resolve/main/{}", filename),
        local_path: format!("/tmp/{}", filename),
        total_size: 1024,
        downloaded_size: 1024,
        status,
        expected_sha256: Some("abc123".into()),
    }
}

#[test]
fn incomplete_filter_includes_incomplete_and_mismatch() {
    let mut reg = DownloadRegistry::default();
    reg.downloads.push(sample(DownloadStatus::Complete, "ok.bin"));
    reg.downloads.push(sample(DownloadStatus::Incomplete, "half.bin"));
    reg.downloads.push(sample(DownloadStatus::HashMismatch, "bad.bin"));

    let incomplete = get_incomplete_downloads(&reg);
    assert_eq!(incomplete.len(), 2);
    let names: Vec<&str> = incomplete.iter().map(|d| d.filename.as_str()).collect();
    assert!(names.contains(&"half.bin"));
    assert!(names.contains(&"bad.bin"));
}

#[test]
fn complete_filter_keys_by_filename() {
    let mut reg = DownloadRegistry::default();
    reg.downloads.push(sample(DownloadStatus::Complete, "ok.bin"));
    reg.downloads.push(sample(DownloadStatus::Incomplete, "half.bin"));

    let complete = get_complete_downloads(&reg);
    assert_eq!(complete.len(), 1);
    assert!(complete.contains_key("ok.bin"));
}

#[test]
fn complete_map_keeps_last_entry_per_name() {
    let mut reg = DownloadRegistry::default();
    let mut first = sample(DownloadStatus::Complete, "a.bin");
    first.total_size = 1;
    let mut second = sample(DownloadStatus::Complete, "a.bin");
    second.total_size = 2;
    reg.downloads.push(first);
    reg.downloads.push(second);
    let complete = get_complete_downloads(&reg);
    assert_eq!(complete.len(), 1);
    assert_eq!(complete.get("a.bin").map(|d| d.total_size), Some(2));
    assert!(complete.get("b.bin").is_none());
    let mut m = CompleteDownloads::new();
    m.insert("x".to_string(), sample(DownloadStatus::Complete, "x"));
    m.insert("x".to_string(), sample(DownloadStatus::Complete, "y"));
    assert_eq!(m.len(), 1);
    assert_eq!(m.get("x").map(|d| d.filename.as_str()), Some("y"));
}

#[test]
fn pending_entries_skip_known_urls() {
    let base = api_base_from(None);
    let mut reg = DownloadRegistry::default();
    reg.downloads.push(sample(DownloadStatus::Complete, "a.bin"));
    register_pending(
        &mut reg,
        &base,
        "author/model",
        &[
            ("a.bin".to_string(), 5, None, "/d/a.bin".to_string()),
            ("b.bin".to_string(), 7, Some("ff".to_string()), "/d/b.bin".to_string()),
            ("b.bin".to_string(), 7, None, "/d/b.bin".to_string()),
        ],
    );
    assert_eq!(reg.downloads.len(), 2);
    let b = &reg.downloads[1];
    assert_eq!(b.url, "https://huggingface.co/author/model/resolve/main/b.bin");
    assert_eq!(b.status, DownloadStatus::Incomplete);
    assert_eq!((b.total_size, b.downloaded_size), (7, 0));
    assert_eq!(b.expected_sha256.as_deref(), Some("ff"));
    assert_eq!(b.local_path, "/d/b.bin");
}

#[test]
fn urls_use_the_endpoint_override() {
    assert_eq!(api_base_from(Some("http://127.0.0.1:9/".to_string())), "http://127.0.0.1:9");
    assert_eq!(api_base_from(Some(String::new())), "https://huggingface.co");
    assert_eq!(
        resolve_url("https://hf-mirror.com", "a/b", "sub/f.gguf"),
        "https://hf-mirror.com/a/b/resolve/main/sub/f.gguf"
    );
}

#[test]
fn checked_registration_is_all_or_nothing() {
    let base = api_base_from(None);
    let files = vec![
        ("a.bin".to_string(), 5, None),
        ("b.bin".to_string(), 7, Some("ff".to_string())),
        ("c.bin".to_string(), 9, None),
    ];
    let mut reg = DownloadRegistry::default();
    reg.downloads.push(sample(DownloadStatus::Complete, "z.bin"));
    let refused = register_checked(
        &mut reg,
        &base,
        "author/model",
        &files,
        &[Ok("/d/a.bin".to_string()), Err("first bad".to_string()), Err("second bad".to_string())],
    );
    assert_eq!(refused, Err("first bad".to_string()));
    assert_eq!(reg.downloads.len(), 1);

    let ok = register_checked(
        &mut reg,
        &base,
        "author/model",
        &files,
        &[Ok("/d/a.bin".to_string()), Ok("/d/b.bin".to_string()), Ok("/d/c.bin".to_string())],
    )
    .expect("every path passed");
    assert_eq!(ok.len(), 3);
    assert_eq!(ok[1], ("b.bin".to_string(), 7, Some("ff".to_string()), "/d/b.bin".to_string()));
    assert_eq!(reg.downloads.len(), 4);
    assert_eq!(reg.downloads[3].local_path, "/d/c.bin");
    assert_eq!(reg.downloads[2].status, DownloadStatus::Incomplete);

    let again = register_checked(
        &mut reg,
        &base,
        "author/model",
        &files,
        &[Ok("/d/a.bin".to_string()), Ok("/d/b.bin".to_string()), Ok("/d/c.bin".to_string())],
    );
    assert!(again.is_ok());
    assert_eq!(reg.downloads.len(), 4);
}
