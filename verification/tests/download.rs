//! The wire-level shapes of chunked downloads.

use rust_hf_downloader::transfer::{download_plan, next_step, AttemptOutcome, Step};
use rust_hf_downloader::engine::{mark_download, mark_local_path, record_total_size};
use rust_hf_downloader::models::{DownloadRegistry, DownloadStatus};
use rust_hf_downloader::models::VerifyOutcome;
use rust_hf_downloader::verification::{missing_verdict, quotable, verification_verdict};
use rust_hf_downloader::download::{
    calculate_chunk_size, chunk_spans, content_range_total, range_header, DownloadConfig,
};

/// Parses a `Range: bytes=start-end` header, as a test server does.
fn parse_range(value: &str) -> Option<(u64, u64)> {
    let spec = value.strip_prefix("bytes=")?;
    let (start, end) = spec.split_once('-')?;
    Some((start.parse().ok()?, end.parse().ok()?))
}

#[test]
fn range_parser_shapes() {
    assert_eq!(parse_range("bytes=0-0"), Some((0, 0)));
    assert_eq!(parse_range("bytes=5-1023"), Some((5, 1023)));
    assert_eq!(parse_range("bytes=0-"), None);
    assert_eq!(parse_range("items=1-2"), None);
}

#[test]
fn range_headers_round_trip() {
    for (a, b) in [(0u64, 0u64), (5, 1023), (1 << 40, u64::MAX)] {
        assert_eq!(parse_range(&range_header(a, b)), Some((a, b)));
    }
}

#[test]
fn chunk_spans_cover_the_file() {
    assert_eq!(chunk_spans(10, 4), vec![(0, 3), (4, 7), (8, 9)]);
    assert_eq!(chunk_spans(8, 4), vec![(0, 3), (4, 7)]);
    assert_eq!(chunk_spans(1, 100), vec![(0, 0)]);
}

#[test]
fn chunk_size_is_clamped() {
    let c = DownloadConfig::new();
    assert_eq!(calculate_chunk_size(&c, 0), 5 * 1024 * 1024);
    assert_eq!(calculate_chunk_size(&c, 20 * 50 * 1024 * 1024), 50 * 1024 * 1024);
    assert_eq!(calculate_chunk_size(&c, u64::MAX), 100 * 1024 * 1024);
}

#[test]
fn content_range_totals() {
    assert_eq!(content_range_total("bytes 0-0/12345"), Ok(12345));
    assert_eq!(content_range_total("bytes 0-0/*"), Ok(0));
    assert_eq!(content_range_total("bytes 0-0"), Err("Invalid Content-Range header".to_string()));
}

#[test]
fn transfer_plans_and_steps() {
    let p = download_plan("org/model", "Q4_K_M/model-00001-of-00002.gguf").unwrap();
    assert_eq!(p.url, "https://huggingface.co/org/model/resolve/main/Q4_K_M/model-00001-of-00002.gguf");
    assert_eq!(p.local_name, "model-00001-of-00002.gguf");
    assert_eq!(p.incomplete_name, "model-00001-of-00002.gguf.incomplete");
    assert_eq!(download_plan("org/model", "a/../b").unwrap_err(), "Error: Invalid filename component: ..");

    let done = AttemptOutcome::Finished { final_size: 10, expected_size: 10, has_hash: true };
    assert_eq!(
        next_step(&done, 5, true, "f"),
        (Step::Complete { queue_verification: true }, "Download complete, queued for verification: f".to_string())
    );
    let no_hash = AttemptOutcome::Finished { final_size: 10, expected_size: 10, has_hash: false };
    assert_eq!(next_step(&no_hash, 5, true, "f").1, "Download complete: f (no hash available)");
    assert_eq!(next_step(&done, 5, false, "f"), (Step::Complete { queue_verification: false }, "Download complete: f".to_string()));
    let short = AttemptOutcome::Finished { final_size: 4, expected_size: 10, has_hash: true };
    assert_eq!(
        next_step(&short, 5, true, "f"),
        (Step::Incomplete, "Warning: Download may be incomplete: f (got 4 bytes, expected 10)".to_string())
    );
    let timeout = AttemptOutcome::Failed { transient: true, reason: "timed out".to_string() };
    assert_eq!(
        next_step(&timeout, 2, true, "f"),
        (Step::Retry { retries_left: 1 }, "Download interrupted: timed out. Retrying (1 left)...".to_string())
    );
    assert_eq!(next_step(&timeout, 0, true, "f"), (Step::Abandon, "Error: Download failed after retries: timed out".to_string()));
    let refused = AttemptOutcome::Failed { transient: false, reason: "404".to_string() };
    assert_eq!(next_step(&refused, 3, true, "f").0, Step::Abandon);
}

#[test]
fn registry_entries_follow_the_transfer() {
    let mut r = DownloadRegistry { downloads: vec![] };
    record_total_size(&mut r, "u1", "org/m", "a.gguf", "/m/a.gguf", 100, &Some("abc".to_string()));
    assert_eq!(r.downloads.len(), 1);
    assert_eq!(r.downloads[0].total_size, 100);
    assert_eq!(r.downloads[0].status, DownloadStatus::Incomplete);
    r.downloads[0].downloaded_size = 50;
    record_total_size(&mut r, "u1", "org/m", "a.gguf", "/m/a.gguf", 120, &None);
    assert_eq!(r.downloads.len(), 1);
    assert_eq!(r.downloads[0].total_size, 120);
    assert_eq!(r.downloads[0].downloaded_size, 0);
    assert_eq!(r.downloads[0].expected_sha256, Some("abc".to_string()));
    let e = mark_download(&mut r, "u1", DownloadStatus::Complete, Some(120)).unwrap();
    assert_eq!(e.status, DownloadStatus::Complete);
    assert_eq!(r.downloads[0].downloaded_size, 120);
    assert!(mark_download(&mut r, "u2", DownloadStatus::Complete, None).is_none());
    mark_local_path(&mut r, "/m/a.gguf", DownloadStatus::HashMismatch);
    assert_eq!(r.downloads[0].status, DownloadStatus::HashMismatch);
}

#[test]
fn hash_verdicts() {
    let h = "0123456789abcdef0123456789abcdef".to_string();
    let (o, m) = verification_verdict("f.gguf", &h, Ok(h.clone()));
    assert!(matches!(o, VerifyOutcome::Verified { .. }));
    assert_eq!(m, "✓ Hash verified for f.gguf");
    let other = "fedcba9876543210fedcba9876543210".to_string();
    let (o, m) = verification_verdict("f.gguf", &h, Ok(other.clone()));
    assert!(matches!(o, VerifyOutcome::Mismatch { ref actual_sha256, .. } if *actual_sha256 == other));
    assert_eq!(m, "✗ Hash mismatch for f.gguf: expected 0123456789abcdef..., got fedcba9876543210...");
    let (o, m) = verification_verdict("f.gguf", &h, Err("denied".to_string()));
    assert!(matches!(o, VerifyOutcome::Error { .. }));
    assert_eq!(m, "Warning: Failed to verify f.gguf: denied");
    let (o, m) = missing_verdict("f.gguf");
    assert!(matches!(o, VerifyOutcome::Missing { .. }));
    assert_eq!(m, "Error: Cannot verify f.gguf, file not found");
}

#[test]
fn mismatches_quote_sixteen_bytes() {
    let expected = "\u{e9}".repeat(10);
    let got = "0123456789abcdef0123".to_string();
    assert!(quotable(&expected) && quotable(&got));
    assert!(!quotable("\u{e9}\u{e9}\u{e9}\u{e9}\u{e9}\u{e9}\u{e9}x\u{e9}\u{e9}"));
    let (_, m) = verification_verdict("f.gguf", &expected, Ok(got));
    assert_eq!(
        m,
        format!("\u{2717} Hash mismatch for f.gguf: expected {}..., got 0123456789abcdef...", "\u{e9}".repeat(8))
    );
}
