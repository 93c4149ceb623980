//! The console text of the command-line reporter.

use rust_hf_downloader::api::build_file_tree;
use rust_hf_downloader::headless::ProgressReporter;
use rust_hf_downloader::models::{
    DownloadMetadata, DownloadStatus, ModelInfo, ModelMetadata, QuantizationGroup, QuantizationInfo, RepoFile,
};
use rust_hf_downloader::report::{tree_node_text, Report};
use rust_hf_downloader::tree::try_build_file_tree;

fn text() -> ProgressReporter {
    ProgressReporter::new(false)
}

fn out(r: Report) -> String {
    match r {
        Report::Stdout(t) => t,
        other => panic!("expected standard output, got {:?}", other),
    }
}

fn model(id: &str, d: u64, l: u64) -> ModelInfo {
    ModelInfo { id: id.to_string(), author: None, downloads: d, likes: l, tags: vec![], last_modified: None }
}

fn qinfo(name: &str, size: u64) -> QuantizationInfo {
    QuantizationInfo { quant_type: "Q4_0".to_string(), filename: name.to_string(), size, sha256: None }
}

fn group(qt: &str, files: Vec<QuantizationInfo>) -> QuantizationGroup {
    let total = files.iter().map(|f| f.size).sum();
    QuantizationGroup { quant_type: qt.to_string(), files, total_size: total }
}

fn meta(tag: Option<&str>, files: &[(&str, Option<u64>)]) -> ModelMetadata {
    ModelMetadata {
        model_id: "org/repo".to_string(),
        library_name: None,
        pipeline_tag: tag.map(|t| t.to_string()),
        card_data: None,
        siblings: files
            .iter()
            .map(|(n, s)| RepoFile { rfilename: n.to_string(), size: *s, lfs: None })
            .collect(),
        tags: vec![],
    }
}

fn entry(name: &str, size: u64) -> DownloadMetadata {
    DownloadMetadata {
        model_id: "org/repo".to_string(),
        filename: name.to_string(),
        url: format!("u/{}", name),
        local_path: format!("/m/{}", name),
        total_size: size,
        downloaded_size: 0,
        status: DownloadStatus::Incomplete,
        expected_sha256: None,
    }
}

#[test]
fn json_mode_leaves_serializing_to_the_caller() {
    let j = ProgressReporter::new(true);
    assert_eq!(j.report_search(&[]), Report::Json);
    assert_eq!(j.report_error("x"), Report::Json);
    assert_eq!(j.report_no_incomplete(), Report::Json);
}

#[test]
fn search_and_simple_lines() {
    let r = text().report_search(&[model("a/b", 12, 3), model("c/d", 0, 1)]);
    assert_eq!(out(r), "Found 2 models:\n  - a/b (12 downloads, 3 likes)\n  - c/d (0 downloads, 1 likes)\n");
    assert_eq!(out(text().report_download_start("f.gguf", 3 * 1_048_576 + 7)), "Downloading: f.gguf (3 MB)\n");
    assert_eq!(out(text().report_download_complete("f.gguf")), "\n✓ Complete: f.gguf\n");
    assert_eq!(text().report_error("boom"), Report::Stderr("Error: boom\n".to_string()));
    assert_eq!(out(text().report_info("hello")), "hello\n");
    assert_eq!(out(text().report_no_incomplete()), "No incomplete downloads found.\n");
}

#[test]
fn resume_reports() {
    assert_eq!(out(text().report_resume(&[])), "No incomplete downloads to resume\n");
    assert_eq!(
        out(text().report_resume(&[entry("a.gguf", 1), entry("b.gguf", 2)])),
        "Resumed 2 downloads:\n  - a.gguf\n  - b.gguf\n"
    );
    assert_eq!(
        out(text().report_resume_summary(&[entry("a.gguf", 1024), entry("b.gguf", 512)])),
        "Resuming 2 download(s) (1.50 KB total):\n\n  - a.gguf (1.00 KB)\n  - b.gguf (512 B)\n\n"
    );
}

#[test]
fn download_summary_lists_up_to_ten_files() {
    let few: Vec<String> = (1..=2).map(|i| format!("f{}", i)).collect();
    assert_eq!(
        out(text().report_download_summary(&few, 2048)),
        "Download Summary:\n  Files: 2\n  Total Size: 2.00 KB\n\n  - f1\n  - f2\n\n"
    );
    let many: Vec<String> = (1..=12).map(|i| format!("f{}", i)).collect();
    assert_eq!(
        out(text().report_download_summary(&many, 0)),
        "Download Summary:\n  Files: 12\n  Total Size: 0 B\n\n  - f1\n  - f2\n  - f3\n  - f4\n  - f5\n  ... and 7 more\n\n"
    );
}

#[test]
fn dry_run_plan() {
    let files = vec!["a.gguf".to_string(), "b.gguf".to_string()];
    assert_eq!(
        out(text().report_dry_run_summary(&files, 1_048_576, "/models", true)),
        "Download Plan:\n  Model type: GGUF\n  Files to download: 2\n  Total size: 1.00 MB\n  Output directory: /models\n\nFiles:\n  1. a.gguf\n  2. b.gguf\n\nRun without --dry-run to execute the download.\n"
    );
}

#[test]
fn quantization_table() {
    let groups = vec![group("Q8_0", vec![qinfo("x.gguf", 2048)]), group("Q4_0", vec![qinfo("a", 1), qinfo("b", 1)])];
    assert_eq!(
        out(ProgressReporter::new(true).report_quantizations_table(&groups)),
        "Available Quantizations:\n\n  Q8_0 (2.00 KB total, 1 file)\n    - x.gguf (2.00 KB)\n\n  Q4_0 (2 B total, 2 files)\n    - a (1 B)\n    - b (1 B)\n\n"
    );
}

#[test]
fn file_tree_text() {
    let m = meta(None, &[("dir/a.bin", Some(2 * 1_048_576)), ("b.txt", Some(10))]);
    assert_eq!(
        out(text().report_file_tree(&m)),
        "Model Files:\n\n  Model ID: org/repo\n  Pipeline: N/A\n  Files: 2\n\n (2 MB)\n  dir (2 MB)\n    a.bin (2 MB)\n  b.txt (0 MB)\n"
    );
    let tree = build_file_tree(m.siblings.clone());
    assert_eq!(tree_node_text(&tree.children[0], 1), "  dir (2 MB)\n    a.bin (2 MB)\n");
    assert!(try_build_file_tree(vec![
        RepoFile { rfilename: "a".into(), size: Some(u64::MAX), lfs: None },
        RepoFile { rfilename: "b".into(), size: Some(1), lfs: None },
    ])
    .is_none());
}

#[test]
fn hand_written_json_listings() {
    let groups = vec![group("Q8_0", vec![qinfo("x.gguf", 5), qinfo("y.gguf", 6)])];
    let m = meta(Some("text-generation"), &[("x.gguf", Some(5))]);
    assert_eq!(
        out(text().report_list_json(&groups, &m, true)),
        "{\n  \"model_id\": \"org/repo\",\n  \"pipeline_tag\": \"text-generation\",\n  \"has_gguf\": true,\n  \"quantizations\": [\n    {\n      \"quant_type\": \"Q8_0\",\n      \"total_size\": 11,\n      \"file_count\": 2\n      \"files\": [\"x.gguf\", \"y.gguf\"]    }\n  ]\n}\n"
    );
    let plain = meta(None, &[("config.json", Some(3)), ("dir/", None)]);
    assert_eq!(
        out(text().report_list_json(&[], &plain, false)),
        "{\n  \"model_id\": \"org/repo\",\n  \"pipeline_tag\": \"N/A\",\n  \"has_gguf\": false,\n  \"file_count\": 2,\n  \"files\": [\n    { \"filename\": \"config.json\", \"size\": 3 },\n    { \"filename\": \"dir/\", \"size\": 0 }\n  ]\n}\n"
    );
    assert_eq!(
        out(ProgressReporter::new(true).report_list_quantizations(&groups, &m)),
        "{\n  \"model_id\": \"org/repo\",\n  \"quantizations\": [\n    {\n      \"quant_type\": \"Q8_0\",\n      \"total_size\": 11,\n      \"file_count\": 2\n      \"files\": [\"x.gguf\", \"y.gguf\"]\n    }\n  ]\n}\n"
    );
}

#[test]
fn quantization_listing_text() {
    let groups = vec![group("Q8_0", vec![qinfo("x.gguf", 3 * 1_048_576)])];
    let m = meta(None, &[("x.gguf", Some(3 * 1_048_576))]);
    assert_eq!(
        out(text().report_list_quantizations(&groups, &m)),
        "Model: org/repo\n\nQuantizations:\n  - Q8_0 (1 files, 3 MB total)\n      - x.gguf (3 MB)\n\nFile Tree:\n (3 MB)\n  x.gguf (3 MB)\n"
    );
    assert_eq!(out(text().report_list_quantizations(&[], &m)), "Model: org/repo\n\nQuantizations:\n");
}

#[test]
fn timed_search_prints_a_table() {
    let mut a = model("a/b", 1234, 5);
    a.last_modified = Some("2024-01-01".to_string());
    let b = model("org/model-x", 0, 10);
    let t = out(text().report_search_with_timing(&[a, b], "0.42"));
    let expected = "Found 2 models in 0.42s:\n\n\
Model       |    Downloads |      Likes | Last Modified\n\
------------+--------------+------------+---------------\n\
a/b         |         1234 |          5 | 2024-01-01\n\
org/model-x |            0 |         10 | N/A\n";
    assert_eq!(t, expected);
}

#[test]
fn timed_search_without_results() {
    let t = out(text().report_search_with_timing(&[], "1.00"));
    assert_eq!(t, "Found 0 models in 1.00s:\n\nNo models found matching your criteria.\n");
    assert_eq!(ProgressReporter::new(true).report_search_with_timing(&[], "1.00"), Report::Json);
}

#[test]
fn timed_search_id_column_counts_bytes_and_caps() {
    // "é" is two bytes: the column is 3 wide though the id shows 2 characters.
    let t = out(text().report_search_with_timing(&[model("é1", 1, 1)], "0.10"));
    assert!(t.contains("\nModel |"), "{}", t);
    assert!(t.contains("\né1  |"), "{}", t);
    let long = "x".repeat(70);
    let t = out(text().report_search_with_timing(&[model(&long, 1, 1)], "0.10"));
    let header = t.lines().nth(2).unwrap();
    assert!(header.starts_with(&format!("{} |", format!("{:<60}", "Model"))), "{}", header);
}
