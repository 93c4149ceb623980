//! The decisions of the `download` command, step by step.

use rust_hf_downloader::cli::{DownloadArgs, FileSpec, EXIT_FAILURE, EXIT_USAGE};
use rust_hf_downloader::command::{download_run_step, FetchFailure, RunAction, RunEvent, RunState};
use rust_hf_downloader::models::{ModelMetadata, RepoFile};

fn args(id: &str) -> DownloadArgs {
    DownloadArgs {
        model_id: id.to_string(),
        quant: None,
        file: vec![],
        all: false,
        output: None,
        token: None,
        skip_verification: false,
        json: false,
        quiet: false,
    }
}

fn meta(files: &[(&str, u64)]) -> ModelMetadata {
    ModelMetadata {
        model_id: "org/repo".to_string(),
        library_name: None,
        pipeline_tag: None,
        card_data: None,
        siblings: files
            .iter()
            .map(|(n, s)| RepoFile { rfilename: n.to_string(), size: Some(*s), lfs: None })
            .collect(),
        tags: vec![],
    }
}

fn fail_of(a: RunAction) -> (String, String, Option<Vec<FileSpec>>, i32) {
    match a {
        RunAction::Fail { code, message, available, exit_code } => (code, message, available, exit_code),
        other => panic!("expected a failure, got {:?}", other),
    }
}

fn fetched(a: DownloadArgs) -> RunState {
    let (s, act) = download_run_step(RunState::Start, RunEvent::Begin(a));
    assert!(matches!(act, RunAction::Fetch { ref model_id } if model_id == "org/repo"));
    s
}

#[test]
fn usage_errors_exit_64() {
    let (s, a) = download_run_step(RunState::Start, RunEvent::Begin(args("no-slash")));
    assert!(matches!(s, RunState::Failed));
    let (code, message, available, exit) = fail_of(a);
    assert_eq!((code.as_str(), exit), ("usage", EXIT_USAGE));
    assert_eq!(message, "invalid model ID \"no-slash\" \u{2014} expected \"author/model-name\"");
    assert!(available.is_none());
    let mut both = args("org/repo");
    both.all = true;
    both.quant = Some("Q4_K_M".to_string());
    let (_, a) = download_run_step(RunState::Start, RunEvent::Begin(both));
    let (code, message, _, exit) = fail_of(a);
    assert_eq!((code.as_str(), message.as_str(), exit), ("usage", "use only one of --quant, --file, or --all", EXIT_USAGE));
}

#[test]
fn fetch_failures_pick_their_codes() {
    let s = fetched(args("org/repo"));
    let (_, a) = download_run_step(s, RunEvent::Metadata(Err(FetchFailure::NotFound("404".to_string()))));
    let (code, message, _, exit) = fail_of(a);
    assert_eq!((code.as_str(), exit), ("not_found", EXIT_USAGE));
    assert_eq!(message, "failed to fetch model info for org/repo: 404");
    let s = fetched(args("org/repo"));
    let (_, a) = download_run_step(s, RunEvent::Metadata(Err(FetchFailure::Network("timeout".to_string()))));
    let (code, _, _, exit) = fail_of(a);
    assert_eq!((code.as_str(), exit), ("network", EXIT_FAILURE));
}

#[test]
fn ambiguous_and_unmatched_selections_list_the_files() {
    let s = fetched(args("org/repo"));
    let (_, a) = download_run_step(s, RunEvent::Metadata(Ok(meta(&[("a.bin", 1), ("b.bin", 2)]))));
    let (code, message, available, exit) = fail_of(a);
    assert_eq!((code.as_str(), exit), ("ambiguous", EXIT_USAGE));
    assert_eq!(message, "model has 2 downloadable file(s); specify --quant <TYPE>, --file <PATH>, or --all");
    assert_eq!(available.unwrap().len(), 2);
    let mut q = args("org/repo");
    q.quant = Some("Q8_0".to_string());
    let s = fetched(q);
    let (_, a) = download_run_step(s, RunEvent::Metadata(Ok(meta(&[("m.Q4_K_M.gguf", 5)]))));
    let (code, message, available, exit) = fail_of(a);
    assert_eq!((code.as_str(), exit), ("no_files_match", EXIT_USAGE));
    assert_eq!(message, "no downloadable file matches --quant Q8_0");
    assert_eq!(available.unwrap()[0].filename, "m.Q4_K_M.gguf");
}

#[test]
fn registration_waits_for_every_path() {
    let mut all = args("org/repo");
    all.all = true;
    let s = fetched(all);
    let (s, a) = download_run_step(s, RunEvent::Metadata(Ok(meta(&[("a.bin", 1), ("b.bin", 2)]))));
    match a {
        RunAction::Announce { files, total_bytes } => {
            assert_eq!(files.len(), 2);
            assert_eq!(total_bytes, 3);
        }
        other => panic!("expected the announcement, got {:?}", other),
    }
    let (s, a) = download_run_step(s, RunEvent::Announced);
    assert!(matches!(a, RunAction::CheckPath { ref filename } if filename == "a.bin"));
    let (s, a) = download_run_step(s, RunEvent::PathChecked(Ok("/m/org/repo/a.bin".to_string())));
    assert!(matches!(a, RunAction::CheckPath { ref filename } if filename == "b.bin"));
    let (s, a) = download_run_step(s, RunEvent::PathChecked(Ok("/m/org/repo/b.bin".to_string())));
    match a {
        RunAction::Register { pending } => {
            assert_eq!(pending.len(), 2);
            assert_eq!(pending[1], ("b.bin".to_string(), 2, None, "/m/org/repo/b.bin".to_string()));
        }
        other => panic!("expected the registration, got {:?}", other),
    }
    assert!(matches!(s, RunState::Ready { .. }));
}

#[test]
fn a_refused_path_registers_nothing() {
    let mut all = args("org/repo");
    all.all = true;
    let s = fetched(all);
    let (s, _) = download_run_step(s, RunEvent::Metadata(Ok(meta(&[("a.bin", 1), ("b.bin", 2)]))));
    let (s, _) = download_run_step(s, RunEvent::Announced);
    let (s, a) = download_run_step(s, RunEvent::PathChecked(Err("Path traversal detected".to_string())));
    assert!(matches!(s, RunState::Failed));
    let (code, message, _, exit) = fail_of(a);
    assert_eq!((code.as_str(), message.as_str(), exit), ("invalid_path", "Path traversal detected", EXIT_FAILURE));
    let (_, a) = download_run_step(RunState::Failed, RunEvent::Announced);
    assert!(matches!(a, RunAction::Ignore));
}
