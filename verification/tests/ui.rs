//! The browsing interface: keys, lists, filters, options and popups.

use rust_hf_downloader::api::build_file_tree;
use rust_hf_downloader::models::{
    AppOptions, DownloadMetadata, DownloadRegistry, DownloadStatus, FilterPreset, FocusedPane, InputMode,
    ModelDisplayMode, ModelInfo, ModelMetadata, PopupMode, QuantizationGroup, QuantizationInfo, RepoFile,
    SortDirection, SortField,
};
use rust_hf_downloader::registry::forget_download;
use rust_hf_downloader::ui::{
    display_mode_for, normal_command, repository_files, App, Command, Effect, InputRequest, KeyCode, KeyInput,
    Modifiers, Rect, TextField,
};

fn key(c: KeyCode) -> KeyInput {
    KeyInput { modifiers: Modifiers::Plain, code: c }
}

fn ch(c: char) -> KeyInput {
    key(KeyCode::Char(c))
}

fn model(id: &str) -> ModelInfo {
    ModelInfo { id: id.to_string(), author: None, downloads: 0, likes: 0, tags: vec![], last_modified: None }
}

fn qinfo(name: &str, size: u64) -> QuantizationInfo {
    QuantizationInfo { quant_type: "Q4_K_M".to_string(), filename: name.to_string(), size, sha256: None }
}

fn group(qt: &str, files: Vec<QuantizationInfo>) -> QuantizationGroup {
    let total = files.iter().map(|f| f.size).sum();
    QuantizationGroup { quant_type: qt.to_string(), files, total_size: total }
}

fn app() -> App {
    App::new(AppOptions::defaults_for("/home/u", None))
}

fn app_with_models(n: usize) -> App {
    let mut a = app();
    a.models = (0..n).map(|i| model(&format!("org/m{}", i))).collect();
    a
}

fn meta(files: &[(&str, Option<u64>)]) -> ModelMetadata {
    ModelMetadata {
        model_id: "org/repo".to_string(),
        library_name: None,
        pipeline_tag: None,
        card_data: None,
        siblings: files
            .iter()
            .map(|(n, s)| RepoFile { rfilename: n.to_string(), size: *s, lfs: None })
            .collect(),
        tags: vec![],
    }
}

fn entry(url: &str, status: DownloadStatus) -> DownloadMetadata {
    DownloadMetadata {
        model_id: "org/repo".to_string(),
        filename: url.rsplit('/').next().unwrap().to_string(),
        url: url.to_string(),
        local_path: format!("/m/{}", url),
        total_size: 10,
        downloaded_size: 0,
        status,
        expected_sha256: None,
    }
}

#[test]
fn starts_on_the_model_list_with_saved_filters() {
    let mut options = AppOptions::defaults_for("/home/u", None);
    options.default_sort_field = SortField::Likes;
    options.default_min_likes = 100;
    let a = App::new(options);
    assert_eq!(a.focused_pane, FocusedPane::Models);
    assert_eq!(a.list_state, Some(0));
    assert_eq!(a.sort_field, SortField::Likes);
    assert_eq!(a.filter_min_likes, 100);
    assert_eq!(a.download_path_input, "/home/u/models");
    assert_eq!(a.status, "Welcome! Press '/' to search for models");
    assert_eq!(a.popup_mode, PopupMode::Closed);
}

#[test]
fn model_list_wraps_both_ways() {
    let mut a = app_with_models(3);
    a.list_state = Some(2);
    a.next();
    assert_eq!(a.list_state, Some(0));
    a.previous();
    assert_eq!(a.list_state, Some(2));
    a.list_state = None;
    a.previous();
    assert_eq!(a.list_state, Some(0));
    let mut empty = app();
    empty.list_state = Some(4);
    empty.next();
    assert_eq!(empty.list_state, Some(4));
}

#[test]
fn file_list_follows_the_selected_group() {
    let mut a = app_with_models(1);
    a.quantizations = vec![group("Q4_K_M", vec![qinfo("a.gguf", 1), qinfo("b.gguf", 2)])];
    a.quant_list_state = Some(0);
    a.next_file();
    assert_eq!(a.quant_file_list_state, Some(0));
    a.next_file();
    assert_eq!(a.quant_file_list_state, Some(1));
    a.next_file();
    assert_eq!(a.quant_file_list_state, Some(0));
    a.quant_list_state = Some(5);
    a.next_file();
    assert_eq!(a.quant_file_list_state, Some(0));
}

#[test]
fn tab_cycles_the_panes_of_each_mode() {
    let mut a = app_with_models(2);
    a.quantizations = vec![group("Q8_0", vec![qinfo("x.gguf", 5)])];
    let k = key(KeyCode::Tab);
    a.on_key_event(k);
    assert_eq!(a.focused_pane, FocusedPane::QuantizationGroups);
    assert_eq!(a.quant_list_state, Some(0));
    a.on_key_event(k);
    assert_eq!(a.focused_pane, FocusedPane::QuantizationFiles);
    assert_eq!(a.quant_file_list_state, Some(0));
    a.on_key_event(k);
    assert_eq!(a.focused_pane, FocusedPane::Models);

    let mut s = app_with_models(1);
    s.display_mode = ModelDisplayMode::Standard;
    s.file_tree = Some(build_file_tree(vec![RepoFile { rfilename: "a.txt".into(), size: Some(1), lfs: None }]));
    s.on_key_event(k);
    assert_eq!(s.focused_pane, FocusedPane::FileTree);
    assert_eq!(s.file_tree_state, Some(0));
    s.on_key_event(k);
    assert_eq!(s.focused_pane, FocusedPane::Models);
}

#[test]
fn arrows_move_between_groups_and_files() {
    let mut a = app_with_models(1);
    a.quantizations = vec![group("Q8_0", vec![qinfo("x.gguf", 5)])];
    a.focused_pane = FocusedPane::QuantizationGroups;
    a.quant_list_state = Some(0);
    a.on_key_event(key(KeyCode::Right));
    assert_eq!(a.focused_pane, FocusedPane::QuantizationFiles);
    a.on_key_event(key(KeyCode::Left));
    assert_eq!(a.focused_pane, FocusedPane::QuantizationGroups);
}

#[test]
fn moving_in_the_model_list_clears_details() {
    let mut a = app_with_models(3);
    a.quantizations = vec![group("Q8_0", vec![qinfo("x.gguf", 5)])];
    let r = a.on_key_event(ch('j'));
    assert_eq!(r, Effect::Idle);
    assert_eq!(a.list_state, Some(1));
    assert!(a.quantizations.is_empty());
    assert!(a.loading_quants);
    assert!(a.needs_load_quantizations);
    assert_eq!(a.status, "Loading model details...");
}

#[test]
fn sort_keys_restart_the_search() {
    let mut a = app_with_models(3);
    a.on_key_event(ch('s'));
    assert_eq!(a.sort_field, SortField::Likes);
    assert!(a.models.is_empty());
    assert!(a.needs_search_models);
    assert!(a.loading);
    assert_eq!(a.status, "Sort by: Likes");
    a.on_key_event(KeyInput { modifiers: Modifiers::Shift, code: KeyCode::Char('S') });
    assert_eq!(a.sort_direction, SortDirection::Ascending);
    assert_eq!(a.status, "Sort direction: Ascending ▲");
}

#[test]
fn filter_steps_and_presets() {
    let mut a = app();
    a.on_key_event(ch('f'));
    assert_eq!(a.focused_filter_field, 1);
    assert_eq!(a.status, "Focused filter: Min Downloads");
    a.on_key_event(ch('+'));
    assert_eq!(a.filter_min_downloads, 100);
    a.on_key_event(ch('+'));
    assert_eq!(a.filter_min_downloads, 1_000);
    a.on_key_event(ch('-'));
    assert_eq!(a.filter_min_downloads, 100);
    a.filter_min_downloads = 1_000_000;
    a.on_key_event(ch('+'));
    assert_eq!(a.filter_min_downloads, 1_000_000);
    a.filter_min_downloads = 7;
    a.on_key_event(ch('+'));
    assert_eq!(a.filter_min_downloads, 100);

    a.on_key_event(ch('3'));
    assert_eq!(a.sort_field, SortField::Likes);
    assert_eq!(a.filter_min_likes, 1_000);
    assert_eq!(a.filter_min_downloads, 0);
    assert_eq!(a.status, "Searching...");
    a.on_key_event(ch('3'));
    assert_eq!(a.status, "Already using Highly Rated preset");
    assert!(!a.would_change_settings(FilterPreset::HighlyRated));
    assert!(a.would_change_settings(FilterPreset::Popular));

    a.on_key_event(ch('r'));
    assert_eq!(a.sort_field, SortField::Downloads);
    assert_eq!(a.filter_min_likes, 0);
    assert_eq!(a.status, "Filters reset to defaults");
}

#[test]
fn ctrl_s_saves_the_filters_as_defaults() {
    let mut a = app();
    a.filter_min_likes = 50;
    a.sort_field = SortField::Name;
    let r = a.on_key_event(KeyInput { modifiers: Modifiers::Control, code: KeyCode::Char('s') });
    assert_eq!(r, Effect::SaveFilterSettings);
    assert_eq!(a.options.default_min_likes, 50);
    assert_eq!(a.options.default_sort_field, SortField::Name);
    a.record_filter_save(None);
    assert_eq!(a.status, "Filter settings saved");
    a.record_filter_save(Some("disk full".to_string()));
    assert_eq!(a.status, "Failed to save filter settings: disk full");
}

#[test]
fn quit_and_search_popup() {
    let mut a = app();
    a.running = true;
    a.on_key_event(KeyInput { modifiers: Modifiers::Control, code: KeyCode::Char('c') });
    assert!(!a.running);

    let mut b = app();
    b.input = "old".to_string();
    b.on_key_event(ch('/'));
    assert_eq!(b.popup_mode, PopupMode::SearchPopup);
    assert_eq!(b.input, "");
    assert_eq!(b.on_key_event(ch('x')), Effect::Edit(TextField::Search, InputRequest::InsertChar('x')));
    assert_eq!(b.on_key_event(key(KeyCode::Backspace)), Effect::Edit(TextField::Search, InputRequest::DeletePrevChar));
    b.set_field(TextField::Search, "llama".to_string());
    b.on_key_event(key(KeyCode::Enter));
    assert_eq!(b.popup_mode, PopupMode::Closed);
    assert!(b.needs_search_models);
    assert_eq!(b.input, "llama");
}

#[test]
fn options_popup_steps_and_clamps() {
    let mut a = app();
    a.on_key_event(ch('o'));
    assert_eq!(a.popup_mode, PopupMode::Options);
    for _ in 0..2 {
        a.on_key_event(key(KeyCode::Down));
    }
    assert_eq!(a.options.selected_field, 2);
    assert_eq!(a.on_key_event(ch('+')), Effect::SaveConfig);
    assert_eq!(a.options.concurrent_threads, 9);
    a.options.concurrent_threads = 32;
    a.on_key_event(key(KeyCode::Right));
    assert_eq!(a.options.concurrent_threads, 32);
    a.options.selected_field = 4;
    a.on_key_event(ch('-'));
    assert_eq!(a.options.min_chunk_size, 4 * 1024 * 1024);
    a.options.selected_field = 13;
    a.on_key_event(key(KeyCode::Down));
    assert_eq!(a.options.selected_field, 13);
    a.on_key_event(ch('+'));
    assert_eq!(a.options.verification_update_interval, 150);
    a.options.selected_field = 10;
    a.on_key_event(ch('-'));
    assert!(!a.options.verification_on_completion);
    a.on_key_event(key(KeyCode::Esc));
    assert_eq!(a.popup_mode, PopupMode::Closed);
}

#[test]
fn options_popup_edits_the_token() {
    let mut a = app();
    a.popup_mode = PopupMode::Options;
    a.options.selected_field = 1;
    a.on_key_event(key(KeyCode::Enter));
    assert!(a.options.editing_token);
    assert_eq!(a.options_token_input, "");
    assert_eq!(a.on_key_event(ch('h')), Effect::ForwardKey(TextField::OptionsToken, ch('h')));
    a.set_field(TextField::OptionsToken, "hf_abc".to_string());
    assert_eq!(a.on_key_event(key(KeyCode::Enter)), Effect::SaveConfig);
    assert_eq!(a.options.hf_token, Some("hf_abc".to_string()));
    assert!(!a.options.editing_token);

    a.on_key_event(key(KeyCode::Enter));
    a.set_field(TextField::OptionsToken, String::new());
    a.on_key_event(key(KeyCode::Enter));
    assert_eq!(a.options.hf_token, None);
}

#[test]
fn download_key_opens_the_path_popup() {
    let mut a = app_with_models(1);
    a.quantizations = vec![group("Q8_0", vec![qinfo("x-00001-of-00002.gguf", 5), qinfo("x-00002-of-00002.gguf", 6)])];
    a.focused_pane = FocusedPane::QuantizationGroups;
    a.quant_list_state = Some(0);
    a.download_path_input = "elsewhere".to_string();
    a.on_key_event(ch('d'));
    assert_eq!(a.popup_mode, PopupMode::DownloadPath);
    assert_eq!(a.download_path_input, "/home/u/models");
    assert_eq!(a.status, "Download all 2 files in quantization group");
    assert_eq!(a.on_key_event(key(KeyCode::Enter)), Effect::ConfirmDownload);
    assert_eq!(a.popup_mode, PopupMode::Closed);
    let files = a.download_selection().unwrap();
    assert_eq!(files.len(), 2);
    assert_eq!(files[1].filename, "x-00002-of-00002.gguf");

    a.focused_pane = FocusedPane::QuantizationFiles;
    a.quant_file_list_state = None;
    assert!(a.download_selection().is_none());
    assert_eq!(a.error, Some("No files selected for download".to_string()));
}

#[test]
fn verify_key_in_the_quantization_panes() {
    let mut a = app_with_models(1);
    assert_eq!(a.on_key_event(ch('v')), Effect::Idle);
    a.focused_pane = FocusedPane::QuantizationFiles;
    assert_eq!(a.on_key_event(ch('v')), Effect::VerifySelected);
}

#[test]
fn enter_shows_details() {
    let mut a = app_with_models(2);
    a.quantizations = vec![group("Q8_0", vec![qinfo("x.gguf", 2048)])];
    a.list_state = Some(1);
    a.on_key_event(key(KeyCode::Enter));
    assert_eq!(a.selection_info, "Selected: org/m1 | URL: https://huggingface.co/org/m1");
    assert_eq!(a.focused_pane, FocusedPane::QuantizationGroups);
    a.on_key_event(key(KeyCode::Enter));
    assert_eq!(a.status, "Type: Q8_0 | Size: 2.00 KB | File: x.gguf");
    a.focused_pane = FocusedPane::QuantizationFiles;
    a.quant_file_list_state = Some(0);
    a.on_key_event(key(KeyCode::Enter));
    assert_eq!(a.status, "File: x.gguf | Size: 2.00 KB | Type: Q4_K_M");
}

#[test]
fn file_tree_enter_toggles_directories() {
    let mut a = app_with_models(1);
    a.display_mode = ModelDisplayMode::Standard;
    a.focused_pane = FocusedPane::FileTree;
    a.file_tree = Some(build_file_tree(vec![
        RepoFile { rfilename: "dir/a.txt".into(), size: Some(1), lfs: None },
        RepoFile { rfilename: "b.txt".into(), size: Some(2), lfs: None },
    ]));
    a.file_tree_state = Some(0);
    let before = a.file_tree.as_ref().unwrap().children[0].expanded;
    a.on_key_event(key(KeyCode::Enter));
    assert_eq!(a.file_tree.as_ref().unwrap().children[0].expanded, !before);
    a.next_file_tree_item();
    assert_eq!(a.file_tree_state, Some(1));
}

#[test]
fn resume_popup_choices() {
    let registry = DownloadRegistry {
        downloads: vec![
            entry("https://h/org/repo/resolve/main/a.gguf", DownloadStatus::Incomplete),
            entry("https://h/org/repo/resolve/main/b.gguf", DownloadStatus::Complete),
            entry("https://h/org/repo/resolve/main/c.gguf", DownloadStatus::HashMismatch),
        ],
    };
    let scanned = || {
        let mut a = app();
        a.scan_incomplete_downloads(&registry);
        a
    };
    let a = scanned();
    assert_eq!(a.incomplete_downloads.len(), 2);
    assert_eq!(a.popup_mode, PopupMode::ResumeDownload);
    assert_eq!(a.status, "Found 2 incomplete download(s)");
    assert_eq!(a.complete_downloads.len(), 1);

    let mut y = scanned();
    assert_eq!(y.on_key_event(ch('Y')), Effect::ResumeIncomplete);
    let queued = y.finish_resume();
    assert_eq!(queued.len(), 2);
    assert!(y.incomplete_downloads.is_empty());
    assert_eq!(y.status, "Resuming 2 incomplete download(s)");

    let mut n = scanned();
    n.on_key_event(key(KeyCode::Esc));
    assert_eq!(n.popup_mode, PopupMode::Closed);
    assert!(n.incomplete_downloads.is_empty());
    assert_eq!(n.status, "Skipped incomplete downloads");

    let mut d = a;
    assert_eq!(d.on_key_event(ch('d')), Effect::DeleteIncomplete);
    d.finish_delete(1, &vec!["c.gguf: not found".to_string(), "x: denied".to_string()]);
    assert_eq!(d.status, "Deleted 1 file(s), 2 error(s): c.gguf: not found, x: denied");
    d.finish_delete(2, &vec![]);
    assert_eq!(d.status, "Deleted 2 incomplete file(s)");
}

#[test]
fn forgetting_a_download_drops_its_entries() {
    let mut r = DownloadRegistry {
        downloads: vec![
            entry("https://h/a", DownloadStatus::Incomplete),
            entry("https://h/b", DownloadStatus::Incomplete),
            entry("https://h/a", DownloadStatus::Complete),
        ],
    };
    forget_download(&mut r, "https://h/a");
    assert_eq!(r.downloads.len(), 1);
    assert_eq!(r.downloads[0].url, "https://h/b");
}

#[test]
fn status_messages_and_auth_popup() {
    let mut a = app();
    a.apply_status_message("Download complete");
    assert_eq!(a.status, "Download complete");
    a.apply_status_message("AUTH_ERROR:meta-llama/Llama-3.1-8B");
    assert_eq!(
        a.popup_mode,
        PopupMode::AuthError { model_url: "https://huggingface.co/meta-llama/Llama-3.1-8B".to_string() }
    );
    assert_eq!(a.status, "Authentication required for meta-llama/Llama-3.1-8B");
    a.on_key_event(ch('o'));
    assert_eq!(a.popup_mode, PopupMode::Options);
}

#[test]
fn search_results_prefer_an_exact_id() {
    let mut a = app();
    a.input = "Org/M1".to_string();
    let k = a.begin_search().unwrap();
    assert_eq!(k.query, "Org/M1");
    assert!(a.loading);
    a.apply_search_results("Org/M1", vec![model("org/m0"), model("org/m1"), model("org/m10")], false);
    assert_eq!(a.models.len(), 1);
    assert_eq!(a.models[0].id, "org/m1");
    assert_eq!(a.status, "Found 1 models (exact match)");
    assert!(!a.loading);
    assert!(a.needs_load_quantizations);

    let mut b = app();
    b.filter_min_likes = 10;
    b.apply_search_results("llama", vec![model("a/b"), model("c/d")], true);
    assert_eq!(b.models.len(), 2);
    assert_eq!(b.status, "Found 2 models (cached, filtered from 100)");

    let mut c = app();
    assert!(c.begin_search().is_none());
    c.apply_search_results("x", vec![], true);
    assert_eq!(c.status, "Found 0 models (cached)");
    assert!(!c.needs_load_quantizations);
    c.search_failed("timeout");
    assert_eq!(c.status, "Search failed");
    assert_eq!(c.error, Some("Failed to fetch models: timeout".to_string()));
}

#[test]
fn details_modes_and_repository_files() {
    let gguf = meta(&[("model-Q4_K_M.gguf", Some(10)), ("README.md", Some(1))]);
    let plain = meta(&[("config.json", Some(1)), ("sub/", None), ("weights.bin", Some(9)), ("dir/", Some(0))]);
    assert_eq!(display_mode_for(&gguf), ModelDisplayMode::Gguf);
    assert_eq!(display_mode_for(&plain), ModelDisplayMode::Standard);
    assert_eq!(repository_files(&plain), vec![0, 2]);

    let mut a = app_with_models(2);
    a.list_state = Some(1);
    assert_eq!(a.begin_load_details(), Some("org/m1".to_string()));
    assert!(a.loading_quants);
    let tree = build_file_tree(plain.siblings.clone());
    a.show_repository(plain, tree);
    assert_eq!(a.display_mode, ModelDisplayMode::Standard);
    assert!(!a.loading_quants);
    assert!(a.model_metadata.is_some());
    a.details_failed("404");
    assert_eq!(a.error, Some("Failed to fetch model metadata: 404".to_string()));
    assert!(a.file_tree.is_none());
    a.show_quantizations(vec![group("Q8_0", vec![qinfo("x.gguf", 1)])]);
    assert_eq!(a.display_mode, ModelDisplayMode::Gguf);
    assert_eq!(a.quantizations.len(), 1);
}

#[test]
fn mouse_focus_hover_and_scroll() {
    let mut a = app_with_models(3);
    a.quantizations = vec![group("Q8_0", vec![qinfo("x.gguf", 1)])];
    a.panel_areas = vec![
        (FocusedPane::Models, Rect { x: 0, y: 0, width: 10, height: 10 }),
        (FocusedPane::QuantizationGroups, Rect { x: 10, y: 0, width: 10, height: 10 }),
    ];
    a.update_hover_state(12, 3);
    assert_eq!(a.hovered_panel, Some(FocusedPane::QuantizationGroups));
    assert_eq!(a.mouse_position, Some((12, 3)));
    a.update_hover_state(30, 3);
    assert_eq!(a.hovered_panel, None);
    a.handle_mouse_click(12, 3);
    assert_eq!(a.focused_pane, FocusedPane::QuantizationGroups);
    assert_eq!(a.quant_list_state, Some(0));
    a.focused_pane = FocusedPane::Models;
    a.handle_mouse_scroll(false);
    assert_eq!(a.list_state, Some(1));
    a.popup_mode = PopupMode::Options;
    a.handle_mouse_scroll(false);
    assert_eq!(a.list_state, Some(1));
    assert!(Rect { x: 65530, y: 0, width: 100, height: 1 }.contains(65534, 0));
    assert!(!Rect { x: 0, y: 0, width: 0, height: 5 }.contains(0, 0));
}

#[test]
fn key_bindings_in_order() {
    assert_eq!(normal_command(ch('q'), FocusedPane::Models), Command::Quit);
    assert_eq!(
        normal_command(KeyInput { modifiers: Modifiers::Control, code: KeyCode::Char('S') }, FocusedPane::Models),
        Command::SaveFilters
    );
    assert_eq!(normal_command(ch('S'), FocusedPane::Models), Command::Ignored);
    assert_eq!(normal_command(ch('+'), FocusedPane::FileTree), Command::Ignored);
    assert_eq!(normal_command(ch('_'), FocusedPane::Models), Command::LowerFilter);
    assert_eq!(normal_command(ch('4'), FocusedPane::Models), Command::Preset(FilterPreset::Recent));
    assert_eq!(normal_command(ch('k'), FocusedPane::Models), Command::Up);
}

#[test]
fn editing_mode_keys() {
    let mut a = app();
    a.input_mode = InputMode::Editing;
    assert_eq!(a.on_key_event(ch('a')), Effect::ForwardKey(TextField::Search, ch('a')));
    a.on_key_event(key(KeyCode::Esc));
    assert_eq!(a.input_mode, InputMode::Normal);
    assert_eq!(
        a.status,
        "Press '/' to search, Tab to switch lists, 'd' to download, 'v' to verify, 'o' for options, 'q' to quit"
    );
}

#[test]
fn config_save_failures_and_listing_failures() {
    let mut a = app();
    a.record_config_save(None);
    assert_eq!(a.status, "Welcome! Press '/' to search for models");
    a.record_config_save(Some("read-only".to_string()));
    assert_eq!(a.status, "Failed to save config: read-only");
    a.quantizations = vec![group("Q8_0", vec![qinfo("x.gguf", 1)])];
    a.loading_quants = true;
    a.quantizations_failed();
    assert!(a.quantizations.is_empty());
    assert!(!a.loading_quants);
}
