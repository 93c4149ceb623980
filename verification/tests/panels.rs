//! The text of the interface panels.

use rust_hf_downloader::models::{
    AppOptions, CompleteDownloads, DownloadMetadata, DownloadStatus, FileTreeNode, FilterPreset, ModelCardData,
    ModelInfo, ModelMetadata, QuantizationGroup, QuantizationInfo, RepoFile, SortDirection, SortField,
};
use rust_hf_downloader::panels::{
    active_preset, metadata_lines, model_row, options_layout, options_popup_size, quant_file_row, quant_group_row,
    tree_row,
};
use rust_hf_downloader::ui::App;

fn app() -> App {
    App::new(AppOptions::defaults_for("/home/u", None))
}

fn model(id: &str) -> ModelInfo {
    ModelInfo { id: id.to_string(), author: None, downloads: 0, likes: 0, tags: vec![], last_modified: None }
}

fn qinfo(name: &str, size: u64) -> QuantizationInfo {
    QuantizationInfo { quant_type: "Q4_K_M".to_string(), filename: name.to_string(), size, sha256: None }
}

fn done(name: &str) -> DownloadMetadata {
    DownloadMetadata {
        model_id: "org/repo".to_string(),
        filename: name.to_string(),
        url: String::new(),
        local_path: String::new(),
        total_size: 1,
        downloaded_size: 1,
        status: DownloadStatus::Complete,
        expected_sha256: None,
    }
}

fn node(name: &str, is_dir: bool, size: Option<u64>, depth: usize, children: Vec<FileTreeNode>) -> FileTreeNode {
    FileTreeNode {
        name: name.to_string(),
        path: name.to_string(),
        is_dir,
        size,
        children,
        expanded: false,
        depth,
    }
}

#[test]
fn model_row_pieces() {
    let mut m = model("unsloth/Qwen3-GGUF");
    m.downloads = 1500;
    m.likes = 12;
    m.tags = vec!["a".into(), "b".into(), "c".into(), "d".into()];
    m.last_modified = Some("2024-05-01T12:00:00.000Z".to_string());
    let r = model_row(0, &m);
    assert_eq!(r.number, "  1. ");
    assert_eq!(r.id, "unsloth/Qwen3-GGUF");
    assert_eq!(r.author, "unsloth");
    assert_eq!(r.counts, " \u{2193}1.5K \u{2665}12");
    assert_eq!(r.date, " [2024-05-01]");
    assert_eq!(r.tags, " [a, b, c]");
    assert_eq!(model_row(1234, &m).number, "1235. ");
}

#[test]
fn model_row_author_date_and_tags_edges() {
    let mut m = model("gpt2");
    assert_eq!(model_row(0, &m).author, "gpt2");
    m.author = Some("openai".to_string());
    assert_eq!(model_row(0, &m).author, "openai");
    m.last_modified = Some("2024".to_string());
    assert_eq!(model_row(0, &m).date, "");
    m.last_modified = Some(String::new());
    assert_eq!(model_row(0, &m).date, "");
    // The first ten bytes, not characters: three two-byte letters and four more.
    m.last_modified = Some("\u{e9}\u{e9}\u{e9}-01-2024T0".to_string());
    assert_eq!(model_row(0, &m).date, " [\u{e9}\u{e9}\u{e9}-01-]");
    m.tags = vec!["x".into()];
    assert_eq!(model_row(0, &m).tags, " [x]");
    m.tags = vec![];
    assert_eq!(model_row(0, &m).tags, "");
}

#[test]
fn results_title_follows_state() {
    let mut a = app();
    assert_eq!(a.results_title(), "Results [Enter a search query]");
    a.input = "qwen".to_string();
    assert_eq!(a.results_title(), "Results [No models found]");
    a.loading = true;
    assert_eq!(a.results_title(), "Results [Loading...]");
    a.loading = false;
    a.models = vec![model("a/b")];
    assert_eq!(a.results_title(), "Results");
}

#[test]
fn status_bar_lines() {
    let mut a = app();
    a.status = "Ready".to_string();
    a.list_state = None;
    assert_eq!(a.status_bar_text(), "Ready");
    a.models = vec![model("org/m0")];
    a.list_state = Some(0);
    assert_eq!(a.status_bar_text(), "Selected: org/m0 | URL: https://huggingface.co/org/m0\nReady");
    a.filter_min_likes = 5;
    a.error = Some("boom".to_string());
    assert_eq!(
        a.status_bar_text(),
        "Selected: org/m0 | URL: https://huggingface.co/org/m0\nError: boom [Filters Active]"
    );
    a.selection_info = "3 files".to_string();
    assert_eq!(a.status_bar_text(), "3 files\nError: boom [Filters Active]");
}

#[test]
fn panel_titles() {
    let mut a = app();
    assert_eq!(a.metadata_title(), "Model Information [Select a model to view]");
    assert_eq!(a.tree_title(), "Repository Files [Select a model to view]");
    assert_eq!(a.quant_title(), "Quantization Types [Select a model to view]");
    assert_eq!(a.files_title(), "Files [Select a quantization type]");
    a.loading_quants = true;
    assert_eq!(a.metadata_title(), "Model Information [Loading...]");
    assert_eq!(a.quant_title(), "Quantization Types [Loading...]");
    a.loading_quants = false;
    a.quantizations = vec![QuantizationGroup {
        quant_type: "Q8_0".to_string(),
        files: vec![qinfo("m.gguf", 1)],
        total_size: 1,
    }];
    a.quant_list_state = Some(0);
    assert_eq!(a.quant_title(), "Quantization Types");
    assert_eq!(a.files_title(), "Files");
    a.file_tree = Some(node("", true, None, 0, vec![]));
    assert_eq!(a.tree_title(), "Repository Files");
}

#[test]
fn metadata_lines_in_order() {
    let meta = ModelMetadata {
        model_id: "org/repo".to_string(),
        library_name: Some("transformers".to_string()),
        pipeline_tag: None,
        card_data: Some(ModelCardData {
            base_model: Some("llama".to_string()),
            license: Some("mit".to_string()),
            language: Some(vec!["en".to_string(), "fr".to_string()]),
            datasets: None,
        }),
        siblings: vec![
            RepoFile { rfilename: "a".to_string(), size: Some(100), lfs: None },
            RepoFile { rfilename: "b".to_string(), size: None, lfs: None },
            RepoFile { rfilename: "c".to_string(), size: Some(2048), lfs: None },
        ],
        tags: (0..9).map(|i| format!("t{}", i)).collect(),
    };
    let lines: Vec<(String, String)> = metadata_lines(&meta);
    let pairs: Vec<(&str, &str)> = lines.iter().map(|(a, b)| (a.as_str(), b.as_str())).collect();
    assert_eq!(
        pairs,
        vec![
            ("ID: ", "org/repo"),
            ("Library: ", "transformers"),
            ("Base Model: ", "llama"),
            ("License: ", "mit"),
            ("Languages: ", "en, fr"),
            ("Files: ", "3 (2.10 KB)"),
            ("", ""),
            ("Tags:", ""),
            ("", "t0, t1, t2, t3, t4, t5, t6, t7"),
        ]
    );
    let bare = ModelMetadata { card_data: None, tags: vec![], siblings: vec![], library_name: None, ..meta };
    let lines = metadata_lines(&bare);
    assert_eq!(lines.len(), 2);
    assert_eq!(lines[1], ("Files: ".to_string(), "0 (0 B)".to_string()));
}

#[test]
fn tree_rows_show_marks_sizes_and_counts() {
    let dir = node(
        "sub",
        true,
        Some(2048),
        1,
        vec![node("a.bin", false, Some(1024), 2, vec![]), node("b.bin", false, None, 2, vec![])],
    );
    let r = tree_row(&dir);
    assert_eq!((r.indent.as_str(), r.icon.as_str(), r.name.as_str()), ("  ", "\u{25b8} ", "sub/"));
    assert_eq!((r.size.as_str(), r.count.as_str()), ("  2.00 KB", " (2 files)"));
    let mut open = dir;
    open.expanded = true;
    assert_eq!(tree_row(&open).icon, "\u{25be} ");
    let f = tree_row(&open.children[1]);
    assert_eq!((f.indent.as_str(), f.icon.as_str(), f.name.as_str()), ("    ", "  ", "b.bin"));
    assert_eq!((f.size.as_str(), f.count.as_str()), ("  -", ""));
}

#[test]
fn quant_rows_mark_downloads() {
    let g = QuantizationGroup {
        quant_type: "Q4_K_M".to_string(),
        files: vec![qinfo("m-00001-of-00002.gguf", 1 << 31), qinfo("m-00002-of-00002.gguf", 1 << 31)],
        total_size: 5_368_709_120,
    };
    let mut complete = CompleteDownloads::new();
    let r = quant_group_row(&g, &complete);
    assert_eq!(r.size, "   5.00 GB  ");
    assert_eq!(r.name, "Q4_K_M         ");
    assert_eq!(r.suffix, " (2 files)");
    complete.insert("m-00001-of-00002.gguf".to_string(), done("m-00001-of-00002.gguf"));
    assert_eq!(quant_group_row(&g, &complete).suffix, " [downloaded]");

    let f = qinfo("model-00001-of-00002.gguf", 1024);
    let r = quant_file_row(&f, &complete, 30);
    assert_eq!((r.size.as_str(), r.name.as_str(), r.suffix.as_str()), ("   1.00 KB  ", "model-00\u{2026}gguf", ""));
    complete.insert(f.filename.clone(), done(&f.filename));
    let r = quant_file_row(&f, &complete, 40);
    assert_eq!((r.name.as_str(), r.suffix.as_str()), ("model-\u{2026}guf", " [downloaded]"));
    assert_eq!(quant_file_row(&f, &complete, 30).name, "");
}

#[test]
fn toolbar_names_the_active_preset() {
    let mut a = app();
    let t = a.filter_toolbar();
    assert_eq!(t.sort, "Downloads \u{25bc}");
    assert_eq!((t.min_downloads.as_str(), t.min_likes.as_str()), ("0", "0"));
    assert_eq!(t.preset.as_deref(), Some("[No Filters]"));
    a.sort_direction = SortDirection::Ascending;
    let t = a.filter_toolbar();
    assert_eq!(t.sort, "Downloads \u{25b2}");
    assert_eq!(t.preset, None);
    a.sort_direction = SortDirection::Descending;
    a.sort_field = SortField::Likes;
    a.filter_min_likes = 1000;
    let t = a.filter_toolbar();
    assert_eq!(t.min_likes, "1.0K");
    assert_eq!(t.preset.as_deref(), Some("[Highly Rated]"));
    assert_eq!(active_preset(SortField::Name, SortDirection::Descending, 0, 0), None);
}

#[test]
fn applied_preset_shows_in_toolbar() {
    for (p, name) in [
        (FilterPreset::NoFilters, "[No Filters]"),
        (FilterPreset::Popular, "[Popular]"),
        (FilterPreset::HighlyRated, "[Highly Rated]"),
        (FilterPreset::Recent, "[Recent]"),
    ] {
        let mut a = app();
        a.sort_field = SortField::Name;
        a.apply_filter_preset(p);
        assert_eq!(a.filter_toolbar().preset.as_deref(), Some(name));
    }
}

#[test]
fn options_layout_full_height() {
    let l = options_layout(30);
    assert!(!l.compact);
    assert_eq!(l.headers, vec![1, 5, 15]);
    assert_eq!(l.fields.len(), 14);
    assert_eq!((l.fields[0], l.fields[1], l.fields[2]), (2, 3, 6));
    assert_eq!((l.fields[9], l.fields[10], l.fields[13]), (13, 16, 19));
    assert_eq!(l.help, 25);
    let edge = options_layout(25);
    assert!(!edge.compact);
    assert_eq!(edge.help, 20);
}

#[test]
fn options_layout_compact_height() {
    let l = options_layout(20);
    assert!(l.compact);
    assert_eq!(l.headers, vec![0, 3, 12]);
    assert_eq!((l.fields[0], l.fields[1], l.fields[2]), (1, 2, 4));
    assert_eq!((l.fields[10], l.fields[13]), (13, 16));
    assert_eq!(l.help, 17);
    let tall = options_layout(24);
    assert!(tall.compact);
    assert_eq!(tall.help, 19);
}

#[test]
fn options_popup_size_caps() {
    assert_eq!(options_popup_size(100, 50), (64, 31));
    assert_eq!(options_popup_size(40, 20), (36, 16));
    assert_eq!(options_popup_size(3, 2), (0, 0));
}
