//! Quantization classification, multipart names, GGUF detection and the
//! repository file tree.

use rust_hf_downloader::api::{build_file_tree, classify_quantizations, has_gguf_files};
use rust_hf_downloader::models::{LfsInfo, ModelMetadata, QuantizationGroup, RepoFile};
use rust_hf_downloader::quant::{
    classification_stem, classify_file_quant_type, extract_quantization_type,
    extract_quantization_type_from_dirname, get_multipart_base_name, is_gguf_path,
    is_mmproj_name, is_quantization_directory, looks_like_quant_type, parse_multipart_filename,
    parse_u32, quant_type_from_directory, quant_type_from_dirname_strict,
};

fn repo_file(path: &str, size: u64) -> RepoFile {
    RepoFile {
        rfilename: path.to_string(),
        size: Some(size),
        lfs: None,
    }
}

fn repo_file_lfs(path: &str, size: u64, oid: &str) -> RepoFile {
    RepoFile {
        rfilename: path.to_string(),
        size: Some(size),
        lfs: Some(LfsInfo {
            oid: oid.to_string(),
            size,
            pointer_size: 136,
        }),
    }
}

fn group_types(groups: &[QuantizationGroup]) -> Vec<&str> {
    groups.iter().map(|g| g.quant_type.as_str()).collect()
}

fn group_files<'a>(groups: &'a [QuantizationGroup], quant: &str) -> Vec<&'a str> {
    groups
        .iter()
        .find(|g| g.quant_type == quant)
        .map(|g| g.files.iter().map(|f| f.filename.as_str()).collect())
        .unwrap_or_default()
}

fn make_metadata(siblings: &[&str]) -> ModelMetadata {
    ModelMetadata {
        model_id: "test/model".to_string(),
        library_name: None,
        pipeline_tag: None,
        card_data: None,
        siblings: siblings.iter().map(|s| repo_file(s, 1)).collect(),
        tags: Vec::new(),
    }
}

#[test]
fn quant_type_from_dotted_filename() {
    assert_eq!(
        extract_quantization_type("model.Q4_K_M.gguf"),
        Some("Q4_K_M".to_string())
    );
    assert_eq!(
        extract_quantization_type("llama-2-7b.Q5_0.gguf"),
        Some("Q5_0".to_string())
    );
}

#[test]
fn quant_type_from_dashed_filename() {
    assert_eq!(
        extract_quantization_type("Qwen3-VL-30B-Q8_K_XL.gguf"),
        Some("Q8_K_XL".to_string())
    );
    assert_eq!(
        extract_quantization_type("Qwen3-VL-4B-Thinking-1M-IQ4_XS.gguf"),
        Some("IQ4_XS".to_string())
    );
}

#[test]
fn quant_type_normalizes_lowercase_to_uppercase() {
    assert_eq!(
        extract_quantization_type("model.q4_k_m.gguf"),
        Some("Q4_K_M".to_string())
    );
    assert_eq!(
        extract_quantization_type("Model.Bf16.gguf"),
        Some("BF16".to_string())
    );
}

#[test]
fn quant_type_none_for_non_gguf_or_plain_names() {
    assert_eq!(extract_quantization_type("model.gguf"), None);
    assert_eq!(extract_quantization_type("model.txt"), None);
    assert_eq!(extract_quantization_type("readme.bin"), None);
}

#[test]
fn quant_type_from_multipart_names() {
    assert_eq!(
        extract_quantization_type("model.Q4_K_M-00002-of-00005.gguf"),
        Some("Q4_K_M".to_string())
    );
    assert_eq!(
        extract_quantization_type("model.Q4_K_M.gguf.part1of2"),
        Some("Q4_K_M".to_string())
    );
    assert_eq!(extract_quantization_type("model-00002-of-00005.gguf"), None);
}

#[test]
fn quant_type_uppercase_gguf_extension_is_not_recognized() {
    assert_eq!(extract_quantization_type("model.Q4_K_M.GGUF"), None);
}

#[test]
fn parse_multipart_five_digit_format() {
    assert_eq!(
        parse_multipart_filename("name-00002-of-00005.gguf"),
        Some((2, 5))
    );
    assert_eq!(parse_multipart_filename("a-00003-of-00004"), Some((3, 4)));
}

#[test]
fn parse_multipart_partnofm_format() {
    assert_eq!(
        parse_multipart_filename("model.Q4_K_M.gguf.part1of2"),
        Some((1, 2))
    );
}

#[test]
fn parse_multipart_rejects_invalid_names() {
    assert_eq!(parse_multipart_filename("model.gguf"), None);
    assert_eq!(parse_multipart_filename("model-00001-of-00001.gguf"), None);
    assert_eq!(parse_multipart_filename("model-00006-of-00005.gguf"), None);
}

#[test]
fn parse_multipart_falls_back_to_part_form() {
    // A single-part five-digit marker does not stop the part form.
    assert_eq!(
        parse_multipart_filename("m-00001-of-00001.gguf.part2of3"),
        Some((2, 3))
    );
    // A part count too large for u32 rejects the name.
    assert_eq!(parse_multipart_filename("m.part1of99999999999"), None);
}

#[test]
fn parse_u32_follows_str_parse() {
    for s in ["0", "42", "+7", "4294967295", "4294967296", "", "+", "-1", "1a", " 1", "007"] {
        assert_eq!(parse_u32(s), s.parse::<u32>().ok(), "input {:?}", s);
    }
}

#[test]
fn base_name_strips_five_digit_suffix() {
    assert_eq!(
        get_multipart_base_name("model-Q6_K-00003-of-00009.gguf"),
        "model-Q6_K.gguf"
    );
}

#[test]
fn base_name_strips_partnofm_suffix() {
    assert_eq!(
        get_multipart_base_name("model.Q4_K_M.gguf.part1of2"),
        "model.Q4_K_M.gguf"
    );
}

#[test]
fn base_name_leaves_plain_filenames_alone() {
    assert_eq!(get_multipart_base_name("model.gguf"), "model.gguf");
}

#[test]
fn quant_dir_recognizes_common_types() {
    assert!(is_quantization_directory("Q4_K_M"));
    assert!(is_quantization_directory("Q8_0"));
    assert!(is_quantization_directory("IQ4_XS"));
    assert!(is_quantization_directory("TQ1_0"));
    assert!(is_quantization_directory("BF16"));
    assert!(is_quantization_directory("F16"));
    assert!(is_quantization_directory("FP16"));
    assert!(is_quantization_directory("FP32"));
}

#[test]
fn quant_dir_is_case_insensitive() {
    assert!(is_quantization_directory("q4_k_m"));
    assert!(is_quantization_directory("iq4_xs"));
}

#[test]
fn quant_dir_rejects_random_names() {
    assert!(!is_quantization_directory("random"));
    assert!(!is_quantization_directory("models"));
    assert!(!is_quantization_directory(""));
}

#[test]
fn quant_dir_matches_suffix_of_model_dirnames() {
    assert!(is_quantization_directory(
        "cerebras_MiniMax-M2-REAP-139B-A10B-Q8_0"
    ));
}

#[test]
fn quant_dir_strict_q_prefix_matching() {
    assert!(!is_quantization_directory("QuickCheck"));
    assert!(!is_quantization_directory("Qwen-backup"));
    assert!(is_quantization_directory("Q4_K_M"));
    assert!(is_quantization_directory("Q8_0"));
}

#[test]
fn quant_dir_mxfp_recognized() {
    assert!(is_quantization_directory("MXFP4"));
    assert!(is_quantization_directory("mxfp4"));
    assert!(!is_quantization_directory("MXFP4_MOE"));
    assert_eq!(extract_quantization_type_from_dirname("MXFP4"), "MXFP4");
}

#[test]
fn dirname_type_plain() {
    assert_eq!(extract_quantization_type_from_dirname("Q4_K_M"), "Q4_K_M");
    assert_eq!(extract_quantization_type_from_dirname("q8_0"), "Q8_0");
}

#[test]
fn dirname_type_from_model_dirname() {
    assert_eq!(
        extract_quantization_type_from_dirname("cerebras_MiniMax-M2-REAP-139B-A10B-Q8_0"),
        "Q8_0"
    );
    assert_eq!(extract_quantization_type_from_dirname("my_model-BF16"), "BF16");
}

#[test]
fn dirname_type_fallback_uppercases_whole_name() {
    assert_eq!(extract_quantization_type_from_dirname("random"), "RANDOM");
}

#[test]
fn strict_dirname_has_no_fallback() {
    assert_eq!(quant_type_from_dirname_strict("random"), None);
    assert_eq!(quant_type_from_dirname_strict("q4_k_m"), Some("Q4_K_M".to_string()));
    assert_eq!(quant_type_from_directory("Q8_0/sub/model.gguf"), Some("Q8_0".to_string()));
    // The file name itself is not a directory.
    assert_eq!(quant_type_from_directory("Q8_0"), None);
    assert_eq!(quant_type_from_directory("Dynamic/model.gguf"), None);
}

#[test]
fn file_classification_helpers() {
    assert!(is_gguf_path("a/b.gguf"));
    assert!(is_gguf_path("m.gguf.part1of2"));
    assert!(!is_gguf_path("m.safetensors"));
    assert_eq!(
        classification_stem("Dynamic/model.Q4_K_M-00001-of-00002.gguf"),
        "model.Q4_K_M"
    );
    assert_eq!(classify_file_quant_type("mmproj-F32.gguf"), "MMPROJ");
    assert_eq!(classify_file_quant_type("x.mmproj-Q8_0.gguf"), "MMPROJ-Q8_0");
    assert_eq!(classify_file_quant_type("Q4_K_M/model.gguf"), "Q4_K_M");
    assert_eq!(classify_file_quant_type("Dynamic/model.gguf"), "OTHER");
    assert!(looks_like_quant_type("Q4_K_M"));
    assert!(!looks_like_quant_type("QUICKCHECK"));
}

#[test]
fn build_file_tree_nests_and_sorts() {
    let files = vec![
        repo_file("a/b.gguf", 100),
        repo_file("a/c.txt", 50),
        repo_file("d.bin", 30),
        repo_file("e/f/g.gguf", 7),
    ];

    let root = build_file_tree(files);

    assert_eq!(root.name, "");
    assert!(root.is_dir);
    assert_eq!(root.depth, 0);
    let names: Vec<&str> = root.children.iter().map(|c| c.name.as_str()).collect();
    assert_eq!(names, vec!["a", "e", "d.bin"]);
    assert_eq!(root.size, Some(187));

    let dir_a = &root.children[0];
    assert!(dir_a.is_dir);
    assert_eq!(dir_a.path, "a");
    assert_eq!(dir_a.size, Some(150));
    let a_names: Vec<&str> = dir_a.children.iter().map(|c| c.name.as_str()).collect();
    assert_eq!(a_names, vec!["b.gguf", "c.txt"]);

    let b = &dir_a.children[0];
    assert!(!b.is_dir);
    assert_eq!(b.path, "a/b.gguf");
    assert_eq!(b.size, Some(100));
    assert_eq!(b.depth, 2);

    let dir_e = &root.children[1];
    assert_eq!(dir_e.size, Some(7));
    let dir_f = &dir_e.children[0];
    assert_eq!(dir_f.name, "f");
    let g = &dir_f.children[0];
    assert_eq!(g.name, "g.gguf");
    assert_eq!(g.path, "e/f/g.gguf");
    assert_eq!(g.depth, 3);

    let d = &root.children[2];
    assert!(!d.is_dir);
    assert_eq!(d.path, "d.bin");
    assert_eq!(d.size, Some(30));
}

#[test]
fn has_gguf_files_true_for_gguf_sibling() {
    assert!(has_gguf_files(&make_metadata(&[
        "config.json",
        "model.Q4_K_M.gguf"
    ])));
}

#[test]
fn has_gguf_files_true_for_multipart_gguf() {
    assert!(has_gguf_files(&make_metadata(&["model.gguf.part1of2"])));
}

#[test]
fn has_gguf_files_false_without_gguf() {
    assert!(!has_gguf_files(&make_metadata(&[
        "config.json",
        "weights.safetensors"
    ])));
    assert!(!has_gguf_files(&make_metadata(&[])));
}

#[test]
fn classify_root_layout_unchanged() {
    let groups = classify_quantizations(&[
        repo_file("model.Q4_K_M.gguf", 100),
        repo_file("model.Q8_0.gguf", 50),
        repo_file("README.md", 1),
    ]);
    assert_eq!(group_types(&groups), vec!["Q4_K_M", "Q8_0"]);
    assert_eq!(group_files(&groups, "Q4_K_M"), vec!["model.Q4_K_M.gguf"]);
}

#[test]
fn classify_ex0bit_nested_dynamic_directory() {
    let groups = classify_quantizations(&[
        repo_file(".gitattributes", 1746),
        repo_file("README.md", 7167),
        repo_file("Dynamic/Qwen3.5-122B-A10B-PRISM-LITE-Dynamic.gguf", 61_970_228_480),
        repo_file("Dynamic/imatrix.dat", 358_906_272),
        repo_file("Dynamic/mmproj-Qwen3.5-122B-A10B-PRISM-LITE.gguf", 912_263_520),
    ]);
    assert_eq!(group_types(&groups), vec!["MMPROJ", "OTHER"]);
    assert_eq!(
        group_files(&groups, "OTHER"),
        vec!["Dynamic/Qwen3.5-122B-A10B-PRISM-LITE-Dynamic.gguf"]
    );
    assert_eq!(
        group_files(&groups, "MMPROJ"),
        vec!["Dynamic/mmproj-Qwen3.5-122B-A10B-PRISM-LITE.gguf"]
    );
}

#[test]
fn classify_sabomako_mxfp4_moe_and_mmproj_f32() {
    let groups = classify_quantizations(&[
        repo_file("Qwen3.5-122B-A10B-heretic.BF16-00001-of-00006.gguf", 48_656_272_000),
        repo_file("Qwen3.5-122B-A10B-heretic.mxfp4_moe-00001-of-00002.gguf", 39_636_333_056),
        repo_file("Qwen3.5-122B-A10B-heretic.mxfp4_moe-00002-of-00002.gguf", 28_629_663_936),
        repo_file("mmproj-F32.gguf", 1_805_183_712),
        repo_file("README.md", 122),
    ]);
    assert_eq!(group_types(&groups), vec!["MXFP4", "BF16", "MMPROJ"]);
    assert_eq!(group_files(&groups, "MXFP4").len(), 2);
    assert_eq!(group_files(&groups, "MMPROJ"), vec!["mmproj-F32.gguf"]);
}

#[test]
fn classify_mradermacher_mmproj_not_mixed_into_weights() {
    let groups = classify_quantizations(&[
        repo_file("Qwen3.5-27B-heretic.Q8_0.gguf", 1000),
        repo_file("Qwen3.5-27B-heretic.mmproj-Q8_0.gguf", 100),
    ]);
    assert_eq!(group_types(&groups), vec!["Q8_0", "MMPROJ-Q8_0"]);
    assert_eq!(group_files(&groups, "Q8_0"), vec!["Qwen3.5-27B-heretic.Q8_0.gguf"]);
    assert_eq!(
        group_files(&groups, "MMPROJ-Q8_0"),
        vec!["Qwen3.5-27B-heretic.mmproj-Q8_0.gguf"]
    );
}

#[test]
fn classify_quant_named_directory_inheritance() {
    let groups = classify_quantizations(&[
        repo_file("Q4_K_M/model.gguf", 100),
        repo_file("Q8_0/model.gguf", 80),
        repo_file("MXFP4/model.gguf", 60),
    ]);
    assert_eq!(group_types(&groups), vec!["Q4_K_M", "Q8_0", "MXFP4"]);
    assert_eq!(group_files(&groups, "Q4_K_M"), vec!["Q4_K_M/model.gguf"]);
}

#[test]
fn classify_deeply_nested_quant_dir_and_multipart() {
    let groups = classify_quantizations(&[
        repo_file("Q4_K_M/model.Q4_K_M-00001-of-00002.gguf", 10),
        repo_file("Q4_K_M/model.Q4_K_M-00002-of-00002.gguf", 10),
    ]);
    assert_eq!(group_types(&groups), vec!["Q4_K_M"]);
    assert_eq!(group_files(&groups, "Q4_K_M").len(), 2);
}

#[test]
fn classify_non_gguf_repo_yields_no_groups() {
    let groups = classify_quantizations(&[
        repo_file("config.json", 100),
        repo_file("model-00001-of-00002.safetensors", 1000),
        repo_file("tokenizer.json", 10),
    ]);
    assert!(groups.is_empty());
}

#[test]
fn classify_sha256_and_size_carried_through() {
    let groups = classify_quantizations(&[repo_file_lfs(
        "Dynamic/model-Q4_K.gguf",
        42,
        "deadbeef",
    )]);
    let file = &groups[0].files[0];
    assert_eq!(file.sha256.as_deref(), Some("deadbeef"));
    assert_eq!(file.size, 42);
    assert_eq!(groups[0].total_size, 42);
}

#[test]
fn classify_other_group_sorted_last() {
    let groups = classify_quantizations(&[
        repo_file("mystery.gguf", 999),
        repo_file("model.Q2_K.gguf", 10),
    ]);
    assert_eq!(group_types(&groups), vec!["Q2_K", "OTHER"]);
}

#[test]
fn classify_skips_directory_entries() {
    let groups = classify_quantizations(&[
        repo_file("Dynamic/", 0),
        repo_file("Dynamic/model.gguf", 5),
    ]);
    assert_eq!(group_types(&groups), vec!["OTHER"]);
}

#[test]
fn classify_groups_sum_sizes_and_largest_first() {
    let groups = classify_quantizations(&[
        repo_file("m.Q2_K.gguf", 5),
        repo_file("m.Q8_0-00001-of-00002.gguf", 4),
        repo_file("m.Q8_0-00002-of-00002.gguf", 4),
    ]);
    assert_eq!(group_types(&groups), vec!["Q8_0", "Q2_K"]);
    assert_eq!(groups[0].total_size, 8);
    assert_eq!(groups[1].total_size, 5);
}

#[test]
fn mmproj_detection_variants() {
    assert!(is_mmproj_name("mmproj-Q8_0"));
    assert!(is_mmproj_name("model.mmproj-Q8_0"));
    assert!(is_mmproj_name("mmproj-F32"));
    assert!(is_mmproj_name("mmproj-Qwen3.5-122B"));
    assert!(!is_mmproj_name("model-Q8_0"));
    assert!(!is_mmproj_name("mmprojector-adjacent-false-positive-check"));
}
