//! Model type detection and display names.

use rust_hf_downloader::models::{detect_model_type, AppOptions, ModelType};
use rust_hf_downloader::verification::{verification_config_from, VerificationConfig};

#[test]
fn families_from_id_and_tags() {
    assert_eq!(detect_model_type("openai/GPT-2", &[], None, None), ModelType::GPT);
    assert_eq!(detect_model_type("google/bert-base", &[], None, None), ModelType::BERT);
    assert_eq!(detect_model_type("x/y", &["Whisper".to_string()], None, None), ModelType::Whisper);
    assert_eq!(
        detect_model_type("sd/stable-diffusion-xl", &[], None, None),
        ModelType::StableDiffusion
    );
    assert_eq!(detect_model_type("google/vit-base", &[], None, None), ModelType::VisionTransformer);
}

#[test]
fn library_and_pipeline_fallbacks() {
    assert_eq!(
        detect_model_type("x/y", &[], Some("Transformers"), Some("fill-mask")),
        ModelType::BERT
    );
    assert_eq!(detect_model_type("x/y", &[], Some("transformers"), None), ModelType::Transformer);
    assert_eq!(detect_model_type("x/y", &[], Some("timm"), None), ModelType::CNN);
    assert_eq!(detect_model_type("x/y", &[], Some("other"), None), ModelType::Unknown);
    assert_eq!(
        detect_model_type("x/y", &[], None, Some("text-to-image")),
        ModelType::StableDiffusion
    );
    assert_eq!(detect_model_type("x/y.onnx", &[], None, None), ModelType::CNN);
    assert_eq!(detect_model_type("x/y", &[], None, None), ModelType::Unknown);
}

#[test]
fn names_and_families() {
    assert_eq!(ModelType::StableDiffusion.display_name(), "Stable Diffusion");
    assert_eq!(ModelType::SVM.category(), "Traditional ML");
    assert!(ModelType::Whisper.is_transformer_based());
    assert!(ModelType::Whisper.is_generative());
    assert!(ModelType::ResNet.is_cnn_based());
    assert!(!ModelType::VAE.is_cnn_based());
}

#[test]
fn option_defaults() {
    let o = AppOptions::defaults_for("/home/u", Some(String::new()));
    assert_eq!(o.default_directory, "/home/u/models");
    assert!(o.hf_token.is_none());
    assert_eq!((o.concurrent_threads, o.num_chunks), (8, 20));
}

#[test]
fn options_feed_the_verification_settings() {
    let mut o = AppOptions::defaults_for("/h", None);
    o.concurrent_verifications = 3;
    o.verification_buffer_size = 65536;
    o.verification_update_interval = 50;
    let c = verification_config_from(&o);
    assert_eq!(c.concurrent_verifications, 3);
    assert_eq!(c.buffer_size, 65536);
    assert_eq!(c.update_interval_iterations, 50);
    let d = VerificationConfig::new();
    assert_eq!((d.concurrent_verifications, d.buffer_size, d.update_interval_iterations), (4, 1024 * 1024, 100));
}
