//! Resolution of the config and data directories.

use rust_hf_downloader::paths::{
    app_dir_in, config_dir, config_path, config_path_in, data_dir, default_download_dir, legacy_config_path_in,
    models_dir_in, read_config_path, read_config_path_from, registry_path, registry_path_in, resolve,
    select_read_path, PathEnv, CONFIG_FILE, MODELS_DIR, REGISTRY_FILE,
};
use std::path::{Path, PathBuf};

fn s(p: &str) -> String {
    p.to_string()
}

#[test]
fn env_config_override_wins_over_portable() {
    let (cfg, _) = resolve(
        Some(s("/cfg-override")),
        None,
        Some(s("/exe")),
        s("/platform-cfg"),
        s("/platform-data"),
    );
    assert_eq!(PathBuf::from(cfg), PathBuf::from("/cfg-override"));
}

#[test]
fn env_data_override_is_independent() {
    let (cfg, data) = resolve(
        Some(s("/cfg")),
        Some(s("/data-override")),
        Some(s("/exe")),
        s("/platform-cfg"),
        s("/platform-data"),
    );
    assert_eq!(PathBuf::from(cfg), PathBuf::from("/cfg"));
    assert_eq!(PathBuf::from(data), PathBuf::from("/data-override"));
}

#[test]
fn portable_mode_uses_exe_dir_and_models_subdir() {
    let exe = PathBuf::from("/usb/rust-hf-downloader");
    let (cfg, data) = resolve(
        None,
        None,
        Some(s("/usb/rust-hf-downloader")),
        s("/platform-cfg"),
        s("/platform-data"),
    );
    assert_eq!(PathBuf::from(cfg), exe);
    assert_eq!(PathBuf::from(data), exe.join(MODELS_DIR));
}

#[test]
fn no_overrides_fall_through_to_platform_defaults() {
    let (cfg, data) = resolve(None, None, None, s("/home/u/.config/jreb"), s("/home/u/models"));
    assert_eq!(cfg, "/home/u/.config/jreb");
    assert_eq!(data, "/home/u/models");
}

#[test]
fn file_names_are_stable() {
    let cfg = config_path_in("/home/u/.config/jreb");
    let reg = registry_path_in("/home/u/models");
    assert_eq!(
        Path::new(&cfg).file_name().and_then(|s| s.to_str()),
        Some(CONFIG_FILE)
    );
    assert_eq!(
        Path::new(&reg).file_name().and_then(|s| s.to_str()),
        Some(REGISTRY_FILE)
    );
    assert_eq!(Path::new(&reg).parent(), Some(Path::new("/home/u/models")));
}

#[test]
fn platform_defaults_use_app_and_models_dirs() {
    assert_eq!(PathBuf::from(app_dir_in(Some(s("/c")), "/tmp")), PathBuf::from("/c/jreb"));
    assert_eq!(PathBuf::from(app_dir_in(None, "/tmp")), PathBuf::from("/tmp/jreb"));
    assert_eq!(PathBuf::from(models_dir_in(Some(s("/h")), "/tmp")), PathBuf::from("/h/models"));
    assert_eq!(
        PathBuf::from(legacy_config_path_in("/h")),
        PathBuf::from("/h/.config/jreb/config.toml")
    );
}

#[test]
fn read_path_selection() {
    assert_eq!(select_read_path("c", "l", true, true), "c");
    assert_eq!(select_read_path("c", "l", false, true), "l");
    assert_eq!(select_read_path("c", "l", false, false), "c");
    assert_eq!(read_config_path_from(true, "c", "l", false, true), "c");
    assert_eq!(read_config_path_from(false, "c", "l", false, true), "l");
}

fn env_with(config: Option<&str>, data: Option<&str>, portable: Option<&str>) -> PathEnv {
    PathEnv {
        config_override: config.map(s),
        data_override: data.map(s),
        portable: portable.map(s),
        platform_config: s("/home/u/.config/jreb"),
        platform_data: s("/home/u/models"),
    }
}

#[test]
fn directories_follow_resolution_order() {
    let plain = env_with(None, None, None);
    assert_eq!(config_dir(&plain), "/home/u/.config/jreb");
    assert_eq!(data_dir(&plain), "/home/u/models");
    assert_eq!(default_download_dir(&plain), "/home/u/models");
    let portable = env_with(None, None, Some("/usb/app"));
    assert_eq!(config_dir(&portable), "/usb/app");
    assert_eq!(PathBuf::from(data_dir(&portable)), PathBuf::from("/usb/app/models"));
    let overridden = env_with(Some("/cfg"), Some("/data"), Some("/usb/app"));
    assert_eq!(config_dir(&overridden), "/cfg");
    assert_eq!(data_dir(&overridden), "/data");
}

#[test]
fn config_and_registry_paths_sit_in_their_directories() {
    let env = env_with(None, None, None);
    assert_eq!(PathBuf::from(config_path(&env)), PathBuf::from("/home/u/.config/jreb/config.toml"));
    assert_eq!(PathBuf::from(registry_path(&env)), PathBuf::from("/home/u/models/hf-downloads.toml"));
}

#[test]
fn read_config_path_prefers_canonical_then_legacy() {
    let env = env_with(None, None, None);
    let home = Some(s("/home/x"));
    assert_eq!(PathBuf::from(read_config_path(&env, home.clone(), true, true)), PathBuf::from("/home/u/.config/jreb/config.toml"));
    assert_eq!(PathBuf::from(read_config_path(&env, home.clone(), false, true)), PathBuf::from("/home/x/.config/jreb/config.toml"));
    assert_eq!(PathBuf::from(read_config_path(&env, home.clone(), false, false)), PathBuf::from("/home/u/.config/jreb/config.toml"));
    assert_eq!(PathBuf::from(read_config_path(&env, None, false, true)), PathBuf::from("/home/u/.config/jreb/config.toml"));
    let overridden = env_with(Some("/cfg"), None, None);
    assert_eq!(PathBuf::from(read_config_path(&overridden, home, false, true)), PathBuf::from("/cfg/config.toml"));
}

#[test]
fn test_get_config_path() {
    let path = rust_hf_downloader::config::get_config_path(Some("/home/u".to_string()));
    assert!(path.contains(".config/jreb/config.toml"));
    assert_eq!(path, "/home/u/.config/jreb/config.toml");
    assert_eq!(rust_hf_downloader::config::get_config_path(None), "/tmp/.config/jreb/config.toml");
    assert_eq!(
        rust_hf_downloader::registry::get_registry_path(Some("/home/u".to_string())),
        "/home/u/models/hf-downloads.toml"
    );
}
