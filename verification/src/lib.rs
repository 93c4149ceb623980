//! Model-repository download planning: quantization classification,
//! file-tree building, download selection, path sanitizing and the
//! bookkeeping behind the download queue and registry.

pub mod text;
pub mod quant;
pub mod models;
pub mod api;
pub mod cli;
pub mod download;
pub mod registry;
pub mod engine;
pub mod paths;
pub mod config;
pub mod utils;
pub mod headless;
pub mod tree;
pub mod render;
pub mod laws;
pub mod verification;
pub mod ui;
pub mod report;
pub mod transfer;
pub mod panels;
pub mod search;
pub mod actions;
pub mod command;
pub mod listing;
pub mod file_laws;
