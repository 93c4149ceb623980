//! The model search request and the client-side filtering and ordering.

use rust_hf_downloader::models::{ModelInfo, SortDirection, SortField};
use rust_hf_downloader::search::{filter_and_sort_models, search_url};

fn m(id: &str, downloads: u64, likes: u64, modified: Option<&str>) -> ModelInfo {
    ModelInfo {
        id: id.to_string(),
        author: None,
        downloads,
        likes,
        tags: vec![],
        last_modified: modified.map(|s| s.to_string()),
    }
}

fn ids(v: &[ModelInfo]) -> Vec<&str> {
    v.iter().map(|m| m.id.as_str()).collect()
}

#[test]
fn search_url_encodes_and_clamps() {
    assert_eq!(
        search_url("https://huggingface.co", "llama 3/8b", SortField::Likes, 100),
        "https://huggingface.co/api/models?search=llama%203%2F8b&limit=100&sort=likes&direction=-1&full=true"
    );
    assert_eq!(
        search_url("http://h", "\u{e9}~x_-.", SortField::Modified, 0),
        "http://h/api/models?search=%C3%A9~x_-.&limit=1&sort=lastModified&direction=-1&full=true"
    );
    assert_eq!(
        search_url("http://h", "Qwen", SortField::Name, 9999),
        "http://h/api/models?search=Qwen&limit=500&sort=downloads&direction=-1&full=true"
    );
    assert_eq!(
        search_url("http://h", "a+b&c", SortField::Downloads, 50),
        "http://h/api/models?search=a%2Bb%26c&limit=50&sort=downloads&direction=-1&full=true"
    );
}

#[test]
fn filters_keep_hub_order_when_descending_by_count() {
    let hub = vec![m("a/x", 500, 3, None), m("a/y", 50, 30, None), m("a/z", 5000, 1, None)];
    let r = filter_and_sort_models(hub.clone(), SortField::Downloads, SortDirection::Descending, 0, 0);
    assert_eq!(ids(&r), vec!["a/x", "a/y", "a/z"]);
    let r = filter_and_sort_models(hub, SortField::Downloads, SortDirection::Descending, 100, 2);
    assert_eq!(ids(&r), vec!["a/x"]);
}

#[test]
fn ascending_and_name_orders_are_sorted_here() {
    let hub = vec![m("b/Two", 20, 0, None), m("a/one", 10, 0, None), m("B/two", 30, 0, None), m("c/three", 10, 0, None)];
    let r = filter_and_sort_models(hub.clone(), SortField::Downloads, SortDirection::Ascending, 0, 0);
    assert_eq!(ids(&r), vec!["a/one", "c/three", "b/Two", "B/two"]);
    // By lowercased name; equal names keep their order.
    let r = filter_and_sort_models(hub.clone(), SortField::Name, SortDirection::Ascending, 0, 0);
    assert_eq!(ids(&r), vec!["a/one", "b/Two", "B/two", "c/three"]);
    let r = filter_and_sort_models(hub, SortField::Name, SortDirection::Descending, 0, 0);
    assert_eq!(ids(&r), vec!["c/three", "b/Two", "B/two", "a/one"]);
}

#[test]
fn modified_order_puts_missing_dates_first() {
    let hub = vec![
        m("a/new", 0, 0, Some("2024-06-01")),
        m("a/none", 0, 0, None),
        m("a/old", 0, 0, Some("2023-01-01")),
    ];
    let r = filter_and_sort_models(hub, SortField::Modified, SortDirection::Ascending, 0, 0);
    assert_eq!(ids(&r), vec!["a/none", "a/old", "a/new"]);
}
