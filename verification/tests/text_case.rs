//! Case mapping of ASCII text.

use rust_hf_downloader::text::upper_chars;

#[test]
fn ascii_text_is_uppercased_letter_by_letter() {
    let up = upper_chars(&['q', '4', '_', 'k', '_', 'm', '-', 'Z']);
    assert_eq!(up, vec!['Q', '4', '_', 'K', '_', 'M', '-', 'Z']);
}
