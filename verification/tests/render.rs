//! Interface text helpers and the activity display layout.

use rust_hf_downloader::render::{
    activity_hud_height, chunk_label, chunk_map_cells, download_row_layout, format_bytes_hud,
    format_eta_hud, format_remaining_gb, hud_footer, hud_item_row_count, progress_bar,
    queue_rail, right_block, truncate_filename, truncate_name_middle, HudColumns, HudFooter,
};

#[test]
fn truncate_name_keeps_head_and_tail() {
    assert_eq!(truncate_name_middle("model-Q4_K_M.gguf", 24), "model-Q4_K_M.gguf");
    assert_eq!(truncate_name_middle("shard-00001.safetensors", 12), "shard-~nsors");
    assert_eq!(truncate_name_middle("ab", 5), "ab");
    assert_eq!(truncate_name_middle("模　型　名　称.gguf", 7), "模　型~guf");
}

#[test]
fn truncate_name_middle_small_limits_keep_head() {
    assert_eq!(truncate_name_middle("abcdef", 2), "ab");
    assert_eq!(truncate_name_middle("abcdef", 0), "");
}

#[test]
fn format_bytes_and_speed_compact() {
    assert_eq!(format_bytes_hud(0), "0B");
    assert_eq!(format_bytes_hud(2048), "2KB");
    assert_eq!(format_bytes_hud(5 * 1_048_576), "5MB");
    assert_eq!(format_bytes_hud(6_442_450_944), "6.0GB");
}

#[test]
fn format_bytes_hud_matches_float_formatting() {
    let float = |bytes: u64| -> String {
        const MB: f64 = 1_048_576.0;
        const GB: f64 = 1_073_741_824.0;
        let b = bytes as f64;
        if bytes >= 1 << 30 {
            format!("{:.1}GB", b / GB)
        } else if bytes >= 1 << 20 {
            format!("{:.0}MB", b / MB)
        } else if bytes >= 1024 {
            format!("{:.0}KB", b / 1024.0)
        } else {
            format!("{bytes}B")
        }
    };
    let mut x: u64 = 12345;
    for i in 0..5000u64 {
        x = x.wrapping_mul(6364136223846793005).wrapping_add(1442695040888963407);
        for b in [x, x >> 24, x >> 40, i * 512, (1 << 30) + i * (1 << 26), 1536 + i * 1024] {
            assert_eq!(format_bytes_hud(b), float(b), "bytes {}", b);
        }
    }
}

#[test]
fn remaining_gb_rounds_up() {
    assert_eq!(format_remaining_gb(0), "");
    assert_eq!(format_remaining_gb(1), "<1GB");
    assert_eq!(format_remaining_gb(1 << 30), "1GB");
    assert_eq!(format_remaining_gb((1 << 30) + 1), "2GB");
    assert_eq!(format_remaining_gb(u64::MAX), "17179869184GB");
}

#[test]
fn eta_hud_formats() {
    assert_eq!(format_eta_hud(42), "~42s");
    assert_eq!(format_eta_hud(741), "~12m21s");
    assert_eq!(format_eta_hud(3900), "~1h05m");
}

#[test]
fn truncate_filename_keeps_tail_third() {
    assert_eq!(truncate_filename("model-00002-of-00003.gguf", 100), "model-00002-of-00003.gguf");
    assert_eq!(truncate_filename("abcdefghij", 0), "");
    assert_eq!(truncate_filename("abcdefghij", 1), "…");
    assert_eq!(truncate_filename("abcdefghij", 7), "abcd…ij");
}

#[test]
fn hud_columns_degrade() {
    let wide = HudColumns::for_width(120);
    assert_eq!((wide.name_w, wide.speed_w, wide.eta_w), (24, 9, 7));
    assert_eq!(wide.right_w(), 4 + 10 + 8);
    assert_eq!(wide.middle_w(120), 120 - (4 + 24 + 2 + 22 + 2));
    let narrow = HudColumns::for_width(60);
    assert_eq!((narrow.name_w, narrow.speed_w, narrow.eta_w), (6, 0, 0));
    assert_eq!(narrow.right_w(), 4);
    assert_eq!(narrow.middle_w(10), 0);
}

#[test]
fn hud_height_is_zero_when_idle() {
    assert_eq!(activity_hud_height(hud_item_row_count(false, 0, 0)), 0);
}

#[test]
fn hud_height_counts_rows_plus_footer() {
    // 1 download + 1 verification + 3 queued + "+more" = 6 rows, + footer and borders.
    assert_eq!(activity_hud_height(hud_item_row_count(true, 1, 5)), 9);
}

#[test]
fn hud_height_caps_at_budget() {
    // 1 + 4 + 3 + 1 = 9 rows uncapped, capped to 8, + footer and borders.
    assert_eq!(activity_hud_height(hud_item_row_count(true, 4, 4)), 11);
}

#[test]
fn chunk_map_marks_done_active_pending() {
    let map: String = chunk_map_cells(&[true, true, false, false], &[2], 4).into_iter().collect();
    assert_eq!(map, "\u{2588}\u{2588}\u{2593}\u{2591}");
    assert!(chunk_map_cells(&[], &[], 5).is_empty());
}

#[test]
fn chunk_map_scales_down_without_gaps() {
    let completed: Vec<bool> = (0..20).map(|i| i < 10).collect();
    let map: String = chunk_map_cells(&completed, &[], 10).into_iter().collect();
    assert_eq!(
        map,
        "\u{2588}\u{2588}\u{2588}\u{2588}\u{2588}\u{2591}\u{2591}\u{2591}\u{2591}\u{2591}"
    );
}

#[test]
fn download_row_splits_bar_and_map() {
    // Few chunks: one cell each, the bar takes the rest.
    assert_eq!(download_row_layout(60, 4, 7), (49, 4));
    // Many chunks: a 24-cell bar and the map scaled into what is left.
    assert_eq!(download_row_layout(40, 16, 8), (24, 8));
    // No room for the map, or no chunks: the bar alone.
    assert_eq!(download_row_layout(30, 16, 8), (30, 0));
    assert_eq!(download_row_layout(60, 0, 7), (60, 0));
}

#[test]
fn chunk_label_counts_finished_chunks() {
    assert_eq!(chunk_label(&[true, false, true, false], 4), "ch 2/4");
    assert_eq!(chunk_label(&[], 0), "ch 0/0");
}

#[test]
fn right_block_aligns_columns() {
    let wide = HudColumns::for_width(120);
    assert_eq!(right_block(&wide, Some(45), Some("32.8MB/s"), Some("~5m")), " 45%  32.8MB/s     ~5m");
    assert_eq!(right_block(&wide, Some(100), None, None), "100%                  ");
    let mid = HudColumns::for_width(80);
    assert_eq!(right_block(&mid, None, Some("6.0GB"), Some("wait")), "  --     6.0GB");
    let narrow = HudColumns::for_width(40);
    assert_eq!(right_block(&narrow, Some(7), Some("1MB/s"), Some("~1s")), "  7%");
}

#[test]
fn queue_rail_dots_every_five_cells() {
    assert_eq!(queue_rail(12), "\u{b7}    \u{b7}      ");
    assert_eq!(queue_rail(4), "    ");
    assert_eq!(queue_rail(0), "");
}

#[test]
fn progress_bar_rounds_half_up() {
    assert_eq!(progress_bar(50, 4), "\u{2588}\u{2588}\u{2591}\u{2591}");
    assert_eq!(progress_bar(0, 3), "\u{2591}\u{2591}\u{2591}");
    assert_eq!(progress_bar(100, 2), "\u{2588}\u{2588}");
    // 5 * 10% = 0.5 cells rounds up; 5 * 9% = 0.45 rounds down.
    assert_eq!(progress_bar(10, 5), "\u{2588}\u{2591}\u{2591}\u{2591}\u{2591}");
    assert_eq!(progress_bar(9, 5), "\u{2591}\u{2591}\u{2591}\u{2591}\u{2591}");
    // Over 100% never overflows the bar.
    assert_eq!(progress_bar(250, 3), "\u{2588}\u{2588}\u{2588}");
}

#[test]
fn footer_joins_parts_and_fills_rule() {
    let idle = HudFooter {
        verified_ok: 0,
        verified_fail: 0,
        verify_queue_size: 0,
        verify_queue_bytes: 0,
        queue_size: 0,
        queue_bytes: 0,
        remaining: None,
    };
    assert_eq!(hud_footer(&idle, 20), format!("\u{2500}\u{2500} idle {}", "\u{2500}".repeat(10)));
    let busy = HudFooter {
        verified_ok: 2,
        verified_fail: 1,
        verify_queue_size: 0,
        verify_queue_bytes: 0,
        queue_size: 3,
        queue_bytes: 5 * 1_048_576,
        remaining: Some(((1 << 30) + 1, 741)),
    };
    let body = "hash \u{2713}2 \u{2717}1 \u{b7} dl q 3 (5MB) \u{b7} remaining 2GB ~12m21s";
    assert_eq!(body.chars().count(), 49);
    assert_eq!(hud_footer(&busy, 80), format!("\u{2500}\u{2500} {body} {}", "\u{2500}".repeat(25)));
    // Too narrow for a rule: the text is kept whole.
    assert_eq!(hud_footer(&busy, 10), format!("\u{2500}\u{2500} {body} "));
}
