use std::time::{Duration, Instant};

use roxlap_game_demo::fonts::{fill_glyph_rgba, CharStep, TextCursor};
use roxlap_game_demo::systems::performance_info::{update_info, PerformanceInfo};

#[test]
fn cursor_newline_space_and_glyph() {
    let mut c = TextCursor::new(4, 4, 20, 4, 16);
    assert_eq!(c.step_char('a'), CharStep::Glyph);
    assert_eq!((c.x, c.y), (4, 4));
    c.advance(9);
    assert_eq!((c.x, c.y), (13, 4));
    assert_eq!(c.step_char(' '), CharStep::Moved);
    assert_eq!((c.x, c.y), (17, 4));
    assert_eq!(c.step_char('\n'), CharStep::Moved);
    assert_eq!((c.x, c.y), (4, 24));
    assert_eq!(c.glyph_origin(1, -3, 12), (5, 24 + 16 - 12 + 3));
}

#[test]
fn fill_glyph_writes_colour_and_coverage_only() {
    // 2×2 glyph, rows 12 bytes apart (4 bytes of row padding).
    let mut buf = vec![0xAAu8; 24];
    let coverage = [10u8, 20, 30, 40];
    fill_glyph_rgba(&mut buf, 12, 2, 2, 1, 2, 3, &coverage);
    assert_eq!(&buf[0..8], &[1, 2, 3, 10, 1, 2, 3, 20]);
    assert_eq!(&buf[8..12], &[0xAA; 4]);
    assert_eq!(&buf[12..20], &[1, 2, 3, 30, 1, 2, 3, 40]);
    assert_eq!(&buf[20..24], &[0xAA; 4]);
}

#[test]
fn fill_glyph_empty_leaves_buffer() {
    let mut buf = vec![7u8; 8];
    fill_glyph_rgba(&mut buf, 8, 0, 2, 1, 2, 3, &[]);
    fill_glyph_rgba(&mut buf, 8, 2, 0, 1, 2, 3, &[]);
    assert_eq!(buf, vec![7u8; 8]);
}

#[test]
fn performance_info_starts_at_zero() {
    let info = PerformanceInfo::new();
    assert_eq!(
        (info.fps, info.frame_time_us, info.opticast_us, info.upload_us),
        (0, 0, 0, 0)
    );
    assert_eq!(
        (info.frame_time_us_raw, info.opticast_us_raw, info.upload_us_raw),
        (0, 0, 0)
    );
}

#[test]
fn publish_only_after_a_full_period() {
    let mut info = PerformanceInfo::new();
    info.frame_time_us_raw = 16_000;
    info.opticast_us_raw = 3_000;
    info.upload_us_raw = 500;
    assert!(!info.publish_if_due(999_999, 60));
    assert_eq!((info.fps, info.frame_time_us, info.opticast_us, info.upload_us), (0, 0, 0, 0));
    assert!(info.publish_if_due(1_000_000, 60));
    assert_eq!(
        (info.fps, info.frame_time_us, info.opticast_us, info.upload_us),
        (60, 16_000, 3_000, 500)
    );
}

#[test]
fn update_info_publishes_after_period_and_restarts_it() {
    let mut info = PerformanceInfo::new();
    info.frame_time_us_raw = 8_000;
    if let Some(earlier) = Instant::now().checked_sub(Duration::from_secs(2)) {
        info.update_timer = earlier;
        update_info(120, &mut info);
        assert_eq!((info.fps, info.frame_time_us), (120, 8_000));
        info.frame_time_us_raw = 9_000;
        update_info(90, &mut info);
        assert_eq!((info.fps, info.frame_time_us), (120, 8_000));
    }
}

#[test]
fn fill_glyph_overlapping_rows_last_row_wins() {
    // 2×2 glyph, rows only 4 bytes apart: row 1 overwrites row 0's second pixel.
    let mut buf = vec![0xAAu8; 16];
    let coverage = [10u8, 20, 30, 40];
    fill_glyph_rgba(&mut buf, 4, 2, 2, 1, 2, 3, &coverage);
    assert_eq!(&buf[0..4], &[1, 2, 3, 10]);
    assert_eq!(&buf[4..8], &[1, 2, 3, 30]);
    assert_eq!(&buf[8..12], &[1, 2, 3, 40]);
    assert_eq!(&buf[12..16], &[0xAA; 4]);
}

#[test]
fn fill_glyph_zero_pitch_keeps_last_row() {
    let mut buf = vec![0u8; 8];
    let coverage = [1u8, 2, 3, 4, 5, 6];
    fill_glyph_rgba(&mut buf, 0, 2, 3, 9, 8, 7, &coverage);
    assert_eq!(buf, vec![9, 8, 7, 5, 9, 8, 7, 6]);
}
