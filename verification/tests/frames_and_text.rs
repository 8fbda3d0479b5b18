use mira_sharer::capture::{frame_interval_millis, pace, rgba_to_nv12, DisplayId};
use mira_sharer::text::{is_blank, trim_str};

#[test]
fn red_block_converts_to_bt601() {
    let rgba = [255u8, 0, 0, 255].repeat(4);
    let frame = rgba_to_nv12(&rgba, 2, 2);
    // Y = 66 + 16; U = -38 + 128 (the sum rounds down); V = 112 + 128
    assert_eq!(frame.luminance_bytes, vec![82; 4]);
    assert_eq!(frame.chrominance_bytes, vec![90, 240]);
    assert_eq!(frame.luminance_stride, 2);
    assert_eq!(frame.chrominance_stride, 1);
    assert_eq!(frame.display_time, 0);
}

#[test]
fn white_and_black_pixels() {
    let mut rgba = vec![255u8; 8];
    rgba.extend_from_slice(&[0, 0, 0, 255, 0, 0, 0, 255]);
    let frame = rgba_to_nv12(&rgba, 2, 2);
    assert_eq!(frame.luminance_bytes, vec![235, 235, 16, 16]);
    assert_eq!(frame.chrominance_bytes, vec![128, 128]);
}

#[test]
fn chroma_samples_the_top_left_pixel_of_each_block() {
    // 4x2: left block blue, right block green
    let blue = [0u8, 0, 255, 255];
    let green = [0u8, 255, 0, 255];
    let mut rgba = Vec::new();
    for _ in 0..2 {
        rgba.extend_from_slice(&blue);
        rgba.extend_from_slice(&blue);
        rgba.extend_from_slice(&green);
        rgba.extend_from_slice(&green);
    }
    let frame = rgba_to_nv12(&rgba, 4, 2);
    assert_eq!(frame.luminance_bytes, vec![41, 41, 144, 144, 41, 41, 144, 144]);
    // blue: U = ((112*255+128)>>8) + 128 = 240, V = ((-18*255+128)>>8) + 128 = 110
    // green: U = ((-74*255+128)>>8) + 128 = 54, V = ((-94*255+128)>>8) + 128 = 34
    assert_eq!(frame.chrominance_bytes, vec![240, 110, 54, 34]);
}

#[test]
fn black_image_gets_the_bt601_offsets() {
    let rgba = [0u8, 0, 0, 255].repeat(4);
    let frame = rgba_to_nv12(&rgba, 2, 2);
    assert_eq!(frame.luminance_bytes, vec![16, 16, 16, 16]);
    assert_eq!(frame.chrominance_bytes, vec![128, 128]);
}

#[test]
fn empty_and_odd_images() {
    let frame = rgba_to_nv12(&[], 0, 0);
    assert!(frame.luminance_bytes.is_empty());
    assert!(frame.chrominance_bytes.is_empty());
    let frame = rgba_to_nv12(&[], 7, 0);
    assert_eq!(frame.chrominance_stride, 3);
    let rgba = vec![10u8; 3 * 4 * 4];
    let frame = rgba_to_nv12(&rgba, 3, 4);
    assert_eq!(frame.luminance_bytes.len(), 12);
    assert_eq!(frame.chrominance_bytes.len(), 6);
}

#[test]
fn frame_interval_follows_the_fps_cap() {
    assert_eq!(frame_interval_millis(60), 16);
    assert_eq!(frame_interval_millis(1), 1000);
    assert_eq!(frame_interval_millis(0), 1000);
    assert_eq!(frame_interval_millis(2000), 0);
}

#[test]
fn display_ids_compare_by_value() {
    assert_eq!(DisplayId(3), DisplayId(3).clone());
    assert_ne!(DisplayId(3), DisplayId(4));
}

#[test]
fn trimming_follows_unicode_whitespace() {
    assert_eq!(trim_str("  desk \t"), "desk");
    assert_eq!(trim_str("\u{a0}x y\u{2003}"), "x y");
    assert!(is_blank(""));
    assert!(is_blank(" \n\u{3000}"));
    assert!(!is_blank(" a "));
}

#[test]
fn each_block_keeps_the_colour_of_its_top_left_pixel() {
    // 4x4: the top-left pixels of the four 2x2 blocks are red, white, black
    // and blue; every other pixel is blue.
    let red = [255u8, 0, 0, 255];
    let white = [255u8, 255, 255, 255];
    let black = [0u8, 0, 0, 255];
    let blue = [0u8, 0, 255, 255];
    let mut rgba = Vec::new();
    for row in 0..4 {
        for col in 0..4 {
            let pixel = match (row, col) {
                (0, 0) => red,
                (0, 2) => white,
                (2, 0) => black,
                _ => blue,
            };
            rgba.extend_from_slice(&pixel);
        }
    }
    let frame = rgba_to_nv12(&rgba, 4, 4);
    // red: U = 90, V = 240; white and black: 128, 128; blue: U = 240, V = 110
    assert_eq!(frame.chrominance_bytes, vec![90, 240, 128, 128, 128, 128, 240, 110]);
    assert_eq!(frame.chrominance_stride, 2);
    assert_eq!(frame.luminance_stride, 4);
}

#[test]
fn pacing_sleeps_until_the_next_deadline_or_restarts_when_late() {
    // on time: the deadline moves on by one interval and the loop sleeps until it
    let on_time = pace(1_000, 16_000, 5_000);
    assert_eq!(on_time.next_frame_nanos, 17_000);
    assert_eq!(on_time.sleep_nanos, 12_000);
    // late: no sleep, and the schedule restarts from now
    let late = pace(1_000, 16_000, 40_000);
    assert_eq!(late.next_frame_nanos, 40_000);
    assert_eq!(late.sleep_nanos, 0);
    // exactly at the deadline counts as late
    let exact = pace(0, 10, 10);
    assert_eq!(exact.sleep_nanos, 0);
    assert_eq!(exact.next_frame_nanos, 10);
}
