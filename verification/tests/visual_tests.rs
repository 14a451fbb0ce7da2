// Tests for the visual module: deterministic window configuration,
// frame comparison telemetry and the capture schedule.

use orthrus::visual::{
    capture_step, compare_frames, compare_pixels, test_window_conf, FrameStep, Image,
};
use orthrus::ComparisonResult;

#[test]
fn test_window_conf_sets_requested_dimensions() {
    let conf = test_window_conf(800, 600);
    assert_eq!(conf.window_width, 800);
    assert_eq!(conf.window_height, 600);
}

#[test]
fn test_window_conf_disables_resizing() {
    let conf = test_window_conf(800, 600);
    assert!(!conf.window_resizable);
}

#[test]
fn test_window_conf_disables_high_dpi() {
    let conf = test_window_conf(800, 600);
    assert!(!conf.high_dpi);
}

#[test]
fn test_window_conf_disables_msaa() {
    let conf = test_window_conf(800, 600);
    assert_eq!(conf.sample_count, 1);
}

#[test]
fn test_window_conf_disables_fullscreen() {
    let conf = test_window_conf(800, 600);
    assert!(!conf.fullscreen);
}

#[test]
fn test_window_conf_sets_window_title() {
    let conf = test_window_conf(800, 600);
    assert_eq!(conf.window_title, "orthrus-test");
}

#[test]
fn test_window_conf_disables_vsync() {
    let conf = test_window_conf(800, 600);
    assert_eq!(conf.platform.swap_interval, Some(0));
}

#[test]
fn test_window_conf_keeps_other_dimensions() {
    let conf = test_window_conf(64, 48);
    assert_eq!(conf.window_width, 64);
    assert_eq!(conf.window_height, 48);
}

fn make_image(width: u16, height: u16, pixel: [u8; 4]) -> Image {
    let pixel_count = width as usize * height as usize;
    let mut bytes = Vec::with_capacity(pixel_count * 4);
    for _ in 0..pixel_count {
        bytes.extend_from_slice(&pixel);
    }
    Image {
        bytes,
        width,
        height,
    }
}

#[test]
fn image_reports_its_dimensions() {
    let img = make_image(3, 5, [1, 2, 3, 4]);
    assert_eq!(img.width(), 3);
    assert_eq!(img.height(), 5);
}

#[test]
fn compare_frames_identical_reports_nothing() {
    let img = make_image(4, 4, [0, 128, 255, 255]);
    let result = compare_frames(&img, 4, 4, &img.bytes, 0).unwrap();
    assert_eq!(
        result,
        ComparisonResult {
            max_channel_diff: [0, 0, 0, 0],
            pixels_absorbed_by_tolerance: 0,
            differing_pixels: 0,
            total_pixels: 16,
        }
    );
}

#[test]
fn compare_frames_counts_every_different_pixel() {
    let img_a = make_image(2, 2, [255, 0, 0, 255]);
    let img_b = make_image(2, 2, [0, 0, 255, 255]);
    let result = compare_frames(&img_b, 2, 2, &img_a.bytes, 0).unwrap();
    assert_eq!(result.total_pixels, 4);
    assert_eq!(result.differing_pixels, 4);
    assert_eq!(result.pixels_absorbed_by_tolerance, 0);
    assert_eq!(result.max_channel_diff, [255, 0, 255, 0]);
}

#[test]
fn compare_frames_dimension_mismatch() {
    let img_small = make_image(2, 2, [255, 255, 255, 255]);
    let img_big = make_image(4, 4, [255, 255, 255, 255]);
    let err = compare_frames(&img_big, 2, 2, &img_small.bytes, 0).unwrap_err();
    assert_eq!(err.expected, (2, 2));
    assert_eq!(err.actual, (4, 4));
}

#[test]
fn compare_frames_width_only_mismatch() {
    let img = make_image(4, 2, [9, 9, 9, 255]);
    let reference = make_image(2, 2, [9, 9, 9, 255]);
    let err = compare_frames(&img, 2, 2, &reference.bytes, 0).unwrap_err();
    assert_eq!(err.expected, (2, 2));
    assert_eq!(err.actual, (4, 2));
}

#[test]
fn compare_frames_counts_partial_differences() {
    // 10x10 image, 5 pixels differ by 100 in the red channel.
    let mut img_a = make_image(10, 10, [100, 100, 100, 255]);
    for i in 0..5 {
        img_a.bytes[i * 4] = 200;
    }
    let img_b = make_image(10, 10, [100, 100, 100, 255]);
    let result = compare_frames(&img_a, 10, 10, &img_b.bytes, 0).unwrap();
    assert_eq!(result.differing_pixels, 5);
    assert_eq!(result.total_pixels, 100);
    assert_eq!(result.pixels_absorbed_by_tolerance, 0);
    assert_eq!(result.max_channel_diff, [100, 0, 0, 0]);
}

#[test]
fn comparison_result_reports_absorbed_pixels() {
    let reference = make_image(10, 10, [100, 100, 100, 255]);
    let mut actual = make_image(10, 10, [100, 100, 100, 255]);
    for i in 0..5 {
        actual.bytes[i * 4] = 110; // red +10
    }
    let result = compare_frames(&actual, 10, 10, &reference.bytes, 15).unwrap();
    assert_eq!(result.pixels_absorbed_by_tolerance, 5);
    assert_eq!(result.differing_pixels, 0);
    assert_eq!(result.max_channel_diff[0], 10);
    assert_eq!(result.max_channel_diff[1], 0);
    assert_eq!(result.max_channel_diff[2], 0);
    assert_eq!(result.max_channel_diff[3], 0);
}

#[test]
fn comparison_result_tracks_per_channel_max() {
    let reference = make_image(4, 4, [100, 100, 100, 255]);
    let mut actual = make_image(4, 4, [100, 100, 100, 255]);
    actual.bytes[0] = 120; // pixel 0: R +20
    actual.bytes[5] = 115; // pixel 1: G +15
    actual.bytes[10] = 108; // pixel 2: B +8
    actual.bytes[15] = 252; // pixel 3: A -3
    let result = compare_frames(&actual, 4, 4, &reference.bytes, 25).unwrap();
    assert_eq!(result.max_channel_diff, [20, 15, 8, 3]);
    assert_eq!(result.pixels_absorbed_by_tolerance, 4);
    assert_eq!(result.differing_pixels, 0);
}

#[test]
fn tolerance_boundary_is_inclusive() {
    // A difference equal to the tolerance is absorbed; one above it differs.
    let reference = make_image(1, 2, [50, 50, 50, 50]);
    let mut actual = make_image(1, 2, [50, 50, 50, 50]);
    actual.bytes[1] = 60; // pixel 0: G +10
    actual.bytes[6] = 61; // pixel 1: B +11
    let result = compare_frames(&actual, 1, 2, &reference.bytes, 10).unwrap();
    assert_eq!(result.pixels_absorbed_by_tolerance, 1);
    assert_eq!(result.differing_pixels, 1);
    assert_eq!(result.max_channel_diff, [0, 10, 11, 0]);
}

#[test]
fn compare_pixels_only_reads_the_requested_pixels() {
    // Bytes past the counted pixels are ignored.
    let actual = [1u8, 2, 3, 4, 200, 200, 200, 200];
    let reference = [1u8, 2, 3, 4, 0, 0, 0, 0];
    let result = compare_pixels(&actual, &reference, 1, 0);
    assert_eq!(result.total_pixels, 1);
    assert_eq!(result.differing_pixels, 0);
    assert_eq!(result.max_channel_diff, [0, 0, 0, 0]);
}

#[test]
fn comparison_is_symmetric_on_example() {
    let a = make_image(3, 1, [10, 20, 30, 40]);
    let mut b = make_image(3, 1, [10, 20, 30, 40]);
    b.bytes[0] = 0;
    b.bytes[7] = 43;
    let ab = compare_pixels(&a.bytes, &b.bytes, 3, 5);
    let ba = compare_pixels(&b.bytes, &a.bytes, 3, 5);
    assert_eq!(ab, ba);
    assert_eq!(ab.differing_pixels, 1);
    assert_eq!(ab.pixels_absorbed_by_tolerance, 1);
    assert_eq!(ab.max_channel_diff, [10, 0, 0, 3]);
}

#[test]
fn raising_tolerance_moves_pixels_to_absorbed() {
    let a = make_image(2, 2, [0, 0, 0, 0]);
    let mut b = make_image(2, 2, [0, 0, 0, 0]);
    b.bytes[0] = 5;
    b.bytes[4] = 50;
    b.bytes[8] = 100;
    let low = compare_pixels(&a.bytes, &b.bytes, 4, 10);
    let high = compare_pixels(&a.bytes, &b.bytes, 4, 60);
    assert_eq!(low.differing_pixels, 2);
    assert_eq!(low.pixels_absorbed_by_tolerance, 1);
    assert_eq!(high.differing_pixels, 1);
    assert_eq!(high.pixels_absorbed_by_tolerance, 2);
    let zero = compare_pixels(&a.bytes, &b.bytes, 4, 0);
    assert_eq!(zero.differing_pixels, 3);
    assert_eq!(zero.pixels_absorbed_by_tolerance, 0);
    let covering = compare_pixels(&a.bytes, &b.bytes, 4, 100);
    assert_eq!(covering.differing_pixels, 0);
    assert_eq!(covering.pixels_absorbed_by_tolerance, 3);
}

#[test]
fn new_reference_result_matches_self_comparison() {
    let img = make_image(3, 3, [10, 20, 30, 255]);
    let updated = ComparisonResult::for_new_reference(&img);
    assert_eq!(updated.total_pixels, 9);
    assert_eq!(updated.differing_pixels, 0);
    assert_eq!(updated.pixels_absorbed_by_tolerance, 0);
    assert_eq!(updated.max_channel_diff, [0, 0, 0, 0]);
    let compared = compare_frames(&img, 3, 3, &img.bytes, 7).unwrap();
    assert_eq!(updated, compared);
}

fn renders_and_capture(stabilize_frames: u32) -> (u32, Option<u32>) {
    let mut renders = 0;
    let mut captured_at = None;
    let mut frame = 0;
    while let Some(step) = capture_step(frame, stabilize_frames) {
        renders += 1;
        if step == FrameStep::Capture {
            assert!(captured_at.is_none());
            captured_at = Some(frame);
        }
        frame += 1;
    }
    (renders, captured_at)
}

#[test]
fn capture_schedule_renders_stabilize_plus_one() {
    assert_eq!(renders_and_capture(2), (3, Some(2)));
    assert_eq!(renders_and_capture(0), (1, Some(0)));
    assert_eq!(capture_step(0, 2), Some(FrameStep::WarmUp));
    assert_eq!(capture_step(1, 2), Some(FrameStep::WarmUp));
    assert_eq!(capture_step(2, 2), Some(FrameStep::Capture));
    assert_eq!(capture_step(3, 2), None);
}

#[test]
fn compare_frames_mismatch_does_not_read_pixels() {
    // With differing dimensions no pixel is read, so the buffer may be short.
    let actual = Image {
        bytes: Vec::new(),
        width: 4,
        height: 4,
    };
    let err = compare_frames(&actual, 2, 2, &[], 0).unwrap_err();
    assert_eq!(err.expected, (2, 2));
    assert_eq!(err.actual, (4, 4));
}
