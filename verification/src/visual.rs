//! Visual testing support: deterministic window configuration and
//! pixel-level comparison of captured frames.

use vstd::prelude::*;

verus! {

/// Platform-specific window hints that the visual head pins down.
pub struct PlatformConf {
    /// Swap interval; `Some(0)` disables vsync.
    pub swap_interval: Option<i32>,
}

/// Window configuration for deterministic, reproducible rendering.
pub struct WindowConf {
    pub window_title: String,
    pub window_width: i32,
    pub window_height: i32,
    pub high_dpi: bool,
    pub fullscreen: bool,
    pub sample_count: i32,
    pub window_resizable: bool,
    pub platform: PlatformConf,
}

/// Returns a window configuration for deterministic, reproducible rendering.
///
/// Disables MSAA, vsync, high-DPI scaling, fullscreen and window resizing so
/// that screenshot captures produce identical pixel output across runs.
pub fn test_window_conf(width: i32, height: i32) -> (conf: WindowConf)
    ensures
        conf.window_title@ == "orthrus-test"@,
        conf.window_width == width,
        conf.window_height == height,
        !conf.high_dpi,
        !conf.fullscreen,
        conf.sample_count == 1,
        !conf.window_resizable,
        conf.platform.swap_interval == Some(0i32),
{
    WindowConf {
        window_title: String::from_str("orthrus-test"),
        window_width: width,
        window_height: height,
        high_dpi: false,
        fullscreen: false,
        sample_count: 1,
        window_resizable: false,
        platform: PlatformConf { swap_interval: Some(0) },
    }
}

/// An RGBA8 image: `bytes` holds `width * height` pixels, four bytes each,
/// row after row.
pub struct Image {
    pub bytes: Vec<u8>,
    pub width: u16,
    pub height: u16,
}

impl Image {
    /// The number of pixels the image's dimensions describe.
    pub open spec fn pixel_count(&self) -> nat {
        (self.width * self.height) as nat
    }

    /// The byte buffer holds every pixel the dimensions describe.
    pub open spec fn well_formed(&self) -> bool {
        self.bytes@.len() >= 4 * self.pixel_count()
    }

    /// Width in pixels.
    pub fn width(&self) -> (w: usize)
        ensures
            w == self.width,
    {
        self.width as usize
    }

    /// Height in pixels.
    pub fn height(&self) -> (h: usize)
        ensures
            h == self.height,
    {
        self.height as usize
    }
}

/// Telemetry from a screenshot comparison.
///
/// Reports the observed jitter (`max_channel_diff`), how many pixels the
/// per-channel tolerance absorbed, and how many exceeded it.
#[derive(Debug, Clone, PartialEq, Eq)]
pub struct ComparisonResult {
    /// Max per-channel difference observed across all pixels (R, G, B, A).
    pub max_channel_diff: [u8; 4],
    /// Pixels that differed but were within the per-channel tolerance.
    pub pixels_absorbed_by_tolerance: u32,
    /// Pixels that exceeded the per-channel tolerance.
    pub differing_pixels: u32,
    /// Total pixel count.
    pub total_pixels: u32,
}

/// Absolute difference of two channel values.
pub open spec fn channel_diff(a: u8, b: u8) -> int {
    if a >= b {
        a - b
    } else {
        b - a
    }
}

pub open spec fn max_int(a: int, b: int) -> int {
    if a >= b {
        a
    } else {
        b
    }
}

/// Difference of channel `c` of pixel `i`.
pub open spec fn pixel_channel_diff(actual: Seq<u8>, reference: Seq<u8>, i: int, c: int) -> int {
    channel_diff(actual[4 * i + c], reference[4 * i + c])
}

/// Largest channel difference of pixel `i`.
pub open spec fn pixel_diff(actual: Seq<u8>, reference: Seq<u8>, i: int) -> int {
    max_int(
        max_int(pixel_channel_diff(actual, reference, i, 0), pixel_channel_diff(actual, reference, i, 1)),
        max_int(pixel_channel_diff(actual, reference, i, 2), pixel_channel_diff(actual, reference, i, 3)),
    )
}

/// Among the first `n` pixels, those whose largest channel difference exceeds `tolerance`.
pub open spec fn count_differing(actual: Seq<u8>, reference: Seq<u8>, n: int, tolerance: int) -> nat
    decreases n,
{
    if n <= 0 {
        0
    } else {
        count_differing(actual, reference, n - 1, tolerance) + if pixel_diff(actual, reference, n - 1)
            > tolerance {
            1nat
        } else {
            0nat
        }
    }
}

/// Among the first `n` pixels, those that differ, but by no more than `tolerance` in any channel.
pub open spec fn count_absorbed(actual: Seq<u8>, reference: Seq<u8>, n: int, tolerance: int) -> nat
    decreases n,
{
    if n <= 0 {
        0
    } else {
        count_absorbed(actual, reference, n - 1, tolerance) + if 0 < pixel_diff(actual, reference, n - 1)
            <= tolerance {
            1nat
        } else {
            0nat
        }
    }
}

/// Largest difference of channel `c` over the first `n` pixels (0 when `n` is 0).
pub open spec fn max_channel_diff(actual: Seq<u8>, reference: Seq<u8>, n: int, c: int) -> int
    decreases n,
{
    if n <= 0 {
        0
    } else {
        max_int(max_channel_diff(actual, reference, n - 1, c), pixel_channel_diff(actual, reference, n - 1, c))
    }
}

/// What a comparison of the first `total` pixels under `tolerance` reports.
pub open spec fn describes_comparison(
    result: ComparisonResult,
    actual: Seq<u8>,
    reference: Seq<u8>,
    total: int,
    tolerance: int,
) -> bool {
    &&& result.total_pixels == total
    &&& result.differing_pixels == count_differing(actual, reference, total, tolerance)
    &&& result.pixels_absorbed_by_tolerance == count_absorbed(actual, reference, total, tolerance)
    &&& forall|c: int|
        0 <= c < 4 ==> #[trigger] result.max_channel_diff@[c] == max_channel_diff(
            actual,
            reference,
            total,
            c,
        )
}

fn abs_diff(a: u8, b: u8) -> (d: u8)
    ensures
        d == channel_diff(a, b),
{
    if a >= b {
        a - b
    } else {
        b - a
    }
}

/// Compares the first `total_pixels` RGBA pixels of `actual` against `reference`.
///
/// A pixel differs when its largest channel difference exceeds `tolerance`;
/// it is absorbed when it differs by at least one and by no more than
/// `tolerance` in every channel.
pub fn compare_pixels(actual: &[u8], reference: &[u8], total_pixels: u32, tolerance: u8) -> (result:
    ComparisonResult)
    requires
        actual@.len() >= 4 * total_pixels,
        reference@.len() >= 4 * total_pixels,
    ensures
        describes_comparison(result, actual@, reference@, total_pixels as int, tolerance as int),
        result.differing_pixels == 0 <==> forall|k: int|
            0 <= k < 4 * total_pixels ==> #[trigger] actual@[k] - reference@[k] <= tolerance
                && reference@[k] - actual@[k] <= tolerance,
        result.differing_pixels + result.pixels_absorbed_by_tolerance == 0 <==> forall|k: int|
            0 <= k < 4 * total_pixels ==> #[trigger] actual@[k] == reference@[k],
        forall|k: int|
            0 <= k < 4 * total_pixels ==> result.max_channel_diff@[k % 4] >= #[trigger] actual@[k]
                - reference@[k] && result.max_channel_diff@[k % 4] >= reference@[k] - actual@[k],
{
    let mut max_diff: [u8; 4] = [0u8; 4];
    let mut absorbed: u32 = 0;
    let mut differing: u32 = 0;
    let actual_len: usize = actual.len();
    let mut i: u32 = 0;
    while i < total_pixels
        invariant
            i <= total_pixels,
            actual_len == actual@.len(),
            actual@.len() >= 4 * total_pixels,
            reference@.len() >= 4 * total_pixels,
            differing == count_differing(actual@, reference@, i as int, tolerance as int),
            absorbed == count_absorbed(actual@, reference@, i as int, tolerance as int),
            differing + absorbed <= i,
            forall|c: int|
                0 <= c < 4 ==> #[trigger] max_diff@[c] == max_channel_diff(
                    actual@,
                    reference@,
                    i as int,
                    c,
                ),
        decreases total_pixels - i,
    {
        let offset: usize = (i as usize) * 4;
        let mut pixel_max: u8 = 0;
        let mut c: usize = 0;
        while c < 4
            invariant
                c <= 4,
                i < total_pixels,
                offset == 4 * i,
                actual@.len() >= 4 * total_pixels,
                reference@.len() >= 4 * total_pixels,
                forall|k: int|
                    0 <= k < c ==> #[trigger] max_diff@[k] == max_channel_diff(
                        actual@,
                        reference@,
                        i + 1,
                        k,
                    ),
                forall|k: int|
                    c <= k < 4 ==> #[trigger] max_diff@[k] == max_channel_diff(
                        actual@,
                        reference@,
                        i as int,
                        k,
                    ),
                pixel_max == (if c == 0 {
                    0
                } else if c == 1 {
                    pixel_channel_diff(actual@, reference@, i as int, 0)
                } else if c == 2 {
                    max_int(
                        pixel_channel_diff(actual@, reference@, i as int, 0),
                        pixel_channel_diff(actual@, reference@, i as int, 1),
                    )
                } else if c == 3 {
                    max_int(
                        max_int(
                            pixel_channel_diff(actual@, reference@, i as int, 0),
                            pixel_channel_diff(actual@, reference@, i as int, 1),
                        ),
                        pixel_channel_diff(actual@, reference@, i as int, 2),
                    )
                } else {
                    pixel_diff(actual@, reference@, i as int)
                }),
            decreases 4 - c,
        {
            let d = abs_diff(actual[offset + c], reference[offset + c]);
            if d > pixel_max {
                pixel_max = d;
            }
            if d > max_diff[c] {
                max_diff[c] = d;
            }
            c = c + 1;
        }
        if pixel_max > tolerance {
            differing = differing + 1;
        } else if pixel_max > 0 {
            absorbed = absorbed + 1;
        }
        i = i + 1;
    }
    proof {
        lemma_no_differing_iff_within_tolerance(actual@, reference@, total_pixels as nat, tolerance);
        lemma_nothing_counted_iff_unchanged(actual@, reference@, total_pixels as nat, tolerance);
        lemma_max_channel_diff_bounds(actual@, reference@, total_pixels as nat);
    }
    ComparisonResult {
        max_channel_diff: max_diff,
        pixels_absorbed_by_tolerance: absorbed,
        differing_pixels: differing,
        total_pixels,
    }
}

/// The reference and the actual image have different dimensions.
#[derive(Debug, Clone, Copy, PartialEq, Eq)]
pub struct DimensionMismatch {
    /// (width, height) of the reference image.
    pub expected: (u32, u32),
    /// (width, height) of the actual image.
    pub actual: (u32, u32),
}

impl ComparisonResult {
    /// The telemetry reported when `image` has just been written as the new
    /// reference: every pixel counted, none differing, none absorbed, no jitter.
    pub fn for_new_reference(image: &Image) -> (result: ComparisonResult)
        ensures
            result.total_pixels == image.pixel_count(),
            result.total_pixels == image.width as int * image.height as int,
            result.differing_pixels == 0,
            result.pixels_absorbed_by_tolerance == 0,
            result.max_channel_diff@ == seq![0u8, 0u8, 0u8, 0u8],
    {
        let total = pixel_total(image.width, image.height);
        let result = ComparisonResult {
            max_channel_diff: [0u8; 4],
            pixels_absorbed_by_tolerance: 0,
            differing_pixels: 0,
            total_pixels: total,
        };
        assert(result.max_channel_diff@ =~= seq![0u8, 0u8, 0u8, 0u8]);
        result
    }
}

fn pixel_total(width: u16, height: u16) -> (total: u32)
    ensures
        total == width * height,
{
    assert(width * height <= 0xffff * 0xffff) by (nonlinear_arith)
        requires
            width <= 0xffff,
            height <= 0xffff,
    ;
    (width as u32) * (height as u32)
}

/// Compares a captured frame against a reference image of
/// `reference_width` x `reference_height` RGBA pixels.
///
/// Fails with [`DimensionMismatch`] when the dimensions differ; otherwise
/// compares every pixel under the per-channel `tolerance`.
pub fn compare_frames(
    actual: &Image,
    reference_width: u32,
    reference_height: u32,
    reference: &[u8],
    tolerance: u8,
) -> (result: Result<ComparisonResult, DimensionMismatch>)
    requires
        reference_width == actual.width && reference_height == actual.height ==> actual.well_formed()
            && reference@.len() >= 4 * actual.pixel_count(),
    ensures
        result is Err <==> (reference_width != actual.width || reference_height != actual.height),
        result matches Err(e) ==> e.expected == (reference_width, reference_height) && e.actual == (
            actual.width as u32,
            actual.height as u32,
        ),
        result matches Ok(r) ==> describes_comparison(
            r,
            actual.bytes@,
            reference@,
            actual.pixel_count() as int,
            tolerance as int,
        ),
        result matches Ok(r) ==> r.total_pixels == actual.width as int * actual.height as int,
        result matches Ok(r) ==> (r.differing_pixels == 0 <==> forall|k: int|
            0 <= k < 4 * r.total_pixels ==> #[trigger] actual.bytes@[k] - reference@[k] <= tolerance
                && reference@[k] - actual.bytes@[k] <= tolerance),
        result matches Ok(r) ==> forall|k: int|
            0 <= k < 4 * r.total_pixels ==> r.max_channel_diff@[k % 4] >= #[trigger] actual.bytes@[k]
                - reference@[k] && r.max_channel_diff@[k % 4] >= reference@[k] - actual.bytes@[k],
{
    let actual_width = actual.width as u32;
    let actual_height = actual.height as u32;
    if reference_width != actual_width || reference_height != actual_height {
        return Err(
            DimensionMismatch {
                expected: (reference_width, reference_height),
                actual: (actual_width, actual_height),
            },
        );
    }
    let total = pixel_total(actual.width, actual.height);
    Ok(compare_pixels(actual.bytes.as_slice(), reference, total, tolerance))
}

/// Comparing an image with itself finds nothing: no pixel differs, none is
/// absorbed by the tolerance, and no channel shows any jitter.
pub proof fn lemma_identical_images_match(image: Seq<u8>, n: nat, tolerance: u8)
    ensures
        count_differing(image, image, n as int, tolerance as int) == 0,
        count_absorbed(image, image, n as int, tolerance as int) == 0,
        forall|c: int| 0 <= c < 4 ==> #[trigger] max_channel_diff(image, image, n as int, c) == 0,
    decreases n,
{
    if n > 0 {
        lemma_identical_images_match(image, (n - 1) as nat, tolerance);
        assert forall|c: int| 0 <= c < 4 implies #[trigger] max_channel_diff(
            image,
            image,
            n as int,
            c,
        ) == 0 by {
            assert(max_channel_diff(image, image, n - 1, c) == 0);
        }
    }
}

/// The comparison does not depend on which image is the reference: swapping
/// the two images gives the same counts and the same per-channel maxima.
pub proof fn lemma_comparison_symmetric(actual: Seq<u8>, reference: Seq<u8>, n: nat, tolerance: u8)
    ensures
        count_differing(actual, reference, n as int, tolerance as int) == count_differing(
            reference,
            actual,
            n as int,
            tolerance as int,
        ),
        count_absorbed(actual, reference, n as int, tolerance as int) == count_absorbed(
            reference,
            actual,
            n as int,
            tolerance as int,
        ),
        forall|c: int|
            0 <= c < 4 ==> #[trigger] max_channel_diff(actual, reference, n as int, c)
                == max_channel_diff(reference, actual, n as int, c),
    decreases n,
{
    if n > 0 {
        lemma_comparison_symmetric(actual, reference, (n - 1) as nat, tolerance);
        assert forall|c: int| 0 <= c < 4 implies #[trigger] max_channel_diff(
            actual,
            reference,
            n as int,
            c,
        ) == max_channel_diff(reference, actual, n as int, c) by {
            assert(max_channel_diff(actual, reference, n - 1, c) == max_channel_diff(
                reference,
                actual,
                n - 1,
                c,
            ));
        }
    }
}

/// Every compared pixel is counted at most once: the differing and the
/// absorbed pixels together are no more than the pixels compared.
pub proof fn lemma_counts_bounded(actual: Seq<u8>, reference: Seq<u8>, n: nat, tolerance: u8)
    ensures
        count_differing(actual, reference, n as int, tolerance as int) + count_absorbed(
            actual,
            reference,
            n as int,
            tolerance as int,
        ) <= n,
    decreases n,
{
    if n > 0 {
        lemma_counts_bounded(actual, reference, (n - 1) as nat, tolerance);
    }
}

/// Raising the tolerance never makes more pixels differ, and only moves
/// pixels from "differing" to "absorbed": the pixels that changed at all
/// are the same under every tolerance.
pub proof fn lemma_tolerance_monotone(
    actual: Seq<u8>,
    reference: Seq<u8>,
    n: nat,
    low: u8,
    high: u8,
)
    requires
        low <= high,
    ensures
        count_differing(actual, reference, n as int, high as int) <= count_differing(
            actual,
            reference,
            n as int,
            low as int,
        ),
        count_differing(actual, reference, n as int, low as int) + count_absorbed(
            actual,
            reference,
            n as int,
            low as int,
        ) == count_differing(actual, reference, n as int, high as int) + count_absorbed(
            actual,
            reference,
            n as int,
            high as int,
        ),
    decreases n,
{
    if n > 0 {
        lemma_tolerance_monotone(actual, reference, (n - 1) as nat, low, high);
    }
}

/// With zero tolerance nothing is absorbed: every pixel that changed counts as differing.
pub proof fn lemma_zero_tolerance_absorbs_nothing(actual: Seq<u8>, reference: Seq<u8>, n: nat)
    ensures
        count_absorbed(actual, reference, n as int, 0) == 0,
    decreases n,
{
    if n > 0 {
        lemma_zero_tolerance_absorbs_nothing(actual, reference, (n - 1) as nat);
    }
}

/// A tolerance at least as large as the jitter observed in every channel
/// absorbs every difference: no pixel counts as differing.
pub proof fn lemma_tolerance_covering_jitter(
    actual: Seq<u8>,
    reference: Seq<u8>,
    n: nat,
    tolerance: u8,
)
    requires
        forall|c: int|
            0 <= c < 4 ==> #[trigger] max_channel_diff(actual, reference, n as int, c) <= tolerance,
    ensures
        count_differing(actual, reference, n as int, tolerance as int) == 0,
    decreases n,
{
    if n > 0 {
        let m = n - 1;
        assert forall|c: int| 0 <= c < 4 implies #[trigger] max_channel_diff(
            actual,
            reference,
            m,
            c,
        ) <= tolerance by {
            assert(max_channel_diff(actual, reference, n as int, c) >= max_channel_diff(
                actual,
                reference,
                m,
                c,
            ));
        }
        assert(max_channel_diff(actual, reference, n as int, 0) <= tolerance);
        assert(max_channel_diff(actual, reference, n as int, 1) <= tolerance);
        assert(max_channel_diff(actual, reference, n as int, 2) <= tolerance);
        assert(max_channel_diff(actual, reference, n as int, 3) <= tolerance);
        lemma_tolerance_covering_jitter(actual, reference, m as nat, tolerance);
    }
}

/// The telemetry reported when an image is written as the new reference is
/// exactly what comparing that image against itself reports, under any tolerance.
pub proof fn lemma_new_reference_matches_self_comparison(
    image: Image,
    result: ComparisonResult,
    tolerance: u8,
)
    requires
        result.total_pixels == image.pixel_count(),
        result.differing_pixels == 0,
        result.pixels_absorbed_by_tolerance == 0,
        result.max_channel_diff@ == seq![0u8, 0u8, 0u8, 0u8],
    ensures
        describes_comparison(
            result,
            image.bytes@,
            image.bytes@,
            image.pixel_count() as int,
            tolerance as int,
        ),
{
    lemma_identical_images_match(image.bytes@, image.pixel_count(), tolerance);
    assert forall|c: int| 0 <= c < 4 implies #[trigger] result.max_channel_diff@[c]
        == max_channel_diff(image.bytes@, image.bytes@, image.pixel_count() as int, c) by {
        assert(result.max_channel_diff@[c] == 0);
    }
}

/// What the capture loop does with one frame.
#[derive(Debug, Clone, Copy, PartialEq, Eq)]
pub enum FrameStep {
    /// Render the frame and present it, letting the pipeline settle.
    WarmUp,
    /// Render the frame and read the screen back as the captured image.
    Capture,
}

/// The step for frame `frame` (counting from 0) of a capture that renders
/// `stabilize_frames` warm-up frames before the captured one; `None` once
/// the capture is done.
pub open spec fn capture_schedule(frame: int, stabilize_frames: int) -> Option<FrameStep> {
    if frame < stabilize_frames {
        Some(FrameStep::WarmUp)
    } else if frame == stabilize_frames {
        Some(FrameStep::Capture)
    } else {
        None
    }
}

/// Decides what the capture loop does with frame `frame` (counting from 0):
/// `stabilize_frames` warm-up frames, then one captured frame, then nothing.
pub fn capture_step(frame: u32, stabilize_frames: u32) -> (step: Option<FrameStep>)
    ensures
        step == capture_schedule(frame as int, stabilize_frames as int),
{
    if frame < stabilize_frames {
        Some(FrameStep::WarmUp)
    } else if frame == stabilize_frames {
        Some(FrameStep::Capture)
    } else {
        None
    }
}

/// Frames among the first `n` on which the capture renders.
pub open spec fn rendered_frames(n: int, stabilize_frames: int) -> nat
    decreases n,
{
    if n <= 0 {
        0
    } else {
        rendered_frames(n - 1, stabilize_frames) + if capture_schedule(n - 1, stabilize_frames) is Some {
            1nat
        } else {
            0nat
        }
    }
}

/// Frames among the first `n` that are captured.
pub open spec fn captured_frames(n: int, stabilize_frames: int) -> nat
    decreases n,
{
    if n <= 0 {
        0
    } else {
        captured_frames(n - 1, stabilize_frames) + if capture_schedule(n - 1, stabilize_frames)
            == Some(FrameStep::Capture) {
            1nat
        } else {
            0nat
        }
    }
}

/// A capture renders the scene `stabilize_frames + 1` times and captures
/// exactly one frame, the last one rendered; after it the schedule ends.
pub proof fn lemma_capture_renders_stabilize_plus_one(stabilize_frames: u32, n: nat)
    requires
        n > stabilize_frames,
    ensures
        rendered_frames(n as int, stabilize_frames as int) == stabilize_frames + 1,
        captured_frames(n as int, stabilize_frames as int) == 1,
        capture_schedule(stabilize_frames as int, stabilize_frames as int) == Some(FrameStep::Capture),
        forall|k: int| k > stabilize_frames ==> #[trigger] capture_schedule(k, stabilize_frames as int) is None,
    decreases n,
{
    lemma_capture_prefix(stabilize_frames, stabilize_frames as nat);
    if n > stabilize_frames + 1 {
        lemma_capture_renders_stabilize_plus_one(stabilize_frames, (n - 1) as nat);
    }
}

proof fn lemma_capture_prefix(stabilize_frames: u32, n: nat)
    requires
        n <= stabilize_frames,
    ensures
        rendered_frames(n as int, stabilize_frames as int) == n,
        captured_frames(n as int, stabilize_frames as int) == 0,
    decreases n,
{
    if n > 0 {
        lemma_capture_prefix(stabilize_frames, (n - 1) as nat);
    }
}

/// The per-pixel measure is the pixel's largest channel difference: it is at
/// least the difference of each of the pixel's own four bytes (`4 * i` to
/// `4 * i + 3`), in either direction, and it equals one of them.
pub proof fn lemma_pixel_diff_is_largest_channel_difference(
    actual: Seq<u8>,
    reference: Seq<u8>,
    i: int,
)
    ensures
        forall|k: int|
            4 * i <= k < 4 * i + 4 ==> pixel_diff(actual, reference, i) >= #[trigger] actual[k]
                - reference[k] && pixel_diff(actual, reference, i) >= reference[k] - actual[k],
        exists|k: int|
            4 * i <= k < 4 * i + 4 && (pixel_diff(actual, reference, i) == #[trigger] actual[k]
                - reference[k] || pixel_diff(actual, reference, i) == reference[k] - actual[k]),
{
    let d = pixel_diff(actual, reference, i);
    assert forall|k: int| 4 * i <= k < 4 * i + 4 implies d >= #[trigger] actual[k] - reference[k]
        && d >= reference[k] - actual[k] by {
        assert(k == 4 * i + 0 || k == 4 * i + 1 || k == 4 * i + 2 || k == 4 * i + 3);
    }
    if d == pixel_channel_diff(actual, reference, i, 0) {
        assert(d == actual[4 * i + 0] - reference[4 * i + 0] || d == reference[4 * i + 0] - actual[4
            * i + 0]);
    } else if d == pixel_channel_diff(actual, reference, i, 1) {
        assert(d == actual[4 * i + 1] - reference[4 * i + 1] || d == reference[4 * i + 1] - actual[4
            * i + 1]);
    } else if d == pixel_channel_diff(actual, reference, i, 2) {
        assert(d == actual[4 * i + 2] - reference[4 * i + 2] || d == reference[4 * i + 2] - actual[4
            * i + 2]);
    } else {
        assert(d == actual[4 * i + 3] - reference[4 * i + 3] || d == reference[4 * i + 3] - actual[4
            * i + 3]);
    }
}

/// Whether byte `k` of the two buffers differs by more than `tolerance`.
pub open spec fn byte_exceeds(actual: Seq<u8>, reference: Seq<u8>, k: int, tolerance: int) -> bool {
    actual[k] - reference[k] > tolerance || reference[k] - actual[k] > tolerance
}

/// Counting the differing pixels: none among no pixels, and extending the
/// compared pixels by pixel `n` adds one exactly when one of its own four
/// bytes differs by more than the tolerance.
pub proof fn lemma_count_differing_extends(actual: Seq<u8>, reference: Seq<u8>, n: nat, tolerance: u8)
    ensures
        count_differing(actual, reference, 0, tolerance as int) == 0,
        count_differing(actual, reference, n + 1int, tolerance as int) == count_differing(
            actual,
            reference,
            n as int,
            tolerance as int,
        ) + if exists|k: int|
            4 * n <= k < 4 * n + 4 && (#[trigger] actual[k] - reference[k] > tolerance
                || reference[k] - actual[k] > tolerance) {
            1int
        } else {
            0int
        },
{
    lemma_pixel_diff_is_largest_channel_difference(actual, reference, n as int);
    let d = pixel_diff(actual, reference, n as int);
    let ex = exists|k: int|
        4 * n <= k < 4 * n + 4 && (#[trigger] actual[k] - reference[k] > tolerance || reference[k]
            - actual[k] > tolerance);
    if d > tolerance {
        let k = choose|k: int|
            4 * n <= k < 4 * n + 4 && (d == #[trigger] actual[k] - reference[k] || d == reference[k]
                - actual[k]);
        assert(4 * n <= k < 4 * n + 4 && (actual[k] - reference[k] > tolerance || reference[k]
            - actual[k] > tolerance));
        assert(ex);
    } else {
        assert(!ex);
    }
}

/// Counting the absorbed pixels: none among no pixels, and extending the
/// compared pixels by pixel `n` adds one exactly when some of its own four
/// bytes changed and none changed by more than the tolerance.
pub proof fn lemma_count_absorbed_extends(actual: Seq<u8>, reference: Seq<u8>, n: nat, tolerance: u8)
    ensures
        count_absorbed(actual, reference, 0, tolerance as int) == 0,
        count_absorbed(actual, reference, n + 1int, tolerance as int) == count_absorbed(
            actual,
            reference,
            n as int,
            tolerance as int,
        ) + if (exists|k: int| 4 * n <= k < 4 * n + 4 && #[trigger] actual[k] != reference[k]) && (
        forall|k: int|
            4 * n <= k < 4 * n + 4 ==> #[trigger] actual[k] - reference[k] <= tolerance
                && reference[k] - actual[k] <= tolerance) {
            1int
        } else {
            0int
        },
{
    lemma_pixel_diff_is_largest_channel_difference(actual, reference, n as int);
    let d = pixel_diff(actual, reference, n as int);
    let changed = exists|k: int| 4 * n <= k < 4 * n + 4 && #[trigger] actual[k] != reference[k];
    let within = forall|k: int|
        4 * n <= k < 4 * n + 4 ==> #[trigger] actual[k] - reference[k] <= tolerance && reference[k]
            - actual[k] <= tolerance;
    let w = choose|k: int|
        4 * n <= k < 4 * n + 4 && (d == #[trigger] actual[k] - reference[k] || d == reference[k]
            - actual[k]);
    if 0 < d {
        assert(actual[w] != reference[w]);
        assert(changed);
    } else {
        assert forall|k: int| 4 * n <= k < 4 * n + 4 implies !(#[trigger] actual[k]
            != reference[k]) by {
            assert(d >= actual[k] - reference[k] && d >= reference[k] - actual[k]);
        }
        assert(!changed);
    }
    if d <= tolerance {
        assert(within);
    } else {
        assert(!(actual[w] - reference[w] <= tolerance && reference[w] - actual[w] <= tolerance));
        assert(!within);
    }
}

/// The jitter of channel `c` (0 to 3): nothing over no pixels, and extending
/// the compared pixels by pixel `n` raises it to the difference of that
/// pixel's byte `4 * n + c` when that difference is larger.
pub proof fn lemma_max_channel_diff_extends(actual: Seq<u8>, reference: Seq<u8>, n: nat, c: int)
    requires
        0 <= c < 4,
    ensures
        max_channel_diff(actual, reference, 0, c) == 0,
        ({
            let k = 4 * n + c;
            let d = if actual[k] >= reference[k] {
                actual[k] - reference[k]
            } else {
                reference[k] - actual[k]
            };
            let before = max_channel_diff(actual, reference, n as int, c);
            max_channel_diff(actual, reference, n + 1int, c) == if d > before {
                d
            } else {
                before
            }
        }),
{
}

/// No pixel counts as differing exactly when every compared byte (the first
/// `4 * n`) differs by no more than the tolerance, in either direction.
pub proof fn lemma_no_differing_iff_within_tolerance(
    actual: Seq<u8>,
    reference: Seq<u8>,
    n: nat,
    tolerance: u8,
)
    ensures
        count_differing(actual, reference, n as int, tolerance as int) == 0 <==> forall|k: int|
            0 <= k < 4 * n ==> #[trigger] actual[k] - reference[k] <= tolerance && reference[k]
                - actual[k] <= tolerance,
    decreases n,
{
    if n > 0 {
        let m = (n - 1) as nat;
        lemma_no_differing_iff_within_tolerance(actual, reference, m, tolerance);
        lemma_count_differing_extends(actual, reference, m, tolerance);
        let all_n = forall|k: int|
            0 <= k < 4 * n ==> #[trigger] actual[k] - reference[k] <= tolerance && reference[k]
                - actual[k] <= tolerance;
        let all_m = forall|k: int|
            0 <= k < 4 * m ==> #[trigger] actual[k] - reference[k] <= tolerance && reference[k]
                - actual[k] <= tolerance;
        let ex = exists|k: int|
            4 * m <= k < 4 * m + 4 && (#[trigger] actual[k] - reference[k] > tolerance
                || reference[k] - actual[k] > tolerance);
        if all_n {
            assert(all_m);
            assert(!ex);
        } else {
            let k = choose|k: int|
                !(0 <= k < 4 * n ==> #[trigger] actual[k] - reference[k] <= tolerance
                    && reference[k] - actual[k] <= tolerance);
            if k < 4 * m {
                assert(!all_m);
            } else {
                assert(ex);
            }
        }
    }
}

/// Nothing counts as differing or absorbed exactly when every compared byte
/// (the first `4 * n`) is unchanged.
pub proof fn lemma_nothing_counted_iff_unchanged(
    actual: Seq<u8>,
    reference: Seq<u8>,
    n: nat,
    tolerance: u8,
)
    ensures
        count_differing(actual, reference, n as int, tolerance as int) + count_absorbed(
            actual,
            reference,
            n as int,
            tolerance as int,
        ) == 0 <==> forall|k: int| 0 <= k < 4 * n ==> #[trigger] actual[k] == reference[k],
    decreases n,
{
    if n > 0 {
        let m = (n - 1) as nat;
        lemma_nothing_counted_iff_unchanged(actual, reference, m, tolerance);
        lemma_count_differing_extends(actual, reference, m, tolerance);
        lemma_count_absorbed_extends(actual, reference, m, tolerance);
        let all_n = forall|k: int| 0 <= k < 4 * n ==> #[trigger] actual[k] == reference[k];
        let all_m = forall|k: int| 0 <= k < 4 * m ==> #[trigger] actual[k] == reference[k];
        let changed = exists|k: int| 4 * m <= k < 4 * m + 4 && #[trigger] actual[k] != reference[k];
        if all_n {
            assert(all_m);
            assert(!changed);
            assert(!exists|k: int|
                4 * m <= k < 4 * m + 4 && (#[trigger] actual[k] - reference[k] > tolerance
                    || reference[k] - actual[k] > tolerance));
        } else {
            let k = choose|k: int| !(0 <= k < 4 * n ==> #[trigger] actual[k] == reference[k]);
            if k < 4 * m {
                assert(!all_m);
            } else {
                assert(changed);
                if actual[k] - reference[k] > tolerance || reference[k] - actual[k] > tolerance {
                    assert(exists|j: int|
                        4 * m <= j < 4 * m + 4 && (#[trigger] actual[j] - reference[j] > tolerance
                            || reference[j] - actual[j] > tolerance));
                }
            }
        }
    }
}

/// The reported jitter of each channel bounds that channel's difference at
/// every compared pixel: for every compared byte `k`, the maximum of channel
/// `k % 4` is at least the byte's difference in either direction.
pub proof fn lemma_max_channel_diff_bounds(actual: Seq<u8>, reference: Seq<u8>, n: nat)
    ensures
        forall|k: int|
            0 <= k < 4 * n ==> max_channel_diff(actual, reference, n as int, k % 4)
                >= #[trigger] actual[k] - reference[k] && max_channel_diff(
                actual,
                reference,
                n as int,
                k % 4,
            ) >= reference[k] - actual[k],
    decreases n,
{
    if n > 0 {
        let m = (n - 1) as nat;
        lemma_max_channel_diff_bounds(actual, reference, m);
        assert forall|k: int| 0 <= k < 4 * n implies max_channel_diff(
            actual,
            reference,
            n as int,
            k % 4,
        ) >= #[trigger] actual[k] - reference[k] && max_channel_diff(
            actual,
            reference,
            n as int,
            k % 4,
        ) >= reference[k] - actual[k] by {
            let c = k % 4;
            lemma_max_channel_diff_extends(actual, reference, m, c);
            if k < 4 * m {
                assert(max_channel_diff(actual, reference, m as int, c) >= actual[k] - reference[k]);
            } else {
                assert(k == 4 * m + c);
            }
        }
    }
}

/// An image's pixel count is the product of its width and its height.
pub proof fn lemma_pixel_count_is_area(image: Image)
    ensures
        image.pixel_count() == image.width as int * image.height as int,
{
}

} // verus!
