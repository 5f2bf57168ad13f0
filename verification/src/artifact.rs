//! Shared artifact vocabulary: build errors, capacities, and the reflected
//! boundary used when a filter reads past either end of a source.
use vstd::prelude::*;

verus! {

/// Most frames a sample-loop artifact holds.
pub const SAMPLE_MAX_FRAMES: usize = 131072;

/// Most source frames a grain artifact holds.
pub const GRAIN_MAX_SOURCE_FRAMES: usize = 524288;

/// Realtime grain lanes reported by telemetry.
pub const GRAIN_TELEMETRY: usize = 8;

/// Realtime grain layers.
pub const GRAIN_LAYERS: usize = GRAIN_TELEMETRY;

/// Number of rich zones.
pub const RICH_ZONE_COUNT: usize = 22;

/// Frames in one rich zone's source-ordered timeline.
pub const RICH_FRAME_COUNT: usize = 32;

/// Samples in one rich frame.
pub const RICH_FRAME_SAMPLES: usize = 4096;

/// Samples in one rich zone.
pub const RICH_ZONE_SAMPLES: usize = RICH_FRAME_COUNT * RICH_FRAME_SAMPLES;

/// Frames per zone in packs written before the rich timeline.
pub const LEGACY_RICH_FRAME_COUNT: usize = 8;

/// Samples per frame in packs written before the rich timeline.
pub const LEGACY_RICH_FRAME_SAMPLES: usize = 4096;

/// Samples per zone in packs written before the rich timeline.
pub const LEGACY_RICH_ZONE_SAMPLES: usize = LEGACY_RICH_FRAME_COUNT * LEGACY_RICH_FRAME_SAMPLES;

/// Why an artifact could not be built.
#[derive(Clone, Copy, Debug, PartialEq, Eq, Structural)]
pub enum ArtifactBuildError {
    Empty,
    NonFinite,
    RootRequired,
    Allocation,
    Cancelled,
}

/// The in-range position that `index` reads from a source of `length`
/// samples mirrored about its first and last sample (whole-sample symmetric
/// extension with period `2 * (length - 1)`).
pub open spec fn reflected(index: int, length: int) -> int {
    if length <= 1 {
        0
    } else {
        let maximum = length - 1;
        let folded = index % (2 * maximum);
        if folded <= maximum {
            folded
        } else {
            2 * maximum - folded
        }
    }
}

/// Fold `index` into `0..length` by mirroring about the end samples.
#[must_use]
pub fn reflected_index(index: isize, length: usize) -> (r: usize)
    requires
        length <= 1 || 2 * (length - 1) <= isize::MAX,
    ensures
        r == reflected(index as int, length as int),
        length <= 1 ==> r == 0,
        length > 1 ==> r < length,
{
    if length <= 1 {
        return 0;
    }
    let maximum = length as isize - 1;
    let period = maximum * 2;
    let folded = match index.checked_rem_euclid(period) {
        Some(folded) => folded,
        None => {
            proof {
                assert(false);
            }
            0
        },
    };
    if folded <= maximum {
        folded as usize
    } else {
        (period - folded) as usize
    }
}

/// Sample rate the rich assets are analysed at.
pub const RICH_ASSET_RATE: u32 = 48000;

/// `a * b`, saturating at `usize::MAX`.
pub open spec fn saturating_mul_usize(a: int, b: int) -> int {
    if a * b > usize::MAX {
        usize::MAX as int
    } else {
        a * b
    }
}

/// A `usize` seen as `u32`, saturating at `u32::MAX`.
pub open spec fn clamp_u32(x: int) -> u32 {
    if x > u32::MAX {
        u32::MAX
    } else {
        x as u32
    }
}

/// How the rich analysis samples a source's timeline: every frame reads
/// `span` consecutive source samples from its `starts` entry, and frame `f`
/// is centred in the source interval `boundaries[f]..boundaries[f + 1]`.
pub struct RichTimelinePlan {
    /// Decimation stride from the source rate down to the asset rate.
    pub stride: usize,
    /// Source samples each frame reads.
    pub span: usize,
    /// Interval boundaries, one more than the frames.
    pub boundaries: Vec<u32>,
    /// First source sample each frame reads.
    pub starts: Vec<usize>,
}

/// Decimation stride for a source rate: whole multiples of the asset rate,
/// at least one.
pub open spec fn rich_stride(rate: u32) -> int {
    if rate / RICH_ASSET_RATE == 0 {
        1
    } else {
        (rate / RICH_ASSET_RATE) as int
    }
}

/// Source samples each frame reads: a full decimated window, or, for a source
/// shorter than one window, an even share of it (at least one sample).
pub open spec fn rich_span(len: int, rate: u32) -> int {
    let window = saturating_mul_usize(RICH_FRAME_SAMPLES as int, rich_stride(rate));
    if len <= window {
        let share = (len + (RICH_FRAME_COUNT as int) - 1) / (RICH_FRAME_COUNT as int);
        let share = if share < 1 { 1 } else { share };
        let cap = if len < 1 { 1 } else { len };
        if share < cap { share } else { cap }
    } else {
        window
    }
}

/// Interval boundary `i` of a source of `len` samples.
pub open spec fn rich_boundary(len: int, i: int) -> u32 {
    clamp_u32(saturating_mul_usize(len, i) / (RICH_FRAME_COUNT as int))
}

/// First sample frame `f` reads: its interval's centre less half the span,
/// kept inside the source.
pub open spec fn rich_start(len: int, span: int, f: int) -> int {
    let lo = rich_boundary(len, f) as int;
    let hi = rich_boundary(len, f + 1) as int;
    let sum = if lo + hi > usize::MAX { usize::MAX as int } else { lo + hi };
    let center = sum / 2;
    let wanted = if center < span / 2 { 0 } else { center - span / 2 };
    let last = if len < span { 0 } else { len - span };
    if wanted < last { wanted } else { last }
}

/// Plan the frames of the rich timeline analysis of a source.
pub fn rich_timeline_plan(source_len: usize, source_sample_rate: u32) -> (r: RichTimelinePlan)
    requires
        source_len >= 1,
    ensures
        r.stride == rich_stride(source_sample_rate),
        r.span == rich_span(source_len as int, source_sample_rate),
        r.boundaries@.len() == RICH_FRAME_COUNT + 1,
        r.starts@.len() == RICH_FRAME_COUNT,
        forall|i: int| 0 <= i <= RICH_FRAME_COUNT ==> #[trigger] r.boundaries@[i] == rich_boundary(source_len as int, i),
        forall|f: int| 0 <= f < RICH_FRAME_COUNT ==> #[trigger] r.starts@[f] == rich_start(source_len as int, r.span as int, f),
        1 <= r.span <= source_len,
        forall|f: int| 0 <= f < RICH_FRAME_COUNT ==> #[trigger] r.starts@[f] + r.span <= source_len,
{
    let ratio = source_sample_rate / RICH_ASSET_RATE;
    let stride: usize = if ratio == 0 {
        1
    } else {
        ratio as usize
    };
    let window: usize = if stride > usize::MAX / RICH_FRAME_SAMPLES {
        usize::MAX
    } else {
        RICH_FRAME_SAMPLES * stride
    };
    proof {
        assert(window == saturating_mul_usize(RICH_FRAME_SAMPLES as int, stride as int)) by (nonlinear_arith)
            requires
                stride > usize::MAX / RICH_FRAME_SAMPLES ==> window == usize::MAX,
                stride <= usize::MAX / RICH_FRAME_SAMPLES ==> window == RICH_FRAME_SAMPLES * stride,
                RICH_FRAME_SAMPLES == 4096,
                stride >= 1,
        ;
    }
    let span: usize = if source_len <= window {
        let share = source_len / RICH_FRAME_COUNT + if source_len % RICH_FRAME_COUNT != 0 {
            1usize
        } else {
            0usize
        };
        let share = if share < 1 {
            1
        } else {
            share
        };
        if share < source_len {
            share
        } else {
            source_len
        }
    } else {
        window
    };
    proof {
        let len = source_len as int;
        assert((len + 31) / 32 == len / 32 + (if len % 32 != 0 { 1int } else { 0int }));
    }
    let mut boundaries: Vec<u32> = Vec::new();
    let mut i: usize = 0;
    while i <= RICH_FRAME_COUNT
        invariant
            i <= RICH_FRAME_COUNT + 1,
            boundaries@.len() == i,
            forall|j: int| 0 <= j < i ==> #[trigger] boundaries@[j] == rich_boundary(source_len as int, j),
        decreases RICH_FRAME_COUNT + 1 - i,
    {
        let product: usize = if i != 0 && source_len > usize::MAX / i {
            usize::MAX
        } else {
            proof {
                if i != 0 {
                    assert(source_len * i <= usize::MAX) by (nonlinear_arith)
                        requires
                            i > 0,
                            source_len <= usize::MAX / i,
                    ;
                }
            }
            source_len * i
        };
        proof {
            assert(product == saturating_mul_usize(source_len as int, i as int)) by (nonlinear_arith)
                requires
                    i != 0 && source_len > usize::MAX / i ==> product == usize::MAX,
                    !(i != 0 && source_len > usize::MAX / i) ==> product == source_len * i,
            ;
        }
        let quotient = product / RICH_FRAME_COUNT;
        let boundary: u32 = if quotient > u32::MAX as usize {
            u32::MAX
        } else {
            quotient as u32
        };
        boundaries.push(boundary);
        i += 1;
    }
    let last_start: usize = if source_len < span {
        0
    } else {
        source_len - span
    };
    let mut starts: Vec<usize> = Vec::new();
    let mut frame: usize = 0;
    while frame < RICH_FRAME_COUNT
        invariant
            frame <= RICH_FRAME_COUNT,
            1 <= span <= source_len,
            last_start == source_len - span,
            boundaries@.len() == RICH_FRAME_COUNT + 1,
            forall|j: int| 0 <= j <= RICH_FRAME_COUNT ==> #[trigger] boundaries@[j] == rich_boundary(source_len as int, j),
            starts@.len() == frame,
            forall|f: int| 0 <= f < frame ==> #[trigger] starts@[f] == rich_start(source_len as int, span as int, f),
            forall|f: int| 0 <= f < frame ==> #[trigger] starts@[f] + span <= source_len,
        decreases RICH_FRAME_COUNT - frame,
    {
        let lo = boundaries[frame] as usize;
        let hi = boundaries[frame + 1] as usize;
        let sum = lo.saturating_add(hi);
        let center = sum / 2;
        let wanted = center.saturating_sub(span / 2);
        let start = if wanted < last_start {
            wanted
        } else {
            last_start
        };
        starts.push(start);
        frame += 1;
    }
    RichTimelinePlan { stride, span, boundaries, starts }
}

/// The decimation stride is the whole number of asset-rate periods in the
/// source rate: the largest stride whose multiple of the asset rate does not
/// exceed the source rate, and one for sources slower than the asset rate.
pub proof fn lemma_rich_stride_divides_rate(rate: u32)
    ensures
        rich_stride(rate) >= 1,
        rate >= RICH_ASSET_RATE ==> rich_stride(rate) * RICH_ASSET_RATE <= rate < (rich_stride(rate) + 1)
            * RICH_ASSET_RATE,
        rate < RICH_ASSET_RATE ==> rich_stride(rate) == 1,
{
    if rate >= RICH_ASSET_RATE {
        let q = rate / RICH_ASSET_RATE;
        assert(q * 48000 <= rate < (q + 1) * 48000) by (nonlinear_arith)
            requires
                q == rate / 48000,
                rate >= 48000,
        ;
    }
}

/// Each frame reads a full decimated window (`RICH_FRAME_SAMPLES` times the
/// stride) when the source is longer than one; a shorter source is shared
/// evenly among the frames, each reading the fewest samples that let the
/// frames together cover it.
pub proof fn lemma_rich_span_covers_source(len: int, rate: u32)
    requires
        1 <= len,
        RICH_FRAME_SAMPLES * rich_stride(rate) <= usize::MAX,
    ensures
        len > RICH_FRAME_SAMPLES * rich_stride(rate) ==> rich_span(len, rate) == RICH_FRAME_SAMPLES
            * rich_stride(rate),
        len <= RICH_FRAME_SAMPLES * rich_stride(rate) ==> {
            &&& rich_span(len, rate) * RICH_FRAME_COUNT >= len
            &&& (rich_span(len, rate) - 1) * RICH_FRAME_COUNT < len
        },
        1 <= rich_span(len, rate) <= len,
{
    let w = RICH_FRAME_SAMPLES * rich_stride(rate);
    if len <= w {
        let q = (len + 31) / 32;
        assert(q * 32 >= len && (q - 1) * 32 < len && 1 <= q <= len) by (nonlinear_arith)
            requires
                q == (len + 31) / 32,
                len >= 1,
        ;
    }
}

/// The intervals split the source evenly: each is `len / 32` samples long,
/// rounded down or up.
pub proof fn lemma_rich_intervals_are_even(len: int, i: int)
    requires
        1 <= len <= u32::MAX,
        len * (RICH_FRAME_COUNT as int) <= usize::MAX,
        0 <= i < RICH_FRAME_COUNT,
    ensures
        len / (RICH_FRAME_COUNT as int) <= rich_boundary(len, i + 1) - rich_boundary(len, i) <= len
            / (RICH_FRAME_COUNT as int) + 1,
{
    assert(len * i <= len * 32 && len * (i + 1) <= len * 32) by (nonlinear_arith)
        requires
            0 <= i < 32,
            len >= 1,
    ;
    assert(len * 32 / 32 == len) by (nonlinear_arith);
    vstd::arithmetic::div_mod::lemma_div_is_ordered(len * (i + 1), len * 32, 32);
    let a = len * i / 32;
    let b = len * (i + 1) / 32;
    let q = len / 32;
    assert(q <= b - a <= q + 1) by (nonlinear_arith)
        requires
            a == len * i / 32,
            b == len * (i + 1) / 32,
            q == len / 32,
            len >= 1,
            i >= 0,
    ;
}

/// Each frame is centred on its interval: where a window of `span` samples
/// fits around the centre of interval `f`, the frame starts half a span
/// before that centre; where it does not fit, the frame is pushed against
/// the nearer end of the source. The frame always lies inside the source.
pub proof fn lemma_rich_frames_centred(len: int, span: int, f: int)
    requires
        1 <= span <= len,
        0 <= f < RICH_FRAME_COUNT,
        rich_boundary(len, f) + rich_boundary(len, f + 1) <= usize::MAX,
    ensures
        ({
            let c = (rich_boundary(len, f) + rich_boundary(len, f + 1)) / 2;
            &&& span / 2 <= c <= len - span + span / 2 ==> rich_start(len, span, f) + span / 2 == c
            &&& c < span / 2 ==> rich_start(len, span, f) == 0
            &&& c > len - span + span / 2 ==> rich_start(len, span, f) == len - span
            &&& 0 <= rich_start(len, span, f) <= len - span
        }),
{
}

/// The timeline covers the whole source in order: the first boundary is the
/// first sample, the last is the source's end (for sources that `u32` can
/// address), and boundaries never decrease.
pub proof fn lemma_rich_timeline_covers_source(len: int, i: int, j: int)
    requires
        1 <= len <= u32::MAX,
        len * (RICH_FRAME_COUNT as int) <= usize::MAX,
        0 <= i <= j <= RICH_FRAME_COUNT,
    ensures
        rich_boundary(len, 0) == 0,
        rich_boundary(len, RICH_FRAME_COUNT as int) == len,
        rich_boundary(len, i) <= rich_boundary(len, j),
{
    assert(len * 0 == 0);
    assert(len * 32 / 32 == len) by (nonlinear_arith);
    assert(len * i <= len * j) by (nonlinear_arith)
        requires
            0 <= i <= j,
            len >= 1,
    ;
    assert(len * j <= len * 32) by (nonlinear_arith)
        requires
            j <= 32,
            len >= 1,
    ;
    vstd::arithmetic::div_mod::lemma_div_is_ordered(len * i, len * j, 32);
    vstd::arithmetic::div_mod::lemma_div_is_ordered(len * j, len * 32, 32);
}

/// A persisted sample loop's compiler receipt describes this exact loop and a
/// bounded region of its source: the region `start..start + span` lies inside
/// a non-empty source, the crossfade fits in the span, and the span less the
/// crossfade is the loop's length.
pub open spec fn receipt_describes_loop(
    start: int,
    span: int,
    total: int,
    crossfade: int,
    loop_len: int,
) -> bool {
    &&& start + span <= usize::MAX
    &&& crossfade <= span
    &&& total != 0
    &&& span != 0
    &&& start + span <= total
    &&& span - crossfade == loop_len
}

/// Whether a persisted sample loop may be restored with its receipt.
#[must_use]
pub fn sample_loop_receipt_is_valid(
    source_start_frames: usize,
    source_span_frames: usize,
    source_total_frames: usize,
    crossfade_frames: usize,
    loop_len: usize,
) -> (r: bool)
    ensures
        r == receipt_describes_loop(
            source_start_frames as int,
            source_span_frames as int,
            source_total_frames as int,
            crossfade_frames as int,
            loop_len as int,
        ),
{
    let source_end = match source_start_frames.checked_add(source_span_frames) {
        Some(end) => end,
        None => return false,
    };
    let loop_frames = match source_span_frames.checked_sub(crossfade_frames) {
        Some(frames) => frames,
        None => return false,
    };
    !(source_total_frames == 0 || source_span_frames == 0 || source_end > source_total_frames
        || crossfade_frames > source_span_frames || loop_frames != loop_len)
}

/// `a / b` rounded up.
pub open spec fn ceil_div(a: int, b: int) -> int {
    (a + b - 1) / b
}

/// Samples left after decimating `len` samples by `stride`: one per started
/// stride.
pub fn decimated_len(len: usize, stride: usize) -> (r: usize)
    requires
        stride >= 1,
    ensures
        r == ceil_div(len as int, stride as int),
{
    proof {
        if len % stride != 0 {
            assert(len / stride < usize::MAX) by (nonlinear_arith)
                requires
                    stride >= 2,
                    len <= usize::MAX,
            ;
        }
    }
    let r = len / stride + if len % stride != 0 {
        1usize
    } else {
        0usize
    };
    proof {
        lemma_ceil_div_by_parts(len as int, stride as int);
    }
    r
}

proof fn lemma_ceil_div_by_parts(a: int, b: int)
    requires
        a >= 0,
        b >= 1,
    ensures
        ceil_div(a, b) == a / b + (if a % b != 0 { 1int } else { 0int }),
{
    vstd::arithmetic::div_mod::lemma_fundamental_div_mod(a, b);
    let q = a / b;
    let m = a % b;
    if m == 0 {
        assert(a + b - 1 == q * b + (b - 1)) by (nonlinear_arith)
            requires
                a == b * q + m,
                m == 0,
        ;
        vstd::arithmetic::div_mod::lemma_fundamental_div_mod_converse(a + b - 1, b, q, b - 1);
    } else {
        assert(a + b - 1 == (q + 1) * b + (m - 1)) by (nonlinear_arith)
            requires
                a == b * q + m,
        ;
        vstd::arithmetic::div_mod::lemma_fundamental_div_mod_converse(a + b - 1, b, q + 1, m - 1);
    }
}

/// Decimation stride that bounds a grain source: the smallest whole stride
/// that leaves at most `GRAIN_MAX_SOURCE_FRAMES` samples.
pub fn grain_source_stride(len: usize) -> (r: usize)
    ensures
        r == (if ceil_div(len as int, GRAIN_MAX_SOURCE_FRAMES as int) < 1 {
            1
        } else {
            ceil_div(len as int, GRAIN_MAX_SOURCE_FRAMES as int)
        }),
        r >= 1,
{
    let stride = decimated_len(len, GRAIN_MAX_SOURCE_FRAMES);
    if stride < 1 {
        1
    } else {
        stride
    }
}

/// A grain source decimated by its stride never exceeds the grain capacity,
/// and a non-empty source keeps at least one sample.
pub proof fn lemma_grain_source_is_bounded(len: int)
    requires
        len >= 0,
    ensures
        ({
            let m = GRAIN_MAX_SOURCE_FRAMES as int;
            let s = if ceil_div(len, m) < 1 { 1 } else { ceil_div(len, m) };
            &&& ceil_div(len, s) <= m
            &&& len >= 1 ==> ceil_div(len, s) >= 1
        }),
{
    let m = GRAIN_MAX_SOURCE_FRAMES as int;
    lemma_ceil_div_by_parts(len, m);
    let s = if ceil_div(len, m) < 1 { 1 } else { ceil_div(len, m) };
    vstd::arithmetic::div_mod::lemma_fundamental_div_mod(len, m);
    assert(len <= s * m) by (nonlinear_arith)
        requires
            len == m * (len / m) + len % m,
            0 <= len % m < m,
            s >= 1,
            s >= len / m + (if len % m != 0 { 1int } else { 0int }),
    ;
    assert((len + s - 1) / s <= m) by (nonlinear_arith)
        requires
            len <= s * m,
            s >= 1,
            len >= 0,
    ;
    if len >= 1 {
        assert((len + s - 1) / s >= 1) by (nonlinear_arith)
            requires
                len >= 1,
                s >= 1,
        ;
    }
}

/// Indices already inside the source read themselves.
pub proof fn lemma_reflected_in_range(index: int, length: int)
    requires
        0 <= index < length,
    ensures
        reflected(index, length) == index || length <= 1,
        length >= 1 ==> 0 <= reflected(index, length) < length,
{
    if length > 1 {
        vstd::arithmetic::div_mod::lemma_small_mod(index as nat, (2 * (length - 1)) as nat);
    }
}

/// The reflection is symmetric about the first sample and periodic with
/// period `2 * (length - 1)`, and always lands inside the source.
pub proof fn lemma_reflected_symmetry(index: int, length: int)
    requires
        length > 1,
    ensures
        reflected(-index, length) == reflected(index, length),
        reflected(index + 2 * (length - 1), length) == reflected(index, length),
        0 <= reflected(index, length) < length,
{
    let p = 2 * (length - 1);
    let q = index / p;
    let f = index % p;
    vstd::arithmetic::div_mod::lemma_fundamental_div_mod(index, p);
    assert(index == q * p + f) by (nonlinear_arith)
        requires
            index == p * q + f,
    ;
    assert(index + p == (q + 1) * p + f) by (nonlinear_arith)
        requires
            index == q * p + f,
    ;
    vstd::arithmetic::div_mod::lemma_fundamental_div_mod_converse(index + p, p, q + 1, f);
    if f == 0 {
        assert(-index == (-q) * p + 0) by (nonlinear_arith)
            requires
                index == q * p + f,
                f == 0,
        ;
        vstd::arithmetic::div_mod::lemma_fundamental_div_mod_converse(-index, p, -q, 0);
    } else {
        assert(-index == (-q - 1) * p + (p - f)) by (nonlinear_arith)
            requires
                index == q * p + f,
        ;
        vstd::arithmetic::div_mod::lemma_fundamental_div_mod_converse(-index, p, -q - 1, p - f);
    }
}

} // verus!
