use vstd::prelude::*;

use rand::rngs::{OsRng, StdRng};
use rand::seq::SliceRandom;
use rand::{RngCore, SeedableRng};
use rayon::slice::ParallelSliceMut;

use crate::cli::{AnimateParams, ColorChannel, Coefficients, SortingAlgorithm, WalkPath};
use crate::extractor::{channel_supported, Pixel, RgbSorter};

verus! {

/// The settings of one sort pass.
#[derive(Debug, Clone)]
pub struct SortOptions {
    pub by: SortingAlgorithm,
    /// Upper bound of the step between sampled inner indices; at least 1.
    pub interval: usize,
    pub reverse: bool,
    pub coefficients: Coefficients,
    /// Width of the window gathered at each step.
    pub discretize: u64,
    /// Per-line growing bias added to the step size.
    pub progressive_amount: Option<u64>,
    pub direction: WalkPath,
    /// Reserved: splice ratio in coefficient units.
    pub splice: Option<i32>,
    /// Reserved.
    pub edge_threshold: Option<u64>,
    /// Reserved.
    pub image_threshold: Option<u64>,
    /// Reserved: path of a mask image.
    pub image_mask: Option<String>,
    pub channel: Option<ColorChannel>,
    pub animate: Option<AnimateParams>,
    pub shuffle: bool,
    /// Seed of the generator for step sizes and shuffles; `None` seeds it
    /// from the operating system.
    pub seed: Option<u64>,
}

/// Why a sort pass did not run.
#[derive(Debug, Clone, Copy, PartialEq, Eq, Structural)]
pub enum SortError {
    /// The interval is zero, or the options conflict.
    ConfigurationError,
    /// The direction has no traversal mapping.
    UnsupportedTraversal,
    /// The pass could not run to completion: a worker of a parallel pass
    /// failed, or no seed was given and the operating system supplied none.
    WorkerFailure,
}

/// The mathematical content of an `Image`: its dimensions and its pixels in
/// row-major order.
pub struct ImageView {
    pub width: nat,
    pub height: nat,
    pub pixels: Seq<Pixel>,
}

impl ImageView {
    pub open spec fn at(self, x: int, y: int) -> Pixel {
        self.pixels[y * self.width + x]
    }

    pub open spec fn same_size(self, other: ImageView) -> bool {
        self.width == other.width && self.height == other.height
    }
}

/// A width × height grid of RGB pixels, stored row by row.
pub struct Image {
    width: u32,
    height: u32,
    pixels: Vec<Pixel>,
}

impl View for Image {
    type V = ImageView;

    closed spec fn view(&self) -> ImageView {
        ImageView { width: self.width as nat, height: self.height as nat, pixels: self.pixels@ }
    }
}

proof fn lemma_index_in_bounds(x: int, y: int, w: int, h: int)
    requires
        0 <= x < w,
        0 <= y < h,
    ensures
        0 <= y * w <= y * w + x < w * h,
{
    assert(0 <= y * w <= y * w + x < w * h) by (nonlinear_arith)
        requires
            0 <= x < w,
            0 <= y < h,
    ;
}

proof fn lemma_index_injective(x1: int, y1: int, x2: int, y2: int, w: int)
    requires
        0 <= x1 < w,
        0 <= x2 < w,
        0 <= y1,
        0 <= y2,
        y1 * w + x1 == y2 * w + x2,
    ensures
        x1 == x2 && y1 == y2,
{
    if y1 < y2 {
        assert(y1 * w + w <= y2 * w) by (nonlinear_arith)
            requires
                y1 < y2,
                w > 0,
        ;
    } else if y2 < y1 {
        assert(y2 * w + w <= y1 * w) by (nonlinear_arith)
            requires
                y2 < y1,
                w > 0,
        ;
    }
}

impl Image {
    /// The pixel count matches the dimensions.
    pub open spec fn wf(&self) -> bool {
        self@.pixels.len() == self@.width * self@.height
    }

    /// An image of the given size from its pixels in row-major order; `None`
    /// when the number of pixels is not `width * height`.
    pub fn new(width: u32, height: u32, pixels: Vec<Pixel>) -> (r: Option<Image>)
        ensures
            r is Some <==> pixels@.len() == width * height,
            r matches Some(img) ==> img.wf() && img@ == (ImageView {
                width: width as nat,
                height: height as nat,
                pixels: pixels@,
            }),
    {
        assert(width as u128 * height as u128 <= 0xffff_ffff_ffff_ffff_ffff_ffff_ffff_ffff)
            by (nonlinear_arith)
            requires
                width <= 0xffff_ffff,
                height <= 0xffff_ffff,
        ;
        if pixels.len() as u128 == width as u128 * height as u128 {
            Some(Image { width, height, pixels })
        } else {
            None
        }
    }

    pub fn width(&self) -> (r: u32)
        ensures
            r == self@.width,
    {
        self.width
    }

    pub fn height(&self) -> (r: u32)
        ensures
            r == self@.height,
    {
        self.height
    }

    /// The dimensions, as (width, height).
    pub fn dimensions(&self) -> (r: (u32, u32))
        ensures
            r.0 == self@.width && r.1 == self@.height,
    {
        (self.width, self.height)
    }

    /// The pixels in row-major order.
    pub fn pixels(&self) -> (r: &Vec<Pixel>)
        ensures
            r@ == self@.pixels,
    {
        &self.pixels
    }

    pub fn get_pixel(&self, x: u32, y: u32) -> (r: Pixel)
        requires
            self.wf(),
            x < self@.width,
            y < self@.height,
        ensures
            r == self@.at(x as int, y as int),
    {
        proof {
            lemma_index_in_bounds(x as int, y as int, self.width as int, self.height as int);
        }
        let n = self.pixels.len();
        assert((y as int) * (self.width as int) + (x as int) < n);
        self.pixels[y as usize * self.width as usize + x as usize]
    }

    pub fn put_pixel(&mut self, x: u32, y: u32, pixel: Pixel)
        requires
            old(self).wf(),
            x < old(self)@.width,
            y < old(self)@.height,
        ensures
            final(self).wf(),
            final(self)@.same_size(old(self)@),
            forall|i: int, j: int|
                0 <= i < old(self)@.width && 0 <= j < old(self)@.height
                    ==> #[trigger] final(self)@.at(i, j) == if i == x && j == y {
                    pixel
                } else {
                    old(self)@.at(i, j)
                },
    {
        proof {
            lemma_index_in_bounds(x as int, y as int, self.width as int, self.height as int);
        }
        let ghost before = self@;
        let n = self.pixels.len();
        assert((y as int) * (self.width as int) + (x as int) < n);
        let idx = y as usize * self.width as usize + x as usize;
        self.pixels.set(idx, pixel);
        proof {
            assert forall|i: int, j: int|
                0 <= i < before.width && 0 <= j < before.height implies #[trigger] self@.at(i, j)
                == if i == x && j == y {
                pixel
            } else {
                before.at(i, j)
            } by {
                lemma_index_in_bounds(i, j, before.width as int, before.height as int);
                if j * before.width + i == idx as int {
                    lemma_index_injective(i, j, x as int, y as int, before.width as int);
                }
            }
        }
    }
}

// ------------------------------------------------------------------------------------------------
// Traversal planner
/// Whether a direction has a traversal mapping.
pub open spec fn supported(dir: WalkPath) -> bool {
    dir is Horizontal || dir is Vertical
}

/// Number of lines: rows for `Horizontal`, columns for `Vertical`.
pub open spec fn outer_limit(img: ImageView, dir: WalkPath) -> nat {
    if dir is Vertical {
        img.width
    } else {
        img.height
    }
}

/// Number of pixels per line.
pub open spec fn inner_limit(img: ImageView, dir: WalkPath) -> nat {
    if dir is Vertical {
        img.height
    } else {
        img.width
    }
}

/// Whether the pixel at (x, y) lies on line `outer`.
pub open spec fn on_line(dir: WalkPath, outer: int, x: int, y: int) -> bool {
    if dir is Vertical {
        x == outer
    } else {
        y == outer
    }
}

/// The position along its line of the pixel at (x, y).
pub open spec fn inner_of(dir: WalkPath, x: int, y: int) -> int {
    if dir is Vertical {
        y
    } else {
        x
    }
}

/// The pixels of line `outer`, in inner-index order.
pub open spec fn line_of(img: ImageView, dir: WalkPath, outer: int) -> Seq<Pixel> {
    Seq::new(
        inner_limit(img, dir),
        |i: int|
            if dir is Vertical {
                img.at(outer, i)
            } else {
                img.at(i, outer)
            },
    )
}

/// (outer_limit, inner_limit) for a direction: rows of width pixels for
/// `Horizontal`, columns of height pixels for `Vertical`.
pub fn plan_traversal(direction: WalkPath, width: u32, height: u32) -> (r: Result<
    (u32, u32),
    SortError,
>)
    ensures
        r == (match direction {
            WalkPath::Horizontal => Ok((height, width)),
            WalkPath::Vertical => Ok((width, height)),
            _ => Err(SortError::UnsupportedTraversal),
        }),
{
    match direction {
        WalkPath::Horizontal => Ok((height, width)),
        WalkPath::Vertical => Ok((width, height)),
        _ => Err(SortError::UnsupportedTraversal),
    }
}

// ------------------------------------------------------------------------------------------------
// Scatter-gather writer
/// A line after writing `s` over it from index 0 on, each index past the end
/// clamped to the last one: later writes to the last pixel win.
pub open spec fn written_line(line: Seq<Pixel>, s: Seq<Pixel>) -> Seq<Pixel> {
    Seq::new(
        line.len(),
        |x: int|
            if x < line.len() - 1 {
                if x < s.len() {
                    s[x]
                } else {
                    line[x]
                }
            } else if s.len() >= line.len() {
                s[s.len() - 1]
            } else {
                line[x]
            },
    )
}

/// `after` is `before` with line `outer` replaced by `line`.
pub open spec fn replaces_line(
    before: ImageView,
    after: ImageView,
    dir: WalkPath,
    outer: int,
    line: Seq<Pixel>,
) -> bool {
    &&& after.same_size(before)
    &&& forall|x: int, y: int|
        0 <= x < before.width && 0 <= y < before.height ==> #[trigger] after.at(x, y) == if on_line(
            dir,
            outer,
            x,
            y,
        ) {
            line[inner_of(dir, x, y)]
        } else {
            before.at(x, y)
        }
}

/// Writes `pixels` along line `outer` from inner index 0, clamping indices
/// past the end of the line to its last pixel.
pub fn write_line(image: &mut Image, direction: WalkPath, outer: u32, pixels: &Vec<Pixel>)
    requires
        old(image).wf(),
        supported(direction),
        outer < outer_limit(old(image)@, direction),
    ensures
        final(image).wf(),
        replaces_line(
            old(image)@,
            final(image)@,
            direction,
            outer as int,
            written_line(line_of(old(image)@, direction, outer as int), pixels@),
        ),
{
    let ghost before = image@;
    let ghost line = line_of(before, direction, outer as int);
    let (width, height) = image.dimensions();
    let inner_len: u32 = if direction == WalkPath::Vertical {
        height
    } else {
        width
    };
    if inner_len == 0 {
        return;
    }
    let mut i: usize = 0;
    while i < pixels.len()
        invariant
            image.wf(),
            0 <= i <= pixels@.len(),
            inner_len > 0,
            inner_len == inner_limit(before, direction),
            width == before.width,
            height == before.height,
            outer < outer_limit(before, direction),
            supported(direction),
            line == line_of(before, direction, outer as int),
            replaces_line(
                before,
                image@,
                direction,
                outer as int,
                written_line(line, pixels@.take(i as int)),
            ),
        decreases pixels@.len() - i,
    {
        let inner: u32 = if i >= inner_len as usize {
            (inner_len - 1) as u32
        } else {
            i as u32
        };
        let ghost prev = image@;
        if direction == WalkPath::Vertical {
            image.put_pixel(outer, inner, pixels[i]);
        } else {
            image.put_pixel(inner, outer, pixels[i]);
        }
        proof {
            let next = written_line(line, pixels@.take(i + 1));
            let cur = written_line(line, pixels@.take(i as int));
            assert forall|x: int, y: int|
                0 <= x < before.width && 0 <= y < before.height implies #[trigger] image@.at(x, y)
                == if on_line(direction, outer as int, x, y) {
                next[inner_of(direction, x, y)]
            } else {
                before.at(x, y)
            } by {
                assert(prev.at(x, y) == if on_line(direction, outer as int, x, y) {
                    cur[inner_of(direction, x, y)]
                } else {
                    before.at(x, y)
                });
            }
        }
        i = i + 1;
    }
    proof {
        assert(pixels@.take(pixels@.len() as int) =~= pixels@);
    }
}

// ------------------------------------------------------------------------------------------------
// Randomness
#[verifier::external_type_specification]
#[verifier::external_body]
pub struct ExStdRng(StdRng);

/// Relies on rand's `SeedableRng::seed_from_u64`: a generator built from a seed.
#[verifier::external_body]
fn seeded_rng(seed: u64) -> StdRng {
    StdRng::seed_from_u64(seed)
}

/// Relies on rand's `OsRng` (`RngCore::try_fill_bytes`): eight bytes from the
/// operating system as a seed, or `None` when it cannot supply them.
#[verifier::external_body]
fn os_seed() -> Option<u64> {
    let mut bytes = [0u8; 8];
    OsRng.try_fill_bytes(&mut bytes).ok().map(|_| u64::from_le_bytes(bytes))
}

/// Relies on rand's `SliceRandom::choose`: one element of a non-empty slice.
#[verifier::external_body]
fn choose_candidate(candidates: &Vec<usize>, rng: &mut StdRng) -> (r: usize)
    requires
        candidates@.len() > 0,
    ensures
        candidates@.contains(r),
{
    *candidates.choose(rng).unwrap()
}

/// Relies on rand's `SliceRandom::shuffle`: the elements are permuted in place.
#[verifier::external_body]
fn shuffle_pixels(block: &mut Vec<Pixel>, rng: &mut StdRng)
    ensures
        final(block)@.len() == old(block)@.len(),
        final(block)@.to_multiset() == old(block)@.to_multiset(),
{
    block.shuffle(rng);
}

// ------------------------------------------------------------------------------------------------
// Interval partitioner
/// An index of a line of `n` pixels, clamped to the last one.
pub open spec fn clamp_index(i: int, n: int) -> int {
    if i < n {
        i
    } else {
        n - 1
    }
}

/// The `len` pixels of a line from `start` on, an index past the end read as
/// the last pixel.
pub open spec fn window(line: Seq<Pixel>, start: int, len: nat) -> Seq<Pixel> {
    Seq::new(len, |j: int| line[clamp_index(start + j, line.len() as int)])
}

/// Number of steps of size `step` from 0 that start inside a line of `n` pixels.
pub open spec fn block_count(n: nat, step: nat) -> nat {
    if n == 0 {
        0
    } else {
        ((n - 1) / (step as int) + 1) as nat
    }
}

/// The windows of `len` pixels gathered at 0, `step`, `2 * step`, ... of a line.
pub open spec fn gathered(line: Seq<Pixel>, step: nat, len: nat) -> Seq<Seq<Pixel>> {
    Seq::new(block_count(line.len(), step), |b: int| window(line, b * step, len))
}

proof fn lemma_block_count(n: int, step: int, b: int)
    requires
        n > 0,
        step > 0,
        b >= 1,
        (b - 1) * step < n <= b * step,
    ensures
        block_count(n as nat, step as nat) == b,
{
    let x = n - 1;
    let q = x / step;
    let r = x % step;
    vstd::arithmetic::div_mod::lemma_fundamental_div_mod(x, step);
    vstd::arithmetic::div_mod::lemma_mod_bound(x, step);
    assert(q == b - 1) by (nonlinear_arith)
        requires
            x == step * q + r,
            0 <= r < step,
            (b - 1) * step <= x < b * step,
            step > 0,
    ;
}

/// The step size of line `outer` for a drawn `base`: the base alone, or,
/// with a progressive amount `a`, `base + a + outer` clamped to `interval`.
pub open spec fn step_of(base: int, interval: int, progressive: Option<u64>, outer: int) -> int {
    match progressive {
        None => base,
        Some(a) => if base + a + outer < interval {
            base + a + outer
        } else {
            interval
        },
    }
}

/// Whether `step` is the step size of line `outer` for some base in
/// `[1, interval]`.
pub open spec fn step_allowed(step: int, interval: int, progressive: Option<u64>, outer: int) -> bool {
    exists|base: int| 1 <= base <= interval && step == #[trigger] step_of(base, interval, progressive, outer)
}

/// The step size of line `outer` for a drawn `base`.
pub fn step_from_base(base: usize, interval: usize, progressive: Option<u64>, outer: u32) -> (r: usize)
    requires
        1 <= base <= interval,
    ensures
        r == step_of(base as int, interval as int, progressive, outer as int),
        1 <= r <= interval,
{
    match progressive {
        None => base,
        Some(a) => {
            let total: u128 = base as u128 + a as u128 + outer as u128;
            if total < interval as u128 {
                total as usize
            } else {
                interval
            }
        },
    }
}

/// The step size of line `outer`: a base drawn from `candidates`, then
/// `step_from_base`.
pub fn line_step(
    candidates: &Vec<usize>,
    interval: usize,
    progressive: Option<u64>,
    outer: u32,
    rng: &mut StdRng,
) -> (r: usize)
    requires
        interval >= 1,
        candidates@ == Seq::new(interval as nat, |i: int| (i + 1) as usize),
    ensures
        1 <= r <= interval,
        step_allowed(r as int, interval as int, progressive, outer as int),
{
    let base = choose_candidate(candidates, rng);
    proof {
        let i = choose|i: int| 0 <= i < candidates@.len() && candidates@[i] == base;
        assert(1 <= base <= interval);
    }
    let r = step_from_base(base, interval, progressive, outer);
    assert(r as int == step_of(base as int, interval as int, progressive, outer as int));
    r
}

/// The candidate base steps 1, 2, ..., `interval`.
pub fn step_candidates(interval: usize) -> (r: Vec<usize>)
    ensures
        r@ == Seq::new(interval as nat, |i: int| (i + 1) as usize),
{
    let mut r: Vec<usize> = Vec::new();
    let mut i: usize = 0;
    while i < interval
        invariant
            0 <= i <= interval,
            r@ == Seq::new(i as nat, |k: int| (k + 1) as usize),
        decreases interval - i,
    {
        r.push(i + 1);
        i = i + 1;
    }
    r
}

/// Gathers the `len` pixels of line `outer` from inner index `start` on,
/// clamping indices past the end of the line to its last pixel.
fn gather_window(image: &Image, direction: WalkPath, outer: u32, start: u32, len: u64) -> (r: Vec<
    Pixel,
>)
    requires
        image.wf(),
        supported(direction),
        outer < outer_limit(image@, direction),
        start < inner_limit(image@, direction),
    ensures
        r@ == window(line_of(image@, direction, outer as int), start as int, len as nat),
{
    let ghost line = line_of(image@, direction, outer as int);
    let (width, height) = image.dimensions();
    let inner_len: u32 = if direction == WalkPath::Vertical {
        height
    } else {
        width
    };
    let last: u32 = inner_len - 1;
    let mut r: Vec<Pixel> = Vec::new();
    let mut j: u64 = 0;
    while j < len
        invariant
            image.wf(),
            supported(direction),
            0 <= j <= len,
            width == image@.width,
            height == image@.height,
            inner_len == inner_limit(image@, direction),
            last == inner_len - 1,
            start < inner_len,
            outer < outer_limit(image@, direction),
            line == line_of(image@, direction, outer as int),
            r@ == window(line, start as int, j as nat),
        decreases len - j,
    {
        let i: u32 = if j >= (last - start) as u64 {
            last
        } else {
            start + j as u32
        };
        let p = if direction == WalkPath::Vertical {
            image.get_pixel(outer, i)
        } else {
            image.get_pixel(i, outer)
        };
        r.push(p);
        proof {
            assert(r@ =~= window(line, start as int, (j + 1) as nat));
        }
        j = j + 1;
    }
    r
}

// ------------------------------------------------------------------------------------------------
// Block transformer
pub open spec fn keys_ascending(s: Seq<Pixel>, sorter: RgbSorter) -> bool {
    forall|i: int, j: int| 0 <= i < j < s.len() ==> sorter.key_of(s[i]) <= sorter.key_of(s[j])
}

pub open spec fn keys_descending(s: Seq<Pixel>, sorter: RgbSorter) -> bool {
    forall|i: int, j: int| 0 <= i < j < s.len() ==> sorter.key_of(s[i]) >= sorter.key_of(s[j])
}

/// `after` is `before` reordered: shuffled, or else sorted by key, descending
/// when `reverse` is set and ascending otherwise.
pub open spec fn reordered(
    before: Seq<Pixel>,
    after: Seq<Pixel>,
    sorter: RgbSorter,
    reverse: bool,
    shuffle: bool,
) -> bool {
    &&& after.len() == before.len()
    &&& after.to_multiset() == before.to_multiset()
    &&& !shuffle ==> if reverse {
        keys_descending(after, sorter)
    } else {
        keys_ascending(after, sorter)
    }
}

/// Relies on rayon's `ParallelSliceMut::par_sort_unstable_by_key`: the slice
/// is permuted so that the keys ascend; equal keys may come in any order.
#[verifier::external_body]
fn sort_by_score(block: &mut Vec<Pixel>, sorter: &RgbSorter)
    ensures
        final(block)@.len() == old(block)@.len(),
        final(block)@.to_multiset() == old(block)@.to_multiset(),
        keys_ascending(final(block)@, *sorter),
{
    block.par_sort_unstable_by_key(|p| sorter.key(p));
}

fn reversed(v: &Vec<Pixel>) -> (r: Vec<Pixel>)
    ensures
        r@ == v@.reverse(),
{
    let mut r: Vec<Pixel> = Vec::new();
    let mut i: usize = v.len();
    while i > 0
        invariant
            0 <= i <= v@.len(),
            r@ == v@.reverse().take(v@.len() - i),
        decreases i,
    {
        i = i - 1;
        r.push(v[i]);
        proof {
            assert(r@ =~= v@.reverse().take(v@.len() - i));
        }
    }
    proof {
        assert(v@.reverse().take(v@.len() as int) =~= v@.reverse());
    }
    r
}

/// Reorders one block: shuffles it when `shuffle` is set, else sorts it by
/// key, descending when `reverse` is set (reverse, sort, reverse again).
pub fn transform_block(
    block: &mut Vec<Pixel>,
    sorter: &RgbSorter,
    reverse: bool,
    shuffle: bool,
    rng: &mut StdRng,
)
    ensures
        reordered(old(block)@, final(block)@, *sorter, reverse, shuffle),
{
    if shuffle {
        shuffle_pixels(block, rng);
    } else if reverse {
        let mut s = reversed(block);
        let ghost a = s@;
        sort_by_score(&mut s, sorter);
        let d = reversed(&s);
        proof {
            old(block)@.lemma_reverse_to_multiset();
            s@.lemma_reverse_to_multiset();
            assert forall|i: int, j: int| 0 <= i < j < d@.len() implies sorter.key_of(d@[i])
                >= sorter.key_of(d@[j]) by {
                assert(d@[i] == s@[s@.len() - 1 - i]);
                assert(d@[j] == s@[s@.len() - 1 - j]);
            }
        }
        *block = d;
    } else {
        sort_by_score(block, sorter);
    }
}

// ------------------------------------------------------------------------------------------------
// One line
pub open spec fn blocks_view(blocks: Seq<Vec<Pixel>>) -> Seq<Seq<Pixel>> {
    blocks.map_values(|v: Vec<Pixel>| v@)
}

/// Each block is its window reordered.
pub open spec fn blocks_reordered(
    windows: Seq<Seq<Pixel>>,
    blocks: Seq<Seq<Pixel>>,
    sorter: RgbSorter,
    reverse: bool,
    shuffle: bool,
) -> bool {
    &&& blocks.len() == windows.len()
    &&& forall|b: int|
        0 <= b < blocks.len() ==> #[trigger] reordered(
            windows[b],
            blocks[b],
            sorter,
            reverse,
            shuffle,
        )
}

/// The sorter that options describe.
pub open spec fn sorter_of(options: SortOptions) -> RgbSorter {
    RgbSorter { by: options.by, coefficients: options.coefficients, channel: options.channel }
}

/// Gathers the windows of line `outer` at steps of `step` and reorders each.
pub fn sort_line(
    image: &Image,
    options: &SortOptions,
    sorter: &RgbSorter,
    outer: u32,
    step: usize,
    rng: &mut StdRng,
) -> (r: Vec<Vec<Pixel>>)
    requires
        image.wf(),
        supported(options.direction),
        outer < outer_limit(image@, options.direction),
        step >= 1,
    ensures
        blocks_reordered(
            gathered(
                line_of(image@, options.direction, outer as int),
                step as nat,
                options.discretize as nat,
            ),
            blocks_view(r@),
            *sorter,
            options.reverse,
            options.shuffle,
        ),
{
    let ghost line = line_of(image@, options.direction, outer as int);
    let ghost windows = gathered(line, step as nat, options.discretize as nat);
    let (width, height) = image.dimensions();
    let n: usize = if options.direction == WalkPath::Vertical {
        height as usize
    } else {
        width as usize
    };
    let mut blocks: Vec<Vec<Pixel>> = Vec::new();
    if n == 0 {
        proof {
            assert(blocks_view(blocks@) =~= Seq::<Seq<Pixel>>::empty());
        }
        return blocks;
    }
    let mut start: usize = 0;
    loop
        invariant_except_break
            start == blocks@.len() * step,
        invariant
            image.wf(),
            supported(options.direction),
            outer < outer_limit(image@, options.direction),
            n == inner_limit(image@, options.direction),
            n > 0,
            step >= 1,
            start < n,
            line == line_of(image@, options.direction, outer as int),
            forall|b: int|
                0 <= b < blocks@.len() ==> #[trigger] reordered(
                    window(line, b * step, options.discretize as nat),
                    blocks@[b]@,
                    *sorter,
                    options.reverse,
                    options.shuffle,
                ),
        ensures
            blocks@.len() >= 1,
            (blocks@.len() - 1) * step < n <= blocks@.len() * step,
            forall|b: int|
                0 <= b < blocks@.len() ==> #[trigger] reordered(
                    window(line, b * step, options.discretize as nat),
                    blocks@[b]@,
                    *sorter,
                    options.reverse,
                    options.shuffle,
                ),
        decreases n - start,
    {
        let mut block = gather_window(
            image,
            options.direction,
            outer,
            start as u32,
            options.discretize,
        );
        transform_block(&mut block, sorter, options.reverse, options.shuffle, rng);
        let ghost b = blocks@.len();
        blocks.push(block);
        proof {
            assert(b * step + step == (b + 1) * step) by (nonlinear_arith);
        }
        if step >= n - start {
            break ;
        }
        start = start + step;
    }
    proof {
        lemma_block_count(n as int, step as int, blocks@.len() as int);
        assert forall|b: int| 0 <= b < blocks@.len() implies #[trigger] reordered(
            windows[b],
            blocks_view(blocks@)[b],
            *sorter,
            options.reverse,
            options.shuffle,
        ) by {
            assert(reordered(
                window(line, b * step, options.discretize as nat),
                blocks@[b]@,
                *sorter,
                options.reverse,
                options.shuffle,
            ));
        }
    }
    blocks
}

/// The blocks of a line concatenated in order.
pub fn join_blocks(blocks: &Vec<Vec<Pixel>>) -> (r: Vec<Pixel>)
    ensures
        r@ == blocks_view(blocks@).flatten(),
{
    let mut r: Vec<Pixel> = Vec::new();
    let mut b: usize = 0;
    while b < blocks.len()
        invariant
            0 <= b <= blocks@.len(),
            r@ == blocks_view(blocks@).take(b as int).flatten(),
        decreases blocks@.len() - b,
    {
        let block = &blocks[b];
        let mut j: usize = 0;
        let ghost base = r@;
        while j < block.len()
            invariant
                0 <= j <= block@.len(),
                r@ == base + block@.take(j as int),
            decreases block@.len() - j,
        {
            r.push(block[j]);
            proof {
                assert(r@ =~= base + block@.take(j + 1));
            }
            j = j + 1;
        }
        proof {
            let bv = blocks_view(blocks@);
            assert(block@.take(block@.len() as int) =~= block@);
            assert(bv.take(b + 1) =~= bv.take(b as int).push(bv[b as int]));
            bv.take(b as int).lemma_flatten_push(bv[b as int]);
        }
        b = b + 1;
    }
    proof {
        assert(blocks_view(blocks@).take(blocks@.len() as int) =~= blocks_view(blocks@));
    }
    r
}

// ------------------------------------------------------------------------------------------------
// A sort pass
/// `after` is line `before` with its windows reordered and written back.
pub open spec fn line_sorted(
    before: Seq<Pixel>,
    after: Seq<Pixel>,
    step: nat,
    options: SortOptions,
) -> bool {
    exists|blocks: Seq<Seq<Pixel>>|
        #[trigger] blocks_reordered(
            gathered(before, step, options.discretize as nat),
            blocks,
            sorter_of(options),
            options.reverse,
            options.shuffle,
        ) && after == written_line(before, blocks.flatten())
}

/// Line `outer` of `after` is that of `before` sorted with an allowed step.
pub open spec fn line_done(before: ImageView, after: ImageView, options: SortOptions, outer: int) -> bool {
    exists|step: nat|
        step_allowed(step as int, options.interval as int, options.progressive_amount, outer)
            && #[trigger] line_sorted(
            line_of(before, options.direction, outer),
            line_of(after, options.direction, outer),
            step,
            options,
        )
}

/// Whether the options can drive a pass: a positive interval, and channel
/// isolation only with a score function that supports it.
pub open spec fn options_valid(options: SortOptions) -> bool {
    options.interval >= 1 && channel_supported(options.by, options.channel)
}

proof fn lemma_replaced_lines(
    before: ImageView,
    after: ImageView,
    dir: WalkPath,
    outer: int,
    line: Seq<Pixel>,
)
    requires
        supported(dir),
        0 <= outer < outer_limit(before, dir),
        line.len() == inner_limit(before, dir),
        replaces_line(before, after, dir, outer, line),
    ensures
        line_of(after, dir, outer) == line,
        forall|o: int|
            0 <= o < outer_limit(before, dir) && o != outer ==> #[trigger] line_of(after, dir, o)
                == line_of(before, dir, o),
{
    assert(line_of(after, dir, outer) =~= line);
    assert forall|o: int| 0 <= o < outer_limit(before, dir) && o != outer implies #[trigger] line_of(
        after,
        dir,
        o,
    ) == line_of(before, dir, o) by {
        assert(line_of(after, dir, o) =~= line_of(before, dir, o));
    }
}

/// What a pass needs besides the image: the bound sorter, the number of
/// lines, and the candidate base steps.
pub struct PassPlan {
    pub sorter: RgbSorter,
    pub outer_limit: u32,
    pub candidates: Vec<usize>,
}

/// The number of lines of a `width` × `height` image along `dir`.
pub open spec fn lines_of_size(dir: WalkPath, width: nat, height: nat) -> nat {
    if dir is Vertical {
        width
    } else {
        height
    }
}

/// Checks the options and plans a pass over a `width` × `height` image.
///
/// Fails with `UnsupportedTraversal` for a direction without a mapping, and
/// else with a configuration error when the interval is zero or channel
/// isolation is asked of hue or saturation.
pub fn plan_pass(options: &SortOptions, width: u32, height: u32) -> (r: Result<PassPlan, SortError>)
    ensures
        !supported(options.direction) ==> (r matches Err(e) && e
            == SortError::UnsupportedTraversal),
        supported(options.direction) && !options_valid(*options) ==> (r matches Err(e) && e
            == SortError::ConfigurationError),
        options_valid(*options) && supported(options.direction) ==> r is Ok,
        r matches Ok(plan) ==> {
            &&& options_valid(*options)
            &&& supported(options.direction)
            &&& plan.sorter == sorter_of(*options)
            &&& plan.outer_limit == lines_of_size(options.direction, width as nat, height as nat)
            &&& plan.candidates@ == Seq::new(options.interval as nat, |i: int| (i + 1) as usize)
        },
{
    let (outer_limit, _inner_limit) = match plan_traversal(options.direction, width, height) {
        Ok(limits) => limits,
        Err(e) => return Err(e),
    };
    let sorter = match options.by.into_rgb_sorter(options.coefficients, options.channel) {
        Some(s) => s,
        None => return Err(SortError::ConfigurationError),
    };
    if options.interval == 0 {
        return Err(SortError::ConfigurationError);
    }
    let candidates = step_candidates(options.interval);
    Ok(PassPlan { sorter, outer_limit, candidates })
}

/// The seed of a pass: the one given, else one drawn from the operating
/// system, or `None` when it supplies none.
pub fn pass_seed(seed: Option<u64>) -> (r: Option<u64>)
    ensures
        seed is Some ==> r == seed,
{
    match seed {
        Some(s) => Some(s),
        None => os_seed(),
    }
}

/// The generator for line `outer`, seeded from the pass seed and the line
/// index. Lines draw independently, so a pass gives the same result whatever
/// order its lines run in.
pub fn line_rng(seed: u64, outer: u32) -> StdRng {
    seeded_rng(seed ^ (outer as u64))
}

/// Sorts the pixels of `image` along the lines of `options.direction`.
///
/// Fails, leaving the image as it was, with `UnsupportedTraversal` for a
/// direction without a mapping, and else with a configuration error when the
/// interval is zero or channel isolation is asked of hue or saturation, and
/// else, when no seed is given and the operating system supplies none, with
/// `WorkerFailure`. On success every line is its windows, reordered, written
/// back over it.
pub fn sort(image: &mut Image, options: &SortOptions) -> (r: Result<(), SortError>)
    requires
        old(image).wf(),
    ensures
        final(image).wf(),
        pass_outcome(old(image)@, final(image)@, *options, r),
{
    let (width, height) = image.dimensions();
    let plan = match plan_pass(options, width, height) {
        Ok(plan) => plan,
        Err(e) => return Err(e),
    };
    let sorter = plan.sorter;
    let outer_len = plan.outer_limit;
    let candidates = plan.candidates;
    let direction = options.direction;
    let seed = match pass_seed(options.seed) {
        Some(s) => s,
        None => return Err(SortError::WorkerFailure),
    };
    let ghost before = image@;
    let mut outer: u32 = 0;
    while outer < outer_len
        invariant
            image.wf(),
            image@.same_size(before),
            supported(direction),
            direction == options.direction,
            options_valid(*options),
            sorter == sorter_of(*options),
            outer_len == outer_limit(before, direction),
            0 <= outer <= outer_len,
            candidates@ == Seq::new(options.interval as nat, |i: int| (i + 1) as usize),
            forall|o: int|
                0 <= o < outer ==> #[trigger] line_done(before, image@, *options, o),
            forall|o: int|
                outer <= o < outer_len ==> #[trigger] line_of(image@, direction, o) == line_of(
                    before,
                    direction,
                    o,
                ),
        decreases outer_len - outer,
    {
        let mut rng = line_rng(seed, outer);
        let step = line_step(
            &candidates,
            options.interval,
            options.progressive_amount,
            outer,
            &mut rng,
        );
        let ghost cur = image@;
        let ghost line = line_of(before, direction, outer as int);
        assert(line_of(cur, direction, outer as int) == line);
        let blocks = sort_line(image, options, &sorter, outer, step, &mut rng);
        let joined = join_blocks(&blocks);
        write_line(image, direction, outer, &joined);
        proof {
            let written = written_line(line, joined@);
            lemma_replaced_lines(cur, image@, direction, outer as int, written);
            let bv = blocks_view(blocks@);
            assert(blocks_reordered(
                gathered(line, step as nat, options.discretize as nat),
                bv,
                sorter_of(*options),
                options.reverse,
                options.shuffle,
            ));
            assert(line_sorted(line, line_of(image@, direction, outer as int), step as nat, *options));
            assert(line_done(before, image@, *options, outer as int));
            assert forall|o: int| 0 <= o < outer + 1 implies #[trigger] line_done(
                before,
                image@,
                *options,
                o,
            ) by {
                if o < outer {
                    assert(line_done(before, cur, *options, o));
                    assert(line_of(image@, direction, o) == line_of(cur, direction, o));
                }
            }
            assert forall|o: int| outer + 1 <= o < outer_len implies #[trigger] line_of(
                image@,
                direction,
                o,
            ) == line_of(before, direction, o) by {
                assert(line_of(image@, direction, o) == line_of(cur, direction, o));
                assert(line_of(cur, direction, o) == line_of(before, direction, o));
            }
        }
        outer = outer + 1;
    }
    Ok(())
}

/// What a sort pass promises: the result, and the image it leaves.
pub open spec fn pass_outcome(
    before: ImageView,
    after: ImageView,
    options: SortOptions,
    r: Result<(), SortError>,
) -> bool {
    &&& after.same_size(before)
    &&& !supported(options.direction) ==> r == Err::<(), SortError>(
        SortError::UnsupportedTraversal,
    )
    &&& supported(options.direction) && !options_valid(options) ==> r == Err::<(), SortError>(
        SortError::ConfigurationError,
    )
    &&& options_valid(options) && supported(options.direction) ==> (r is Ok || r
        == Err::<(), SortError>(SortError::WorkerFailure))
    &&& r == Err::<(), SortError>(SortError::WorkerFailure) ==> options.seed is None
    &&& options_valid(options) && supported(options.direction) && options.seed is Some ==> r is Ok
    &&& r is Err ==> after == before
    &&& r is Ok ==> forall|o: int|
        0 <= o < outer_limit(before, options.direction) ==> #[trigger] line_done(
            before,
            after,
            options,
            o,
        )
}

/// Pixel sorting for an image type.
pub trait PixelSort: Sized {
    /// Whether the image can be sorted.
    spec fn sortable(&self) -> bool;

    /// Whether `self` is what a pass with `options` that returned `r` leaves
    /// of `before`.
    spec fn sorted_from(&self, before: &Self, options: SortOptions, r: Result<(), SortError>) -> bool;

    /// Sorts the pixels with the given options.
    fn sort_rgb8_pixels(&mut self, options: SortOptions) -> (r: Result<(), SortError>)
        requires
            old(self).sortable(),
        ensures
            final(self).sortable(),
            final(self).sorted_from(old(self), options, r),
    ;
}

impl PixelSort for Image {
    open spec fn sortable(&self) -> bool {
        self.wf()
    }

    open spec fn sorted_from(&self, before: &Self, options: SortOptions, r: Result<(), SortError>) -> bool {
        pass_outcome(before@, self@, options, r)
    }

    fn sort_rgb8_pixels(&mut self, options: SortOptions) -> (r: Result<(), SortError>) {
        sort(self, &options)
    }
}

} // verus!
