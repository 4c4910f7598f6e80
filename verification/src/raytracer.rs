//! The accumulation buffer (a dense row-major array of RGBA accumulators),
//! the chunked per-pixel accumulation pass, averaging, byte export, and the
//! driver that runs a whole render.
use crate::fixed::{
    div_trunc, lemma_tdiv_exact, lemma_tdiv_pos_bounds, lemma_tdiv_shrinks, tdiv, SCALE,
};
use crate::raytracer::scene::{
    camera_wf, lemma_spec_fire_ray_wf, lemma_spec_ray_color_unit, spec_fire_ray, spec_ray_color,
    Scene,
};
use vstd::prelude::*;

pub mod scene;

verus! {

/// Configuration errors, rejected before any rendering work begins.
#[derive(Clone, Copy, Debug, PartialEq, Eq, Structural)]
pub enum RenderError {
    /// Averaging over zero iterations would divide by zero.
    ZeroIterations,
}

/// One RGBA accumulator: linear fixed-point color channels plus alpha.
#[derive(Clone, Copy, Debug, PartialEq, Eq, Structural)]
pub struct Rgba {
    pub r: i64,
    pub g: i64,
    pub b: i64,
    pub a: i64,
}

/// The all-zero accumulator.
pub open spec fn rgba_zero() -> Rgba {
    Rgba { r: 0, g: 0, b: 0, a: 0 }
}

/// All four channels lie in the fixed-point unit interval `[0, SCALE]`.
pub open spec fn rgba_unit(c: Rgba) -> bool {
    &&& 0 <= c.r <= SCALE
    &&& 0 <= c.g <= SCALE
    &&& 0 <= c.b <= SCALE
    &&& 0 <= c.a <= SCALE
}

/// Channels are nonnegative with room to absorb one more unit sample.
pub open spec fn rgba_headroom(c: Rgba) -> bool {
    &&& 0 <= c.r && c.r + SCALE <= i64::MAX
    &&& 0 <= c.g && c.g + SCALE <= i64::MAX
    &&& 0 <= c.b && c.b + SCALE <= i64::MAX
    &&& 0 <= c.a && c.a + SCALE <= i64::MAX
}

/// All four channels are nonnegative.
pub open spec fn rgba_nonneg(c: Rgba) -> bool {
    &&& 0 <= c.r
    &&& 0 <= c.g
    &&& 0 <= c.b
    &&& 0 <= c.a
}

/// Componentwise sum.
pub open spec fn rgba_add(p: Rgba, c: Rgba) -> Rgba {
    Rgba {
        r: (p.r + c.r) as i64,
        g: (p.g + c.g) as i64,
        b: (p.b + c.b) as i64,
        a: (p.a + c.a) as i64,
    }
}

/// Componentwise scaling by an iteration count.
pub open spec fn rgba_scale(n: int, c: Rgba) -> Rgba {
    Rgba { r: (n * c.r) as i64, g: (n * c.g) as i64, b: (n * c.b) as i64, a: (n * c.a) as i64 }
}

/// Componentwise truncating division by an iteration count.
pub open spec fn rgba_div(c: Rgba, n: int) -> Rgba {
    Rgba {
        r: tdiv(c.r as int, n) as i64,
        g: tdiv(c.g as int, n) as i64,
        b: tdiv(c.b as int, n) as i64,
        a: tdiv(c.a as int, n) as i64,
    }
}

/// A pure per-pixel color rule. The accumulation buffer depends only on this
/// interface, so the camera and scene stay decoupled from the buffer and the
/// pass can be driven with any injected shader.
pub trait PixelShader {
    /// The pixel domain on which the shader may be invoked.
    spec fn valid(&self, x: int, y: int) -> bool;

    /// The color of pixel (x, y), a function of the pixel alone.
    spec fn color_spec(&self, x: int, y: int) -> Rgba;

    /// Compute the color of pixel (x, y): deterministic, channels within the
    /// fixed-point unit interval.
    fn pixel_color(&self, x: usize, y: usize) -> (c: Rgba)
        requires
            self.valid(x as int, y as int),
        ensures
            c == self.color_spec(x as int, y as int),
            rgba_unit(c);
}

impl PixelShader for Scene {
    open spec fn valid(&self, x: int, y: int) -> bool {
        &&& camera_wf(self.camera)
        &&& 0 <= x < self.camera.width
        &&& 0 <= y < self.camera.height
    }

    open spec fn color_spec(&self, x: int, y: int) -> Rgba {
        let c = spec_ray_color(spec_fire_ray(self.camera, x, y));
        Rgba { r: c.x, g: c.y, b: c.z, a: SCALE }
    }

    fn pixel_color(&self, x: usize, y: usize) -> (c: Rgba) {
        proof {
            lemma_spec_fire_ray_wf(self.camera, x as int, y as int);
        }
        let ray = self.fire_ray(x, y);
        let col = ray.color();
        Rgba { r: col.x, g: col.y, b: col.z, a: SCALE }
    }
}

/// The scene's shader output has unit channels on its whole pixel domain.
pub proof fn lemma_scene_color_unit(s: Scene, x: int, y: int)
    requires
        camera_wf(s.camera),
        0 <= x < s.camera.width,
        0 <= y < s.camera.height,
    ensures
        rgba_unit(s.color_spec(x, y)),
{
    lemma_spec_fire_ray_wf(s.camera, x, y);
    lemma_spec_ray_color_unit(spec_fire_ray(s.camera, x, y));
}

/// Size of each contiguous chunk of the flattened pixel array handed to one
/// worker: `total / workers + 1`.
pub open spec fn spec_chunk_size(total: int, workers: int) -> int {
    total / workers + 1
}

/// Split `[0, total)` into contiguous chunks of `spec_chunk_size` indices
/// (the last chunk possibly shorter). The postconditions pin every chunk's
/// bounds, so together with `lemma_chunks_cover` and `lemma_chunks_disjoint`
/// the ranges partition the index space exactly.
pub fn chunk_bounds(total: usize, workers: usize) -> (r: Vec<(usize, usize)>)
    requires
        1 <= workers,
        2 * total < usize::MAX,
    ensures
        ({
            let cs = spec_chunk_size(total as int, workers as int);
            &&& 1 <= cs
            &&& forall|j: int|
                0 <= j < r@.len() ==> (#[trigger] r@[j]).0 == j * cs && r@[j].1 == (if (j + 1) * cs
                    <= total {
                    (j + 1) * cs
                } else {
                    total as int
                }) && j * cs < total
            &&& forall|j: int| 0 <= j < r@.len() ==> (#[trigger] r@[j]).0 < r@[j].1 <= total
            &&& r@.len() * cs >= total
            &&& (total == 0 ==> r@.len() == 0)
            &&& (total > 0 ==> r@.len() >= 1)
        }),
{
    proof {
        lemma_tdiv_pos_bounds(total as int, workers as int);
        lemma_tdiv_shrinks(total as int, workers as int);
    }
    let cs: usize = total / workers + 1;
    let mut r: Vec<(usize, usize)> = Vec::new();
    let mut start: usize = 0;
    proof {
        assert(0 * (cs as int) == 0) by (nonlinear_arith);
    }
    while start < total
        invariant
            cs == spec_chunk_size(total as int, workers as int),
            1 <= cs <= total + 1,
            2 * total < usize::MAX,
            start == r@.len() * cs,
            total == 0 ==> r@.len() == 0,
            forall|j: int|
                0 <= j < r@.len() ==> (#[trigger] r@[j]).0 == j * cs && r@[j].1 == (if (j + 1) * cs
                    <= total {
                    (j + 1) * cs
                } else {
                    total as int
                }) && j * cs < total,
            forall|j: int| 0 <= j < r@.len() ==> (#[trigger] r@[j]).0 < r@[j].1 <= total,
        decreases total + cs - start,
    {
        proof {
            assert((r@.len() + 1) * cs == r@.len() * cs + cs) by (nonlinear_arith);
        }
        let next: usize = start + cs;
        let end: usize = if next <= total {
            next
        } else {
            total
        };
        r.push((start, end));
        start = next;
    }
    proof {
        if total > 0 && r@.len() == 0 {
            assert(start == 0 * cs);
            assert(start == 0) by (nonlinear_arith)
                requires
                    start == 0 * cs,
            ;
        }
    }
    r
}

/// Law (partition coverage): every pixel index below `total` lies in the
/// chunk numbered `idx / chunk_size`, whose range contains it.
pub proof fn lemma_chunks_cover(total: int, workers: int, idx: int)
    requires
        1 <= workers,
        0 <= idx < total,
    ensures
        ({
            let cs = spec_chunk_size(total, workers);
            let j = idx / cs;
            &&& 0 <= j
            &&& j * cs <= idx < j * cs + cs
            &&& j * cs < total
        }),
{
    lemma_tdiv_pos_bounds(total, workers);
    let cs = spec_chunk_size(total, workers);
    lemma_tdiv_pos_bounds(idx, cs);
    assert(idx / cs == tdiv(idx, cs));
    let j = idx / cs;
    assert((j + 1) * cs == j * cs + cs) by (nonlinear_arith);
}

/// Law (partition disjointness): no pixel index lies in two distinct chunks.
pub proof fn lemma_chunks_disjoint(total: int, workers: int, j1: int, j2: int, idx: int)
    requires
        1 <= workers,
        0 <= total,
        0 <= j1,
        0 <= j2,
        j1 * spec_chunk_size(total, workers) <= idx < j1 * spec_chunk_size(total, workers)
            + spec_chunk_size(total, workers),
        j2 * spec_chunk_size(total, workers) <= idx < j2 * spec_chunk_size(total, workers)
            + spec_chunk_size(total, workers),
    ensures
        j1 == j2,
{
    lemma_tdiv_pos_bounds(total, workers);
    let cs = spec_chunk_size(total, workers);
    assert(j1 == j2) by (nonlinear_arith)
        requires
            1 <= cs,
            0 <= j1,
            0 <= j2,
            j1 * cs <= idx < j1 * cs + cs,
            j2 * cs <= idx < j2 * cs + cs,
    ;
}

/// Row-major pixel decomposition: an index below `w * h` splits into a
/// column `i % w` and a row `i / w`, both in bounds.
pub proof fn lemma_index_xy(i: int, w: int, h: int)
    requires
        0 <= i,
        1 <= w,
        1 <= h,
        i < w * h,
    ensures
        0 <= i % w < w,
        0 <= i / w < h,
        (i / w) * w + (i % w) == i,
{
    assert(0 <= i % w < w && 0 <= i / w && (i / w) * w + (i % w) == i && i / w < h)
        by (nonlinear_arith)
        requires
            0 <= i,
            1 <= w,
            1 <= h,
            i < w * h,
    {
        vstd::arithmetic::div_mod::lemma_fundamental_div_mod(i, w);
    }
}

/// The accumulation buffer: one RGBA accumulator per pixel, row-major,
/// indexed by `y * width + x`. Channels are summed across iterations and
/// divided once by the iteration count at the end.
pub struct Image {
    pub pixels: Vec<Rgba>,
    pub width: u32,
    pub height: u32,
}

impl Image {
    /// The buffer invariant: positive extent, exactly one accumulator per
    /// pixel, and a total small enough that byte export cannot overflow a
    /// `usize`.
    pub open spec fn wf(self) -> bool {
        &&& 1 <= self.width
        &&& 1 <= self.height
        &&& self.pixels@.len() == (self.width as int) * (self.height as int)
        &&& 4 * self.pixels@.len() <= usize::MAX
    }

    /// Allocate a zero-initialized buffer.
    pub fn new(width: u32, height: u32) -> (im: Image)
        requires
            1 <= width,
            1 <= height,
            (width as int) * (height as int) <= u32::MAX,
            4 * ((width as int) * (height as int)) <= usize::MAX,
        ensures
            im.wf(),
            im.width == width,
            im.height == height,
            forall|i: int| 0 <= i < im.pixels@.len() ==> #[trigger] im.pixels@[i] == rgba_zero(),
    {
        let total: usize = (width as usize) * (height as usize);
        let mut pixels: Vec<Rgba> = Vec::new();
        let mut i: usize = 0;
        while i < total
            invariant
                i <= total,
                pixels@.len() == i,
                forall|k: int| 0 <= k < i ==> #[trigger] pixels@[k] == rgba_zero(),
            decreases total - i,
        {
            pixels.push(Rgba { r: 0, g: 0, b: 0, a: 0 });
            i = i + 1;
        }
        Image { pixels, width, height }
    }

    /// Read the accumulator of pixel (x, y).
    pub fn get(&self, x: u32, y: u32) -> (c: Rgba)
        requires
            self.wf(),
            x < self.width,
            y < self.height,
        ensures
            c == self.pixels@[(y as int) * (self.width as int) + (x as int)],
    {
        proof {
            assert((y as int) * (self.width as int) + (x as int) < (self.width as int) * (
            self.height as int)) by (nonlinear_arith)
                requires
                    x < self.width,
                    y < self.height,
                    1 <= self.width,
            ;
        }
        let idx: usize = (y as usize) * (self.width as usize) + (x as usize);
        self.pixels[idx]
    }

    /// Add one color sample into pixel (x, y) in place.
    pub fn add_sample(&mut self, x: u32, y: u32, c: Rgba)
        requires
            old(self).wf(),
            x < old(self).width,
            y < old(self).height,
            rgba_unit(c),
            rgba_headroom(
                old(self).pixels@[(y as int) * (old(self).width as int) + (x as int)],
            ),
        ensures
            final(self).wf(),
            final(self).width == old(self).width,
            final(self).height == old(self).height,
            final(self).pixels@ == old(self).pixels@.update(
                (y as int) * (old(self).width as int) + (x as int),
                rgba_add(old(self).pixels@[(y as int) * (old(self).width as int) + (x as int)], c),
            ),
    {
        proof {
            assert((y as int) * (self.width as int) + (x as int) < (self.width as int) * (
            self.height as int)) by (nonlinear_arith)
                requires
                    x < self.width,
                    y < self.height,
                    1 <= self.width,
            ;
        }
        let idx: usize = (y as usize) * (self.width as usize) + (x as usize);
        let p = self.pixels[idx];
        self.pixels[idx] = Rgba { r: p.r + c.r, g: p.g + c.g, b: p.b + c.b, a: p.a + c.a };
    }

    /// Accumulate one contiguous index range: for each index in
    /// `[start, end)`, add the shader's color for `(i % width, i / width)`
    /// into pixel `i`. Pixels outside the range are untouched.
    fn accumulate_range<SH: PixelShader>(&mut self, start: usize, end: usize, shader: &SH)
        requires
            old(self).wf(),
            start <= end <= old(self).pixels@.len(),
            forall|x: int, y: int|
                0 <= x < old(self).width && 0 <= y < old(self).height ==> shader.valid(x, y),
            forall|i: int| start <= i < end ==> rgba_headroom(#[trigger] old(self).pixels@[i]),
        ensures
            final(self).wf(),
            final(self).width == old(self).width,
            final(self).height == old(self).height,
            final(self).pixels@.len() == old(self).pixels@.len(),
            forall|i: int|
                start <= i < end ==> #[trigger] final(self).pixels@[i] == rgba_add(
                    old(self).pixels@[i],
                    shader.color_spec(
                        i % (old(self).width as int),
                        i / (old(self).width as int),
                    ),
                ),
            forall|i: int|
                0 <= i < old(self).pixels@.len() && !(start <= i < end)
                    ==> #[trigger] final(self).pixels@[i] == old(self).pixels@[i],
    {
        let w: u32 = self.width;
        let mut i: usize = start;
        while i < end
            invariant
                self.wf(),
                self.width == old(self).width,
                self.height == old(self).height,
                self.pixels@.len() == old(self).pixels@.len(),
                w == self.width,
                start <= i <= end <= self.pixels@.len(),
                forall|x: int, y: int|
                    0 <= x < self.width && 0 <= y < self.height ==> shader.valid(x, y),
                forall|k: int| i <= k < end ==> rgba_headroom(#[trigger] old(self).pixels@[k]),
                forall|k: int|
                    start <= k < i ==> #[trigger] self.pixels@[k] == rgba_add(
                        old(self).pixels@[k],
                        shader.color_spec(
                            k % (old(self).width as int),
                            k / (old(self).width as int),
                        ),
                    ),
                forall|k: int|
                    0 <= k < self.pixels@.len() && !(start <= k < i) ==> #[trigger] self.pixels@[k]
                        == old(self).pixels@[k],
            decreases end - i,
        {
            proof {
                lemma_index_xy(i as int, w as int, self.height as int);
            }
            let x: usize = i % (w as usize);
            let y: usize = i / (w as usize);
            let c = shader.pixel_color(x, y);
            let p = self.pixels[i];
            self.pixels[i] = Rgba { r: p.r + c.r, g: p.g + c.g, b: p.b + c.b, a: p.a + c.a };
            i = i + 1;
        }
    }

    /// One full-frame pass: partition the flat pixel index space into
    /// contiguous chunks (about one per worker) and accumulate the shader's
    /// color into every pixel exactly once. The chunk ranges are disjoint and
    /// cover the array, which is what makes the pass safe to execute with one
    /// concurrent task per chunk.
    pub fn run_iteration<SH: PixelShader>(&mut self, shader: &SH, workers: usize)
        requires
            old(self).wf(),
            1 <= workers,
            forall|x: int, y: int|
                0 <= x < old(self).width && 0 <= y < old(self).height ==> shader.valid(x, y),
            forall|i: int|
                0 <= i < old(self).pixels@.len() ==> rgba_headroom(#[trigger] old(self).pixels@[i]),
        ensures
            final(self).wf(),
            final(self).width == old(self).width,
            final(self).height == old(self).height,
            final(self).pixels@.len() == old(self).pixels@.len(),
            forall|i: int|
                0 <= i < old(self).pixels@.len() ==> #[trigger] final(self).pixels@[i] == rgba_add(
                    old(self).pixels@[i],
                    shader.color_spec(
                        i % (old(self).width as int),
                        i / (old(self).width as int),
                    ),
                ),
    {
        let total: usize = self.pixels.len();
        let chunks = chunk_bounds(total, workers);
        let ghost cs = spec_chunk_size(total as int, workers as int);
        let mut ci: usize = 0;
        proof {
            assert(0 * cs == 0) by (nonlinear_arith);
        }
        while ci < chunks.len()
            invariant
                self.wf(),
                self.width == old(self).width,
                self.height == old(self).height,
                self.pixels@.len() == old(self).pixels@.len(),
                total == self.pixels@.len(),
                cs == spec_chunk_size(total as int, workers as int),
                1 <= cs,
                ci <= chunks@.len(),
                chunks@.len() * cs >= total,
                forall|j: int|
                    0 <= j < chunks@.len() ==> (#[trigger] chunks@[j]).0 == j * cs
                        && chunks@[j].1 == (if (j + 1) * cs <= total {
                        (j + 1) * cs
                    } else {
                        total as int
                    }) && j * cs < total,
                forall|j: int| 0 <= j < chunks@.len() ==> (#[trigger] chunks@[j]).0 < chunks@[j].1
                    <= total,
                forall|x: int, y: int|
                    0 <= x < self.width && 0 <= y < self.height ==> shader.valid(x, y),
                forall|i: int|
                    0 <= i < total ==> rgba_headroom(#[trigger] old(self).pixels@[i]),
                forall|k: int|
                    0 <= k < processed_upto(ci as int, cs, total as int)
                        ==> #[trigger] self.pixels@[k] == rgba_add(
                        old(self).pixels@[k],
                        shader.color_spec(
                            k % (old(self).width as int),
                            k / (old(self).width as int),
                        ),
                    ),
                forall|k: int|
                    processed_upto(ci as int, cs, total as int) <= k < total
                        ==> #[trigger] self.pixels@[k] == old(self).pixels@[k],
            decreases chunks@.len() - ci,
        {
            let pair = chunks[ci];
            let s: usize = pair.0;
            let e: usize = pair.1;
            proof {
                assert((ci as int + 1) * cs == ci as int * cs + cs) by (nonlinear_arith);
                assert(processed_upto(ci as int, cs, total as int) == s);
            }
            self.accumulate_range(s, e, shader);
            ci = ci + 1;
            proof {
                assert(processed_upto(ci as int, cs, total as int) == e);
            }
        }
        proof {
            assert(processed_upto(chunks@.len() as int, cs, total as int) == total);
        }
    }

    /// Divide every accumulator channel by the iteration count, exactly once,
    /// after the last iteration: the per-pixel average of the summed samples.
    pub fn finalize(&mut self, iterations: u32)
        requires
            old(self).wf(),
            1 <= iterations,
            forall|i: int|
                0 <= i < old(self).pixels@.len() ==> rgba_nonneg(#[trigger] old(self).pixels@[i]),
        ensures
            final(self).wf(),
            final(self).width == old(self).width,
            final(self).height == old(self).height,
            final(self).pixels@.len() == old(self).pixels@.len(),
            forall|i: int|
                0 <= i < old(self).pixels@.len() ==> #[trigger] final(self).pixels@[i] == rgba_div(
                    old(self).pixels@[i],
                    iterations as int,
                ),
    {
        let n: i64 = iterations as i64;
        let total: usize = self.pixels.len();
        let mut i: usize = 0;
        while i < total
            invariant
                self.wf(),
                self.width == old(self).width,
                self.height == old(self).height,
                self.pixels@.len() == old(self).pixels@.len(),
                total == self.pixels@.len(),
                1 <= n,
                n == iterations,
                i <= total,
                forall|k: int|
                    0 <= k < total ==> rgba_nonneg(#[trigger] old(self).pixels@[k]),
                forall|k: int|
                    0 <= k < i ==> #[trigger] self.pixels@[k] == rgba_div(
                        old(self).pixels@[k],
                        n as int,
                    ),
                forall|k: int| i <= k < total ==> #[trigger] self.pixels@[k] == old(self).pixels@[k],
            decreases total - i,
        {
            let p = self.pixels[i];
            proof {
                lemma_tdiv_shrinks(p.r as int, n as int);
                lemma_tdiv_shrinks(p.g as int, n as int);
                lemma_tdiv_shrinks(p.b as int, n as int);
                lemma_tdiv_shrinks(p.a as int, n as int);
            }
            self.pixels[i] = Rgba {
                r: div_trunc(p.r, n),
                g: div_trunc(p.g, n),
                b: div_trunc(p.b, n),
                a: div_trunc(p.a, n),
            };
            i = i + 1;
        }
    }

    /// Export the finalized buffer as RGBA bytes, row-major: each channel
    /// `c` in `[0, 1]` maps to `round(255 * c)` (half rounds up).
    pub fn to_bytes(&self) -> (bytes: Vec<u8>)
        requires
            self.wf(),
            forall|i: int| 0 <= i < self.pixels@.len() ==> rgba_unit(#[trigger] self.pixels@[i]),
        ensures
            bytes@.len() == 4 * self.pixels@.len(),
            forall|i: int|
                0 <= i < self.pixels@.len() ==> {
                    let p = #[trigger] self.pixels@[i];
                    &&& bytes@[4 * i] == spec_channel_byte(p.r as int)
                    &&& bytes@[4 * i + 1] == spec_channel_byte(p.g as int)
                    &&& bytes@[4 * i + 2] == spec_channel_byte(p.b as int)
                    &&& bytes@[4 * i + 3] == spec_channel_byte(p.a as int)
                },
    {
        let total: usize = self.pixels.len();
        let mut bytes: Vec<u8> = Vec::new();
        let mut i: usize = 0;
        while i < total
            invariant
                self.wf(),
                total == self.pixels@.len(),
                i <= total,
                bytes@.len() == 4 * i,
                forall|k: int|
                    0 <= k < total ==> rgba_unit(#[trigger] self.pixels@[k]),
                forall|k: int|
                    0 <= k < i ==> {
                        let p = #[trigger] self.pixels@[k];
                        &&& bytes@[4 * k] == spec_channel_byte(p.r as int)
                        &&& bytes@[4 * k + 1] == spec_channel_byte(p.g as int)
                        &&& bytes@[4 * k + 2] == spec_channel_byte(p.b as int)
                        &&& bytes@[4 * k + 3] == spec_channel_byte(p.a as int)
                    },
            decreases total - i,
        {
            let p = self.pixels[i];
            bytes.push(channel_byte(p.r));
            bytes.push(channel_byte(p.g));
            bytes.push(channel_byte(p.b));
            bytes.push(channel_byte(p.a));
            i = i + 1;
        }
        bytes
    }
}

/// The byte a finalized channel exports to: `round(255 * c)` with half
/// rounding up, computed in exact integer arithmetic.
pub open spec fn spec_channel_byte(c: int) -> int {
    (255 * c + 500_000) / 1_000_000
}

/// Map one finalized channel to its 8-bit value.
fn channel_byte(c: i64) -> (b: u8)
    requires
        0 <= c <= SCALE,
    ensures
        b as int == spec_channel_byte(c as int),
{
    proof {
        lemma_tdiv_pos_bounds(255 * (c as int) + 500_000, 1_000_000);
    }
    let v: i64 = div_trunc(255 * c + 500_000, 1_000_000);
    v as u8
}

/// How far the first `j` chunks reach into the pixel array: `j` chunk sizes,
/// clamped to the total.
pub open spec fn processed_upto(j: int, cs: int, total: int) -> int {
    if j * cs <= total {
        j * cs
    } else {
        total
    }
}

/// Scaling a color by zero iterations gives the zero accumulator.
proof fn lemma_rgba_scale_zero(c: Rgba)
    ensures
        rgba_scale(0, c) == rgba_zero(),
{
    assert(0 * c.r == 0 && 0 * c.g == 0 && 0 * c.b == 0 && 0 * c.a == 0) by (nonlinear_arith);
}

/// The driver: owns the scene and the accumulation buffer, runs the
/// sequential iteration passes (each internally chunked as one task per
/// worker), averages once at the end, and exposes the buffer for export.
pub struct Raytracer {
    pub image: Image,
    pub scene: Scene,
    /// Accepted for interface compatibility, but never consulted: the shading
    /// rule casts no secondary rays. A documented limitation, not a knob.
    pub max_bounces: u32,
    /// Number of worker units the accumulation pass partitions pixels for.
    pub workers: u32,
    /// Completed accumulation passes.
    pub passes: u32,
    /// Whether the buffer has been divided by the pass count.
    pub averaged: bool,
}

impl Raytracer {
    /// The driver invariant. Before averaging, every accumulator holds the
    /// pass count times its pixel's color; after averaging, exactly the
    /// color of the ray fired through it.
    pub open spec fn wf(self) -> bool {
        &&& self.image.wf()
        &&& camera_wf(self.scene.camera)
        &&& self.scene.camera.width == self.image.width
        &&& self.scene.camera.height == self.image.height
        &&& 1 <= self.workers
        &&& if self.averaged {
            forall|i: int|
                0 <= i < self.image.pixels@.len() ==> #[trigger] self.image.pixels@[i]
                    == self.scene.color_spec(
                    i % (self.image.width as int),
                    i / (self.image.width as int),
                )
        } else {
            forall|i: int|
                0 <= i < self.image.pixels@.len() ==> #[trigger] self.image.pixels@[i]
                    == rgba_scale(
                    self.passes as int,
                    self.scene.color_spec(
                        i % (self.image.width as int),
                        i / (self.image.width as int),
                    ),
                )
        }
    }

    /// Build a renderer: zeroed buffer, camera derived from the resolution,
    /// an explicit worker count (injected rather than read from global
    /// state, so a single-worker deterministic mode is one argument away).
    pub fn new(width: u32, height: u32, max_bounces: u32, workers: u32) -> (rt: Raytracer)
        requires
            1 <= width,
            1 <= height,
            (width as int) * (height as int) <= u32::MAX,
            4 * ((width as int) * (height as int)) <= usize::MAX,
            1 <= workers,
        ensures
            rt.wf(),
            !rt.averaged,
            rt.passes == 0,
            rt.max_bounces == max_bounces,
            rt.workers == workers,
            rt.image.width == width,
            rt.image.height == height,
    {
        let image = Image::new(width, height);
        let scene = Scene::new(width, height);
        let rt = Raytracer { image, scene, max_bounces, workers, passes: 0, averaged: false };
        proof {
            let w = rt.image.width as int;
            assert forall|i: int| 0 <= i < rt.image.pixels@.len() implies #[trigger] rt.image.pixels@[i]
                == rgba_scale(0, rt.scene.color_spec(i % w, i / w)) by {
                lemma_rgba_scale_zero(rt.scene.color_spec(i % w, i / w));
            }
        }
        rt
    }

    /// Read access to the accumulation buffer.
    pub fn image(&self) -> (im: &Image)
        ensures
            im == &self.image,
    {
        &self.image
    }

    /// Run one accumulation pass: every pixel gains one sample of its color.
    pub fn run_pass(&mut self)
        requires
            old(self).wf(),
            !old(self).averaged,
            old(self).passes < u32::MAX,
        ensures
            final(self).wf(),
            !final(self).averaged,
            final(self).passes == old(self).passes + 1,
            final(self).scene == old(self).scene,
            final(self).workers == old(self).workers,
            final(self).max_bounces == old(self).max_bounces,
            final(self).image.width == old(self).image.width,
            final(self).image.height == old(self).image.height,
    {
        let ghost w = self.image.width as int;
        let ghost h = self.image.height as int;
        let ghost p = self.passes as int;
        proof {
            assert forall|i: int| 0 <= i < self.image.pixels@.len() implies rgba_headroom(
                #[trigger] self.image.pixels@[i],
            ) by {
                lemma_index_xy(i, w, h);
                lemma_scene_color_unit(self.scene, i % w, i / w);
                let c = self.scene.color_spec(i % w, i / w);
                assert(0 <= p * c.r <= 4_294_967_294_000_000 && 0 <= p * c.g
                    <= 4_294_967_294_000_000 && 0 <= p * c.b <= 4_294_967_294_000_000 && 0 <= p
                    * c.a <= 4_294_967_294_000_000) by (nonlinear_arith)
                    requires
                        0 <= p <= 4_294_967_294,
                        0 <= c.r <= 1_000_000,
                        0 <= c.g <= 1_000_000,
                        0 <= c.b <= 1_000_000,
                        0 <= c.a <= 1_000_000,
                ;
            }
        }
        let scene = self.scene;
        let workers: usize = self.workers as usize;
        self.image.run_iteration(&scene, workers);
        self.passes = self.passes + 1;
        proof {
            assert forall|i: int| 0 <= i < self.image.pixels@.len() implies #[trigger] self.image.pixels@[i]
                == rgba_scale(self.passes as int, self.scene.color_spec(i % w, i / w)) by {
                lemma_index_xy(i, w, h);
                lemma_scene_color_unit(self.scene, i % w, i / w);
                let c = self.scene.color_spec(i % w, i / w);
                assert(0 <= p * c.r <= 4_294_967_294_000_000 && 0 <= p * c.g
                    <= 4_294_967_294_000_000 && 0 <= p * c.b <= 4_294_967_294_000_000 && 0 <= p
                    * c.a <= 4_294_967_294_000_000) by (nonlinear_arith)
                    requires
                        0 <= p <= 4_294_967_294,
                        0 <= c.r <= 1_000_000,
                        0 <= c.g <= 1_000_000,
                        0 <= c.b <= 1_000_000,
                        0 <= c.a <= 1_000_000,
                ;
                assert((p + 1) * c.r == p * c.r + c.r && (p + 1) * c.g == p * c.g + c.g && (p + 1)
                    * c.b == p * c.b + c.b && (p + 1) * c.a == p * c.a + c.a) by (nonlinear_arith);
            }
        }
    }

    /// Divide the accumulated sums by the pass count: after this, each pixel
    /// holds exactly its color (the shading rule is deterministic, so the
    /// average of identical samples is the sample).
    pub fn average(&mut self)
        requires
            old(self).wf(),
            !old(self).averaged,
            1 <= old(self).passes,
        ensures
            final(self).wf(),
            final(self).averaged,
            final(self).passes == old(self).passes,
            final(self).scene == old(self).scene,
            final(self).workers == old(self).workers,
            final(self).max_bounces == old(self).max_bounces,
            final(self).image.width == old(self).image.width,
            final(self).image.height == old(self).image.height,
    {
        let ghost w = self.image.width as int;
        let ghost h = self.image.height as int;
        let ghost p = self.passes as int;
        proof {
            assert forall|i: int| 0 <= i < self.image.pixels@.len() implies rgba_nonneg(
                #[trigger] self.image.pixels@[i],
            ) by {
                lemma_index_xy(i, w, h);
                lemma_scene_color_unit(self.scene, i % w, i / w);
                let c = self.scene.color_spec(i % w, i / w);
                assert(0 <= p * c.r <= 4_294_967_295_000_000 && 0 <= p * c.g
                    <= 4_294_967_295_000_000 && 0 <= p * c.b <= 4_294_967_295_000_000 && 0 <= p
                    * c.a <= 4_294_967_295_000_000) by (nonlinear_arith)
                    requires
                        0 <= p <= 4_294_967_295,
                        0 <= c.r <= 1_000_000,
                        0 <= c.g <= 1_000_000,
                        0 <= c.b <= 1_000_000,
                        0 <= c.a <= 1_000_000,
                ;
            }
        }
        let n: u32 = self.passes;
        self.image.finalize(n);
        self.averaged = true;
        proof {
            assert forall|i: int| 0 <= i < self.image.pixels@.len() implies #[trigger] self.image.pixels@[i]
                == self.scene.color_spec(i % w, i / w) by {
                lemma_index_xy(i, w, h);
                lemma_scene_color_unit(self.scene, i % w, i / w);
                let c = self.scene.color_spec(i % w, i / w);
                assert(0 <= p * c.r <= 4_294_967_295_000_000 && 0 <= p * c.g
                    <= 4_294_967_295_000_000 && 0 <= p * c.b <= 4_294_967_295_000_000 && 0 <= p
                    * c.a <= 4_294_967_295_000_000 && p * c.r == c.r * p && p * c.g == c.g * p && p
                    * c.b == c.b * p && p * c.a == c.a * p) by (nonlinear_arith)
                    requires
                        0 <= p <= 4_294_967_295,
                        0 <= c.r <= 1_000_000,
                        0 <= c.g <= 1_000_000,
                        0 <= c.b <= 1_000_000,
                        0 <= c.a <= 1_000_000,
                ;
                lemma_tdiv_exact(c.r as int, p);
                lemma_tdiv_exact(c.g as int, p);
                lemma_tdiv_exact(c.b as int, p);
                lemma_tdiv_exact(c.a as int, p);
            }
        }
    }

    /// Run a whole render: `iterations` sequential full-frame passes, then
    /// one averaging step. A zero iteration count is a configuration error,
    /// rejected before any work (averaging would divide by zero); on success
    /// every accumulator holds exactly the shade of its pixel's ray.
    pub fn run(&mut self, iterations: u32) -> (res: Result<(), RenderError>)
        requires
            old(self).wf(),
            !old(self).averaged,
            old(self).passes == 0,
        ensures
            res == Ok::<(), RenderError>(()) <==> 1 <= iterations,
            iterations == 0 ==> res == Err::<(), RenderError>(RenderError::ZeroIterations)
                && *final(self) == *old(self),
            1 <= iterations ==> final(self).wf() && final(self).averaged
                && final(self).passes == iterations
                && final(self).scene == old(self).scene
                && final(self).workers == old(self).workers
                && final(self).max_bounces == old(self).max_bounces
                && final(self).image.width == old(self).image.width
                && final(self).image.height == old(self).image.height,
    {
        if iterations == 0 {
            return Err(RenderError::ZeroIterations);
        }
        while self.passes < iterations
            invariant
                self.wf(),
                !self.averaged,
                self.passes <= iterations,
                self.scene == old(self).scene,
                self.workers == old(self).workers,
                self.max_bounces == old(self).max_bounces,
                self.image.width == old(self).image.width,
                self.image.height == old(self).image.height,
            decreases iterations - self.passes,
        {
            self.run_pass();
        }
        self.average();
        Ok(())
    }
}

/// Law (accumulation idempotence): the averaged result does not depend on
/// how many identical passes were accumulated. Any two finished renders of
/// the same scene hold identical buffers, whatever their iteration counts.
pub proof fn lemma_accumulation_idempotent(rt1: Raytracer, rt2: Raytracer)
    requires
        rt1.wf(),
        rt2.wf(),
        rt1.averaged,
        rt2.averaged,
        rt1.scene == rt2.scene,
        rt1.image.width == rt2.image.width,
        rt1.image.height == rt2.image.height,
    ensures
        rt1.image.pixels@ == rt2.image.pixels@,
{
    assert(rt1.image.pixels@.len() == rt2.image.pixels@.len());
    assert(rt1.image.pixels@ =~= rt2.image.pixels@);
}

/// Law (end-to-end): after a finished render, the accumulator of pixel
/// (x, y) is exactly the shade of the ray fired through that pixel, with no
/// averaging artifacts.
pub proof fn lemma_rendered_pixel(rt: Raytracer, x: int, y: int)
    requires
        rt.wf(),
        rt.averaged,
        0 <= x < rt.image.width,
        0 <= y < rt.image.height,
    ensures
        rt.image.pixels@[y * (rt.image.width as int) + x] == rt.scene.color_spec(x, y),
{
    let w = rt.image.width as int;
    let h = rt.image.height as int;
    let i = y * w + x;
    assert(0 <= i < w * h && i % w == x && i / w == y) by (nonlinear_arith)
        requires
            0 <= x < w,
            0 <= y < h,
            1 <= w,
            i == y * w + x,
    {
        vstd::arithmetic::div_mod::lemma_fundamental_div_mod(i, w);
    }
}

} // verus!
