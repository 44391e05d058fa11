//! Sizes for print: how much bleed a card image gets, and how large an
//! upscaled image may grow. MakePlayingCards cuts a card at 744 x 1038 pixels
//! out of 816 x 1110 with bleed; the largest image it takes is 2176 x 2960.
use vstd::prelude::*;

verus! {

/// The output size of an image with bleed, and the bleed on each side.
#[derive(Debug, Clone, Copy, PartialEq, Eq)]
pub struct BleedConfig {
    pub output_width: u32,
    pub output_height: u32,
    pub bleed_x: u32,
    pub bleed_y: u32,
}

/// `p / q` rounded to the nearest integer, halves away from zero.
pub open spec fn round_div(p: int, q: int) -> int {
    (2 * p + q) / (2 * q)
}

/// The bled size of a `width` x `height` image: the image is scaled so its
/// tighter side fills the cut area (744 x 1038), the bled card (816 x 1110)
/// is taken at that scale, and the difference is split evenly, the odd pixel
/// falling to the right and bottom.
pub open spec fn calculate_spec(width: int, height: int) -> (int, int, int, int) {
    let (ow, oh) = if width * 1038 >= height * 744 {
        (round_div(width * 816, 744), round_div(width * 1110, 744))
    } else {
        (round_div(height * 816, 1038), round_div(height * 1110, 1038))
    };
    (ow, oh, (ow - width) / 2, (oh - height) / 2)
}

proof fn lemma_calculate_bounds(width: int, height: int)
    requires
        0 <= width,
        0 <= height,
    ensures
        calculate_spec(width, height).0 >= width,
        calculate_spec(width, height).1 >= height,
        calculate_spec(width, height).0 <= 2 * width + 2 * height + 1,
        calculate_spec(width, height).1 <= 2 * width + 2 * height + 1,
{
    if width * 1038 >= height * 744 {
        assert((2 * (width * 816) + 744) / 1488int >= width) by (nonlinear_arith)
            requires
                width >= 0,
        ;
        assert((2 * (width * 1110) + 744) / 1488int >= height) by (nonlinear_arith)
            requires
                width * 1038 >= height * 744,
                width >= 0,
                height >= 0,
        ;
        assert((2 * (width * 816) + 744) / 1488int <= 2 * width + 1) by (nonlinear_arith)
            requires
                width >= 0,
        ;
        assert((2 * (width * 1110) + 744) / 1488int <= 2 * width + 1) by (nonlinear_arith)
            requires
                width >= 0,
        ;
    } else {
        assert((2 * (height * 816) + 1038) / 2076int >= width) by (nonlinear_arith)
            requires
                width * 1038 < height * 744,
                width >= 0,
                height >= 0,
        ;
        assert((2 * (height * 1110) + 1038) / 2076int >= height) by (nonlinear_arith)
            requires
                height >= 0,
        ;
        assert((2 * (height * 816) + 1038) / 2076int <= 2 * height + 1) by (nonlinear_arith)
            requires
                height >= 0,
        ;
        assert((2 * (height * 1110) + 1038) / 2076int <= 2 * height + 1) by (nonlinear_arith)
            requires
                height >= 0,
        ;
    }
}

impl BleedConfig {
    /// The same bleed on every side.
    pub fn uniform(width: u32, height: u32, bleed: u32) -> (r: BleedConfig)
        requires
            width + 2 * bleed <= u32::MAX,
            height + 2 * bleed <= u32::MAX,
        ensures
            r.output_width == width + 2 * bleed,
            r.output_height == height + 2 * bleed,
            r.bleed_x == bleed,
            r.bleed_y == bleed,
    {
        BleedConfig {
            output_width: width + 2 * bleed,
            output_height: height + 2 * bleed,
            bleed_x: bleed,
            bleed_y: bleed,
        }
    }

    /// The bled size of a `width` x `height` image, scaled proportionally for
    /// any resolution (see `calculate_spec`).
    pub fn calculate(width: u32, height: u32) -> (r: BleedConfig)
        requires
            calculate_spec(width as int, height as int).0 <= u32::MAX,
            calculate_spec(width as int, height as int).1 <= u32::MAX,
        ensures
            (r.output_width as int, r.output_height as int, r.bleed_x as int, r.bleed_y as int)
                == calculate_spec(width as int, height as int),
    {
        proof {
            lemma_calculate_bounds(width as int, height as int);
        }
        let w = width as u64;
        let h = height as u64;
        let (ow, oh) = if w * 1038 >= h * 744 {
            ((2 * (w * 816) + 744) / 1488, (2 * (w * 1110) + 744) / 1488)
        } else {
            ((2 * (h * 816) + 1038) / 2076, (2 * (h * 1110) + 1038) / 2076)
        };
        let output_width = ow as u32;
        let output_height = oh as u32;
        BleedConfig {
            output_width,
            output_height,
            bleed_x: (output_width - width) / 2,
            bleed_y: (output_height - height) / 2,
        }
    }
}

/// The largest image to upscale to: the full bled size for a source that
/// carries bleed; for one that does not, the part of it inside the cut,
/// since bleed is added after upscaling.
pub fn max_upscale_size(has_bleed: bool) -> (r: (u32, u32))
    ensures
        r == if has_bleed {
            (2176u32, 2960u32)
        } else {
            (round_div(2176int * 744, 816) as u32, round_div(2960int * 1038, 1110) as u32)
        },
        !has_bleed ==> r == (1984u32, 2768u32),
{
    if has_bleed {
        (2176, 2960)
    } else {
        assert((2 * (2176int * 744) + 816) / 1632int == 1984) by (nonlinear_arith);
        assert((2 * (2960int * 1038) + 1110) / 2220int == 2768) by (nonlinear_arith);
        ((2 * (2176 * 744) + 816) / 1632, (2 * (2960 * 1038) + 1110) / 2220)
    }
}

/// `v` held within `0..=hi`.
pub open spec fn clamp_to(v: int, hi: int) -> int {
    if v < 0 {
        0
    } else if v > hi {
        hi
    } else {
        v
    }
}

/// The byte of a `w` pixels wide RGB source that byte `k` of the bled image
/// copies: each pixel of the bled image takes the source pixel nearest to
/// it, so the border repeats the source's edge pixels.
pub open spec fn bleed_source_index(w: int, h: int, cfg: BleedConfig, k: int) -> int {
    let ow = cfg.output_width as int;
    let px = k / 3;
    let x = px % ow;
    let y = px / ow;
    let sx = clamp_to(x - cfg.bleed_x, w - 1);
    let sy = clamp_to(y - cfg.bleed_y, h - 1);
    (sy * w + sx) * 3 + k % 3
}

proof fn lemma_position(k: int, ow: int, y: int, x: int, c: int)
    requires
        0 <= x < ow,
        0 <= c < 3,
        0 <= y,
        k == (y * ow + x) * 3 + c,
    ensures
        k / 3 == y * ow + x,
        k % 3 == c,
        (k / 3) / ow == y,
        (k / 3) % ow == x,
{
    vstd::arithmetic::div_mod::lemma_fundamental_div_mod_converse(k, 3, y * ow + x, c);
    vstd::arithmetic::div_mod::lemma_fundamental_div_mod_converse(y * ow + x, ow, y, x);
}

proof fn lemma_pixel_in_source(w: int, h: int, sx: int, sy: int)
    requires
        0 <= sx < w,
        0 <= sy < h,
    ensures
        (sy * w + sx) * 3 + 2 < w * h * 3,
{
    assert(sy * w + sx < w * h) by (nonlinear_arith)
        requires
            0 <= sx < w,
            0 <= sy < h,
    ;
}

/// A `src_w` x `src_h` RGB image (three bytes a pixel, row by row) with
/// bleed added as `config` lays it out: the source in the middle, and every
/// border pixel a copy of the source's nearest edge pixel.
pub fn generate_bleed(src: &[u8], src_w: u32, src_h: u32, config: &BleedConfig) -> (r: Vec<u8>)
    requires
        src_w >= 1,
        src_h >= 1,
        src@.len() == src_w * src_h * 3,
        config.bleed_x + src_w <= config.output_width,
        config.output_width * config.output_height * 3 <= u32::MAX,
    ensures
        r@.len() == config.output_width * config.output_height * 3,
        forall|k: int| 0 <= k < r@.len() ==> #[trigger] r@[k] == src@[bleed_source_index(src_w as int, src_h as int, *config, k)],
{
    let ow = config.output_width as usize;
    let oh = config.output_height as usize;
    let w = src_w as usize;
    let h = src_h as usize;
    let bx = config.bleed_x as usize;
    let by = config.bleed_y as usize;
    let n = src.len();
    let mut out: Vec<u8> = Vec::new();
    let mut y: usize = 0;
    proof {
        assert(ow * oh * 3 <= u32::MAX);
        assert(w * h * 3 == src@.len());
    }
    while y < oh
        invariant
            ow == config.output_width,
            oh == config.output_height,
            w == src_w,
            h == src_h,
            bx == config.bleed_x,
            by == config.bleed_y,
            w >= 1,
            h >= 1,
            src@.len() == w * h * 3,
            n == src@.len(),
            ow * oh * 3 <= u32::MAX,
            y <= oh,
            out@.len() == y * ow * 3,
            forall|k: int| 0 <= k < out@.len() ==> #[trigger] out@[k] == src@[bleed_source_index(w as int, h as int, *config, k)],
        decreases oh - y,
    {
        let sy: usize = if y < by {
            0
        } else if y - by > h - 1 {
            h - 1
        } else {
            y - by
        };
        let mut x: usize = 0;
        proof {
            assert((y + 1) * ow * 3 <= oh * ow * 3) by (nonlinear_arith)
                requires
                    y < oh,
            ;
            assert(oh * ow * 3 == ow * oh * 3) by (nonlinear_arith);
        }
        while x < ow
            invariant
                ow == config.output_width,
                w == src_w,
                h == src_h,
                bx == config.bleed_x,
                by == config.bleed_y,
                w >= 1,
                h >= 1,
                src@.len() == w * h * 3,
                n == src@.len(),
                (y + 1) * ow * 3 <= u32::MAX,
                x <= ow,
                sy as int == clamp_to(y - by, h - 1),
                out@.len() == (y * ow + x) * 3,
                forall|k: int| 0 <= k < out@.len() ==> #[trigger] out@[k] == src@[bleed_source_index(w as int, h as int, *config, k)],
            decreases ow - x,
        {
            let sx: usize = if x < bx {
                0
            } else if x - bx > w - 1 {
                w - 1
            } else {
                x - bx
            };
            proof {
                lemma_pixel_in_source(w as int, h as int, sx as int, sy as int);
                assert((y * ow + x) * 3 + 3 <= (y + 1) * ow * 3) by (nonlinear_arith)
                    requires
                        x < ow,
                ;
                assert((sy * w + sx) * 3 + 2 < w * h * 3);
                assert(sy * w <= sy * w + sx);
                assert(0 <= sy * w) by (nonlinear_arith)
                    requires
                        sy >= 0,
                        w >= 0,
                ;
            }
            let base: usize = (sy * w + sx) * 3;
            let ghost start = out@.len() as int;
            let mut c: usize = 0;
            while c < 3
                invariant
                    ow == config.output_width,
                    w == src_w,
                    h == src_h,
                    bx == config.bleed_x,
                    by == config.bleed_y,
                    src@.len() == w * h * 3,
                    n == src@.len(),
                    x < ow,
                    c <= 3,
                    start == (y * ow + x) * 3,
                    base == (sy * w + sx) * 3,
                    base + 2 < src@.len(),
                    sy as int == clamp_to(y - by, h - 1),
                    sx as int == clamp_to(x - bx, w - 1),
                    out@.len() == start + c,
                    forall|k: int| 0 <= k < out@.len() ==> #[trigger] out@[k] == src@[bleed_source_index(w as int, h as int, *config, k)],
                decreases 3 - c,
            {
                let ghost k = out@.len() as int;
                proof {
                    lemma_position(k, ow as int, y as int, x as int, c as int);
                }
                out.push(src[base + c]);
                c = c + 1;
            }
            x = x + 1;
        }
        proof {
            assert((y * ow + ow) * 3 == (y + 1) * ow * 3) by (nonlinear_arith);
        }
        y = y + 1;
    }
    proof {
        assert(oh * ow * 3 == ow * oh * 3) by (nonlinear_arith);
    }
    out
}

/// Bleed leaves the source as it was: the byte at source pixel (x, y) sits,
/// in the bled image, at pixel (x + bleed_x, y + bleed_y).
pub proof fn lemma_bleed_keeps_the_source(w: int, h: int, cfg: BleedConfig, x: int, y: int, c: int)
    requires
        0 <= x < w,
        0 <= y < h,
        0 <= c < 3,
        cfg.bleed_x + w <= cfg.output_width,
    ensures
        bleed_source_index(w, h, cfg, ((y + cfg.bleed_y) * cfg.output_width + x + cfg.bleed_x) * 3 + c) == (y * w + x)
            * 3 + c,
{
    let k = ((y + cfg.bleed_y) * cfg.output_width + x + cfg.bleed_x) * 3 + c;
    lemma_position(k, cfg.output_width as int, y + cfg.bleed_y, x + cfg.bleed_x, c);
}

/// An image that reaches the cut line on one side gets at least MakePlayingCards'
/// 816 x 1110 and at least 36 pixels of bleed on every side.
pub proof fn lemma_bleed_reaches_the_print_size(width: int, height: int)
    requires
        width >= 744 || height >= 1038,
        width >= 0,
        height >= 0,
    ensures
        calculate_spec(width, height).0 >= 816,
        calculate_spec(width, height).1 >= 1110,
        calculate_spec(width, height).2 >= 36,
        calculate_spec(width, height).3 >= 36,
{
    if width * 1038 >= height * 744 {
        assert(width >= 744) by (nonlinear_arith)
            requires
                width * 1038 >= height * 744,
                width >= 744 || height >= 1038,
                height >= 0,
        ;
        assert((2 * (width * 816) + 744) / 1488int >= 816) by (nonlinear_arith)
            requires
                width >= 744,
        ;
        assert((2 * (width * 1110) + 744) / 1488int >= 1110) by (nonlinear_arith)
            requires
                width >= 744,
        ;
        assert((2 * (width * 816) + 744) / 1488int >= width + 72) by (nonlinear_arith)
            requires
                width >= 744,
        ;
        assert((2 * (width * 1110) + 744) / 1488int >= height + 72) by (nonlinear_arith)
            requires
                width >= 744,
                width * 1038 >= height * 744,
        ;
    } else {
        assert(height >= 1038) by (nonlinear_arith)
            requires
                width * 1038 < height * 744,
                width >= 744 || height >= 1038,
                width >= 0,
        ;
        assert((2 * (height * 816) + 1038) / 2076int >= 816) by (nonlinear_arith)
            requires
                height >= 1038,
        ;
        assert((2 * (height * 1110) + 1038) / 2076int >= 1110) by (nonlinear_arith)
            requires
                height >= 1038,
        ;
        assert((2 * (height * 1110) + 1038) / 2076int >= height + 72) by (nonlinear_arith)
            requires
                height >= 1038,
        ;
        assert((2 * (height * 816) + 1038) / 2076int >= width + 72) by (nonlinear_arith)
            requires
                height >= 1038,
                width * 1038 < height * 744,
        ;
    }
}

} // verus!
