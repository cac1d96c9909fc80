//! The ring compositing pipeline.
//!
//! Five stages, run in order by [`overlay_ring`]: normalize the ring to the
//! avatar's side, measure the ring's band width, fit the avatar into the
//! ring's opening, compose the two images, and mask everything outside the
//! ring's outer circle.

use vstd::prelude::*;

verus! {

use crate::pixel::{
    ImageView, PixelBuffer, MAX_SIDE, pix, pix_x, pix_y, pix_c, lemma_pix_encode, lemma_pix_order,
    lemma_chan_eq,
};
use crate::resize::{resize_of, resize_nearest};

/// A processing failure of the compositing pipeline.
#[derive(Debug, Clone, Copy, PartialEq, Eq, Structural)]
pub enum RingError {
    /// The measured ring width leaves no positive opening for the avatar.
    DegenerateOpening,
    /// The avatar paste rectangle does not fit inside the canvas.
    PasteOutOfBounds,
}

/// The ring after normalization: downscaled to the avatar's side when it is
/// larger, untouched otherwise.
pub open spec fn spec_normalize(ring: ImageView, avatar_side: int) -> ImageView {
    if ring.side > avatar_side {
        ImageView { side: avatar_side, data: resize_of(ring.data, ring.side, avatar_side) }
    } else {
        ring
    }
}

/// Number of pixels with non-zero alpha among the first `n` rows of the
/// centre column `v.side / 2`.
pub open spec fn col_count(v: ImageView, n: int) -> int
    decreases n,
{
    if n <= 0 {
        0
    } else {
        col_count(v, n - 1) + if v.alpha(v.side / 2, n - 1) != 0 {
            1int
        } else {
            0int
        }
    }
}

/// The measured ring width: the count of non-transparent pixels along the
/// top half of the vertical centre line.
pub open spec fn spec_width(v: ImageView) -> int {
    col_count(v, v.side / 2)
}

/// The fitted avatar: rescaled to exactly the opening side.
pub open spec fn spec_fit(avatar: ImageView, opening: int) -> ImageView {
    ImageView { side: opening, data: resize_of(avatar.data, avatar.side, opening) }
}

/// Channel `c` of the composed canvas at `(x, y)`: the ring pixel where the
/// ring is opaque, else the fitted avatar pixel inside the opening
/// rectangle, else fully transparent.
pub open spec fn composed_chan(
    ring: ImageView,
    fitted: ImageView,
    w: int,
    x: int,
    y: int,
    c: int,
) -> u8 {
    if ring.alpha(x, y) != 0 {
        ring.chan(x, y, c)
    } else if w <= x < w + fitted.side && w <= y < w + fitted.side {
        fitted.chan(x - w, y - w, c)
    } else {
        0u8
    }
}

/// The composed canvas as a whole image.
pub open spec fn spec_compose(ring: ImageView, fitted: ImageView, w: int) -> ImageView {
    ImageView {
        side: ring.side,
        data: Seq::new(
            (ring.side * ring.side * 4) as nat,
            |i: int|
                composed_chan(ring, fitted, w, pix_x(ring.side, i), pix_y(ring.side, i), pix_c(i)),
        ),
    }
}

/// Reading a channel of the composed canvas gives exactly `composed_chan`.
pub proof fn lemma_spec_compose_chan(ring: ImageView, fitted: ImageView, w: int, x: int, y: int, c: int)
    requires
        1 <= ring.side,
        0 <= x < ring.side,
        0 <= y < ring.side,
        0 <= c < 4,
    ensures
        spec_compose(ring, fitted, w).chan(x, y, c) == composed_chan(ring, fitted, w, x, y, c),
{
    lemma_pix_encode(ring.side, x, y, c);
}

/// Squared Euclidean distance between `(x, y)` and `(cx, cy)`.
pub open spec fn dist_sq(x: int, y: int, cx: int, cy: int) -> int {
    (x - cx) * (x - cx) + (y - cy) * (y - cy)
}

/// Whether pixel `(x, y)` lies strictly outside the inscribed circle of a
/// square canvas of side `side`, with centre `(side / 2, side / 2)` and
/// radius `side / 2`.
pub open spec fn outside_circle(side: int, x: int, y: int) -> bool {
    dist_sq(x, y, side / 2, side / 2) > (side / 2) * (side / 2)
}

/// Channel `c` of the masked canvas at `(x, y)`: alpha forced to zero
/// outside the circle, every other byte untouched.
pub open spec fn masked_chan(v: ImageView, x: int, y: int, c: int) -> u8 {
    if c == 3 && outside_circle(v.side, x, y) {
        0u8
    } else {
        v.chan(x, y, c)
    }
}

/// The masked canvas as a whole image.
pub open spec fn spec_mask(v: ImageView) -> ImageView {
    ImageView {
        side: v.side,
        data: Seq::new(
            (v.side * v.side * 4) as nat,
            |i: int| masked_chan(v, pix_x(v.side, i), pix_y(v.side, i), pix_c(i)),
        ),
    }
}

/// Reading a channel of the masked canvas gives exactly `masked_chan`.
pub proof fn lemma_spec_mask_chan(v: ImageView, x: int, y: int, c: int)
    requires
        1 <= v.side,
        0 <= x < v.side,
        0 <= y < v.side,
        0 <= c < 4,
    ensures
        spec_mask(v).chan(x, y, c) == masked_chan(v, x, y, c),
{
    lemma_pix_encode(v.side, x, y, c);
}

proof fn lemma_square_len(side: int)
    requires
        1 <= side,
    ensures
        ((side * side * 4) as nat) == side * side * 4,
{
    assert(side * side * 4 >= 4) by (nonlinear_arith)
        requires
            1 <= side,
    ;
}

/// Masking preserves well-formedness.
pub proof fn lemma_spec_mask_wf(v: ImageView)
    requires
        v.wf(),
    ensures
        spec_mask(v).wf(),
{
    lemma_square_len(v.side);
}

/// Composing yields a well-formed canvas of the ring's side.
pub proof fn lemma_spec_compose_wf(ring: ImageView, fitted: ImageView, w: int)
    requires
        ring.wf(),
    ensures
        spec_compose(ring, fitted, w).wf(),
        spec_compose(ring, fitted, w).side == ring.side,
{
    lemma_square_len(ring.side);
}

/// Stage 1, the ring normalizer: the ring asset must be no larger than the
/// avatar; downsizes it (nearest-neighbor) if needed, else returns it
/// unchanged.
pub fn normalize(ring: PixelBuffer, avatar_side: u32) -> (r: PixelBuffer)
    requires
        ring@.wf(),
        1 <= avatar_side <= MAX_SIDE,
    ensures
        r@.wf(),
        r@ == spec_normalize(ring@, avatar_side as int),
        r@.side <= avatar_side,
{
    if ring.side() > avatar_side {
        let resized = resize_nearest(&ring, avatar_side);
        proof {
            assert(resized@ =~= spec_normalize(ring@, avatar_side as int));
        }
        resized
    } else {
        ring
    }
}

/// Stage 2, the ring width detector: counts the pixels with non-zero alpha
/// on the vertical centre line `x = side / 2`, over the top half
/// `0 <= y < side / 2`.
pub fn detect_width(ring: &PixelBuffer) -> (w: u32)
    requires
        ring@.wf(),
    ensures
        w == spec_width(ring@),
        w <= ring@.side / 2,
{
    let side = ring.side();
    let half = side / 2;
    let x = side / 2;
    let mut w: u32 = 0;
    let mut y: u32 = 0;
    while y < half
        invariant
            ring@.wf(),
            side == ring@.side,
            half == ring@.side / 2,
            x == ring@.side / 2,
            y <= half,
            w == col_count(ring@, y as int),
            w <= y,
        decreases half - y,
    {
        if ring.get_channel(x, y, 3) != 0 {
            w = w + 1;
        }
        y = y + 1;
    }
    w
}

/// Stage 3, the avatar fitter: rescales the avatar (nearest-neighbor) to
/// exactly fill the ring's opening.
pub fn fit(avatar: PixelBuffer, opening_side: u32) -> (r: PixelBuffer)
    requires
        avatar@.wf(),
        1 <= opening_side <= MAX_SIDE,
    ensures
        r@.wf(),
        r@ == spec_fit(avatar@, opening_side as int),
        r@.side == opening_side,
{
    let fitted = resize_nearest(&avatar, opening_side);
    proof {
        assert(fitted@ =~= spec_fit(avatar@, opening_side as int));
    }
    fitted
}

/// Stage 4, the compositor: a fresh transparent canvas of the ring's side,
/// with the fitted avatar pasted at offset `(width, width)` and the ring
/// overlaid on top wherever the ring is opaque.  Fails if the paste
/// rectangle does not fit the canvas.
pub fn compose(ring: &PixelBuffer, fitted: &PixelBuffer, width: u32) -> (r: Result<
    PixelBuffer,
    RingError,
>)
    requires
        ring@.wf(),
        fitted@.wf(),
    ensures
        match r {
            Ok(canvas) => {
                &&& width + fitted@.side <= ring@.side
                &&& canvas@.wf()
                &&& canvas@ == spec_compose(ring@, fitted@, width as int)
            },
            Err(e) => {
                &&& e == RingError::PasteOutOfBounds
                &&& width + fitted@.side > ring@.side
            },
        },
{
    let side = ring.side();
    if width > side || fitted.side() > side - width {
        return Err(RingError::PasteOutOfBounds);
    }
    let fside = fitted.side();
    proof {
        assert(side * side * 4 <= MAX_SIDE * MAX_SIDE * 4) by (nonlinear_arith)
            requires
                1 <= side <= MAX_SIDE,
        ;
    }
    let mut data: Vec<u8> = Vec::new();
    let mut y: u32 = 0;
    while y < side
        invariant
            ring@.wf(),
            fitted@.wf(),
            side == ring@.side,
            fside == fitted@.side,
            width + fside <= side,
            y <= side,
            data@.len() == y * (side as int) * 4,
            forall|px: int, py: int, pc: int|
                0 <= px < side && 0 <= py < y && 0 <= pc < 4 ==> data@[pix(
                    side as int,
                    px,
                    py,
                    pc,
                )] == composed_chan(ring@, fitted@, width as int, px, py, pc),
        decreases side - y,
    {
        let mut x: u32 = 0;
        proof {
            assert(y * (side as int) * 4 == (y * (side as int) + 0) * 4) by (nonlinear_arith);
        }
        while x < side
            invariant
                ring@.wf(),
                fitted@.wf(),
                side == ring@.side,
                fside == fitted@.side,
                width + fside <= side,
                y < side,
                x <= side,
                data@.len() == (y * (side as int) + x) * 4,
                forall|px: int, py: int, pc: int|
                    0 <= px < side && 0 <= pc < 4 && (0 <= py < y || (py == y && 0 <= px < x))
                        ==> data@[pix(side as int, px, py, pc)] == composed_chan(
                        ring@,
                        fitted@,
                        width as int,
                        px,
                        py,
                        pc,
                    ),
            decreases side - x,
        {
            let ghost prev = data@;
            let ra = ring.get_channel(x, y, 3);
            if ra != 0 {
                data.push(ring.get_channel(x, y, 0));
                data.push(ring.get_channel(x, y, 1));
                data.push(ring.get_channel(x, y, 2));
                data.push(ra);
            } else if width <= x && x < width + fside && width <= y && y < width + fside {
                data.push(fitted.get_channel(x - width, y - width, 0));
                data.push(fitted.get_channel(x - width, y - width, 1));
                data.push(fitted.get_channel(x - width, y - width, 2));
                data.push(fitted.get_channel(x - width, y - width, 3));
            } else {
                data.push(0);
                data.push(0);
                data.push(0);
                data.push(0);
            }
            proof {
                assert forall|px: int, py: int, pc: int|
                    0 <= px < side && 0 <= pc < 4 && (0 <= py < y || (py == y && 0 <= px < x + 1))
                        implies data@[pix(side as int, px, py, pc)] == composed_chan(
                        ring@,
                        fitted@,
                        width as int,
                        px,
                        py,
                        pc,
                    ) by {
                    if py < y || (py == y && px < x) {
                        lemma_pix_order(side as int, px, py, pc, x as int, y as int);
                        assert(pix(side as int, x as int, y as int, 0) == prev.len());
                        assert(data@[pix(side as int, px, py, pc)] == prev[pix(
                            side as int,
                            px,
                            py,
                            pc,
                        )]);
                    } else {
                        assert(px == x && py == y);
                        assert(pix(side as int, px, py, pc) == prev.len() + pc);
                    }
                }
            }
            x = x + 1;
        }
        proof {
            assert((y * (side as int) + side) * 4 == ((y + 1) * (side as int)) * 4)
                by (nonlinear_arith);
        }
        y = y + 1;
    }
    let canvas = PixelBuffer { side, data };
    proof {
        lemma_spec_compose_wf(ring@, fitted@, width as int);
        assert forall|px: int, py: int, pc: int| canvas@.in_range(px, py, pc)
            implies canvas@.chan(px, py, pc) == spec_compose(
            ring@,
            fitted@,
            width as int,
        ).chan(px, py, pc) by {
            lemma_spec_compose_chan(ring@, fitted@, width as int, px, py, pc);
        }
        lemma_chan_eq(canvas@, spec_compose(ring@, fitted@, width as int));
    }
    Ok(canvas)
}

/// Stage 5, the disc masker: zeroes the alpha channel of every pixel
/// strictly outside the inscribed circle, in place; red, green and blue are
/// left untouched everywhere, and pixels inside the circle are untouched.
pub fn mask_outside_circle(canvas: &mut PixelBuffer)
    requires
        old(canvas)@.wf(),
    ensures
        final(canvas)@.wf(),
        final(canvas)@ == spec_mask(old(canvas)@),
{
    let side = canvas.side();
    let centre = side / 2;
    let radius = side / 2;
    let mut y: u32 = 0;
    while y < side
        invariant
            canvas@.wf(),
            canvas@.side == old(canvas)@.side,
            old(canvas)@.wf(),
            side == canvas@.side,
            centre == side / 2,
            radius == side / 2,
            y <= side,
            forall|px: int, py: int, pc: int|
                old(canvas)@.in_range(px, py, pc) ==> canvas@.chan(px, py, pc) == (if py < y {
                    masked_chan(old(canvas)@, px, py, pc)
                } else {
                    old(canvas)@.chan(px, py, pc)
                }),
        decreases side - y,
    {
        let mut x: u32 = 0;
        while x < side
            invariant
                canvas@.wf(),
                canvas@.side == old(canvas)@.side,
                old(canvas)@.wf(),
                side == canvas@.side,
                centre == side / 2,
                radius == side / 2,
                y < side,
                x <= side,
                forall|px: int, py: int, pc: int|
                    old(canvas)@.in_range(px, py, pc) ==> canvas@.chan(px, py, pc) == (if py < y
                        || (py == y && px < x) {
                        masked_chan(old(canvas)@, px, py, pc)
                    } else {
                        old(canvas)@.chan(px, py, pc)
                    }),
            decreases side - x,
        {
            let dx = x as i64 - centre as i64;
            let dy = y as i64 - centre as i64;
            proof {
                assert(0 <= dx * dx <= 16384 * 16384 && 0 <= dy * dy <= 16384 * 16384)
                    by (nonlinear_arith)
                    requires
                        -16384 <= dx <= 16384,
                        -16384 <= dy <= 16384,
                ;
                assert(0 <= radius * radius <= 16384 * 16384) by (nonlinear_arith)
                    requires
                        0 <= radius <= 16384,
                ;
            }
            let d2 = dx * dx + dy * dy;
            if d2 > (radius as i64) * (radius as i64) {
                canvas.set_channel(x, y, 3, 0);
            }
            x = x + 1;
        }
        y = y + 1;
    }
    proof {
        lemma_spec_mask_wf(old(canvas)@);
        assert forall|px: int, py: int, pc: int| canvas@.in_range(px, py, pc)
            implies canvas@.chan(px, py, pc) == spec_mask(old(canvas)@).chan(px, py, pc) by {
            lemma_spec_mask_chan(old(canvas)@, px, py, pc);
        }
        lemma_chan_eq(canvas@, spec_mask(old(canvas)@));
    }
}

/// Success and failure of the whole pipeline, and the exact output image on
/// success: normalize, measure the width `w`, and fail unless
/// `0 < w` and `2 * w < side`; otherwise fit the avatar to the opening
/// `side - 2 * w`, compose, and mask.
pub open spec fn spec_pipeline(avatar: ImageView, ring: ImageView) -> Result<
    ImageView,
    RingError,
> {
    let ring_n = spec_normalize(ring, avatar.side);
    let w = spec_width(ring_n);
    if w < 1 || ring_n.side - 2 * w < 1 {
        Err(RingError::DegenerateOpening)
    } else {
        Ok(spec_mask(spec_compose(ring_n, spec_fit(avatar, ring_n.side - 2 * w), w)))
    }
}

/// The whole compositing pipeline: normalize the ring, measure its width,
/// fit the avatar into the opening, compose, and mask outside the circle.
/// Fails with `DegenerateOpening` exactly when the measured width is zero
/// or at least half the normalized ring's side.
pub fn overlay_ring(avatar: PixelBuffer, ring: PixelBuffer) -> (out: Result<
    PixelBuffer,
    RingError,
>)
    requires
        avatar@.wf(),
        ring@.wf(),
    ensures
        match out {
            Ok(canvas) => {
                &&& canvas@.wf()
                &&& spec_pipeline(avatar@, ring@) == Ok::<ImageView, RingError>(canvas@)
            },
            Err(e) => spec_pipeline(avatar@, ring@) == Err::<ImageView, RingError>(e),
        },
{
    let ghost avatar0 = avatar@;
    let ghost ring0 = ring@;
    let avatar_side = avatar.side();
    let ring_n = normalize(ring, avatar_side);
    let w = detect_width(&ring_n);
    let side_n = ring_n.side();
    if w == 0 || 2 * w >= side_n {
        return Err(RingError::DegenerateOpening);
    }
    let opening = side_n - 2 * w;
    let fitted = fit(avatar, opening);
    let composed = match compose(&ring_n, &fitted, w) {
        Ok(c) => c,
        Err(_) => {
            proof {
                assert(false);
            }
            return Err(RingError::PasteOutOfBounds);
        },
    };
    let mut canvas = composed;
    mask_outside_circle(&mut canvas);
    Ok(canvas)
}

/// The avatar fitter yields exactly the opening: for a ring side `s` and a
/// measured width `w` with `0 < w` and `2 * w < s`, the fitted avatar has
/// side exactly `s - 2 * w`.
pub proof fn lemma_fitted_side(avatar: ImageView, s: int, w: int)
    requires
        0 < w,
        2 * w < s,
    ensures
        spec_fit(avatar, s - 2 * w).side == s - 2 * w,
{
}

/// Masking is idempotent: masking an already masked canvas changes nothing.
pub proof fn lemma_mask_idempotent(v: ImageView)
    requires
        v.wf(),
    ensures
        spec_mask(spec_mask(v)) == spec_mask(v),
{
    lemma_spec_mask_wf(v);
    let m = spec_mask(v);
    assert forall|x: int, y: int, c: int| m.in_range(x, y, c)
        implies spec_mask(m).chan(x, y, c) == m.chan(x, y, c) by {
        lemma_spec_mask_chan(m, x, y, c);
        lemma_spec_mask_chan(v, x, y, c);
    }
    lemma_spec_mask_wf(m);
    lemma_chan_eq(spec_mask(m), m);
}

/// After masking, every pixel strictly outside the inscribed circle is
/// fully transparent, whatever the radius (`side / 2`) and canvas side.
pub proof fn lemma_mask_outside_transparent(v: ImageView, x: int, y: int)
    requires
        1 <= v.side,
        0 <= x < v.side,
        0 <= y < v.side,
        outside_circle(v.side, x, y),
    ensures
        spec_mask(v).alpha(x, y) == 0,
{
    lemma_spec_mask_chan(v, x, y, 3);
}

/// Every pixel of a successful pipeline output that lies strictly outside
/// the inscribed circle has alpha zero.
pub proof fn lemma_pipeline_outside_transparent(
    avatar: ImageView,
    ring: ImageView,
    out: ImageView,
    x: int,
    y: int,
)
    requires
        avatar.wf(),
        ring.wf(),
        spec_pipeline(avatar, ring) == Ok::<ImageView, RingError>(out),
        0 <= x < out.side,
        0 <= y < out.side,
        outside_circle(out.side, x, y),
    ensures
        out.alpha(x, y) == 0,
{
    let ring_n = spec_normalize(ring, avatar.side);
    let w = spec_width(ring_n);
    let comp = spec_compose(ring_n, spec_fit(avatar, ring_n.side - 2 * w), w);
    assert(out == spec_mask(comp));
    lemma_mask_outside_transparent(comp, x, y);
}

/// Compositing is deterministic: the pipeline output is a function of the
/// two input images alone, so byte-identical inputs give byte-identical
/// outputs.
pub proof fn lemma_pipeline_deterministic(
    avatar1: ImageView,
    ring1: ImageView,
    avatar2: ImageView,
    ring2: ImageView,
)
    requires
        avatar1 == avatar2,
        ring1 == ring2,
    ensures
        spec_pipeline(avatar1, ring1) == spec_pipeline(avatar2, ring2),
{
}

proof fn lemma_col_count_band(v: ImageView, t: int, n: int)
    requires
        0 <= t,
        0 <= n <= v.side / 2,
        forall|y: int| 0 <= y < v.side / 2 ==> ((#[trigger] v.alpha(v.side / 2, y) != 0) <==> y < t),
    ensures
        col_count(v, n) == if n <= t {
            n
        } else {
            t
        },
    decreases n,
{
    if n > 0 {
        lemma_col_count_band(v, t, n - 1);
    }
}

/// On a synthetic ring whose centre column is opaque exactly on the first
/// `t` rows of the top half, the width detector measures exactly `t`.
pub proof fn lemma_detect_width_band(v: ImageView, t: int)
    requires
        0 <= t <= v.side / 2,
        forall|y: int| 0 <= y < v.side / 2 ==> ((#[trigger] v.alpha(v.side / 2, y) != 0) <==> y < t),
    ensures
        spec_width(v) == t,
{
    lemma_col_count_band(v, t, v.side / 2);
}

} // verus!
