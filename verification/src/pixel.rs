//! Square RGBA pixel buffers and their mathematical model.
//!
//! A buffer stores a square image as a flat row-major byte vector, four
//! bytes (red, green, blue, alpha) per pixel.  The model [`ImageView`]
//! mirrors that layout with unbounded integers, and the `pix*` functions
//! translate between pixel coordinates and flat byte indices.

use vstd::prelude::*;

verus! {

use vstd::arithmetic::div_mod::{
    lemma_fundamental_div_mod_converse_div, lemma_fundamental_div_mod_converse_mod,
};

/// Largest supported image side, chosen so that `side * side * 4` bytes
/// always fits in `usize`, even on 32-bit targets.
pub const MAX_SIDE: u32 = 16384;

/// Mathematical model of a square RGBA image: the side length and the flat
/// row-major byte sequence.
#[verifier::ext_equal]
pub struct ImageView {
    pub side: int,
    pub data: Seq<u8>,
}

/// Flat index of channel `c` of the pixel at column `x`, row `y` in a
/// square image of side `side`.
pub open spec fn pix(side: int, x: int, y: int, c: int) -> int {
    (y * side + x) * 4 + c
}

/// Column encoded by flat index `i`.
pub open spec fn pix_x(side: int, i: int) -> int {
    (i / 4) % side
}

/// Row encoded by flat index `i`.
pub open spec fn pix_y(side: int, i: int) -> int {
    (i / 4) / side
}

/// Channel encoded by flat index `i`.
pub open spec fn pix_c(i: int) -> int {
    i % 4
}

impl ImageView {
    pub open spec fn wf(self) -> bool {
        &&& 1 <= self.side <= MAX_SIDE
        &&& self.data.len() == self.side * self.side * 4
    }

    /// Whether `(x, y, c)` addresses a channel of this image.
    pub open spec fn in_range(self, x: int, y: int, c: int) -> bool {
        0 <= x < self.side && 0 <= y < self.side && 0 <= c < 4
    }

    /// Channel `c` (0 red, 1 green, 2 blue, 3 alpha) of the pixel at `(x, y)`.
    pub open spec fn chan(self, x: int, y: int, c: int) -> u8 {
        self.data[pix(self.side, x, y, c)]
    }

    /// Alpha channel of the pixel at `(x, y)`.
    pub open spec fn alpha(self, x: int, y: int) -> u8 {
        self.chan(x, y, 3)
    }
}

/// An in-range coordinate triple encodes to an in-range flat index, and
/// decoding that index recovers the triple.
pub proof fn lemma_pix_encode(side: int, x: int, y: int, c: int)
    requires
        1 <= side,
        0 <= x < side,
        0 <= y < side,
        0 <= c < 4,
    ensures
        0 <= pix(side, x, y, c) < side * side * 4,
        pix_x(side, pix(side, x, y, c)) == x,
        pix_y(side, pix(side, x, y, c)) == y,
        pix_c(pix(side, x, y, c)) == c,
{
    let q = y * side + x;
    let i = pix(side, x, y, c);
    assert(0 <= q < side * side) by (nonlinear_arith)
        requires
            1 <= side,
            0 <= x < side,
            0 <= y < side,
            q == y * side + x,
    ;
    assert(0 <= i < side * side * 4) by (nonlinear_arith)
        requires
            0 <= q < side * side,
            0 <= c < 4,
            i == q * 4 + c,
    ;
    lemma_fundamental_div_mod_converse_div(i, 4, q, c);
    lemma_fundamental_div_mod_converse_mod(i, 4, q, c);
    lemma_fundamental_div_mod_converse_div(q, side, y, x);
    lemma_fundamental_div_mod_converse_mod(q, side, y, x);
}

/// An in-range flat index decodes to an in-range coordinate triple, and
/// encoding that triple recovers the index.
pub proof fn lemma_pix_decode(side: int, i: int)
    requires
        1 <= side,
        0 <= i < side * side * 4,
    ensures
        0 <= pix_x(side, i) < side,
        0 <= pix_y(side, i) < side,
        0 <= pix_c(i) < 4,
        pix(side, pix_x(side, i), pix_y(side, i), pix_c(i)) == i,
{
    let q = i / 4;
    let c = i % 4;
    assert(i == 4 * q + c && 0 <= c < 4) by {
        vstd::arithmetic::div_mod::lemma_fundamental_div_mod(i, 4);
    }
    assert(0 <= q < side * side) by (nonlinear_arith)
        requires
            1 <= side,
            0 <= i < side * side * 4,
            i == 4 * q + c,
            0 <= c < 4,
    ;
    let x = q % side;
    let y = q / side;
    assert(q == side * y + x && 0 <= x < side) by {
        vstd::arithmetic::div_mod::lemma_fundamental_div_mod(q, side);
        vstd::arithmetic::div_mod::lemma_mod_division_less_than_divisor(q, side);
    }
    assert(0 <= y < side) by (nonlinear_arith)
        requires
            1 <= side,
            0 <= q < side * side,
            q == side * y + x,
            0 <= x < side,
    ;
    assert(pix(side, x, y, c) == (y * side + x) * 4 + c);
    assert((y * side + x) * 4 + c == i) by (nonlinear_arith)
        requires
            i == 4 * q + c,
            q == side * y + x,
    ;
}

/// Flat indices grow with the row-major order of their pixels: every channel
/// of a pixel before `(x2, y2)` lies strictly below `pix(side, x2, y2, 0)`.
pub proof fn lemma_pix_order(side: int, x1: int, y1: int, c1: int, x2: int, y2: int)
    requires
        1 <= side,
        0 <= x1 < side,
        0 <= y1,
        0 <= c1 < 4,
        0 <= x2 <= side,
        y1 < y2 || (y1 == y2 && x1 < x2),
    ensures
        pix(side, x1, y1, c1) < pix(side, x2, y2, 0),
{
    assert((y1 * side + x1) * 4 + c1 < (y2 * side + x2) * 4) by (nonlinear_arith)
        requires
            1 <= side,
            0 <= x1 < side,
            0 <= y1,
            0 <= c1 < 4,
            0 <= x2 <= side,
            y1 < y2 || (y1 == y2 && x1 < x2),
    ;
}

/// Two well-formed images of the same side whose channels all agree are the
/// same image.
pub proof fn lemma_chan_eq(a: ImageView, b: ImageView)
    requires
        a.wf(),
        b.wf(),
        a.side == b.side,
        forall|x: int, y: int, c: int|
            a.in_range(x, y, c) ==> a.chan(x, y, c) == b.chan(x, y, c),
    ensures
        a == b,
{
    assert forall|i: int| 0 <= i < a.data.len() implies a.data[i] == b.data[i] by {
        lemma_pix_decode(a.side, i);
        assert(a.in_range(pix_x(a.side, i), pix_y(a.side, i), pix_c(i)));
        assert(a.chan(pix_x(a.side, i), pix_y(a.side, i), pix_c(i))
            == b.chan(pix_x(a.side, i), pix_y(a.side, i), pix_c(i)));
    }
    assert(a.data =~= b.data);
    assert(a =~= b);
}

/// A square RGBA image held as a flat row-major byte vector.
pub struct PixelBuffer {
    pub side: u32,
    pub data: Vec<u8>,
}

impl View for PixelBuffer {
    type V = ImageView;

    open spec fn view(&self) -> ImageView {
        ImageView { side: self.side as int, data: self.data@ }
    }
}

impl PixelBuffer {
    /// A fully transparent (all-zero) square buffer of the given side.
    pub fn new(side: u32) -> (buf: PixelBuffer)
        requires
            1 <= side <= MAX_SIDE,
        ensures
            buf@.wf(),
            buf@.side == side,
            forall|x: int, y: int, c: int| buf@.in_range(x, y, c) ==> buf@.chan(x, y, c) == 0,
    {
        proof {
            assert(side * side * 4 <= MAX_SIDE * MAX_SIDE * 4) by (nonlinear_arith)
                requires 1 <= side <= MAX_SIDE;
        }
        let n: usize = (side as usize) * (side as usize) * 4;
        let mut data: Vec<u8> = Vec::new();
        let mut i: usize = 0;
        while i < n
            invariant
                i <= n,
                n == side * side * 4,
                data@.len() == i,
                forall|k: int| 0 <= k < i ==> data@[k] == 0,
            decreases n - i,
        {
            data.push(0);
            i = i + 1;
        }
        let buf = PixelBuffer { side, data };
        proof {
            assert forall|x: int, y: int, c: int| buf@.in_range(x, y, c)
                implies buf@.chan(x, y, c) == 0 by {
                lemma_pix_encode(side as int, x, y, c);
            }
        }
        buf
    }

    /// Wraps a raw byte vector as a square buffer, if its length matches the
    /// claimed side.
    pub fn from_raw(side: u32, data: Vec<u8>) -> (r: Option<PixelBuffer>)
        ensures
            match r {
                Some(buf) => {
                    &&& buf@.wf()
                    &&& buf@.side == side
                    &&& buf@.data == data@
                    &&& 1 <= side <= MAX_SIDE
                    &&& data@.len() == side * side * 4
                },
                None => side < 1 || side > MAX_SIDE || data@.len() != side * side * 4,
            },
    {
        if side < 1 || side > MAX_SIDE {
            return None;
        }
        proof {
            assert(side * side * 4 <= MAX_SIDE * MAX_SIDE * 4) by (nonlinear_arith)
                requires 1 <= side <= MAX_SIDE;
        }
        let n: usize = (side as usize) * (side as usize) * 4;
        if data.len() != n {
            return None;
        }
        Some(PixelBuffer { side, data })
    }

    /// Side length in pixels.
    pub fn side(&self) -> (s: u32)
        ensures
            s == self@.side,
    {
        self.side
    }

    /// Reads channel `c` (0 red, 1 green, 2 blue, 3 alpha) of the pixel at
    /// `(x, y)`.
    pub fn get_channel(&self, x: u32, y: u32, c: u32) -> (v: u8)
        requires
            self@.wf(),
            x < self@.side,
            y < self@.side,
            c < 4,
        ensures
            v == self@.chan(x as int, y as int, c as int),
    {
        proof {
            lemma_pix_encode(self@.side, x as int, y as int, c as int);
            assert(self@.side * self@.side * 4 <= MAX_SIDE * MAX_SIDE * 4) by (nonlinear_arith)
                requires 1 <= self@.side <= MAX_SIDE;
            assert(0 <= y * self@.side && y * self@.side + x < self@.side * self@.side)
                by (nonlinear_arith)
                requires 1 <= self@.side, x < self@.side, y < self@.side;
        }
        let i: usize = ((y as usize) * (self.side as usize) + (x as usize)) * 4 + (c as usize);
        self.data[i]
    }

    /// Writes channel `c` of the pixel at `(x, y)`; every other channel of
    /// the buffer is unchanged.
    pub fn set_channel(&mut self, x: u32, y: u32, c: u32, v: u8)
        requires
            old(self)@.wf(),
            x < old(self)@.side,
            y < old(self)@.side,
            c < 4,
        ensures
            final(self)@.wf(),
            final(self)@.side == old(self)@.side,
            final(self)@.chan(x as int, y as int, c as int) == v,
            forall|px: int, py: int, pc: int|
                old(self)@.in_range(px, py, pc) && !(px == x && py == y && pc == c)
                    ==> final(self)@.chan(px, py, pc) == old(self)@.chan(px, py, pc),
    {
        proof {
            lemma_pix_encode(self@.side, x as int, y as int, c as int);
            assert(self@.side * self@.side * 4 <= MAX_SIDE * MAX_SIDE * 4) by (nonlinear_arith)
                requires 1 <= self@.side <= MAX_SIDE;
            assert(0 <= y * self@.side && y * self@.side + x < self@.side * self@.side)
                by (nonlinear_arith)
                requires 1 <= self@.side, x < self@.side, y < self@.side;
        }
        let i: usize = ((y as usize) * (self.side as usize) + (x as usize)) * 4 + (c as usize);
        self.data.set(i, v);
        proof {
            assert forall|px: int, py: int, pc: int|
                old(self)@.in_range(px, py, pc) && !(px == x && py == y && pc == c)
                    implies self@.chan(px, py, pc) == old(self)@.chan(px, py, pc) by {
                lemma_pix_encode(old(self)@.side, px, py, pc);
                lemma_pix_encode(old(self)@.side, x as int, y as int, c as int);
                assert(pix(old(self)@.side, px, py, pc) != i);
            }
        }
    }
}

} // verus!
