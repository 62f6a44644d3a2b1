//! Index logic of the 2D Fourier transform: moving the zero-frequency
//! coefficient from the corner to the center of the buffer.

use vstd::prelude::*;
use vstd::arithmetic::div_mod::lemma_fundamental_div_mod_converse;

verus! {

/// Where cell (x, y) of the centered `w` by `h` buffer comes from. The
/// split points are ceil(w/2) and ceil(h/2): the floor(w/2) by floor(h/2)
/// top-left block trades places with the block that starts at the split
/// point, the top-right with the bottom-left; for odd sizes the middle
/// column or row stays where it is.
pub open spec fn shift_source(x: int, y: int, w: int, h: int) -> (int, int) {
    let hw = w / 2;
    let hh = h / 2;
    let cw = w - hw;
    let ch = h - hh;
    if x < hw && y < hh {
        (x + cw, y + ch)
    } else if x >= cw && y >= ch {
        (x - cw, y - ch)
    } else if x >= cw && y < hh {
        (x - cw, y + ch)
    } else if x < hw && y >= ch {
        (x + cw, y - ch)
    } else {
        (x, y)
    }
}

/// The row-major `w` by `h` buffer `s` with its quadrants swapped.
pub open spec fn shifted<T>(s: Seq<T>, w: int, h: int) -> Seq<T> {
    Seq::new(
        s.len(),
        |k: int|
            {
                let p = shift_source(k % w, k / w, w, h);
                s[p.1 * w + p.0]
            },
    )
}

proof fn lemma_cell(x: int, y: int, w: int, h: int)
    requires
        0 <= x < w,
        0 <= y < h,
    ensures
        0 <= y * w + x < w * h,
        (y * w + x) % w == x,
        (y * w + x) / w == y,
{
    assert(0 <= y * w + x < w * h) by (nonlinear_arith)
        requires
            0 <= x < w,
            0 <= y < h,
    ;
    lemma_fundamental_div_mod_converse(y * w + x, w, y, x);
}

fn shift_source_exec(x: usize, y: usize, w: usize, h: usize) -> (r: (usize, usize))
    requires
        x < w,
        y < h,
    ensures
        r.0 as int == shift_source(x as int, y as int, w as int, h as int).0,
        r.1 as int == shift_source(x as int, y as int, w as int, h as int).1,
        r.0 < w,
        r.1 < h,
{
    let hw = w / 2;
    let hh = h / 2;
    let cw = w - hw;
    let ch = h - hh;
    if x < hw && y < hh {
        (x + cw, y + ch)
    } else if x >= cw && y >= ch {
        (x - cw, y - ch)
    } else if x >= cw && y < hh {
        (x - cw, y + ch)
    } else if x < hw && y >= ch {
        (x + cw, y - ch)
    } else {
        (x, y)
    }
}

/// Swap the diagonal quadrants of a row-major `width` by `height` buffer,
/// so that what stood at (0, 0) comes to (ceil(width/2), ceil(height/2)).
pub fn shift_fft<T: Copy>(buffer: &mut Vec<T>, width: usize, height: usize)
    requires
        old(buffer)@.len() == width * height,
    ensures
        final(buffer)@ == shifted(old(buffer)@, width as int, height as int),
{
    let ghost src = buffer@;
    let ghost target = shifted(src, width as int, height as int);
    let n = buffer.len();
    let mut out: Vec<T> = Vec::new();
    let mut y: usize = 0;
    while y < height
        invariant
            buffer@ == src,
            n == src.len(),
            n == (width as int) * (height as int),
            target == shifted(src, width as int, height as int),
            y <= height,
            out@.len() == (y as int) * (width as int),
            forall|k: int| 0 <= k < out@.len() ==> out@[k] == target[k],
        decreases height - y,
    {
        let mut x: usize = 0;
        while x < width
            invariant
                buffer@ == src,
                n == src.len(),
                n == (width as int) * (height as int),
                target == shifted(src, width as int, height as int),
                y < height,
                x <= width,
                out@.len() == (y as int) * (width as int) + x,
                forall|k: int| 0 <= k < out@.len() ==> out@[k] == target[k],
            decreases width - x,
        {
            let (sx, sy) = shift_source_exec(x, y, width, height);
            proof {
                lemma_cell(sx as int, sy as int, width as int, height as int);
                lemma_cell(x as int, y as int, width as int, height as int);
            }
            let v = buffer[sy * width + sx];
            out.push(v);
            x = x + 1;
        }
        assert((y as int) * (width as int) + (width as int) == (y as int + 1) * (width as int))
            by (nonlinear_arith);
        y = y + 1;
    }
    assert((height as int) * (width as int) == (width as int) * (height as int))
        by (nonlinear_arith);
    assert(out@ =~= target);
    *buffer = out;
}

/// After the shift, the coefficient that stood at (0, 0) stands at the
/// split point (ceil(w/2), ceil(h/2)), for any buffer at least 2 by 2.
pub proof fn lemma_corner_moves_to_split_point<T>(s: Seq<T>, w: int, h: int)
    requires
        w >= 2,
        h >= 2,
        s.len() == w * h,
    ensures
        shifted(s, w, h)[(h - h / 2) * w + (w - w / 2)] == s[0],
{
    let cw = w - w / 2;
    let ch = h - h / 2;
    lemma_cell(cw, ch, w, h);
    assert(shift_source(cw, ch, w, h) == (0int, 0int));
    assert(0 * w + 0 == 0) by (nonlinear_arith);
}

} // verus!
