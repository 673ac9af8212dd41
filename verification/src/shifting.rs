//! Per-frame pixel translation with boundary clipping: the geometric core
//! of the slide generator, on flat row-major grids.

use vstd::prelude::*;

verus! {

/// An all-false pixel grid of `n` pixels.
pub open spec fn blank_frame(n: nat) -> Seq<bool> {
    Seq::new(n, |i: int| false)
}

/// A `w` by `h` grid whose only lit pixel is `(px, py)`.
pub open spec fn single_pixel_frame(w: int, h: int, px: int, py: int) -> Seq<bool> {
    Seq::new((w * h) as nat, |q: int| q == py * w + px)
}

/// The source grid translated by `(dx, dy)`: destination pixel `(x, y)`
/// shows source pixel `(x - dx, y - dy)`, and destinations whose source
/// would lie outside the grid are unlit (content is clipped, not wrapped).
pub open spec fn shifted_frame(src: Seq<bool>, w: int, h: int, dx: int, dy: int) -> Seq<bool> {
    Seq::new(
        (w * h) as nat,
        |q: int|
            {
                let x = q % w;
                let y = q / w;
                0 <= x - dx < w && 0 <= y - dy < h && src[(y - dy) * w + (x - dx)]
            },
    )
}

/// Row-major decomposition of a flat index within a `w` by `h` grid.
proof fn lemma_rowmajor_decompose(q: int, w: int, h: int)
    requires
        w >= 1,
        h >= 1,
        0 <= q < w * h,
    ensures
        0 <= q % w < w,
        0 <= q / w < h,
        (q / w) * w + q % w == q,
{
    assert(0 <= q % w < w && 0 <= q / w < h && (q / w) * w + q % w == q) by (nonlinear_arith)
        requires
            w >= 1,
            h >= 1,
            0 <= q < w * h,
    ;
}

/// Two row-major coordinates with equal flat index are the same coordinate.
proof fn lemma_rowmajor_unique(w: int, x1: int, y1: int, x2: int, y2: int)
    requires
        w >= 1,
        0 <= x1 < w,
        0 <= x2 < w,
        y1 * w + x1 == y2 * w + x2,
    ensures
        x1 == x2,
        y1 == y2,
{
    assert(x1 == x2 && y1 == y2) by (nonlinear_arith)
        requires
            w >= 1,
            0 <= x1 < w,
            0 <= x2 < w,
            y1 * w + x1 == y2 * w + x2,
    ;
}

/// Translating by the zero vector reproduces the source frame.
pub proof fn lemma_shifted_identity(src: Seq<bool>, w: int, h: int)
    requires
        w >= 1,
        h >= 1,
        src.len() == w * h,
    ensures
        shifted_frame(src, w, h, 0, 0) == src,
{
    assert forall|q: int| 0 <= q < w * h implies shifted_frame(src, w, h, 0, 0)[q] == src[q] by {
        lemma_rowmajor_decompose(q, w, h);
    }
    assert(shifted_frame(src, w, h, 0, 0) =~= src);
}

/// Where the only lit pixel of a source frame lands under translation by
/// `(dx, dy)`: at `(px + dx, py + dy)` if that destination is on the grid,
/// and nowhere at all if the translation pushes it off the grid.
pub proof fn lemma_shifted_single_pixel(w: int, h: int, px: int, py: int, dx: int, dy: int)
    requires
        w >= 1,
        h >= 1,
        0 <= px < w,
        0 <= py < h,
    ensures
        0 <= px + dx < w && 0 <= py + dy < h ==> shifted_frame(
            single_pixel_frame(w, h, px, py),
            w,
            h,
            dx,
            dy,
        ) == single_pixel_frame(w, h, px + dx, py + dy),
        !(0 <= px + dx < w && 0 <= py + dy < h) ==> shifted_frame(
            single_pixel_frame(w, h, px, py),
            w,
            h,
            dx,
            dy,
        ) == blank_frame((w * h) as nat),
{
    let src = single_pixel_frame(w, h, px, py);
    let out = shifted_frame(src, w, h, dx, dy);
    assert(0 <= py * w + px < w * h) by (nonlinear_arith)
        requires
            w >= 1,
            h >= 1,
            0 <= px < w,
            0 <= py < h,
    ;
    assert forall|q: int| 0 <= q < w * h implies out[q] == (q == (py + dy) * w + (px + dx) && 0 <= px
        + dx < w && 0 <= py + dy < h) by {
        lemma_rowmajor_decompose(q, w, h);
        let x = q % w;
        let y = q / w;
        if 0 <= x - dx < w && 0 <= y - dy < h {
            // `out[q]` holds exactly when the source coordinate is the lit pixel.
            assert(src[(y - dy) * w + (x - dx)] == ((y - dy) * w + (x - dx) == py * w + px)) by {
                assert(0 <= (y - dy) * w + (x - dx) < w * h) by (nonlinear_arith)
                    requires
                        w >= 1,
                        h >= 1,
                        0 <= x - dx < w,
                        0 <= y - dy < h,
                ;
            }
            if (y - dy) * w + (x - dx) == py * w + px {
                lemma_rowmajor_unique(w, x - dx, y - dy, px, py);
                assert(q == (py + dy) * w + (px + dx)) by (nonlinear_arith)
                    requires
                        x == px + dx,
                        y == py + dy,
                        y * w + x == q,
                ;
            } else {
                if q == (py + dy) * w + (px + dx) && 0 <= px + dx < w && 0 <= py + dy < h {
                    lemma_rowmajor_unique(w, x, y, px + dx, py + dy);
                }
            }
        } else {
            // The source coordinate is off the grid, so `out[q]` is false;
            // and `q` cannot be the translated pixel, whose source is on it.
            if q == (py + dy) * w + (px + dx) && 0 <= px + dx < w && 0 <= py + dy < h {
                lemma_rowmajor_unique(w, x, y, px + dx, py + dy);
            }
        }
    }
    if 0 <= px + dx < w && 0 <= py + dy < h {
        assert(out =~= single_pixel_frame(w, h, px + dx, py + dy));
    } else {
        assert forall|q: int| 0 <= q < w * h implies !out[q] by {
            assert(0 <= (py + dy) * w + (px + dx) < w * h ==> (0 <= px + dx < w && 0 <= py + dy
                < h) || (py + dy) * w + (px + dx) != q || !out[q]);
        }
        assert(out =~= blank_frame((w * h) as nat));
    }
}

/// Builds the translate-and-clip copy of one frame: the executable form of
/// [`shifted_frame`].
pub fn shifted_copy(src: &Vec<bool>, w: usize, h: usize, dx: i32, dy: i32) -> (r: Vec<bool>)
    requires
        1 <= w <= 64,
        1 <= h <= 64,
        src@.len() == w * h,
        -64 <= dx <= 64,
        -64 <= dy <= 64,
    ensures
        r@ == shifted_frame(src@, w as int, h as int, dx as int, dy as int),
{
    let ghost target = shifted_frame(src@, w as int, h as int, dx as int, dy as int);
    proof {
        assert(w * h <= 64 * 64) by (nonlinear_arith)
            requires
                w <= 64,
                h <= 64,
        ;
    }
    let n = w * h;
    let mut r: Vec<bool> = Vec::new();
    let mut q: usize = 0;
    while q < n
        invariant
            1 <= w <= 64,
            1 <= h <= 64,
            n == w * h,
            src@.len() == n,
            -64 <= dx <= 64,
            -64 <= dy <= 64,
            q <= n,
            r@.len() == q,
            forall|p: int| 0 <= p < q ==> r@[p] == target[p],
            target == shifted_frame(src@, w as int, h as int, dx as int, dy as int),
        decreases n - q,
    {
        let x = q % w;
        let y = q / w;
        proof {
            lemma_rowmajor_decompose(q as int, w as int, h as int);
        }
        let sx = x as i32 - dx;
        let sy = y as i32 - dy;
        let value = if 0 <= sx && sx < w as i32 && 0 <= sy && sy < h as i32 {
            proof {
                assert(sy * w + sx < w * h) by (nonlinear_arith)
                    requires
                        0 <= sx < w,
                        0 <= sy < h,
                ;
            }
            let si = (sy as usize) * w + sx as usize;
            *src.get(si).unwrap()
        } else {
            false
        };
        r.push(value);
        q = q + 1;
    }
    proof {
        assert(r@ =~= target);
    }
    r
}

} // verus!
