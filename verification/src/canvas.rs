//! Painting into the dock's shared-memory canvas: four bytes per pixel, row by row.
use vstd::prelude::*;
use vstd::arithmetic::div_mod::{lemma_fundamental_div_mod, lemma_fundamental_div_mod_converse};

verus! {

/// A rectangle of pixels: left, top, width, height.
#[derive(Clone, Copy)]
pub struct Rect {
    pub x: usize,
    pub y: usize,
    pub w: usize,
    pub h: usize,
}

/// Column of the pixel that byte `i` belongs to, on a canvas `w` pixels wide.
pub open spec fn px_x(i: int, w: int) -> int {
    (i / 4) % w
}

/// Row of the pixel that byte `i` belongs to.
pub open spec fn px_y(i: int, w: int) -> int {
    (i / 4) / w
}

pub open spec fn in_rect(r: Rect, x: int, y: int) -> bool {
    r.x <= x < r.x + r.w && r.y <= y < r.y + r.h
}

/// Byte `i` of a `w` x `h` canvas is one of the first `ch` channels of a pixel in `r`.
pub open spec fn paints(w: int, h: int, r: Rect, ch: int, i: int) -> bool {
    0 <= i < w * h * 4 && i % 4 < ch && in_rect(r, px_x(i, w), px_y(i, w))
}

/// The canvas `c` with the first `ch` channels of every pixel of `r` (clipped to the
/// canvas) set to `color`.
pub open spec fn spec_fill(c: Seq<u8>, w: int, h: int, r: Rect, color: Seq<u8>, ch: int) -> Seq<u8> {
    Seq::new(c.len(), |i: int| if paints(w, h, r, ch, i) { color[i % 4] } else { c[i] })
}

/// Byte `k` of the pixel at `(x, y)` sits at `(y * w + x) * 4 + k`.
pub proof fn lemma_px(w: int, x: int, y: int, k: int)
    requires
        0 < w,
        0 <= x < w,
        0 <= y,
        0 <= k < 4,
    ensures
        ((y * w + x) * 4 + k) % 4 == k,
        px_x((y * w + x) * 4 + k, w) == x,
        px_y((y * w + x) * 4 + k, w) == y,
{
    assert(0 <= y * w) by (nonlinear_arith)
        requires
            0 <= y,
            0 < w,
    ;
    lemma_fundamental_div_mod_converse((y * w + x) * 4 + k, 4, y * w + x, k);
    lemma_fundamental_div_mod_converse(y * w + x, w, y, x);
}

/// Every byte belongs to a pixel and a channel.
pub proof fn lemma_px_inv(w: int, i: int)
    requires
        0 < w,
        0 <= i,
    ensures
        i == (px_y(i, w) * w + px_x(i, w)) * 4 + i % 4,
        0 <= px_x(i, w) < w,
        0 <= px_y(i, w),
        0 <= i % 4 < 4,
{
    lemma_fundamental_div_mod(i, 4);
    lemma_fundamental_div_mod(i / 4, w);
    assert((i / 4) / w * w == w * ((i / 4) / w)) by (nonlinear_arith);
    assert(0 <= (i / 4) / w) by (nonlinear_arith)
        requires
            0 <= i / 4,
            0 < w,
    ;
}

proof fn lemma_px_bound(w: int, h: int, x: int, y: int, k: int)
    requires
        0 <= x < w,
        0 <= y < h,
        0 <= k < 4,
    ensures
        (y * w + x) * 4 + k < w * h * 4,
        0 <= (y * w + x) * 4 + k,
{
    assert((y * w + x) * 4 + k < w * h * 4 && 0 <= y * w) by (nonlinear_arith)
        requires
            0 <= x < w,
            0 <= y < h,
            0 <= k < 4,
    ;
}

pub proof fn lemma_px_lt(w: int, h: int, i: int)
    requires
        0 < w,
        0 <= i < w * h * 4,
    ensures
        px_y(i, w) < h,
{
    lemma_px_inv(w, i);
    let x = px_x(i, w);
    let y = px_y(i, w);
    if y >= h {
        assert((y * w + x) * 4 + i % 4 >= w * h * 4) by (nonlinear_arith)
            requires
                y >= h,
                0 <= x,
                0 <= i % 4,
                0 < w,
        ;
    }
}

/// Sets the first `ch` channels of every pixel of `r` that lies on the `w` x `h` canvas.
pub fn fill_rect(canvas: &mut [u8], w: usize, h: usize, r: Rect, color: [u8; 4], ch: usize)
    requires
        w * h * 4 <= old(canvas)@.len(),
        ch <= 4,
    ensures
        final(canvas)@ == spec_fill(old(canvas)@, w as int, h as int, r, color@, ch as int),
{
    let ghost c0 = canvas@;
    let n = canvas.len();
    if w == 0 || h == 0 {
        assert(canvas@ =~= spec_fill(c0, w as int, h as int, r, color@, ch as int));
        return;
    }
    let y_end = if r.y >= h { h } else if r.h <= h - r.y { r.y + r.h } else { h };
    let x_end = if r.x >= w { w } else if r.w <= w - r.x { r.x + r.w } else { w };
    let mut y = r.y;
    while y < y_end
        invariant
            n == canvas@.len(),
            n == c0.len(),
            w * h * 4 <= n,
            0 < w,
            0 < h,
            ch <= 4,
            r.y <= y,
            y_end <= h,
            y_end <= r.y + r.h || r.y >= h,
            x_end <= w,
            x_end == (if r.x >= w { w as int } else if r.w <= w - r.x { r.x + r.w } else { w as int }),
            y_end == (if r.y >= h { h as int } else if r.h <= h - r.y { r.y + r.h } else { h as int }),
            y < y_end ==> y < h,
            forall|i: int| #![trigger canvas@[i]] 0 <= i < n ==> canvas@[i] == (if paints(w as int, h as int, r, ch as int, i) && px_y(i, w as int) < y {
                color@[i % 4]
            } else {
                c0[i]
            }),
        decreases y_end - y,
    {
        let mut x = r.x;
        while x < x_end
            invariant
                n == canvas@.len(),
                n == c0.len(),
                w * h * 4 <= n,
                0 < w,
                0 < h,
                ch <= 4,
                r.y <= y < y_end,
                y < h,
                y < r.y + r.h,
                y_end <= h,
                y_end <= r.y + r.h || r.y >= h,
                x_end <= w,
                x_end == (if r.x >= w { w as int } else if r.w <= w - r.x { r.x + r.w } else { w as int }),
                r.x <= x,
                forall|i: int| #![trigger canvas@[i]] 0 <= i < n ==> canvas@[i] == (if paints(w as int, h as int, r, ch as int, i) && (px_y(i, w as int) < y
                    || (px_y(i, w as int) == y && px_x(i, w as int) < x)) {
                    color@[i % 4]
                } else {
                    c0[i]
                }),
            decreases x_end - x,
        {
            proof { lemma_px_bound(w as int, h as int, x as int, y as int, 3); }
            let base = (y * w + x) * 4;
            let mut k: usize = 0;
            while k < ch
                invariant
                    n == canvas@.len(),
                    n == c0.len(),
                    w * h * 4 <= n,
                    0 < w,
                    ch <= 4,
                    r.y <= y < y_end,
                    y < h,
                    y < r.y + r.h,
                    x_end <= w,
                    x_end <= r.x + r.w,
                    r.x <= x < x_end,
                    base == (y * w + x) * 4,
                    base + 3 < w * h * 4,
                    k <= ch,
                    forall|i: int| #![trigger canvas@[i]] 0 <= i < n ==> canvas@[i] == (if paints(w as int, h as int, r, ch as int, i) && (px_y(i, w as int) < y
                        || (px_y(i, w as int) == y && px_x(i, w as int) < x) || (px_y(i, w as int) == y && px_x(i, w as int) == x && i % 4 < k)) {
                        color@[i % 4]
                    } else {
                        c0[i]
                    }),
                decreases ch - k,
            {
                let ghost before = canvas@;
                canvas[base + k] = color[k];
                proof {
                    let j = base + k;
                    lemma_px(w as int, x as int, y as int, k as int);
                    lemma_px_bound(w as int, h as int, x as int, y as int, k as int);
                    assert forall|i: int| 0 <= i < n implies #[trigger] canvas@[i] == (if paints(w as int, h as int, r, ch as int, i) && (px_y(i, w as int) < y
                        || (px_y(i, w as int) == y && px_x(i, w as int) < x) || (px_y(i, w as int) == y && px_x(i, w as int) == x && i % 4 < k + 1)) {
                        color@[i % 4]
                    } else {
                        c0[i]
                    }) by {
                        if i != j {
                            assert(canvas@[i] == before[i]);
                            lemma_px_inv(w as int, i);
                            if px_y(i, w as int) == y && px_x(i, w as int) == x && i % 4 == k {
                                assert(i == j);
                            }
                        }
                    }
                }
                k += 1;
            }
            proof {
                assert forall|i: int| 0 <= i < n implies #[trigger] canvas@[i] == (if paints(w as int, h as int, r, ch as int, i) && (px_y(i, w as int) < y
                    || (px_y(i, w as int) == y && px_x(i, w as int) < x + 1)) {
                    color@[i % 4]
                } else {
                    c0[i]
                }) by {
                    lemma_px_inv(w as int, i);
                }
            }
            x += 1;
        }
        proof {
            assert forall|i: int| 0 <= i < n implies #[trigger] canvas@[i] == (if paints(w as int, h as int, r, ch as int, i) && px_y(i, w as int) < y + 1 {
                color@[i % 4]
            } else {
                c0[i]
            }) by {
                lemma_px_inv(w as int, i);
                if paints(w as int, h as int, r, ch as int, i) && px_y(i, w as int) == y {
                    assert(px_x(i, w as int) < x_end);
                }
            }
        }
        y += 1;
    }
    proof {
        assert forall|i: int| 0 <= i < n implies #[trigger] canvas@[i] == spec_fill(c0, w as int, h as int, r, color@, ch as int)[i] by {
            if paints(w as int, h as int, r, ch as int, i) {
                lemma_px_lt(w as int, h as int, i);
            }
        }
        assert(canvas@ =~= spec_fill(c0, w as int, h as int, r, color@, ch as int));
    }
}

} // verus!
