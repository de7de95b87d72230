//! Placing rasterized glyphs on a frame: which frame pixel each covered glyph pixel
//! lands on, and where each glyph of a line of text starts.
use vstd::prelude::*;

verus! {

/// Size and placement of a rasterized glyph: its bitmap is `width` x `height`
/// coverage bytes, row by row; `xmin` is its offset from the pen position and `ymin`
/// the offset of its bottom row from the baseline (upwards).
pub struct GlyphBox {
    pub width: usize,
    pub height: usize,
    pub xmin: i32,
    pub ymin: i32,
}

/// Where glyph pixel `(col, row)` goes when the pen is at `(x, y)`: `Some((frame byte
/// of the pixel's first channel, bitmap index))` if the glyph covers the pixel at all
/// and it lies on the `w` x `h` frame of `len` bytes.
pub open spec fn glyph_pixel(len: int, w: int, h: int, g: GlyphBox, bitmap: Seq<u8>, x: int, y: int, col: int, row: int) -> Option<(usize, usize)> {
    let idx = row * g.width + col;
    let tx = x + g.xmin + col;
    let ty = y - g.ymin - row;
    let p = (ty * w + tx) * 4;
    if bitmap[idx] != 0 && 0 <= tx < w && 0 <= ty < h && p + 3 < len {
        Some((p as usize, idx as usize))
    } else {
        None
    }
}

/// The placed pixels of the first `n` columns of glyph row `row`.
pub open spec fn glyph_row(len: int, w: int, h: int, g: GlyphBox, bitmap: Seq<u8>, x: int, y: int, row: int, n: int) -> Seq<(usize, usize)>
    decreases n,
{
    if n <= 0 {
        Seq::empty()
    } else {
        let r = glyph_row(len, w, h, g, bitmap, x, y, row, n - 1);
        match glyph_pixel(len, w, h, g, bitmap, x, y, n - 1, row) {
            Some(p) => r.push(p),
            None => r,
        }
    }
}

/// The placed pixels of the first `n` rows of the glyph, row by row.
pub open spec fn glyph_rows(len: int, w: int, h: int, g: GlyphBox, bitmap: Seq<u8>, x: int, y: int, n: int) -> Seq<(usize, usize)>
    decreases n,
{
    if n <= 0 {
        Seq::empty()
    } else {
        glyph_rows(len, w, h, g, bitmap, x, y, n - 1) + glyph_row(len, w, h, g, bitmap, x, y, n - 1, g.width as int)
    }
}

/// The glyph pixels that land on a `width` x `height` frame of `frame_len` bytes when
/// the pen is at column `x` on baseline `y`, row by row: for each, the frame byte of
/// its first channel and its index in `bitmap`.  Pixels the glyph does not cover
/// (coverage 0), that fall off the frame, or whose four bytes do not all lie within
/// the frame are left out.
pub fn glyph_pixels(frame_len: usize, width: usize, height: usize, g: &GlyphBox, bitmap: &[u8], x: usize, y: usize) -> (r: Vec<(usize, usize)>)
    requires
        g.width * g.height <= bitmap@.len(),
        x + g.width + (if g.xmin >= 0 { g.xmin as int } else { -g.xmin }) <= i32::MAX,
        y + g.height + (if g.ymin >= 0 { g.ymin as int } else { -g.ymin }) <= i32::MAX,
        width * height * 4 <= usize::MAX,
    ensures
        r@ == glyph_rows(frame_len as int, width as int, height as int, *g, bitmap@, x as int, y as int, g.height as int),
{
    let blen = bitmap.len();
    let mut out: Vec<(usize, usize)> = Vec::new();
    let mut row: usize = 0;
    while row < g.height
        invariant
            row <= g.height,
            blen == bitmap@.len(),
            g.width * g.height <= blen,
            x + g.width + (if g.xmin >= 0 { g.xmin as int } else { -g.xmin }) <= i32::MAX,
            y + g.height + (if g.ymin >= 0 { g.ymin as int } else { -g.ymin }) <= i32::MAX,
            width * height * 4 <= usize::MAX,
            out@ == glyph_rows(frame_len as int, width as int, height as int, *g, bitmap@, x as int, y as int, row as int),
        decreases g.height - row,
    {
        let ghost base = out@;
        let mut col: usize = 0;
        while col < g.width
            invariant
                col <= g.width,
                row < g.height,
                blen == bitmap@.len(),
                g.width * g.height <= blen,
                x + g.width + (if g.xmin >= 0 { g.xmin as int } else { -g.xmin }) <= i32::MAX,
                y + g.height + (if g.ymin >= 0 { g.ymin as int } else { -g.ymin }) <= i32::MAX,
                width * height * 4 <= usize::MAX,
                base == glyph_rows(frame_len as int, width as int, height as int, *g, bitmap@, x as int, y as int, row as int),
                out@ == base + glyph_row(frame_len as int, width as int, height as int, *g, bitmap@, x as int, y as int, row as int, col as int),
            decreases g.width - col,
        {
            assert(row * g.width + col < g.width * g.height) by (nonlinear_arith)
                requires
                    row < g.height,
                    col < g.width,
            ;
            let idx = row * g.width + col;
            let tx: i64 = x as i64 + g.xmin as i64 + col as i64;
            let ty: i64 = y as i64 - g.ymin as i64 - row as i64;
            if bitmap[idx] != 0 && tx >= 0 && (tx as usize) < width && ty >= 0 && (ty as usize) < height {
                let cx = tx as usize;
                let cy = ty as usize;
                assert((cy * width + cx) * 4 + 3 < width * height * 4) by (nonlinear_arith)
                    requires
                        cx < width,
                        cy < height,
                ;
                let p = (cy * width + cx) * 4;
                if p + 3 < frame_len {
                    out.push((p, idx));
                }
            }
            assert(out@ =~= base + glyph_row(frame_len as int, width as int, height as int, *g, bitmap@, x as int, y as int, row as int, col + 1));
            col += 1;
        }
        assert(out@ =~= glyph_rows(frame_len as int, width as int, height as int, *g, bitmap@, x as int, y as int, row + 1));
        row += 1;
    }
    out
}

/// Pen positions of a line of text whose glyphs advance the pen by `adv`, starting at
/// `start`: the position of each glyph drawn, and where the pen ends.  With
/// `stop_at_edge`, the line ends after the first glyph that moves the pen to or past
/// column `width`.
pub open spec fn pen_positions(adv: Seq<usize>, start: int, width: int, stop_at_edge: bool) -> (Seq<usize>, int)
    decreases adv.len(),
{
    if adv.len() == 0 {
        (Seq::empty(), start)
    } else {
        let next = start + adv[0];
        if stop_at_edge && next >= width {
            (seq![start as usize], next)
        } else {
            let rest = pen_positions(adv.drop_first(), next, width, stop_at_edge);
            (seq![start as usize] + rest.0, rest.1)
        }
    }
}

/// Where each glyph of a line goes, given the (rounded) advance of each glyph: the pen
/// position of each glyph drawn, and the pen position at the end of the line.
pub fn lay_out_line(start: usize, advances: &Vec<usize>, width: usize, stop_at_edge: bool) -> (r: (Vec<usize>, usize))
    requires
        start + (advances@.len() + 1) * 0x1_0000 <= usize::MAX,
        forall|i: int| 0 <= i < advances@.len() ==> #[trigger] advances@[i] <= 0x1_0000,
    ensures
        r.0@ == pen_positions(advances@, start as int, width as int, stop_at_edge).0,
        r.1 == pen_positions(advances@, start as int, width as int, stop_at_edge).1,
{
    let mut pos: Vec<usize> = Vec::new();
    let mut cursor = start;
    assert(advances@.skip(0) =~= advances@);
    let mut i: usize = 0;
    while i < advances.len()
        invariant
            i <= advances@.len(),
            start + (advances@.len() + 1) * 0x1_0000 <= usize::MAX,
            forall|k: int| 0 <= k < advances@.len() ==> #[trigger] advances@[k] <= 0x1_0000,
            cursor <= start + i * 0x1_0000,
            ({
                let whole = pen_positions(advances@, start as int, width as int, stop_at_edge);
                let rest = pen_positions(advances@.skip(i as int), cursor as int, width as int, stop_at_edge);
                whole.0 == pos@ + rest.0 && whole.1 == rest.1
            }),
        decreases advances@.len() - i,
    {
        let ghost s = advances@.skip(i as int);
        assert(s[0] == advances@[i as int]);
        assert(s.drop_first() =~= advances@.skip(i + 1));
        assert(cursor + advances@[i as int] <= start + (i + 1) * 0x1_0000) by (nonlinear_arith)
            requires
                cursor <= start + i * 0x1_0000,
                advances@[i as int] <= 0x1_0000,
        ;
        assert(start + (i + 1) * 0x1_0000 <= start + (advances@.len() + 1) * 0x1_0000) by (nonlinear_arith)
            requires
                i < advances@.len(),
        ;
        pos.push(cursor);
        cursor = cursor + advances[i];
        i += 1;
        if stop_at_edge && cursor >= width {
            return (pos, cursor);
        }
    }
    assert(advances@.skip(advances@.len() as int) =~= Seq::<usize>::empty());
    assert(pos@ + Seq::<usize>::empty() =~= pos@);
    (pos, cursor)
}

} // verus!
