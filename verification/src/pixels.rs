//! Software drawing into tightly packed BGRA frame buffers (4 bytes per pixel,
//! rows of `width` pixels, byte order blue, green, red, alpha).
use vstd::prelude::*;
use vstd::arithmetic::div_mod::{lemma_fundamental_div_mod, lemma_fundamental_div_mod_converse};
use vstd::arithmetic::mul::lemma_mul_inequality;

verus! {

/// Pixel row of byte `i` in a frame `width` pixels wide.
pub open spec fn pixel_row(i: int, width: int) -> int {
    (i / 4) / width
}

/// Pixel column of byte `i` in a frame `width` pixels wide.
pub open spec fn pixel_col(i: int, width: int) -> int {
    (i / 4) % width
}

/// Which of the four bytes of its pixel byte `i` is (0 blue, 1 green, 2 red, 3 alpha).
pub open spec fn channel(i: int) -> int {
    i % 4
}

/// Byte `k` of the opaque BGRA pixel for the colour `(r, g, b)`.
pub open spec fn bgra_byte(color: (u8, u8, u8), k: int) -> u8 {
    if k == 0 {
        color.2
    } else if k == 1 {
        color.1
    } else if k == 2 {
        color.0
    } else {
        255u8
    }
}

/// End of the interval that starts at `start` and spans `extent`, cut at `bound`.
pub open spec fn clip(start: int, extent: int, bound: int) -> int {
    if start + extent <= bound {
        start + extent
    } else {
        bound
    }
}

/// Byte `i` belongs to a pixel of columns `x..lx` in rows `y..ly`, and the
/// whole span of its row lies inside a buffer of `len` bytes.
pub open spec fn in_row_span(len: int, width: int, x: int, lx: int, y: int, ly: int, i: int) -> bool {
    &&& 0 <= i < len
    &&& width > 0
    &&& y <= pixel_row(i, width) < ly
    &&& x <= pixel_col(i, width) < lx
    &&& (pixel_row(i, width) * width + lx) * 4 <= len
}

/// The byte offsets of the clipped rectangle's rows fit in a `usize`.
pub open spec fn rect_offsets_fit(width: int, height: int, x: int, y: int, w: int, h: int) -> bool {
    let lx = clip(x, w, width);
    let ly = clip(y, h, height);
    (x < lx && y < ly) ==> ((ly - 1) * width + lx) * 4 <= usize::MAX
}

/// Byte `k` of pixel `(r, c)` has that row, column and channel.
proof fn lemma_pixel_byte(width: int, r: int, c: int, k: int)
    requires
        width > 0,
        r >= 0,
        0 <= c < width,
        0 <= k < 4,
    ensures
        pixel_row((r * width + c) * 4 + k, width) == r,
        pixel_col((r * width + c) * 4 + k, width) == c,
        channel((r * width + c) * 4 + k) == k,
{
    let q = r * width + c;
    lemma_fundamental_div_mod_converse(q * 4 + k, 4, q, k);
    lemma_fundamental_div_mod_converse(q, width, r, c);
}

/// Every byte is byte `channel` of pixel `(row, col)`.
proof fn lemma_pixel_decompose(i: int, width: int)
    requires
        i >= 0,
        width > 0,
    ensures
        i == (pixel_row(i, width) * width + pixel_col(i, width)) * 4 + channel(i),
        pixel_row(i, width) >= 0,
        0 <= pixel_col(i, width) < width,
        0 <= channel(i) < 4,
{
    let q = i / 4;
    let r = q / width;
    let c = q % width;
    lemma_fundamental_div_mod(i, 4);
    lemma_fundamental_div_mod(q, width);
    assert(i == (r * width + c) * 4 + i % 4) by (nonlinear_arith)
        requires
            i == 4 * q + i % 4,
            q == width * r + c,
    ;
    assert(r >= 0) by (nonlinear_arith)
        requires
            i >= 0,
            width > 0,
            q == i / 4,
            r == q / width,
    ;
}

/// Paints the rectangle of `w` by `h` pixels at `(x, y)`, clipped to the frame,
/// with the opaque colour `(r, g, b)`. A row whose span does not fit in the
/// buffer is left as it was.
pub fn fill_rect(
    pixels: &mut [u8],
    width: u32,
    height: u32,
    x: usize,
    y: usize,
    w: usize,
    h: usize,
    color: (u8, u8, u8),
)
    requires
        rect_offsets_fit(width as int, height as int, x as int, y as int, w as int, h as int),
    ensures
        final(pixels)@.len() == old(pixels)@.len(),
        forall|i: int|
            0 <= i < old(pixels)@.len() ==> final(pixels)@[i] == (if in_row_span(
                old(pixels)@.len() as int,
                width as int,
                x as int,
                clip(x as int, w as int, width as int),
                y as int,
                clip(y as int, h as int, height as int),
                i,
            ) {
                bgra_byte(color, channel(i))
            } else {
                old(pixels)@[i]
            }),
{
    let end_y = y.saturating_add(h);
    let limit_y = if end_y < height as usize { end_y } else { height as usize };
    let end_x = x.saturating_add(w);
    let limit_x = if end_x < width as usize { end_x } else { width as usize };
    if limit_x <= x || limit_y <= y {
        return;
    }
    let wd = width as usize;
    let px_val: [u8; 4] = [color.2, color.1, color.0, 0xFF];
    let ghost len = pixels@.len() as int;
    let ghost lx = limit_x as int;
    let ghost ly = limit_y as int;
    assert(lx == clip(x as int, w as int, width as int));
    assert(ly == clip(y as int, h as int, height as int));
    let mut row = y;
    while row < limit_y
        invariant
            y <= row <= limit_y,
            x < limit_x <= wd,
            wd == width,
            lx == limit_x,
            ly == limit_y,
            limit_y <= height,
            ((ly - 1) * wd + lx) * 4 <= usize::MAX,
            len == old(pixels)@.len(),
            pixels@.len() == len,
            px_val@ == seq![color.2, color.1, color.0, 255u8],
            forall|i: int|
                0 <= i < len ==> pixels@[i] == (if in_row_span(len, wd as int, x as int, lx, y as int, ly, i)
                    && pixel_row(i, wd as int) < row {
                    bgra_byte(color, channel(i))
                } else {
                    old(pixels)@[i]
                }),
        decreases limit_y - row,
    {
        proof {
            lemma_mul_inequality(row as int, ly - 1, wd as int);
        }
        let end = (row * wd + limit_x) * 4;
        if end <= pixels.len() {
            let mut col = x;
            while col < limit_x
                invariant
                    y <= row < limit_y,
                    x <= col <= limit_x,
                    x < limit_x <= wd,
                    wd == width,
                    lx == limit_x,
                    ly == limit_y,
                    end == (row * wd + limit_x) * 4,
                    end <= len,
                    len == old(pixels)@.len(),
                    pixels@.len() == len,
                    px_val@ == seq![color.2, color.1, color.0, 255u8],
                    forall|i: int|
                        0 <= i < len ==> pixels@[i] == (if in_row_span(len, wd as int, x as int, lx, y as int, ly, i)
                            && (pixel_row(i, wd as int) < row || (pixel_row(i, wd as int) == row
                            && pixel_col(i, wd as int) < col)) {
                            bgra_byte(color, channel(i))
                        } else {
                            old(pixels)@[i]
                        }),
                decreases limit_x - col,
            {
                let o = (row * wd + col) * 4;
                pixels[o] = px_val[0];
                pixels[o + 1] = px_val[1];
                pixels[o + 2] = px_val[2];
                pixels[o + 3] = px_val[3];
                proof {
                    assert forall|i: int| 0 <= i < len implies pixels@[i] == (if in_row_span(len, wd as int, x as int, lx, y as int, ly, i)
                        && (pixel_row(i, wd as int) < row || (pixel_row(i, wd as int) == row
                        && pixel_col(i, wd as int) < col + 1)) {
                        bgra_byte(color, channel(i))
                    } else {
                        old(pixels)@[i]
                    }) by {
                        if o <= i < o + 4 {
                            lemma_pixel_byte(wd as int, row as int, col as int, i - o);
                        } else {
                            lemma_pixel_decompose(i, wd as int);
                        }
                    }
                }
                col = col + 1;
            }
        } else {
            proof {
                assert forall|i: int| 0 <= i < len implies pixels@[i] == (if in_row_span(len, wd as int, x as int, lx, y as int, ly, i)
                    && pixel_row(i, wd as int) < row + 1 {
                    bgra_byte(color, channel(i))
                } else {
                    old(pixels)@[i]
                }) by {
                }
            }
        }
        row = row + 1;
    }
}

/// A byte shifted right by one, that is halved.
fn halve(v: u8) -> (r: u8)
    ensures
        r == v / 2,
{
    assert(v >> 1 == v / 2) by (bit_vector);
    v >> 1
}

/// Halves every byte (each colour channel and alpha) of the rectangle of `w`
/// by `h` pixels at `(x, y)`, clipped to the frame. A row whose span does not
/// fit in the buffer is left as it was.
pub fn dim_rect(
    pixels: &mut [u8],
    width: u32,
    height: u32,
    x: usize,
    y: usize,
    w: usize,
    h: usize,
)
    requires
        rect_offsets_fit(width as int, height as int, x as int, y as int, w as int, h as int),
    ensures
        final(pixels)@.len() == old(pixels)@.len(),
        forall|i: int|
            0 <= i < old(pixels)@.len() ==> final(pixels)@[i] == (if in_row_span(
                old(pixels)@.len() as int,
                width as int,
                x as int,
                clip(x as int, w as int, width as int),
                y as int,
                clip(y as int, h as int, height as int),
                i,
            ) {
                (old(pixels)@[i] / 2) as u8
            } else {
                old(pixels)@[i]
            }),
{
    let end_y = y.saturating_add(h);
    let limit_y = if end_y < height as usize { end_y } else { height as usize };
    let end_x = x.saturating_add(w);
    let limit_x = if end_x < width as usize { end_x } else { width as usize };
    if limit_x <= x || limit_y <= y {
        return;
    }
    let wd = width as usize;
    let ghost len = pixels@.len() as int;
    let ghost lx = limit_x as int;
    let ghost ly = limit_y as int;
    assert(lx == clip(x as int, w as int, width as int));
    assert(ly == clip(y as int, h as int, height as int));
    let mut row = y;
    while row < limit_y
        invariant
            y <= row <= limit_y,
            x < limit_x <= wd,
            wd == width,
            lx == limit_x,
            ly == limit_y,
            limit_y <= height,
            ((ly - 1) * wd + lx) * 4 <= usize::MAX,
            len == old(pixels)@.len(),
            pixels@.len() == len,
            forall|i: int|
                0 <= i < len ==> pixels@[i] == (if in_row_span(len, wd as int, x as int, lx, y as int, ly, i)
                    && pixel_row(i, wd as int) < row {
                    (old(pixels)@[i] / 2) as u8
                } else {
                    old(pixels)@[i]
                }),
        decreases limit_y - row,
    {
        proof {
            lemma_mul_inequality(row as int, ly - 1, wd as int);
        }
        let end = (row * wd + limit_x) * 4;
        if end <= pixels.len() {
            let mut col = x;
            while col < limit_x
                invariant
                    y <= row < limit_y,
                    x <= col <= limit_x,
                    x < limit_x <= wd,
                    wd == width,
                    lx == limit_x,
                    ly == limit_y,
                    end == (row * wd + limit_x) * 4,
                    end <= len,
                    len == old(pixels)@.len(),
                    pixels@.len() == len,
                            forall|i: int|
                        0 <= i < len ==> pixels@[i] == (if in_row_span(len, wd as int, x as int, lx, y as int, ly, i)
                            && (pixel_row(i, wd as int) < row || (pixel_row(i, wd as int) == row
                            && pixel_col(i, wd as int) < col)) {
                            (old(pixels)@[i] / 2) as u8
                        } else {
                            old(pixels)@[i]
                        }),
                decreases limit_x - col,
            {
                let o = (row * wd + col) * 4;
                proof {
                    lemma_pixel_byte(wd as int, row as int, col as int, 0);
                    lemma_pixel_byte(wd as int, row as int, col as int, 1);
                    lemma_pixel_byte(wd as int, row as int, col as int, 2);
                    lemma_pixel_byte(wd as int, row as int, col as int, 3);
                }
                pixels[o] = halve(pixels[o]);
                pixels[o + 1] = halve(pixels[o + 1]);
                pixels[o + 2] = halve(pixels[o + 2]);
                pixels[o + 3] = halve(pixels[o + 3]);
                proof {
                    assert forall|i: int| 0 <= i < len implies pixels@[i] == (if in_row_span(len, wd as int, x as int, lx, y as int, ly, i)
                        && (pixel_row(i, wd as int) < row || (pixel_row(i, wd as int) == row
                        && pixel_col(i, wd as int) < col + 1)) {
                        (old(pixels)@[i] / 2) as u8
                    } else {
                        old(pixels)@[i]
                    }) by {
                        if o <= i < o + 4 {
                            lemma_pixel_byte(wd as int, row as int, col as int, i - o);
                        } else {
                            lemma_pixel_decompose(i, wd as int);
                        }
                    }
                }
                col = col + 1;
            }
        } else {
            proof {
                assert forall|i: int| 0 <= i < len implies pixels@[i] == (if in_row_span(len, wd as int, x as int, lx, y as int, ly, i)
                    && pixel_row(i, wd as int) < row + 1 {
                    (old(pixels)@[i] / 2) as u8
                } else {
                    old(pixels)@[i]
                }) by {
                }
            }
        }
        row = row + 1;
    }
}


/// Number of bitmap rows drawn: rows stop at the bottom edge of the frame.
pub open spec fn blit_rows(y: int, height: int, bitmap_h: int) -> int {
    if y >= height {
        0
    } else if bitmap_h <= height - y {
        bitmap_h
    } else {
        height - y
    }
}

/// Number of bitmap columns drawn: columns stop at the right edge of the frame.
pub open spec fn blit_cols(x: int, width: int, bitmap_w: int) -> int {
    blit_rows(x, width, bitmap_w)
}

/// Coverage of bitmap cell `(r, c)`; cells past the end of the bitmap count as 0.
pub open spec fn bitmap_alpha(bitmap: Seq<u8>, bitmap_w: int, r: int, c: int) -> int {
    let idx = r * bitmap_w + c;
    if 0 <= idx < bitmap.len() {
        bitmap[idx] as int
    } else {
        0
    }
}

/// `dst` blended towards `src` with coverage `alpha` out of 255.
pub open spec fn blend_byte(dst: u8, src: u8, alpha: int) -> u8 {
    ((src * alpha + dst * (255 - alpha)) / 255) as u8
}

/// Byte `i` belongs to a drawn pixel of the bitmap: its cell lies in the drawn
/// rows and columns, has nonzero coverage, and the whole pixel is in the buffer.
pub open spec fn blit_covers(
    len: int,
    width: int,
    height: int,
    x: int,
    y: int,
    bitmap: Seq<u8>,
    bitmap_w: int,
    bitmap_h: int,
    i: int,
) -> bool {
    let r = pixel_row(i, width) - y;
    let c = pixel_col(i, width) - x;
    &&& 0 <= i < len
    &&& width > 0
    &&& 0 <= r < blit_rows(y, height, bitmap_h)
    &&& 0 <= c < blit_cols(x, width, bitmap_w)
    &&& bitmap_alpha(bitmap, bitmap_w, r, c) != 0
    &&& (pixel_row(i, width) * width + pixel_col(i, width)) * 4 + 3 < len
}

/// The value byte `i` takes when its pixel is drawn.
pub open spec fn blit_value(
    old: u8,
    width: int,
    x: int,
    y: int,
    bitmap: Seq<u8>,
    bitmap_w: int,
    color: (u8, u8, u8),
    i: int,
) -> u8 {
    if channel(i) == 3 {
        255u8
    } else {
        blend_byte(
            old,
            bgra_byte(color, channel(i)),
            bitmap_alpha(bitmap, bitmap_w, pixel_row(i, width) - y, pixel_col(i, width) - x),
        )
    }
}

/// The buffer after the bitmap is drawn: each byte of a drawn pixel takes its
/// drawn value, every other byte keeps its own.
pub open spec fn blit_result(
    pixels: Seq<u8>,
    width: int,
    height: int,
    x: int,
    y: int,
    bitmap: Seq<u8>,
    bitmap_w: int,
    bitmap_h: int,
    color: (u8, u8, u8),
) -> Seq<u8> {
    Seq::new(
        pixels.len(),
        |i: int|
            if blit_covers(pixels.len() as int, width, height, x, y, bitmap, bitmap_w, bitmap_h, i) {
                blit_value(pixels[i], width, x, y, bitmap, bitmap_w, color, i)
            } else {
                pixels[i]
            },
    )
}

/// The offsets computed for bitmap cell `(r, c)` fit in a `usize`.
pub open spec fn blit_cell_fits(
    width: int,
    x: int,
    y: int,
    bitmap: Seq<u8>,
    bitmap_w: int,
    r: int,
    c: int,
) -> bool {
    &&& r * bitmap_w + c <= usize::MAX
    &&& bitmap_alpha(bitmap, bitmap_w, r, c) != 0 ==> ((y + r) * width + x + c) * 4 + 3 <= usize::MAX
}

/// The offsets computed for bitmap row `r` fit in a `usize`.
pub open spec fn blit_row_fits(
    width: int,
    x: int,
    y: int,
    bitmap: Seq<u8>,
    bitmap_w: int,
    r: int,
) -> bool {
    &&& r * bitmap_w <= usize::MAX
    &&& (y + r) * width * 4 <= usize::MAX
    &&& forall|c: int|
        0 <= c < blit_cols(x, width, bitmap_w) ==> #[trigger] blit_cell_fits(
            width,
            x,
            y,
            bitmap,
            bitmap_w,
            r,
            c,
        )
}

/// `dst` blended towards `src` with coverage `alpha`.
fn blend(src: u8, dst: u8, alpha: u32) -> (r: u8)
    requires
        alpha <= 255,
    ensures
        r == blend_byte(dst, src, alpha as int),
{
    let inv_a = 255 - alpha;
    proof {
        assert(src * alpha <= 255 * alpha) by (nonlinear_arith)
            requires
                src <= 255,
                alpha <= 255,
        ;
        assert(dst * inv_a <= 255 * inv_a) by (nonlinear_arith)
            requires
                dst <= 255,
                inv_a <= 255,
        ;
    }
    let sum = src as u32 * alpha + dst as u32 * inv_a;
    (sum / 255) as u8
}

/// Draws an 8-bit coverage bitmap of `bitmap_w` by `bitmap_h` cells at `(x, y)`
/// in the opaque colour `(r, g, b)`, clipped to the frame. Each drawn pixel's
/// colour bytes are blended towards the colour by the cell's coverage, and its
/// alpha becomes 255; cells of zero coverage, cells past the end of the bitmap
/// and pixels not wholly inside the buffer are skipped.
#[verifier::rlimit(50)]
pub fn blit_bitmap(
    pixels: &mut [u8],
    width: u32,
    height: u32,
    x: usize,
    y: usize,
    bitmap: &[u8],
    bitmap_w: usize,
    bitmap_h: usize,
    color: (u8, u8, u8),
)
    requires
        forall|r: int|
            0 <= r < blit_rows(y as int, height as int, bitmap_h as int) ==> #[trigger] blit_row_fits(
                width as int,
                x as int,
                y as int,
                bitmap@,
                bitmap_w as int,
                r,
            ),
    ensures
        final(pixels)@ == blit_result(
            old(pixels)@,
            width as int,
            height as int,
            x as int,
            y as int,
            bitmap@,
            bitmap_w as int,
            bitmap_h as int,
            color,
        ),
{
    let ghost len = pixels@.len() as int;
    let ghost rows = blit_rows(y as int, height as int, bitmap_h as int);
    let ghost cols = blit_cols(x as int, width as int, bitmap_w as int);
    let wd = width as usize;
    let mut row: usize = 0;
    while row < bitmap_h && y.saturating_add(row) < height as usize
        invariant
            0 <= row <= rows,
            rows == blit_rows(y as int, height as int, bitmap_h as int),
            cols == blit_cols(x as int, width as int, bitmap_w as int),
            wd == width,
            len == old(pixels)@.len(),
            pixels@.len() == len,
            forall|r: int| 0 <= r < rows ==> #[trigger] blit_row_fits(wd as int, x as int, y as int, bitmap@, bitmap_w as int, r),
            forall|i: int|
                0 <= i < len ==> pixels@[i] == (if blit_covers(len, wd as int, height as int, x as int, y as int, bitmap@, bitmap_w as int, bitmap_h as int, i)
                    && pixel_row(i, wd as int) - y < row {
                    blit_value(old(pixels)@[i], wd as int, x as int, y as int, bitmap@, bitmap_w as int, color, i)
                } else {
                    old(pixels)@[i]
                }),
        decreases bitmap_h - row,
    {
        let py = y + row;
        assert(blit_row_fits(wd as int, x as int, y as int, bitmap@, bitmap_w as int, row as int));
        let bitmap_row_start = row * bitmap_w;
        let row_pixel_start = (py * wd) * 4;
        let mut col: usize = 0;
        while col < bitmap_w && x.saturating_add(col) < wd
            invariant
                0 <= row < rows,
                0 <= col <= cols,
                rows == blit_rows(y as int, height as int, bitmap_h as int),
                cols == blit_cols(x as int, width as int, bitmap_w as int),
                py == y + row,
                py < height,
                bitmap_row_start == row * bitmap_w,
                row_pixel_start == py * wd * 4,
                wd == width,
                len == old(pixels)@.len(),
                pixels@.len() == len,
                blit_row_fits(wd as int, x as int, y as int, bitmap@, bitmap_w as int, row as int),
                forall|i: int|
                    0 <= i < len ==> pixels@[i] == (if blit_covers(len, wd as int, height as int, x as int, y as int, bitmap@, bitmap_w as int, bitmap_h as int, i)
                        && (pixel_row(i, wd as int) - y < row || (pixel_row(i, wd as int) - y == row
                        && pixel_col(i, wd as int) - x < col)) {
                        blit_value(old(pixels)@[i], wd as int, x as int, y as int, bitmap@, bitmap_w as int, color, i)
                    } else {
                        old(pixels)@[i]
                    }),
            decreases bitmap_w - col,
        {
            let px = x + col;
            assert(blit_cell_fits(wd as int, x as int, y as int, bitmap@, bitmap_w as int, row as int, col as int));
            let idx = bitmap_row_start + col;
            let alpha: u32 = if idx < bitmap.len() {
                bitmap[idx] as u32
            } else {
                0
            };
            assert(alpha == bitmap_alpha(bitmap@, bitmap_w as int, row as int, col as int));
            if alpha != 0 {
                let offset = row_pixel_start + px * 4;
                assert(offset == (py * wd + px) * 4);
                if offset + 3 < pixels.len() {
                    if alpha == 255 {
                        pixels[offset] = color.2;
                        pixels[offset + 1] = color.1;
                        pixels[offset + 2] = color.0;
                        pixels[offset + 3] = 0xFF;
                        proof {
                            assert forall|d: u8, s: u8| blend_byte(d, s, 255) == s by {
                                assert((s * 255 + d * 0) / 255 == s as int) by (nonlinear_arith);
                            }
                        }
                    } else {
                        let dst_b = pixels[offset];
                        let dst_g = pixels[offset + 1];
                        let dst_r = pixels[offset + 2];
                        pixels[offset] = blend(color.2, dst_b, alpha);
                        pixels[offset + 1] = blend(color.1, dst_g, alpha);
                        pixels[offset + 2] = blend(color.0, dst_r, alpha);
                        pixels[offset + 3] = 0xFF;
                    }
                    proof {
                        assert forall|i: int| 0 <= i < len implies pixels@[i] == (if blit_covers(len, wd as int, height as int, x as int, y as int, bitmap@, bitmap_w as int, bitmap_h as int, i)
                            && (pixel_row(i, wd as int) - y < row || (pixel_row(i, wd as int) - y == row
                            && pixel_col(i, wd as int) - x < col + 1)) {
                            blit_value(old(pixels)@[i], wd as int, x as int, y as int, bitmap@, bitmap_w as int, color, i)
                        } else {
                            old(pixels)@[i]
                        }) by {
                            if offset <= i < offset + 4 {
                                lemma_pixel_byte(wd as int, py as int, px as int, i - offset);
                                lemma_pixel_byte(wd as int, py as int, px as int, 0);
                            } else {
                                lemma_pixel_decompose(i, wd as int);
                            }
                        }
                    }
                } else {
                    proof {
                        assert forall|i: int| 0 <= i < len implies pixels@[i] == (if blit_covers(len, wd as int, height as int, x as int, y as int, bitmap@, bitmap_w as int, bitmap_h as int, i)
                            && (pixel_row(i, wd as int) - y < row || (pixel_row(i, wd as int) - y == row
                            && pixel_col(i, wd as int) - x < col + 1)) {
                            blit_value(old(pixels)@[i], wd as int, x as int, y as int, bitmap@, bitmap_w as int, color, i)
                        } else {
                            old(pixels)@[i]
                        }) by {
                        }
                    }
                }
            }
            col = col + 1;
        }
        row = row + 1;
    }
    assert(pixels@ =~= blit_result(
        old(pixels)@,
        width as int,
        height as int,
        x as int,
        y as int,
        bitmap@,
        bitmap_w as int,
        bitmap_h as int,
        color,
    ));
}


/// Bytes cleared before the content is copied: the whole frame, or nothing
/// when its size overflows a `usize`.
pub open spec fn frame_bytes(width: int, height: int) -> int {
    if width * height * 4 <= usize::MAX {
        width * height * 4
    } else {
        0
    }
}

/// `buf` with content row `r` copied to frame row `offset_y + r` at column
/// `offset_x`, when both the source row and the destination span are in bounds.
pub open spec fn copy_content_row(
    buf: Seq<u8>,
    content: Seq<u8>,
    content_w: int,
    width: int,
    offset_x: int,
    offset_y: int,
    r: int,
) -> Seq<u8> {
    let src_start = r * content_w * 4;
    let src_end = src_start + content_w * 4;
    let dst_start = ((offset_y + r) * width + offset_x) * 4;
    let dst_end = dst_start + content_w * 4;
    if src_end <= content.len() && dst_end <= buf.len() {
        Seq::new(
            buf.len(),
            |i: int|
                if dst_start <= i < dst_end {
                    content[src_start + (i - dst_start)]
                } else {
                    buf[i]
                },
        )
    } else {
        buf
    }
}

/// `buf` after content rows `0..rows` have been copied in order (a later row
/// overwrites an earlier one where their destination spans overlap).
pub open spec fn copy_content_rows(
    buf: Seq<u8>,
    content: Seq<u8>,
    content_w: int,
    width: int,
    offset_x: int,
    offset_y: int,
    rows: nat,
) -> Seq<u8>
    decreases rows,
{
    if rows == 0 {
        buf
    } else {
        copy_content_row(
            copy_content_rows(buf, content, content_w, width, offset_x, offset_y, (rows - 1) as nat),
            content,
            content_w,
            width,
            offset_x,
            offset_y,
            rows - 1,
        )
    }
}

/// `buf` with its first `n` bytes set to zero.
pub open spec fn zero_prefix(buf: Seq<u8>, n: int) -> Seq<u8> {
    Seq::new(buf.len(), |i: int| if i < n { 0u8 } else { buf[i] })
}

/// The frame after letterboxing: unchanged when the buffer is smaller than the
/// frame; otherwise the frame cleared to zero and every drawn content row copied.
pub open spec fn letterbox_result(
    framed: Seq<u8>,
    content: Seq<u8>,
    content_w: int,
    content_h: int,
    width: int,
    height: int,
    offset_x: int,
    offset_y: int,
) -> Seq<u8> {
    let needed = frame_bytes(width, height);
    if framed.len() < needed {
        framed
    } else {
        copy_content_rows(
            zero_prefix(framed, needed),
            content,
            content_w,
            width,
            offset_x,
            offset_y,
            blit_rows(offset_y, height, content_h) as nat,
        )
    }
}

/// The offsets computed for the content rows fit in a `usize`: source offsets
/// for every row reached (the drawn rows and the first row below the frame),
/// destination offsets for the drawn rows.
pub open spec fn letterbox_offsets_fit(
    content_w: int,
    content_h: int,
    width: int,
    height: int,
    offset_x: int,
    offset_y: int,
) -> bool {
    let n = blit_rows(offset_y, height, content_h);
    let reached = if n < content_h {
        n + 1
    } else {
        n
    };
    &&& reached * content_w * 4 <= usize::MAX
    &&& n > 0 ==> ((offset_y + n - 1) * width + offset_x + content_w) * 4 <= usize::MAX
}

/// Places a `content_w` by `content_h` image at `(offset_x, offset_y)` in a
/// black `width` by `height` frame. When the buffer is smaller than the frame
/// nothing is written; content rows that would fall below the frame are not
/// drawn, and a row whose source or destination is out of bounds is skipped.
pub fn letterbox_into(
    content: &[u8],
    content_w: u32,
    content_h: u32,
    width: u32,
    height: u32,
    offset_x: usize,
    offset_y: usize,
    framed: &mut [u8],
)
    requires
        old(framed)@.len() >= frame_bytes(width as int, height as int) ==> letterbox_offsets_fit(
            content_w as int,
            content_h as int,
            width as int,
            height as int,
            offset_x as int,
            offset_y as int,
        ),
    ensures
        final(framed)@ == letterbox_result(
            old(framed)@,
            content@,
            content_w as int,
            content_h as int,
            width as int,
            height as int,
            offset_x as int,
            offset_y as int,
        ),
{
    let needed = match (width as usize).checked_mul(height as usize) {
        Some(p) => match p.checked_mul(4) {
            Some(n) => n,
            None => 0,
        },
        None => 0,
    };
    proof {
        if (width as int) * (height as int) > usize::MAX {
            assert((width as int) * (height as int) <= (width as int) * (height as int) * 4)
                by (nonlinear_arith) requires width >= 0, height >= 0;
        }
    }
    assert(needed == frame_bytes(width as int, height as int));
    if framed.len() < needed {
        return;
    }
    let ghost len = framed@.len() as int;
    let mut k: usize = 0;
    while k < needed
        invariant
            0 <= k <= needed <= len,
            framed@.len() == len,
            len == old(framed)@.len(),
            framed@ =~= zero_prefix(old(framed)@, k as int),
        decreases needed - k,
    {
        framed[k] = 0;
        k = k + 1;
        assert(framed@ =~= zero_prefix(old(framed)@, k as int));
    }
    let ghost base = framed@;
    let ghost n = blit_rows(offset_y as int, height as int, content_h as int);
    let cw = content_w as usize;
    let wd = width as usize;
    let mut row: usize = 0;
    while row < content_h as usize && offset_y + row < height as usize
        invariant
            0 <= row <= n,
            n == blit_rows(offset_y as int, height as int, content_h as int),
            offset_y + n <= usize::MAX,
            letterbox_offsets_fit(content_w as int, content_h as int, width as int, height as int, offset_x as int, offset_y as int),
            cw == content_w,
            wd == width,
            framed@.len() == len,
            base.len() == len,
            framed@ == copy_content_rows(base, content@, cw as int, wd as int, offset_x as int, offset_y as int, row as nat),
        decreases content_h - row,
    {
        proof {
            lemma_mul_inequality(n, if n < content_h { n + 1 } else { n }, cw as int);
            lemma_mul_inequality(row as int + 1, n, cw as int);
            lemma_mul_inequality(offset_y as int + row as int, offset_y as int + n - 1, wd as int);
            assert((row as int + 1) * (cw as int) == row as int * cw as int + cw as int) by (nonlinear_arith);
            assert(row as int * cw as int >= 0) by (nonlinear_arith) requires row >= 0, cw >= 0;
        }
        let src_start = row * cw * 4;
        let src_end = src_start + cw * 4;
        let dst_row = offset_y + row;
        let dst_start = (dst_row * wd + offset_x) * 4;
        let dst_end = dst_start + cw * 4;
        let ghost prev = framed@;
        if src_end <= content.len() && dst_end <= framed.len() {
            let mut j: usize = 0;
            while j < cw * 4
                invariant
                    0 <= j <= cw * 4,
                    src_end == src_start + cw * 4,
                    dst_end == dst_start + cw * 4,
                    src_end <= content@.len(),
                    dst_end <= len,
                    prev.len() == len,
                    framed@.len() == len,
                    framed@ =~= Seq::new(
                        len as nat,
                        |i: int|
                            if dst_start <= i < dst_start + j {
                                content@[src_start + (i - dst_start)]
                            } else {
                                prev[i]
                            },
                    ),
                decreases cw * 4 - j,
            {
                framed[dst_start + j] = content[src_start + j];
                j = j + 1;
            }
        }
        assert(framed@ =~= copy_content_row(prev, content@, cw as int, wd as int, offset_x as int, offset_y as int, row as int));
        row = row + 1;
    }
    assert(framed@ == letterbox_result(old(framed)@, content@, content_w as int, content_h as int, width as int, height as int, offset_x as int, offset_y as int));
}


/// A fully covered cell takes the colour exactly, whatever was beneath, and an
/// uncovered one keeps what was beneath.
pub proof fn law_blend_extremes(dst: u8, src: u8)
    ensures
        blend_byte(dst, src, 255) == src,
        blend_byte(dst, src, 0) == dst,
{
    assert((src * 255 + dst * 0) / 255 == src as int) by (nonlinear_arith);
    assert((src * 0 + dst * 255) / 255 == dst as int) by (nonlinear_arith);
}

/// Row `r` of the content is copied over byte `i` of the frame.
pub open spec fn in_destination_row(content_w: int, width: int, offset_x: int, offset_y: int, r: int, i: int) -> bool {
    let dst_start = ((offset_y + r) * width + offset_x) * 4;
    dst_start <= i < dst_start + content_w * 4
}

proof fn lemma_rows_keep_base(
    base: Seq<u8>,
    content: Seq<u8>,
    content_w: int,
    width: int,
    offset_x: int,
    offset_y: int,
    k: nat,
    i: int,
)
    requires
        0 <= i < base.len(),
        forall|r: int| 0 <= r < k ==> !in_destination_row(content_w, width, offset_x, offset_y, r, i),
    ensures
        copy_content_rows(base, content, content_w, width, offset_x, offset_y, k).len() == base.len(),
        copy_content_rows(base, content, content_w, width, offset_x, offset_y, k)[i] == base[i],
    decreases k,
{
    if k > 0 {
        lemma_rows_keep_base(base, content, content_w, width, offset_x, offset_y, (k - 1) as nat, i);
        assert(!in_destination_row(content_w, width, offset_x, offset_y, k - 1, i));
    }
}

/// Letterboxing leaves black bars: when the buffer holds the frame, every byte
/// of the frame that no drawn content row covers is zero.
pub proof fn law_letterbox_bars_are_black(
    framed: Seq<u8>,
    content: Seq<u8>,
    content_w: u32,
    content_h: u32,
    width: u32,
    height: u32,
    offset_x: usize,
    offset_y: usize,
    i: int,
)
    requires
        framed.len() >= frame_bytes(width as int, height as int),
        0 <= i < frame_bytes(width as int, height as int),
        forall|r: int|
            0 <= r < blit_rows(offset_y as int, height as int, content_h as int) ==> !in_destination_row(
                content_w as int,
                width as int,
                offset_x as int,
                offset_y as int,
                r,
                i,
            ),
    ensures
        letterbox_result(
            framed,
            content,
            content_w as int,
            content_h as int,
            width as int,
            height as int,
            offset_x as int,
            offset_y as int,
        )[i] == 0,
{
    let needed = frame_bytes(width as int, height as int);
    let n = blit_rows(offset_y as int, height as int, content_h as int);
    assert(n >= 0);
    lemma_rows_keep_base(
        zero_prefix(framed, needed),
        content,
        content_w as int,
        width as int,
        offset_x as int,
        offset_y as int,
        n as nat,
        i,
    );
}


/// Content row `r` is copied over byte `i` of a buffer of `len` bytes: the row
/// is in bounds at both ends and its destination span holds `i`.
pub open spec fn row_copied_over(
    len: int,
    content: Seq<u8>,
    content_w: int,
    width: int,
    offset_x: int,
    offset_y: int,
    r: int,
    i: int,
) -> bool {
    let src_end = r * content_w * 4 + content_w * 4;
    let dst_end = ((offset_y + r) * width + offset_x) * 4 + content_w * 4;
    &&& src_end <= content.len()
    &&& dst_end <= len
    &&& in_destination_row(content_w, width, offset_x, offset_y, r, i)
}

/// One of content rows `0..rows` is copied over byte `i` of a buffer of `len` bytes.
pub open spec fn copied_over(
    len: int,
    content: Seq<u8>,
    content_w: int,
    width: int,
    offset_x: int,
    offset_y: int,
    rows: nat,
    i: int,
) -> bool
    decreases rows,
{
    rows > 0 && (row_copied_over(len, content, content_w, width, offset_x, offset_y, rows - 1, i)
        || copied_over(len, content, content_w, width, offset_x, offset_y, (rows - 1) as nat, i))
}

/// Copying rows keeps the length, and a byte no copied row covers keeps its value.
proof fn lemma_copy_rows_outside(
    buf: Seq<u8>,
    content: Seq<u8>,
    content_w: int,
    width: int,
    offset_x: int,
    offset_y: int,
    rows: nat,
    i: int,
)
    ensures
        copy_content_rows(buf, content, content_w, width, offset_x, offset_y, rows).len() == buf.len(),
        0 <= i < buf.len() && !copied_over(buf.len() as int, content, content_w, width, offset_x, offset_y, rows, i)
            ==> copy_content_rows(buf, content, content_w, width, offset_x, offset_y, rows)[i] == buf[i],
    decreases rows,
{
    if rows > 0 {
        lemma_copy_rows_outside(buf, content, content_w, width, offset_x, offset_y, (rows - 1) as nat, i);
    }
}

/// Two buffers of one length that agree at byte `i`, or whose byte `i` a copied
/// row covers, agree there after the rows are copied.
proof fn lemma_copy_rows_agree(
    a: Seq<u8>,
    b: Seq<u8>,
    content: Seq<u8>,
    content_w: int,
    width: int,
    offset_x: int,
    offset_y: int,
    rows: nat,
    i: int,
)
    requires
        a.len() == b.len(),
        0 <= i < a.len(),
        a[i] == b[i] || copied_over(a.len() as int, content, content_w, width, offset_x, offset_y, rows, i),
    ensures
        copy_content_rows(a, content, content_w, width, offset_x, offset_y, rows)[i]
            == copy_content_rows(b, content, content_w, width, offset_x, offset_y, rows)[i],
    decreases rows,
{
    if rows > 0 {
        let k = (rows - 1) as nat;
        lemma_copy_rows_outside(a, content, content_w, width, offset_x, offset_y, k, i);
        lemma_copy_rows_outside(b, content, content_w, width, offset_x, offset_y, k, i);
        if !row_copied_over(a.len() as int, content, content_w, width, offset_x, offset_y, rows - 1, i) {
            lemma_copy_rows_agree(a, b, content, content_w, width, offset_x, offset_y, k, i);
        }
    }
}

/// Letterboxing is idempotent: a second call with the same arguments leaves
/// the frame as the first left it, since the frame is cleared before the
/// content is copied in.
pub proof fn law_letterbox_idempotent(
    framed: Seq<u8>,
    content: Seq<u8>,
    content_w: u32,
    content_h: u32,
    width: u32,
    height: u32,
    offset_x: usize,
    offset_y: usize,
)
    ensures
        ({
            let once = letterbox_result(
                framed,
                content,
                content_w as int,
                content_h as int,
                width as int,
                height as int,
                offset_x as int,
                offset_y as int,
            );
            letterbox_result(
                once,
                content,
                content_w as int,
                content_h as int,
                width as int,
                height as int,
                offset_x as int,
                offset_y as int,
            ) == once
        }),
{
    let needed = frame_bytes(width as int, height as int);
    if framed.len() >= needed {
        let n = blit_rows(offset_y as int, height as int, content_h as int) as nat;
        let cw = content_w as int;
        let wd = width as int;
        let ox = offset_x as int;
        let oy = offset_y as int;
        let first = zero_prefix(framed, needed);
        let once = copy_content_rows(first, content, cw, wd, ox, oy, n);
        lemma_copy_rows_outside(first, content, cw, wd, ox, oy, n, 0);
        let second = zero_prefix(once, needed);
        let twice = copy_content_rows(second, content, cw, wd, ox, oy, n);
        lemma_copy_rows_outside(second, content, cw, wd, ox, oy, n, 0);
        assert forall|i: int| 0 <= i < once.len() implies twice[i] == once[i] by {
            lemma_copy_rows_outside(first, content, cw, wd, ox, oy, n, i);
            lemma_copy_rows_agree(second, first, content, cw, wd, ox, oy, n, i);
        }
        assert(twice =~= once);
    }
}

/// Drawing a bitmap whose cells are each either empty or fully covered a
/// second time changes nothing: the pixels it draws already hold the colour.
pub proof fn law_blit_opaque_idempotent(
    pixels: Seq<u8>,
    width: u32,
    height: u32,
    x: usize,
    y: usize,
    bitmap: Seq<u8>,
    bitmap_w: usize,
    bitmap_h: usize,
    color: (u8, u8, u8),
)
    requires
        forall|k: int| 0 <= k < bitmap.len() ==> #[trigger] bitmap[k] == 0 || bitmap[k] == 255,
    ensures
        ({
            let once = blit_result(
                pixels,
                width as int,
                height as int,
                x as int,
                y as int,
                bitmap,
                bitmap_w as int,
                bitmap_h as int,
                color,
            );
            blit_result(
                once,
                width as int,
                height as int,
                x as int,
                y as int,
                bitmap,
                bitmap_w as int,
                bitmap_h as int,
                color,
            ) == once
        }),
{
    let (wd, ht, xi, yi, bw, bh) = (width as int, height as int, x as int, y as int, bitmap_w as int, bitmap_h as int);
    let once = blit_result(pixels, wd, ht, xi, yi, bitmap, bw, bh, color);
    let twice = blit_result(once, wd, ht, xi, yi, bitmap, bw, bh, color);
    assert forall|i: int| 0 <= i < once.len() implies twice[i] == once[i] by {
        if blit_covers(pixels.len() as int, wd, ht, xi, yi, bitmap, bw, bh, i) {
            let a = bitmap_alpha(bitmap, bw, pixel_row(i, wd) - yi, pixel_col(i, wd) - xi);
            let idx = (pixel_row(i, wd) - yi) * bw + (pixel_col(i, wd) - xi);
            assert(0 <= idx < bitmap.len() && bitmap[idx] != 0);
            assert(a == 255);
            if channel(i) != 3 {
                law_blend_extremes(pixels[i], bgra_byte(color, channel(i)));
                law_blend_extremes(once[i], bgra_byte(color, channel(i)));
            }
        }
    }
    assert(twice =~= once);
}

/// Drawing bitmap cell `(r, c)` with nonzero coverage `a` onto its pixel blends
/// each colour byte of the pixel with that same byte's previous value,
/// `(src * a + old * (255 - a)) / 255`, where `src` is the colour's blue, green
/// or red for bytes 0, 1 and 2; the alpha byte becomes 255.
pub proof fn law_blit_blends_each_channel(
    pixels: Seq<u8>,
    width: u32,
    height: u32,
    x: usize,
    y: usize,
    bitmap: Seq<u8>,
    bitmap_w: usize,
    bitmap_h: usize,
    color: (u8, u8, u8),
    r: int,
    c: int,
)
    requires
        0 <= r < bitmap_h,
        0 <= c < bitmap_w,
        y + r < height,
        x + c < width,
        r * bitmap_w + c < bitmap.len(),
        bitmap[r * bitmap_w + c] != 0,
        ((y + r) * width + x + c) * 4 + 3 < pixels.len(),
    ensures
        ({
            let o = ((y + r) * width + x + c) * 4;
            let a = bitmap[r * bitmap_w + c] as int;
            let out = blit_result(
                pixels,
                width as int,
                height as int,
                x as int,
                y as int,
                bitmap,
                bitmap_w as int,
                bitmap_h as int,
                color,
            );
            &&& out.len() == pixels.len()
            &&& out[o] == ((color.2 * a + pixels[o] * (255 - a)) / 255) as u8
            &&& out[o + 1] == ((color.1 * a + pixels[o + 1] * (255 - a)) / 255) as u8
            &&& out[o + 2] == ((color.0 * a + pixels[o + 2] * (255 - a)) / 255) as u8
            &&& out[o + 3] == 255
        }),
{
    let wd = width as int;
    let row = y + r;
    let col = x + c;
    assert(r * bitmap_w >= 0) by (nonlinear_arith) requires r >= 0, bitmap_w >= 0;
    assert(row * wd >= 0) by (nonlinear_arith) requires row >= 0, wd >= 0;
    lemma_pixel_byte(wd, row, col, 0);
    lemma_pixel_byte(wd, row, col, 1);
    lemma_pixel_byte(wd, row, col, 2);
    lemma_pixel_byte(wd, row, col, 3);
    let o = (row * wd + col) * 4;
    assert(blit_covers(pixels.len() as int, wd, height as int, x as int, y as int, bitmap, bitmap_w as int, bitmap_h as int, o));
    assert(blit_covers(pixels.len() as int, wd, height as int, x as int, y as int, bitmap, bitmap_w as int, bitmap_h as int, o + 1));
    assert(blit_covers(pixels.len() as int, wd, height as int, x as int, y as int, bitmap, bitmap_w as int, bitmap_h as int, o + 2));
    assert(blit_covers(pixels.len() as int, wd, height as int, x as int, y as int, bitmap, bitmap_w as int, bitmap_h as int, o + 3));
}

/// A byte whose pixel the bitmap does not draw keeps its value: its pixel lies
/// above or left of the bitmap's position, below the frame, past the bitmap's
/// last row or column, or under a cell of zero coverage (a cell past the end
/// of the bitmap counts as zero).
pub proof fn law_blit_keeps_undrawn(
    pixels: Seq<u8>,
    width: u32,
    height: u32,
    x: usize,
    y: usize,
    bitmap: Seq<u8>,
    bitmap_w: usize,
    bitmap_h: usize,
    color: (u8, u8, u8),
    i: int,
)
    requires
        0 <= i < pixels.len(),
        width > 0,
        ({
            let py = (i / 4) / (width as int);
            let px = (i / 4) % (width as int);
            let idx = (py - y) * bitmap_w + (px - x);
            ||| py < y
            ||| px < x
            ||| py >= height
            ||| py - y >= bitmap_h
            ||| px - x >= bitmap_w
            ||| idx >= bitmap.len()
            ||| bitmap[idx] == 0
        }),
    ensures
        blit_result(
            pixels,
            width as int,
            height as int,
            x as int,
            y as int,
            bitmap,
            bitmap_w as int,
            bitmap_h as int,
            color,
        )[i] == pixels[i],
{
    let py = pixel_row(i, width as int);
    let px = pixel_col(i, width as int);
    if py >= y && px >= x {
        assert((py - y) * bitmap_w + (px - x) >= 0) by (nonlinear_arith)
            requires py - y >= 0, px - x >= 0, bitmap_w >= 0;
    }
}
} // verus!
