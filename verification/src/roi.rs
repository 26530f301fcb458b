//! Regions of interest: rectangular windows into a row-major pixel array,
//! their rows, and the two ways of laying one region over another.

use vstd::prelude::*;
use vstd::arithmetic::div_mod::{lemma_fundamental_div_mod, lemma_fundamental_div_mod_converse};
use crate::color::{blend_color, Color};
use crate::rect::Rect;

verus! {

/// Position in the pixel array of column `c` of row `r` of a region, in a
/// buffer that is `w` pixels wide.
pub open spec fn offset(rect: Rect, w: int, r: int, c: int) -> int {
    (rect.y + r) * w + rect.x + c
}

/// The region has no negative coordinate or extent, does not reach past the
/// right edge of a buffer `w` pixels wide, and all its rows lie within the
/// first `len` pixels.
pub open spec fn region_fits(rect: Rect, w: int, len: int) -> bool {
    &&& 0 <= rect.x
    &&& 0 <= rect.y
    &&& 0 <= rect.w
    &&& 0 <= rect.h
    &&& rect.x + rect.w <= w
    &&& (rect.y + rect.h) * w <= len
}

/// Row `r` of a region: `rect.w` pixels starting at the region's left edge.
pub open spec fn row_of(data: Seq<Color>, rect: Rect, w: int, r: int) -> Seq<Color> {
    data.subrange(offset(rect, w, r, 0), offset(rect, w, r, rect.w as int))
}

/// `data` with the `n` pixels from position `at` on replaced by `row`.
pub open spec fn with_row(data: Seq<Color>, at: int, n: int, row: Seq<Color>) -> Seq<Color> {
    data.subrange(0, at) + row + data.subrange(at + n, data.len() as int)
}

pub open spec fn least(a: int, b: int) -> int {
    if a <= b {
        a
    } else {
        b
    }
}

/// Position `k` of the destination array lies in the part of the destination
/// region that the source region covers: its first rows and columns, as many
/// as both regions have.
pub open spec fn covered(d: Rect, dw: int, s: Rect, k: int) -> bool {
    &&& dw > 0
    &&& d.y <= k / dw < d.y + least(d.h as int, s.h as int)
    &&& d.x <= k % dw < d.x + least(d.w as int, s.w as int)
}

/// The position in the source array that is laid over position `k` of the
/// destination array.
pub open spec fn source_of(d: Rect, dw: int, s: Rect, sw: int, k: int) -> int {
    offset(s, sw, k / dw - d.y, k % dw - d.x)
}

/// The destination array after the source region was alpha-blended over the
/// destination region.
pub open spec fn blended(dst: Seq<Color>, d: Rect, dw: int, src: Seq<Color>, s: Rect, sw: int) -> Seq<
    Color,
> {
    Seq::new(
        dst.len(),
        |k: int|
            if covered(d, dw, s, k) {
                blend_color(dst[k], src[source_of(d, dw, s, sw, k)])
            } else {
                dst[k]
            },
    )
}

/// The destination array after the source region was copied over the
/// destination region.
pub open spec fn blitted(dst: Seq<Color>, d: Rect, dw: int, src: Seq<Color>, s: Rect, sw: int) -> Seq<
    Color,
> {
    Seq::new(
        dst.len(),
        |k: int|
            if covered(d, dw, s, k) {
                src[source_of(d, dw, s, sw, k)]
            } else {
                dst[k]
            },
    )
}

/// What one source pixel makes of one destination pixel.
spec fn laid(below: Color, above: Color, blending: bool) -> Color {
    if blending {
        blend_color(below, above)
    } else {
        above
    }
}

/// The destination array when rows before `r`, and the columns before `c` of
/// row `r`, have been written.
spec fn written(
    dst: Seq<Color>,
    d: Rect,
    dw: int,
    src: Seq<Color>,
    s: Rect,
    sw: int,
    blending: bool,
    r: int,
    c: int,
) -> Seq<Color> {
    Seq::new(
        dst.len(),
        |k: int|
            if covered(d, dw, s, k) && (k / dw - d.y < r || (k / dw - d.y == r && k % dw - d.x < c)) {
                laid(dst[k], src[source_of(d, dw, s, sw, k)], blending)
            } else {
                dst[k]
            },
    )
}

proof fn lemma_row_bounds(rect: Rect, w: int, len: int, r: int)
    requires
        region_fits(rect, w, len),
        0 <= r < rect.h,
    ensures
        0 <= (rect.y + r) * w,
        (rect.y + r) * w + rect.x + rect.w <= len,
        (rect.y + r) * w + w <= len,
{
    let a = rect.y + r;
    let b = rect.y + rect.h;
    assert(a * w + w <= b * w && 0 <= a * w) by (nonlinear_arith)
        requires
            0 <= a,
            a + 1 <= b,
            0 <= w,
    ;
}

proof fn lemma_written_step(
    dst: Seq<Color>,
    d: Rect,
    dw: int,
    src: Seq<Color>,
    s: Rect,
    sw: int,
    blending: bool,
    r: int,
    c: int,
)
    requires
        region_fits(d, dw, dst.len() as int),
        0 <= r < least(d.h as int, s.h as int),
        0 <= c < least(d.w as int, s.w as int),
    ensures
        0 <= offset(d, dw, r, c) < dst.len(),
        written(dst, d, dw, src, s, sw, blending, r, c)[offset(d, dw, r, c)] == dst[offset(
            d,
            dw,
            r,
            c,
        )],
        written(dst, d, dw, src, s, sw, blending, r, c + 1) == written(
            dst,
            d,
            dw,
            src,
            s,
            sw,
            blending,
            r,
            c,
        ).update(
            offset(d, dw, r, c),
            laid(dst[offset(d, dw, r, c)], src[offset(s, sw, r, c)], blending),
        ),
{
    let at = offset(d, dw, r, c);
    lemma_row_bounds(d, dw, dst.len() as int, r);
    lemma_fundamental_div_mod_converse(at, dw, d.y + r, d.x + c);
    let before = written(dst, d, dw, src, s, sw, blending, r, c);
    let after = written(dst, d, dw, src, s, sw, blending, r, c + 1);
    let px = laid(dst[at], src[offset(s, sw, r, c)], blending);
    assert forall|k: int| 0 <= k < dst.len() implies after[k] == before.update(at, px)[k] by {
        lemma_fundamental_div_mod(k, dw);
        if k != at {
            if k / dw - d.y == r && k % dw - d.x == c {
                assert(dw * (k / dw) == (d.y + r) * dw) by (nonlinear_arith)
                    requires
                        k / dw == d.y + r,
                ;
                assert(false);
            }
        }
    }
    assert(after =~= before.update(at, px));
}

proof fn lemma_written_ends(
    dst: Seq<Color>,
    d: Rect,
    dw: int,
    src: Seq<Color>,
    s: Rect,
    sw: int,
    blending: bool,
    r: int,
)
    ensures
        written(dst, d, dw, src, s, sw, blending, 0, 0) == dst,
        written(dst, d, dw, src, s, sw, blending, r, least(d.w as int, s.w as int)) == written(
            dst,
            d,
            dw,
            src,
            s,
            sw,
            blending,
            r + 1,
            0,
        ),
        r >= least(d.h as int, s.h as int) ==> written(dst, d, dw, src, s, sw, blending, r, 0) == (
        if blending {
            blended(dst, d, dw, src, s, sw)
        } else {
            blitted(dst, d, dw, src, s, sw)
        }),
{
    assert(written(dst, d, dw, src, s, sw, blending, 0, 0) =~= dst);
    assert(written(dst, d, dw, src, s, sw, blending, r, least(d.w as int, s.w as int))
        =~= written(dst, d, dw, src, s, sw, blending, r + 1, 0));
    if r >= least(d.h as int, s.h as int) {
        if blending {
            assert(written(dst, d, dw, src, s, sw, blending, r, 0) =~= blended(
                dst,
                d,
                dw,
                src,
                s,
                sw,
            ));
        } else {
            assert(written(dst, d, dw, src, s, sw, blending, r, 0) =~= blitted(
                dst,
                d,
                dw,
                src,
                s,
                sw,
            ));
        }
    }
}

fn lesser(a: i32, b: i32) -> (m: i32)
    ensures
        m == least(a as int, b as int),
{
    if a <= b {
        a
    } else {
        b
    }
}

/// Lays the source region over the destination region, row by row and pixel
/// by pixel, over the rows and columns that both regions have.
fn lay_over(
    dst: &mut [Color],
    d: Rect,
    dw: i32,
    src: &[Color],
    s: Rect,
    sw: i32,
    blending: bool,
)
    requires
        region_fits(d, dw as int, old(dst)@.len() as int),
        region_fits(s, sw as int, src@.len() as int),
    ensures
        final(dst)@ == written(
            old(dst)@,
            d,
            dw as int,
            src@,
            s,
            sw as int,
            blending,
            least(d.h as int, s.h as int),
            0,
        ),
{
    let rows = lesser(d.height(), s.height()) as usize;
    let cols = lesser(d.width(), s.width()) as usize;
    let dy = d.top() as usize;
    let dx = d.left() as usize;
    let sy = s.top() as usize;
    let sx = s.left() as usize;
    let dwu = dw as usize;
    let swu = sw as usize;
    let dlen = dst.len();
    let slen = src.len();
    let ghost before = dst@;
    proof {
        lemma_written_ends(before, d, dw as int, src@, s, sw as int, blending, 0);
    }
    let mut r: usize = 0;
    while r < rows
        invariant
            region_fits(d, dw as int, before.len() as int),
            region_fits(s, sw as int, src@.len() as int),
            rows == least(d.h as int, s.h as int),
            cols == least(d.w as int, s.w as int),
            dy == d.y,
            dx == d.x,
            sy == s.y,
            sx == s.x,
            dwu == dw,
            swu == sw,
            r <= rows,
            dlen == before.len(),
            slen == src@.len(),
            dst@ == written(before, d, dw as int, src@, s, sw as int, blending, r as int, 0),
        decreases rows - r,
    {
        proof {
            lemma_row_bounds(d, dw as int, before.len() as int, r as int);
            lemma_row_bounds(s, sw as int, src@.len() as int, r as int);
        }
        let drow: usize = (dy + r) * dwu + dx;
        let srow: usize = (sy + r) * swu + sx;
        let mut c: usize = 0;
        while c < cols
            invariant
                region_fits(d, dw as int, before.len() as int),
                region_fits(s, sw as int, src@.len() as int),
                rows == least(d.h as int, s.h as int),
                cols == least(d.w as int, s.w as int),
                r < rows,
                c <= cols,
                drow == offset(d, dw as int, r as int, 0),
                srow == offset(s, sw as int, r as int, 0),
                dlen == before.len(),
                slen == src@.len(),
                drow + cols <= dlen,
                srow + cols <= slen,
                dst@ == written(
                    before,
                    d,
                    dw as int,
                    src@,
                    s,
                    sw as int,
                    blending,
                    r as int,
                    c as int,
                ),
            decreases cols - c,
        {
            proof {
                lemma_written_step(
                    before,
                    d,
                    dw as int,
                    src@,
                    s,
                    sw as int,
                    blending,
                    r as int,
                    c as int,
                );
            }
            let above = src[srow + c];
            let px = if blending {
                dst[drow + c].blend(above)
            } else {
                above
            };
            dst[drow + c] = px;
            c += 1;
        }
        proof {
            lemma_written_ends(before, d, dw as int, src@, s, sw as int, blending, r as int);
        }
        r += 1;
    }
    proof {
        lemma_written_ends(before, d, dw as int, src@, s, sw as int, blending, r as int);
    }
}

/// A cursor over the rows of a region, from the top row down, that hands out
/// each row as a read-only slice.
pub struct ImageRoiRows<'a> {
    pub rect: Rect,
    pub w: i32,
    pub data: &'a [Color],
    pub i: i32,
}

impl<'a> ImageRoiRows<'a> {
    /// The region lies within the pixel array and the cursor within the region.
    pub open spec fn wf(&self) -> bool {
        &&& region_fits(self.rect, self.w as int, self.data@.len() as int)
        &&& 0 <= self.i <= self.rect.h
    }

    /// The number of rows that are still to come.
    pub open spec fn remaining(&self) -> int {
        self.rect.h - self.i
    }

    /// The next row of the region, or `None` after the last one.
    pub fn next(&mut self) -> (row: Option<&'a [Color]>)
        requires
            old(self).wf(),
        ensures
            final(self).wf(),
            final(self).rect == old(self).rect,
            final(self).w == old(self).w,
            final(self).data == old(self).data,
            old(self).remaining() == 0 ==> row.is_none() && final(self).i == old(self).i,
            old(self).remaining() > 0 ==> row.is_some() && final(self).i == old(self).i + 1
                && final(self).remaining() == old(self).remaining() - 1 && row.unwrap()@ == row_of(
                old(self).data@,
                old(self).rect,
                old(self).w as int,
                old(self).i as int,
            ) && row.unwrap()@.len() == old(self).rect.w,
    {
        let len = self.data.len();
        if self.i < self.rect.height() {
            proof {
                lemma_row_bounds(self.rect, self.w as int, self.data@.len() as int, self.i as int);
            }
            let start: usize = (self.rect.top() as usize + self.i as usize) * (self.w as usize)
                + self.rect.left() as usize;
            let end: usize = start + self.rect.width() as usize;
            assert(end <= len);
            self.i += 1;
            Some(vstd::slice::slice_subrange(self.data, start, end))
        } else {
            None
        }
    }
}

/// A cursor over the rows of a region, from the top row down, that lends out
/// each row as a slice that can be written.
///
/// A row is lent for as long as the caller keeps it; the cursor can move on
/// only afterwards, so no two rows are ever held at once.
pub struct ImageRoiRowsMut<'a> {
    pub rect: Rect,
    pub w: i32,
    pub data: &'a mut [Color],
    pub i: i32,
}

impl<'a> ImageRoiRowsMut<'a> {
    /// The region lies within the pixel array and the cursor within the region.
    pub open spec fn wf(&self) -> bool {
        &&& region_fits(self.rect, self.w as int, self.data@.len() as int)
        &&& 0 <= self.i <= self.rect.h
    }

    /// The pixel array that the cursor walks.
    pub open spec fn pixels(&self) -> Seq<Color> {
        self.data@
    }

    /// The number of rows that are still to come.
    pub open spec fn remaining(&self) -> int {
        self.rect.h - self.i
    }

    /// The next row of the region, or `None` after the last one. What the
    /// caller writes into the row is written into the pixel array, and
    /// nothing else in the array changes.
    pub fn next(&mut self) -> (row: Option<&mut [Color]>)
        requires
            old(self).wf(),
        ensures
            final(self).rect == old(self).rect,
            final(self).w == old(self).w,
            final(final(self).data)@ == final(old(self).data)@,
            old(self).remaining() == 0 ==> row.is_none() && final(self).i == old(self).i
                && final(self).pixels() == old(self).pixels(),
            old(self).remaining() > 0 ==> row.is_some() && final(self).i == old(self).i + 1
                && final(self).remaining() == old(self).remaining() - 1 && row.unwrap()@ == row_of(
                old(self).pixels(),
                old(self).rect,
                old(self).w as int,
                old(self).i as int,
            ) && row.unwrap()@.len() == old(self).rect.w && final(self).pixels() == with_row(
                old(self).pixels(),
                offset(old(self).rect, old(self).w as int, old(self).i as int, 0),
                old(self).rect.w as int,
                final(row.unwrap())@,
            ),
    {
        let len = self.data.len();
        if self.i < self.rect.height() {
            proof {
                lemma_row_bounds(self.rect, self.w as int, self.data@.len() as int, self.i as int);
            }
            let start: usize = (self.rect.top() as usize + self.i as usize) * (self.w as usize)
                + self.rect.left() as usize;
            let width = self.rect.width() as usize;
            assert(start + width <= len);
            self.i += 1;
            let ghost whole = self.data@;
            let (head, tail) = self.data.split_at_mut(start);
            let (row, rest) = tail.split_at_mut(width);
            proof {
                assert(row@ =~= whole.subrange(start as int, start + width));
                assert(rest@ =~= whole.subrange(start + width, whole.len() as int));
                let written = final(row)@;
                assert(with_row(whole, start as int, width as int, written) =~= head@ + (written
                    + rest@));
            }
            Some(row)
        } else {
            None
        }
    }
}

/// A region of interest: a rectangle, the width of the buffer it lies in, and
/// the buffer's pixel array, borrowed for as long as the region lives.
pub struct ImageRoi<'a> {
    pub rect: Rect,
    pub w: i32,
    pub data: &'a mut [Color],
}

impl<'a> ImageRoi<'a> {
    /// The pixel array that the region looks into.
    pub open spec fn pixels(&self) -> Seq<Color> {
        self.data@
    }

    /// The region lies within the pixel array.
    pub open spec fn wf(&self) -> bool {
        region_fits(self.rect, self.w as int, self.data@.len() as int)
    }

    /// A cursor at the top row of the region.
    pub fn rows(&'a self) -> (rows: ImageRoiRows<'a>)
        requires
            self.wf(),
        ensures
            rows.wf(),
            rows.rect == self.rect,
            rows.w == self.w,
            rows.data@ == self.pixels(),
            rows.i == 0,
            rows.remaining() == self.rect.h,
    {
        ImageRoiRows { rect: self.rect, w: self.w, data: self.data, i: 0 }
    }

    /// A cursor at the top row of the region, through which the rows can be
    /// written.
    pub fn rows_mut(&'a mut self) -> (rows: ImageRoiRowsMut<'a>)
        requires
            old(self).wf(),
        ensures
            rows.wf(),
            rows.rect == old(self).rect,
            rows.w == old(self).w,
            rows.pixels() == old(self).pixels(),
            rows.i == 0,
            rows.remaining() == old(self).rect.h,
            final(self).rect == old(self).rect,
            final(self).w == old(self).w,
            final(self).pixels() == final(rows.data)@,
            final(final(self).data)@ == final(old(self).data)@,
    {
        ImageRoiRowsMut { rect: self.rect, w: self.w, data: self.data, i: 0 }
    }

    /// Blends the source region over this one. Only the rows and columns that
    /// both regions have are touched.
    pub fn blend(&mut self, other: &ImageRoi)
        requires
            old(self).wf(),
            other.wf(),
        ensures
            final(self).rect == old(self).rect,
            final(self).w == old(self).w,
            final(self).pixels() == blended(
                old(self).pixels(),
                old(self).rect,
                old(self).w as int,
                other.pixels(),
                other.rect,
                other.w as int,
            ),
            final(final(self).data)@ == final(old(self).data)@,
    {
        proof {
            lemma_written_ends(
                self.data@,
                self.rect,
                self.w as int,
                other.data@,
                other.rect,
                other.w as int,
                true,
                least(self.rect.h as int, other.rect.h as int),
            );
        }
        lay_over(self.data, self.rect, self.w, other.data, other.rect, other.w, true);
    }

    /// Copies the source region over this one. Only the rows and columns that
    /// both regions have are touched.
    pub fn blit(&mut self, other: &ImageRoi)
        requires
            old(self).wf(),
            other.wf(),
        ensures
            final(self).rect == old(self).rect,
            final(self).w == old(self).w,
            final(self).pixels() == blitted(
                old(self).pixels(),
                old(self).rect,
                old(self).w as int,
                other.pixels(),
                other.rect,
                other.w as int,
            ),
            final(final(self).data)@ == final(old(self).data)@,
    {
        proof {
            lemma_written_ends(
                self.data@,
                self.rect,
                self.w as int,
                other.data@,
                other.rect,
                other.w as int,
                false,
                least(self.rect.h as int, other.rect.h as int),
            );
        }
        lay_over(self.data, self.rect, self.w, other.data, other.rect, other.w, false);
    }
}

/// The pixel at row `r` and column `c` of the destination region, where both
/// regions have that row and column, is covered, and what is laid over it is
/// the pixel at row `r` and column `c` of the source region.
pub proof fn lemma_covered_at(d: Rect, dw: int, len: int, s: Rect, sw: int, r: int, c: int)
    requires
        region_fits(d, dw, len),
        0 <= r < least(d.h as int, s.h as int),
        0 <= c < least(d.w as int, s.w as int),
    ensures
        0 <= offset(d, dw, r, c) < len,
        covered(d, dw, s, offset(d, dw, r, c)),
        source_of(d, dw, s, sw, offset(d, dw, r, c)) == offset(s, sw, r, c),
{
    lemma_row_bounds(d, dw, len, r);
    lemma_fundamental_div_mod_converse(offset(d, dw, r, c), dw, d.y + r, d.x + c);
}

/// Row by row and column by column: after a blend, each pixel that both
/// regions have is the blend of the two pixels that stood there; after a
/// blit, it is the source's pixel.
pub proof fn lemma_pixel_at(
    dst: Seq<Color>,
    d: Rect,
    dw: int,
    src: Seq<Color>,
    s: Rect,
    sw: int,
    r: int,
    c: int,
)
    requires
        region_fits(d, dw, dst.len() as int),
        0 <= r < least(d.h as int, s.h as int),
        0 <= c < least(d.w as int, s.w as int),
    ensures
        blended(dst, d, dw, src, s, sw)[offset(d, dw, r, c)] == blend_color(
            dst[offset(d, dw, r, c)],
            src[offset(s, sw, r, c)],
        ),
        blitted(dst, d, dw, src, s, sw)[offset(d, dw, r, c)] == src[offset(s, sw, r, c)],
{
    lemma_covered_at(d, dw, dst.len() as int, s, sw, r, c);
}

/// Copying a region onto itself changes nothing.
pub proof fn lemma_blit_onto_itself(data: Seq<Color>, rect: Rect, w: int)
    requires
        region_fits(rect, w, data.len() as int),
    ensures
        blitted(data, rect, w, data, rect, w) == data,
{
    let out = blitted(data, rect, w, data, rect, w);
    assert forall|k: int| 0 <= k < data.len() implies out[k] == data[k] by {
        if covered(rect, w, rect, k) {
            lemma_fundamental_div_mod(k, w);
            assert(w * (k / w) == (k / w) * w) by (nonlinear_arith);
            assert(source_of(rect, w, rect, w, k) == k);
        }
    }
    assert(out =~= data);
}

/// Blending a source whose pixels are all fully opaque is copying it: every
/// pixel that both regions have becomes the source's pixel.
pub proof fn lemma_blend_opaque(
    dst: Seq<Color>,
    d: Rect,
    dw: int,
    src: Seq<Color>,
    s: Rect,
    sw: int,
)
    requires
        region_fits(d, dw, dst.len() as int),
        forall|r: int, c: int|
            0 <= r < s.h && 0 <= c < s.w ==> crate::color::alpha(
                #[trigger] src[offset(s, sw, r, c)],
            ) == 255,
    ensures
        blended(dst, d, dw, src, s, sw) == blitted(dst, d, dw, src, s, sw),
        forall|r: int, c: int|
            0 <= r < least(d.h as int, s.h as int) && 0 <= c < least(d.w as int, s.w as int)
                ==> blended(dst, d, dw, src, s, sw)[#[trigger] offset(d, dw, r, c)] == src[offset(
                s,
                sw,
                r,
                c,
            )],
{
    let out = blended(dst, d, dw, src, s, sw);
    let copy = blitted(dst, d, dw, src, s, sw);
    assert forall|k: int| 0 <= k < dst.len() implies out[k] == copy[k] by {
        if covered(d, dw, s, k) {
            let above = src[offset(s, sw, k / dw - d.y, k % dw - d.x)];
            assert(crate::color::alpha(above) == 255);
        }
    }
    assert(out =~= copy);
    assert forall|r: int, c: int|
        0 <= r < least(d.h as int, s.h as int) && 0 <= c < least(
            d.w as int,
            s.w as int,
        ) implies out[#[trigger] offset(d, dw, r, c)] == src[offset(s, sw, r, c)] by {
        lemma_pixel_at(dst, d, dw, src, s, sw, r, c);
    }
}

/// Blending a source whose pixels are all fully transparent changes nothing.
pub proof fn lemma_blend_transparent(
    dst: Seq<Color>,
    d: Rect,
    dw: int,
    src: Seq<Color>,
    s: Rect,
    sw: int,
)
    requires
        forall|r: int, c: int|
            0 <= r < s.h && 0 <= c < s.w ==> crate::color::alpha(
                #[trigger] src[offset(s, sw, r, c)],
            ) == 0,
    ensures
        blended(dst, d, dw, src, s, sw) == dst,
{
    let out = blended(dst, d, dw, src, s, sw);
    assert forall|k: int| 0 <= k < dst.len() implies out[k] == dst[k] by {
        if covered(d, dw, s, k) {
            let above = src[offset(s, sw, k / dw - d.y, k % dw - d.x)];
            assert(crate::color::alpha(above) == 0);
        }
    }
    assert(out =~= dst);
}

/// A region has as many rows as its rectangle is high, and each is as long
/// as the rectangle is wide and lies within the pixel array.
pub proof fn lemma_row_len(data: Seq<Color>, rect: Rect, w: int, r: int)
    requires
        region_fits(rect, w, data.len() as int),
        0 <= r < rect.h,
    ensures
        0 <= offset(rect, w, r, 0),
        offset(rect, w, r, rect.w as int) <= data.len(),
        row_of(data, rect, w, r).len() == rect.w,
{
    lemma_row_bounds(rect, w, data.len() as int, r);
}

} // verus!
