//! The three kinds of pixel buffer: one that owns its pixels, one that borrows
//! them, and one that lives in a block of memory sized to an alignment.

use vstd::prelude::*;
use crate::color::{Color, Mode};
use crate::rect::Rect;
use crate::roi::{region_fits, ImageRoi};

verus! {

/// Bytes that one pixel takes.
pub const PIXEL_BYTES: usize = 4;

/// A region inside a buffer of `w` by `h` pixels lies within any pixel array
/// that holds at least `w * h` pixels.
pub proof fn lemma_inside_fits(rect: Rect, w: int, h: int, len: int)
    requires
        rect.inside(w, h),
        w * h <= len,
    ensures
        region_fits(rect, w, len),
{
    let a = rect.y + rect.h;
    assert(a * w <= w * h) by (nonlinear_arith)
        requires
            0 <= a <= h,
            0 <= w,
    ;
}

/// The size in bytes of `width * height` pixels, rounded up to a multiple of `align`.
pub open spec fn aligned_size(width: int, height: int, align: int) -> int {
    (width * height * 4 + align - 1) / align * align
}

/// The number of whole pixels in a block of `aligned_size` bytes.
pub open spec fn aligned_len(width: int, height: int, align: int) -> int {
    aligned_size(width, height, align) / 4
}

/// The rounded size is a multiple of the alignment and is the least such
/// multiple that holds all the pixels.
pub proof fn lemma_aligned_size(width: int, height: int, align: int)
    requires
        0 <= width,
        0 <= height,
        0 < align,
    ensures
        aligned_size(width, height, align) % align == 0,
        width * height * 4 <= aligned_size(width, height, align) < width * height * 4 + align,
        width * height <= aligned_len(width, height, align),
{
    let bytes = width * height * 4;
    assert(0 <= width * height) by (nonlinear_arith)
        requires
            0 <= width,
            0 <= height,
    ;
    let n = bytes + align - 1;
    vstd::arithmetic::div_mod::lemma_fundamental_div_mod(n, align);
    vstd::arithmetic::div_mod::lemma_mod_multiples_basic(n / align, align);
    assert(align * (n / align) == n / align * align) by (nonlinear_arith);
}

/// Where the alignment is 1, 2 or a multiple of the pixel size, as every
/// power of two is, the block holds whole pixels only: its pixel count times
/// the pixel size is the rounded size, a multiple of the alignment.
pub proof fn lemma_aligned_len_exact(width: int, height: int, align: int)
    requires
        0 <= width,
        0 <= height,
        0 < align,
        align == 1 || align == 2 || align % 4 == 0,
    ensures
        aligned_len(width, height, align) * 4 == aligned_size(width, height, align),
        (aligned_len(width, height, align) * 4) % align == 0,
{
    lemma_aligned_size(width, height, align);
    let px = width * height;
    let n = px * 4 + align - 1;
    let q = n / align;
    vstd::arithmetic::div_mod::lemma_fundamental_div_mod(n, align);
    if align % 4 == 0 {
        let a4 = align / 4;
        assert(q * align == (q * a4) * 4) by (nonlinear_arith)
            requires
                align == a4 * 4,
        ;
        vstd::arithmetic::div_mod::lemma_fundamental_div_mod_converse(q * align, 4, q * a4, 0);
    } else if align == 2 {
        vstd::arithmetic::div_mod::lemma_fundamental_div_mod_converse(n, 2, px * 2, 1);
    } else {
        vstd::arithmetic::div_mod::lemma_fundamental_div_mod_converse(n, 1, n, 0);
    }
}

/// The size in bytes of the block that an aligned buffer of these dimensions
/// lives in.
pub fn aligned_bytes(width: i32, height: i32, align: usize) -> (size: usize)
    requires
        0 <= width,
        0 <= height,
        0 < align,
        width * height * 4 + align <= usize::MAX,
    ensures
        size == aligned_size(width as int, height as int, align as int),
        size % align == 0,
        width * height * 4 <= size < width * height * 4 + align,
{
    proof {
        lemma_aligned_size(width as int, height as int, align as int);
        assert(0 <= width * height <= width * height * 4) by (nonlinear_arith)
            requires
                0 <= width,
                0 <= height,
        ;
    }
    let size: usize = width as usize * height as usize;
    let size_bytes: usize = size * PIXEL_BYTES;
    let size_alignments: usize = (size_bytes + align - 1) / align;
    size_alignments * align
}

/// A buffer that owns its pixels.
pub struct Image {
    pub w: i32,
    pub h: i32,
    pub data: Vec<Color>,
    pub mode: Mode,
}

impl Clone for Image {
    /// A second buffer with the same dimensions, pixels and mode.
    fn clone(&self) -> (copy: Image)
        ensures
            copy.w == self.w,
            copy.h == self.h,
            copy.mode == self.mode,
            copy.pixels() == self.pixels(),
    {
        let data = self.data.clone();
        assert(data@ =~= self.data@);
        Image { w: self.w, h: self.h, data, mode: self.mode }
    }
}

impl Image {
    /// The buffer holds exactly one pixel for each position.
    pub open spec fn wf(&self) -> bool {
        &&& 0 <= self.w
        &&& 0 <= self.h
        &&& self.data@.len() == self.w * self.h
    }

    /// The pixels, row after row.
    pub open spec fn pixels(&self) -> Seq<Color> {
        self.data@
    }

    /// A buffer of opaque black pixels.
    pub fn new(width: i32, height: i32) -> (img: Image)
        requires
            0 <= width,
            0 <= height,
            width * height <= usize::MAX,
        ensures
            img.wf(),
            img.w == width,
            img.h == height,
            img.mode == Mode::Blend,
            img.pixels() == Seq::new((width * height) as nat, |i: int| Color { data: 0xFF00_0000u32 }),
    {
        Image::from_color(width, height, Color::rgb(0, 0, 0))
    }

    /// A buffer in which every pixel is `color`.
    pub fn from_color(width: i32, height: i32, color: Color) -> (img: Image)
        requires
            0 <= width,
            0 <= height,
            width * height <= usize::MAX,
        ensures
            img.wf(),
            img.w == width,
            img.h == height,
            img.mode == Mode::Blend,
            img.pixels() == Seq::new((width * height) as nat, |i: int| color),
    {
        assert(0 <= width * height) by (nonlinear_arith)
            requires
                0 <= width,
                0 <= height,
        ;
        let n: usize = width as usize * height as usize;
        let data = vec![color; n];
        assert(data@ =~= Seq::new((width * height) as nat, |i: int| color));
        Image::from_data(width, height, data)
    }

    /// A buffer of the given pixels, which are as many as the dimensions ask for.
    pub fn from_data(width: i32, height: i32, data: Vec<Color>) -> (img: Image)
        requires
            0 <= width,
            0 <= height,
            data@.len() == width * height,
        ensures
            img.wf(),
            img.w == width,
            img.h == height,
            img.mode == Mode::Blend,
            img.pixels() == data@,
    {
        Image { w: width, h: height, data, mode: Mode::Blend }
    }

    /// A buffer of what a decoder produced, or `None` where the dimensions
    /// are too large for a buffer or the pixels are not as many as the
    /// dimensions ask for.
    pub fn from_decoded(width: u32, height: u32, data: Vec<Color>) -> (img: Option<Image>)
        ensures
            img.is_some() <==> width <= i32::MAX && height <= i32::MAX && data@.len() == width
                * height,
            img.is_some() ==> img.unwrap().wf() && img.unwrap().w == width && img.unwrap().h
                == height && img.unwrap().mode == Mode::Blend && img.unwrap().pixels() == data@,
    {
        if width > 0x7FFF_FFFF || height > 0x7FFF_FFFF {
            return None;
        }
        assert(width * height <= 0x7FFF_FFFF * 0x7FFF_FFFF) by (nonlinear_arith)
            requires
                width <= 0x7FFF_FFFF,
                height <= 0x7FFF_FFFF,
        ;
        let wanted: u64 = width as u64 * height as u64;
        if data.len() as u64 != wanted {
            return None;
        }
        Some(Image::from_data(width as i32, height as i32, data))
    }

    pub fn width(&self) -> (w: i32)
        ensures
            w == self.w,
    {
        self.w
    }

    pub fn height(&self) -> (h: i32)
        ensures
            h == self.h,
    {
        self.h
    }

    /// The region of the buffer that `rect` names. The buffer is borrowed for
    /// as long as the region lives and then holds what the region was left with.
    ///
    /// The rectangle must lie inside the buffer, which `Rect::fits` decides:
    /// a region never reaches a pixel outside its buffer.
    pub fn roi(&mut self, rect: &Rect) -> (roi: ImageRoi<'_>)
        requires
            old(self).wf(),
            rect.inside(old(self).w as int, old(self).h as int),
        ensures
            roi.wf(),
            roi.rect == *rect,
            roi.w == old(self).w,
            roi.pixels() == old(self).pixels(),
            final(self).pixels() == final(roi.data)@,
            final(self).w == old(self).w,
            final(self).h == old(self).h,
            final(self).mode == old(self).mode,
    {
        proof {
            lemma_inside_fits(*rect, self.w as int, self.h as int, self.data@.len() as int);
        }
        ImageRoi { rect: *rect, w: self.w, data: self.data.as_mut_slice() }
    }

    /// All pixels, row after row.
    pub fn data(&self) -> (data: &[Color])
        ensures
            data@ == self.pixels(),
            self.wf() ==> data@.len() == self.w * self.h,
    {
        self.data.as_slice()
    }

    /// All pixels, row after row, to be written in place.
    pub fn data_mut(&mut self) -> (data: &mut [Color])
        ensures
            data@ == old(self).pixels(),
            final(self).pixels() == final(data)@,
            final(self).w == old(self).w,
            final(self).h == old(self).h,
            final(self).mode == old(self).mode,
    {
        self.data.as_mut_slice()
    }

    /// The buffer's drawing mode.
    pub fn mode(&self) -> (mode: Mode)
        ensures
            mode == self.mode,
    {
        self.mode
    }

    /// Sets the buffer's drawing mode; the pixels stay as they are.
    pub fn set_mode(&mut self, mode: Mode)
        ensures
            final(self).mode == mode,
            final(self).w == old(self).w,
            final(self).h == old(self).h,
            final(self).data == old(self).data,
    {
        self.mode = mode;
    }

    /// Nothing stands between this buffer and a display: always succeeds and
    /// changes nothing.
    pub fn sync(&mut self) -> (done: bool)
        ensures
            done,
            *final(self) == *old(self),
    {
        true
    }
}

/// A buffer that draws into pixels that someone else owns.
pub struct ImageRef<'a> {
    pub w: i32,
    pub h: i32,
    pub data: &'a mut [Color],
    pub mode: Mode,
}

impl<'a> ImageRef<'a> {
    /// The buffer holds exactly one pixel for each position.
    pub open spec fn wf(&self) -> bool {
        &&& 0 <= self.w
        &&& 0 <= self.h
        &&& self.data@.len() == self.w * self.h
    }

    /// The pixels, row after row.
    pub open spec fn pixels(&self) -> Seq<Color> {
        self.data@
    }

    /// A buffer over the given pixels, which are as many as the dimensions
    /// ask for. Nothing is allocated; the owner finds in `data` what the
    /// buffer was left with.
    pub fn from_data(width: i32, height: i32, data: &'a mut [Color]) -> (img: ImageRef<'a>)
        requires
            0 <= width,
            0 <= height,
            old(data)@.len() == width * height,
        ensures
            img.wf(),
            img.w == width,
            img.h == height,
            img.mode == Mode::Blend,
            img.pixels() == old(data)@,
            final(data)@ == final(img.data)@,
    {
        ImageRef { w: width, h: height, data, mode: Mode::Blend }
    }

    pub fn width(&self) -> (w: i32)
        ensures
            w == self.w,
    {
        self.w
    }

    pub fn height(&self) -> (h: i32)
        ensures
            h == self.h,
    {
        self.h
    }

    /// The region of the buffer that `rect` names. The buffer is borrowed for
    /// as long as the region lives and then holds what the region was left with.
    ///
    /// The rectangle must lie inside the buffer, which `Rect::fits` decides:
    /// a region never reaches a pixel outside its buffer.
    pub fn roi(&mut self, rect: &Rect) -> (roi: ImageRoi<'_>)
        requires
            old(self).wf(),
            rect.inside(old(self).w as int, old(self).h as int),
        ensures
            roi.wf(),
            roi.rect == *rect,
            roi.w == old(self).w,
            roi.pixels() == old(self).pixels(),
            final(self).pixels() == final(roi.data)@,
            final(self).w == old(self).w,
            final(self).h == old(self).h,
            final(self).mode == old(self).mode,
            final(final(self).data)@ == final(old(self).data)@,
    {
        proof {
            lemma_inside_fits(*rect, self.w as int, self.h as int, self.data@.len() as int);
        }
        ImageRoi { rect: *rect, w: self.w, data: self.data }
    }

    /// All pixels, row after row.
    pub fn data(&self) -> (data: &[Color])
        ensures
            data@ == self.pixels(),
            self.wf() ==> data@.len() == self.w * self.h,
    {
        self.data
    }

    /// All pixels, row after row, to be written in place.
    pub fn data_mut(&mut self) -> (data: &mut [Color])
        ensures
            data@ == old(self).pixels(),
            final(self).pixels() == final(data)@,
            final(self).w == old(self).w,
            final(self).h == old(self).h,
            final(self).mode == old(self).mode,
            final(final(self).data)@ == final(old(self).data)@,
    {
        self.data
    }

    /// The buffer's drawing mode.
    pub fn mode(&self) -> (mode: Mode)
        ensures
            mode == self.mode,
    {
        self.mode
    }

    /// Sets the buffer's drawing mode; the pixels stay as they are.
    pub fn set_mode(&mut self, mode: Mode)
        ensures
            final(self).mode == mode,
            final(self).w == old(self).w,
            final(self).h == old(self).h,
            final(self).pixels() == old(self).pixels(),
            final(final(self).data)@ == final(old(self).data)@,
    {
        self.mode = mode;
    }

    /// Nothing stands between this buffer and a display: always succeeds and
    /// changes nothing.
    pub fn sync(&mut self) -> (done: bool)
        ensures
            done,
            final(self).mode == old(self).mode,
            final(self).w == old(self).w,
            final(self).h == old(self).h,
            final(self).pixels() == old(self).pixels(),
            final(final(self).data)@ == final(old(self).data)@,
    {
        true
    }
}

/// A buffer that lives in a block of memory whose size in bytes was rounded
/// up to a multiple of an alignment.
///
/// The block is obtained, and released again, by whoever makes the buffer; it
/// may hold more pixels than the dimensions ask for, and no region of the
/// buffer reaches the surplus.
pub struct ImageAligned<'a> {
    pub w: i32,
    pub h: i32,
    pub data: &'a mut [Color],
    pub mode: Mode,
}

impl<'a> ImageAligned<'a> {
    /// The block holds at least one pixel for each position.
    pub open spec fn wf(&self) -> bool {
        &&& 0 <= self.w
        &&& 0 <= self.h
        &&& self.data@.len() >= self.w * self.h
    }

    /// The pixels, row after row, and the surplus after them.
    pub open spec fn pixels(&self) -> Seq<Color> {
        self.data@
    }

    /// A buffer in the given block, which holds as many pixels as fit into
    /// the rounded size. Every pixel of the block is set to zero.
    pub fn new(width: i32, height: i32, align: usize, data: &'a mut [Color]) -> (img: ImageAligned<
        'a,
    >)
        requires
            0 <= width,
            0 <= height,
            0 < align,
            old(data)@.len() == aligned_len(width as int, height as int, align as int),
        ensures
            img.wf(),
            img.w == width,
            img.h == height,
            img.mode == Mode::Blend,
            img.pixels() == Seq::new(
                aligned_len(width as int, height as int, align as int) as nat,
                |i: int| Color { data: 0u32 },
            ),
            final(data)@ == final(img.data)@,
    {
        proof {
            lemma_aligned_size(width as int, height as int, align as int);
        }
        let n = data.len();
        let mut i: usize = 0;
        while i < n
            invariant
                i <= n,
                n == data@.len(),
                forall|k: int| 0 <= k < i ==> (#[trigger] data@[k]).data == 0,
            decreases n - i,
        {
            data[i] = Color { data: 0 };
            i += 1;
        }
        assert(data@ =~= Seq::new(
            aligned_len(width as int, height as int, align as int) as nat,
            |i: int| Color { data: 0u32 },
        ));
        ImageAligned { w: width, h: height, data, mode: Mode::Blend }
    }

    pub fn width(&self) -> (w: i32)
        ensures
            w == self.w,
    {
        self.w
    }

    pub fn height(&self) -> (h: i32)
        ensures
            h == self.h,
    {
        self.h
    }

    /// The region of the buffer that `rect` names. The buffer is borrowed for
    /// as long as the region lives and then holds what the region was left with.
    ///
    /// The rectangle must lie inside the buffer, which `Rect::fits` decides:
    /// a region never reaches a pixel outside its buffer.
    pub fn roi(&mut self, rect: &Rect) -> (roi: ImageRoi<'_>)
        requires
            old(self).wf(),
            rect.inside(old(self).w as int, old(self).h as int),
        ensures
            roi.wf(),
            roi.rect == *rect,
            roi.w == old(self).w,
            roi.pixels() == old(self).pixels(),
            final(self).pixels() == final(roi.data)@,
            final(self).w == old(self).w,
            final(self).h == old(self).h,
            final(self).mode == old(self).mode,
            final(final(self).data)@ == final(old(self).data)@,
    {
        proof {
            lemma_inside_fits(*rect, self.w as int, self.h as int, self.data@.len() as int);
        }
        ImageRoi { rect: *rect, w: self.w, data: self.data }
    }

    /// All pixels of the block, row after row.
    pub fn data(&self) -> (data: &[Color])
        ensures
            data@ == self.pixels(),
            self.wf() ==> data@.len() >= self.w * self.h,
    {
        self.data
    }

    /// All pixels of the block, row after row, to be written in place.
    pub fn data_mut(&mut self) -> (data: &mut [Color])
        ensures
            data@ == old(self).pixels(),
            final(self).pixels() == final(data)@,
            final(self).w == old(self).w,
            final(self).h == old(self).h,
            final(self).mode == old(self).mode,
            final(final(self).data)@ == final(old(self).data)@,
    {
        self.data
    }

    /// The buffer's drawing mode.
    pub fn mode(&self) -> (mode: Mode)
        ensures
            mode == self.mode,
    {
        self.mode
    }

    /// Sets the buffer's drawing mode; the pixels stay as they are.
    pub fn set_mode(&mut self, mode: Mode)
        ensures
            final(self).mode == mode,
            final(self).w == old(self).w,
            final(self).h == old(self).h,
            final(self).pixels() == old(self).pixels(),
            final(final(self).data)@ == final(old(self).data)@,
    {
        self.mode = mode;
    }

    /// Nothing stands between this buffer and a display: always succeeds and
    /// changes nothing.
    pub fn sync(&mut self) -> (done: bool)
        ensures
            done,
            final(self).mode == old(self).mode,
            final(self).w == old(self).w,
            final(self).h == old(self).h,
            final(self).pixels() == old(self).pixels(),
            final(final(self).data)@ == final(old(self).data)@,
    {
        true
    }
}

} // verus!
