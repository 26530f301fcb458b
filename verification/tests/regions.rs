use orbital_image::{Color, Image, Rect};

fn raw(pixels: &[Color]) -> Vec<u32> {
    pixels.iter().map(|c| c.data).collect()
}

fn colors(values: &[u32]) -> Vec<Color> {
    values.iter().map(|v| Color { data: *v }).collect()
}

fn counting(width: i32, height: i32) -> Image {
    let n: u32 = (width * height) as u32;
    let values: Vec<u32> = (0..n).collect();
    Image::from_data(width, height, colors(&values))
}

#[test]
fn rows_yield_height_rows_of_width_pixels() {
    let mut img = counting(4, 3);
    let rect = Rect::new(1, 1, 2, 2);
    let roi = img.roi(&rect);
    let mut rows = roi.rows();
    let mut seen: Vec<Vec<u32>> = Vec::new();
    while let Some(row) = rows.next() {
        assert_eq!(row.len(), 2);
        seen.push(raw(row));
    }
    assert_eq!(seen, vec![vec![5u32, 6], vec![9u32, 10]]);
    assert!(rows.next().is_none());
}

#[test]
fn rows_of_a_degenerate_region() {
    let mut img = counting(4, 3);
    let flat = Rect::new(1, 1, 2, 0);
    {
        let roi = img.roi(&flat);
        let mut rows = roi.rows();
        assert!(rows.next().is_none());
    }
    let thin = Rect::new(4, 0, 0, 3);
    let roi = img.roi(&thin);
    let mut rows = roi.rows();
    let mut count: usize = 0;
    while let Some(row) = rows.next() {
        assert_eq!(row.len(), 0);
        count += 1;
    }
    assert_eq!(count, 3);
}

#[test]
fn rows_start_afresh_on_each_call() {
    let mut img = counting(2, 2);
    let rect = Rect::new(0, 0, 2, 2);
    let roi = img.roi(&rect);
    let mut first = roi.rows();
    assert_eq!(raw(first.next().unwrap()), vec![0u32, 1]);
    let mut second = roi.rows();
    assert_eq!(raw(second.next().unwrap()), vec![0u32, 1]);
    assert_eq!(raw(first.next().unwrap()), vec![2u32, 3]);
}

#[test]
fn rows_mut_write_only_inside_the_region() {
    let mut img = counting(4, 3);
    let rect = Rect::new(2, 0, 2, 3);
    {
        let mut roi = img.roi(&rect);
        let mut rows = roi.rows_mut();
        let mut count: u32 = 0;
        while let Some(row) = rows.next() {
            assert_eq!(row.len(), 2);
            row[0] = Color { data: 100 + count };
            row[1] = Color { data: 200 + count };
            count += 1;
        }
        assert_eq!(count, 3);
        assert!(rows.next().is_none());
    }
    assert_eq!(raw(img.data()), vec![0u32, 1, 100, 200, 4, 5, 101, 201, 8, 9, 102, 202]);
}

#[test]
fn blit_copies_the_region() {
    let mut dst = Image::from_color(4, 3, Color { data: 0 });
    let mut src = counting(3, 3);
    let from_rect = Rect::new(1, 1, 2, 2);
    let to_rect = Rect::new(2, 0, 2, 2);
    {
        let from = src.roi(&from_rect);
        let mut to = dst.roi(&to_rect);
        to.blit(&from);
    }
    assert_eq!(raw(dst.data()), vec![0u32, 0, 4, 5, 0, 0, 7, 8, 0, 0, 0, 0]);
    assert_eq!(raw(src.data()), vec![0u32, 1, 2, 3, 4, 5, 6, 7, 8]);
}

#[test]
fn blit_ignores_alpha() {
    let mut dst = Image::from_color(1, 1, Color { data: 0xFF11_2233 });
    let mut src = Image::from_color(1, 1, Color { data: 0x0000_0000 });
    let rect = Rect::new(0, 0, 1, 1);
    {
        let from = src.roi(&rect);
        let mut to = dst.roi(&rect);
        to.blit(&from);
    }
    assert_eq!(raw(dst.data()), vec![0u32]);
}

#[test]
fn blit_of_a_region_onto_its_copy_changes_nothing() {
    let mut a = counting(4, 4);
    let mut same = a.clone();
    let rect = Rect::new(1, 1, 3, 2);
    {
        let from = same.roi(&rect);
        let mut to = a.roi(&rect);
        to.blit(&from);
    }
    assert_eq!(raw(a.data()), raw(counting(4, 4).data()));
}

#[test]
fn blit_truncates_to_the_rows_and_columns_both_have() {
    let mut dst = Image::from_color(3, 3, Color { data: 0 });
    let mut src = Image::from_color(4, 1, Color { data: 7 });
    {
        let from_rect = Rect::new(0, 0, 4, 1);
        let to_rect = Rect::new(1, 1, 2, 2);
        let from = src.roi(&from_rect);
        let mut to = dst.roi(&to_rect);
        to.blit(&from);
    }
    assert_eq!(raw(dst.data()), vec![0u32, 0, 0, 0, 7, 7, 0, 0, 0]);
    let mut wide = Image::from_color(3, 2, Color { data: 0 });
    let mut small = Image::from_color(1, 2, Color { data: 9 });
    {
        let from_rect = Rect::new(0, 0, 1, 2);
        let to_rect = Rect::new(0, 0, 3, 1);
        let from = small.roi(&from_rect);
        let mut to = wide.roi(&to_rect);
        to.blit(&from);
    }
    assert_eq!(raw(wide.data()), vec![9u32, 0, 0, 0, 0, 0]);
}

#[test]
fn blend_of_opaque_pixels_replaces() {
    let mut dst = counting(3, 2);
    let mut src = Image::from_data(2, 2, colors(&[0xFF00_0001, 0xFFAB_CDEF, 0xFF00_0000, 0xFFFF_FFFF]));
    {
        let from_rect = Rect::new(0, 0, 2, 2);
        let to_rect = Rect::new(1, 0, 2, 2);
        let from = src.roi(&from_rect);
        let mut to = dst.roi(&to_rect);
        to.blend(&from);
    }
    assert_eq!(raw(dst.data()), vec![0u32, 0xFF00_0001, 0xFFAB_CDEF, 3, 0xFF00_0000, 0xFFFF_FFFF]);
}

#[test]
fn blend_of_transparent_pixels_changes_nothing() {
    let mut dst = Image::from_data(2, 2, colors(&[0xFF10_2030, 0x0000_0000, 0x8012_3456, 0xFFFF_FFFF]));
    let mut src = Image::from_data(2, 2, colors(&[0x00FF_FFFF, 0x0000_0000, 0x0012_3456, 0x00AB_CDEF]));
    {
        let rect = Rect::new(0, 0, 2, 2);
        let from = src.roi(&rect);
        let mut to = dst.roi(&rect);
        to.blend(&from);
    }
    assert_eq!(raw(dst.data()), vec![0xFF10_2030u32, 0x0000_0000, 0x8012_3456, 0xFFFF_FFFF]);
}

#[test]
fn blend_of_half_transparent_white() {
    let mut dst = Image::from_color(1, 1, Color { data: 0xFF10_2030 });
    let mut src = Image::from_color(1, 1, Color { data: 0x80FF_FFFF });
    {
        let rect = Rect::new(0, 0, 1, 1);
        let from = src.roi(&rect);
        let mut to = dst.roi(&rect);
        to.blend(&from);
    }
    let out: u32 = dst.data()[0].data;
    assert_eq!((out >> 16) & 0xFF, 134);
    assert_eq!((out >> 8) & 0xFF, 142);
    assert_eq!(out & 0xFF, 150);
    assert_eq!(out, 0x0086_8E96);
}

#[test]
fn blend_of_one_pixel() {
    let below = Color { data: 0xFF10_2030 };
    assert_eq!(below.blend(Color { data: 0x80FF_FFFF }).data, 0x0086_8E96);
    assert_eq!(below.blend(Color { data: 0xFF01_0203 }).data, 0xFF01_0203);
    assert_eq!(below.blend(Color { data: 0x0001_0203 }).data, 0xFF10_2030);
    assert_eq!(below.blend(Color { data: 0x01FF_FFFF }).data, 0x000F_1F2F);
    assert_eq!(below.blend(Color { data: 0xFE00_0000 }).data, 0x0000_0000);
    assert_eq!(Color { data: 0xFFFF_FFFF }.blend(Color { data: 0xFEFF_FFFF }).data, 0x00FD_FDFD);
}

#[test]
fn blend_truncates_to_the_rows_and_columns_both_have() {
    let mut dst = Image::from_color(3, 3, Color { data: 5 });
    let mut src = Image::from_color(2, 4, Color { data: 0xFF00_0009 });
    {
        let from_rect = Rect::new(0, 1, 2, 3);
        let to_rect = Rect::new(0, 1, 3, 2);
        let from = src.roi(&from_rect);
        let mut to = dst.roi(&to_rect);
        to.blend(&from);
    }
    assert_eq!(
        raw(dst.data()),
        vec![5u32, 5, 5, 0xFF00_0009, 0xFF00_0009, 5, 0xFF00_0009, 0xFF00_0009, 5]
    );
}

#[test]
fn blend_into_a_degenerate_region_changes_nothing() {
    let mut dst = counting(2, 2);
    let mut src = Image::from_color(2, 2, Color { data: 0xFFFF_FFFF });
    {
        let from_rect = Rect::new(0, 0, 2, 2);
        let to_rect = Rect::new(2, 2, 0, 0);
        let from = src.roi(&from_rect);
        let mut to = dst.roi(&to_rect);
        to.blend(&from);
    }
    assert_eq!(raw(dst.data()), vec![0u32, 1, 2, 3]);
}
