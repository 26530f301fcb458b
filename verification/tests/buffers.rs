use orbital_image::image::aligned_bytes;
use orbital_image::{Color, Image, ImageAligned, ImageRef, Mode, Rect};

fn raw(pixels: &[Color]) -> Vec<u32> {
    pixels.iter().map(|c| c.data).collect()
}

fn colors(values: &[u32]) -> Vec<Color> {
    values.iter().map(|v| Color { data: *v }).collect()
}

#[test]
fn rgb_packs_an_opaque_pixel() {
    assert_eq!(Color::rgb(1, 2, 3).data, 0xFF01_0203);
    assert_eq!(Color::rgb(0, 0, 0).data, 0xFF00_0000);
    assert_eq!(Color::rgb(255, 255, 255).data, 0xFFFF_FFFF);
}

#[test]
fn new_image_is_opaque_black() {
    let img = Image::new(3, 2);
    assert_eq!(img.width(), 3);
    assert_eq!(img.height(), 2);
    assert_eq!(raw(img.data()), vec![0xFF00_0000u32; 6]);
    assert_eq!(img.mode(), Mode::Blend);
}

#[test]
fn from_color_fills_every_pixel() {
    let c = Color { data: 0x1234_5678 };
    let img = Image::from_color(2, 2, c);
    assert_eq!(img.data().len(), 4);
    assert_eq!(raw(img.data()), vec![0x1234_5678u32; 4]);
}

#[test]
fn from_color_of_no_pixels() {
    let img = Image::from_color(0, 5, Color { data: 1 });
    assert_eq!(img.data().len(), 0);
    assert_eq!(img.width(), 0);
    assert_eq!(img.height(), 5);
}

#[test]
fn from_data_keeps_the_pixels() {
    let img = Image::from_data(3, 2, colors(&[1, 2, 3, 4, 5, 6]));
    assert_eq!(img.width(), 3);
    assert_eq!(img.height(), 2);
    assert_eq!(raw(img.data()), vec![1u32, 2, 3, 4, 5, 6]);
    assert_eq!(img.data().len(), 6);
}

#[test]
fn from_decoded_checks_the_pixel_count() {
    let ok = Image::from_decoded(2, 2, colors(&[1, 2, 3, 4]));
    assert!(ok.is_some());
    let img = ok.unwrap();
    assert_eq!(img.width(), 2);
    assert_eq!(img.height(), 2);
    assert_eq!(raw(img.data()), vec![1u32, 2, 3, 4]);
    assert!(Image::from_decoded(2, 2, colors(&[1, 2, 3])).is_none());
    assert!(Image::from_decoded(0x8000_0000, 0, Vec::new()).is_none());
    assert!(Image::from_decoded(0, 0x8000_0000, Vec::new()).is_none());
    assert!(Image::from_decoded(0, 7, Vec::new()).is_some());
}

#[test]
fn data_mut_writes_in_place() {
    let mut img = Image::from_color(2, 1, Color { data: 0 });
    img.data_mut()[1] = Color { data: 9 };
    assert_eq!(raw(img.data()), vec![0u32, 9]);
}

#[test]
fn mode_is_kept_per_buffer() {
    let mut img = Image::new(1, 1);
    assert_eq!(img.mode(), Mode::Blend);
    img.set_mode(Mode::Overwrite);
    assert_eq!(img.mode(), Mode::Overwrite);
    assert_eq!(raw(img.data()), vec![0xFF00_0000u32]);
    assert!(img.sync());
    assert_eq!(img.mode(), Mode::Overwrite);
}

#[test]
fn image_ref_draws_into_borrowed_pixels() {
    let mut store = colors(&[1, 2, 3, 4, 5, 6]);
    {
        let mut img = ImageRef::from_data(2, 3, &mut store);
        assert_eq!(img.width(), 2);
        assert_eq!(img.height(), 3);
        assert_eq!(img.data().len(), 6);
        assert_eq!(img.mode(), Mode::Blend);
        img.data_mut()[0] = Color { data: 10 };
        img.set_mode(Mode::Overwrite);
        assert_eq!(img.mode(), Mode::Overwrite);
        assert!(img.sync());
        let src = Image::from_color(1, 1, Color { data: 0xFF00_00AA });
        let mut src = src;
        let one = Rect::new(0, 0, 1, 1);
        let from = src.roi(&one);
        let at = Rect::new(1, 2, 1, 1);
        let mut to = img.roi(&at);
        to.blit(&from);
    }
    assert_eq!(raw(&store), vec![10u32, 2, 3, 4, 5, 0xFF00_00AA]);
}

#[test]
fn aligned_bytes_rounds_up_to_the_alignment() {
    assert_eq!(aligned_bytes(3, 3, 64), 64);
    assert_eq!(aligned_bytes(4, 4, 64), 64);
    assert_eq!(aligned_bytes(4, 5, 64), 128);
    assert_eq!(aligned_bytes(3, 3, 16), 48);
    assert_eq!(aligned_bytes(3, 3, 1), 36);
    assert_eq!(aligned_bytes(0, 9, 32), 0);
    assert_eq!(aligned_bytes(1, 1, 4096), 4096);
    assert_eq!(aligned_bytes(5, 7, 32) % 32, 0);
}

#[test]
fn aligned_image_zeroes_its_block() {
    let bytes: usize = aligned_bytes(3, 3, 64);
    let mut block = vec![Color { data: 0xDEAD_BEEF }; bytes / 4];
    {
        let mut img = ImageAligned::new(3, 3, 64, &mut block);
        assert_eq!(img.width(), 3);
        assert_eq!(img.height(), 3);
        assert_eq!(img.data().len(), 16);
        assert!(img.data().len() >= 9);
        assert_eq!(img.data().len() * 4 % 64, 0);
        assert_eq!(raw(img.data()), vec![0u32; 16]);
        assert_eq!(img.mode(), Mode::Blend);
        img.set_mode(Mode::Overwrite);
        assert_eq!(img.mode(), Mode::Overwrite);
        assert!(img.sync());
        img.data_mut()[15] = Color { data: 1 };
        let mut src = Image::from_color(2, 2, Color { data: 0xFF00_0001 });
        let all = Rect::new(0, 0, 2, 2);
        let from = src.roi(&all);
        let at = Rect::new(1, 1, 2, 2);
        let mut to = img.roi(&at);
        to.blit(&from);
    }
    let mut expected = vec![0u32; 16];
    expected[4] = 0xFF00_0001;
    expected[5] = 0xFF00_0001;
    expected[7] = 0xFF00_0001;
    expected[8] = 0xFF00_0001;
    expected[15] = 1;
    assert_eq!(raw(&block), expected);
}

#[test]
fn rect_accessors_and_fit() {
    let r = Rect::new(1, 2, 3, 4);
    assert_eq!(r.left(), 1);
    assert_eq!(r.top(), 2);
    assert_eq!(r.width(), 3);
    assert_eq!(r.height(), 4);
    assert!(r.fits(4, 6));
    assert!(!r.fits(3, 6));
    assert!(!r.fits(4, 5));
    assert!(Rect::new(0, 0, 0, 0).fits(0, 0));
    assert!(!Rect::new(-1, 0, 1, 1).fits(4, 4));
    assert!(!Rect::new(0, -1, 1, 1).fits(4, 4));
    assert!(!Rect::new(0, 0, -1, 1).fits(4, 4));
    assert!(!Rect::new(0, 0, 1, -1).fits(4, 4));
    assert!(!Rect::new(i32::MAX, 0, i32::MAX, 1).fits(i32::MAX, 4));
    assert!(Rect::new(4, 6, 0, 0).fits(4, 6));
}

#[test]
fn clone_copies_dimensions_pixels_and_mode() {
    let mut img = Image::from_data(2, 1, colors(&[3, 4]));
    img.set_mode(Mode::Overwrite);
    let mut copy = img.clone();
    assert_eq!(copy.width(), 2);
    assert_eq!(copy.height(), 1);
    assert_eq!(copy.mode(), Mode::Overwrite);
    assert_eq!(raw(copy.data()), vec![3u32, 4]);
    copy.data_mut()[0] = Color { data: 9 };
    assert_eq!(raw(img.data()), vec![3u32, 4]);
}
