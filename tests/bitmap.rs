use bmp_filters::error::BmpError;
use bmp_filters::fileinfo::FileInfo;
use bmp_filters::image::{decode_image, encode_image};
use bmp_filters::pixel::{Channel, Pixel, PixelArray};
use std::num::Wrapping;

fn px(r: u8, g: u8, b: u8) -> Pixel {
    Pixel { r, g, b }
}

fn grid(w: usize, h: usize, f: impl Fn(usize, usize) -> Pixel) -> PixelArray {
    let mut a = PixelArray::new(w, h);
    for y in 0..h {
        for x in 0..w {
            a.set(x, y, f(x, y));
        }
    }
    a
}

fn sample(x: usize, y: usize) -> Pixel {
    px(
        ((x * 37 + y * 11) % 256) as u8,
        ((x * 5 + y * 71 + 3) % 256) as u8,
        ((x * y * 13 + 200) % 256) as u8,
    )
}

fn header(w: u32, h: u32, padding: u32) -> FileInfo {
    let mut i = FileInfo::new();
    i.id1 = b'B';
    i.id2 = b'M';
    i.pix_offset = 54;
    i.dib_size = 40;
    i.px_width = w;
    i.px_height = h;
    i.cplane = 1;
    i.bit_px = 24;
    i.raw_size = (w * 3 + padding) * h;
    i.size_file = 54 + i.raw_size;
    i.dpi_h = 2835;
    i.dpi_v = 2835;
    i
}

// A whole bitmap file of `a`, stored with rows padded to four bytes.
fn bitmap_of(a: &PixelArray) -> Vec<u8> {
    let w = a.width() as u32;
    let padding = (4 - (w * 3) % 4) % 4;
    encode_image(&header(w, a.height() as u32, padding), a).unwrap()
}

fn pixel_array(bytes: &[u8]) -> PixelArray {
    decode_image(bytes).unwrap().1
}

// Straightforward clamped box blur, pixel by pixel.
fn naive_blur(a: &PixelArray, by: usize, bx: usize) -> PixelArray {
    let (w, h) = (a.width(), a.height());
    grid(w, h, |x, y| {
        let (hx, hy) = ((bx - 1) / 2, (by - 1) / 2);
        let (mut r, mut g, mut b, mut n) = (0usize, 0usize, 0usize, 0usize);
        for j in y.saturating_sub(hy)..=(y + hy).min(h - 1) {
            for i in x.saturating_sub(hx)..=(x + hx).min(w - 1) {
                let p = a.get(i, j);
                r += p.r as usize;
                g += p.g as usize;
                b += p.b as usize;
                n += 1;
            }
        }
        px((r / n) as u8, (g / n) as u8, (b / n) as u8)
    })
}

#[test]
fn number() {
    let zero = Wrapping(0usize);
    let one = Wrapping(1usize);
    println!("{}", zero - one);
}

#[test]
fn test_blurred() {
    let orig = pixel_array(&bitmap_of(&grid(11, 9, sample)));
    let blur = naive_blur(&orig, 7, 7);
    assert_eq!(blur, orig.make_blur(7, 7))
}

#[test]
fn test_red() {
    let orig = pixel_array(&bitmap_of(&grid(5, 3, sample)));
    let expected = grid(5, 3, |x, y| px(sample(x, y).r, 0, 0));
    assert_eq!(expected, orig.make_red())
}

#[test]
fn test_blue() {
    let orig = pixel_array(&bitmap_of(&grid(5, 3, sample)));
    let expected = grid(5, 3, |x, y| px(0, 0, sample(x, y).b));
    assert_eq!(expected, orig.make_blue())
}

#[test]
fn test_green() {
    let orig = pixel_array(&bitmap_of(&grid(5, 3, sample)));
    let expected = grid(5, 3, |x, y| px(0, sample(x, y).g, 0));
    assert_eq!(expected, orig.make_green())
}

#[test]
fn header_round_trip() {
    let mut h = header(7, 3, 3);
    h.unused1 = 0xbeef;
    h.unused2 = 0x0102;
    h.colors = 0xdeadbeef;
    h.imp_colors = 17;
    h.px_compress = 0x01020304;
    let bytes = h.to_bytes();
    assert_eq!(bytes.len(), 54);
    assert_eq!(FileInfo::from_file(&bytes), Ok(h));
}

#[test]
fn header_bytes_are_little_endian() {
    let mut h = FileInfo::new();
    h.id1 = b'B';
    h.id2 = b'M';
    h.size_file = 0x0403_0201;
    h.unused1 = 0x0605;
    h.imp_colors = 0xa0b0c0d0;
    let bytes = h.to_bytes();
    assert_eq!(&bytes[0..8], &[b'B', b'M', 1, 2, 3, 4, 5, 6]);
    assert_eq!(&bytes[50..54], &[0xd0, 0xc0, 0xb0, 0xa0]);
    let back = FileInfo::from_file(&bytes).unwrap();
    assert_eq!(back.size_file, 0x0403_0201);
    assert_eq!(back.unused1, 0x0605);
}

#[test]
fn write_file_overwrites_start() {
    let h = header(2, 2, 2);
    let mut out = vec![9u8; 60];
    h.write_file(&mut out);
    assert_eq!(out.len(), 60);
    assert_eq!(&out[..54], &h.to_bytes()[..]);
    assert_eq!(&out[54..], &[9u8; 6]);
    let mut short = vec![1u8; 3];
    h.write_file(&mut short);
    assert_eq!(short, h.to_bytes());
}

#[test]
fn header_truncated() {
    let bytes = header(1, 1, 1).to_bytes();
    assert_eq!(FileInfo::from_file(&bytes[..53]), Err(BmpError::Truncated));
    assert_eq!(FileInfo::read_header(&[]), Err(BmpError::Truncated));
    assert_eq!(decode_image(&bytes[..10]).err(), Some(BmpError::Truncated));
}

#[test]
fn invalid_signature_rejected() {
    let mut bytes = header(2, 2, 2).to_bytes();
    bytes[0] = b'X';
    bytes[1] = b'X';
    assert_eq!(FileInfo::read_header(&bytes), Err(BmpError::BadSignature));
    assert_eq!(decode_image(&bytes).err(), Some(BmpError::BadSignature));
    // the unchecked decode still reads the fields
    assert_eq!(FileInfo::from_file(&bytes).unwrap().id1, b'X');
}

#[test]
fn valid_signature_accepted() {
    let h = header(2, 2, 2);
    assert_eq!(FileInfo::read_header(&h.to_bytes()), Ok(h));
}

#[test]
fn padding_computation() {
    let mut h = FileInfo::new();
    h.raw_size = 768;
    h.px_height = 4;
    h.px_width = 64;
    assert_eq!(h.get_padding(), Ok(0));
    h.px_width = 60;
    assert_eq!(h.get_padding(), Ok(12));
    h.px_width = 63;
    assert_eq!(h.get_padding(), Ok(3));
}

#[test]
fn padding_invalid_geometry() {
    let mut h = FileInfo::new();
    h.raw_size = 768;
    h.px_height = 0;
    h.px_width = 2;
    assert_eq!(h.get_padding(), Err(BmpError::InvalidGeometry));
    h.px_height = 4;
    h.px_width = 65;
    assert_eq!(h.get_padding(), Err(BmpError::InvalidGeometry));
    let mut bytes = h.to_bytes();
    bytes[0] = b'B';
    bytes[1] = b'M';
    assert_eq!(decode_image(&bytes).err(), Some(BmpError::InvalidGeometry));
    assert_eq!(encode_image(&h, &PixelArray::new(65, 4)).err(), Some(BmpError::InvalidGeometry));
}

#[test]
fn pixels_decode_bgr_order_and_skip_padding() {
    // 2 by 2, two bytes of padding per row, pixel data at offset 3
    let src = [0xaa, 0xbb, 0xcc, 1, 2, 3, 4, 5, 6, 0xee, 0xee, 7, 8, 9, 10, 11, 12, 0xee, 0xee];
    let a = PixelArray::from_bm(&src, 2, 2, 3, 2).unwrap();
    assert_eq!(a.width(), 2);
    assert_eq!(a.height(), 2);
    assert_eq!(a.get(0, 0), px(3, 2, 1));
    assert_eq!(a.get(1, 0), px(6, 5, 4));
    assert_eq!(a.get(0, 1), px(9, 8, 7));
    assert_eq!(a.get(1, 1), px(12, 11, 10));
    assert_eq!(PixelArray::from_bm(&src[..18], 2, 2, 3, 2).err(), Some(BmpError::Truncated));
    assert_eq!(PixelArray::from_bm(&src, 2, 2, usize::MAX, 2).err(), Some(BmpError::Truncated));
    assert_eq!(PixelArray::from_bm(&src, usize::MAX, 2, 0, 0).err(), Some(BmpError::Truncated));
}

#[test]
fn pixels_encode_bgr_order_with_zero_padding() {
    let a = grid(2, 2, |x, y| px((x + 2 * y) as u8 * 3 + 3, (x + 2 * y) as u8 * 3 + 2, (x + 2 * y) as u8 * 3 + 1));
    let mut out = vec![0xaa, 0xbb];
    a.write_bm(&mut out, 3, 2);
    assert_eq!(out, vec![0xaa, 0xbb, 0, 1, 2, 3, 4, 5, 6, 0, 0, 7, 8, 9, 10, 11, 12, 0, 0]);
    let mut longer = vec![0x55u8; 25];
    a.write_bm(&mut longer, 1, 2);
    assert_eq!(&longer[1..17], &[1, 2, 3, 4, 5, 6, 0, 0, 7, 8, 9, 10, 11, 12, 0, 0]);
    assert_eq!(longer[0], 0x55);
    assert_eq!(&longer[17..], &[0x55u8; 8]);
}

#[test]
fn pixels_round_trip() {
    let a = grid(5, 4, sample);
    let mut out = vec![7u8; 10];
    a.write_bm(&mut out, 20, 3);
    assert_eq!(PixelArray::from_bm(&out, 5, 4, 20, 3).unwrap(), a);
}

#[test]
fn image_round_trip() {
    let a = grid(3, 2, sample);
    let h = header(3, 2, 3);
    let bytes = encode_image(&h, &a).unwrap();
    assert_eq!(bytes.len(), 54 + 2 * 12);
    let (h2, a2) = decode_image(&bytes).unwrap();
    assert_eq!(h2, h);
    assert_eq!(a2, a);
}

#[test]
fn empty_grid_decodes() {
    let a = PixelArray::from_bm(&[1, 2, 3], 4, 0, 2, 5).unwrap();
    assert_eq!(a.width(), 4);
    assert_eq!(a.height(), 0);
}

#[test]
fn isolate_red_idempotent() {
    let a = grid(4, 3, sample);
    let once = grid(4, 3, sample).make_red();
    let twice = grid(4, 3, sample).make_red().make_red();
    assert_eq!(once, twice);
    assert_ne!(once, a);
}

#[test]
fn isolation_keeps_one_channel() {
    let p = px(10, 20, 30);
    assert_eq!(p.make_red(), px(10, 0, 0));
    assert_eq!(p.make_green(), px(0, 20, 0));
    assert_eq!(p.make_blue(), px(0, 0, 30));
    assert_eq!(p.isolate(Channel::Green), px(0, 20, 0));
    for out in [grid(4, 3, sample).make_red(), grid(4, 3, sample).make_green(), grid(4, 3, sample).make_blue()] {
        for y in 0..3 {
            for x in 0..4 {
                let q = out.get(x, y);
                let nonzero = [q.r, q.g, q.b].iter().filter(|c| **c != 0).count();
                assert!(nonzero <= 1);
            }
        }
    }
}

#[test]
fn blur_interior_averages_full_window() {
    // all pixels 0 except one 5 by 3 block of 255 around (4, 3) in red
    let a = grid(9, 7, |x, y| if (2..=6).contains(&x) && (2..=4).contains(&y) { px(255, 0, 0) } else { px(0, 0, 0) });
    let b = grid(9, 7, |x, y| if (2..=6).contains(&x) && (2..=4).contains(&y) { px(255, 0, 0) } else { px(0, 0, 0) })
        .make_blur(3, 5);
    // the 5 by 3 window around (4, 3) is the whole block: 15 pixels of 255
    assert_eq!(b.get(4, 3), px(255, 0, 0));
    // the window around (4, 2) covers 10 of the block's pixels out of 15
    assert_eq!(b.get(4, 2), px(170, 0, 0));
    assert_eq!(b, naive_blur(&a, 3, 5));
}

#[test]
fn blur_top_left_7x7() {
    let a = grid(6, 6, |x, y| px((x * 10 + y) as u8, 0, if x >= 4 || y >= 4 { 200 } else { 0 }));
    let b = grid(6, 6, |x, y| px((x * 10 + y) as u8, 0, if x >= 4 || y >= 4 { 200 } else { 0 })).make_blur(7, 7);
    // sum over x, y in 0..4 of 10x + y is 4 * 60 + 4 * 6 = 264; 264 / 16 = 16
    assert_eq!(b.get(0, 0), px(16, 0, 0));
    assert_eq!(b, naive_blur(&a, 7, 7));
}

#[test]
fn blur_2x2_scenario() {
    let mut a = PixelArray::new(2, 2);
    a.set(0, 0, px(255, 0, 0));
    a.set(1, 0, px(0, 255, 0));
    a.set(0, 1, px(0, 0, 255));
    a.set(1, 1, px(255, 255, 255));
    let b = a.make_blur(3, 3);
    assert_eq!(b.get(0, 0), px(127, 127, 127));
    assert_eq!(b.get(1, 1), px(127, 127, 127));
}

#[test]
fn blur_window_one_is_identity() {
    let a = grid(4, 3, sample);
    assert_eq!(grid(4, 3, sample).make_blur(1, 1), a);
}

#[test]
fn new_grid_is_black() {
    let a = PixelArray::new(3, 2);
    assert_eq!(a.get(2, 1), Pixel::new());
    assert_eq!(Pixel::new(), px(0, 0, 0));
}

#[test]
fn error_messages() {
    assert_eq!(BmpError::BadSignature.message(), "not a bitmap");
    assert_eq!(BmpError::Truncated.message(), "unexpected end of data");
    assert_eq!(BmpError::InvalidGeometry.message(), "invalid image geometry");
}
