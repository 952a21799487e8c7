//! A whole bitmap file: header, then pixel data at the header's offset.
use vstd::prelude::*;
use crate::bytes::place;
use crate::error::BmpError;
use crate::fileinfo::{FileInfo, HEADER_LEN, parse_header};
use crate::pixel::{PixelArray, decode_pixels, encode_pixels, pixel_data_len};

verus! {

/// The pixel data that the header `info` describes lies within `len` bytes.
pub open spec fn pixels_fit(info: FileInfo, len: int) -> bool {
    info.pix_offset + pixel_data_len(info.px_width as int, info.px_height as int, info.padding())
        <= len
}

/// Reads a bitmap file held in `b`: the header, checked for the `B`, `M`
/// signature before any other field is used, then the pixel grid that the
/// header's width, height, pixel offset and padding describe.
pub fn decode_image(b: &[u8]) -> (r: Result<(FileInfo, PixelArray), BmpError>)
    ensures
        b@.len() < HEADER_LEN ==> r == Err::<(FileInfo, PixelArray), BmpError>(BmpError::Truncated),
        b@.len() >= HEADER_LEN && !parse_header(b@).signed() ==> r == Err::<
            (FileInfo, PixelArray),
            BmpError,
        >(BmpError::BadSignature),
        b@.len() >= HEADER_LEN && parse_header(b@).signed() && !parse_header(b@).has_padding()
            ==> r == Err::<(FileInfo, PixelArray), BmpError>(BmpError::InvalidGeometry),
        b@.len() >= HEADER_LEN && parse_header(b@).signed() && parse_header(b@).has_padding()
            && !pixels_fit(parse_header(b@), b@.len() as int) ==> r == Err::<
            (FileInfo, PixelArray),
            BmpError,
        >(BmpError::Truncated),
        b@.len() >= HEADER_LEN && parse_header(b@).signed() && parse_header(b@).has_padding()
            && pixels_fit(parse_header(b@), b@.len() as int) ==> match r {
            Ok((info, px)) => {
                &&& info == parse_header(b@)
                &&& px.wf()
                &&& px.cols() == info.px_width
                &&& px.rows() == info.px_height
                &&& px.pixels() == decode_pixels(
                    b@,
                    info.px_width as int,
                    info.px_height as int,
                    info.pix_offset as int,
                    info.padding(),
                )
            },
            Err(_) => false,
        },
{
    let info = FileInfo::read_header(b)?;
    let padding = info.get_padding()?;
    let px = PixelArray::from_bm(
        b,
        info.px_width as usize,
        info.px_height as usize,
        info.pix_offset as usize,
        padding,
    )?;
    Ok((info, px))
}

/// The bytes of a bitmap file: the header `info`, then the grid `px` at the
/// header's pixel offset with the header's row padding, the gap between
/// them zero-filled. `InvalidGeometry` when the header gives no padding or
/// the file would not fit in memory.
pub fn encode_image(info: &FileInfo, px: &PixelArray) -> (r: Result<Vec<u8>, BmpError>)
    requires
        px.wf(),
    ensures
        !info.has_padding() ==> r == Err::<Vec<u8>, BmpError>(BmpError::InvalidGeometry),
        info.has_padding() && info.pix_offset + pixel_data_len(px.cols() as int, px.rows() as int, info.padding())
            > usize::MAX ==> r == Err::<Vec<u8>, BmpError>(BmpError::InvalidGeometry),
        info.has_padding() && info.pix_offset + pixel_data_len(px.cols() as int, px.rows() as int, info.padding())
            <= usize::MAX ==> match r {
            Ok(bytes) => bytes@ == place(
                info.header_bytes(),
                info.pix_offset as int,
                encode_pixels(px.pixels(), px.cols() as int, px.rows() as int, info.padding()),
            ),
            Err(_) => false,
        },
{
    let padding = info.get_padding()?;
    let w = px.width();
    let h = px.height();
    let ghost st = 3 * w + padding;
    let row: usize = match w.checked_mul(3) {
        Some(n) => match n.checked_add(padding) {
            Some(m) => m,
            None => {
                proof {
                    if h > 0 {
                        assert(h * st >= st) by (nonlinear_arith)
                            requires
                                h >= 1,
                                st >= 0,
                        ;
                    }
                }
                if h > 0 {
                    return Err(BmpError::InvalidGeometry);
                }
                0
            },
        },
        None => {
            proof {
                if h > 0 {
                    assert(h * st >= st) by (nonlinear_arith)
                        requires
                            h >= 1,
                            st >= 0,
                    ;
                }
            }
            if h > 0 {
                return Err(BmpError::InvalidGeometry);
            }
            0
        },
    };
    assert(h * row == h * st) by (nonlinear_arith)
        requires
            h == 0 || row == st,
    ;
    let total: usize = match h.checked_mul(row) {
        Some(n) => n,
        None => return Err(BmpError::InvalidGeometry),
    };
    if total > usize::MAX - info.pix_offset as usize {
        return Err(BmpError::InvalidGeometry);
    }
    let mut out = info.to_bytes();
    px.write_bm(&mut out, info.pix_offset as usize, padding);
    Ok(out)
}

} // verus!
