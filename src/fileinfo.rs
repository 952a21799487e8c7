//! The 54-byte bitmap file header and DIB header.
use vstd::prelude::*;
use crate::bytes::{
    le_u16, le_u32, u16_bytes, u32_bytes, place, lemma_u16_round_trip, lemma_u32_round_trip,
    read_u16_at, read_u32_at, u16_to_le, u32_to_le, push_all, put_bytes,
};
use crate::error::BmpError;

verus! {

/// Number of bytes in the file header and DIB header together.
pub const HEADER_LEN: usize = 54;

/// The fields of the bitmap file header followed by those of the DIB
/// header, in file order. Multi-byte fields are stored little-endian.
#[derive(Clone, Copy, Debug, PartialEq, Eq, Structural)]
pub struct FileInfo {
    pub id1: u8,
    pub id2: u8,
    pub size_file: u32,
    pub unused1: u16,
    pub unused2: u16,
    pub pix_offset: u32,
    pub dib_size: u32,
    pub px_width: u32,
    pub px_height: u32,
    pub cplane: u16,
    pub bit_px: u16,
    pub px_compress: u32,
    pub raw_size: u32,
    pub dpi_h: u32,
    pub dpi_v: u32,
    pub colors: u32,
    pub imp_colors: u32,
}

/// The header stored in the first 54 bytes of `b`.
pub open spec fn parse_header(b: Seq<u8>) -> FileInfo {
    FileInfo {
        id1: b[0],
        id2: b[1],
        size_file: le_u32(b, 2) as u32,
        unused1: le_u16(b, 6) as u16,
        unused2: le_u16(b, 8) as u16,
        pix_offset: le_u32(b, 10) as u32,
        dib_size: le_u32(b, 14) as u32,
        px_width: le_u32(b, 18) as u32,
        px_height: le_u32(b, 22) as u32,
        cplane: le_u16(b, 26) as u16,
        bit_px: le_u16(b, 28) as u16,
        px_compress: le_u32(b, 30) as u32,
        raw_size: le_u32(b, 34) as u32,
        dpi_h: le_u32(b, 38) as u32,
        dpi_v: le_u32(b, 42) as u32,
        colors: le_u32(b, 46) as u32,
        imp_colors: le_u32(b, 50) as u32,
    }
}

impl FileInfo {
    /// The 54 bytes that store this header.
    pub open spec fn header_bytes(self) -> Seq<u8> {
        seq![self.id1, self.id2] + u32_bytes(self.size_file) + u16_bytes(self.unused1)
            + u16_bytes(self.unused2) + u32_bytes(self.pix_offset) + u32_bytes(self.dib_size)
            + u32_bytes(self.px_width) + u32_bytes(self.px_height) + u16_bytes(self.cplane)
            + u16_bytes(self.bit_px) + u32_bytes(self.px_compress) + u32_bytes(self.raw_size)
            + u32_bytes(self.dpi_h) + u32_bytes(self.dpi_v) + u32_bytes(self.colors)
            + u32_bytes(self.imp_colors)
    }

    /// The header's signature is `B`, `M`.
    pub open spec fn signed(self) -> bool {
        self.id1 == 0x42 && self.id2 == 0x4d
    }

    /// The per-row padding is defined: non-zero height and a row stride of
    /// at least three bytes per pixel.
    pub open spec fn has_padding(self) -> bool {
        self.px_height > 0 && self.raw_size / self.px_height >= self.px_width * 3
    }

    /// Bytes of padding after each row of pixels.
    pub open spec fn padding(self) -> int {
        self.raw_size / self.px_height - self.px_width * 3
    }

    /// A header with every field zero.
    pub fn new() -> (r: FileInfo)
        ensures
            r == (FileInfo {
                id1: 0,
                id2: 0,
                size_file: 0,
                unused1: 0,
                unused2: 0,
                pix_offset: 0,
                dib_size: 0,
                px_width: 0,
                px_height: 0,
                cplane: 0,
                bit_px: 0,
                px_compress: 0,
                raw_size: 0,
                dpi_h: 0,
                dpi_v: 0,
                colors: 0,
                imp_colors: 0,
            }),
    {
        FileInfo {
            id1: 0,
            id2: 0,
            size_file: 0,
            unused1: 0,
            unused2: 0,
            pix_offset: 0,
            dib_size: 0,
            px_width: 0,
            px_height: 0,
            cplane: 0,
            bit_px: 0,
            px_compress: 0,
            raw_size: 0,
            dpi_h: 0,
            dpi_v: 0,
            colors: 0,
            imp_colors: 0,
        }
    }

    /// Bytes of padding after each row: `raw_size / height - width * 3`.
    /// Zero height, or a stride shorter than the row's pixels, is an
    /// `InvalidGeometry` error.
    pub fn get_padding(&self) -> (r: Result<usize, BmpError>)
        ensures
            self.has_padding() ==> r == Ok::<usize, BmpError>(self.padding() as usize),
            !self.has_padding() ==> r == Err::<usize, BmpError>(BmpError::InvalidGeometry),
    {
        if self.px_height == 0 {
            return Err(BmpError::InvalidGeometry);
        }
        let stride: u64 = (self.raw_size / self.px_height) as u64;
        let row: u64 = self.px_width as u64 * 3;
        if stride < row {
            Err(BmpError::InvalidGeometry)
        } else {
            Ok((stride - row) as usize)
        }
    }

    /// Decodes the header from the first 54 bytes of `b`, without checking
    /// the signature. Fewer than 54 bytes is a `Truncated` error.
    pub fn from_file(b: &[u8]) -> (r: Result<FileInfo, BmpError>)
        ensures
            b@.len() >= HEADER_LEN ==> r == Ok::<FileInfo, BmpError>(parse_header(b@)),
            b@.len() < HEADER_LEN ==> r == Err::<FileInfo, BmpError>(BmpError::Truncated),
    {
        if b.len() < HEADER_LEN {
            return Err(BmpError::Truncated);
        }
        Ok(FileInfo {
            id1: b[0],
            id2: b[1],
            size_file: read_u32_at(b, 2),
            unused1: read_u16_at(b, 6),
            unused2: read_u16_at(b, 8),
            pix_offset: read_u32_at(b, 10),
            dib_size: read_u32_at(b, 14),
            px_width: read_u32_at(b, 18),
            px_height: read_u32_at(b, 22),
            cplane: read_u16_at(b, 26),
            bit_px: read_u16_at(b, 28),
            px_compress: read_u32_at(b, 30),
            raw_size: read_u32_at(b, 34),
            dpi_h: read_u32_at(b, 38),
            dpi_v: read_u32_at(b, 42),
            colors: read_u32_at(b, 46),
            imp_colors: read_u32_at(b, 50),
        })
    }

    /// Decodes the header from the start of `b` and checks its signature:
    /// `Truncated` for fewer than 54 bytes, else `BadSignature` unless the
    /// first two bytes are `B`, `M`.
    pub fn read_header(b: &[u8]) -> (r: Result<FileInfo, BmpError>)
        ensures
            b@.len() < HEADER_LEN ==> r == Err::<FileInfo, BmpError>(BmpError::Truncated),
            b@.len() >= HEADER_LEN && !parse_header(b@).signed() ==> r == Err::<FileInfo, BmpError>(
                BmpError::BadSignature,
            ),
            b@.len() >= HEADER_LEN && parse_header(b@).signed() ==> r == Ok::<FileInfo, BmpError>(
                parse_header(b@),
            ),
    {
        let info = FileInfo::from_file(b)?;
        if info.id1 == 0x42 && info.id2 == 0x4d {
            Ok(info)
        } else {
            Err(BmpError::BadSignature)
        }
    }

    /// The 54 bytes that store this header.
    pub fn to_bytes(&self) -> (r: Vec<u8>)
        ensures
            r@ == self.header_bytes(),
    {
        let mut out: Vec<u8> = Vec::new();
        out.push(self.id1);
        out.push(self.id2);
        push_all(&mut out, &u32_to_le(self.size_file));
        push_all(&mut out, &u16_to_le(self.unused1));
        push_all(&mut out, &u16_to_le(self.unused2));
        push_all(&mut out, &u32_to_le(self.pix_offset));
        push_all(&mut out, &u32_to_le(self.dib_size));
        push_all(&mut out, &u32_to_le(self.px_width));
        push_all(&mut out, &u32_to_le(self.px_height));
        push_all(&mut out, &u16_to_le(self.cplane));
        push_all(&mut out, &u16_to_le(self.bit_px));
        push_all(&mut out, &u32_to_le(self.px_compress));
        push_all(&mut out, &u32_to_le(self.raw_size));
        push_all(&mut out, &u32_to_le(self.dpi_h));
        push_all(&mut out, &u32_to_le(self.dpi_v));
        push_all(&mut out, &u32_to_le(self.colors));
        push_all(&mut out, &u32_to_le(self.imp_colors));
        assert(out@ =~= self.header_bytes());
        out
    }

    /// Writes the header over the first 54 bytes of `out`, growing it if it
    /// is shorter.
    pub fn write_file(&self, out: &mut Vec<u8>)
        ensures
            final(out)@ == place(old(out)@, 0, self.header_bytes()),
    {
        let bytes = self.to_bytes();
        put_bytes(out, 0, &bytes);
    }
}

/// Decoding the bytes that encode a header gives back that header, field
/// for field.
pub proof fn lemma_header_round_trip(h: FileInfo)
    ensures
        parse_header(h.header_bytes()) == h,
{
    let b = h.header_bytes();
    assert(b.subrange(2, 6) =~= u32_bytes(h.size_file));
    assert(b.subrange(6, 8) =~= u16_bytes(h.unused1));
    assert(b.subrange(8, 10) =~= u16_bytes(h.unused2));
    assert(b.subrange(10, 14) =~= u32_bytes(h.pix_offset));
    assert(b.subrange(14, 18) =~= u32_bytes(h.dib_size));
    assert(b.subrange(18, 22) =~= u32_bytes(h.px_width));
    assert(b.subrange(22, 26) =~= u32_bytes(h.px_height));
    assert(b.subrange(26, 28) =~= u16_bytes(h.cplane));
    assert(b.subrange(28, 30) =~= u16_bytes(h.bit_px));
    assert(b.subrange(30, 34) =~= u32_bytes(h.px_compress));
    assert(b.subrange(34, 38) =~= u32_bytes(h.raw_size));
    assert(b.subrange(38, 42) =~= u32_bytes(h.dpi_h));
    assert(b.subrange(42, 46) =~= u32_bytes(h.dpi_v));
    assert(b.subrange(46, 50) =~= u32_bytes(h.colors));
    assert(b.subrange(50, 54) =~= u32_bytes(h.imp_colors));
    lemma_u32_round_trip(h.size_file);
    lemma_u16_round_trip(h.unused1);
    lemma_u16_round_trip(h.unused2);
    lemma_u32_round_trip(h.pix_offset);
    lemma_u32_round_trip(h.dib_size);
    lemma_u32_round_trip(h.px_width);
    lemma_u32_round_trip(h.px_height);
    lemma_u16_round_trip(h.cplane);
    lemma_u16_round_trip(h.bit_px);
    lemma_u32_round_trip(h.px_compress);
    lemma_u32_round_trip(h.raw_size);
    lemma_u32_round_trip(h.dpi_h);
    lemma_u32_round_trip(h.dpi_v);
    lemma_u32_round_trip(h.colors);
    lemma_u32_round_trip(h.imp_colors);
}

} // verus!
