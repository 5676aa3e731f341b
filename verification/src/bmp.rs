//! Byte-level model of the uncompressed 24-bit bitmap format.
//!
//! A bitmap asset is a raw byte buffer.  Four header fields are read from
//! fixed byte positions: the pixel-data offset from byte 10 (a single byte),
//! the width from bytes 18-19 and the height from bytes 22-23 (little-endian
//! 16-bit values).  Pixel rows are stored bottom row first, three bytes per
//! pixel in B,G,R order, and each encoded row is followed by `width % 4`
//! filler bytes.  (The `width % 4` padding rule is the system's historical
//! formula; it pads by pixel count, not by encoded byte count.)
//!
//! No magic-number or compression validation is performed: any buffer of at
//! least 24 bytes is accepted, and malformed buffers surface as precondition
//! failures at the blit step.

use vstd::prelude::*;

verus! {

/// Byte offset of the first pixel, as stored in header byte 10.
pub open spec fn spec_pixel_data_offset(pic: Seq<u8>) -> int {
    pic[10] as int
}

/// Image width in pixels, read little-endian from header bytes 18-19.
pub open spec fn spec_width(pic: Seq<u8>) -> int {
    pic[18] + 256 * pic[19]
}

/// Image height in pixels, read little-endian from header bytes 22-23.
pub open spec fn spec_height(pic: Seq<u8>) -> int {
    pic[22] + 256 * pic[23]
}

/// Filler bytes appended to each encoded pixel row: the historical
/// `width % 4` rule.
pub open spec fn spec_row_padding(pic: Seq<u8>) -> int {
    spec_width(pic) % 4
}

/// Number of bytes from the start of one encoded row to the start of the
/// next: three bytes per pixel plus the row padding.
pub open spec fn spec_stride(pic: Seq<u8>) -> int {
    3 * spec_width(pic) + spec_row_padding(pic)
}

/// Byte index of the first byte of source pixel `(c, r)`, counting from the
/// pixel-data offset.  Column `c` runs left to right; row `r = 0` is the
/// bottom stored row.
pub open spec fn src_index(pic: Seq<u8>, c: int, r: int) -> int {
    spec_pixel_data_offset(pic) + r * spec_stride(pic) + 3 * c
}

/// Byte index of the first byte of source pixel `(c, r)` when the rows are
/// anchored at the end of the buffer: the last stored row ends at the final
/// byte.  The traversals that walk backward from the end of the buffer read
/// their pixels at these positions.
pub open spec fn end_index(pic: Seq<u8>, c: int, r: int) -> int {
    pic.len() - (spec_height(pic) - r) * spec_stride(pic) + 3 * c
}

/// The color-key test: a pixel whose three channel bytes each exceed 245 is
/// treated as background.  `i` is the index of the pixel's first (blue) byte.
pub open spec fn spec_transparent_at(pic: Seq<u8>, i: int) -> bool {
    pic[i] > 245 && pic[i + 1] > 245 && pic[i + 2] > 245
}

/// When the pixel data fills the buffer exactly, the start-anchored and the
/// end-anchored positions of every pixel coincide.
pub proof fn lemma_end_index_is_src_index(pic: Seq<u8>, c: int, r: int)
    requires
        pic.len() == spec_pixel_data_offset(pic) + spec_height(pic) * spec_stride(pic),
    ensures
        end_index(pic, c, r) == src_index(pic, c, r),
{
    assert((spec_height(pic) - r) * spec_stride(pic)
        == spec_height(pic) * spec_stride(pic) - r * spec_stride(pic)) by (nonlinear_arith);
}

/// The four header fields of a bitmap buffer, read once per draw call.
pub struct BitmapView {
    /// Byte offset of the first pixel.
    pub pixel_data_offset: u32,
    /// Image width in pixels.
    pub width: u32,
    /// Image height in pixels.
    pub height: u32,
    /// Filler bytes at the end of each encoded row.
    pub row_padding: u32,
}

impl BitmapView {
    /// The ranges that the fixed-width header reads guarantee.
    pub open spec fn wf(&self) -> bool {
        &&& self.pixel_data_offset <= 0xff
        &&& self.width <= 0xffff
        &&& self.height <= 0xffff
        &&& self.row_padding == self.width % 4
    }

    /// Reads the header fields from fixed byte positions.  Any buffer long
    /// enough to contain the header is accepted; nothing else is validated.
    pub fn from_bytes(buf: &[u8]) -> (v: BitmapView)
        requires
            buf@.len() >= 24,
        ensures
            v.pixel_data_offset == spec_pixel_data_offset(buf@),
            v.width == spec_width(buf@),
            v.height == spec_height(buf@),
            v.row_padding == spec_row_padding(buf@),
            v.wf(),
    {
        let pixel_data_offset = buf[10] as u32;
        let width = (buf[18] as u32) + (buf[19] as u32) * 256;
        let height = (buf[22] as u32) + (buf[23] as u32) * 256;
        let row_padding = width % 4;
        BitmapView { pixel_data_offset, width, height, row_padding }
    }

    /// Number of bytes from the start of one encoded row to the next.
    pub fn stride(&self) -> (s: u32)
        requires
            self.wf(),
        ensures
            s == 3 * self.width + self.row_padding,
    {
        3 * self.width + self.row_padding
    }
}

} // verus!
