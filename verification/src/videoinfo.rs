//! Video geometry as the capture graph describes it: the `VIDEOINFOHEADER` block.

use crate::bytes;
use crate::format::VideoFormat;
use vstd::prelude::*;

verus! {

/// The media-type format GUID of a block that is a `VIDEOINFOHEADER`.
pub const FORMAT_VIDEO_INFO: u128 = 0x05589f80_c356_11ce_bf01_00aa0055595a;

/// Size of a `VIDEOINFOHEADER`.
pub const VIDEO_INFO_HEADER_SIZE: usize = 88;

/// Byte offset of the bitmap width in the block.
pub const BITMAP_WIDTH_OFFSET: usize = 52;

/// Byte offset of the bitmap height in the block.
pub const BITMAP_HEIGHT_OFFSET: usize = 56;

/// Byte offset of the bits per pixel in the block.
pub const BITMAP_BIT_COUNT_OFFSET: usize = 62;

/// Byte offset of the FourCC in the block.
pub const BITMAP_COMPRESSION_OFFSET: usize = 64;

/// Byte offset of the image size in the block.
pub const BITMAP_SIZE_IMAGE_OFFSET: usize = 68;

/// The absolute value of the two's complement number whose bits are `v`. A height
/// is negative when the rows run from the top down.
pub open spec fn magnitude(v: int) -> int {
    if v < 0x8000_0000 {
        v
    } else {
        0x1_0000_0000 - v
    }
}

/// `n`, or the largest 32-bit number if `n` is larger.
pub open spec fn saturated(n: int) -> int {
    if n > u32::MAX {
        u32::MAX as int
    } else {
        n
    }
}

/// The frame size of a block: what it says or, if that is 0, what follows from
/// width, height and bits per pixel.
pub open spec fn frame_size_of(width: int, height: int, bit_count: int, size_image: int) -> int {
    if size_image != 0 {
        size_image
    } else {
        saturated(saturated(width * height) * bit_count) / 8
    }
}

/// The geometry that a block describes. There is none if the block is of another
/// type, is too short, or describes an empty picture.
pub open spec fn geometry_of_block(format_type: u128, block: Seq<u8>) -> Option<VideoFormat> {
    let width = magnitude(bytes::le32_at(block, BITMAP_WIDTH_OFFSET as int));
    let height = magnitude(bytes::le32_at(block, BITMAP_HEIGHT_OFFSET as int));
    let frame_size = frame_size_of(
        width,
        height,
        bytes::le16_at(block, BITMAP_BIT_COUNT_OFFSET as int),
        bytes::le32_at(block, BITMAP_SIZE_IMAGE_OFFSET as int),
    );
    if format_type != FORMAT_VIDEO_INFO || block.len() < VIDEO_INFO_HEADER_SIZE || width == 0
        || height == 0 || frame_size == 0 {
        None
    } else {
        Some(
            VideoFormat {
                width: width as u32,
                height: height as u32,
                stride: (frame_size / height) as u32,
                fourcc: bytes::le32_at(block, BITMAP_COMPRESSION_OFFSET as int) as u32,
                frame_size: frame_size as u32,
            },
        )
    }
}

/// The absolute value of a two's complement number.
fn magnitude32(v: u32) -> (m: u32)
    ensures
        m == magnitude(v as int),
{
    if v < 0x8000_0000 {
        v
    } else {
        0xFFFF_FFFF - v + 1
    }
}

/// Multiplies, stopping at the largest 32-bit number.
fn saturating_product(a: u32, b: u32) -> (p: u32)
    ensures
        p == saturated(a * b),
{
    proof {
        assert(a * b <= u32::MAX * u32::MAX) by (nonlinear_arith)
            requires
                a <= u32::MAX,
                b <= u32::MAX,
        ;
        assert(a * b >= 0) by (nonlinear_arith);
    }
    let p: u64 = a as u64 * b as u64;
    if p > 0xFFFF_FFFF {
        0xFFFF_FFFF
    } else {
        p as u32
    }
}

/// Parses the format block of a connected video media type: `format_type` is its
/// format GUID, `block` the bytes, or `None` if there are none.
pub fn parse_video_format(format_type: u128, block: Option<&[u8]>) -> (r: Option<VideoFormat>)
    ensures
        r == (match block {
            Some(b) => geometry_of_block(format_type, b@),
            None => None,
        }),
{
    let b: &[u8] = match block {
        Some(b) => b,
        None => {
            return None;
        },
    };
    if format_type != FORMAT_VIDEO_INFO || b.len() < VIDEO_INFO_HEADER_SIZE {
        return None;
    }
    let width: u32 = magnitude32(bytes::le32(b, BITMAP_WIDTH_OFFSET));
    let height: u32 = magnitude32(bytes::le32(b, BITMAP_HEIGHT_OFFSET));
    let bit_count: u16 = bytes::le16(b, BITMAP_BIT_COUNT_OFFSET);
    let fourcc: u32 = bytes::le32(b, BITMAP_COMPRESSION_OFFSET);
    let mut frame_size: u32 = bytes::le32(b, BITMAP_SIZE_IMAGE_OFFSET);
    if frame_size == 0 {
        frame_size = saturating_product(saturating_product(width, height), bit_count as u32) / 8;
    }
    if width == 0 || height == 0 || frame_size == 0 {
        return None;
    }
    let stride: u32 = frame_size / height;
    Some(VideoFormat { width, height, stride, fourcc, frame_size })
}

/// Every geometry that is parsed is one that can be published: none of width,
/// height and frame size is 0, and the rows fit the frame.
pub proof fn parsed_geometry_is_publishable(format_type: u128, block: Seq<u8>)
    ensures
        geometry_of_block(format_type, block) matches Some(vf) ==> {
            &&& vf.width > 0
            &&& vf.height > 0
            &&& vf.frame_size > 0
            &&& vf.stride * vf.height <= vf.frame_size < (vf.stride + 1) * vf.height
        },
{
    if let Some(vf) = geometry_of_block(format_type, block) {
        let f = vf.frame_size as int;
        let h = vf.height as int;
        let width = magnitude(bytes::le32_at(block, BITMAP_WIDTH_OFFSET as int));
        let height = magnitude(bytes::le32_at(block, BITMAP_HEIGHT_OFFSET as int));
        assert(width * height >= 0) by (nonlinear_arith)
            requires
                width >= 0,
                height >= 0,
        ;
        let bits = bytes::le16_at(block, BITMAP_BIT_COUNT_OFFSET as int);
        assert(saturated(width * height) * bits >= 0) by (nonlinear_arith)
            requires
                saturated(width * height) >= 0,
                bits >= 0,
        ;
        let frame = frame_size_of(
            width,
            height,
            bits,
            bytes::le32_at(block, BITMAP_SIZE_IMAGE_OFFSET as int),
        );
        assert(0 < frame <= u32::MAX);
        assert(0 <= frame / height <= frame) by (nonlinear_arith)
            requires
                0 < frame,
                0 < height,
        ;
        assert((f / h) * h <= f < (f / h + 1) * h) by (nonlinear_arith)
            requires
                0 < f,
                0 < h,
        ;
    }
}

/// What a block says is what is parsed: width and height without their signs, the FourCC
/// and, where it is not 0, the image size, each from its own four bytes, lowest first;
/// and where the image size is 0, the bytes that so many pixels of so many bits take.
/// There is a geometry exactly if the block is a long enough one of the right type and
/// none of width, height and frame size is 0.
pub proof fn parsed_geometry_is_what_the_block_says(format_type: u128, b: Seq<u8>)
    ensures
        ({
            let width = b[52] + 0x100 * b[53] + 0x1_0000 * b[54] + 0x100_0000 * b[55];
            let height = b[56] + 0x100 * b[57] + 0x1_0000 * b[58] + 0x100_0000 * b[59];
            let bits = b[62] + 0x100 * b[63];
            let fourcc = b[64] + 0x100 * b[65] + 0x1_0000 * b[66] + 0x100_0000 * b[67];
            let size = b[68] + 0x100 * b[69] + 0x1_0000 * b[70] + 0x100_0000 * b[71];
            let r = geometry_of_block(format_type, b);
            let w = if width <= 0x8000_0000 {
                width
            } else {
                0x1_0000_0000 - width
            };
            let h = if height <= 0x8000_0000 {
                height
            } else {
                0x1_0000_0000 - height
            };
            &&& r is Some <==> format_type == FORMAT_VIDEO_INFO && b.len() >= 88 && w > 0 && h > 0
                && (size != 0 || w * h * bits >= 8)
            &&& r matches Some(vf) ==> {
                &&& vf.width == w
                &&& vf.height == h
                &&& vf.fourcc == fourcc
                &&& size != 0 ==> vf.frame_size == size
                &&& size == 0 && w * h * bits <= u32::MAX ==> vf.frame_size == w * h * bits / 8
                &&& size == 0 && w * h * bits > u32::MAX ==> vf.frame_size == 0x1FFF_FFFF
                &&& vf.stride * vf.height <= vf.frame_size < (vf.stride + 1) * vf.height
            }
        }),
{
    if b.len() >= 88 && format_type == FORMAT_VIDEO_INFO {
        let width = bytes::le32_at(b, BITMAP_WIDTH_OFFSET as int);
        let height = bytes::le32_at(b, BITMAP_HEIGHT_OFFSET as int);
        let bits = bytes::le16_at(b, BITMAP_BIT_COUNT_OFFSET as int);
        assert(width == b[52] + 0x100 * b[53] + 0x1_0000 * b[54] + 0x100_0000 * b[55]);
        assert(height == b[56] + 0x100 * b[57] + 0x1_0000 * b[58] + 0x100_0000 * b[59]);
        let w = magnitude(width);
        let h = magnitude(height);
        parsed_geometry_is_publishable(format_type, b);
        if w > 0 && h > 0 {
            lemma_saturated_product(w, h, bits);
            assert(w * h * bits >= 0) by (nonlinear_arith)
                requires
                    w > 0,
                    h > 0,
                    bits >= 0,
            ;
        }
    }
}

/// Stopping at the largest number after each of two products or after both is the same.
proof fn lemma_saturated_product(w: int, h: int, bits: int)
    requires
        0 < w,
        0 < h,
        0 <= bits,
    ensures
        saturated(saturated(w * h) * bits) == saturated(w * h * bits),
{
    let pixels = w * h;
    if pixels > u32::MAX {
        if bits == 0 {
            assert(pixels * bits == 0 && saturated(pixels) * bits == 0) by (nonlinear_arith)
                requires
                    bits == 0,
            ;
        } else {
            assert(pixels * bits >= pixels) by (nonlinear_arith)
                requires
                    pixels > 0,
                    bits >= 1,
            ;
            let top = u32::MAX as int;
            assert(top * bits >= top) by (nonlinear_arith)
                requires
                    top > 0,
                    bits >= 1,
            ;
        }
    }
}

} // verus!
