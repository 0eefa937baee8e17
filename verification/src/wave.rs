//! Audio formats as the capture side describes them: the `WAVEFORMATEX` family.

use crate::bytes;
use crate::format::{AudioFormat, SampleFormat};
use vstd::prelude::*;

verus! {

/// Format tag of integer PCM.
pub const WAVE_FORMAT_PCM_TAG: u16 = 1;

/// Format tag of IEEE float.
pub const WAVE_FORMAT_IEEE_FLOAT_TAG: u16 = 3;

/// Format tag that refers to the sub-format.
pub const WAVE_FORMAT_EXTENSIBLE_TAG: u16 = 0xFFFE;

/// Size of a `WAVEFORMATEX`, which is packed.
pub const WAVE_FORMAT_EX_SIZE: usize = 18;

/// Size of a `WAVEFORMATEXTENSIBLE`, which is packed.
pub const WAVE_FORMAT_EXTENSIBLE_SIZE: usize = 40;

/// The media-type format GUID of a block that is a `WAVEFORMATEX`.
pub const FORMAT_WAVE_FORMAT_EX: u128 = 0x05589f81_c356_11ce_bf01_00aa0055595a;

/// The sub-format GUID of IEEE float, as it lies in memory.
pub const SUBTYPE_IEEE_FLOAT_BYTES: [u8; 16] = [
    0x03, 0x00, 0x00, 0x00, 0x00, 0x00, 0x10, 0x00, 0x80, 0x00, 0x00, 0xaa, 0x00, 0x38, 0x9b, 0x71,
];

/// The sub-format GUID of integer PCM, as it lies in memory.
pub const SUBTYPE_PCM_BYTES: [u8; 16] = [
    0x01, 0x00, 0x00, 0x00, 0x00, 0x00, 0x10, 0x00, 0x80, 0x00, 0x00, 0xaa, 0x00, 0x38, 0x9b, 0x71,
];

/// What the sub-format of an extensible format says.
#[derive(Clone, Copy, Debug, PartialEq, Eq, Structural)]
pub enum SubFormat {
    Pcm,
    IeeeFloat,
    /// Neither of these; the ring does not carry it.
    Other,
}

/// A format to probe.
#[derive(Clone, Copy, Debug, PartialEq, Eq, Structural)]
pub struct Candidate {
    pub rate: u32,
    pub channels: u16,
    pub bits: u16,
    pub is_float: bool,
    pub extensible: bool,
}

/// The fields of a `WAVEFORMATEXTENSIBLE`. As a plain `WAVEFORMATEX` it has a
/// `cb_size` of 0, and the fields behind that are ignored.
#[derive(Clone, Copy, Debug, PartialEq, Eq, Structural)]
pub struct WaveFormat {
    pub tag: u16,
    pub channels: u16,
    pub rate: u32,
    pub avg_bytes_per_sec: u32,
    pub block_align: u16,
    pub bits: u16,
    pub cb_size: u16,
    pub valid_bits: u16,
    pub channel_mask: u32,
    pub sub_format: SubFormat,
}

/// Bytes of one frame of a candidate.
pub open spec fn block_align(c: Candidate) -> int {
    c.channels * (c.bits / 8)
}

/// The wave format of a candidate.
pub open spec fn wave_of(c: Candidate) -> WaveFormat {
    WaveFormat {
        tag: if c.extensible {
            WAVE_FORMAT_EXTENSIBLE_TAG
        } else if c.is_float {
            WAVE_FORMAT_IEEE_FLOAT_TAG
        } else {
            WAVE_FORMAT_PCM_TAG
        },
        channels: c.channels,
        rate: c.rate,
        avg_bytes_per_sec: (c.rate * block_align(c)) as u32,
        block_align: block_align(c) as u16,
        bits: c.bits,
        cb_size: if c.extensible {
            22
        } else {
            0
        },
        valid_bits: c.bits,
        channel_mask: if c.channels >= 2 {
            0x3
        } else {
            0x4
        },
        sub_format: if c.is_float {
            SubFormat::IeeeFloat
        } else {
            SubFormat::Pcm
        },
    }
}

/// Builds the wave format of a candidate.
pub fn make_wfx(c: Candidate) -> (w: WaveFormat)
    requires
        block_align(c) <= u16::MAX,
        c.rate * block_align(c) <= u32::MAX,
    ensures
        w == wave_of(c),
{
    proof {
        assert(block_align(c) >= 0) by (nonlinear_arith)
            requires
                block_align(c) == c.channels * (c.bits / 8),
        ;
    }
    let block: u16 = c.channels * (c.bits / 8);
    let tag: u16 = if c.extensible {
        WAVE_FORMAT_EXTENSIBLE_TAG
    } else if c.is_float {
        WAVE_FORMAT_IEEE_FLOAT_TAG
    } else {
        WAVE_FORMAT_PCM_TAG
    };
    WaveFormat {
        tag,
        channels: c.channels,
        rate: c.rate,
        avg_bytes_per_sec: c.rate * block as u32,
        block_align: block,
        bits: c.bits,
        cb_size: if c.extensible {
            22
        } else {
            0
        },
        valid_bits: c.bits,
        channel_mask: if c.channels >= 2 {
            0x3
        } else {
            0x4
        },
        sub_format: if c.is_float {
            SubFormat::IeeeFloat
        } else {
            SubFormat::Pcm
        },
    }
}

/// The sample format that a tag, a sub-format and a sample width stand for, if the
/// ring carries it: 32-bit float and 16- or 32-bit integers. The sub-format counts
/// only with the extensible tag.
pub open spec fn carried(tag: u16, sub: SubFormat, bits: u16) -> Option<SampleFormat> {
    let extensible = tag == WAVE_FORMAT_EXTENSIBLE_TAG;
    let float = tag == WAVE_FORMAT_IEEE_FLOAT_TAG || (extensible && sub == SubFormat::IeeeFloat);
    let integer = tag == WAVE_FORMAT_PCM_TAG || (extensible && sub == SubFormat::Pcm);
    if float && bits == 32 {
        Some(SampleFormat::F32Le)
    } else if integer && bits == 16 {
        Some(SampleFormat::S16Le)
    } else if integer && bits == 32 {
        Some(SampleFormat::S32Le)
    } else {
        None
    }
}

/// Decides which sample format a tag, a sub-format and a sample width stand for.
pub fn carried_format(tag: u16, sub: SubFormat, bits: u16) -> (r: Option<SampleFormat>)
    ensures
        r == carried(tag, sub, bits),
{
    let is_float: bool = if tag == WAVE_FORMAT_IEEE_FLOAT_TAG {
        true
    } else if tag == WAVE_FORMAT_PCM_TAG {
        false
    } else if tag == WAVE_FORMAT_EXTENSIBLE_TAG {
        match sub {
            SubFormat::IeeeFloat => true,
            SubFormat::Pcm => false,
            SubFormat::Other => {
                return None;
            },
        }
    } else {
        return None;
    };
    if is_float {
        if bits != 32 {
            return None;
        }
        Some(SampleFormat::F32Le)
    } else if bits == 16 {
        Some(SampleFormat::S16Le)
    } else if bits == 32 {
        Some(SampleFormat::S32Le)
    } else {
        None
    }
}

/// The wire format of a wave format, if the ring carries it.
pub open spec fn audio_format_of(w: WaveFormat) -> Option<AudioFormat> {
    match carried(w.tag, w.sub_format, w.bits) {
        Some(format) => Some(
            AudioFormat {
                sample_rate: w.rate,
                channels: w.channels as u32,
                format,
                frame_bytes: w.block_align as u32,
            },
        ),
        None => None,
    }
}

/// Turns the chosen wave format into the wire format, or `None` if the ring does
/// not carry it.
pub fn parse_audio_format(w: &WaveFormat) -> (r: Option<AudioFormat>)
    ensures
        r == audio_format_of(*w),
{
    match carried_format(w.tag, w.sub_format, w.bits) {
        Some(format) => Some(
            AudioFormat {
                sample_rate: w.rate,
                channels: w.channels as u32,
                format,
                frame_bytes: w.block_align as u32,
            },
        ),
        None => None,
    }
}

/// The sub-format with the GUID `guid`.
pub open spec fn sub_format_of(guid: Seq<u8>) -> SubFormat {
    if guid == SUBTYPE_IEEE_FLOAT_BYTES@ {
        SubFormat::IeeeFloat
    } else if guid == SUBTYPE_PCM_BYTES@ {
        SubFormat::Pcm
    } else {
        SubFormat::Other
    }
}

/// The wire format of a `WAVEFORMATEX` block, if it is one and the ring carries
/// it. A block with the extensible tag must be long enough to hold a sub-format.
pub open spec fn audio_format_of_block(format_type: u128, block: Seq<u8>) -> Option<AudioFormat> {
    let tag = bytes::le16_at(block, 0) as u16;
    let sub = sub_format_of(block.subrange(24, 40));
    if format_type != FORMAT_WAVE_FORMAT_EX || block.len() < WAVE_FORMAT_EX_SIZE || (tag
        == WAVE_FORMAT_EXTENSIBLE_TAG && block.len() < WAVE_FORMAT_EXTENSIBLE_SIZE) {
        None
    } else {
        match carried(tag, sub, bytes::le16_at(block, 14) as u16) {
            Some(format) => Some(
                AudioFormat {
                    sample_rate: bytes::le32_at(block, 4) as u32,
                    channels: bytes::le16_at(block, 2) as u32,
                    format,
                    frame_bytes: bytes::le16_at(block, 12) as u32,
                },
            ),
            None => None,
        }
    }
}

/// Parses the format block of a connected media type: `format_type` is its format
/// GUID, `block` the bytes, or `None` if there are none.
pub fn parse_wfx(format_type: u128, block: Option<&[u8]>) -> (r: Option<AudioFormat>)
    ensures
        r == (match block {
            Some(b) => audio_format_of_block(format_type, b@),
            None => None,
        }),
{
    let b: &[u8] = match block {
        Some(b) => b,
        None => {
            return None;
        },
    };
    if format_type != FORMAT_WAVE_FORMAT_EX || b.len() < WAVE_FORMAT_EX_SIZE {
        return None;
    }
    let tag: u16 = bytes::le16(b, 0);
    let channels: u16 = bytes::le16(b, 2);
    let rate: u32 = bytes::le32(b, 4);
    let block_align: u16 = bytes::le16(b, 12);
    let bits: u16 = bytes::le16(b, 14);
    let sub: SubFormat = if tag == WAVE_FORMAT_EXTENSIBLE_TAG {
        if b.len() < WAVE_FORMAT_EXTENSIBLE_SIZE {
            return None;
        }
        if bytes::bytes_match(b, 24, &SUBTYPE_IEEE_FLOAT_BYTES) {
            SubFormat::IeeeFloat
        } else if bytes::bytes_match(b, 24, &SUBTYPE_PCM_BYTES) {
            SubFormat::Pcm
        } else {
            SubFormat::Other
        }
    } else {
        SubFormat::Other
    };
    match carried_format(tag, sub, bits) {
        Some(format) => Some(
            AudioFormat {
                sample_rate: rate,
                channels: channels as u32,
                format,
                frame_bytes: block_align as u32,
            },
        ),
        None => None,
    }
}

/// 24-bit samples are carried under no tag.
pub proof fn no_24_bit_format_is_carried(tag: u16, sub: SubFormat)
    ensures
        carried(tag, sub, 24) is None,
{
}

/// An extensible format is carried only if its sub-format is integer PCM or float.
pub proof fn no_other_sub_format_is_carried(bits: u16)
    ensures
        carried(WAVE_FORMAT_EXTENSIBLE_TAG, SubFormat::Other, bits) is None,
{
}

/// A wave format built for 16- or 32-bit integers or 32-bit floats is read back
/// with the rate, the channels and the sample format it was built for, in the plain
/// form as in the extensible one, and its frame holds a sample for every channel.
pub proof fn built_formats_read_back(c: Candidate)
    requires
        c.bits == 32 || (c.bits == 16 && !c.is_float),
        block_align(c) <= u16::MAX,
    ensures
        audio_format_of(wave_of(c)) matches Some(f) && {
            &&& f.sample_rate == c.rate
            &&& f.channels == c.channels
            &&& f.format == (if c.is_float {
                SampleFormat::F32Le
            } else if c.bits == 32 {
                SampleFormat::S32Le
            } else {
                SampleFormat::S16Le
            })
            &&& f.frame_bytes == f.channels * f.format.sample_bytes()
        },
{
}

/// Which formats the ring carries: exactly 16- and 32-bit integers and 32-bit floats, by
/// a tag of their own or by the sub-format of an extensible one. Each is carried as what
/// it is.
pub proof fn carried_formats_are_these(tag: u16, sub: SubFormat, bits: u16)
    ensures
        ({
            let integer = tag == 1 || (tag == 0xFFFE && sub == SubFormat::Pcm);
            let float = tag == 3 || (tag == 0xFFFE && sub == SubFormat::IeeeFloat);
            let r = carried(tag, sub, bits);
            &&& r == Some(SampleFormat::S16Le) <==> integer && bits == 16
            &&& r == Some(SampleFormat::S32Le) <==> integer && bits == 32
            &&& r == Some(SampleFormat::F32Le) <==> float && bits == 32
            &&& r matches Some(f) ==> bits == 8 * f.sample_bytes()
        }),
{
}

/// The wire format has the rate, the channels and the frame size of the wave format, and
/// there is one exactly if its samples are carried.
pub proof fn wire_format_keeps_the_numbers(w: WaveFormat)
    ensures
        audio_format_of(w) is Some <==> carried(w.tag, w.sub_format, w.bits) is Some,
        audio_format_of(w) matches Some(f) ==> {
            &&& f.sample_rate == w.rate
            &&& f.channels == w.channels
            &&& f.frame_bytes == w.block_align
            &&& carried(w.tag, w.sub_format, w.bits) == Some(f.format)
        },
{
}

/// What a block says is what is parsed: rate, channels and frame size from their own
/// bytes, lowest first, and the sample format by tag, width and, in an extensible block,
/// the sub-format's sixteen bytes. There is a format exactly if the block is a long
/// enough one of the right type with samples that the ring carries.
pub proof fn parsed_format_is_what_the_block_says(format_type: u128, b: Seq<u8>)
    ensures
        ({
            let r = audio_format_of_block(format_type, b);
            let tag = b[0] + 0x100 * b[1];
            let bits = b[14] + 0x100 * b[15];
            let long = tag == 0xFFFE && b.len() >= 40;
            let integer = tag == 1 || (long && b.subrange(24, 40) == SUBTYPE_PCM_BYTES@);
            let float = tag == 3 || (long && b.subrange(24, 40) == SUBTYPE_IEEE_FLOAT_BYTES@);
            let block = format_type == FORMAT_WAVE_FORMAT_EX && b.len() >= 18;
            &&& r is Some <==> block && (integer && (bits == 16 || bits == 32) || float && bits
                == 32)
            &&& r matches Some(f) ==> {
                &&& f.sample_rate == b[4] + 0x100 * b[5] + 0x1_0000 * b[6] + 0x100_0000 * b[7]
                &&& f.channels == b[2] + 0x100 * b[3]
                &&& f.frame_bytes == b[12] + 0x100 * b[13]
                &&& f.format == SampleFormat::F32Le <==> float
                &&& f.format == SampleFormat::S16Le <==> bits == 16
            }
        }),
{
    assert(SUBTYPE_PCM_BYTES@[0] == 1 && SUBTYPE_IEEE_FLOAT_BYTES@[0] == 3);
    assert(SUBTYPE_PCM_BYTES@ != SUBTYPE_IEEE_FLOAT_BYTES@);
}

/// What a candidate asks for is what its wave format says, and the numbers in it agree
/// with each other: a frame is a sample for every channel, a second has `rate` frames,
/// and only the extensible form says that more fields follow.
pub proof fn built_formats_are_consistent(c: Candidate)
    requires
        block_align(c) <= u16::MAX,
        c.rate * block_align(c) <= u32::MAX,
    ensures
        ({
            let w = wave_of(c);
            &&& w.channels == c.channels
            &&& w.rate == c.rate
            &&& w.bits == c.bits
            &&& w.valid_bits == c.bits
            &&& w.block_align == c.channels * (c.bits / 8)
            &&& w.avg_bytes_per_sec == w.rate * w.block_align
            &&& w.tag == 0xFFFE <==> c.extensible
            &&& w.tag == 3 <==> !c.extensible && c.is_float
            &&& w.tag == 1 <==> !c.extensible && !c.is_float
            &&& w.cb_size == 22 <==> c.extensible
            &&& w.cb_size == 0 <==> !c.extensible
            &&& w.sub_format == SubFormat::IeeeFloat <==> c.is_float
            &&& w.sub_format == SubFormat::Pcm <==> !c.is_float
            &&& w.channel_mask == 3 <==> c.channels >= 2
            &&& w.channel_mask == 4 <==> c.channels < 2
        }),
{
    let block = block_align(c);
    assert(block >= 0) by (nonlinear_arith)
        requires
            block == c.channels * (c.bits / 8),
    ;
    assert(c.rate * block >= 0) by (nonlinear_arith)
        requires
            block >= 0,
    ;
}

} // verus!
