//! The frozen byte layout of the two headers.
//!
//! Both sides of the bridge agree on these numbers and nothing else. They hold on
//! both operating systems; a change to any of them needs a new [`SHM_VERSION`] or
//! [`VIDEO_VERSION`].

use vstd::prelude::*;

verus! {

/// Magic value ("LALAHSM1"), published last by the side that initializes.
pub const SHM_MAGIC: u64 = 0x4C41_4C41_4853_4D31;

/// Version of the audio layout.
pub const SHM_VERSION: u32 = 1;

/// Size of the audio header: three cache lines. The payload follows it.
pub const SHM_HEADER_SIZE: usize = 192;

/// Alignment of the audio header.
pub const SHM_HEADER_ALIGN: usize = 64;

/// Width of a cache line.
pub const CACHE_LINE: usize = 64;

// Line 0: read-mostly configuration.

pub const MAGIC_OFFSET: usize = 0;

pub const VERSION_OFFSET: usize = 8;

pub const HEADER_SIZE_OFFSET: usize = 12;

pub const CAPACITY_OFFSET: usize = 16;

pub const SAMPLE_RATE_OFFSET: usize = 24;

pub const CHANNELS_OFFSET: usize = 28;

pub const FORMAT_OFFSET: usize = 32;

pub const FRAME_BYTES_OFFSET: usize = 36;

// Line 1: written by the producer.

pub const TAIL_OFFSET: usize = 64;

pub const SEQ_OFFSET: usize = 72;

// Line 2: written by the consumer.

pub const HEAD_OFFSET: usize = 128;

/// When video is enabled, audio has the first 16 MiB of the mapping and video
/// everything after it.
pub const AUDIO_REGION_BYTES: usize = 16 * 1024 * 1024;

/// Magic value of the video header ("LALAHVD1").
pub const VIDEO_MAGIC: u64 = 0x4C41_4C41_4856_4431;

/// Version of the video layout.
pub const VIDEO_VERSION: u32 = 1;

/// Fewest frame slots of a tear-safe ring: the writer's, the reader's, and one
/// between them.
pub const VIDEO_MIN_SLOTS: u32 = 3;

/// Size of the video header: two cache lines. The frame slots follow it.
pub const VIDEO_HEADER_SIZE: usize = 128;

/// Alignment of the video header.
pub const VIDEO_HEADER_ALIGN: usize = 64;

// The video header begins as the audio header does: magic, version, size.

pub const WIDTH_OFFSET: usize = 16;

pub const HEIGHT_OFFSET: usize = 20;

pub const STRIDE_OFFSET: usize = 24;

pub const FOURCC_OFFSET: usize = 28;

pub const FRAME_SIZE_OFFSET: usize = 32;

pub const SLOT_COUNT_OFFSET: usize = 36;

// Line 1: written by the producer.

pub const FRAME_SEQ_OFFSET: usize = 64;

/// A field of a header: where it starts and how many bytes it takes.
pub struct FieldSpan {
    pub start: int,
    pub width: int,
}

/// The fields of the audio header, in order.
pub open spec fn audio_fields() -> Seq<FieldSpan> {
    seq![
        FieldSpan { start: MAGIC_OFFSET as int, width: 8 },
        FieldSpan { start: VERSION_OFFSET as int, width: 4 },
        FieldSpan { start: HEADER_SIZE_OFFSET as int, width: 4 },
        FieldSpan { start: CAPACITY_OFFSET as int, width: 8 },
        FieldSpan { start: SAMPLE_RATE_OFFSET as int, width: 4 },
        FieldSpan { start: CHANNELS_OFFSET as int, width: 4 },
        FieldSpan { start: FORMAT_OFFSET as int, width: 4 },
        FieldSpan { start: FRAME_BYTES_OFFSET as int, width: 4 },
        FieldSpan { start: TAIL_OFFSET as int, width: 8 },
        FieldSpan { start: SEQ_OFFSET as int, width: 8 },
        FieldSpan { start: HEAD_OFFSET as int, width: 8 },
    ]
}

/// The fields of the video header, in order.
pub open spec fn video_fields() -> Seq<FieldSpan> {
    seq![
        FieldSpan { start: MAGIC_OFFSET as int, width: 8 },
        FieldSpan { start: VERSION_OFFSET as int, width: 4 },
        FieldSpan { start: HEADER_SIZE_OFFSET as int, width: 4 },
        FieldSpan { start: WIDTH_OFFSET as int, width: 4 },
        FieldSpan { start: HEIGHT_OFFSET as int, width: 4 },
        FieldSpan { start: STRIDE_OFFSET as int, width: 4 },
        FieldSpan { start: FOURCC_OFFSET as int, width: 4 },
        FieldSpan { start: FRAME_SIZE_OFFSET as int, width: 4 },
        FieldSpan { start: SLOT_COUNT_OFFSET as int, width: 4 },
        FieldSpan { start: FRAME_SEQ_OFFSET as int, width: 8 },
    ]
}

/// Every field is naturally aligned, lies inside the header, and ends before the
/// next one starts.
pub open spec fn well_laid_out(fields: Seq<FieldSpan>, header_size: int) -> bool {
    &&& forall|i: int|
        0 <= i < fields.len() ==> {
            &&& (#[trigger] fields[i]).width == 4 && fields[i].start % 4 == 0 || fields[i].width
                == 8 && fields[i].start % 8 == 0
            &&& 0 <= fields[i].start
            &&& fields[i].start + fields[i].width <= header_size
        }
    &&& forall|i: int, j: int|
        0 <= i < j < fields.len() ==> (#[trigger] fields[i]).start + fields[i].width <= (
        #[trigger] fields[j]).start
}

/// The cache line that the byte at `at` belongs to.
pub open spec fn line_of(at: int) -> int {
    at / CACHE_LINE as int
}

/// Both headers are well laid out and a whole number of cache lines long, so a
/// payload behind one starts on a line of its own.
pub proof fn headers_are_well_laid_out()
    ensures
        well_laid_out(audio_fields(), SHM_HEADER_SIZE as int),
        well_laid_out(video_fields(), VIDEO_HEADER_SIZE as int),
        SHM_HEADER_SIZE as int % SHM_HEADER_ALIGN as int == 0,
        VIDEO_HEADER_SIZE as int % VIDEO_HEADER_ALIGN as int == 0,
{
}

/// What the producer writes while it streams (`tail`, `seq`), what the consumer
/// writes (`head`), the configuration and the payload lie on different cache
/// lines: neither side's writes evict a line that the other one polls for its own
/// sake.
pub proof fn no_false_sharing()
    ensures
        line_of(TAIL_OFFSET as int) == line_of(SEQ_OFFSET as int),
        line_of(TAIL_OFFSET as int) != line_of(HEAD_OFFSET as int),
        forall|i: int|
            0 <= i < 8 ==> line_of((#[trigger] audio_fields()[i]).start) != line_of(
                TAIL_OFFSET as int,
            ) && line_of(audio_fields()[i].start) != line_of(HEAD_OFFSET as int),
        line_of(SHM_HEADER_SIZE as int) > line_of(HEAD_OFFSET as int),
        forall|i: int|
            0 <= i < 9 ==> line_of((#[trigger] video_fields()[i]).start) != line_of(
                FRAME_SEQ_OFFSET as int,
            ),
        line_of(VIDEO_HEADER_SIZE as int) > line_of(FRAME_SEQ_OFFSET as int),
{
}

} // verus!
