//! Mappings of a region: the cells of its header, those behind it, and the one record
//! of what is done to them.

use crate::layout::{
    CAPACITY_OFFSET, CHANNELS_OFFSET, FORMAT_OFFSET, FOURCC_OFFSET, FRAME_BYTES_OFFSET,
    FRAME_SEQ_OFFSET, FRAME_SIZE_OFFSET, HEADER_SIZE_OFFSET, HEAD_OFFSET, HEIGHT_OFFSET,
    MAGIC_OFFSET, SAMPLE_RATE_OFFSET, SEQ_OFFSET, SHM_HEADER_SIZE, SLOT_COUNT_OFFSET,
    STRIDE_OFFSET, TAIL_OFFSET, VERSION_OFFSET, VIDEO_HEADER_SIZE, WIDTH_OFFSET,
};
use crate::memory::{ByteCells, Cell32, Cell64, Region, Trace};
use crate::trace::Access;
use vstd::prelude::*;

verus! {

/// The cells of the audio header.
pub struct ShmHeader<'a> {
    /// [`crate::layout::SHM_MAGIC`]; published last, validated first.
    pub magic: Cell64<'a>,
    /// [`crate::layout::SHM_VERSION`].
    pub version: Cell32<'a>,
    /// [`SHM_HEADER_SIZE`]; guards against a skewed layout.
    pub header_size: Cell32<'a>,
    /// Size of the ring in bytes, a power of two.
    pub capacity: Cell64<'a>,
    /// Frames per second, 0 while the format is unset.
    pub sample_rate: Cell32<'a>,
    pub channels: Cell32<'a>,
    /// A [`crate::format::SampleFormat`], by its number.
    pub format: Cell32<'a>,
    /// Bytes per frame; 0 until the format is published.
    pub frame_bytes: Cell32<'a>,
    /// Bytes ever written.
    pub tail: Cell64<'a>,
    /// Sequence counter: even at rest, odd while the producer writes.
    pub seq: Cell64<'a>,
    /// Bytes ever consumed.
    pub head: Cell64<'a>,
}

impl<'a> ShmHeader<'a> {
    /// Every cell is the one at its field's offset.
    pub open spec fn wf(&self) -> bool {
        &&& self.magic.at() == MAGIC_OFFSET
        &&& self.version.at() == VERSION_OFFSET
        &&& self.header_size.at() == HEADER_SIZE_OFFSET
        &&& self.capacity.at() == CAPACITY_OFFSET
        &&& self.sample_rate.at() == SAMPLE_RATE_OFFSET
        &&& self.channels.at() == CHANNELS_OFFSET
        &&& self.format.at() == FORMAT_OFFSET
        &&& self.frame_bytes.at() == FRAME_BYTES_OFFSET
        &&& self.tail.at() == TAIL_OFFSET
        &&& self.seq.at() == SEQ_OFFSET
        &&& self.head.at() == HEAD_OFFSET
    }

    /// Every cell is the one that `region` has there.
    pub open spec fn lies_in(&self, region: Region) -> bool {
        &&& self.magic.lies_in(region)
        &&& self.version.lies_in(region)
        &&& self.header_size.lies_in(region)
        &&& self.capacity.lies_in(region)
        &&& self.sample_rate.lies_in(region)
        &&& self.channels.lies_in(region)
        &&& self.format.lies_in(region)
        &&& self.frame_bytes.lies_in(region)
        &&& self.tail.lies_in(region)
        &&& self.seq.lies_in(region)
        &&& self.head.lies_in(region)
    }
}

/// The cells of an audio region: those of the header at the offsets of its fields, and
/// the payload behind it.
pub open spec fn audio_region(header: ShmHeader, payload: ByteCells) -> Region {
    Map::new(
        |at: int| true,
        |at: int|
            if at == MAGIC_OFFSET {
                header.magic.id()
            } else if at == VERSION_OFFSET {
                header.version.id()
            } else if at == HEADER_SIZE_OFFSET {
                header.header_size.id()
            } else if at == CAPACITY_OFFSET {
                header.capacity.id()
            } else if at == SAMPLE_RATE_OFFSET {
                header.sample_rate.id()
            } else if at == CHANNELS_OFFSET {
                header.channels.id()
            } else if at == FORMAT_OFFSET {
                header.format.id()
            } else if at == FRAME_BYTES_OFFSET {
                header.frame_bytes.id()
            } else if at == TAIL_OFFSET {
                header.tail.id()
            } else if at == SEQ_OFFSET {
                header.seq.id()
            } else if at == HEAD_OFFSET {
                header.head.id()
            } else {
                payload.id(at - SHM_HEADER_SIZE)
            },
    )
}

/// A mapping of an audio region: its header and the bytes behind it, and the
/// record of what was done to them through this mapping.
pub struct AudioMapping<'a> {
    pub(crate) header: ShmHeader<'a>,
    pub(crate) payload: ByteCells<'a>,
    pub(crate) trace: Trace,
}

impl<'a> AudioMapping<'a> {
    /// The cells are where the layout says, and those of the region that the record is
    /// about.
    pub open(crate) spec fn wf(&self) -> bool {
        &&& self.header.wf()
        &&& self.header.lies_in(self.trace.region())
        &&& self.payload.at() == SHM_HEADER_SIZE
        &&& self.payload.lies_in(self.trace.region())
    }

    /// The cells of the mapping.
    pub open(crate) spec fn region(&self) -> Region {
        self.trace.region()
    }

    /// Bytes behind the header.
    pub open(crate) spec fn payload_len(&self) -> nat {
        self.payload.count()
    }

    /// The accesses made so far.
    pub open(crate) spec fn trace(&self) -> Seq<Access> {
        self.trace@
    }

    /// A mapping that nothing has been done to yet.
    pub fn new(header: ShmHeader<'a>, payload: ByteCells<'a>) -> (m: Self)
        requires
            header.wf(),
            payload.at() == SHM_HEADER_SIZE,
        ensures
            m.wf(),
            m.payload_len() == payload.count(),
            m.trace() == Seq::<Access>::empty(),
            m.region() == audio_region(header, payload),
    {
        AudioMapping {
            header,
            payload,
            trace: Trace::new(Ghost(audio_region(header, payload))),
        }
    }
}

/// The cells of the video header.
pub struct ShmVideoHeader<'a> {
    /// [`crate::layout::VIDEO_MAGIC`]; published last, validated first.
    pub magic: Cell64<'a>,
    /// [`crate::layout::VIDEO_VERSION`].
    pub version: Cell32<'a>,
    /// [`VIDEO_HEADER_SIZE`]; guards against a skewed layout.
    pub header_size: Cell32<'a>,
    pub width: Cell32<'a>,
    pub height: Cell32<'a>,
    pub stride: Cell32<'a>,
    pub fourcc: Cell32<'a>,
    /// Bytes per frame; 0 until the geometry is published.
    pub frame_size: Cell32<'a>,
    /// Number of frame slots.
    pub slot_count: Cell32<'a>,
    /// Frames completed so far; frame `f` goes to slot `f % slot_count`.
    pub frame_seq: Cell64<'a>,
}

impl<'a> ShmVideoHeader<'a> {
    /// Every cell is the one at its field's offset.
    pub open spec fn wf(&self) -> bool {
        &&& self.magic.at() == MAGIC_OFFSET
        &&& self.version.at() == VERSION_OFFSET
        &&& self.header_size.at() == HEADER_SIZE_OFFSET
        &&& self.width.at() == WIDTH_OFFSET
        &&& self.height.at() == HEIGHT_OFFSET
        &&& self.stride.at() == STRIDE_OFFSET
        &&& self.fourcc.at() == FOURCC_OFFSET
        &&& self.frame_size.at() == FRAME_SIZE_OFFSET
        &&& self.slot_count.at() == SLOT_COUNT_OFFSET
        &&& self.frame_seq.at() == FRAME_SEQ_OFFSET
    }

    /// Every cell is the one that `region` has there.
    pub open spec fn lies_in(&self, region: Region) -> bool {
        &&& self.magic.lies_in(region)
        &&& self.version.lies_in(region)
        &&& self.header_size.lies_in(region)
        &&& self.width.lies_in(region)
        &&& self.height.lies_in(region)
        &&& self.stride.lies_in(region)
        &&& self.fourcc.lies_in(region)
        &&& self.frame_size.lies_in(region)
        &&& self.slot_count.lies_in(region)
        &&& self.frame_seq.lies_in(region)
    }
}

/// The cells of a video region: those of the header at the offsets of its fields, and
/// the payload behind it.
pub open spec fn video_cells(header: ShmVideoHeader, payload: ByteCells) -> Region {
    Map::new(
        |at: int| true,
        |at: int|
            if at == MAGIC_OFFSET {
                header.magic.id()
            } else if at == VERSION_OFFSET {
                header.version.id()
            } else if at == HEADER_SIZE_OFFSET {
                header.header_size.id()
            } else if at == WIDTH_OFFSET {
                header.width.id()
            } else if at == HEIGHT_OFFSET {
                header.height.id()
            } else if at == STRIDE_OFFSET {
                header.stride.id()
            } else if at == FOURCC_OFFSET {
                header.fourcc.id()
            } else if at == FRAME_SIZE_OFFSET {
                header.frame_size.id()
            } else if at == SLOT_COUNT_OFFSET {
                header.slot_count.id()
            } else if at == FRAME_SEQ_OFFSET {
                header.frame_seq.id()
            } else {
                payload.id(at - VIDEO_HEADER_SIZE)
            },
    )
}

/// A mapping of a video region: its header and the bytes behind it, and the record
/// of what was done to them through this mapping.
pub struct VideoMapping<'a> {
    pub(crate) header: ShmVideoHeader<'a>,
    pub(crate) payload: ByteCells<'a>,
    pub(crate) trace: Trace,
}

impl<'a> VideoMapping<'a> {
    /// The cells are where the layout says, and those of the region that the record is
    /// about.
    pub open(crate) spec fn wf(&self) -> bool {
        &&& self.header.wf()
        &&& self.header.lies_in(self.trace.region())
        &&& self.payload.at() == VIDEO_HEADER_SIZE
        &&& self.payload.lies_in(self.trace.region())
    }

    /// The cells of the mapping.
    pub open(crate) spec fn region(&self) -> Region {
        self.trace.region()
    }

    /// Bytes behind the header.
    pub open(crate) spec fn payload_len(&self) -> nat {
        self.payload.count()
    }

    /// The accesses made so far.
    pub open(crate) spec fn trace(&self) -> Seq<Access> {
        self.trace@
    }

    /// A mapping that nothing has been done to yet.
    pub fn new(header: ShmVideoHeader<'a>, payload: ByteCells<'a>) -> (m: Self)
        requires
            header.wf(),
            payload.at() == VIDEO_HEADER_SIZE,
        ensures
            m.wf(),
            m.payload_len() == payload.count(),
            m.trace() == Seq::<Access>::empty(),
            m.region() == video_cells(header, payload),
    {
        VideoMapping {
            header,
            payload,
            trace: Trace::new(Ghost(video_cells(header, payload))),
        }
    }
}

/// A mapping that could not be attached to, and what is wrong with it.
pub struct Unattached<M> {
    pub shm: M,
    pub fault: &'static str,
}

} // verus!
