//! The formats that travel through the headers.

use vstd::prelude::*;

verus! {

/// PCM sample format. All of them are little-endian; no byte is ever swapped.
#[derive(Clone, Copy, Debug, PartialEq, Eq, Structural)]
pub enum SampleFormat {
    S16Le,
    S32Le,
    F32Le,
}

impl SampleFormat {
    /// The number that stands for the format in the header.
    pub open spec fn code(self) -> u32 {
        match self {
            SampleFormat::S16Le => 0,
            SampleFormat::S32Le => 1,
            SampleFormat::F32Le => 2,
        }
    }

    /// The format that `v` stands for.
    pub open spec fn of_code(v: u32) -> Option<SampleFormat> {
        if v == 0 {
            Some(SampleFormat::S16Le)
        } else if v == 1 {
            Some(SampleFormat::S32Le)
        } else if v == 2 {
            Some(SampleFormat::F32Le)
        } else {
            None
        }
    }

    /// Bytes that one sample of the format takes.
    pub open spec fn sample_bytes(self) -> u32 {
        match self {
            SampleFormat::S16Le => 2,
            SampleFormat::S32Le => 4,
            SampleFormat::F32Le => 4,
        }
    }

    /// The format that a number in the header stands for, if any.
    pub fn from_u32(v: u32) -> (r: Option<Self>)
        ensures
            r == SampleFormat::of_code(v),
    {
        match v {
            0 => Some(SampleFormat::S16Le),
            1 => Some(SampleFormat::S32Le),
            2 => Some(SampleFormat::F32Le),
            _ => None,
        }
    }

    /// The number that stands for the format in the header.
    pub fn to_u32(self) -> (v: u32)
        ensures
            v == self.code(),
    {
        match self {
            SampleFormat::S16Le => 0,
            SampleFormat::S32Le => 1,
            SampleFormat::F32Le => 2,
        }
    }

    /// Bytes that one sample of the format takes.
    pub fn bytes_per_sample(self) -> (n: u32)
        ensures
            n == self.sample_bytes(),
    {
        match self {
            SampleFormat::S16Le => 2,
            SampleFormat::S32Le => 4,
            SampleFormat::F32Le => 4,
        }
    }
}

/// A sample format survives the trip through the header, and no other number is
/// taken for one.
pub proof fn sample_format_round_trips(f: SampleFormat, v: u32)
    ensures
        SampleFormat::of_code(f.code()) == Some(f),
        SampleFormat::of_code(v) matches Some(g) ==> g.code() == v,
        SampleFormat::of_code(v) is None <==> v > 2,
{
}

/// The negotiated audio format, as the header carries it.
#[derive(Clone, Copy, Debug, PartialEq, Eq, Structural)]
pub struct AudioFormat {
    pub sample_rate: u32,
    pub channels: u32,
    pub format: SampleFormat,
    /// Bytes of one frame: a sample for every channel. The unit of every ring
    /// read and write.
    pub frame_bytes: u32,
}

impl AudioFormat {
    /// What the four format fields of a header say. A frame size of 0 means that
    /// no format has been published.
    pub open spec fn of_fields(
        frame_bytes: u32,
        code: u32,
        sample_rate: u32,
        channels: u32,
    ) -> Option<AudioFormat> {
        match SampleFormat::of_code(code) {
            Some(format) if frame_bytes != 0 => Some(
                AudioFormat { sample_rate, channels, format, frame_bytes },
            ),
            _ => None,
        }
    }
}

/// The published video geometry.
#[derive(Clone, Copy, Debug, PartialEq, Eq, Structural)]
pub struct VideoFormat {
    pub width: u32,
    pub height: u32,
    /// Bytes per row, 0 if the producer could not determine it.
    pub stride: u32,
    /// FourCC of the pixel format, 0 for plain RGB.
    pub fourcc: u32,
    /// Bytes per frame.
    pub frame_size: u32,
}

} // verus!
