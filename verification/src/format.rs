//! Stream configuration: the negotiated sample format and the immutable
//! descriptor of the record stream supplied once at session setup.

use vstd::prelude::*;

verus! {

/// Encoding of one sample on the wire. Only signed 32-bit little-endian is
/// supported by the decoder; the other negotiable encodings are declared so
/// that an unexpected negotiation result is an explicit error, not a panic.
#[derive(Clone, Copy, Debug, PartialEq, Eq, Structural)]
pub enum SampleFormat {
    /// Signed 32-bit integer, little-endian: the one supported encoding.
    S32Le,
    /// Signed 16-bit integer, little-endian (declared, unsupported).
    S16Le,
    /// Unsigned 8-bit (declared, unsupported).
    U8,
    /// 32-bit floating point, little-endian (declared, unsupported).
    Float32Le,
}

impl SampleFormat {
    /// Width in bytes of one encoded sample of this format.
    pub open spec fn spec_width(self) -> nat {
        match self {
            SampleFormat::S32Le => 4,
            SampleFormat::S16Le => 2,
            SampleFormat::U8 => 1,
            SampleFormat::Float32Le => 4,
        }
    }

    /// Width in bytes of one encoded sample of this format.
    pub fn width(self) -> (w: usize)
        ensures
            w == self.spec_width(),
    {
        match self {
            SampleFormat::S32Le => 4,
            SampleFormat::S16Le => 2,
            SampleFormat::U8 => 1,
            SampleFormat::Float32Le => 4,
        }
    }
}

/// Immutable description of the negotiated record stream, fixed for the whole
/// run: a format change mid-session is out of scope and treated as fatal by
/// the decoder.
#[derive(Clone, Copy, Debug, PartialEq, Eq, Structural)]
pub struct StreamDescriptor {
    /// Encoding of each sample in the byte stream.
    pub format: SampleFormat,
    /// Number of interleaved channels.
    pub channels: u32,
    /// Samples per second per channel.
    pub sample_rate: u32,
    /// Server-chosen size in bytes of one data fragment.
    pub fragment_size: u32,
}

impl StreamDescriptor {
    /// A descriptor the session collaborator may legally hand over.
    pub open spec fn valid(self) -> bool {
        &&& self.channels >= 1
        &&& self.sample_rate >= 1
    }
}

} // verus!
