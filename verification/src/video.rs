//! Description of the source video that every worker receives.

use vstd::prelude::*;

verus! {

/// How the chroma planes are subsampled relative to luma.
#[derive(Debug, Clone, Copy, PartialEq, Eq, Structural)]
pub enum ChromaSampling {
    /// Both chroma axes halved.
    Cs420,
    /// Horizontal chroma axis halved.
    Cs422,
    /// Chroma at full resolution.
    Cs444,
    /// Luma only.
    Cs400,
}

/// Where a subsampled chroma sample sits relative to the luma samples.
#[derive(Debug, Clone, Copy, PartialEq, Eq, Structural)]
pub enum ChromaSamplePosition {
    /// Not signalled.
    Unknown,
    /// Horizontally co-located with luma, vertically between two luma rows.
    Vertical,
    /// Co-located with the top-left luma sample.
    Colocated,
}

/// A ratio of two unsigned integers.
#[derive(Debug, Clone, Copy, PartialEq, Eq, Structural)]
pub struct Rational {
    pub num: u64,
    pub den: u64,
}

/// Immutable description of the source video, created once when an encode
/// starts and copied to every slot that works on it.
#[derive(Debug, Clone, Copy, PartialEq, Eq, Structural)]
pub struct VideoDetails {
    pub width: usize,
    pub height: usize,
    pub bit_depth: usize,
    pub chroma_sampling: ChromaSampling,
    pub chroma_sample_position: ChromaSamplePosition,
    pub time_base: Rational,
}

impl VideoDetails {
    /// The description used when nothing has been probed yet: 640x480,
    /// 8-bit 4:2:0 with unknown chroma siting and a time base of 30/1.
    pub open spec fn standard() -> VideoDetails {
        VideoDetails {
            width: 640,
            height: 480,
            bit_depth: 8,
            chroma_sampling: ChromaSampling::Cs420,
            chroma_sample_position: ChromaSamplePosition::Unknown,
            time_base: Rational { num: 30, den: 1 },
        }
    }
}

impl Default for VideoDetails {
    fn default() -> (details: Self)
        ensures
            details == VideoDetails::standard(),
    {
        VideoDetails {
            width: 640,
            height: 480,
            bit_depth: 8,
            chroma_sampling: ChromaSampling::Cs420,
            chroma_sample_position: ChromaSamplePosition::Unknown,
            time_base: Rational { num: 30, den: 1 },
        }
    }
}

} // verus!
