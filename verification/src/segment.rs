//! Segments: the independently encoded frame ranges that a video is cut
//! into, and the records that travel with one while it is being encoded.

use std::path::PathBuf;
use vstd::arithmetic::div_mod::{lemma_fundamental_div_mod, lemma_fundamental_div_mod_converse};
use vstd::arithmetic::mul::{lemma_mul_inequality, lemma_mul_is_distributive_add_other_way};
use vstd::prelude::*;

verus! {

/// `std::path::PathBuf`, carried through untouched as the destination of a
/// segment's output.
#[verifier::external_type_specification]
#[verifier::external_body]
pub struct ExPathBuf(PathBuf);

/// `PathBuf::clone` returns a path equal to the one it was given.
pub assume_specification[ <PathBuf as Clone>::clone ](path: &PathBuf) -> (copy: PathBuf)
    ensures
        copy == *path,
;

/// One unit of dispatchable work: a contiguous range of frames.
#[derive(Debug, Clone, Copy, PartialEq, Eq, Structural)]
pub struct Segment {
    /// Ordinal of the segment, counted from 0.
    pub segment_idx: usize,
    /// Global number of the first frame of the segment.
    pub start_frameno: usize,
    /// Number of frames in the segment.
    pub frame_count: usize,
    /// Frame at which scene analysis resumes for the segment that follows.
    pub next_analysis_frame: usize,
}

/// Metadata of one segment while it is assigned to a slot.
#[derive(Debug, Clone)]
pub struct EncodeInfo {
    pub output_file: PathBuf,
    pub frame_count: usize,
    pub next_analysis_frame: usize,
    pub segment_idx: usize,
    pub start_frameno: usize,
}

/// The outcome of encoding one segment.
#[derive(Debug, Clone, PartialEq, Eq)]
pub struct SegmentData {
    pub segment_no: usize,
    pub slot: usize,
    pub next_analysis_frame: usize,
    pub start_frameno: usize,
    /// One compressed payload per encoded frame, in output order.
    pub compressed_frames: Vec<Vec<u8>>,
}

impl EncodeInfo {
    /// The segment that this assignment is about.
    pub open spec fn segment(&self) -> Segment {
        Segment {
            segment_idx: self.segment_idx,
            start_frameno: self.start_frameno,
            frame_count: self.frame_count,
            next_analysis_frame: self.next_analysis_frame,
        }
    }

    /// The assignment record for `segment`, to be written to
    /// `output_file`.
    pub open spec fn of(segment: Segment, output_file: PathBuf) -> EncodeInfo {
        EncodeInfo {
            output_file,
            frame_count: segment.frame_count,
            next_analysis_frame: segment.next_analysis_frame,
            segment_idx: segment.segment_idx,
            start_frameno: segment.start_frameno,
        }
    }

    /// Makes the assignment record for `segment`, to be written to
    /// `output_file`.
    pub fn for_segment(segment: Segment, output_file: PathBuf) -> (info: EncodeInfo)
        ensures
            info == EncodeInfo::of(segment, output_file),
    {
        EncodeInfo {
            output_file,
            frame_count: segment.frame_count,
            next_analysis_frame: segment.next_analysis_frame,
            segment_idx: segment.segment_idx,
            start_frameno: segment.start_frameno,
        }
    }

    /// The segment that this assignment is about.
    pub fn to_segment(&self) -> (segment: Segment)
        ensures
            segment == self.segment(),
    {
        Segment {
            segment_idx: self.segment_idx,
            start_frameno: self.start_frameno,
            frame_count: self.frame_count,
            next_analysis_frame: self.next_analysis_frame,
        }
    }
}

impl SegmentData {
    /// Whether this result is the outcome of the assignment `info`: same
    /// ordinal, same first frame, same continuity value.
    pub open spec fn answers(&self, info: EncodeInfo) -> bool {
        &&& self.segment_no == info.segment_idx
        &&& self.start_frameno == info.start_frameno
        &&& self.next_analysis_frame == info.next_analysis_frame
    }

    /// Whether this result is the outcome of the assignment `info`.
    pub fn is_answer_to(&self, info: &EncodeInfo) -> (yes: bool)
        ensures
            yes == self.answers(*info),
    {
        self.segment_no == info.segment_idx && self.start_frameno == info.start_frameno
            && self.next_analysis_frame == info.next_analysis_frame
    }
}

/// Number of segments that `frame_count` frames are cut into when each
/// segment but the last holds `segment_len` frames.
pub open spec fn segment_count(frame_count: int, segment_len: int) -> int
    recommends
        0 <= frame_count,
        0 < segment_len,
{
    if frame_count <= 0 {
        0
    } else {
        (frame_count - 1) / segment_len + 1
    }
}

/// The segment with ordinal `k`: it starts at frame `k * segment_len` and
/// runs for `segment_len` frames or to the end of the video, whichever
/// comes first. Scene analysis for the next segment resumes where this one
/// ends.
pub open spec fn segment_at(frame_count: int, segment_len: int, k: int) -> Segment
    recommends
        0 < segment_len,
        0 <= k < segment_count(frame_count, segment_len),
{
    let start = k * segment_len;
    let end = if start + segment_len <= frame_count {
        start + segment_len
    } else {
        frame_count
    };
    Segment {
        segment_idx: k as usize,
        start_frameno: start as usize,
        frame_count: (end - start) as usize,
        next_analysis_frame: end as usize,
    }
}

/// All segments of a video, in ordinal order.
pub open spec fn segments(frame_count: int, segment_len: int) -> Seq<Segment>
    recommends
        0 <= frame_count,
        0 < segment_len,
{
    Seq::new(
        segment_count(frame_count, segment_len) as nat,
        |k: int| segment_at(frame_count, segment_len, k),
    )
}

/// Whether frame `frame` lies in `segment`.
pub open spec fn holds_frame(segment: Segment, frame: int) -> bool {
    segment.start_frameno <= frame < segment.start_frameno + segment.frame_count
}

/// A segment with ordinal `k` exists exactly when its first frame lies in
/// the video.
pub proof fn lemma_segment_exists(frame_count: int, segment_len: int, k: int)
    requires
        0 <= frame_count,
        0 < segment_len,
        0 <= k,
    ensures
        k < segment_count(frame_count, segment_len) <==> k * segment_len < frame_count,
{
    if frame_count > 0 {
        let q = (frame_count - 1) / segment_len;
        lemma_fundamental_div_mod(frame_count - 1, segment_len);
        assert(q * segment_len == segment_len * q) by (nonlinear_arith);
        assert(q * segment_len <= frame_count - 1 < q * segment_len + segment_len);
        if k <= q {
            lemma_mul_inequality(k, q, segment_len);
        } else {
            lemma_mul_inequality(q + 1, k, segment_len);
            lemma_mul_is_distributive_add_other_way(segment_len, q, 1);
        }
    } else {
        lemma_mul_inequality(0, k, segment_len);
    }
}

/// The segments partition the frames `0..frame_count`: ordinals are dense
/// and ascending, every segment is non-empty and at most `segment_len`
/// long, the first starts at frame 0, each starts where its predecessor
/// ends, and the last ends with the video.
pub proof fn lemma_segments_are_contiguous(frame_count: int, segment_len: int)
    requires
        0 <= frame_count <= usize::MAX,
        0 < segment_len,
    ensures
        segments(frame_count, segment_len).len() == segment_count(frame_count, segment_len),
        forall|k: int|
            #![trigger segments(frame_count, segment_len)[k]]
            0 <= k < segment_count(frame_count, segment_len) ==> {
                let s = segments(frame_count, segment_len)[k];
                &&& s.segment_idx == k
                &&& s.start_frameno == k * segment_len
                &&& 1 <= s.frame_count <= segment_len
                &&& s.next_analysis_frame == s.start_frameno + s.frame_count
                &&& s.next_analysis_frame <= frame_count
                &&& k == 0 ==> s.start_frameno == 0
                &&& k > 0 ==> s.start_frameno == segments(frame_count, segment_len)[k
                    - 1].next_analysis_frame
                &&& k == segment_count(frame_count, segment_len) - 1 ==> s.next_analysis_frame
                    == frame_count
            },
{
    let n = segment_count(frame_count, segment_len);
    assert forall|k: int| #![trigger segments(frame_count, segment_len)[k]] 0 <= k < n implies {
        let s = segments(frame_count, segment_len)[k];
        &&& s.segment_idx == k
        &&& s.start_frameno == k * segment_len
        &&& 1 <= s.frame_count <= segment_len
        &&& s.next_analysis_frame == s.start_frameno + s.frame_count
        &&& s.next_analysis_frame <= frame_count
        &&& k == 0 ==> s.start_frameno == 0
        &&& k > 0 ==> s.start_frameno == segments(frame_count, segment_len)[k
            - 1].next_analysis_frame
        &&& k == n - 1 ==> s.next_analysis_frame == frame_count
    } by {
        lemma_segment_exists(frame_count, segment_len, k);
        lemma_segment_exists(frame_count, segment_len, k + 1);
        lemma_mul_is_distributive_add_other_way(segment_len, k, 1);
        lemma_mul_inequality(0, k, segment_len);
        assert(0 <= k * segment_len < frame_count);
        assert(k < frame_count) by (nonlinear_arith)
            requires
                0 <= k,
                k * segment_len < frame_count,
                segment_len >= 1,
        ;
        if k > 0 {
            lemma_segment_exists(frame_count, segment_len, k - 1);
            lemma_mul_is_distributive_add_other_way(segment_len, k - 1, 1);
            lemma_mul_inequality(0, k - 1, segment_len);
        }
    }
}

/// Every frame of the video lies in exactly one segment: the one whose
/// ordinal is the frame number divided by the segment length.
pub proof fn lemma_segments_partition_frames(frame_count: int, segment_len: int, frame: int)
    requires
        0 <= frame < frame_count <= usize::MAX,
        0 < segment_len,
    ensures
        0 <= frame / segment_len < segment_count(frame_count, segment_len),
        holds_frame(segments(frame_count, segment_len)[frame / segment_len], frame),
        forall|k: int|
            #![trigger segments(frame_count, segment_len)[k]]
            0 <= k < segment_count(frame_count, segment_len) && holds_frame(
                segments(frame_count, segment_len)[k],
                frame,
            ) ==> k == frame / segment_len,
{
    let home = frame / segment_len;
    lemma_fundamental_div_mod(frame, segment_len);
    assert(home * segment_len == segment_len * home) by (nonlinear_arith);
    assert(0 <= home) by (nonlinear_arith)
        requires
            home * segment_len + frame % segment_len == frame,
            0 <= frame % segment_len < segment_len,
            0 <= frame,
            0 < segment_len,
    ;
    lemma_segment_exists(frame_count, segment_len, home);
    lemma_segments_are_contiguous(frame_count, segment_len);
    assert(holds_frame(segments(frame_count, segment_len)[home], frame)) by {
        lemma_mul_is_distributive_add_other_way(segment_len, home, 1);
    }
    assert forall|k: int|
        #![trigger segments(frame_count, segment_len)[k]]
        0 <= k < segment_count(frame_count, segment_len) && holds_frame(
            segments(frame_count, segment_len)[k],
            frame,
        ) implies k == home by {
        let s = segments(frame_count, segment_len)[k];
        assert(s.start_frameno == k * segment_len);
        assert(s.frame_count <= segment_len);
        lemma_fundamental_div_mod_converse(frame, segment_len, k, frame - k * segment_len);
    }
}

/// Cuts a video of `frame_count` frames into segments of `segment_len`
/// frames; the last segment holds what is left.
pub fn enumerate_segments(frame_count: usize, segment_len: usize) -> (list: Vec<Segment>)
    requires
        segment_len > 0,
    ensures
        list@ == segments(frame_count as int, segment_len as int),
{
    let mut list: Vec<Segment> = Vec::new();
    let mut start: usize = 0;
    proof {
        lemma_segments_are_contiguous(frame_count as int, segment_len as int);
        lemma_segment_exists(frame_count as int, segment_len as int, 0);
    }
    while start < frame_count
        invariant
            segment_len > 0,
            list@.len() <= segment_count(frame_count as int, segment_len as int),
            list@ == segments(frame_count as int, segment_len as int).take(list@.len() as int),
            list@.len() < segment_count(frame_count as int, segment_len as int) ==> start
                == list@.len() * segment_len,
            list@.len() == segment_count(frame_count as int, segment_len as int) ==> start
                == frame_count,
        decreases frame_count - start,
    {
        let ghost k = list@.len() as int;
        let ghost all = segments(frame_count as int, segment_len as int);
        proof {
            lemma_segments_are_contiguous(frame_count as int, segment_len as int);
            lemma_segment_exists(frame_count as int, segment_len as int, k + 1);
            lemma_mul_is_distributive_add_other_way(segment_len as int, k, 1);
            assert(all[k].segment_idx == k);
        }
        let left: usize = frame_count - start;
        let count: usize = if left < segment_len {
            left
        } else {
            segment_len
        };
        let segment = Segment {
            segment_idx: list.len(),
            start_frameno: start,
            frame_count: count,
            next_analysis_frame: start + count,
        };
        assert(segment == all[k]);
        list.push(segment);
        start = start + count;
        assert(list@ == all.take(k + 1));
    }
    proof {
        let all = segments(frame_count as int, segment_len as int);
        lemma_segment_exists(frame_count as int, segment_len as int, list@.len() as int);
        assert(all.take(all.len() as int) == all);
    }
    list
}

} // verus!
