use rav1e_by_gop::{enumerate_segments, EncodeInfo, Segment, SegmentData};
use std::path::PathBuf;

#[test]
fn last_segment_holds_what_is_left() {
    let list = enumerate_segments(100, 30);
    assert_eq!(
        list,
        vec![
            Segment { segment_idx: 0, start_frameno: 0, frame_count: 30, next_analysis_frame: 30 },
            Segment { segment_idx: 1, start_frameno: 30, frame_count: 30, next_analysis_frame: 60 },
            Segment { segment_idx: 2, start_frameno: 60, frame_count: 30, next_analysis_frame: 90 },
            Segment {
                segment_idx: 3,
                start_frameno: 90,
                frame_count: 10,
                next_analysis_frame: 100
            },
        ]
    );
}

#[test]
fn exact_multiple_has_no_short_segment() {
    let list = enumerate_segments(90, 30);
    assert_eq!(list.len(), 3);
    assert_eq!(list[2].frame_count, 30);
    assert_eq!(list[2].next_analysis_frame, 90);
}

#[test]
fn empty_video_has_no_segments() {
    assert_eq!(enumerate_segments(0, 30), vec![]);
}

#[test]
fn segment_longer_than_the_video_is_one_segment() {
    assert_eq!(
        enumerate_segments(5, 30),
        vec![Segment { segment_idx: 0, start_frameno: 0, frame_count: 5, next_analysis_frame: 5 }]
    );
}

#[test]
fn segments_of_one_frame() {
    let list = enumerate_segments(4, 1);
    assert_eq!(list.len(), 4);
    for (k, segment) in list.iter().enumerate() {
        assert_eq!(segment.segment_idx, k);
        assert_eq!(segment.start_frameno, k);
        assert_eq!(segment.frame_count, 1);
    }
}

#[test]
fn segments_partition_the_frames() {
    for frame_count in 0..60usize {
        for segment_len in 1..20usize {
            let list = enumerate_segments(frame_count, segment_len);
            let mut next = 0usize;
            for (k, segment) in list.iter().enumerate() {
                assert_eq!(segment.segment_idx, k);
                assert_eq!(segment.start_frameno, next);
                assert!(segment.frame_count >= 1);
                assert!(segment.frame_count <= segment_len);
                assert_eq!(segment.next_analysis_frame, next + segment.frame_count);
                next += segment.frame_count;
            }
            assert_eq!(next, frame_count);
            assert_eq!(list.len(), (frame_count + segment_len - 1) / segment_len);
        }
    }
}

#[test]
fn continuity_value_is_the_start_of_the_next_segment() {
    let list = enumerate_segments(70, 25);
    for pair in list.windows(2) {
        assert_eq!(pair[0].next_analysis_frame, pair[1].start_frameno);
    }
}

#[test]
fn huge_frame_counts_do_not_overflow() {
    let list = enumerate_segments(usize::MAX, usize::MAX - 1);
    assert_eq!(list.len(), 2);
    assert_eq!(list[1].start_frameno, usize::MAX - 1);
    assert_eq!(list[1].frame_count, 1);
    assert_eq!(list[1].next_analysis_frame, usize::MAX);
}

#[test]
fn encode_info_round_trips_through_its_segment() {
    let segment =
        Segment { segment_idx: 2, start_frameno: 60, frame_count: 30, next_analysis_frame: 90 };
    let info = EncodeInfo::for_segment(segment, PathBuf::from("out.ivf"));
    assert_eq!(info.output_file, PathBuf::from("out.ivf"));
    assert_eq!(info.segment_idx, 2);
    assert_eq!(info.start_frameno, 60);
    assert_eq!(info.frame_count, 30);
    assert_eq!(info.next_analysis_frame, 90);
    assert_eq!(info.to_segment(), segment);
    let copy = info.clone();
    assert_eq!(copy.output_file, info.output_file);
    assert_eq!(copy.to_segment(), segment);
}

#[test]
fn result_answers_only_its_own_assignment() {
    let segment =
        Segment { segment_idx: 2, start_frameno: 60, frame_count: 30, next_analysis_frame: 90 };
    let info = EncodeInfo::for_segment(segment, PathBuf::from("out.ivf"));
    let data = SegmentData {
        segment_no: 2,
        slot: 0,
        next_analysis_frame: 90,
        start_frameno: 60,
        compressed_frames: vec![vec![1, 2], vec![3]],
    };
    assert!(data.is_answer_to(&info));
    assert!(!SegmentData { segment_no: 3, ..data.clone() }.is_answer_to(&info));
    assert!(!SegmentData { start_frameno: 61, ..data.clone() }.is_answer_to(&info));
    assert!(!SegmentData { next_analysis_frame: 91, ..data.clone() }.is_answer_to(&info));
    assert!(SegmentData { slot: 5, ..data }.is_answer_to(&info));
}
