use rav1e_by_gop::{ChromaSamplePosition, ChromaSampling, Rational, VideoDetails};

#[test]
fn default_video_details_describe_vga_420() {
    let details = VideoDetails::default();
    assert_eq!(details.width, 640);
    assert_eq!(details.height, 480);
    assert_eq!(details.bit_depth, 8);
    assert_eq!(details.chroma_sampling, ChromaSampling::Cs420);
    assert_eq!(details.chroma_sample_position, ChromaSamplePosition::Unknown);
    assert_eq!(details.time_base, Rational { num: 30, den: 1 });
}

#[test]
fn video_details_are_copied_freely() {
    let details = VideoDetails {
        width: 1920,
        height: 1080,
        bit_depth: 10,
        chroma_sampling: ChromaSampling::Cs444,
        chroma_sample_position: ChromaSamplePosition::Colocated,
        time_base: Rational { num: 1001, den: 30000 },
    };
    let copy = details;
    assert_eq!(copy, details);
}
