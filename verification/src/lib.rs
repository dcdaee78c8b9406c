//! Coordination core for encoding one video as independent segments that are
//! handed out to a fixed pool of local and remote worker slots.

pub mod config;
pub mod connection;
pub mod framing;
pub mod registry;
pub mod scheduler;
pub mod segment;
pub mod status;
pub mod video;

pub use config::{
    build_base_encoder_config, build_encoder_config, build_first_pass_encoder_config,
    second_pass_config, speed_preset, CodecConfig, EncoderSettings, RateControl,
};
pub use connection::{
    ActiveConnection, ConnectionEvent, ConnectionState, Outgoing, ProgressNote, Reaction,
};
pub use framing::{frame_summary, read_prefix, read_summary_frame, ConfigError};
pub use registry::{RegistryError, Slot, SlotRegistry, TornDown};
pub use scheduler::{Dispatch, ScheduleError, Scheduler};
pub use segment::{enumerate_segments, EncodeInfo, Segment, SegmentData};
pub use status::{SlotStatus, WorkerStatusUpdate};
pub use video::{ChromaSamplePosition, ChromaSampling, Rational, VideoDetails};
