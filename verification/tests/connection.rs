use rav1e_by_gop::{
    ActiveConnection, ConnectionEvent, ConnectionState, EncodeInfo, Outgoing, ProgressNote,
    Segment, SegmentData, SlotStatus, VideoDetails, WorkerStatusUpdate,
};
use std::path::PathBuf;
use uuid::Uuid;

fn segment(k: usize) -> Segment {
    Segment {
        segment_idx: k,
        start_frameno: 30 * k,
        frame_count: 30,
        next_analysis_frame: 30 * k + 30,
    }
}

fn info(k: usize) -> EncodeInfo {
    EncodeInfo::for_segment(segment(k), PathBuf::from("out.ivf"))
}

fn data(k: usize) -> SegmentData {
    SegmentData {
        segment_no: k,
        slot: 99,
        next_analysis_frame: 30 * k + 30,
        start_frameno: 30 * k,
        compressed_frames: vec![vec![k as u8; 3]],
    }
}

fn idle(slot: usize) -> ActiveConnection {
    let mut connection = ActiveConnection::new(slot, VideoDetails::default());
    connection.handle(ConnectionEvent::Opened);
    connection.handle(ConnectionEvent::Acknowledged(Uuid::from_u128(7)));
    connection
}

fn assigned(slot: usize, k: usize) -> ActiveConnection {
    let mut connection = idle(slot);
    connection.handle(ConnectionEvent::Assign(info(k)));
    connection
}

fn is_empty(reaction: &rav1e_by_gop::Reaction) -> bool {
    reaction.send.is_none()
        && reaction.update.is_none()
        && reaction.progress.is_none()
        && reaction.completed.is_none()
        && reaction.interrupted.is_none()
        && reaction.refused.is_none()
        && !reaction.close
}

#[test]
fn new_connection_is_connecting() {
    let connection = ActiveConnection::new(3, VideoDetails::default());
    assert_eq!(connection.state, ConnectionState::Connecting);
    assert_eq!(connection.slot_in_worker, 3);
    assert_eq!(connection.connection_id, None);
    assert!(connection.encode_info.is_none());
    assert_eq!(connection.video_info, VideoDetails::default());
}

#[test]
fn opening_sends_the_video_parameters() {
    let mut connection = ActiveConnection::new(1, VideoDetails::default());
    let reaction = connection.handle(ConnectionEvent::Opened);
    assert_eq!(connection.state, ConnectionState::Handshaking);
    assert_eq!(reaction.send, Some(Outgoing::Handshake(VideoDetails::default())));
    assert!(reaction.update.is_none());
    assert!(!reaction.close);
}

#[test]
fn acknowledgment_identifies_the_peer_and_frees_the_slot() {
    let mut connection = ActiveConnection::new(1, VideoDetails::default());
    connection.handle(ConnectionEvent::Opened);
    let reaction = connection.handle(ConnectionEvent::Acknowledged(Uuid::from_u128(42)));
    assert_eq!(connection.state, ConnectionState::Idle);
    assert_eq!(connection.connection_id, Some(Uuid::from_u128(42)));
    assert_eq!(
        reaction.update,
        Some(WorkerStatusUpdate { status: None, slot_delta: Some((1, true)) })
    );
    assert!(reaction.send.is_none());
}

#[test]
fn rejected_handshake_disconnects() {
    let mut connection = ActiveConnection::new(1, VideoDetails::default());
    connection.handle(ConnectionEvent::Opened);
    let reaction = connection.handle(ConnectionEvent::Rejected);
    assert_eq!(connection.state, ConnectionState::Disconnected);
    assert!(reaction.close);
    assert!(reaction.interrupted.is_none());
    assert_eq!(
        reaction.update,
        Some(WorkerStatusUpdate { status: None, slot_delta: Some((1, false)) })
    );
}

#[test]
fn assignment_is_sent_to_an_idle_peer() {
    let mut connection = idle(2);
    let reaction = connection.handle(ConnectionEvent::Assign(info(4)));
    assert_eq!(connection.state, ConnectionState::Assigned);
    assert_eq!(connection.encode_info.as_ref().unwrap().segment_idx, 4);
    assert_eq!(reaction.send, Some(Outgoing::Assignment(segment(4))));
    assert_eq!(
        reaction.update,
        Some(WorkerStatusUpdate {
            status: Some(SlotStatus::Requested),
            slot_delta: Some((2, false))
        })
    );
    assert!(reaction.refused.is_none());
}

#[test]
fn second_assignment_is_refused_and_changes_nothing() {
    let mut connection = assigned(2, 4);
    let reaction = connection.handle(ConnectionEvent::Assign(info(5)));
    assert_eq!(connection.state, ConnectionState::Assigned);
    assert_eq!(connection.encode_info.as_ref().unwrap().segment_idx, 4);
    assert_eq!(reaction.refused.as_ref().unwrap().segment_idx, 5);
    assert!(reaction.send.is_none());
    assert!(reaction.update.is_none());
}

#[test]
fn assignment_before_the_handshake_is_refused() {
    let mut connection = ActiveConnection::new(0, VideoDetails::default());
    let reaction = connection.handle(ConnectionEvent::Assign(info(0)));
    assert_eq!(connection.state, ConnectionState::Connecting);
    assert_eq!(reaction.refused.as_ref().unwrap().segment_idx, 0);
    connection.handle(ConnectionEvent::Opened);
    let reaction = connection.handle(ConnectionEvent::Assign(info(0)));
    assert_eq!(connection.state, ConnectionState::Handshaking);
    assert!(reaction.refused.is_some());
}

#[test]
fn progress_goes_to_the_progress_channel_only() {
    let mut connection = assigned(2, 4);
    let reaction = connection.handle(ConnectionEvent::Progress(17));
    assert_eq!(connection.state, ConnectionState::Assigned);
    assert_eq!(reaction.progress, Some(ProgressNote { slot: 2, segment_idx: 4, frames_done: 17 }));
    assert!(reaction.update.is_none());
    assert!(reaction.send.is_none());
}

#[test]
fn completed_segment_frees_the_slot() {
    let mut connection = assigned(2, 4);
    let reaction = connection.handle(ConnectionEvent::Completed(data(4)));
    assert_eq!(connection.state, ConnectionState::Idle);
    assert!(connection.encode_info.is_none());
    assert_eq!(reaction.completed, Some(SegmentData { slot: 2, ..data(4) }));
    assert_eq!(
        reaction.update,
        Some(WorkerStatusUpdate { status: Some(SlotStatus::Idle), slot_delta: Some((2, true)) })
    );
    assert!(!reaction.close);
}

#[test]
fn result_for_another_segment_is_a_protocol_error() {
    let mut connection = assigned(2, 4);
    let reaction = connection.handle(ConnectionEvent::Completed(data(5)));
    assert_eq!(connection.state, ConnectionState::Disconnected);
    assert!(reaction.completed.is_none());
    assert_eq!(reaction.interrupted.as_ref().unwrap().segment_idx, 4);
    assert!(reaction.close);
}

#[test]
fn failure_while_assigned_reports_the_interrupted_segment() {
    let mut connection = assigned(2, 4);
    let reaction = connection.handle(ConnectionEvent::Failed);
    assert_eq!(connection.state, ConnectionState::Disconnected);
    assert!(connection.encode_info.is_none());
    assert_eq!(reaction.interrupted.as_ref().unwrap().segment_idx, 4);
    assert_eq!(reaction.interrupted.as_ref().unwrap().output_file, PathBuf::from("out.ivf"));
    assert!(reaction.close);
    assert_eq!(
        reaction.update,
        Some(WorkerStatusUpdate { status: Some(SlotStatus::Idle), slot_delta: Some((2, false)) })
    );
}

#[test]
fn failure_while_idle_interrupts_nothing() {
    let mut connection = idle(2);
    let reaction = connection.handle(ConnectionEvent::Failed);
    assert_eq!(connection.state, ConnectionState::Disconnected);
    assert!(reaction.interrupted.is_none());
    assert!(reaction.close);
    assert_eq!(
        reaction.update,
        Some(WorkerStatusUpdate { status: None, slot_delta: Some((2, false)) })
    );
}

#[test]
fn unexpected_messages_disconnect() {
    let mut connection = idle(2);
    connection.handle(ConnectionEvent::Progress(1));
    assert_eq!(connection.state, ConnectionState::Disconnected);
    let mut connection = idle(2);
    connection.handle(ConnectionEvent::Completed(data(0)));
    assert_eq!(connection.state, ConnectionState::Disconnected);
    let mut connection = idle(2);
    connection.handle(ConnectionEvent::Opened);
    assert_eq!(connection.state, ConnectionState::Disconnected);
    let mut connection = ActiveConnection::new(2, VideoDetails::default());
    connection.handle(ConnectionEvent::Acknowledged(Uuid::from_u128(1)));
    assert_eq!(connection.state, ConnectionState::Disconnected);
    assert_eq!(connection.connection_id, None);
}

#[test]
fn connection_identifier_is_set_once() {
    let mut connection = idle(2);
    assert_eq!(connection.connection_id, Some(Uuid::from_u128(7)));
    connection.handle(ConnectionEvent::Acknowledged(Uuid::from_u128(8)));
    assert_eq!(connection.connection_id, Some(Uuid::from_u128(7)));
    assert_eq!(connection.state, ConnectionState::Disconnected);
    let mut connection = assigned(2, 1);
    for event in [
        ConnectionEvent::Progress(3),
        ConnectionEvent::Completed(data(1)),
        ConnectionEvent::Assign(info(2)),
        ConnectionEvent::Acknowledged(Uuid::from_u128(9)),
        ConnectionEvent::Failed,
    ] {
        connection.handle(event);
        assert_eq!(connection.connection_id, Some(Uuid::from_u128(7)));
    }
}

#[test]
fn lost_connection_ignores_everything() {
    let mut connection = idle(2);
    connection.handle(ConnectionEvent::Failed);
    for event in [
        ConnectionEvent::Opened,
        ConnectionEvent::Acknowledged(Uuid::from_u128(9)),
        ConnectionEvent::Rejected,
        ConnectionEvent::Progress(3),
        ConnectionEvent::Completed(data(1)),
        ConnectionEvent::Failed,
    ] {
        let reaction = connection.handle(event);
        assert_eq!(connection.state, ConnectionState::Disconnected);
        assert!(is_empty(&reaction));
    }
    let reaction = connection.handle(ConnectionEvent::Assign(info(2)));
    assert_eq!(reaction.refused.as_ref().unwrap().segment_idx, 2);
    assert_eq!(connection.state, ConnectionState::Disconnected);
}

#[test]
fn inconsistent_assigned_connection_is_lost_on_progress() {
    let mut connection = idle(2);
    connection.state = ConnectionState::Assigned;
    let reaction = connection.handle(ConnectionEvent::Progress(1));
    assert_eq!(connection.state, ConnectionState::Disconnected);
    assert!(reaction.progress.is_none());
    assert!(reaction.close);
}
