use rav1e_by_gop::{
    ActiveConnection, ConnectionEvent, Outgoing, RegistryError, ScheduleError, Scheduler,
    Segment, SegmentData, SlotStatus, VideoDetails, WorkerStatusUpdate,
};
use std::path::PathBuf;
use uuid::Uuid;

fn segment(k: usize) -> Segment {
    Segment {
        segment_idx: k,
        start_frameno: 10 * k,
        frame_count: 10,
        next_analysis_frame: 10 * k + 10,
    }
}

fn result(k: usize, slot: usize) -> SegmentData {
    SegmentData {
        segment_no: k,
        slot,
        next_analysis_frame: 10 * k + 10,
        start_frameno: 10 * k,
        compressed_frames: vec![vec![k as u8]; 10],
    }
}

fn idle_connection() -> ActiveConnection {
    let mut connection = ActiveConnection::new(0, VideoDetails::default());
    connection.handle(ConnectionEvent::Opened);
    connection.handle(ConnectionEvent::Acknowledged(Uuid::from_u128(7)));
    connection
}

fn freed(slot: usize) -> WorkerStatusUpdate {
    WorkerStatusUpdate { status: None, slot_delta: Some((slot, true)) }
}

#[test]
fn new_scheduler_queues_every_segment() {
    let scheduler = Scheduler::new(50, 10, 2, 1, PathBuf::from("out.ivf"));
    assert_eq!(scheduler.segment_count(), 5);
    assert_eq!(scheduler.pending(), 5);
    assert_eq!(scheduler.next_segment(), Some(segment(0)));
    assert_eq!(scheduler.registry().pool_size(), 3);
    assert!(!scheduler.is_complete());
    for k in 0..6 {
        assert!(!scheduler.is_done(k));
    }
}

#[test]
fn encode_of_no_frames_is_complete_at_once() {
    let mut scheduler = Scheduler::new(0, 10, 1, 0, PathBuf::from("out.ivf"));
    assert!(scheduler.is_complete());
    assert_eq!(scheduler.next_segment(), None);
    assert!(scheduler.dispatch_next().is_none());
}

#[test]
fn dispatch_hands_out_segments_in_ordinal_order() {
    let mut scheduler = Scheduler::new(50, 10, 2, 0, PathBuf::from("out.ivf"));
    let first = scheduler.dispatch_next().unwrap();
    assert_eq!((first.slot, first.segment), (0, segment(0)));
    assert!(first.reaction.send.is_none());
    let second = scheduler.dispatch_next().unwrap();
    assert_eq!((second.slot, second.segment), (1, segment(1)));
    assert!(scheduler.dispatch_next().is_none());
    assert_eq!(scheduler.pending(), 3);
    assert_eq!(scheduler.registry().in_flight_segment(0), Some(segment(0)));
    assert_eq!(scheduler.registry().in_flight_segment(1), Some(segment(1)));
    assert_eq!(scheduler.next_segment(), Some(segment(2)));
}

#[test]
fn dispatch_to_a_busy_or_missing_slot_does_nothing() {
    let mut scheduler = Scheduler::new(50, 10, 1, 1, PathBuf::from("out.ivf"));
    assert!(scheduler.dispatch(0).is_some());
    assert!(scheduler.dispatch(0).is_none());
    assert!(scheduler.dispatch(1).is_none());
    assert!(scheduler.dispatch(2).is_none());
    assert_eq!(scheduler.pending(), 4);
}

#[test]
fn finished_segment_is_recorded_and_the_slot_freed() {
    let mut scheduler = Scheduler::new(20, 10, 1, 0, PathBuf::from("out.ivf"));
    scheduler.dispatch(0).unwrap();
    let recorded = scheduler.segment_finished(result(0, 0)).unwrap();
    assert_eq!(recorded, result(0, 0));
    assert!(scheduler.is_done(0));
    assert!(!scheduler.is_done(1));
    assert!(scheduler.registry().is_free(0));
    assert!(!scheduler.is_complete());
}

#[test]
fn duplicate_result_is_refused() {
    let mut scheduler = Scheduler::new(20, 10, 1, 0, PathBuf::from("out.ivf"));
    scheduler.dispatch(0).unwrap();
    scheduler.segment_finished(result(0, 0)).unwrap();
    assert_eq!(scheduler.segment_finished(result(0, 0)), Err(ScheduleError::NothingInFlight));
    scheduler.dispatch(0).unwrap();
    assert_eq!(scheduler.segment_finished(result(0, 0)), Err(ScheduleError::WrongSegment));
    assert_eq!(scheduler.registry().in_flight_segment(0), Some(segment(1)));
    assert!(!scheduler.is_done(1));
}

#[test]
fn result_from_a_slot_that_holds_nothing_is_refused() {
    let mut scheduler = Scheduler::new(20, 10, 2, 0, PathBuf::from("out.ivf"));
    scheduler.dispatch(0).unwrap();
    assert_eq!(scheduler.segment_finished(result(0, 1)), Err(ScheduleError::NothingInFlight));
    assert_eq!(scheduler.segment_finished(result(0, 9)), Err(ScheduleError::NothingInFlight));
    assert!(!scheduler.is_done(0));
}

#[test]
fn result_that_does_not_answer_the_assignment_is_refused() {
    let mut scheduler = Scheduler::new(20, 10, 1, 0, PathBuf::from("out.ivf"));
    scheduler.dispatch(0).unwrap();
    let mut wrong_start = result(0, 0);
    wrong_start.start_frameno = 1;
    assert_eq!(scheduler.segment_finished(wrong_start), Err(ScheduleError::WrongSegment));
    let mut wrong_continuity = result(0, 0);
    wrong_continuity.next_analysis_frame = 11;
    assert_eq!(scheduler.segment_finished(wrong_continuity), Err(ScheduleError::WrongSegment));
    assert_eq!(scheduler.segment_finished(result(1, 0)), Err(ScheduleError::WrongSegment));
    assert!(!scheduler.is_done(0));
    assert!(scheduler.segment_finished(result(0, 0)).is_ok());
}

#[test]
fn freed_slot_takes_the_next_segment_at_once() {
    let mut scheduler = Scheduler::new(30, 10, 1, 0, PathBuf::from("out.ivf"));
    let first = scheduler.apply_update(freed(0)).unwrap();
    assert_eq!(first.segment, segment(0));
    assert!(scheduler.apply_update(freed(0)).is_none());
    scheduler.segment_finished(result(0, 0)).unwrap();
    let second = scheduler.apply_update(freed(0)).unwrap();
    assert_eq!((second.slot, second.segment), (0, segment(1)));
}

#[test]
fn update_axes_are_applied_independently() {
    let mut scheduler = Scheduler::new(30, 10, 1, 0, PathBuf::from("out.ivf"));
    let nothing = WorkerStatusUpdate { status: None, slot_delta: None };
    assert!(scheduler.apply_update(nothing).is_none());
    assert_eq!(scheduler.registry().status(), SlotStatus::Idle);
    assert_eq!(scheduler.pending(), 3);
    let status_only =
        WorkerStatusUpdate { status: Some(SlotStatus::Requested), slot_delta: None };
    assert!(scheduler.apply_update(status_only).is_none());
    assert_eq!(scheduler.registry().status(), SlotStatus::Requested);
    assert_eq!(scheduler.pending(), 3);
    let both = WorkerStatusUpdate { status: Some(SlotStatus::Idle), slot_delta: Some((0, true)) };
    let dispatch = scheduler.apply_update(both).unwrap();
    assert_eq!(dispatch.segment, segment(0));
    assert_eq!(scheduler.registry().status(), SlotStatus::Idle);
    let unavailable =
        WorkerStatusUpdate { status: Some(SlotStatus::Requested), slot_delta: Some((0, false)) };
    assert!(scheduler.apply_update(unavailable).is_none());
    assert_eq!(scheduler.registry().status(), SlotStatus::Requested);
    assert_eq!(scheduler.registry().in_flight_segment(0), Some(segment(0)));
}

#[test]
fn update_for_a_slot_outside_the_pool_dispatches_nothing() {
    let mut scheduler = Scheduler::new(30, 10, 1, 0, PathBuf::from("out.ivf"));
    assert!(scheduler.apply_update(freed(5)).is_none());
    assert_eq!(scheduler.pending(), 3);
}

#[test]
fn encode_completes_when_every_segment_is_done() {
    let mut scheduler = Scheduler::new(25, 10, 3, 0, PathBuf::from("out.ivf"));
    assert_eq!(scheduler.segment_count(), 3);
    for slot in 0..3 {
        scheduler.dispatch(slot).unwrap();
    }
    assert_eq!(scheduler.pending(), 0);
    assert!(!scheduler.is_complete());
    let last = SegmentData {
        segment_no: 2,
        slot: 2,
        next_analysis_frame: 25,
        start_frameno: 20,
        compressed_frames: vec![],
    };
    scheduler.segment_finished(last).unwrap();
    scheduler.segment_finished(result(0, 0)).unwrap();
    assert!(!scheduler.is_complete());
    scheduler.segment_finished(result(1, 1)).unwrap();
    assert!(scheduler.is_complete());
    assert!(scheduler.dispatch_next().is_none());
}

#[test]
fn remote_worker_joins_and_takes_work() {
    let mut scheduler = Scheduler::new(30, 10, 0, 1, PathBuf::from("out.ivf"));
    assert!(scheduler.dispatch_next().is_none());
    assert_eq!(scheduler.connect_remote(idle_connection()), Ok(0));
    let dispatch = scheduler.apply_update(freed(0)).unwrap();
    assert_eq!(dispatch.reaction.send, Some(Outgoing::Assignment(segment(0))));
    assert_eq!(scheduler.connect_remote(idle_connection()), Err(RegistryError::PoolFull));
    let reaction =
        scheduler.connection_event(0, ConnectionEvent::Completed(result(0, 123))).unwrap();
    assert_eq!(reaction.completed, Some(result(0, 0)));
    assert!(scheduler.is_done(0));
    assert_eq!(reaction.update, Some(WorkerStatusUpdate {
        status: Some(SlotStatus::Idle),
        slot_delta: Some((0, true)),
    }));
}

#[test]
fn handshake_runs_through_the_scheduler() {
    let mut scheduler = Scheduler::new(30, 10, 0, 1, PathBuf::from("out.ivf"));
    scheduler.connect_remote(ActiveConnection::new(0, VideoDetails::default())).unwrap();
    assert!(scheduler.dispatch(0).is_none());
    let reaction = scheduler.connection_event(0, ConnectionEvent::Opened).unwrap();
    assert_eq!(reaction.send, Some(Outgoing::Handshake(VideoDetails::default())));
    let reaction = scheduler
        .connection_event(0, ConnectionEvent::Acknowledged(Uuid::from_u128(3)))
        .unwrap();
    let dispatch = scheduler.apply_update(reaction.update.unwrap()).unwrap();
    assert_eq!(dispatch.segment, segment(0));
}

#[test]
fn assignment_event_is_refused_by_the_scheduler() {
    let mut scheduler = Scheduler::new(30, 10, 0, 1, PathBuf::from("out.ivf"));
    scheduler.connect_remote(idle_connection()).unwrap();
    let stray = rav1e_by_gop::EncodeInfo::for_segment(segment(2), PathBuf::from("x"));
    let reaction = scheduler.connection_event(0, ConnectionEvent::Assign(stray)).unwrap();
    assert_eq!(reaction.refused.unwrap().segment_idx, 2);
    assert!(reaction.send.is_none());
    assert!(scheduler.registry().is_free(0));
    assert_eq!(scheduler.pending(), 3);
    let stray = rav1e_by_gop::EncodeInfo::for_segment(segment(2), PathBuf::from("x"));
    let reaction = scheduler.connection_event(9, ConnectionEvent::Assign(stray)).unwrap();
    assert!(reaction.refused.is_some());
}

#[test]
fn events_for_a_slot_without_connection_fail() {
    let mut scheduler = Scheduler::new(30, 10, 1, 1, PathBuf::from("out.ivf"));
    assert_eq!(
        scheduler.connection_event(0, ConnectionEvent::Failed).unwrap_err(),
        RegistryError::NotRemote
    );
    assert_eq!(
        scheduler.connection_event(1, ConnectionEvent::Failed).unwrap_err(),
        RegistryError::Vacant
    );
    assert_eq!(
        scheduler.connection_event(2, ConnectionEvent::Failed).unwrap_err(),
        RegistryError::OutOfRange
    );
    assert_eq!(scheduler.slot_lost(0), Err(RegistryError::NotRemote));
    assert_eq!(scheduler.slot_lost(1), Err(RegistryError::Vacant));
    assert_eq!(scheduler.slot_lost(2), Err(RegistryError::OutOfRange));
}

#[test]
fn interrupted_segment_goes_back_to_the_front() {
    let mut scheduler = Scheduler::new(50, 10, 0, 2, PathBuf::from("out.ivf"));
    scheduler.connect_remote(idle_connection()).unwrap();
    scheduler.connect_remote(idle_connection()).unwrap();
    scheduler.dispatch(0).unwrap();
    scheduler.dispatch(1).unwrap();
    assert_eq!(scheduler.next_segment(), Some(segment(2)));
    let reaction = scheduler.connection_event(1, ConnectionEvent::Failed).unwrap();
    assert_eq!(reaction.interrupted.unwrap().segment_idx, 1);
    assert!(reaction.close);
    assert_eq!(scheduler.next_segment(), Some(segment(1)));
    assert_eq!(scheduler.pending(), 4);
    assert!(scheduler.registry().is_vacant(1));
    assert!(!scheduler.is_done(1));
}

#[test]
fn requeued_segments_keep_ordinal_order() {
    let mut scheduler = Scheduler::new(50, 10, 0, 2, PathBuf::from("out.ivf"));
    scheduler.connect_remote(idle_connection()).unwrap();
    scheduler.connect_remote(idle_connection()).unwrap();
    scheduler.dispatch(0).unwrap();
    scheduler.dispatch(1).unwrap();
    assert_eq!(scheduler.slot_lost(0), Ok(Some(segment(0))));
    assert_eq!(scheduler.slot_lost(1), Ok(Some(segment(1))));
    assert_eq!(scheduler.pending(), 5);
    scheduler.connect_remote(idle_connection()).unwrap();
    for k in 0..5 {
        let dispatch = scheduler.dispatch(0).unwrap();
        assert_eq!(dispatch.segment, segment(k));
        scheduler.connection_event(0, ConnectionEvent::Completed(result(k, 0))).unwrap();
    }
    assert!(scheduler.is_complete());
}

#[test]
fn losing_an_idle_remote_requeues_nothing() {
    let mut scheduler = Scheduler::new(50, 10, 0, 1, PathBuf::from("out.ivf"));
    scheduler.connect_remote(idle_connection()).unwrap();
    assert_eq!(scheduler.slot_lost(0), Ok(None));
    assert_eq!(scheduler.pending(), 5);
    assert!(scheduler.registry().is_vacant(0));
}

#[test]
fn progress_does_not_touch_the_schedule() {
    let mut scheduler = Scheduler::new(50, 10, 0, 1, PathBuf::from("out.ivf"));
    scheduler.connect_remote(idle_connection()).unwrap();
    scheduler.dispatch(0).unwrap();
    let reaction = scheduler.connection_event(0, ConnectionEvent::Progress(4)).unwrap();
    assert_eq!(reaction.progress.unwrap().frames_done, 4);
    assert!(reaction.update.is_none());
    assert_eq!(scheduler.pending(), 4);
    assert_eq!(scheduler.registry().in_flight_segment(0), Some(segment(0)));
}

#[test]
fn worker_loss_mid_segment_still_completes_every_segment_once() {
    // Pool of two: slot 0 is local, slot 1 is a remote worker.
    let mut scheduler = Scheduler::new(50, 10, 1, 1, PathBuf::from("out.ivf"));
    assert_eq!(scheduler.connect_remote(idle_connection()), Ok(1));
    let mut delivered: Vec<usize> = Vec::new();

    assert_eq!(scheduler.dispatch_next().unwrap().segment, segment(0));
    assert_eq!(scheduler.dispatch_next().unwrap().segment, segment(1));

    // Both finish their first segment; segment 2 goes to the remote worker.
    delivered.push(scheduler.segment_finished(result(0, 0)).unwrap().segment_no);
    let reaction =
        scheduler.connection_event(1, ConnectionEvent::Completed(result(1, 1))).unwrap();
    delivered.push(reaction.completed.unwrap().segment_no);
    let dispatch = scheduler.apply_update(reaction.update.unwrap()).unwrap();
    assert_eq!((dispatch.slot, dispatch.segment), (1, segment(2)));
    let dispatch = scheduler.apply_update(freed(0)).unwrap();
    assert_eq!((dispatch.slot, dispatch.segment), (0, segment(3)));

    // The remote worker is lost while it encodes segment 2.
    let reaction = scheduler.connection_event(1, ConnectionEvent::Failed).unwrap();
    assert_eq!(reaction.interrupted.unwrap().segment_idx, 2);
    assert!(scheduler.apply_update(reaction.update.unwrap()).is_none());
    assert_eq!(scheduler.next_segment(), Some(segment(2)));
    assert!(!scheduler.is_done(2));
    assert!(scheduler.registry().is_vacant(1));

    // A late result of the lost worker finds nothing to answer.
    assert_eq!(scheduler.segment_finished(result(2, 1)), Err(ScheduleError::NothingInFlight));
    assert!(scheduler
        .connection_event(1, ConnectionEvent::Completed(result(2, 1)))
        .is_err());

    // The local slot finishes segment 3 and takes segment 2 next.
    delivered.push(scheduler.segment_finished(result(3, 0)).unwrap().segment_no);
    let dispatch = scheduler.apply_update(freed(0)).unwrap();
    assert_eq!((dispatch.slot, dispatch.segment), (0, segment(2)));

    // A new remote worker joins and takes segment 4.
    assert_eq!(scheduler.connect_remote(idle_connection()), Ok(1));
    let dispatch = scheduler.apply_update(freed(1)).unwrap();
    assert_eq!((dispatch.slot, dispatch.segment), (1, segment(4)));

    delivered.push(scheduler.segment_finished(result(2, 0)).unwrap().segment_no);
    assert!(!scheduler.is_complete());
    let reaction =
        scheduler.connection_event(1, ConnectionEvent::Completed(result(4, 1))).unwrap();
    delivered.push(reaction.completed.unwrap().segment_no);
    assert!(scheduler.apply_update(reaction.update.unwrap()).is_none());
    assert!(scheduler.apply_update(freed(0)).is_none());

    assert!(scheduler.is_complete());
    delivered.sort();
    assert_eq!(delivered, vec![0, 1, 2, 3, 4]);
    for k in 0..5 {
        assert!(scheduler.is_done(k));
        assert_eq!(scheduler.segment_finished(result(k, 0)), Err(ScheduleError::NothingInFlight));
    }
}

#[test]
fn every_segment_is_in_exactly_one_place() {
    let mut scheduler = Scheduler::new(70, 10, 1, 2, PathBuf::from("out.ivf"));
    scheduler.connect_remote(idle_connection()).unwrap();
    scheduler.connect_remote(idle_connection()).unwrap();
    let check = |scheduler: &Scheduler| {
        let mut held = 0;
        for slot in 0..3 {
            if let Some(segment) = scheduler.registry().in_flight_segment(slot) {
                held += 1;
                assert!(!scheduler.is_done(segment.segment_idx));
                assert_eq!(scheduler.registry().slot_holding(segment.segment_idx), Some(slot));
            }
        }
        let done = (0..7).filter(|k| scheduler.is_done(*k)).count();
        assert_eq!(held + done + scheduler.pending(), 7);
    };
    check(&scheduler);
    while scheduler.dispatch_next().is_some() {
        check(&scheduler);
    }
    scheduler.segment_finished(result(0, 0)).unwrap();
    check(&scheduler);
    scheduler.connection_event(2, ConnectionEvent::Failed).unwrap();
    check(&scheduler);
    scheduler.slot_lost(1).unwrap();
    check(&scheduler);
    scheduler.dispatch_next().unwrap();
    check(&scheduler);
    assert_eq!(scheduler.registry().in_flight_segment(0), Some(segment(1)));
}

#[test]
fn cancelled_encode_reports_every_assignment() {
    let mut scheduler = Scheduler::new(50, 10, 1, 2, PathBuf::from("out.ivf"));
    scheduler.connect_remote(idle_connection()).unwrap();
    scheduler.dispatch(0).unwrap();
    scheduler.dispatch(1).unwrap();
    let report = scheduler.cancel();
    assert_eq!(report.len(), 3);
    assert_eq!(report[0].interrupted.as_ref().unwrap().segment_idx, 0);
    assert!(!report[0].close);
    assert_eq!(report[1].interrupted.as_ref().unwrap().segment_idx, 1);
    assert!(report[1].close);
    assert!(report[2].interrupted.is_none());
    assert!(!report[2].close);
}
