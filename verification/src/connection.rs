//! The protocol of one remote worker connection.
//!
//! A connection moves through `Connecting`, `Handshaking`, `Idle` and
//! `Assigned` and ends in `Disconnected`. The transport itself lives with
//! the embedding program: it turns what it reads from the socket into a
//! [`ConnectionEvent`], hands it to [`ActiveConnection::handle`], and
//! carries out the [`Reaction`] it gets back.

use crate::segment::{EncodeInfo, Segment, SegmentData};
use crate::status::{SlotStatus, WorkerStatusUpdate};
use crate::video::VideoDetails;
use uuid::Uuid;
use vstd::prelude::*;

verus! {

/// `uuid::Uuid`, the identifier a remote worker answers the handshake with.
/// It is stored and handed on, never looked into.
#[verifier::external_type_specification]
#[verifier::external_body]
pub struct ExUuid(Uuid);

/// Where a connection stands in the protocol.
#[derive(Debug, Clone, Copy, PartialEq, Eq, Structural)]
pub enum ConnectionState {
    /// The transport is being established; nothing was exchanged yet.
    Connecting,
    /// The video parameters were sent; the peer has not answered yet.
    Handshaking,
    /// The peer is identified and holds no segment.
    Idle,
    /// The peer is encoding one segment.
    Assigned,
    /// The connection is gone for good.
    Disconnected,
}

/// State of one remote worker.
#[derive(Debug, Clone)]
pub struct ActiveConnection {
    /// Identifier the peer confirmed the handshake with; absent until then.
    pub connection_id: Option<Uuid>,
    /// Index of the pool slot this connection occupies.
    pub slot_in_worker: usize,
    /// Video parameters sent to the peer.
    pub video_info: VideoDetails,
    /// The segment the peer is encoding, while it is encoding one.
    pub encode_info: Option<EncodeInfo>,
    /// Where the connection stands in the protocol.
    pub state: ConnectionState,
}

/// Something that happened on a connection.
#[derive(Debug)]
pub enum ConnectionEvent {
    /// The transport is established.
    Opened,
    /// The peer acknowledged the handshake and named its identifier.
    Acknowledged(Uuid),
    /// The peer rejected the handshake, or did not answer in time.
    Rejected,
    /// The scheduler assigns a segment to the peer.
    Assign(EncodeInfo),
    /// The peer reports how many frames of its segment are encoded.
    Progress(usize),
    /// The peer delivers a completed segment.
    Completed(SegmentData),
    /// The socket failed, a message was malformed, the protocol versions
    /// differ, or the peer closed the connection.
    Failed,
}

/// A message to write to the peer.
#[derive(Debug, Clone, Copy, PartialEq, Eq)]
pub enum Outgoing {
    /// The handshake: the parameters of the video to encode.
    Handshake(VideoDetails),
    /// One assignment: the segment to encode.
    Assignment(Segment),
}

/// A notification for whoever watches the encode.
#[derive(Debug, Clone, Copy, PartialEq, Eq, Structural)]
pub struct ProgressNote {
    pub slot: usize,
    pub segment_idx: usize,
    pub frames_done: usize,
}

/// What has to be done after an event was handled.
#[derive(Debug)]
pub struct Reaction {
    /// Message to write to the peer.
    pub send: Option<Outgoing>,
    /// Event to put on the notification channel.
    pub update: Option<WorkerStatusUpdate>,
    /// Notification to put on the progress channel.
    pub progress: Option<ProgressNote>,
    /// Completed segment to hand to output assembly.
    pub completed: Option<SegmentData>,
    /// Assignment that was in flight when the connection was lost.
    pub interrupted: Option<EncodeInfo>,
    /// Assignment that the connection could not take.
    pub refused: Option<EncodeInfo>,
    /// Whether the socket is to be closed.
    pub close: bool,
}

impl Reaction {
    /// The reaction that asks for nothing.
    pub open spec fn nothing() -> Reaction {
        Reaction {
            send: None,
            update: None,
            progress: None,
            completed: None,
            interrupted: None,
            refused: None,
            close: false,
        }
    }

    /// The reaction that asks for nothing.
    pub fn none() -> (reaction: Reaction)
        ensures
            reaction == Reaction::nothing(),
    {
        Reaction {
            send: None,
            update: None,
            progress: None,
            completed: None,
            interrupted: None,
            refused: None,
            close: false,
        }
    }
}

/// The event that tells the scheduler that `slot` became available.
pub open spec fn slot_available(slot: usize, status: Option<SlotStatus>) -> WorkerStatusUpdate {
    WorkerStatusUpdate { status, slot_delta: Some((slot, true)) }
}

/// The event that tells the scheduler that `slot` stopped being available.
pub open spec fn slot_unavailable(slot: usize, status: Option<SlotStatus>) -> WorkerStatusUpdate {
    WorkerStatusUpdate { status, slot_delta: Some((slot, false)) }
}

impl ActiveConnection {
    /// The invariant that ties the fields to the protocol state: a peer is
    /// identified from `Idle` on, and a segment is held in `Assigned` and in
    /// no other state.
    pub open spec fn well_formed(&self) -> bool {
        match self.state {
            ConnectionState::Connecting | ConnectionState::Handshaking => {
                self.connection_id is None && self.encode_info is None
            },
            ConnectionState::Idle => self.connection_id is Some && self.encode_info is None,
            ConnectionState::Assigned => self.connection_id is Some && self.encode_info is Some,
            ConnectionState::Disconnected => self.encode_info is None,
        }
    }

    /// The connection after it was lost, in whatever state it was.
    pub open spec fn lost(self) -> ActiveConnection {
        ActiveConnection { encode_info: None, state: ConnectionState::Disconnected, ..self }
    }

    /// What losing the connection asks for: the socket is closed, the slot
    /// is reported unavailable, and an assignment in flight is handed back
    /// as interrupted.
    pub open spec fn loss(self) -> Reaction {
        Reaction {
            update: Some(
                slot_unavailable(
                    self.slot_in_worker,
                    if self.state == ConnectionState::Assigned {
                        Some(SlotStatus::Idle)
                    } else {
                        None
                    },
                ),
            ),
            interrupted: self.encode_info,
            close: true,
            ..Reaction::nothing()
        }
    }

    /// The protocol: the connection and the reaction that follow from
    /// `event` arriving at `self`.
    ///
    /// An event that the current state does not wait for is a protocol
    /// error and loses the connection, with two exceptions: an assignment
    /// that cannot be taken is refused and changes nothing, and a
    /// connection that is already lost ignores everything else.
    pub open spec fn step(self, event: ConnectionEvent) -> (ActiveConnection, Reaction) {
        match (self.state, event) {
            (ConnectionState::Idle, ConnectionEvent::Assign(info)) => (
                ActiveConnection {
                    encode_info: Some(info),
                    state: ConnectionState::Assigned,
                    ..self
                },
                Reaction {
                    send: Some(Outgoing::Assignment(info.segment())),
                    update: Some(
                        slot_unavailable(self.slot_in_worker, Some(SlotStatus::Requested)),
                    ),
                    ..Reaction::nothing()
                },
            ),
            (_, ConnectionEvent::Assign(info)) => (
                self,
                Reaction { refused: Some(info), ..Reaction::nothing() },
            ),
            (ConnectionState::Disconnected, _) => (self, Reaction::nothing()),
            (ConnectionState::Connecting, ConnectionEvent::Opened) => (
                ActiveConnection { state: ConnectionState::Handshaking, ..self },
                Reaction {
                    send: Some(Outgoing::Handshake(self.video_info)),
                    ..Reaction::nothing()
                },
            ),
            (ConnectionState::Handshaking, ConnectionEvent::Acknowledged(id)) => (
                ActiveConnection {
                    connection_id: Some(id),
                    state: ConnectionState::Idle,
                    ..self
                },
                Reaction {
                    update: Some(slot_available(self.slot_in_worker, None)),
                    ..Reaction::nothing()
                },
            ),
            (ConnectionState::Assigned, ConnectionEvent::Progress(frames_done)) => {
                if self.encode_info is Some {
                    (
                        self,
                        Reaction {
                            progress: Some(
                                ProgressNote {
                                    slot: self.slot_in_worker,
                                    segment_idx: self.encode_info->0.segment_idx,
                                    frames_done,
                                },
                            ),
                            ..Reaction::nothing()
                        },
                    )
                } else {
                    (self.lost(), self.loss())
                }
            },
            (ConnectionState::Assigned, ConnectionEvent::Completed(data)) => {
                if self.encode_info is Some && data.answers(self.encode_info->0) {
                    (
                        ActiveConnection {
                            encode_info: None,
                            state: ConnectionState::Idle,
                            ..self
                        },
                        Reaction {
                            update: Some(
                                slot_available(self.slot_in_worker, Some(SlotStatus::Idle)),
                            ),
                            completed: Some(SegmentData { slot: self.slot_in_worker, ..data }),
                            ..Reaction::nothing()
                        },
                    )
                } else {
                    (self.lost(), self.loss())
                }
            },
            _ => (self.lost(), self.loss()),
        }
    }

    /// A connection whose transport is still being established, for the
    /// pool slot `slot_in_worker`.
    pub fn new(slot_in_worker: usize, video_info: VideoDetails) -> (connection: ActiveConnection)
        ensures
            connection == (ActiveConnection {
                connection_id: None,
                slot_in_worker,
                video_info,
                encode_info: None,
                state: ConnectionState::Connecting,
            }),
            connection.well_formed(),
    {
        ActiveConnection {
            connection_id: None,
            slot_in_worker,
            video_info,
            encode_info: None,
            state: ConnectionState::Connecting,
        }
    }

    /// Loses the connection and says what that asks for.
    fn lose(&mut self) -> (reaction: Reaction)
        ensures
            *final(self) == old(self).lost(),
            reaction == old(self).loss(),
    {
        let was_assigned = match self.state {
            ConnectionState::Assigned => true,
            _ => false,
        };
        let interrupted = self.encode_info.take();
        self.state = ConnectionState::Disconnected;
        Reaction {
            send: None,
            update: Some(
                WorkerStatusUpdate {
                    status: if was_assigned {
                        Some(SlotStatus::Idle)
                    } else {
                        None
                    },
                    slot_delta: Some((self.slot_in_worker, false)),
                },
            ),
            progress: None,
            completed: None,
            interrupted,
            refused: None,
            close: true,
        }
    }

    /// Takes the connection one step through the protocol.
    pub fn handle(&mut self, event: ConnectionEvent) -> (reaction: Reaction)
        ensures
            (*final(self), reaction) == old(self).step(event),
    {
        match event {
            ConnectionEvent::Assign(info) => {
                match self.state {
                    ConnectionState::Idle => {
                        let segment = info.to_segment();
                        self.encode_info = Some(info);
                        self.state = ConnectionState::Assigned;
                        let mut reaction = Reaction::none();
                        reaction.send = Some(Outgoing::Assignment(segment));
                        reaction.update = Some(
                            WorkerStatusUpdate {
                                status: Some(SlotStatus::Requested),
                                slot_delta: Some((self.slot_in_worker, false)),
                            },
                        );
                        reaction
                    },
                    _ => {
                        let mut reaction = Reaction::none();
                        reaction.refused = Some(info);
                        reaction
                    },
                }
            },
            ConnectionEvent::Opened => {
                match self.state {
                    ConnectionState::Disconnected => Reaction::none(),
                    ConnectionState::Connecting => {
                        self.state = ConnectionState::Handshaking;
                        let mut reaction = Reaction::none();
                        reaction.send = Some(Outgoing::Handshake(self.video_info));
                        reaction
                    },
                    _ => self.lose(),
                }
            },
            ConnectionEvent::Acknowledged(id) => {
                match self.state {
                    ConnectionState::Disconnected => Reaction::none(),
                    ConnectionState::Handshaking => {
                        self.connection_id = Some(id);
                        self.state = ConnectionState::Idle;
                        let mut reaction = Reaction::none();
                        reaction.update = Some(
                            WorkerStatusUpdate {
                                status: None,
                                slot_delta: Some((self.slot_in_worker, true)),
                            },
                        );
                        reaction
                    },
                    _ => self.lose(),
                }
            },
            ConnectionEvent::Progress(frames_done) => {
                match self.state {
                    ConnectionState::Disconnected => Reaction::none(),
                    ConnectionState::Assigned => {
                        match &self.encode_info {
                            Some(info) => {
                                let mut reaction = Reaction::none();
                                reaction.progress = Some(
                                    ProgressNote {
                                        slot: self.slot_in_worker,
                                        segment_idx: info.segment_idx,
                                        frames_done,
                                    },
                                );
                                reaction
                            },
                            None => self.lose(),
                        }
                    },
                    _ => self.lose(),
                }
            },
            ConnectionEvent::Completed(data) => {
                match self.state {
                    ConnectionState::Disconnected => Reaction::none(),
                    ConnectionState::Assigned => {
                        let answered = match &self.encode_info {
                            Some(info) => data.is_answer_to(info),
                            None => false,
                        };
                        if answered {
                            self.encode_info = None;
                            self.state = ConnectionState::Idle;
                            let mut data = data;
                            data.slot = self.slot_in_worker;
                            let mut reaction = Reaction::none();
                            reaction.update = Some(
                                WorkerStatusUpdate {
                                    status: Some(SlotStatus::Idle),
                                    slot_delta: Some((self.slot_in_worker, true)),
                                },
                            );
                            reaction.completed = Some(data);
                            reaction
                        } else {
                            self.lose()
                        }
                    },
                    _ => self.lose(),
                }
            },
            ConnectionEvent::Rejected | ConnectionEvent::Failed => {
                match self.state {
                    ConnectionState::Disconnected => Reaction::none(),
                    _ => self.lose(),
                }
            },
        }
    }
}

/// One step of the protocol keeps a consistent connection consistent, at
/// its position, and never replaces an identifier that the peer has
/// confirmed.
pub proof fn lemma_step_keeps_well_formed(connection: ActiveConnection, event: ConnectionEvent)
    requires
        connection.well_formed(),
    ensures
        connection.step(event).0.well_formed(),
        connection.step(event).0.slot_in_worker == connection.slot_in_worker,
        connection.step(event).0.video_info == connection.video_info,
        connection.connection_id is Some ==> connection.step(event).0.connection_id
            == connection.connection_id,
{
}

/// What a protocol step does to the segment that the connection holds.
///
/// A step that delivers a completed segment or reports an interrupted one
/// takes the held segment away, and it never does both. A delivered result
/// answers the held assignment and carries the connection's slot. Any other
/// step, unless it is an accepted assignment, leaves the held segment as it
/// was. A step emits a status event exactly when it changes the protocol
/// state other than from `Connecting` to `Handshaking`.
pub proof fn lemma_step_outcomes(connection: ActiveConnection, event: ConnectionEvent)
    requires
        connection.well_formed(),
    ensures
        ({
            let (next, reaction) = connection.step(event);
            &&& !(reaction.completed is Some && reaction.interrupted is Some)
            &&& reaction.completed is Some ==> {
                &&& connection.encode_info is Some
                &&& next.encode_info is None
                &&& next.state == ConnectionState::Idle
                &&& reaction.completed->0.answers(connection.encode_info->0)
                &&& reaction.completed->0.slot == connection.slot_in_worker
            }
            &&& reaction.interrupted is Some ==> {
                &&& reaction.interrupted == connection.encode_info
                &&& next.encode_info is None
                &&& next.state == ConnectionState::Disconnected
            }
            &&& reaction.completed is None && reaction.interrupted is None && !(event is Assign)
                ==> next.encode_info == connection.encode_info
            &&& event is Assign ==> reaction.completed is None && reaction.interrupted is None
            &&& reaction.update is Some <==> next.state != connection.state && !(connection.state
                == ConnectionState::Connecting && next.state == ConnectionState::Handshaking)
            &&& next.state == ConnectionState::Disconnected && connection.state
                != ConnectionState::Disconnected ==> reaction.close && reaction.interrupted
                == connection.encode_info
        }),
{
}

} // verus!
