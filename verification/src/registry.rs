//! The worker slot registry: the fixed-size pool of execution contexts and
//! the one segment that each of them may hold.
//!
//! A position of the pool is vacant, holds a local worker, or holds the
//! connection of a remote worker. Only the scheduler mutates the registry;
//! workers report through events.

use crate::connection::{
    lemma_step_keeps_well_formed, ActiveConnection, ConnectionEvent, ConnectionState, Reaction,
};
use crate::segment::{EncodeInfo, Segment};
use crate::status::SlotStatus;
use vstd::prelude::*;

verus! {

/// One unit of encoding capacity.
#[derive(Debug)]
pub enum Slot {
    /// A local execution context, named by its index.
    Local(usize),
    /// A remote worker, reached over the connection that the slot owns.
    Remote(Box<ActiveConnection>),
}

/// Why the registry refused an operation. A refused operation changes
/// nothing.
#[derive(Debug, Clone, Copy, PartialEq, Eq, Structural)]
pub enum RegistryError {
    /// The slot index lies outside the pool.
    OutOfRange,
    /// No worker is attached at the slot.
    Vacant,
    /// The slot already holds an assignment.
    Occupied,
    /// The remote worker at the slot is not idle, or the connection offered
    /// to the pool is not one that can still take work.
    NotReady,
    /// The slot holds no assignment.
    NoAssignment,
    /// The slot holds a local worker, not a connection.
    NotRemote,
    /// Every position of the pool is taken.
    PoolFull,
}

/// The pool of slots.
pub struct SlotRegistry {
    slots: Vec<Option<Slot>>,
    local_work: Vec<Option<EncodeInfo>>,
    status: SlotStatus,
}

/// The mathematical value of a [`SlotRegistry`].
pub struct RegistryView {
    /// What is attached at each position of the pool.
    pub slots: Seq<Option<Slot>>,
    /// The assignment held by the local worker at each position.
    pub local_work: Seq<Option<EncodeInfo>>,
    /// The status that workers reported last.
    pub status: SlotStatus,
}

impl View for SlotRegistry {
    type V = RegistryView;

    closed spec fn view(&self) -> RegistryView {
        RegistryView { slots: self.slots@, local_work: self.local_work@, status: self.status }
    }
}

/// Whether `connection` can be attached to a pool: it is alive, consistent
/// and holds no segment.
pub open spec fn attachable(connection: ActiveConnection) -> bool {
    &&& connection.well_formed()
    &&& connection.state != ConnectionState::Assigned
    &&& connection.state != ConnectionState::Disconnected
}

impl RegistryView {
    /// Number of positions in the pool.
    pub open spec fn pool_size(self) -> int {
        self.slots.len() as int
    }

    /// The invariant of the registry: every local worker carries the index
    /// of its position, every connection knows its position, is consistent
    /// and alive, and only local workers use the local bookkeeping.
    pub open spec fn well_formed(self) -> bool {
        &&& self.local_work.len() == self.slots.len()
        &&& forall|i: int|
            0 <= i < self.slots.len() ==> match #[trigger] self.slots[i] {
                Some(Slot::Local(k)) => k == i,
                Some(Slot::Remote(c)) => {
                    &&& c.slot_in_worker == i
                    &&& c.well_formed()
                    &&& c.state != ConnectionState::Disconnected
                    &&& self.local_work[i] is None
                },
                None => self.local_work[i] is None,
            }
    }

    /// The assignment that slot `i` holds. A position outside the pool
    /// holds none.
    pub open spec fn in_flight(self, i: int) -> Option<EncodeInfo> {
        if 0 <= i < self.pool_size() {
            match self.slots[i] {
                Some(Slot::Local(_)) => self.local_work[i],
                Some(Slot::Remote(c)) => c.encode_info,
                None => None,
            }
        } else {
            None
        }
    }

    /// Whether slot `i` can take an assignment: a worker is attached, it
    /// holds nothing, and a remote worker is idle.
    pub open spec fn is_free(self, i: int) -> bool {
        &&& 0 <= i < self.pool_size()
        &&& match self.slots[i] {
            Some(Slot::Local(_)) => self.local_work[i] is None,
            Some(Slot::Remote(c)) => c.state == ConnectionState::Idle && c.encode_info is None,
            None => false,
        }
    }

    /// Whether no worker is attached at position `i`.
    pub open spec fn is_vacant(self, i: int) -> bool {
        0 <= i < self.pool_size() && self.slots[i] is None
    }

    /// Whether no slot holds an assignment.
    pub open spec fn all_idle(self) -> bool {
        forall|i: int| 0 <= i < self.pool_size() ==> (#[trigger] self.in_flight(i)) is None
    }

    /// A pool with `local_slots` local workers in its first positions and
    /// `remote_slots` vacant positions after them.
    pub open spec fn initial(local_slots: int, remote_slots: int) -> RegistryView {
        RegistryView {
            slots: Seq::new(
                (local_slots + remote_slots) as nat,
                |i: int|
                    if i < local_slots {
                        Some(Slot::Local(i as usize))
                    } else {
                        None
                    },
            ),
            local_work: Seq::new((local_slots + remote_slots) as nat, |i: int| None),
            status: SlotStatus::Idle,
        }
    }

    /// Why `assign` refuses slot `slot`, if it does.
    pub open spec fn assign_refusal(self, slot: int) -> Option<RegistryError> {
        if !(0 <= slot < self.pool_size()) {
            Some(RegistryError::OutOfRange)
        } else if self.slots[slot] is None {
            Some(RegistryError::Vacant)
        } else if self.in_flight(slot) is Some {
            Some(RegistryError::Occupied)
        } else if !self.is_free(slot) {
            Some(RegistryError::NotReady)
        } else {
            None
        }
    }

    /// The pool after `info` was assigned to the free slot `slot`, and what
    /// the assignment asks for: nothing for a local worker, the protocol's
    /// reaction for a remote one.
    pub open spec fn assigned(self, slot: int, info: EncodeInfo) -> (RegistryView, Reaction) {
        match self.slots[slot] {
            Some(Slot::Remote(c)) => {
                let (next, reaction) = c.step(ConnectionEvent::Assign(info));
                (
                    RegistryView {
                        slots: self.slots.update(slot, Some(Slot::Remote(Box::new(next)))),
                        ..self
                    },
                    reaction,
                )
            },
            _ => (
                RegistryView { local_work: self.local_work.update(slot, Some(info)), ..self },
                Reaction::nothing(),
            ),
        }
    }

    /// Why `complete` refuses slot `slot`, if it does.
    pub open spec fn complete_refusal(self, slot: int) -> Option<RegistryError> {
        if !(0 <= slot < self.pool_size()) {
            Some(RegistryError::OutOfRange)
        } else if self.slots[slot] is None {
            Some(RegistryError::Vacant)
        } else if self.in_flight(slot) is None {
            Some(RegistryError::NoAssignment)
        } else {
            None
        }
    }

    /// The pool after the assignment of slot `slot` was cleared. A remote
    /// worker is idle again.
    pub open spec fn completed(self, slot: int) -> RegistryView {
        match self.slots[slot] {
            Some(Slot::Remote(c)) => RegistryView {
                slots: self.slots.update(
                    slot,
                    Some(
                        Slot::Remote(
                            Box::new(
                                ActiveConnection {
                                    encode_info: None,
                                    state: ConnectionState::Idle,
                                    ..*c
                                },
                            ),
                        ),
                    ),
                ),
                ..self
            },
            _ => RegistryView { local_work: self.local_work.update(slot, None), ..self },
        }
    }

    /// Whether slot `i` holds the segment with ordinal `segment_idx`.
    pub open spec fn holds_segment(self, i: int, segment_idx: int) -> bool {
        self.in_flight(i) is Some && self.in_flight(i)->0.segment_idx == segment_idx
    }

    /// The pool after `connection` was attached at the vacant position
    /// `slot`; the connection is told its position.
    pub open spec fn connected(self, slot: int, connection: ActiveConnection) -> RegistryView {
        RegistryView {
            slots: self.slots.update(
                slot,
                Some(
                    Slot::Remote(
                        Box::new(ActiveConnection { slot_in_worker: slot as usize, ..connection }),
                    ),
                ),
            ),
            ..self
        }
    }

    /// Why the registry refuses to treat slot `slot` as a remote worker,
    /// if it does.
    pub open spec fn remote_refusal(self, slot: int) -> Option<RegistryError> {
        if !(0 <= slot < self.pool_size()) {
            Some(RegistryError::OutOfRange)
        } else {
            match self.slots[slot] {
                None => Some(RegistryError::Vacant),
                Some(Slot::Local(_)) => Some(RegistryError::NotRemote),
                Some(Slot::Remote(_)) => None,
            }
        }
    }

    /// The connection at the remote slot `slot`.
    pub open spec fn connection(self, slot: int) -> ActiveConnection {
        match self.slots[slot] {
            Some(Slot::Remote(c)) => *c,
            _ => arbitrary(),
        }
    }

    /// The pool after position `slot` was vacated.
    pub open spec fn vacated(self, slot: int) -> RegistryView {
        RegistryView { slots: self.slots.update(slot, None), ..self }
    }

    /// The pool after `event` arrived at the remote slot `slot`, and the
    /// protocol's reaction. A connection that the event loses leaves the
    /// pool.
    pub open spec fn stepped(self, slot: int, event: ConnectionEvent) -> (RegistryView, Reaction) {
        let (next, reaction) = self.connection(slot).step(event);
        if next.state == ConnectionState::Disconnected {
            (self.vacated(slot), reaction)
        } else {
            (
                RegistryView {
                    slots: self.slots.update(slot, Some(Slot::Remote(Box::new(next)))),
                    ..self
                },
                reaction,
            )
        }
    }
}

impl SlotRegistry {
    /// A pool with `local_slots` local workers in its first positions and
    /// room for `remote_slots` remote workers after them.
    pub fn new(local_slots: usize, remote_slots: usize) -> (registry: SlotRegistry)
        requires
            local_slots + remote_slots <= usize::MAX,
        ensures
            registry@ == RegistryView::initial(local_slots as int, remote_slots as int),
            registry@.well_formed(),
    {
        let size: usize = local_slots + remote_slots;
        let mut slots: Vec<Option<Slot>> = Vec::new();
        let mut local_work: Vec<Option<EncodeInfo>> = Vec::new();
        let mut i: usize = 0;
        while i < size
            invariant
                i <= size,
                size == local_slots + remote_slots,
                slots@.len() == i,
                local_work@.len() == i,
                forall|j: int|
                    0 <= j < i ==> slots@[j] == if j < local_slots {
                        Some(Slot::Local(j as usize))
                    } else {
                        None::<Slot>
                    },
                forall|j: int| 0 <= j < i ==> local_work@[j] is None,
            decreases size - i,
        {
            if i < local_slots {
                slots.push(Some(Slot::Local(i)));
            } else {
                slots.push(None);
            }
            local_work.push(None);
            i += 1;
        }
        let registry = SlotRegistry { slots, local_work, status: SlotStatus::Idle };
        proof {
            let expected = RegistryView::initial(local_slots as int, remote_slots as int);
            assert(registry@.slots =~= expected.slots);
            assert(registry@.local_work =~= expected.local_work);
        }
        registry
    }

    /// Number of positions in the pool.
    pub fn pool_size(&self) -> (size: usize)
        ensures
            size == self@.pool_size(),
    {
        self.slots.len()
    }

    /// The status that workers reported last.
    pub fn status(&self) -> (status: SlotStatus)
        ensures
            status == self@.status,
    {
        self.status
    }

    /// Records the status that a worker reported.
    pub fn set_status(&mut self, status: SlotStatus)
        ensures
            final(self)@ == (RegistryView { status, ..old(self)@ }),
    {
        self.status = status;
    }

    /// Whether slot `slot` can take an assignment.
    pub fn is_free(&self, slot: usize) -> (free: bool)
        requires
            self@.well_formed(),
        ensures
            free == self@.is_free(slot as int),
    {
        if slot >= self.slots.len() {
            return false;
        }
        match &self.slots[slot] {
            Some(Slot::Local(_)) => self.local_work[slot].is_none(),
            Some(Slot::Remote(connection)) => {
                let idle = match connection.state {
                    ConnectionState::Idle => true,
                    _ => false,
                };
                idle && connection.encode_info.is_none()
            },
            None => false,
        }
    }

    /// Whether no worker is attached at position `slot`.
    pub fn is_vacant(&self, slot: usize) -> (vacant: bool)
        requires
            self@.well_formed(),
        ensures
            vacant == self@.is_vacant(slot as int),
    {
        slot < self.slots.len() && self.slots[slot].is_none()
    }

    /// Whether slot `slot` holds a remote worker.
    pub fn is_remote(&self, slot: usize) -> (remote: bool)
        requires
            self@.well_formed(),
        ensures
            remote == (self@.remote_refusal(slot as int) is None),
    {
        if slot >= self.slots.len() {
            return false;
        }
        match &self.slots[slot] {
            Some(Slot::Remote(_)) => true,
            _ => false,
        }
    }

    /// The segment that slot `slot` holds, if it holds one.
    pub fn in_flight_segment(&self, slot: usize) -> (segment: Option<Segment>)
        requires
            self@.well_formed(),
        ensures
            match self@.in_flight(slot as int) {
                Some(info) => segment == Some(info.segment()),
                None => segment is None,
            },
    {
        if slot >= self.slots.len() {
            return None;
        }
        match &self.slots[slot] {
            Some(Slot::Local(_)) => match &self.local_work[slot] {
                Some(info) => Some(info.to_segment()),
                None => None,
            },
            Some(Slot::Remote(connection)) => match &connection.encode_info {
                Some(info) => Some(info.to_segment()),
                None => None,
            },
            None => None,
        }
    }

    /// The lowest slot that can take an assignment.
    pub fn lowest_free(&self) -> (found: Option<usize>)
        requires
            self@.well_formed(),
        ensures
            match found {
                Some(slot) => self@.is_free(slot as int) && forall|j: int|
                    0 <= j < slot ==> !self@.is_free(j),
                None => forall|j: int| !self@.is_free(j),
            },
    {
        let mut i: usize = 0;
        while i < self.slots.len()
            invariant
                self@.well_formed(),
                i <= self@.pool_size(),
                forall|j: int| 0 <= j < i ==> !self@.is_free(j),
            decreases self@.pool_size() - i,
        {
            if self.is_free(i) {
                return Some(i);
            }
            i += 1;
        }
        None
    }

    /// The lowest position at which no worker is attached.
    pub fn lowest_vacant(&self) -> (found: Option<usize>)
        requires
            self@.well_formed(),
        ensures
            match found {
                Some(slot) => self@.is_vacant(slot as int) && forall|j: int|
                    0 <= j < slot ==> !self@.is_vacant(j),
                None => forall|j: int| !self@.is_vacant(j),
            },
    {
        let mut i: usize = 0;
        while i < self.slots.len()
            invariant
                self@.well_formed(),
                i <= self@.pool_size(),
                forall|j: int| 0 <= j < i ==> !self@.is_vacant(j),
            decreases self@.pool_size() - i,
        {
            if self.is_vacant(i) {
                return Some(i);
            }
            i += 1;
        }
        None
    }

    /// The lowest slot that holds the segment with ordinal `segment_idx`.
    pub fn slot_holding(&self, segment_idx: usize) -> (found: Option<usize>)
        requires
            self@.well_formed(),
        ensures
            match found {
                Some(slot) => self@.holds_segment(slot as int, segment_idx as int) && forall|j: int|
                    0 <= j < slot ==> !self@.holds_segment(j, segment_idx as int),
                None => forall|j: int| !self@.holds_segment(j, segment_idx as int),
            },
    {
        let mut i: usize = 0;
        while i < self.slots.len()
            invariant
                self@.well_formed(),
                i <= self@.pool_size(),
                forall|j: int| 0 <= j < i ==> !self@.holds_segment(j, segment_idx as int),
            decreases self@.pool_size() - i,
        {
            match self.in_flight_segment(i) {
                Some(segment) => {
                    if segment.segment_idx == segment_idx {
                        return Some(i);
                    }
                },
                None => {},
            }
            i += 1;
        }
        None
    }

    /// Whether no slot holds an assignment.
    pub fn all_idle(&self) -> (idle: bool)
        requires
            self@.well_formed(),
        ensures
            idle == self@.all_idle(),
    {
        let mut i: usize = 0;
        while i < self.slots.len()
            invariant
                self@.well_formed(),
                i <= self@.pool_size(),
                forall|j: int| 0 <= j < i ==> (#[trigger] self@.in_flight(j)) is None,
            decreases self@.pool_size() - i,
        {
            if self.in_flight_segment(i).is_some() {
                return false;
            }
            i += 1;
        }
        true
    }
}

impl SlotRegistry {
    /// Hands the assignment `info` to slot `slot`.
    ///
    /// Fails, changing nothing, when the slot lies outside the pool, has no
    /// worker, already holds an assignment, or holds a remote worker that
    /// is not idle. Otherwise the slot holds `info` from now on, and the
    /// result says what the assignment asks for.
    pub fn assign(&mut self, slot: usize, info: EncodeInfo) -> (result: Result<
        Reaction,
        RegistryError,
    >)
        requires
            old(self)@.well_formed(),
        ensures
            final(self)@.well_formed(),
            match result {
                Ok(reaction) => old(self)@.assign_refusal(slot as int) is None && (
                    final(self)@,
                    reaction,
                ) == old(self)@.assigned(slot as int, info),
                Err(e) => old(self)@.assign_refusal(slot as int) == Some(e) && final(self)@
                    == old(self)@,
            },
    {
        if slot >= self.slots.len() {
            return Err(RegistryError::OutOfRange);
        }
        if self.slots[slot].is_none() {
            return Err(RegistryError::Vacant);
        }
        if self.in_flight_segment(slot).is_some() {
            return Err(RegistryError::Occupied);
        }
        if !self.is_free(slot) {
            return Err(RegistryError::NotReady);
        }
        let ghost before = self@;
        let ghost expected = before.assigned(slot as int, info);
        if self.is_remote(slot) {
            let reaction = match &mut self.slots[slot] {
                Some(Slot::Remote(connection)) => connection.handle(ConnectionEvent::Assign(info)),
                _ => Reaction::none(),
            };
            assert(self@.slots =~= expected.0.slots);
            Ok(reaction)
        } else {
            self.local_work.set(slot, Some(info));
            assert(self@.local_work =~= expected.0.local_work);
            Ok(Reaction::none())
        }
    }
}

impl SlotRegistry {
    /// Clears the assignment of slot `slot` and returns it; the slot can
    /// take the next segment.
    ///
    /// Fails, changing nothing, when the slot lies outside the pool, has no
    /// worker, or holds no assignment.
    pub fn complete(&mut self, slot: usize) -> (result: Result<EncodeInfo, RegistryError>)
        requires
            old(self)@.well_formed(),
        ensures
            final(self)@.well_formed(),
            match result {
                Ok(info) => {
                    &&& old(self)@.complete_refusal(slot as int) is None
                    &&& old(self)@.in_flight(slot as int) == Some(info)
                    &&& final(self)@ == old(self)@.completed(slot as int)
                },
                Err(e) => old(self)@.complete_refusal(slot as int) == Some(e) && final(self)@
                    == old(self)@,
            },
    {
        if slot >= self.slots.len() {
            return Err(RegistryError::OutOfRange);
        }
        if self.slots[slot].is_none() {
            return Err(RegistryError::Vacant);
        }
        let ghost before = self@;
        let taken = if self.is_remote(slot) {
            match &mut self.slots[slot] {
                Some(Slot::Remote(connection)) => {
                    let taken = connection.encode_info.take();
                    if taken.is_some() {
                        connection.state = ConnectionState::Idle;
                    }
                    taken
                },
                _ => None,
            }
        } else {
            self.local_work[slot].take()
        };
        match taken {
            Some(info) => {
                proof {
                    assert(self@.slots =~= before.completed(slot as int).slots);
                    assert(self@.local_work =~= before.completed(slot as int).local_work);
                }
                Ok(info)
            },
            None => {
                proof {
                    assert(self@.slots =~= before.slots);
                    assert(self@.local_work =~= before.local_work);
                }
                Err(RegistryError::NoAssignment)
            },
        }
    }

    /// Attaches `connection` at the lowest vacant position and returns that
    /// position; the connection is told where it sits.
    ///
    /// Fails, changing nothing and dropping the connection, when the
    /// connection is lost, inconsistent or already holds a segment, and
    /// when no position is vacant.
    pub fn connect_remote(&mut self, connection: ActiveConnection) -> (result: Result<
        usize,
        RegistryError,
    >)
        requires
            old(self)@.well_formed(),
        ensures
            final(self)@.well_formed(),
            match result {
                Ok(slot) => {
                    &&& attachable(connection)
                    &&& old(self)@.is_vacant(slot as int)
                    &&& forall|j: int| 0 <= j < slot ==> !old(self)@.is_vacant(j)
                    &&& final(self)@ == old(self)@.connected(slot as int, connection)
                },
                Err(e) => {
                    &&& final(self)@ == old(self)@
                    &&& !attachable(connection) ==> e == RegistryError::NotReady
                    &&& attachable(connection) ==> e == RegistryError::PoolFull && forall|j: int|
                        !old(self)@.is_vacant(j)
                },
            },
    {
        let consistent = match connection.state {
            ConnectionState::Connecting | ConnectionState::Handshaking => {
                connection.connection_id.is_none() && connection.encode_info.is_none()
            },
            ConnectionState::Idle => {
                connection.connection_id.is_some() && connection.encode_info.is_none()
            },
            _ => false,
        };
        if !consistent {
            return Err(RegistryError::NotReady);
        }
        match self.lowest_vacant() {
            None => Err(RegistryError::PoolFull),
            Some(slot) => {
                let ghost before = self@;
                let mut connection = connection;
                connection.slot_in_worker = slot;
                self.slots.set(slot, Some(Slot::Remote(Box::new(connection))));
                proof {
                    assert(self@.slots =~= before.connected(slot as int, connection).slots);
                }
                Ok(slot)
            },
        }
    }

    /// Detaches the remote worker at slot `slot`: the position becomes
    /// vacant, and the assignment that was in flight there, if any, is
    /// returned for re-dispatch.
    ///
    /// Fails, changing nothing, when the slot lies outside the pool, is
    /// vacant or holds a local worker.
    pub fn disconnect_remote(&mut self, slot: usize) -> (result: Result<
        Option<EncodeInfo>,
        RegistryError,
    >)
        requires
            old(self)@.well_formed(),
        ensures
            final(self)@.well_formed(),
            match result {
                Ok(interrupted) => {
                    &&& old(self)@.remote_refusal(slot as int) is None
                    &&& interrupted == old(self)@.in_flight(slot as int)
                    &&& final(self)@ == old(self)@.vacated(slot as int)
                },
                Err(e) => old(self)@.remote_refusal(slot as int) == Some(e) && final(self)@
                    == old(self)@,
            },
    {
        if slot >= self.slots.len() {
            return Err(RegistryError::OutOfRange);
        }
        if self.slots[slot].is_none() {
            return Err(RegistryError::Vacant);
        }
        if !self.is_remote(slot) {
            return Err(RegistryError::NotRemote);
        }
        let ghost before = self@;
        let detached = self.slots[slot].take();
        proof {
            assert(self@.slots =~= before.vacated(slot as int).slots);
        }
        match detached {
            Some(Slot::Remote(connection)) => {
                let connection: ActiveConnection = *connection;
                Ok(connection.encode_info)
            },
            _ => Ok(None),
        }
    }

    /// Hands `event` to the remote worker at slot `slot` and returns the
    /// protocol's reaction. A connection that the event loses leaves the
    /// pool, so that its position is vacant again.
    ///
    /// Fails, changing nothing and dropping the event, when the slot lies
    /// outside the pool, is vacant or holds a local worker.
    pub fn connection_event(&mut self, slot: usize, event: ConnectionEvent) -> (result: Result<
        Reaction,
        RegistryError,
    >)
        requires
            old(self)@.well_formed(),
        ensures
            final(self)@.well_formed(),
            match result {
                Ok(reaction) => old(self)@.remote_refusal(slot as int) is None && (
                    final(self)@,
                    reaction,
                ) == old(self)@.stepped(slot as int, event),
                Err(e) => old(self)@.remote_refusal(slot as int) == Some(e) && final(self)@
                    == old(self)@,
            },
    {
        if slot >= self.slots.len() {
            return Err(RegistryError::OutOfRange);
        }
        if self.slots[slot].is_none() {
            return Err(RegistryError::Vacant);
        }
        if !self.is_remote(slot) {
            return Err(RegistryError::NotRemote);
        }
        let ghost before = self@;
        let ghost expected = before.stepped(slot as int, event);
        proof {
            lemma_step_keeps_well_formed(before.connection(slot as int), event);
        }
        let (reaction, lost) = match &mut self.slots[slot] {
            Some(Slot::Remote(connection)) => {
                let reaction = connection.handle(event);
                let lost = match connection.state {
                    ConnectionState::Disconnected => true,
                    _ => false,
                };
                (reaction, lost)
            },
            _ => (Reaction::none(), false),
        };
        if lost {
            self.slots.set(slot, None);
        }
        proof {
            assert(self@.slots =~= expected.0.slots);
        }
        Ok(reaction)
    }
}

/// Assigning touches one slot: the slot holds the assignment afterwards,
/// every other slot holds what it held, and the pool keeps its size and its
/// invariant.
pub proof fn lemma_assigned(pool: RegistryView, slot: int, info: EncodeInfo)
    requires
        pool.well_formed(),
        pool.assign_refusal(slot) is None,
    ensures
        pool.is_free(slot),
        pool.assigned(slot, info).0.well_formed(),
        pool.assigned(slot, info).0.pool_size() == pool.pool_size(),
        pool.assigned(slot, info).0.status == pool.status,
        pool.assigned(slot, info).0.in_flight(slot) == Some(info),
        forall|j: int|
            j != slot ==> #[trigger] pool.assigned(slot, info).0.in_flight(j) == pool.in_flight(j),
{
    let next = pool.assigned(slot, info).0;
    assert forall|i: int| 0 <= i < next.slots.len() implies match #[trigger] next.slots[i] {
        Some(Slot::Local(k)) => k == i,
        Some(Slot::Remote(c)) => {
            &&& c.slot_in_worker == i
            &&& c.well_formed()
            &&& c.state != ConnectionState::Disconnected
            &&& next.local_work[i] is None
        },
        None => next.local_work[i] is None,
    } by {
        assert(pool.slots[i] == pool.slots[i]);
    }
}

/// Completing touches one slot: the slot holds nothing afterwards and is
/// free again, every other slot holds what it held, and the pool keeps its
/// size and its invariant.
pub proof fn lemma_completed(pool: RegistryView, slot: int)
    requires
        pool.well_formed(),
        pool.complete_refusal(slot) is None,
    ensures
        pool.completed(slot).well_formed(),
        pool.completed(slot).pool_size() == pool.pool_size(),
        pool.completed(slot).status == pool.status,
        pool.completed(slot).in_flight(slot) is None,
        pool.completed(slot).is_free(slot),
        forall|j: int| j != slot ==> #[trigger] pool.completed(slot).in_flight(j) == pool.in_flight(j),
{
    let next = pool.completed(slot);
    assert forall|i: int| 0 <= i < next.slots.len() implies match #[trigger] next.slots[i] {
        Some(Slot::Local(k)) => k == i,
        Some(Slot::Remote(c)) => {
            &&& c.slot_in_worker == i
            &&& c.well_formed()
            &&& c.state != ConnectionState::Disconnected
            &&& next.local_work[i] is None
        },
        None => next.local_work[i] is None,
    } by {
        assert(pool.slots[i] == pool.slots[i]);
    }
}

/// Attaching a connection touches one vacant position and brings no
/// assignment with it.
pub proof fn lemma_connected(pool: RegistryView, slot: int, connection: ActiveConnection)
    requires
        pool.well_formed(),
        pool.is_vacant(slot),
        slot <= usize::MAX,
        attachable(connection),
    ensures
        pool.connected(slot, connection).well_formed(),
        pool.connected(slot, connection).pool_size() == pool.pool_size(),
        pool.connected(slot, connection).status == pool.status,
        forall|j: int| #[trigger] pool.connected(slot, connection).in_flight(j) == pool.in_flight(j),
{
    let next = pool.connected(slot, connection);
    assert forall|i: int| 0 <= i < next.slots.len() implies match #[trigger] next.slots[i] {
        Some(Slot::Local(k)) => k == i,
        Some(Slot::Remote(c)) => {
            &&& c.slot_in_worker == i
            &&& c.well_formed()
            &&& c.state != ConnectionState::Disconnected
            &&& next.local_work[i] is None
        },
        None => next.local_work[i] is None,
    } by {
        assert(pool.slots[i] == pool.slots[i]);
    }
}

/// Vacating a remote slot touches that slot alone and leaves it without an
/// assignment.
pub proof fn lemma_vacated(pool: RegistryView, slot: int)
    requires
        pool.well_formed(),
        pool.remote_refusal(slot) is None,
    ensures
        pool.vacated(slot).well_formed(),
        pool.vacated(slot).pool_size() == pool.pool_size(),
        pool.vacated(slot).status == pool.status,
        pool.vacated(slot).in_flight(slot) is None,
        forall|j: int| j != slot ==> #[trigger] pool.vacated(slot).in_flight(j) == pool.in_flight(j),
{
    let next = pool.vacated(slot);
    assert forall|i: int| 0 <= i < next.slots.len() implies match #[trigger] next.slots[i] {
        Some(Slot::Local(k)) => k == i,
        Some(Slot::Remote(c)) => {
            &&& c.slot_in_worker == i
            &&& c.well_formed()
            &&& c.state != ConnectionState::Disconnected
            &&& next.local_work[i] is None
        },
        None => next.local_work[i] is None,
    } by {
        assert(pool.slots[i] == pool.slots[i]);
    }
}

/// An event at a remote slot touches that slot alone. What the slot holds
/// afterwards is what the protocol step left in the connection, and nothing
/// if the step lost the connection.
pub proof fn lemma_stepped(pool: RegistryView, slot: int, event: ConnectionEvent)
    requires
        pool.well_formed(),
        pool.remote_refusal(slot) is None,
    ensures
        pool.stepped(slot, event).0.well_formed(),
        pool.stepped(slot, event).0.pool_size() == pool.pool_size(),
        pool.stepped(slot, event).0.status == pool.status,
        pool.stepped(slot, event).0.in_flight(slot) == pool.connection(slot).step(
            event,
        ).0.encode_info,
        forall|j: int|
            j != slot ==> #[trigger] pool.stepped(slot, event).0.in_flight(j) == pool.in_flight(j),
{
    let next = pool.stepped(slot, event).0;
    lemma_step_keeps_well_formed(pool.connection(slot), event);
    assert forall|i: int| 0 <= i < next.slots.len() implies match #[trigger] next.slots[i] {
        Some(Slot::Local(k)) => k == i,
        Some(Slot::Remote(c)) => {
            &&& c.slot_in_worker == i
            &&& c.well_formed()
            &&& c.state != ConnectionState::Disconnected
            &&& next.local_work[i] is None
        },
        None => next.local_work[i] is None,
    } by {
        assert(pool.slots[i] == pool.slots[i]);
    }
}

/// Slot occupancy: a slot holds at most one assignment, a position outside
/// the pool holds none, and an assignment is never added to a slot that
/// holds one or to a position outside the pool.
pub proof fn lemma_slot_occupancy(pool: RegistryView, slot: int, info: EncodeInfo)
    requires
        pool.well_formed(),
    ensures
        !(0 <= slot < pool.pool_size()) ==> pool.in_flight(slot) is None,
        !(0 <= slot < pool.pool_size()) ==> pool.assign_refusal(slot) == Some(
            RegistryError::OutOfRange,
        ),
        pool.in_flight(slot) is Some ==> pool.assign_refusal(slot) == Some(RegistryError::Occupied),
        pool.assign_refusal(slot) is None ==> {
            &&& pool.in_flight(slot) is None
            &&& pool.assigned(slot, info).0.well_formed()
            &&& pool.assigned(slot, info).0.pool_size() == pool.pool_size()
            &&& pool.assigned(slot, info).0.in_flight(slot) == Some(info)
            &&& forall|j: int|
                j != slot ==> #[trigger] pool.assigned(slot, info).0.in_flight(j) == pool.in_flight(
                    j,
                )
        },
{
    if pool.assign_refusal(slot) is None {
        lemma_assigned(pool, slot, info);
    }
}

/// What tearing the pool down found at one slot.
#[derive(Debug)]
pub struct TornDown {
    /// The assignment that the slot held.
    pub interrupted: Option<EncodeInfo>,
    /// Whether the slot held a connection, whose socket is to be closed.
    pub close: bool,
}

impl RegistryView {
    /// What tearing the pool down finds at slot `i`.
    pub open spec fn found_at(self, i: int) -> TornDown {
        TornDown {
            interrupted: self.in_flight(i),
            close: self.remote_refusal(i) is None,
        }
    }

    /// The pool after it was torn down: no slot holds an assignment and no
    /// connection is attached; the local workers stay.
    pub open spec fn torn_down(self) -> RegistryView {
        RegistryView {
            slots: Seq::new(
                self.slots.len(),
                |i: int|
                    match self.slots[i] {
                        Some(Slot::Local(k)) => Some(Slot::Local(k)),
                        _ => None,
                    },
            ),
            local_work: Seq::new(self.slots.len(), |i: int| None),
            status: self.status,
        }
    }
}

impl SlotRegistry {
    /// Tears the pool down: every assignment is taken back and every
    /// connection detached. The report has one entry per slot, in slot
    /// order, so that no assignment is left behind unreported.
    pub fn tear_down(&mut self) -> (report: Vec<TornDown>)
        requires
            old(self)@.well_formed(),
        ensures
            final(self)@.well_formed(),
            final(self)@ == old(self)@.torn_down(),
            final(self)@.all_idle(),
            report@.len() == old(self)@.pool_size(),
            forall|i: int|
                0 <= i < report@.len() ==> #[trigger] report@[i] == old(self)@.found_at(i),
    {
        let ghost before = self@;
        let mut report: Vec<TornDown> = Vec::new();
        let mut i: usize = 0;
        while i < self.slots.len()
            invariant
                before.well_formed(),
                i <= before.slots.len(),
                self@.slots.len() == before.slots.len(),
                self@.local_work.len() == before.slots.len(),
                self@.status == before.status,
                report@.len() == i,
                forall|j: int|
                    0 <= j < i ==> #[trigger] self@.slots[j] == before.torn_down().slots[j],
                forall|j: int| 0 <= j < i ==> (#[trigger] self@.local_work[j]) is None,
                forall|j: int| 0 <= j < i ==> #[trigger] report@[j] == before.found_at(j),
                forall|j: int|
                    i <= j < before.slots.len() ==> #[trigger] self@.slots[j] == before.slots[j],
                forall|j: int|
                    i <= j < before.slots.len() ==> #[trigger] self@.local_work[j]
                        == before.local_work[j],
            decreases before.slots.len() - i,
        {
            let remote = match &self.slots[i] {
                Some(Slot::Remote(_)) => true,
                _ => false,
            };
            let interrupted = if remote {
                match self.slots[i].take() {
                    Some(Slot::Remote(connection)) => {
                        let connection: ActiveConnection = *connection;
                        connection.encode_info
                    },
                    _ => None,
                }
            } else {
                self.local_work[i].take()
            };
            report.push(TornDown { interrupted, close: remote });
            i += 1;
        }
        proof {
            assert(self@.slots =~= before.torn_down().slots);
            assert(self@.local_work =~= before.torn_down().local_work);
        }
        report
    }
}

} // verus!
