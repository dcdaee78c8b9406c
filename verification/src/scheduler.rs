//! The scheduler: decides which segment goes to which free slot, follows
//! the events that workers report, and knows when the encode is complete.
//!
//! The scheduler is a state machine. The embedding program runs the loop:
//! it receives events from the notification channel and from the
//! connections, hands each to the scheduler, and carries out what the
//! scheduler answers.

use crate::connection::{lemma_step_outcomes, ActiveConnection, ConnectionEvent, Reaction};
use crate::registry::{
    attachable, lemma_assigned, lemma_completed, lemma_connected, lemma_stepped, lemma_vacated,
    RegistryError, RegistryView, SlotRegistry, TornDown,
};
use crate::segment::{
    enumerate_segments, lemma_segments_are_contiguous, segments, EncodeInfo, Segment,
    SegmentData,
};
use crate::status::{SlotStatus, WorkerStatusUpdate};
use std::collections::VecDeque;
use std::path::PathBuf;
use vstd::prelude::*;

verus! {

/// The scheduler of one encode.
pub struct Scheduler {
    registry: SlotRegistry,
    frame_count: usize,
    segment_len: usize,
    queue: VecDeque<Segment>,
    done: Vec<bool>,
    output_file: PathBuf,
}

/// The mathematical value of a [`Scheduler`].
pub struct SchedulerView {
    /// The pool of slots.
    pub registry: RegistryView,
    /// Number of frames of the video.
    pub frame_count: int,
    /// Number of frames of every segment but the last.
    pub segment_len: int,
    /// The segments that wait for a slot, in the order in which they will
    /// be handed out.
    pub queue: Seq<Segment>,
    /// For every segment ordinal, whether its result was recorded.
    pub done: Seq<bool>,
    /// Where the output of every segment goes.
    pub output_file: PathBuf,
}

impl View for Scheduler {
    type V = SchedulerView;

    closed spec fn view(&self) -> SchedulerView {
        SchedulerView {
            registry: self.registry@,
            frame_count: self.frame_count as int,
            segment_len: self.segment_len as int,
            queue: self.queue@,
            done: self.done@,
            output_file: self.output_file,
        }
    }
}

/// A segment handed to a slot, and what the hand-over asks for.
#[derive(Debug)]
pub struct Dispatch {
    /// The slot that now holds the segment.
    pub slot: usize,
    /// The segment.
    pub segment: Segment,
    /// What is to be sent and reported; empty for a local slot, whose
    /// worker is simply started.
    pub reaction: Reaction,
}

/// Why the scheduler did not record a segment result.
#[derive(Debug, Clone, Copy, PartialEq, Eq, Structural)]
pub enum ScheduleError {
    /// The slot named in the result holds no assignment.
    NothingInFlight,
    /// The result is not the outcome of the assignment that the slot holds.
    WrongSegment,
}

impl SchedulerView {
    /// All segments of the video, in ordinal order.
    pub open spec fn plan(self) -> Seq<Segment> {
        segments(self.frame_count, self.segment_len)
    }

    /// Whether the segment with ordinal `k` waits in the queue.
    pub open spec fn queued(self, k: int) -> bool {
        exists|a: int| 0 <= a < self.queue.len() && (#[trigger] self.queue[a]).segment_idx == k
    }

    /// Whether some slot holds the segment with ordinal `k`.
    pub open spec fn running(self, k: int) -> bool {
        exists|i: int|
            0 <= i < self.registry.pool_size() && #[trigger] self.registry.holds_segment(i, k)
    }

    /// The invariant of the scheduler.
    ///
    /// Every segment of the plan is in exactly one place: waiting in the
    /// queue, held by exactly one slot, or recorded as done. The queue is
    /// in ascending ordinal order, and what it and the slots hold are
    /// segments of the plan.
    pub open spec fn well_formed(self) -> bool {
        &&& self.registry.well_formed()
        &&& 0 <= self.frame_count <= usize::MAX
        &&& 0 < self.segment_len
        &&& self.done.len() == self.plan().len()
        &&& forall|a: int|
            0 <= a < self.queue.len() ==> {
                let s = #[trigger] self.queue[a];
                &&& s.segment_idx < self.plan().len()
                &&& s == self.plan()[s.segment_idx as int]
                &&& !self.done[s.segment_idx as int]
            }
        &&& forall|a: int, b: int|
            0 <= a < b < self.queue.len() ==> (#[trigger] self.queue[a]).segment_idx < (
            #[trigger] self.queue[b]).segment_idx
        &&& forall|i: int|
            0 <= i < self.registry.pool_size() ==> match #[trigger] self.registry.in_flight(i) {
                Some(info) => {
                    &&& info.segment_idx < self.plan().len()
                    &&& info.segment() == self.plan()[info.segment_idx as int]
                    &&& !self.done[info.segment_idx as int]
                    &&& !self.queued(info.segment_idx as int)
                },
                None => true,
            }
        &&& forall|i: int, j: int|
            0 <= i < self.registry.pool_size() && 0 <= j < self.registry.pool_size() && i != j
                && (#[trigger] self.registry.in_flight(i)) is Some && (
            #[trigger] self.registry.in_flight(j)) is Some ==> self.registry.in_flight(
                i,
            )->0.segment_idx != self.registry.in_flight(j)->0.segment_idx
        &&& forall|k: int|
            0 <= k < self.plan().len() ==> #[trigger] self.done[k] || self.queued(k)
                || self.running(k)
    }

    /// Whether the encode is complete: every segment has a recorded result
    /// and no slot holds an assignment.
    pub open spec fn is_complete(self) -> bool {
        &&& forall|k: int| 0 <= k < self.done.len() ==> #[trigger] self.done[k]
        &&& self.registry.all_idle()
    }

    /// The scheduler at the start of an encode: every segment waits in the
    /// queue, nothing is done, and the pool holds its local workers.
    pub open spec fn initial(
        frame_count: int,
        segment_len: int,
        local_slots: int,
        remote_slots: int,
        output_file: PathBuf,
    ) -> SchedulerView {
        SchedulerView {
            registry: RegistryView::initial(local_slots, remote_slots),
            frame_count,
            segment_len,
            queue: segments(frame_count, segment_len),
            done: Seq::new(segments(frame_count, segment_len).len(), |k: int| false),
            output_file,
        }
    }
}

impl Scheduler {
    /// Starts an encode of `frame_count` frames in segments of
    /// `segment_len` frames, on a pool of `local_slots` local workers and
    /// room for `remote_slots` remote ones. Every segment's output goes to
    /// `output_file`.
    pub fn new(
        frame_count: usize,
        segment_len: usize,
        local_slots: usize,
        remote_slots: usize,
        output_file: PathBuf,
    ) -> (scheduler: Scheduler)
        requires
            segment_len > 0,
            local_slots + remote_slots <= usize::MAX,
        ensures
            scheduler@ == SchedulerView::initial(
                frame_count as int,
                segment_len as int,
                local_slots as int,
                remote_slots as int,
                output_file,
            ),
            scheduler@.well_formed(),
    {
        let registry = SlotRegistry::new(local_slots, remote_slots);
        let plan = enumerate_segments(frame_count, segment_len);
        let mut queue: VecDeque<Segment> = VecDeque::new();
        let mut done: Vec<bool> = Vec::new();
        let mut k: usize = 0;
        while k < plan.len()
            invariant
                k <= plan@.len(),
                queue@ == plan@.take(k as int),
                done@.len() == k,
                forall|j: int| 0 <= j < k ==> !done@[j],
            decreases plan@.len() - k,
        {
            queue.push_back(plan[k]);
            done.push(false);
            k += 1;
            assert(queue@ == plan@.take(k as int));
        }
        let scheduler = Scheduler {
            registry,
            frame_count,
            segment_len,
            queue,
            done,
            output_file,
        };
        proof {
            let view = scheduler@;
            let expected = SchedulerView::initial(
                frame_count as int,
                segment_len as int,
                local_slots as int,
                remote_slots as int,
                output_file,
            );
            assert(view.queue =~= expected.queue) by {
                assert(plan@.take(plan@.len() as int) == plan@);
            }
            assert(view.done =~= expected.done);
            lemma_segments_are_contiguous(frame_count as int, segment_len as int);
            assert forall|k: int| 0 <= k < view.plan().len() implies #[trigger] view.done[k]
                || view.queued(k) || view.running(k) by {
                assert(view.queue[k].segment_idx == k);
            }
        }
        scheduler
    }
}

/// Number of segments at the head of `queue` whose ordinal is below `k`:
/// the place at which the segment with ordinal `k` goes back into the
/// queue.
pub open spec fn place_in_queue(queue: Seq<Segment>, k: int) -> int
    decreases queue.len(),
{
    if queue.len() > 0 && queue[0].segment_idx < k {
        1 + place_in_queue(queue.drop_first(), k)
    } else {
        0
    }
}

/// In a queue in ascending order that does not hold ordinal `k`, position
/// `p` is the place of `k` exactly when everything before `p` is below `k`
/// and everything from `p` on is above it.
pub proof fn lemma_place_in_queue(queue: Seq<Segment>, k: int, p: int)
    requires
        0 <= p <= queue.len(),
        forall|a: int| 0 <= a < p ==> (#[trigger] queue[a]).segment_idx < k,
        p < queue.len() ==> queue[p].segment_idx >= k,
    ensures
        place_in_queue(queue, k) == p,
    decreases queue.len(),
{
    if p > 0 {
        let rest = queue.drop_first();
        assert forall|a: int| 0 <= a < p - 1 implies (#[trigger] rest[a]).segment_idx < k by {
            assert(rest[a] == queue[a + 1]);
        }
        if p - 1 < rest.len() {
            assert(rest[p - 1] == queue[p]);
        }
        lemma_place_in_queue(rest, k, p - 1);
    }
}

/// The place of `k` lies within the queue, with lower ordinals before it.
pub proof fn lemma_place_bounds(queue: Seq<Segment>, k: int)
    ensures
        0 <= place_in_queue(queue, k) <= queue.len(),
        forall|a: int|
            0 <= a < place_in_queue(queue, k) ==> (#[trigger] queue[a]).segment_idx < k,
        place_in_queue(queue, k) < queue.len() ==> queue[place_in_queue(queue, k)].segment_idx
            >= k,
    decreases queue.len(),
{
    if queue.len() > 0 && queue[0].segment_idx < k {
        let rest = queue.drop_first();
        lemma_place_bounds(rest, k);
        let p = place_in_queue(rest, k);
        assert forall|a: int| 0 <= a < p + 1 implies (#[trigger] queue[a]).segment_idx < k by {
            if a > 0 {
                assert(queue[a] == rest[a - 1]);
            }
        }
        if p + 1 < queue.len() {
            assert(queue[p + 1] == rest[p]);
        }
    }
}

impl SchedulerView {
    /// Whether the next segment of the queue can go to slot `slot`.
    pub open spec fn can_dispatch(self, slot: int) -> bool {
        self.queue.len() > 0 && self.registry.is_free(slot)
    }

    /// The scheduler after the head of the queue went to slot `slot`, and
    /// the hand-over.
    pub open spec fn dispatched(self, slot: int) -> (SchedulerView, Dispatch) {
        let segment = self.queue[0];
        let (registry, reaction) = self.registry.assigned(
            slot,
            EncodeInfo::of(segment, self.output_file),
        );
        (
            SchedulerView { registry, queue: self.queue.drop_first(), ..self },
            Dispatch { slot: slot as usize, segment, reaction },
        )
    }

    /// The scheduler after `segment` went back into the queue, ahead of
    /// every waiting segment with a higher ordinal.
    pub open spec fn requeued(self, segment: Segment) -> SchedulerView {
        SchedulerView {
            queue: self.queue.insert(
                place_in_queue(self.queue, segment.segment_idx as int),
                segment,
            ),
            ..self
        }
    }

    /// The scheduler after the result of segment `k` was recorded.
    pub open spec fn recorded(self, k: int) -> SchedulerView {
        SchedulerView { done: self.done.update(k, true), ..self }
    }

    /// Why a segment result is not recorded, if it is not.
    pub open spec fn finish_refusal(self, data: SegmentData) -> Option<ScheduleError> {
        match self.registry.in_flight(data.slot as int) {
            None => Some(ScheduleError::NothingInFlight),
            Some(info) => if data.answers(info) {
                None
            } else {
                Some(ScheduleError::WrongSegment)
            },
        }
    }

    /// The scheduler after the slot named in `data` delivered `data`: the
    /// slot is free and the segment is done.
    pub open spec fn finished(self, data: SegmentData) -> SchedulerView {
        SchedulerView {
            registry: self.registry.completed(data.slot as int),
            ..self
        }.recorded(data.segment_no as int)
    }

    /// The scheduler after the remote worker at slot `slot` was lost: its
    /// position is vacant and the segment it held is back in the queue.
    pub open spec fn lost(self, slot: int) -> SchedulerView {
        let base = SchedulerView { registry: self.registry.vacated(slot), ..self };
        match self.registry.in_flight(slot) {
            Some(info) => base.requeued(info.segment()),
            None => base,
        }
    }

    /// The scheduler after `event` arrived at the remote slot `slot`, and
    /// the protocol's reaction.
    ///
    /// The scheduler alone hands out segments, so an assignment that
    /// arrives as an event is refused. A delivered result is recorded; an
    /// interrupted assignment goes back into the queue.
    pub open spec fn after_event(self, slot: int, event: ConnectionEvent) -> (
        SchedulerView,
        Reaction,
    ) {
        match event {
            ConnectionEvent::Assign(info) => (
                self,
                Reaction { refused: Some(info), ..Reaction::nothing() },
            ),
            _ => {
                let (registry, reaction) = self.registry.stepped(slot, event);
                let base = SchedulerView { registry, ..self };
                match (reaction.completed, reaction.interrupted) {
                    (Some(data), _) => (base.recorded(data.segment_no as int), reaction),
                    (None, Some(info)) => (base.requeued(info.segment()), reaction),
                    (None, None) => (base, reaction),
                }
            },
        }
    }
}

/// Handing the head of the queue to a free slot keeps every segment in
/// exactly one place.
pub proof fn lemma_dispatch_keeps_invariant(s: SchedulerView, slot: int)
    requires
        s.well_formed(),
        s.can_dispatch(slot),
    ensures
        s.dispatched(slot).0.well_formed(),
        s.dispatched(slot).0.registry.in_flight(slot) == Some(
            EncodeInfo::of(s.queue[0], s.output_file),
        ),
        !s.dispatched(slot).0.queued(s.queue[0].segment_idx as int),
{
    let info = EncodeInfo::of(s.queue[0], s.output_file);
    let k = s.queue[0].segment_idx as int;
    let t = s.dispatched(slot).0;
    lemma_assigned(s.registry, slot, info);
    assert(t.registry == s.registry.assigned(slot, info).0);
    assert forall|a: int| 0 <= a < t.queue.len() implies {
        let q = #[trigger] t.queue[a];
        &&& q.segment_idx < t.plan().len()
        &&& q == t.plan()[q.segment_idx as int]
        &&& !t.done[q.segment_idx as int]
        &&& q.segment_idx > k
    } by {
        assert(t.queue[a] == s.queue[a + 1]);
    }
    assert(!t.queued(k));
    assert forall|a: int, b: int| 0 <= a < b < t.queue.len() implies (
    #[trigger] t.queue[a]).segment_idx < (#[trigger] t.queue[b]).segment_idx by {
        assert(t.queue[a] == s.queue[a + 1]);
        assert(t.queue[b] == s.queue[b + 1]);
    }
    assert forall|i: int| 0 <= i < t.registry.pool_size() implies match #[trigger] t.registry.in_flight(
        i,
    ) {
        Some(held) => {
            &&& held.segment_idx < t.plan().len()
            &&& held.segment() == t.plan()[held.segment_idx as int]
            &&& !t.done[held.segment_idx as int]
            &&& !t.queued(held.segment_idx as int)
        },
        None => true,
    } by {
        if i != slot {
            assert(t.registry.in_flight(i) == s.registry.in_flight(i));
            if let Some(held) = s.registry.in_flight(i) {
                if t.queued(held.segment_idx as int) {
                    let a = choose|a: int|
                        0 <= a < t.queue.len() && (#[trigger] t.queue[a]).segment_idx
                            == held.segment_idx;
                    assert(s.queue[a + 1].segment_idx == held.segment_idx);
                    assert(s.queued(held.segment_idx as int));
                }
            }
        }
    }
    assert forall|i: int, j: int|
        0 <= i < t.registry.pool_size() && 0 <= j < t.registry.pool_size() && i != j && (
        #[trigger] t.registry.in_flight(i)) is Some && (#[trigger] t.registry.in_flight(j)) is Some
        implies t.registry.in_flight(i)->0.segment_idx != t.registry.in_flight(j)->0.segment_idx by {
        if i == slot {
            assert(t.registry.in_flight(j) == s.registry.in_flight(j));
            assert(s.queue[0].segment_idx == k);
            assert(s.queued(k));
        } else if j == slot {
            assert(t.registry.in_flight(i) == s.registry.in_flight(i));
            assert(s.queue[0].segment_idx == k);
            assert(s.queued(k));
        } else {
            assert(t.registry.in_flight(i) == s.registry.in_flight(i));
            assert(t.registry.in_flight(j) == s.registry.in_flight(j));
        }
    }
    assert forall|n: int| 0 <= n < t.plan().len() implies #[trigger] t.done[n] || t.queued(n)
        || t.running(n) by {
        if !s.done[n] {
            if s.queued(n) {
                let a = choose|a: int|
                    0 <= a < s.queue.len() && (#[trigger] s.queue[a]).segment_idx == n;
                if a == 0 {
                    assert(t.registry.holds_segment(slot, n));
                } else {
                    assert(t.queue[a - 1].segment_idx == n);
                }
            } else {
                let i = choose|i: int|
                    0 <= i < s.registry.pool_size() && #[trigger] s.registry.holds_segment(i, n);
                assert(i != slot);
                assert(t.registry.in_flight(i) == s.registry.in_flight(i));
                assert(t.registry.holds_segment(i, n));
            }
        }
    }
}

/// A change of the pool that leaves every slot's assignment alone keeps
/// every segment where it is.
pub proof fn lemma_pool_change_keeps_invariant(s: SchedulerView, pool: RegistryView)
    requires
        s.well_formed(),
        pool.well_formed(),
        pool.pool_size() == s.registry.pool_size(),
        forall|j: int| #[trigger] pool.in_flight(j) == s.registry.in_flight(j),
    ensures
        (SchedulerView { registry: pool, ..s }).well_formed(),
{
    let t = SchedulerView { registry: pool, ..s };
    assert(t.queue == s.queue);
    assert forall|k: int| #[trigger] t.queued(k) == s.queued(k) by {
        if s.queued(k) {
            let a = choose|a: int| 0 <= a < s.queue.len() && (#[trigger] s.queue[a]).segment_idx == k;
            assert(t.queue[a].segment_idx == k);
        }
        if t.queued(k) {
            let a = choose|a: int| 0 <= a < t.queue.len() && (#[trigger] t.queue[a]).segment_idx == k;
            assert(s.queue[a].segment_idx == k);
        }
    }
    assert forall|i: int| 0 <= i < t.registry.pool_size() implies match #[trigger] t.registry.in_flight(
        i,
    ) {
        Some(held) => {
            &&& held.segment_idx < t.plan().len()
            &&& held.segment() == t.plan()[held.segment_idx as int]
            &&& !t.done[held.segment_idx as int]
            &&& !t.queued(held.segment_idx as int)
        },
        None => true,
    } by {
        assert(t.registry.in_flight(i) == s.registry.in_flight(i));
    }
    assert forall|i: int, j: int|
        0 <= i < t.registry.pool_size() && 0 <= j < t.registry.pool_size() && i != j && (
        #[trigger] t.registry.in_flight(i)) is Some && (#[trigger] t.registry.in_flight(j)) is Some
        implies t.registry.in_flight(i)->0.segment_idx != t.registry.in_flight(j)->0.segment_idx by {
        assert(t.registry.in_flight(i) == s.registry.in_flight(i));
        assert(t.registry.in_flight(j) == s.registry.in_flight(j));
    }
    assert forall|n: int| 0 <= n < t.plan().len() implies #[trigger] t.done[n] || t.queued(n)
        || t.running(n) by {
        if !s.done[n] && !s.queued(n) {
            let i = choose|i: int|
                0 <= i < s.registry.pool_size() && #[trigger] s.registry.holds_segment(i, n);
            assert(t.registry.in_flight(i) == s.registry.in_flight(i));
            assert(t.registry.holds_segment(i, n));
        }
    }
}

/// Recording the result of the segment that a slot held, while the slot
/// lets go of it, keeps every segment in exactly one place: the segment
/// is done and nowhere else.
pub proof fn lemma_record_keeps_invariant(s: SchedulerView, pool: RegistryView, slot: int)
    requires
        s.well_formed(),
        0 <= slot < s.registry.pool_size(),
        s.registry.in_flight(slot) is Some,
        pool.well_formed(),
        pool.pool_size() == s.registry.pool_size(),
        pool.in_flight(slot) is None,
        forall|j: int| j != slot ==> #[trigger] pool.in_flight(j) == s.registry.in_flight(j),
    ensures
        ({
            let k = s.registry.in_flight(slot)->0.segment_idx as int;
            let t = (SchedulerView { registry: pool, ..s }).recorded(k);
            &&& t.well_formed()
            &&& t.done[k]
            &&& !t.queued(k)
            &&& !t.running(k)
        }),
{
    let k = s.registry.in_flight(slot)->0.segment_idx as int;
    let t = (SchedulerView { registry: pool, ..s }).recorded(k);
    assert(t.queue == s.queue);
    assert forall|n: int| #[trigger] t.queued(n) == s.queued(n) by {
        if s.queued(n) {
            let a = choose|a: int| 0 <= a < s.queue.len() && (#[trigger] s.queue[a]).segment_idx == n;
            assert(t.queue[a].segment_idx == n);
        }
        if t.queued(n) {
            let a = choose|a: int| 0 <= a < t.queue.len() && (#[trigger] t.queue[a]).segment_idx == n;
            assert(s.queue[a].segment_idx == n);
        }
    }
    assert forall|i: int| 0 <= i < t.registry.pool_size() implies match #[trigger] t.registry.in_flight(
        i,
    ) {
        Some(held) => {
            &&& held.segment_idx < t.plan().len()
            &&& held.segment() == t.plan()[held.segment_idx as int]
            &&& !t.done[held.segment_idx as int]
            &&& !t.queued(held.segment_idx as int)
            &&& held.segment_idx != k
        },
        None => true,
    } by {
        if i != slot {
            assert(t.registry.in_flight(i) == s.registry.in_flight(i));
            assert(s.registry.in_flight(slot) is Some);
        }
    }
    assert forall|i: int, j: int|
        0 <= i < t.registry.pool_size() && 0 <= j < t.registry.pool_size() && i != j && (
        #[trigger] t.registry.in_flight(i)) is Some && (#[trigger] t.registry.in_flight(j)) is Some
        implies t.registry.in_flight(i)->0.segment_idx != t.registry.in_flight(j)->0.segment_idx by {
        assert(t.registry.in_flight(i) == s.registry.in_flight(i));
        assert(t.registry.in_flight(j) == s.registry.in_flight(j));
    }
    assert forall|n: int| 0 <= n < t.plan().len() implies #[trigger] t.done[n] || t.queued(n)
        || t.running(n) by {
        if n != k && !s.done[n] && !s.queued(n) {
            let i = choose|i: int|
                0 <= i < s.registry.pool_size() && #[trigger] s.registry.holds_segment(i, n);
            assert(i != slot);
            assert(t.registry.in_flight(i) == s.registry.in_flight(i));
            assert(t.registry.holds_segment(i, n));
        }
    }
    assert(!t.running(k)) by {
        if t.running(k) {
            let i = choose|i: int|
                0 <= i < t.registry.pool_size() && #[trigger] t.registry.holds_segment(i, k);
            assert(t.registry.in_flight(i) is Some);
        }
    }
}

/// Putting the segment that a slot held back into the queue, while the
/// slot lets go of it, keeps every segment in exactly one place: the
/// segment waits in the queue, once, and is neither done nor held.
pub proof fn lemma_requeue_keeps_invariant(s: SchedulerView, pool: RegistryView, slot: int)
    requires
        s.well_formed(),
        0 <= slot < s.registry.pool_size(),
        s.registry.in_flight(slot) is Some,
        pool.well_formed(),
        pool.pool_size() == s.registry.pool_size(),
        pool.in_flight(slot) is None,
        forall|j: int| j != slot ==> #[trigger] pool.in_flight(j) == s.registry.in_flight(j),
    ensures
        ({
            let held = s.registry.in_flight(slot)->0;
            let k = held.segment_idx as int;
            let t = (SchedulerView { registry: pool, ..s }).requeued(held.segment());
            &&& t.well_formed()
            &&& t.queued(k)
            &&& !t.done[k]
            &&& !t.running(k)
            &&& t.queue.len() == s.queue.len() + 1
            &&& t.queue[place_in_queue(s.queue, k)] == held.segment()
            &&& (forall|a: int| 0 <= a < s.queue.len() ==> (#[trigger] s.queue[a]).segment_idx > k)
                ==> t.queue[0] == held.segment()
        }),
{
    let held = s.registry.in_flight(slot)->0;
    let k = held.segment_idx as int;
    let p = place_in_queue(s.queue, k);
    let t = (SchedulerView { registry: pool, ..s }).requeued(held.segment());
    lemma_place_bounds(s.queue, k);
    assert(!s.queued(k));
    assert forall|a: int| 0 <= a < s.queue.len() implies (#[trigger] s.queue[a]).segment_idx
        != k by {
        if s.queue[a].segment_idx == k {
            assert(s.queued(k));
        }
    }
    assert forall|a: int| 0 <= a < t.queue.len() implies (#[trigger] t.queue[a]) == (if a < p {
        s.queue[a]
    } else if a == p {
        held.segment()
    } else {
        s.queue[a - 1]
    }) by {}
    assert forall|a: int| 0 <= a < t.queue.len() implies {
        let q = #[trigger] t.queue[a];
        &&& q.segment_idx < t.plan().len()
        &&& q == t.plan()[q.segment_idx as int]
        &&& !t.done[q.segment_idx as int]
    } by {
        if a < p {
            assert(t.queue[a] == s.queue[a]);
        } else if a > p {
            assert(t.queue[a] == s.queue[a - 1]);
        }
    }
    assert forall|a: int, b: int| 0 <= a < b < t.queue.len() implies (
    #[trigger] t.queue[a]).segment_idx < (#[trigger] t.queue[b]).segment_idx by {
        let ia = if a < p { a } else { a - 1 };
        let ib = if b < p { b } else { b - 1 };
        if a != p {
            assert(t.queue[a] == s.queue[ia]);
        }
        if b != p {
            assert(t.queue[b] == s.queue[ib]);
        }
        if a == p {
            assert(s.queue[ib].segment_idx != k);
            if p < s.queue.len() {
                assert(s.queue[p].segment_idx >= k);
            }
        }
    }
    assert(t.queue[p].segment_idx == k);
    assert(t.queued(k));
    assert forall|n: int| s.queued(n) implies t.queued(n) by {
        let a = choose|a: int| 0 <= a < s.queue.len() && (#[trigger] s.queue[a]).segment_idx == n;
        if a < p {
            assert(t.queue[a].segment_idx == n);
        } else {
            assert(t.queue[a + 1].segment_idx == n);
        }
    }
    assert forall|n: int| t.queued(n) && n != k implies s.queued(n) by {
        let a = choose|a: int| 0 <= a < t.queue.len() && (#[trigger] t.queue[a]).segment_idx == n;
        if a < p {
            assert(s.queue[a].segment_idx == n);
        } else {
            assert(s.queue[a - 1].segment_idx == n);
        }
    }
    assert forall|i: int| 0 <= i < t.registry.pool_size() implies match #[trigger] t.registry.in_flight(
        i,
    ) {
        Some(other) => {
            &&& other.segment_idx < t.plan().len()
            &&& other.segment() == t.plan()[other.segment_idx as int]
            &&& !t.done[other.segment_idx as int]
            &&& !t.queued(other.segment_idx as int)
            &&& other.segment_idx != k
        },
        None => true,
    } by {
        if i != slot {
            assert(t.registry.in_flight(i) == s.registry.in_flight(i));
            assert(s.registry.in_flight(slot) is Some);
        }
    }
    assert forall|i: int, j: int|
        0 <= i < t.registry.pool_size() && 0 <= j < t.registry.pool_size() && i != j && (
        #[trigger] t.registry.in_flight(i)) is Some && (#[trigger] t.registry.in_flight(j)) is Some
        implies t.registry.in_flight(i)->0.segment_idx != t.registry.in_flight(j)->0.segment_idx by {
        assert(t.registry.in_flight(i) == s.registry.in_flight(i));
        assert(t.registry.in_flight(j) == s.registry.in_flight(j));
    }
    assert forall|n: int| 0 <= n < t.plan().len() implies #[trigger] t.done[n] || t.queued(n)
        || t.running(n) by {
        if n != k && !s.done[n] && !s.queued(n) {
            let i = choose|i: int|
                0 <= i < s.registry.pool_size() && #[trigger] s.registry.holds_segment(i, n);
            assert(i != slot);
            assert(t.registry.in_flight(i) == s.registry.in_flight(i));
            assert(t.registry.holds_segment(i, n));
        }
    }
    assert(!t.running(k)) by {
        if t.running(k) {
            let i = choose|i: int|
                0 <= i < t.registry.pool_size() && #[trigger] t.registry.holds_segment(i, k);
            assert(t.registry.in_flight(i) is Some);
        }
    }
    if forall|a: int| 0 <= a < s.queue.len() ==> (#[trigger] s.queue[a]).segment_idx > k {
        if p > 0 {
            assert(s.queue[0].segment_idx < k);
        }
    }
}

impl Scheduler {
    /// The pool of slots.
    pub fn registry(&self) -> (registry: &SlotRegistry)
        ensures
            registry@ == self@.registry,
    {
        &self.registry
    }

    /// Number of segments that wait in the queue.
    pub fn pending(&self) -> (count: usize)
        ensures
            count == self@.queue.len(),
    {
        self.queue.len()
    }

    /// Number of segments of the video.
    pub fn segment_count(&self) -> (count: usize)
        ensures
            count == self@.done.len(),
    {
        self.done.len()
    }

    /// Whether the result of the segment with ordinal `segment_idx` was
    /// recorded. An ordinal that the video does not have is never done.
    pub fn is_done(&self, segment_idx: usize) -> (done: bool)
        ensures
            done == (segment_idx < self@.done.len() && self@.done[segment_idx as int]),
    {
        segment_idx < self.done.len() && self.done[segment_idx]
    }

    /// The segment that will be handed out next.
    pub fn next_segment(&self) -> (next: Option<Segment>)
        ensures
            match next {
                Some(segment) => self@.queue.len() > 0 && segment == self@.queue[0],
                None => self@.queue.len() == 0,
            },
    {
        if self.queue.len() > 0 {
            Some(self.queue[0])
        } else {
            None
        }
    }

    /// Whether the encode is complete.
    pub fn is_complete(&self) -> (complete: bool)
        requires
            self@.well_formed(),
        ensures
            complete == self@.is_complete(),
    {
        let mut k: usize = 0;
        while k < self.done.len()
            invariant
                k <= self@.done.len(),
                forall|j: int| 0 <= j < k ==> #[trigger] self@.done[j],
            decreases self@.done.len() - k,
        {
            if !self.done[k] {
                return false;
            }
            k += 1;
        }
        self.registry.all_idle()
    }

    /// Puts `segment` back into the queue, ahead of every waiting segment
    /// with a higher ordinal.
    fn requeue(&mut self, segment: Segment)
        ensures
            final(self)@ == old(self)@.requeued(segment),
    {
        let mut place: usize = 0;
        while place < self.queue.len() && self.queue[place].segment_idx < segment.segment_idx
            invariant
                *self == *old(self),
                place <= self@.queue.len(),
                forall|a: int|
                    0 <= a < place ==> (#[trigger] self@.queue[a]).segment_idx
                        < segment.segment_idx,
            decreases self@.queue.len() - place,
        {
            place += 1;
        }
        proof {
            lemma_place_in_queue(self@.queue, segment.segment_idx as int, place as int);
        }
        self.queue.insert(place, segment);
    }

    /// Hands the next segment of the queue to slot `slot`, if there is a
    /// segment waiting and the slot is free. Otherwise nothing changes.
    pub fn dispatch(&mut self, slot: usize) -> (result: Option<Dispatch>)
        requires
            old(self)@.well_formed(),
        ensures
            final(self)@.well_formed(),
            match result {
                Some(dispatch) => old(self)@.can_dispatch(slot as int) && (
                    final(self)@,
                    dispatch,
                ) == old(self)@.dispatched(slot as int),
                None => !old(self)@.can_dispatch(slot as int) && final(self)@ == old(self)@,
            },
    {
        if self.queue.len() == 0 || !self.registry.is_free(slot) {
            return None;
        }
        let ghost before = self@;
        proof {
            lemma_dispatch_keeps_invariant(before, slot as int);
            lemma_assigned(
                before.registry,
                slot as int,
                EncodeInfo::of(before.queue[0], before.output_file),
            );
        }
        let segment = self.queue[0];
        self.queue.pop_front();
        let info = EncodeInfo::for_segment(segment, self.output_file.clone());
        match self.registry.assign(slot, info) {
            Ok(reaction) => Some(Dispatch { slot, segment, reaction }),
            Err(_) => {
                proof {
                    assert(false);
                }
                None
            },
        }
    }

    /// Hands the next segment of the queue to the lowest free slot. Does
    /// nothing when no segment waits or no slot is free.
    pub fn dispatch_next(&mut self) -> (result: Option<Dispatch>)
        requires
            old(self)@.well_formed(),
        ensures
            final(self)@.well_formed(),
            match result {
                Some(dispatch) => {
                    &&& old(self)@.can_dispatch(dispatch.slot as int)
                    &&& forall|j: int| 0 <= j < dispatch.slot ==> !old(self)@.registry.is_free(j)
                    &&& (final(self)@, dispatch) == old(self)@.dispatched(dispatch.slot as int)
                },
                None => {
                    &&& final(self)@ == old(self)@
                    &&& forall|j: int| !old(self)@.can_dispatch(j)
                },
            },
    {
        match self.registry.lowest_free() {
            Some(slot) => self.dispatch(slot),
            None => None,
        }
    }

    /// Records the result `data` that the worker at slot `data.slot`
    /// delivered, frees the slot, and hands the result back for output
    /// assembly.
    ///
    /// A result is recorded only when the slot holds the assignment that
    /// the result answers; a second result for the same segment finds the
    /// slot holding nothing, or something else, and is refused.
    pub fn segment_finished(&mut self, data: SegmentData) -> (result: Result<
        SegmentData,
        ScheduleError,
    >)
        requires
            old(self)@.well_formed(),
        ensures
            final(self)@.well_formed(),
            match result {
                Ok(recorded) => {
                    &&& old(self)@.finish_refusal(data) is None
                    &&& recorded == data
                    &&& final(self)@ == old(self)@.finished(data)
                },
                Err(e) => old(self)@.finish_refusal(data) == Some(e) && final(self)@ == old(self)@,
            },
    {
        let slot = data.slot;
        match self.registry.in_flight_segment(slot) {
            None => Err(ScheduleError::NothingInFlight),
            Some(held) => {
                if data.segment_no != held.segment_idx || data.start_frameno != held.start_frameno
                    || data.next_analysis_frame != held.next_analysis_frame {
                    return Err(ScheduleError::WrongSegment);
                }
                let ghost before = self@;
                proof {
                    lemma_completed(before.registry, slot as int);
                    lemma_record_keeps_invariant(
                        before,
                        before.registry.completed(slot as int),
                        slot as int,
                    );
                }
                match self.registry.complete(slot) {
                    Ok(_) => {
                        self.done.set(data.segment_no, true);
                        Ok(data)
                    },
                    Err(_) => {
                        proof {
                            assert(false);
                        }
                        Err(ScheduleError::NothingInFlight)
                    },
                }
            },
        }
    }

    /// Takes the remote worker at slot `slot` out of the pool. A segment
    /// that it held goes back into the queue and is returned.
    ///
    /// Fails, changing nothing, when the slot lies outside the pool, is
    /// vacant or holds a local worker.
    pub fn slot_lost(&mut self, slot: usize) -> (result: Result<Option<Segment>, RegistryError>)
        requires
            old(self)@.well_formed(),
        ensures
            final(self)@.well_formed(),
            match result {
                Ok(requeued) => {
                    &&& old(self)@.registry.remote_refusal(slot as int) is None
                    &&& final(self)@ == old(self)@.lost(slot as int)
                    &&& match old(self)@.registry.in_flight(slot as int) {
                        Some(info) => requeued == Some(info.segment()),
                        None => requeued is None,
                    }
                },
                Err(e) => {
                    &&& old(self)@.registry.remote_refusal(slot as int) == Some(e)
                    &&& final(self)@ == old(self)@
                },
            },
    {
        let ghost before = self@;
        proof {
            if before.registry.remote_refusal(slot as int) is None {
                lemma_vacated(before.registry, slot as int);
                if before.registry.in_flight(slot as int) is Some {
                    lemma_requeue_keeps_invariant(
                        before,
                        before.registry.vacated(slot as int),
                        slot as int,
                    );
                } else {
                    lemma_pool_change_keeps_invariant(
                        before,
                        before.registry.vacated(slot as int),
                    );
                }
            }
        }
        match self.registry.disconnect_remote(slot) {
            Err(e) => Err(e),
            Ok(None) => Ok(None),
            Ok(Some(info)) => {
                let segment = info.to_segment();
                self.requeue(segment);
                Ok(Some(segment))
            },
        }
    }

    /// Attaches the connection of a remote worker at the lowest vacant
    /// position of the pool and returns that position.
    ///
    /// Fails, changing nothing and dropping the connection, when the
    /// connection is lost, inconsistent or already holds a segment, and
    /// when the pool is full.
    pub fn connect_remote(&mut self, connection: ActiveConnection) -> (result: Result<
        usize,
        RegistryError,
    >)
        requires
            old(self)@.well_formed(),
        ensures
            final(self)@.well_formed(),
            match result {
                Ok(slot) => {
                    &&& attachable(connection)
                    &&& old(self)@.registry.is_vacant(slot as int)
                    &&& forall|j: int| 0 <= j < slot ==> !old(self)@.registry.is_vacant(j)
                    &&& final(self)@ == (SchedulerView {
                        registry: old(self)@.registry.connected(slot as int, connection),
                        ..old(self)@
                    })
                },
                Err(e) => {
                    &&& final(self)@ == old(self)@
                    &&& !attachable(connection) ==> e == RegistryError::NotReady
                    &&& attachable(connection) ==> e == RegistryError::PoolFull && forall|j: int|
                        !old(self)@.registry.is_vacant(j)
                },
            },
    {
        let ghost before = self@;
        match self.registry.connect_remote(connection) {
            Ok(slot) => {
                proof {
                    lemma_connected(before.registry, slot as int, connection);
                    lemma_pool_change_keeps_invariant(
                        before,
                        before.registry.connected(slot as int, connection),
                    );
                }
                Ok(slot)
            },
            Err(e) => Err(e),
        }
    }

    /// Hands `event` to the remote worker at slot `slot` and follows what
    /// the protocol makes of it: a delivered result is recorded, an
    /// interrupted segment goes back into the queue, a lost connection
    /// leaves the pool. The reaction says what is to be sent, reported and
    /// delivered.
    ///
    /// An assignment that arrives as an event is refused in the reaction:
    /// segments are handed out by `dispatch` alone. Any other event fails,
    /// changing nothing, when the slot lies outside the pool, is vacant or
    /// holds a local worker.
    pub fn connection_event(&mut self, slot: usize, event: ConnectionEvent) -> (result: Result<
        Reaction,
        RegistryError,
    >)
        requires
            old(self)@.well_formed(),
        ensures
            final(self)@.well_formed(),
            match result {
                Ok(reaction) => {
                    &&& event is Assign || old(self)@.registry.remote_refusal(slot as int) is None
                    &&& (final(self)@, reaction) == old(self)@.after_event(slot as int, event)
                },
                Err(e) => {
                    &&& !(event is Assign)
                    &&& old(self)@.registry.remote_refusal(slot as int) == Some(e)
                    &&& final(self)@ == old(self)@
                },
            },
    {
        let ghost before = self@;
        match event {
            ConnectionEvent::Assign(info) => {
                let mut reaction = Reaction::none();
                reaction.refused = Some(info);
                Ok(reaction)
            },
            other => {
                proof {
                    if before.registry.remote_refusal(slot as int) is None {
                        lemma_stepped(before.registry, slot as int, other);
                        lemma_step_outcomes(before.registry.connection(slot as int), other);
                        let pool = before.registry.stepped(slot as int, other).0;
                        let reaction = before.registry.stepped(slot as int, other).1;
                        if reaction.completed is Some {
                            lemma_record_keeps_invariant(before, pool, slot as int);
                        } else if reaction.interrupted is Some {
                            lemma_requeue_keeps_invariant(before, pool, slot as int);
                        } else {
                            lemma_pool_change_keeps_invariant(before, pool);
                        }
                    }
                }
                match self.registry.connection_event(slot, other) {
                    Err(e) => Err(e),
                    Ok(reaction) => {
                        let finished = match &reaction.completed {
                            Some(data) => Some(data.segment_no),
                            None => None,
                        };
                        let interrupted = match &reaction.interrupted {
                            Some(info) => Some(info.to_segment()),
                            None => None,
                        };
                        match (finished, interrupted) {
                            (Some(segment_no), _) => {
                                self.done.set(segment_no, true);
                            },
                            (None, Some(segment)) => {
                                self.requeue(segment);
                            },
                            (None, None) => {},
                        }
                        Ok(reaction)
                    },
                }
            },
        }
    }
}

impl SchedulerView {
    /// The scheduler after workers reported the status `status`.
    pub open spec fn with_status(self, status: SlotStatus) -> SchedulerView {
        SchedulerView { registry: RegistryView { status, ..self.registry }, ..self }
    }

    /// The scheduler after `update` was applied, and the hand-over that it
    /// led to.
    ///
    /// The two fields of an update are applied independently, the status
    /// first: a reported status is recorded, and a slot that became
    /// available takes the next segment of the queue at once, if one
    /// waits and the slot is free. A slot that stopped being available
    /// needs no action; the loss of a connection arrives as an event of
    /// that connection.
    pub open spec fn after_update(self, update: WorkerStatusUpdate) -> (
        SchedulerView,
        Option<Dispatch>,
    ) {
        let base = match update.status {
            Some(status) => self.with_status(status),
            None => self,
        };
        match update.slot_delta {
            Some((slot, true)) => if base.can_dispatch(slot as int) {
                (base.dispatched(slot as int).0, Some(base.dispatched(slot as int).1))
            } else {
                (base, None)
            },
            _ => (base, None),
        }
    }
}

impl Scheduler {
    /// Applies one event of the notification channel.
    pub fn apply_update(&mut self, update: WorkerStatusUpdate) -> (result: Option<Dispatch>)
        requires
            old(self)@.well_formed(),
        ensures
            final(self)@.well_formed(),
            (final(self)@, result) == old(self)@.after_update(update),
    {
        let ghost before = self@;
        match update.status {
            Some(status) => {
                self.registry.set_status(status);
                proof {
                    lemma_pool_change_keeps_invariant(before, before.with_status(status).registry);
                }
            },
            None => {},
        }
        match update.slot_delta {
            Some((slot, true)) => self.dispatch(slot),
            _ => None,
        }
    }
}

/// A segment whose slot is lost while it is being encoded is not lost with
/// it: afterwards it waits in the queue, exactly once, it is neither done
/// nor held by any slot, and it is the next segment to be handed out
/// unless a segment with a lower ordinal waits as well.
pub proof fn lemma_interrupted_segment_waits_once(s: SchedulerView, slot: int)
    requires
        s.well_formed(),
        s.registry.remote_refusal(slot) is None,
        s.registry.in_flight(slot) is Some,
    ensures
        ({
            let segment = s.registry.in_flight(slot)->0.segment();
            let k = segment.segment_idx as int;
            let t = s.lost(slot);
            &&& t.well_formed()
            &&& t.queued(k)
            &&& !t.done[k]
            &&& !t.running(k)
            &&& forall|a: int, b: int|
                0 <= a < t.queue.len() && 0 <= b < t.queue.len() && (
                #[trigger] t.queue[a]).segment_idx == k && (#[trigger] t.queue[b]).segment_idx == k
                    ==> a == b
            &&& (forall|a: int| 0 <= a < s.queue.len() ==> (#[trigger] s.queue[a]).segment_idx > k)
                ==> t.queue[0] == segment
        }),
{
    lemma_vacated(s.registry, slot);
    lemma_requeue_keeps_invariant(s, s.registry.vacated(slot), slot);
}

/// A result is recorded at most once per segment: once a segment is done,
/// every further result for it is refused.
pub proof fn lemma_done_segment_takes_no_result(s: SchedulerView, data: SegmentData)
    requires
        s.well_formed(),
        data.segment_no < s.done.len(),
        s.done[data.segment_no as int],
    ensures
        s.finish_refusal(data) is Some,
{
    if s.registry.in_flight(data.slot as int) is Some {
        assert(0 <= data.slot < s.registry.pool_size());
    }
}

/// Recording a result turns exactly one segment from held to done: the
/// segment was not done before, it is done afterwards, no slot holds it,
/// it does not wait in the queue, and every other segment is done exactly
/// if it was.
pub proof fn lemma_result_recorded_once(s: SchedulerView, data: SegmentData)
    requires
        s.well_formed(),
        s.finish_refusal(data) is None,
    ensures
        ({
            let k = data.segment_no as int;
            let t = s.finished(data);
            &&& t.well_formed()
            &&& 0 <= k < s.done.len()
            &&& !s.done[k]
            &&& t.done[k]
            &&& !t.queued(k)
            &&& !t.running(k)
            &&& t.done.len() == s.done.len()
            &&& forall|n: int| 0 <= n < s.done.len() && n != k ==> t.done[n] == s.done[n]
            &&& forall|again: SegmentData|
                again.segment_no == data.segment_no ==> (#[trigger] t.finish_refusal(again)) is Some
        }),
{
    let slot = data.slot as int;
    let k = data.segment_no as int;
    let t = s.finished(data);
    assert(0 <= slot < s.registry.pool_size());
    lemma_completed(s.registry, slot);
    lemma_record_keeps_invariant(s, s.registry.completed(slot), slot);
    assert forall|again: SegmentData| again.segment_no == data.segment_no implies (
    #[trigger] t.finish_refusal(again)) is Some by {
        lemma_done_segment_takes_no_result(t, again);
    }
}

/// An event of a connection records a result only for the segment that the
/// connection held, and only if that segment was not done.
pub proof fn lemma_event_records_held_segment(s: SchedulerView, slot: int, event: ConnectionEvent)
    requires
        s.well_formed(),
        s.registry.remote_refusal(slot) is None,
        !(event is Assign),
    ensures
        ({
            let (t, reaction) = s.after_event(slot, event);
            &&& t.well_formed()
            &&& match reaction.completed {
                Some(data) => {
                    &&& s.registry.in_flight(slot) is Some
                    &&& data.answers(s.registry.in_flight(slot)->0)
                    &&& !s.done[data.segment_no as int]
                    &&& t.done[data.segment_no as int]
                    &&& !t.running(data.segment_no as int)
                    &&& !t.queued(data.segment_no as int)
                },
                None => t.done == s.done,
            }
            &&& match reaction.interrupted {
                Some(info) => {
                    &&& s.registry.in_flight(slot) == Some(info)
                    &&& t.queued(info.segment_idx as int)
                    &&& t.registry.is_vacant(slot)
                },
                None => true,
            }
        }),
{
    lemma_stepped(s.registry, slot, event);
    lemma_step_outcomes(s.registry.connection(slot), event);
    let pool = s.registry.stepped(slot, event).0;
    let reaction = s.registry.stepped(slot, event).1;
    if reaction.completed is Some {
        lemma_record_keeps_invariant(s, pool, slot);
    } else if reaction.interrupted is Some {
        lemma_requeue_keeps_invariant(s, pool, slot);
    } else {
        lemma_pool_change_keeps_invariant(s, pool);
    }
}

/// When every segment is done, nothing waits and no slot holds anything:
/// the encode is complete.
pub proof fn lemma_all_done_is_complete(s: SchedulerView)
    requires
        s.well_formed(),
        forall|k: int| 0 <= k < s.done.len() ==> #[trigger] s.done[k],
    ensures
        s.queue.len() == 0,
        s.registry.all_idle(),
        s.is_complete(),
{
    if s.queue.len() > 0 {
        let q = s.queue[0];
        assert(s.done[q.segment_idx as int]);
    }
    assert forall|i: int| 0 <= i < s.registry.pool_size() implies (#[trigger] s.registry.in_flight(
        i,
    )) is None by {
        if let Some(held) = s.registry.in_flight(i) {
            assert(s.done[held.segment_idx as int]);
        }
    }
}

impl Scheduler {
    /// Gives the encode up. Every assignment is taken back and every
    /// connection detached; the report has one entry per slot, in slot
    /// order, and says which assignment was interrupted there and whether
    /// a socket is to be closed. Nothing stays assigned and unreported.
    pub fn cancel(self) -> (report: Vec<TornDown>)
        requires
            self@.well_formed(),
        ensures
            report@.len() == self@.registry.pool_size(),
            forall|i: int|
                0 <= i < report@.len() ==> #[trigger] report@[i] == self@.registry.found_at(i),
    {
        let mut scheduler = self;
        scheduler.registry.tear_down()
    }
}

} // verus!
