//! What holds of the collector from event to event.

use crate::arm_laws::{law_faults_carry_the_time, untimed};
use crate::body_laws::{law_body_has_every_fault, law_last_readings_decide_the_body};
use crate::clock::{law_stamps_never_go_back, nanos_between, ClockView};
use crate::collector::{
    disconnects, first_occurrences, frames_after, publishes, step_after, CollectorView, NextStep,
    ProviderEvent, FRAME_TIMEOUT_SECS, RECONNECT_PAUSE_SECS,
};
use crate::merge::{body_snapshot, namespaced_fault, side_of};
use crate::model::{HealthState, ReadingView, SnapshotView};
use crate::providers::{frames, lemma_frame_of_entry, ordered};
use crate::readout::readout;
use crate::snapshot::faults_of;
use vstd::prelude::*;

verus! {

/// Each provider that was found is collected from exactly once.
pub proof fn law_every_provider_once(ids: Seq<Seq<char>>)
    ensures
        first_occurrences(ids).no_duplicates(),
        forall|id: Seq<char>| #[trigger] first_occurrences(ids).contains(id) <==> ids.contains(id),
        ids.len() > 0 ==> first_occurrences(ids).len() > 0 && first_occurrences(ids)[0] == ids[0],
    decreases ids.len(),
{
    if ids.len() > 0 {
        let fewer = ids.drop_last();
        let last = ids.last();
        let earlier = first_occurrences(fewer);
        let all = first_occurrences(ids);
        law_every_provider_once(fewer);
        assert(earlier.contains(last) <==> fewer.contains(last));
        assert forall|id: Seq<char>| #[trigger] all.contains(id) <==> ids.contains(id) by {
            assert(earlier.contains(id) <==> fewer.contains(id));
            if all.contains(id) {
                let i = choose|i: int| 0 <= i < all.len() && all[i] == id;
                if i < earlier.len() {
                    assert(earlier[i] == id);
                    let j = choose|j: int| 0 <= j < fewer.len() && fewer[j] == id;
                    assert(ids[j] == id);
                } else {
                    assert(ids[ids.len() - 1] == id);
                }
            }
            if ids.contains(id) {
                let j = choose|j: int| 0 <= j < ids.len() && ids[j] == id;
                if j < fewer.len() {
                    assert(fewer[j] == id);
                    let i = choose|i: int| 0 <= i < earlier.len() && earlier[i] == id;
                    assert(all[i] == id);
                } else if fewer.contains(last) {
                    let i = choose|i: int| 0 <= i < earlier.len() && earlier[i] == id;
                    assert(all[i] == id);
                } else {
                    assert(all[earlier.len() as int] == id);
                }
            }
        }
        if !fewer.contains(last) {
            assert forall|i: int, j: int|
                0 <= i < all.len() && 0 <= j < all.len() && i != j implies all[i] != all[j] by {
                if i == earlier.len() {
                    assert(earlier[j] == all[j]);
                    assert(earlier.contains(all[j]));
                } else if j == earlier.len() {
                    assert(earlier[i] == all[i]);
                    assert(earlier.contains(all[i]));
                }
            }
        }
    }
}

/// The providers keep the order in which they were found: where `a` is listed
/// before `b`, it was found before `b` was found for the first time.
pub proof fn law_order_of_discovery_is_kept(ids: Seq<Seq<char>>, a: int, b: int, found: int)
    requires
        0 <= a < b < first_occurrences(ids).len(),
        0 <= found < ids.len(),
        ids[found] == first_occurrences(ids)[b],
    ensures
        exists|earlier: int|
            0 <= earlier < found && #[trigger] ids[earlier] == first_occurrences(ids)[a],
    decreases ids.len(),
{
    let fewer = ids.drop_last();
    let kept = first_occurrences(fewer);
    let all = first_occurrences(ids);
    law_every_provider_once(fewer);
    assert(a < kept.len());
    assert(all[a] == kept[a]);
    assert(kept.contains(kept[a]));
    if found < fewer.len() {
        assert(fewer[found] == ids[found]);
        assert(fewer.contains(all[b]));
        assert(b < kept.len());
        law_order_of_discovery_is_kept(fewer, a, b, found);
        let p = choose|p: int| 0 <= p < found && #[trigger] fewer[p] == kept[a];
        assert(ids[p] == all[a]);
    } else {
        let p = choose|p: int| 0 <= p < fewer.len() && fewer[p] == kept[a];
        assert(ids[p] == all[a]);
    }
}

/// An event of one provider leaves the frames of all others as they were.
pub proof fn law_others_are_untouched(
    held: Map<Seq<char>, Seq<ReadingView>>,
    id: Seq<char>,
    event: ProviderEvent,
    other: Seq<char>,
)
    requires
        other != id,
    ensures
        frames_after(held, id, event).contains_key(other) == held.contains_key(other),
        held.contains_key(other) ==> frames_after(held, id, event)[other] == held[other],
{
}

/// Of a provider the frame that came last is held, and none once the link is
/// lost.
pub proof fn law_latest_frame_is_held(
    held: Map<Seq<char>, Seq<ReadingView>>,
    id: Seq<char>,
    event: ProviderEvent,
)
    ensures
        event matches ProviderEvent::Frame(state) ==> frames_after(held, id, event).contains_key(id)
            && frames_after(held, id, event)[id] == state@,
        disconnects(event) ==> !frames_after(held, id, event).contains_key(id),
        !(event is Frame) && !disconnects(event) ==> frames_after(held, id, event) == held,
{
}

/// A frame that comes and is lost again leaves nothing behind.
pub proof fn law_loss_undoes_a_frame(
    held: Map<Seq<char>, Seq<ReadingView>>,
    id: Seq<char>,
    state: HealthState,
    loss: ProviderEvent,
)
    requires
        disconnects(loss),
    ensures
        frames_after(frames_after(held, id, ProviderEvent::Frame(state)), id, loss) == held.remove(
            id,
        ),
        !held.contains_key(id) ==> frames_after(
            frames_after(held, id, ProviderEvent::Frame(state)),
            id,
            loss,
        ) == held,
{
    assert(held.insert(id, state@).remove(id) =~= held.remove(id));
    if !held.contains_key(id) {
        assert(held.remove(id) =~= held);
    }
}

/// A loss is published once: a provider that stays away is not reported again.
pub proof fn law_loss_is_published_once(
    held: Map<Seq<char>, Seq<ReadingView>>,
    id: Seq<char>,
    loss: ProviderEvent,
    again: ProviderEvent,
)
    requires
        disconnects(loss),
        disconnects(again),
    ensures
        publishes(held, id, loss) <==> held.contains_key(id),
        !publishes(frames_after(held, id, loss), id, again),
{
}

/// Events of two providers lead to the same frames in either order.
pub proof fn law_providers_are_independent(
    held: Map<Seq<char>, Seq<ReadingView>>,
    a: Seq<char>,
    event_a: ProviderEvent,
    b: Seq<char>,
    event_b: ProviderEvent,
)
    requires
        a != b,
    ensures
        frames_after(frames_after(held, a, event_a), b, event_b) == frames_after(
            frames_after(held, b, event_b),
            a,
            event_a,
        ),
{
    assert(frames_after(frames_after(held, a, event_a), b, event_b) =~= frames_after(
        frames_after(held, b, event_b),
        a,
        event_a,
    ));
}

/// A provider is never given up: every loss leads to a pause, and every pause
/// to a new attempt. Frames are awaited exactly after the stream was opened
/// and after every frame, and both a frame and a new attempt are waited for for
/// two seconds.
pub proof fn law_lost_providers_are_tried_again(event: ProviderEvent)
    ensures
        disconnects(event) <==> step_after(event) is Pause,
        step_after(ProviderEvent::Paused) is Resolve,
        step_after(event) is Receive <==> event is Opened || event is Frame,
        FRAME_TIMEOUT_SECS == 2,
        RECONNECT_PAUSE_SECS == 2,
{
}

/// A snapshot that is published carries the collector's sequence number and its
/// body. While nothing is held, it says that the body may not move.
pub proof fn law_published_snapshots(
    collector: CollectorView,
    snapshot: SnapshotView,
    before: ClockView,
    after: ClockView,
)
    requires
        collector.wf(),
        collector.shows(snapshot, before, after),
    ensures
        snapshot.seq == collector.sequence,
        snapshot.body_id == collector.body_id,
        snapshot.source_ts_ns == snapshot.soma_ts_ns,
        collector.frames() == Map::<Seq<char>, Seq<ReadingView>>::empty() ==> (
        snapshot.safety matches Some(safety) && !safety.motion_allowed
            && !safety.motor_power_allowed),
{
    if collector.entries.len() > 0 {
        lemma_frame_of_entry(collector.entries, 0);
    }
}

/// The times that the frames of a snapshot were read at.
spec fn frame_times_of(
    collector: CollectorView,
    snapshot: SnapshotView,
    before: ClockView,
    after: ClockView,
) -> Seq<i64> {
    choose|frame_times: Seq<i64>|
        frame_times.len() == collector.entries.len() && snapshot == #[trigger] body_snapshot(
            collector.entries,
            collector.body_id,
            collector.arm_model,
            collector.sequence,
            snapshot.source_ts_ns,
            frame_times,
        ) && before.gives(seq![snapshot.source_ts_ns] + frame_times, after)
}

/// The faults of a snapshot are stamped no earlier than the snapshot itself, and
/// no later than the clock was read last, as long as the clock's count fits a
/// time stamp.
pub proof fn law_faults_are_stamped_after_their_snapshot(
    collector: CollectorView,
    snapshot: SnapshotView,
    before: ClockView,
    after: ClockView,
)
    requires
        collector.shows(snapshot, before, after),
        after.count() <= i64::MAX,
    ensures
        forall|i: int|
            0 <= i < snapshot.faults.len() ==> snapshot.source_ts_ns <= (
            #[trigger] snapshot.faults[i]).onset_ts_ns <= after.stamp(),
{
    let entries = collector.entries;
    let frame_times = frame_times_of(collector, snapshot, before, after);
    let stamps = seq![snapshot.source_ts_ns] + frame_times;
    law_stamps_never_go_back(before, stamps, after);
    assert forall|i: int| 0 <= i < snapshot.faults.len() implies snapshot.source_ts_ns <= (
    #[trigger] snapshot.faults[i]).onset_ts_ns <= after.stamp() by {
        let fault = snapshot.faults[i];
        law_body_has_every_fault(
            entries,
            collector.body_id,
            collector.arm_model,
            collector.sequence,
            snapshot.source_ts_ns,
            frame_times,
            fault,
        );
        assert(snapshot.faults.contains(fault));
        let (k, j) = choose|k: int, j: int|
            0 <= k < entries.len() && 0 <= j < faults_of(
                readout(entries[k].state),
                frame_times[k],
            ).len() && fault == namespaced_fault(
                #[trigger] faults_of(readout(entries[k].state), frame_times[k])[j],
                side_of(entries[k].id),
            );
        law_faults_carry_the_time(readout(entries[k].state), frame_times[k]);
        assert(stamps[0] <= stamps[k + 1]);
    }
}

/// An event of provider `id` and what it led to.
pub struct StepView {
    pub id: Seq<char>,
    pub event: ProviderEvent,
    pub published: Option<SnapshotView>,
    pub collector: CollectorView,
    pub clock: ClockView,
}

/// The collector after a run of steps.
pub open spec fn collector_after(start: CollectorView, steps: Seq<StepView>) -> CollectorView {
    if steps.len() == 0 {
        start
    } else {
        steps.last().collector
    }
}

/// The clock after a run of steps.
pub open spec fn clock_after(clock: ClockView, steps: Seq<StepView>) -> ClockView {
    if steps.len() == 0 {
        clock
    } else {
        steps.last().clock
    }
}

/// Do the steps follow one another, from the collector `start` and the clock
/// `clock` on?
pub open spec fn is_run(start: CollectorView, clock: ClockView, steps: Seq<StepView>) -> bool
    decreases steps.len(),
{
    steps.len() > 0 ==> {
        let earlier = steps.drop_last();
        let step = steps.last();
        &&& is_run(start, clock, earlier)
        &&& collector_after(start, earlier).becomes(
            step.id,
            step.event,
            step.collector,
            step.published,
            clock_after(clock, earlier),
            step.clock,
        )
    }
}

/// The snapshots that a run of steps publishes, in their order.
pub open spec fn snapshots(steps: Seq<StepView>) -> Seq<SnapshotView>
    decreases steps.len(),
{
    if steps.len() == 0 {
        Seq::empty()
    } else {
        match steps.last().published {
            Some(snapshot) => snapshots(steps.drop_last()).push(snapshot),
            None => snapshots(steps.drop_last()),
        }
    }
}

/// Over a whole run the snapshots are numbered one by one: from a new collector
/// on, whose number is 0, the first one has number 1, the second one number 2,
/// and so on. The collector's own number counts them.
pub proof fn law_snapshots_are_numbered(
    start: CollectorView,
    clock: ClockView,
    steps: Seq<StepView>,
)
    requires
        is_run(start, clock, steps),
    ensures
        collector_after(start, steps).sequence == start.sequence + snapshots(steps).len(),
        forall|k: int|
            0 <= k < snapshots(steps).len() ==> (#[trigger] snapshots(steps)[k]).seq
                == start.sequence + k + 1,
        forall|k: int|
            0 <= k < snapshots(steps).len() ==> (#[trigger] snapshots(steps)[k]).body_id
                == start.body_id,
        collector_after(start, steps).same_body(start),
        collector_after(start, steps).body_id == start.body_id,
        collector_after(start, steps).arm_model == start.arm_model,
    decreases steps.len(),
{
    if steps.len() > 0 {
        let earlier = steps.drop_last();
        let step = steps.last();
        law_snapshots_are_numbered(start, clock, earlier);
        if let Some(snapshot) = step.published {
            law_published_snapshots(
                step.collector,
                snapshot,
                clock_after(clock, earlier),
                step.clock,
            );
        }
    }
}

/// Over a whole run the time stamps of the snapshots are not negative and do
/// not go back, as long as the clock's count fits a time stamp.
pub proof fn law_snapshots_come_in_the_order_of_time(
    start: CollectorView,
    clock: ClockView,
    steps: Seq<StepView>,
)
    requires
        is_run(start, clock, steps),
        clock_after(clock, steps).count() <= i64::MAX,
    ensures
        clock_after(clock, steps).count() >= clock.count(),
        forall|k: int|
            0 <= k < snapshots(steps).len() ==> 0 <= (#[trigger] snapshots(steps)[k]).source_ts_ns
                <= clock_after(clock, steps).stamp(),
        forall|j: int, k: int|
            0 <= j <= k < snapshots(steps).len() ==> (#[trigger] snapshots(steps)[j]).source_ts_ns
                <= (#[trigger] snapshots(steps)[k]).source_ts_ns,
    decreases steps.len(),
{
    if steps.len() > 0 {
        let earlier = steps.drop_last();
        let step = steps.last();
        let before = clock_after(clock, earlier);
        if let Some(snapshot) = step.published {
            let frame_times = frame_times_of(step.collector, snapshot, before, step.clock);
            let stamps = seq![snapshot.source_ts_ns] + frame_times;
            law_stamps_never_go_back(before, stamps, step.clock);
            assert(stamps[0] == snapshot.source_ts_ns);
        }
        law_snapshots_come_in_the_order_of_time(start, clock, earlier);
    }
}

/// What each event does. A provider is resolved first, and again after every
/// pause; then it is opened where it was found, and its frames are received. A
/// frame is held and published. Whatever ends the link makes the collector pause
/// and give up the frame of the provider, and is published where there was one.
pub proof fn law_what_each_event_does(
    held: Map<Seq<char>, Seq<ReadingView>>,
    id: Seq<char>,
    event: ProviderEvent,
)
    ensures
        match event {
            ProviderEvent::Started | ProviderEvent::Paused => {
                &&& step_after(event) == NextStep::Resolve
                &&& frames_after(held, id, event) == held
                &&& !publishes(held, id, event)
            },
            ProviderEvent::Resolved(Ok(target)) => {
                &&& step_after(event) == NextStep::Open(target)
                &&& frames_after(held, id, event) == held
                &&& !publishes(held, id, event)
            },
            ProviderEvent::Opened => {
                &&& step_after(event) == NextStep::Receive
                &&& frames_after(held, id, event) == held
                &&& !publishes(held, id, event)
            },
            ProviderEvent::Frame(state) => {
                &&& step_after(event) == NextStep::Receive
                &&& frames_after(held, id, event) == held.insert(id, state@)
                &&& publishes(held, id, event)
            },
            ProviderEvent::Resolved(Err(_))
            | ProviderEvent::ResolveFailed
            | ProviderEvent::OpenFailed
            | ProviderEvent::StreamEnded
            | ProviderEvent::StreamFailed
            | ProviderEvent::TimedOut => {
                &&& step_after(event) == NextStep::Pause
                &&& frames_after(held, id, event) == held.remove(id)
                &&& publishes(held, id, event) <==> held.contains_key(id)
            },
        },
{
}

/// A snapshot that is published shows what the collector holds: but for its
/// times, it is the snapshot of the body out of the frames that are held, under
/// the collector's own number, body and arm model.
pub proof fn law_published_snapshots_show_what_is_held(
    collector: CollectorView,
    snapshot: SnapshotView,
    before: ClockView,
    after: ClockView,
    now_ns: i64,
    frame_times: Seq<i64>,
)
    requires
        collector.shows(snapshot, before, after),
    ensures
        untimed(snapshot) == untimed(
            body_snapshot(
                collector.entries,
                collector.body_id,
                collector.arm_model,
                collector.sequence,
                now_ns,
                frame_times,
            ),
        ),
{
    let stamped = frame_times_of(collector, snapshot, before, after);
    law_last_readings_decide_the_body(
        collector.entries,
        collector.entries,
        collector.body_id,
        collector.arm_model,
        collector.sequence,
        snapshot.source_ts_ns,
        now_ns,
        stamped,
        frame_times,
    );
}

/// What a step of the collector does: it publishes on a frame, and on a loss of a
/// provider of which a frame was held, and then counts one up; it holds the frame
/// of a provider exactly until that provider is lost, and the frames of all
/// others as before; it serves the same body with the same arm model. Without a
/// snapshot nothing changes and the clock is not read.
pub proof fn law_steps_of_the_collector(
    collector: CollectorView,
    id: Seq<char>,
    event: ProviderEvent,
    next: CollectorView,
    published: Option<SnapshotView>,
    before: ClockView,
    after: ClockView,
    other: Seq<char>,
)
    requires
        collector.becomes(id, event, next, published, before, after),
        other != id,
    ensures
        ordered(next.entries),
        next.body_id == collector.body_id,
        next.arm_model == collector.arm_model,
        event matches ProviderEvent::Frame(state) ==> frames(next.entries).contains_key(id)
            && frames(next.entries)[id] == state@,
        step_after(event) is Pause ==> !frames(next.entries).contains_key(id),
        frames(next.entries).contains_key(other) <==> frames(collector.entries).contains_key(other),
        frames(collector.entries).contains_key(other) ==> frames(next.entries)[other] == frames(
            collector.entries,
        )[other],
        published is Some <==> event is Frame || (step_after(event) is Pause && frames(
            collector.entries,
        ).contains_key(id)),
        published is None ==> next == collector && after == before,
        published matches Some(snapshot) ==> {
            &&& next.sequence == collector.sequence + 1
            &&& snapshot.seq == collector.sequence + 1
            &&& snapshot.body_id == collector.body_id
            &&& snapshot.soma_ts_ns == snapshot.source_ts_ns
            &&& after.begun == before.begun
            &&& nanos_between(after.latest, after.begun) >= nanos_between(
                before.latest,
                before.begun,
            )
        },
{
    law_what_each_event_does(collector.frames(), id, event);
    if let Some(snapshot) = published {
        law_published_snapshots(next, snapshot, before, after);
        let stamps = seq![snapshot.source_ts_ns] + frame_times_of(next, snapshot, before, after);
        law_stamps_never_go_back(before, stamps, after);
    }
}

} // verus!
