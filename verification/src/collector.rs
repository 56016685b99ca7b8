//! What the collector does on each event: which frames it holds, what it
//! publishes, and what comes next.

use crate::clock::{Clock, ClockView};
use crate::dial::DialError;
use crate::merge::{body_snapshot, merged_health_snapshot};
use crate::model::{
    option_view, views, HealthState, ReadingView, SnapshotView, SomaHealthSnapshot,
};
use crate::providers::{
    frames, law_frames_determine_the_listing, ordered, EntryView, ProviderTable,
};
use crate::text::same;
use tonic::transport::Endpoint;
use vstd::prelude::*;

verus! {

/// How long the next frame may take, in seconds.
pub const FRAME_TIMEOUT_SECS: u64 = 2;

/// How long to pause before a provider is dialled again, in seconds.
pub const RECONNECT_PAUSE_SECS: u64 = 2;

/// The items of a sequence without those that stood in it earlier.
pub open spec fn first_occurrences(ids: Seq<Seq<char>>) -> Seq<Seq<char>>
    decreases ids.len(),
{
    if ids.len() == 0 {
        Seq::empty()
    } else {
        let earlier = first_occurrences(ids.drop_last());
        if ids.drop_last().contains(ids.last()) {
            earlier
        } else {
            earlier.push(ids.last())
        }
    }
}

/// The providers to collect from, each once, in the order in which they were
/// found. Without any there is nothing to collect.
pub fn plan_collection(found: Vec<String>) -> (r: Option<Vec<String>>)
    ensures
        r is None <==> found@.len() == 0,
        r matches Some(providers) ==> views(providers@) == first_occurrences(views(found@)),
{
    if found.len() == 0 {
        return None;
    }
    let ghost ids = views(found@);
    let mut providers: Vec<String> = Vec::new();
    let mut i: usize = 0;
    assert(views(providers@) =~= first_occurrences(ids.take(0)));
    while i < found.len()
        invariant
            i <= found@.len(),
            ids == views(found@),
            views(providers@) == first_occurrences(ids.take(i as int)),
        decreases found@.len() - i,
    {
        let ghost seen = ids.take(i as int);
        proof {
            assert(ids.take(i + 1).drop_last() =~= seen);
            assert(ids.take(i + 1).last() == found@[i as int]@);
        }
        let mut known = false;
        let mut k: usize = 0;
        while k < i
            invariant
                k <= i < found@.len(),
                ids == views(found@),
                seen == ids.take(i as int),
                known == exists|j: int| 0 <= j < k && #[trigger] seen[j] == found@[i as int]@,
            decreases i - k,
        {
            if same(found[k].as_str(), found[i].as_str()) {
                assert(seen[k as int] == found@[k as int]@);
                known = true;
            }
            assert(seen[k as int] == found@[k as int]@);
            k = k + 1;
        }
        assert(known == seen.contains(found@[i as int]@));
        if !known {
            let ghost sofar = providers@;
            let id = found[i].clone();
            providers.push(id);
            assert(views(providers@) =~= views(sofar).push(id@));
        }
        i = i + 1;
    }
    assert(ids.take(found@.len() as int) =~= ids);
    Some(providers)
}

/// What the collector holds: the latest frame of every connected provider and
/// the number of the last snapshot that it published.
#[derive(Debug)]
pub struct Collector {
    states: ProviderTable,
    sequence: u64,
    body_id: String,
    arm_model: String,
}

/// The view of [`Collector`].
#[verifier::ext_equal]
pub struct CollectorView {
    pub entries: Seq<EntryView>,
    pub sequence: u64,
    pub body_id: Seq<char>,
    pub arm_model: Seq<char>,
}

impl View for Collector {
    type V = CollectorView;

    closed spec fn view(&self) -> CollectorView {
        CollectorView {
            entries: self.states@,
            sequence: self.sequence,
            body_id: self.body_id@,
            arm_model: self.arm_model@,
        }
    }
}

impl CollectorView {
    /// Every provider has at most one entry, and the entries are in order.
    pub open spec fn wf(self) -> bool {
        ordered(self.entries)
    }

    /// Which frame is held for which provider.
    pub open spec fn frames(self) -> Map<Seq<char>, Seq<ReadingView>> {
        frames(self.entries)
    }

    /// Is the collector the same as `other` but for the frames it holds and
    /// its sequence number?
    pub open spec fn same_body(self, other: CollectorView) -> bool {
        self.body_id == other.body_id && self.arm_model == other.arm_model
    }

    /// Is `snapshot` one of what the collector holds, under its sequence
    /// number, with the time stamps that the clock `before` gave until it was
    /// `after`?
    pub open spec fn shows(
        self,
        snapshot: SnapshotView,
        before: ClockView,
        after: ClockView,
    ) -> bool {
        exists|frame_times: Seq<i64>|
            frame_times.len() == self.entries.len() && snapshot == #[trigger] body_snapshot(
                self.entries,
                self.body_id,
                self.arm_model,
                self.sequence,
                snapshot.source_ts_ns,
                frame_times,
            ) && before.gives(seq![snapshot.source_ts_ns] + frame_times, after)
    }

    /// Can an event of provider `id` lead from the collector to `next`, with
    /// `published` as the snapshot that it leads to, if any? The clock is read
    /// for the snapshot alone, and goes from `before` to `after`.
    pub open spec fn becomes(
        self,
        id: Seq<char>,
        event: ProviderEvent,
        next: CollectorView,
        published: Option<SnapshotView>,
        before: ClockView,
        after: ClockView,
    ) -> bool {
        &&& next.wf()
        &&& next.same_body(self)
        &&& next.frames() == frames_after(self.frames(), id, event)
        &&& published is Some <==> publishes(self.frames(), id, event)
        &&& published is None ==> next == self && after == before
        &&& published matches Some(snapshot) ==> {
            &&& next.sequence == self.sequence + 1
            &&& next.shows(snapshot, before, after)
        }
    }
}

/// What happened to the link with a provider.
#[derive(Debug)]
pub enum ProviderEvent {
    /// The provider's task began.
    Started,
    /// The provider's address was found; this is where to dial it.
    Resolved(Result<Endpoint, DialError>),
    /// The provider's address could not be found.
    ResolveFailed,
    /// The stream of frames was opened.
    Opened,
    /// The stream could not be opened.
    OpenFailed,
    /// A frame came.
    Frame(HealthState),
    /// The provider ended the stream.
    StreamEnded,
    /// The stream broke.
    StreamFailed,
    /// No frame came in time.
    TimedOut,
    /// The pause before the next attempt is over.
    Paused,
}

/// What to do next with a provider.
#[derive(Debug)]
pub enum NextStep {
    /// Ask for the provider's address.
    Resolve,
    /// Open the stream of frames there.
    Open(Endpoint),
    /// Wait for the next frame, for no longer than the time-out.
    Receive,
    /// Pause before the provider is tried again.
    Pause,
}

/// What to do on an event: publish a snapshot if there is one, then go on.
#[derive(Debug)]
pub struct ProviderAction {
    pub publish: Option<SomaHealthSnapshot>,
    pub next: NextStep,
}

/// Does the event end the link with the provider?
pub open spec fn disconnects(event: ProviderEvent) -> bool {
    match event {
        ProviderEvent::Resolved(target) => target is Err,
        ProviderEvent::ResolveFailed
        | ProviderEvent::OpenFailed
        | ProviderEvent::StreamEnded
        | ProviderEvent::StreamFailed
        | ProviderEvent::TimedOut => true,
        _ => false,
    }
}

/// What comes after an event.
pub open spec fn step_after(event: ProviderEvent) -> NextStep {
    match event {
        ProviderEvent::Started | ProviderEvent::Paused => NextStep::Resolve,
        ProviderEvent::Resolved(Ok(target)) => NextStep::Open(target),
        ProviderEvent::Opened | ProviderEvent::Frame(_) => NextStep::Receive,
        _ => NextStep::Pause,
    }
}

/// The frames that are held after an event of provider `id`.
pub open spec fn frames_after(
    held: Map<Seq<char>, Seq<ReadingView>>,
    id: Seq<char>,
    event: ProviderEvent,
) -> Map<Seq<char>, Seq<ReadingView>> {
    match event {
        ProviderEvent::Frame(state) => held.insert(id, state@),
        _ => if disconnects(event) {
            held.remove(id)
        } else {
            held
        },
    }
}

/// A snapshot is published when a frame comes, and when a provider is lost of
/// which a frame was held.
pub open spec fn publishes(
    held: Map<Seq<char>, Seq<ReadingView>>,
    id: Seq<char>,
    event: ProviderEvent,
) -> bool {
    event is Frame || (disconnects(event) && held.contains_key(id))
}

impl Collector {
    /// A collector that holds no frame and has published nothing.
    pub fn new(body_id: String, arm_model: String) -> (r: Self)
        ensures
            r@.wf(),
            r@.entries == Seq::<EntryView>::empty(),
            r@.sequence == 0,
            r@.body_id == body_id@,
            r@.arm_model == arm_model@,
    {
        Collector { states: ProviderTable::new(), sequence: 0, body_id, arm_model }
    }

    /// The number of the last snapshot.
    pub fn sequence(&self) -> (r: u64)
        ensures
            r == self@.sequence,
    {
        self.sequence
    }

    /// Holds a frame and counts the snapshot that it leads to. Returns the
    /// number of that snapshot.
    pub fn record_frame(&mut self, provider_id: &str, state: HealthState) -> (r: u64)
        requires
            old(self)@.wf(),
            old(self)@.sequence < u64::MAX,
        ensures
            final(self)@.wf(),
            final(self)@.same_body(old(self)@),
            final(self)@.frames() == old(self)@.frames().insert(provider_id@, state@),
            final(self)@.sequence == old(self)@.sequence + 1,
            r == final(self)@.sequence,
    {
        self.states.insert(provider_id, state);
        self.sequence = self.sequence + 1;
        self.sequence
    }

    /// Gives up the frame of a provider. Where one was held, counts the
    /// snapshot that this leads to and returns its number.
    pub fn drop_provider(&mut self, provider_id: &str) -> (r: Option<u64>)
        requires
            old(self)@.wf(),
            old(self)@.frames().contains_key(provider_id@) ==> old(self)@.sequence < u64::MAX,
        ensures
            final(self)@.wf(),
            final(self)@.same_body(old(self)@),
            final(self)@.frames() == old(self)@.frames().remove(provider_id@),
            r is Some <==> old(self)@.frames().contains_key(provider_id@),
            r matches Some(n) ==> n == old(self)@.sequence + 1 && n == final(self)@.sequence,
            r is None ==> final(self)@ == old(self)@,
    {
        let ghost was = self@;
        let removed = self.states.remove(provider_id);
        if removed {
            self.sequence = self.sequence + 1;
            Some(self.sequence)
        } else {
            proof {
                assert(frames(was.entries).remove(provider_id@) =~= frames(was.entries));
                law_frames_determine_the_listing(self@.entries, was.entries);
            }
            None
        }
    }

    /// The snapshot of what is held, under the present sequence number.
    pub fn snapshot(&self, clock: &mut Clock) -> (r: SomaHealthSnapshot)
        ensures
            self@.shows(r@, old(clock)@, final(clock)@),
    {
        merged_health_snapshot(
            &self.states,
            self.body_id.as_str(),
            self.arm_model.as_str(),
            self.sequence,
            clock,
        )
    }

    /// Is there a number left for the snapshot that the event leads to, if it
    /// leads to any?
    pub fn can_handle(&self, provider_id: &str, event: &ProviderEvent) -> (r: bool)
        requires
            self@.wf(),
        ensures
            r == (publishes(self@.frames(), provider_id@, *event) ==> self@.sequence < u64::MAX),
    {
        if self.sequence < u64::MAX {
            return true;
        }
        match event {
            ProviderEvent::Started
            | ProviderEvent::Paused
            | ProviderEvent::Resolved(Ok(_))
            | ProviderEvent::Opened => true,
            ProviderEvent::Frame(_) => false,
            _ => !self.states.holds(provider_id),
        }
    }

    /// Takes an event of provider `provider_id` into account and says what to
    /// do.
    pub fn handle(&mut self, provider_id: &str, event: ProviderEvent, clock: &mut Clock) -> (r:
        ProviderAction)
        requires
            old(self)@.wf(),
            publishes(old(self)@.frames(), provider_id@, event) ==> old(self)@.sequence < u64::MAX,
        ensures
            old(self)@.becomes(
                provider_id@,
                event,
                final(self)@,
                option_view(r.publish),
                old(clock)@,
                final(clock)@,
            ),
            r.next == step_after(event),
    {
        match event {
            ProviderEvent::Started | ProviderEvent::Paused => ProviderAction {
                publish: None,
                next: NextStep::Resolve,
            },
            ProviderEvent::Resolved(Ok(target)) => ProviderAction {
                publish: None,
                next: NextStep::Open(target),
            },
            ProviderEvent::Opened => ProviderAction { publish: None, next: NextStep::Receive },
            ProviderEvent::Frame(state) => {
                self.record_frame(provider_id, state);
                ProviderAction { publish: Some(self.snapshot(clock)), next: NextStep::Receive }
            },
            _ => {
                let publish = match self.drop_provider(provider_id) {
                    Some(_) => Some(self.snapshot(clock)),
                    None => None,
                };
                ProviderAction { publish, next: NextStep::Pause }
            },
        }
    }
}

} // verus!
