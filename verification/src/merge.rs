//! One snapshot for the whole body out of the snapshots of its arms.

use crate::clock::{chrono_now_ns, lemma_another_reading, lemma_one_reading, Clock};
use crate::codes::{
    KIND_BODY, SAFETY_ESTOP, SAFETY_FAULT, SAFETY_NORMAL, SCHEMA_VERSION, SNAPSHOT_TTL_MS,
};
use crate::model::{
    lemma_views_push, views, ActuatorState, ActuatorView, ComponentStatus, ComponentView,
    EndpointView, FaultState, FaultView, SafetyEndpoint, SafetyState, SafetyView, SnapshotView,
    SomaHealthSnapshot,
};
use crate::providers::{EntryView, ProviderTable};
use crate::snapshot::{
    arm_snapshot, component, component_view, empty_snapshot_at, snapshot_at,
    unknown_snapshot,
};
use crate::text::{
    begins_with, characters, decimal, decimal_text, drop_prefixes, find_first, join, lower,
    lowercased, occurs_at, occurs_in, replace_first, replaced_first, same, without_prefixes,
};
use vstd::prelude::*;

verus! {

/// The side of the body that a provider's id speaks of.
pub open spec fn side_of(provider_id: Seq<char>) -> Seq<char> {
    if occurs_in(lowercased(provider_id), "right"@) {
        "right"@
    } else if occurs_in(lowercased(provider_id), "left"@) {
        "left"@
    } else {
        "arm"@
    }
}

/// The component id of the arm on a side.
pub open spec fn arm_id(side: Seq<char>) -> Seq<char> {
    "body/"@ + side + "_arm"@
}

/// A component path with the arm in it replaced by `arm`. The body keeps its
/// path.
pub open spec fn namespaced_path(path: Seq<char>, arm: Seq<char>) -> Seq<char> {
    if path == "body"@ || path.len() == 0 {
        path
    } else {
        replaced_first(path, "body/arm"@, arm)
    }
}

/// The name of a frame or joint, made that of a side. Names that do not belong
/// to an arm stay.
pub open spec fn namespaced_frame(frame: Seq<char>, side: Seq<char>) -> Seq<char> {
    if frame == "arm_base_link"@ {
        side + "_base_link"@
    } else if frame == "gripper_base"@ || frame == "gripper"@ {
        side + "_gripper_base"@
    } else if occurs_at(frame, "joint_"@, 0) {
        side + "_joint"@ + without_prefixes(frame, "joint_"@)
    } else {
        frame
    }
}

/// The upper-case mapping of a character, as the standard library has it.
pub uninterp spec fn unicode_uppercase(c: char) -> Seq<char>;

/// The upper-case mapping of a character. That of an ASCII character is known.
pub open spec fn uppercase(c: char) -> Seq<char> {
    if 'a' <= c && c <= 'z' {
        seq![(c as u32 - 32) as char]
    } else if c <= '\u{7f}' {
        seq![c]
    } else {
        unicode_uppercase(c)
    }
}

/// The text with its first character in upper case.
pub open spec fn title_cased(text: Seq<char>) -> Seq<char> {
    if text.len() == 0 {
        Seq::empty()
    } else {
        uppercase(text[0]) + text.subrange(1, text.len() as int)
    }
}

/// Calls [`char::to_uppercase`] and collects what it yields. For an ASCII
/// character the mapping is claimed to be the one of ASCII; for any other it
/// has a name, and nothing more is claimed of it.
#[verifier::external_body]
fn uppercase_of(c: char) -> (r: String)
    ensures
        'a' <= c && c <= 'z' ==> r@ == seq![(c as u32 - 32) as char],
        c <= '\u{7f}' && !('a' <= c && c <= 'z') ==> r@ == seq![c],
        c > '\u{7f}' ==> r@ == unicode_uppercase(c),
{
    c.to_uppercase().to_string()
}

/// The text with its first character in upper case.
pub fn title_case(value: &str) -> (r: String)
    ensures
        r@ == title_cased(value@),
{
    let text = characters(value);
    if text.len() == 0 {
        return String::new();
    }
    let mut r = uppercase_of(text[0]);
    r.append(value.substring_char(1, text.len()));
    r
}

/// The side of the body that a provider's id speaks of.
pub fn provider_side(provider_id: &str) -> (r: &'static str)
    ensures
        r@ == side_of(provider_id@),
{
    let normalized = lower(provider_id);
    if find_first(&normalized, &characters("right")).is_some() {
        "right"
    } else if find_first(&normalized, &characters("left")).is_some() {
        "left"
    } else {
        "arm"
    }
}

/// A component path with the arm in it replaced by `arm_id`.
pub fn namespace_path(path: &str, arm_id: &str) -> (r: String)
    ensures
        r@ == namespaced_path(path@, arm_id@),
{
    if same(path, "body") || path.is_empty() {
        return path.to_owned();
    }
    replace_first(path, "body/arm", arm_id)
}

/// The name of a frame or joint, made that of a side.
pub fn namespace_frame(frame: &str, side: &str) -> (r: String)
    ensures
        r@ == namespaced_frame(frame@, side@),
{
    if same(frame, "arm_base_link") {
        join(side, "_base_link")
    } else if same(frame, "gripper_base") || same(frame, "gripper") {
        join(side, "_gripper_base")
    } else if begins_with(frame, "joint_") {
        let rest = drop_prefixes(frame, "joint_");
        join(join(side, "_joint").as_str(), rest.as_str())
    } else {
        frame.to_owned()
    }
}

/// A component of a single arm, made part of a body with arms on several
/// sides.
pub open spec fn namespaced_component(item: ComponentView, side: Seq<char>) -> ComponentView {
    let id = namespaced_path(item.id, arm_id(side));
    ComponentView {
        id,
        parent_id: namespaced_path(item.parent_id, arm_id(side)),
        frame_id: namespaced_frame(item.frame_id, side),
        name: if id == arm_id(side) {
            title_cased(side) + " Piper arm"@
        } else {
            item.name
        },
        ..item
    }
}

/// Is the component below the body?
pub open spec fn below_body(item: ComponentView) -> bool {
    item.id != "body"@
}

/// The components that the arm on a side adds to the body: all but the body
/// itself.
pub open spec fn namespaced_components(items: Seq<ComponentView>, side: Seq<char>) -> Seq<
    ComponentView,
> {
    items.filter(|item: ComponentView| below_body(item)).map_values(
        |item: ComponentView| namespaced_component(item, side),
    )
}

/// An actuator of a single arm, made that of a side.
pub open spec fn namespaced_actuator(item: ActuatorView, side: Seq<char>) -> ActuatorView {
    ActuatorView {
        component_id: namespaced_path(item.component_id, arm_id(side)),
        joint_name: namespaced_frame(item.joint_name, side),
        ..item
    }
}

/// A fault of a single arm, made that of a side.
pub open spec fn namespaced_fault(item: FaultView, side: Seq<char>) -> FaultView {
    FaultView {
        component_id: namespaced_path(item.component_id, arm_id(side)),
        fault_id: side + "_"@ + item.fault_id,
        ..item
    }
}

/// A safety endpoint of a single arm, made that of a side.
pub open spec fn namespaced_endpoint(item: EndpointView, side: Seq<char>) -> EndpointView {
    EndpointView { name: side + "_"@ + item.name }
}

/// The snapshot of one provider.
#[derive(Debug, PartialEq, Eq)]
pub struct ProviderSnapshot {
    pub provider_id: String,
    pub snapshot: SomaHealthSnapshot,
}

/// The view of [`ProviderSnapshot`].
#[verifier::ext_equal]
pub struct PartView {
    pub provider_id: Seq<char>,
    pub snapshot: SnapshotView,
}

impl View for ProviderSnapshot {
    type V = PartView;

    open spec fn view(&self) -> PartView {
        PartView { provider_id: self.provider_id@, snapshot: self.snapshot@ }
    }
}

impl PartView {
    /// The side of the body that the provider serves.
    pub open spec fn side(self) -> Seq<char> {
        side_of(self.provider_id)
    }

    pub open spec fn components(self) -> Seq<ComponentView> {
        namespaced_components(self.snapshot.components, self.side())
    }

    pub open spec fn actuators(self) -> Seq<ActuatorView> {
        self.snapshot.actuators.map_values(
            |item: ActuatorView| namespaced_actuator(item, self.side()),
        )
    }

    pub open spec fn faults(self) -> Seq<FaultView> {
        self.snapshot.faults.map_values(|item: FaultView| namespaced_fault(item, self.side()))
    }

    pub open spec fn endpoints(self) -> Seq<EndpointView> {
        self.snapshot.safety_endpoints.map_values(
            |item: EndpointView| namespaced_endpoint(item, self.side()),
        )
    }

    /// Does nothing that the provider says forbid motion?
    pub open spec fn permits_motion(self) -> bool {
        self.snapshot.safety matches Some(s) ==> s.motion_allowed
    }

    /// Does nothing that the provider says forbid motor power?
    pub open spec fn permits_power(self) -> bool {
        self.snapshot.safety matches Some(s) ==> s.motor_power_allowed
    }

    /// Does the provider report the safety state `state`?
    pub open spec fn reports(self, state: u32) -> bool {
        self.snapshot.safety matches Some(s) && s.aggregate_state == state
    }
}

/// What a list of providers adds up to, one after the other.
pub open spec fn all_components(parts: Seq<PartView>) -> Seq<ComponentView>
    decreases parts.len(),
{
    if parts.len() == 0 {
        Seq::empty()
    } else {
        all_components(parts.drop_last()) + parts.last().components()
    }
}

pub open spec fn all_actuators(parts: Seq<PartView>) -> Seq<ActuatorView>
    decreases parts.len(),
{
    if parts.len() == 0 {
        Seq::empty()
    } else {
        all_actuators(parts.drop_last()) + parts.last().actuators()
    }
}

pub open spec fn all_faults(parts: Seq<PartView>) -> Seq<FaultView>
    decreases parts.len(),
{
    if parts.len() == 0 {
        Seq::empty()
    } else {
        all_faults(parts.drop_last()) + parts.last().faults()
    }
}

pub open spec fn all_endpoints(parts: Seq<PartView>) -> Seq<EndpointView>
    decreases parts.len(),
{
    if parts.len() == 0 {
        Seq::empty()
    } else {
        all_endpoints(parts.drop_last()) + parts.last().endpoints()
    }
}

/// Does any provider report the safety state `state`?
pub open spec fn any_reports(parts: Seq<PartView>, state: u32) -> bool {
    exists|k: int| 0 <= k < parts.len() && (#[trigger] parts[k]).reports(state)
}

/// The body may do what every arm may do. An emergency stop of any arm is one
/// of the body, and short of that a fault of any arm is one of the body.
pub open spec fn merged_safety(parts: Seq<PartView>) -> SafetyView {
    SafetyView {
        motion_allowed: forall|k: int|
            0 <= k < parts.len() ==> (#[trigger] parts[k]).permits_motion(),
        motor_power_allowed: forall|k: int|
            0 <= k < parts.len() ==> (#[trigger] parts[k]).permits_power(),
        aggregate_state: if any_reports(parts, SAFETY_ESTOP) {
            SAFETY_ESTOP
        } else if any_reports(parts, SAFETY_FAULT) {
            SAFETY_FAULT
        } else {
            SAFETY_NORMAL
        },
        detail: decimal(parts.len()) + " Piper health provider(s) aggregated"@,
    }
}

/// The snapshot of the whole body.
pub open spec fn merged_snapshot(
    parts: Seq<PartView>,
    body_id: Seq<char>,
    seq: u64,
    now_ns: i64,
) -> SnapshotView {
    SnapshotView {
        schema_version: SCHEMA_VERSION,
        body_id,
        seq,
        source_ts_ns: now_ns,
        soma_ts_ns: now_ns,
        ttl_ms: SNAPSHOT_TTL_MS,
        components: seq![
            component_view("body"@, ""@, KIND_BODY, "Dual Piper robot"@, "dual_piper_base"@, body_id),
        ] + all_components(parts),
        actuators: all_actuators(parts),
        power_sources: Seq::empty(),
        safety: Some(merged_safety(parts)),
        safety_endpoints: all_endpoints(parts),
        faults: all_faults(parts),
        metrics: Seq::empty(),
    }
}

/// Adds the components of the arm on a side to `out`.
fn add_components(out: &mut Vec<ComponentStatus>, items: Vec<ComponentStatus>, side: &str)
    ensures
        views(final(out)@) == views(old(out)@) + namespaced_components(views(items@), side@),
{
    broadcast use lemma_views_push;

    let arm = join(join("body/", side).as_str(), "_arm");
    let ghost start = views(out@);
    let ghost given = views(items@);
    let ghost keep = |item: ComponentView| below_body(item);
    let ghost change = |item: ComponentView| namespaced_component(item, side@);
    proof {
        reveal(Seq::filter);
        assert(start =~= start + given.take(0).filter(keep).map_values(change));
    }
    for item in it: items
        invariant
            it.seq() == items@,
            given == views(items@),
            arm@ == arm_id(side@),
            keep == (|item: ComponentView| below_body(item)),
            change == (|item: ComponentView| namespaced_component(item, side@)),
            views(out@) == start + given.take(it.index() as int).filter(keep).map_values(change),
    {
        let ghost k = it.index() as int;
        let ghost sofar = out@;
        let ghost raw = item@;
        proof {
            assert(given.take(k + 1) =~= given.take(k).push(raw));
            given.take(k).lemma_filter_push(raw, keep);
            let kept = given.take(k).filter(keep);
            assert(kept.push(raw).map_values(change) =~= kept.map_values(change).push(change(raw)));
        }
        let mut item = item;
        if !same(item.id.as_str(), "body") {
            item.id = namespace_path(item.id.as_str(), arm.as_str());
            item.parent_id = namespace_path(item.parent_id.as_str(), arm.as_str());
            item.frame_id = namespace_frame(item.frame_id.as_str(), side);
            if same(item.id.as_str(), arm.as_str()) {
                item.name = join(title_case(side).as_str(), " Piper arm");
            }
            assert(item@ == namespaced_component(raw, side@));
            out.push(item);
            assert(views(out@) == views(sofar).push(item@));
        }
        assert(views(out@) =~= start + given.take(k + 1).filter(keep).map_values(change));
    }
    assert(given.take(given.len() as int) =~= given);
}

/// Adds the actuators of the arm on a side to `out`.
fn add_actuators(out: &mut Vec<ActuatorState>, items: Vec<ActuatorState>, side: &str)
    ensures
        views(final(out)@) == views(old(out)@) + views(items@).map_values(
            |item: ActuatorView| namespaced_actuator(item, side@),
        ),
{
    broadcast use lemma_views_push;

    let arm = join(join("body/", side).as_str(), "_arm");
    let ghost start = views(out@);
    let ghost given = views(items@);
    let ghost change = |item: ActuatorView| namespaced_actuator(item, side@);
    assert(start =~= start + given.take(0).map_values(change));
    for item in it: items
        invariant
            it.seq() == items@,
            given == views(items@),
            arm@ == arm_id(side@),
            change == (|item: ActuatorView| namespaced_actuator(item, side@)),
            views(out@) == start + given.take(it.index() as int).map_values(change),
    {
        let ghost k = it.index() as int;
        let ghost sofar = out@;
        let ghost raw = item@;
        assert(given.take(k + 1) =~= given.take(k).push(raw));
        let mut item = item;
        item.component_id = namespace_path(item.component_id.as_str(), arm.as_str());
        item.joint_name = namespace_frame(item.joint_name.as_str(), side);
        assert(item@ == namespaced_actuator(raw, side@));
        out.push(item);
        assert(views(out@) == views(sofar).push(item@));
        assert(views(out@) =~= start + given.take(k + 1).map_values(change));
    }
    assert(given.take(given.len() as int) =~= given);
}

/// Adds the faults of the arm on a side to `out`.
fn add_faults(out: &mut Vec<FaultState>, items: Vec<FaultState>, side: &str)
    ensures
        views(final(out)@) == views(old(out)@) + views(items@).map_values(
            |item: FaultView| namespaced_fault(item, side@),
        ),
{
    broadcast use lemma_views_push;

    let arm = join(join("body/", side).as_str(), "_arm");
    let prefix = join(side, "_");
    let ghost start = views(out@);
    let ghost given = views(items@);
    let ghost change = |item: FaultView| namespaced_fault(item, side@);
    assert(start =~= start + given.take(0).map_values(change));
    for item in it: items
        invariant
            it.seq() == items@,
            given == views(items@),
            arm@ == arm_id(side@),
            prefix@ == side@ + "_"@,
            change == (|item: FaultView| namespaced_fault(item, side@)),
            views(out@) == start + given.take(it.index() as int).map_values(change),
    {
        let ghost k = it.index() as int;
        let ghost sofar = out@;
        let ghost raw = item@;
        assert(given.take(k + 1) =~= given.take(k).push(raw));
        let mut item = item;
        item.component_id = namespace_path(item.component_id.as_str(), arm.as_str());
        item.fault_id = join(prefix.as_str(), item.fault_id.as_str());
        assert(item@ == namespaced_fault(raw, side@));
        out.push(item);
        assert(views(out@) == views(sofar).push(item@));
        assert(views(out@) =~= start + given.take(k + 1).map_values(change));
    }
    assert(given.take(given.len() as int) =~= given);
}

/// Adds the safety endpoints of the arm on a side to `out`.
fn add_endpoints(out: &mut Vec<SafetyEndpoint>, items: Vec<SafetyEndpoint>, side: &str)
    ensures
        views(final(out)@) == views(old(out)@) + views(items@).map_values(
            |item: EndpointView| namespaced_endpoint(item, side@),
        ),
{
    broadcast use lemma_views_push;

    let prefix = join(side, "_");
    let ghost start = views(out@);
    let ghost given = views(items@);
    let ghost change = |item: EndpointView| namespaced_endpoint(item, side@);
    assert(start =~= start + given.take(0).map_values(change));
    for item in it: items
        invariant
            it.seq() == items@,
            given == views(items@),
            prefix@ == side@ + "_"@,
            change == (|item: EndpointView| namespaced_endpoint(item, side@)),
            views(out@) == start + given.take(it.index() as int).map_values(change),
    {
        let ghost k = it.index() as int;
        let ghost sofar = out@;
        let ghost raw = item@;
        assert(given.take(k + 1) =~= given.take(k).push(raw));
        let mut item = item;
        item.name = join(prefix.as_str(), item.name.as_str());
        assert(item@ == namespaced_endpoint(raw, side@));
        out.push(item);
        assert(views(out@) == views(sofar).push(item@));
        assert(views(out@) =~= start + given.take(k + 1).map_values(change));
    }
    assert(given.take(given.len() as int) =~= given);
}

/// Merges the snapshots of the providers, in the order in which they are
/// listed, into one of the whole body, stamped with the time `now_ns`.
pub fn merge_snapshots(parts: Vec<ProviderSnapshot>, body_id: &str, seq: u64, now_ns: i64) -> (r:
    SomaHealthSnapshot)
    requires
        parts@.len() > 0,
    ensures
        r@ == merged_snapshot(views(parts@), body_id@, seq, now_ns),
{
    broadcast use lemma_views_push;

    let count: usize = parts.len();
    let ghost given = views(parts@);
    let mut components: Vec<ComponentStatus> = Vec::new();
    assert(views(components@) =~= Seq::empty());
    components.push(
        component("body", "", KIND_BODY, "Dual Piper robot", "dual_piper_base", body_id),
    );
    let ghost root = views(components@);
    let mut actuators: Vec<ActuatorState> = Vec::new();
    let mut faults: Vec<FaultState> = Vec::new();
    let mut safety_endpoints: Vec<SafetyEndpoint> = Vec::new();
    let mut motion_allowed = true;
    let mut motor_power_allowed = true;
    let mut aggregate_state: u32 = SAFETY_NORMAL;
    proof {
        assert(views(components@) =~= root + all_components(given.take(0)));
        assert(views(actuators@) =~= all_actuators(given.take(0)));
        assert(views(faults@) =~= all_faults(given.take(0)));
        assert(views(safety_endpoints@) =~= all_endpoints(given.take(0)));
    }
    for part in it: parts
        invariant
            it.seq() == parts@,
            given == views(parts@),
            views(components@) == root + all_components(given.take(it.index() as int)),
            views(actuators@) == all_actuators(given.take(it.index() as int)),
            views(faults@) == all_faults(given.take(it.index() as int)),
            views(safety_endpoints@) == all_endpoints(given.take(it.index() as int)),
            motion_allowed == merged_safety(given.take(it.index() as int)).motion_allowed,
            motor_power_allowed == merged_safety(given.take(it.index() as int)).motor_power_allowed,
            aggregate_state == merged_safety(given.take(it.index() as int)).aggregate_state,
    {
        let ghost k = it.index() as int;
        let ghost seen = given.take(k);
        let ghost now_seen = given.take(k + 1);
        let ghost raw = part@;
        proof {
            assert(now_seen =~= seen.push(raw));
            assert(now_seen.drop_last() =~= seen);
            lemma_safety_step(seen, raw);
        }
        let side = provider_side(part.provider_id.as_str());
        let snapshot = part.snapshot;
        add_components(&mut components, snapshot.components, side);
        add_actuators(&mut actuators, snapshot.actuators, side);
        add_faults(&mut faults, snapshot.faults, side);
        add_endpoints(&mut safety_endpoints, snapshot.safety_endpoints, side);
        if let Some(safety) = snapshot.safety {
            motion_allowed = motion_allowed && safety.motion_allowed;
            motor_power_allowed = motor_power_allowed && safety.motor_power_allowed;
            if safety.aggregate_state == SAFETY_ESTOP {
                aggregate_state = SAFETY_ESTOP;
            } else if safety.aggregate_state == SAFETY_FAULT && aggregate_state != SAFETY_ESTOP {
                aggregate_state = SAFETY_FAULT;
            }
        }
        assert(views(components@) =~= root + all_components(now_seen));
    }
    assert(given.take(given.len() as int) =~= given);
    let detail = join(decimal_text(count).as_str(), " Piper health provider(s) aggregated");
    let snapshot = SomaHealthSnapshot {
        schema_version: SCHEMA_VERSION,
        body_id: body_id.to_owned(),
        seq,
        source_ts_ns: now_ns,
        soma_ts_ns: now_ns,
        ttl_ms: SNAPSHOT_TTL_MS,
        components,
        actuators,
        power_sources: Vec::new(),
        safety: Some(SafetyState { motion_allowed, motor_power_allowed, aggregate_state, detail }),
        safety_endpoints,
        faults,
        metrics: Vec::new(),
    };
    assert(snapshot@ =~= merged_snapshot(given, body_id@, seq, now_ns));
    snapshot
}

/// What one more provider changes of the safety of the body.
proof fn lemma_safety_step(parts: Seq<PartView>, part: PartView)
    ensures
        merged_safety(parts.push(part)).motion_allowed == (merged_safety(parts).motion_allowed
            && part.permits_motion()),
        merged_safety(parts.push(part)).motor_power_allowed == (merged_safety(
            parts,
        ).motor_power_allowed && part.permits_power()),
        forall|state: u32|
            #![trigger any_reports(parts.push(part), state)]
            any_reports(parts.push(part), state) == (any_reports(parts, state) || part.reports(
                state,
            )),
{
    let more = parts.push(part);
    assert(more[parts.len() as int] == part);
    assert forall|k: int| 0 <= k < parts.len() implies #[trigger] parts[k] == more[k] by {}
    if merged_safety(more).motion_allowed {
        assert forall|k: int| 0 <= k < parts.len() implies (#[trigger] parts[k]).permits_motion() by {
            assert(more[k].permits_motion());
        }
    }
    if merged_safety(more).motor_power_allowed {
        assert forall|k: int| 0 <= k < parts.len() implies (#[trigger] parts[k]).permits_power() by {
            assert(more[k].permits_power());
        }
    }
    assert forall|state: u32|
        #![trigger any_reports(more, state)]
        any_reports(more, state) == (any_reports(parts, state) || part.reports(state)) by {
        if any_reports(parts, state) {
            let k = choose|k: int| 0 <= k < parts.len() && (#[trigger] parts[k]).reports(state);
            assert(more[k].reports(state));
        }
        if part.reports(state) {
            assert(more[parts.len() as int].reports(state));
        }
        if any_reports(more, state) {
            let k = choose|k: int| 0 <= k < more.len() && (#[trigger] more[k]).reports(state);
            if k < parts.len() {
                assert(parts[k].reports(state));
            }
        }
    }
}

/// The snapshots of the providers of a table, in its order. The snapshot of
/// the entry at position `k` is stamped with `frame_times[k]`.
pub open spec fn parts_of(
    entries: Seq<EntryView>,
    body_id: Seq<char>,
    arm_model: Seq<char>,
    seq: u64,
    frame_times: Seq<i64>,
) -> Seq<PartView> {
    Seq::new(
        entries.len(),
        |k: int|
            PartView {
                provider_id: entries[k].id,
                snapshot: arm_snapshot(entries[k].state, body_id, arm_model, seq, frame_times[k]),
            },
    )
}

/// The snapshot of the body whose providers' latest frames are `entries`.
pub open spec fn body_snapshot(
    entries: Seq<EntryView>,
    body_id: Seq<char>,
    arm_model: Seq<char>,
    seq: u64,
    now_ns: i64,
    frame_times: Seq<i64>,
) -> SnapshotView {
    if entries.len() == 0 {
        unknown_snapshot(body_id, arm_model, seq, now_ns)
    } else {
        merged_snapshot(
            parts_of(entries, body_id, arm_model, seq, frame_times),
            body_id,
            seq,
            now_ns,
        )
    }
}

/// The snapshot of the body out of the latest frame of every provider, stamped
/// with the time `now_ns`. The faults of the provider at position `k` are
/// stamped with `frame_times[k]`.
pub fn merged_snapshot_at(
    states: &ProviderTable,
    body_id: &str,
    arm_model: &str,
    seq: u64,
    now_ns: i64,
    frame_times: &Vec<i64>,
) -> (r: SomaHealthSnapshot)
    requires
        frame_times@.len() == states@.len(),
    ensures
        r@ == body_snapshot(states@, body_id@, arm_model@, seq, now_ns, frame_times@),
{
    broadcast use lemma_views_push;

    let count: usize = states.len();
    if count == 0 {
        return empty_snapshot_at(body_id, arm_model, seq, now_ns);
    }
    let ghost expected = parts_of(states@, body_id@, arm_model@, seq, frame_times@);
    let mut parts: Vec<ProviderSnapshot> = Vec::new();
    let mut k: usize = 0;
    assert(views(parts@) =~= expected.take(0));
    while k < count
        invariant
            k <= count,
            count == states@.len(),
            frame_times@.len() == count,
            expected == parts_of(states@, body_id@, arm_model@, seq, frame_times@),
            views(parts@) == expected.take(k as int),
        decreases count - k,
    {
        let entry = states.entry(k);
        let part = ProviderSnapshot {
            provider_id: entry.id.clone(),
            snapshot: snapshot_at(&entry.state, body_id, arm_model, seq, frame_times[k]),
        };
        let ghost sofar = parts@;
        assert(part@ == expected[k as int]);
        parts.push(part);
        assert(views(parts@) == views(sofar).push(part@));
        assert(views(parts@) =~= expected.take(k + 1));
        k = k + 1;
    }
    assert(expected.take(count as int) =~= expected);
    assert(views(parts@).len() == parts@.len());
    merge_snapshots(parts, body_id, seq, now_ns)
}

/// The snapshot of the body out of the latest frame of every provider, stamped
/// with the present time. The clock is read for the body first, and then for
/// each provider in the order of the table.
pub fn merged_health_snapshot(
    states: &ProviderTable,
    body_id: &str,
    arm_model: &str,
    seq: u64,
    clock: &mut Clock,
) -> (r: SomaHealthSnapshot)
    ensures
        exists|frame_times: Seq<i64>|
            frame_times.len() == states@.len() && r@ == #[trigger] body_snapshot(
                states@,
                body_id@,
                arm_model@,
                seq,
                r@.source_ts_ns,
                frame_times,
            ) && old(clock)@.gives(seq![r@.source_ts_ns] + frame_times, final(clock)@),
{
    let count: usize = states.len();
    let ghost first = clock@;
    let now_ns: i64 = chrono_now_ns(clock);
    let mut frame_times: Vec<i64> = Vec::new();
    proof {
        lemma_one_reading(first, now_ns, clock@);
        assert(seq![now_ns] + frame_times@ =~= seq![now_ns]);
    }
    while frame_times.len() < count
        invariant
            frame_times@.len() <= count,
            first.gives(seq![now_ns] + frame_times@, clock@),
        decreases count - frame_times@.len(),
    {
        let ghost before = clock@;
        let ghost sofar = frame_times@;
        let frame_ns: i64 = chrono_now_ns(clock);
        frame_times.push(frame_ns);
        proof {
            lemma_another_reading(first, seq![now_ns] + sofar, before, frame_ns, clock@);
            assert((seq![now_ns] + sofar).push(frame_ns) =~= seq![now_ns] + frame_times@);
        }
    }
    let r = merged_snapshot_at(states, body_id, arm_model, seq, now_ns, &frame_times);
    assert(r@.source_ts_ns == now_ns);
    r
}

/// The view of a provider's snapshot shows the provider and the snapshot.
pub proof fn law_part_view(part: ProviderSnapshot)
    ensures
        part@.provider_id == part.provider_id@,
        part@.snapshot == part.snapshot@,
{
}

} // verus!
