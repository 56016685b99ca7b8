//! The messages: frames that a health primitive sends, and the snapshot that
//! is made of them. Each type has a view in which texts are sequences of
//! characters and lists are sequences of views.

use crate::number::{Real32, Real64};
use vstd::prelude::*;

verus! {

/// The views of the items of a sequence.
pub open spec fn views<T: View>(items: Seq<T>) -> Seq<T::V> {
    Seq::new(items.len(), |i: int| items[i].view())
}

/// The view of an item that may be absent.
pub open spec fn option_view<T: View>(item: Option<T>) -> Option<T::V> {
    match item {
        Some(x) => Some(x.view()),
        None => None,
    }
}

/// The view of an item that is added comes last.
pub broadcast proof fn lemma_views_push<T: View>(items: Seq<T>, item: T)
    ensures
        #[trigger] views(items.push(item)) == views(items).push(item.view()),
{
    assert(views(items.push(item)) =~= views(items).push(item.view()));
}

/// A source of electrical power. The arms report none.
#[derive(Debug, PartialEq, Eq)]
pub struct PowerSource {}

/// A named measurement of the body as a whole. The arms report none.
#[derive(Debug, PartialEq, Eq)]
pub struct Metric {}

/// A detail that is attached to a fault. The arms attach none.
#[derive(Debug, PartialEq, Eq)]
pub struct Attribute {}

/// One named value that a health primitive reports.
#[derive(Debug, PartialEq, Eq)]
pub struct SensorReading {
    pub name: String,
    pub temp_c: Real32,
    pub voltage: Real32,
    pub current_a: Real32,
}

/// The view of [`SensorReading`].
#[verifier::ext_equal]
pub struct ReadingView {
    pub name: Seq<char>,
    pub temp_c: Real32,
    pub voltage: Real32,
    pub current_a: Real32,
}

impl View for SensorReading {
    type V = ReadingView;

    open spec fn view(&self) -> ReadingView {
        ReadingView {
            name: self.name@,
            temp_c: self.temp_c,
            voltage: self.voltage,
            current_a: self.current_a,
        }
    }
}

impl Default for SensorReading {
    /// A reading without a name, all of whose values are zero.
    fn default() -> (r: Self)
        ensures
            r.name@ == Seq::<char>::empty(),
            r.temp_c.bits == 0,
            r.voltage.bits == 0,
            r.current_a.bits == 0,
    {
        SensorReading {
            name: String::new(),
            temp_c: Real32 { bits: 0 },
            voltage: Real32 { bits: 0 },
            current_a: Real32 { bits: 0 },
        }
    }
}

/// One frame of a health primitive: its readings, in the order it sent them.
#[derive(Debug, PartialEq, Eq)]
pub struct HealthState {
    pub readings: Vec<SensorReading>,
}

impl View for HealthState {
    type V = Seq<ReadingView>;

    open spec fn view(&self) -> Seq<ReadingView> {
        views(self.readings@)
    }
}

impl Default for HealthState {
    /// A frame without readings.
    fn default() -> (r: Self)
        ensures
            r@ == Seq::<ReadingView>::empty(),
    {
        HealthState { readings: Vec::new() }
    }
}

/// A measured value with its unit.
#[derive(Debug, PartialEq, Eq)]
pub struct Scalar {
    pub value: Real64,
    pub unit: String,
    pub quality: u32,
}

/// The view of [`Scalar`].
#[verifier::ext_equal]
pub struct ScalarView {
    pub value: Real64,
    pub unit: Seq<char>,
    pub quality: u32,
}

impl View for Scalar {
    type V = ScalarView;

    open spec fn view(&self) -> ScalarView {
        ScalarView {
            value: self.value,
            unit: self.unit@,
            quality: self.quality,
        }
    }
}

/// One component of the body, and its place in the component tree.
#[derive(Debug, PartialEq, Eq)]
pub struct ComponentStatus {
    pub id: String,
    pub parent_id: String,
    pub kind: u32,
    pub name: String,
    pub frame_id: String,
    pub model: String,
    pub serial: String,
    pub health: u32,
    pub operational_state: u32,
    pub present: bool,
    pub online: bool,
    pub detail: String,
}

/// The view of [`ComponentStatus`].
#[verifier::ext_equal]
pub struct ComponentView {
    pub id: Seq<char>,
    pub parent_id: Seq<char>,
    pub kind: u32,
    pub name: Seq<char>,
    pub frame_id: Seq<char>,
    pub model: Seq<char>,
    pub serial: Seq<char>,
    pub health: u32,
    pub operational_state: u32,
    pub present: bool,
    pub online: bool,
    pub detail: Seq<char>,
}

impl View for ComponentStatus {
    type V = ComponentView;

    open spec fn view(&self) -> ComponentView {
        ComponentView {
            id: self.id@,
            parent_id: self.parent_id@,
            kind: self.kind,
            name: self.name@,
            frame_id: self.frame_id@,
            model: self.model@,
            serial: self.serial@,
            health: self.health,
            operational_state: self.operational_state,
            present: self.present,
            online: self.online,
            detail: self.detail@,
        }
    }
}

/// What is known of one actuator.
#[derive(Debug, PartialEq, Eq)]
pub struct ActuatorState {
    pub component_id: String,
    pub joint_name: String,
    pub position: Option<Scalar>,
    pub velocity: Option<Scalar>,
    pub effort: Option<Scalar>,
    pub current: Option<Scalar>,
    pub voltage: Option<Scalar>,
    pub motor_temp: Option<Scalar>,
    pub driver_temp: Option<Scalar>,
    pub torque_enabled: bool,
    pub brake_engaged: bool,
    pub communication_ok: bool,
    pub vendor_mode: u32,
    pub vendor_error_code: u32,
    pub status_flags: u32,
}

/// The view of [`ActuatorState`].
#[verifier::ext_equal]
pub struct ActuatorView {
    pub component_id: Seq<char>,
    pub joint_name: Seq<char>,
    pub position: Option<ScalarView>,
    pub velocity: Option<ScalarView>,
    pub effort: Option<ScalarView>,
    pub current: Option<ScalarView>,
    pub voltage: Option<ScalarView>,
    pub motor_temp: Option<ScalarView>,
    pub driver_temp: Option<ScalarView>,
    pub torque_enabled: bool,
    pub brake_engaged: bool,
    pub communication_ok: bool,
    pub vendor_mode: u32,
    pub vendor_error_code: u32,
    pub status_flags: u32,
}

impl View for ActuatorState {
    type V = ActuatorView;

    open spec fn view(&self) -> ActuatorView {
        ActuatorView {
            component_id: self.component_id@,
            joint_name: self.joint_name@,
            position: option_view(self.position),
            velocity: option_view(self.velocity),
            effort: option_view(self.effort),
            current: option_view(self.current),
            voltage: option_view(self.voltage),
            motor_temp: option_view(self.motor_temp),
            driver_temp: option_view(self.driver_temp),
            torque_enabled: self.torque_enabled,
            brake_engaged: self.brake_engaged,
            communication_ok: self.communication_ok,
            vendor_mode: self.vendor_mode,
            vendor_error_code: self.vendor_error_code,
            status_flags: self.status_flags,
        }
    }
}

/// A fault that a component reports.
#[derive(Debug, PartialEq, Eq)]
pub struct FaultState {
    pub component_id: String,
    pub fault_id: String,
    pub severity: u32,
    pub active: bool,
    pub clearable: bool,
    pub onset_ts_ns: i64,
    pub vendor_code: u32,
    pub vendor_code_text: String,
    pub message: String,
    pub attributes: Vec<Attribute>,
    pub vendor_raw_json: String,
}

/// The view of [`FaultState`].
#[verifier::ext_equal]
pub struct FaultView {
    pub component_id: Seq<char>,
    pub fault_id: Seq<char>,
    pub severity: u32,
    pub active: bool,
    pub clearable: bool,
    pub onset_ts_ns: i64,
    pub vendor_code: u32,
    pub vendor_code_text: Seq<char>,
    pub message: Seq<char>,
    pub attributes: Seq<Attribute>,
    pub vendor_raw_json: Seq<char>,
}

impl View for FaultState {
    type V = FaultView;

    open spec fn view(&self) -> FaultView {
        FaultView {
            component_id: self.component_id@,
            fault_id: self.fault_id@,
            severity: self.severity,
            active: self.active,
            clearable: self.clearable,
            onset_ts_ns: self.onset_ts_ns,
            vendor_code: self.vendor_code,
            vendor_code_text: self.vendor_code_text@,
            message: self.message@,
            attributes: self.attributes@,
            vendor_raw_json: self.vendor_raw_json@,
        }
    }
}

/// What the body may do.
#[derive(Debug, PartialEq, Eq)]
pub struct SafetyState {
    pub motion_allowed: bool,
    pub motor_power_allowed: bool,
    pub aggregate_state: u32,
    pub detail: String,
}

/// The view of [`SafetyState`].
#[verifier::ext_equal]
pub struct SafetyView {
    pub motion_allowed: bool,
    pub motor_power_allowed: bool,
    pub aggregate_state: u32,
    pub detail: Seq<char>,
}

impl View for SafetyState {
    type V = SafetyView;

    open spec fn view(&self) -> SafetyView {
        SafetyView {
            motion_allowed: self.motion_allowed,
            motor_power_allowed: self.motor_power_allowed,
            aggregate_state: self.aggregate_state,
            detail: self.detail@,
        }
    }
}

/// A named input that can stop the body.
#[derive(Debug, PartialEq, Eq)]
pub struct SafetyEndpoint {
    pub name: String,
}

/// The view of [`SafetyEndpoint`].
#[verifier::ext_equal]
pub struct EndpointView {
    pub name: Seq<char>,
}

impl View for SafetyEndpoint {
    type V = EndpointView;

    open spec fn view(&self) -> EndpointView {
        EndpointView {
            name: self.name@,
        }
    }
}

/// The health of the whole body at one time.
#[derive(Debug, PartialEq, Eq)]
pub struct SomaHealthSnapshot {
    pub schema_version: u32,
    pub body_id: String,
    pub seq: u64,
    pub source_ts_ns: i64,
    pub soma_ts_ns: i64,
    pub ttl_ms: u32,
    pub components: Vec<ComponentStatus>,
    pub actuators: Vec<ActuatorState>,
    pub power_sources: Vec<PowerSource>,
    pub safety: Option<SafetyState>,
    pub safety_endpoints: Vec<SafetyEndpoint>,
    pub faults: Vec<FaultState>,
    pub metrics: Vec<Metric>,
}

/// The view of [`SomaHealthSnapshot`].
#[verifier::ext_equal]
pub struct SnapshotView {
    pub schema_version: u32,
    pub body_id: Seq<char>,
    pub seq: u64,
    pub source_ts_ns: i64,
    pub soma_ts_ns: i64,
    pub ttl_ms: u32,
    pub components: Seq<ComponentView>,
    pub actuators: Seq<ActuatorView>,
    pub power_sources: Seq<PowerSource>,
    pub safety: Option<SafetyView>,
    pub safety_endpoints: Seq<EndpointView>,
    pub faults: Seq<FaultView>,
    pub metrics: Seq<Metric>,
}

impl View for SomaHealthSnapshot {
    type V = SnapshotView;

    open spec fn view(&self) -> SnapshotView {
        SnapshotView {
            schema_version: self.schema_version,
            body_id: self.body_id@,
            seq: self.seq,
            source_ts_ns: self.source_ts_ns,
            soma_ts_ns: self.soma_ts_ns,
            ttl_ms: self.ttl_ms,
            components: views(self.components@),
            actuators: views(self.actuators@),
            power_sources: self.power_sources@,
            safety: option_view(self.safety),
            safety_endpoints: views(self.safety_endpoints@),
            faults: views(self.faults@),
            metrics: self.metrics@,
        }
    }
}

/// The view of a list has the views of its items, in their order, and the view
/// of an item that may be absent is absent where the item is.
pub proof fn law_views_keep_every_item<T: View>(items: Seq<T>, item: Option<T>)
    ensures
        views(items).len() == items.len(),
        forall|i: int| 0 <= i < items.len() ==> #[trigger] views(items)[i] == items[i].view(),
        item matches Some(x) ==> option_view(item) == Some(x.view()),
        item is None ==> option_view(item) is None,
{
}

/// The view of a reading shows every field.
pub proof fn law_reading_view(reading: SensorReading)
    ensures
        reading@.name == reading.name@,
        reading@.temp_c == reading.temp_c,
        reading@.voltage == reading.voltage,
        reading@.current_a == reading.current_a,
{
}

/// The view of a value shows every field.
pub proof fn law_value_view(value: Scalar)
    ensures
        value@.value == value.value,
        value@.unit == value.unit@,
        value@.quality == value.quality,
{
}

/// The view of a component shows every field.
pub proof fn law_component_view(component: ComponentStatus)
    ensures
        component@.id == component.id@,
        component@.parent_id == component.parent_id@,
        component@.kind == component.kind,
        component@.name == component.name@,
        component@.frame_id == component.frame_id@,
        component@.model == component.model@,
        component@.serial == component.serial@,
        component@.health == component.health,
        component@.operational_state == component.operational_state,
        component@.present == component.present,
        component@.online == component.online,
        component@.detail == component.detail@,
{
}

/// The view of an actuator shows every field.
pub proof fn law_actuator_view(actuator: ActuatorState)
    ensures
        actuator@.component_id == actuator.component_id@,
        actuator@.joint_name == actuator.joint_name@,
        actuator@.position == option_view(actuator.position),
        actuator@.velocity == option_view(actuator.velocity),
        actuator@.effort == option_view(actuator.effort),
        actuator@.current == option_view(actuator.current),
        actuator@.voltage == option_view(actuator.voltage),
        actuator@.motor_temp == option_view(actuator.motor_temp),
        actuator@.driver_temp == option_view(actuator.driver_temp),
        actuator@.torque_enabled == actuator.torque_enabled,
        actuator@.brake_engaged == actuator.brake_engaged,
        actuator@.communication_ok == actuator.communication_ok,
        actuator@.vendor_mode == actuator.vendor_mode,
        actuator@.vendor_error_code == actuator.vendor_error_code,
        actuator@.status_flags == actuator.status_flags,
{
}

/// The view of a fault shows every field.
pub proof fn law_fault_view(fault: FaultState)
    ensures
        fault@.component_id == fault.component_id@,
        fault@.fault_id == fault.fault_id@,
        fault@.severity == fault.severity,
        fault@.active == fault.active,
        fault@.clearable == fault.clearable,
        fault@.onset_ts_ns == fault.onset_ts_ns,
        fault@.vendor_code == fault.vendor_code,
        fault@.vendor_code_text == fault.vendor_code_text@,
        fault@.message == fault.message@,
        fault@.attributes == fault.attributes@,
        fault@.vendor_raw_json == fault.vendor_raw_json@,
{
}

/// The view of a safety state shows every field.
pub proof fn law_safety_view(safety: SafetyState)
    ensures
        safety@.motion_allowed == safety.motion_allowed,
        safety@.motor_power_allowed == safety.motor_power_allowed,
        safety@.aggregate_state == safety.aggregate_state,
        safety@.detail == safety.detail@,
{
}

/// The view of a safety endpoint shows every field.
pub proof fn law_endpoint_view(endpoint: SafetyEndpoint)
    ensures
        endpoint@.name == endpoint.name@,
{
}

/// The view of a snapshot shows every field.
pub proof fn law_snapshot_view(snapshot: SomaHealthSnapshot)
    ensures
        snapshot@.schema_version == snapshot.schema_version,
        snapshot@.body_id == snapshot.body_id@,
        snapshot@.seq == snapshot.seq,
        snapshot@.source_ts_ns == snapshot.source_ts_ns,
        snapshot@.soma_ts_ns == snapshot.soma_ts_ns,
        snapshot@.ttl_ms == snapshot.ttl_ms,
        snapshot@.components == views(snapshot.components@),
        snapshot@.actuators == views(snapshot.actuators@),
        snapshot@.power_sources == snapshot.power_sources@,
        snapshot@.safety == option_view(snapshot.safety),
        snapshot@.safety_endpoints == views(snapshot.safety_endpoints@),
        snapshot@.faults == views(snapshot.faults@),
        snapshot@.metrics == snapshot.metrics@,
{
}

/// The view of a frame shows its readings, in their order.
pub proof fn law_frame_view(state: HealthState)
    ensures
        state@ == views(state.readings@),
{
}

} // verus!
