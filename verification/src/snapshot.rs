//! The snapshot of a single arm, and the one that is published while no
//! primitive is connected.

use crate::clock::{chrono_now_ns, Clock};
use crate::codes::{
    FAULT_ERROR, HEALTH_UNKNOWN, JOINTS, KIND_ARM, KIND_BODY, KIND_GRIPPER, KIND_JOINT, OP_ACTIVE,
    QUALITY_VALID, SAFETY_FAULT, SAFETY_NORMAL, SCHEMA_VERSION, SNAPSHOT_TTL_MS,
};
use crate::model::{
    lemma_views_push, option_view, views, ActuatorState, ActuatorView, ComponentStatus,
    ComponentView, EndpointView, FaultState, FaultView, HealthState, ReadingView, SafetyState,
    SafetyView, Scalar, ScalarView, SnapshotView, SomaHealthSnapshot,
};
use crate::number::Real64;
use crate::readout::{read_arm, readout, ArmReadout, ArmReadoutView, JointReadout};
use crate::text::{
    decimal, decimal_text, hexadecimal, hexadecimal_padded, hexadecimal_padded_text,
    hexadecimal_text, join,
};
use vstd::prelude::*;

verus! {

/// A component that is present, online and active, of unknown health.
pub open spec fn component_view(
    id: Seq<char>,
    parent_id: Seq<char>,
    kind: u32,
    name: Seq<char>,
    frame_id: Seq<char>,
    model: Seq<char>,
) -> ComponentView {
    ComponentView {
        id,
        parent_id,
        kind,
        name,
        frame_id,
        model,
        serial: Seq::empty(),
        health: HEALTH_UNKNOWN,
        operational_state: OP_ACTIVE,
        present: true,
        online: true,
        detail: Seq::empty(),
    }
}

/// A valid value with its unit.
pub open spec fn scalar_view(value: Real64, unit: Seq<char>) -> ScalarView {
    ScalarView { value, unit, quality: QUALITY_VALID }
}

/// The name of the joint with number `n`, counted from 1.
pub open spec fn joint_name(n: nat) -> Seq<char> {
    "joint_"@ + decimal(n)
}

/// The component id of the joint with number `n`, counted from 1.
pub open spec fn joint_id(n: nat) -> Seq<char> {
    "body/arm/joint_"@ + decimal(n)
}

/// The component of the joint with number `n`, counted from 1.
pub open spec fn joint_component(n: nat, arm_model: Seq<char>) -> ComponentView {
    component_view(joint_id(n), "body/arm"@, KIND_JOINT, joint_name(n), joint_name(n), arm_model)
}

/// The component tree of a body with one arm: the body, the arm, its joints in
/// their order and its gripper.
pub open spec fn components_of(arm_model: Seq<char>) -> Seq<ComponentView> {
    seq![
        component_view("body"@, ""@, KIND_BODY, "Piper Robot"@, "base_link"@, "piper"@),
        component_view(
            "body/arm"@,
            "body"@,
            KIND_ARM,
            "Piper arm"@,
            "arm_base_link"@,
            arm_model,
        ),
    ] + Seq::new(JOINTS as nat, |j: int| joint_component((j + 1) as nat, arm_model)) + seq![
        component_view(
            "body/arm/gripper"@,
            "body/arm"@,
            KIND_GRIPPER,
            "gripper"@,
            "gripper_base"@,
            "piper_gripper"@,
        ),
    ]
}

/// A measurement is published where it was taken and is not negative.
pub open spec fn measured(value: Option<Real64>, unit: Seq<char>) -> Option<ScalarView> {
    match value {
        Some(v) => if v.spec_at_least_zero() {
            Some(scalar_view(v, unit))
        } else {
            None
        },
        None => None,
    }
}

/// The actuator of the joint with number `n`, counted from 1. Position,
/// velocity and effort are not reported and stand at zero.
pub open spec fn joint_actuator(joint: JointReadout, n: nat) -> ActuatorView {
    ActuatorView {
        component_id: joint_id(n),
        joint_name: joint_name(n),
        position: Some(scalar_view(Real64 { bits: 0 }, "rad"@)),
        velocity: Some(scalar_view(Real64 { bits: 0 }, "rad/s"@)),
        effort: Some(scalar_view(Real64 { bits: 0 }, "Nm"@)),
        current: measured(joint.current, "A"@),
        voltage: measured(joint.voltage, "V"@),
        motor_temp: measured(joint.motor_temp, "degC"@),
        driver_temp: measured(joint.driver_temp, "degC"@),
        torque_enabled: joint.enabled,
        brake_engaged: false,
        communication_ok: joint.communication,
        vendor_mode: 0,
        vendor_error_code: joint.error,
        status_flags: joint.error,
    }
}

/// Do all joints communicate?
pub open spec fn all_communicate(arm: ArmReadoutView) -> bool {
    forall|j: int| 0 <= j < arm.joints.len() ==> (#[trigger] arm.joints[j]).communication
}

/// Are all joints enabled?
pub open spec fn all_enabled(arm: ArmReadoutView) -> bool {
    forall|j: int| 0 <= j < arm.joints.len() ==> (#[trigger] arm.joints[j]).enabled
}

/// The actuator of the gripper. It communicates where all joints do.
pub open spec fn gripper_actuator(arm: ArmReadoutView) -> ActuatorView {
    ActuatorView {
        component_id: "body/arm/gripper"@,
        joint_name: "gripper"@,
        position: Some(scalar_view(arm.gripper_opening_m, "m"@)),
        velocity: Some(scalar_view(Real64 { bits: 0 }, "m/s"@)),
        effort: None,
        current: None,
        voltage: None,
        motor_temp: None,
        driver_temp: None,
        torque_enabled: arm.gripper_enabled,
        brake_engaged: false,
        communication_ok: all_communicate(arm),
        vendor_mode: if arm.gripper_homed {
            1
        } else {
            0
        },
        vendor_error_code: arm.gripper_error,
        status_flags: arm.gripper_error,
    }
}

/// The actuators of an arm: its joints in their order, then its gripper.
pub open spec fn actuators_of(arm: ArmReadoutView) -> Seq<ActuatorView> {
    Seq::new(arm.joints.len(), |j: int| joint_actuator(arm.joints[j], (j + 1) as nat)).push(
        gripper_actuator(arm),
    )
}

/// An active error that can be cleared.
pub open spec fn fault_view(
    component_id: Seq<char>,
    fault_id: Seq<char>,
    onset_ts_ns: i64,
    code: u32,
    code_text: Seq<char>,
    message: Seq<char>,
) -> FaultView {
    FaultView {
        component_id,
        fault_id,
        severity: FAULT_ERROR,
        active: true,
        clearable: true,
        onset_ts_ns,
        vendor_code: code,
        vendor_code_text: code_text,
        message,
        attributes: Seq::empty(),
        vendor_raw_json: Seq::empty(),
    }
}

/// The fault of the arm's controller.
pub open spec fn arm_fault(code: u32, now_ns: i64) -> FaultView {
    let text = "0x"@ + hexadecimal(code as nat);
    fault_view(
        "body/arm"@,
        "piper_controller_fault"@,
        now_ns,
        code,
        text,
        "Piper controller error_code="@ + text,
    )
}

/// The fault of the joint with number `n`, counted from 1.
pub open spec fn joint_fault(n: nat, code: u32, now_ns: i64) -> FaultView {
    let text = "0x"@ + hexadecimal_padded(code as nat);
    fault_view(
        joint_id(n),
        "piper_foc_fault"@,
        now_ns,
        code,
        text,
        joint_name(n) + " foc_status="@ + text,
    )
}

/// The fault of the gripper.
pub open spec fn gripper_fault(code: u32, now_ns: i64) -> FaultView {
    let text = "0x"@ + hexadecimal_padded(code as nat);
    fault_view(
        "body/arm/gripper"@,
        "piper_gripper_fault"@,
        now_ns,
        code,
        text,
        "gripper status="@ + text,
    )
}

/// The faults of the first `n` joints: one for each that reports an error.
pub open spec fn joint_faults(joints: Seq<JointReadout>, n: nat, now_ns: i64) -> Seq<FaultView>
    decreases n,
{
    if n == 0 {
        Seq::empty()
    } else {
        let earlier = joint_faults(joints, (n - 1) as nat, now_ns);
        let code = joints[n - 1].error;
        if code != 0 {
            earlier.push(joint_fault(n, code, now_ns))
        } else {
            earlier
        }
    }
}

/// The faults of an arm: of its controller, of its joints in their order, and
/// of its gripper, each where an error is reported.
pub open spec fn faults_of(arm: ArmReadoutView, now_ns: i64) -> Seq<FaultView> {
    let of_controller = if arm.arm_error != 0 {
        seq![arm_fault(arm.arm_error, now_ns)]
    } else {
        Seq::empty()
    };
    let of_gripper = if arm.gripper_error != 0 {
        seq![gripper_fault(arm.gripper_error, now_ns)]
    } else {
        Seq::empty()
    };
    of_controller + joint_faults(arm.joints, arm.joints.len(), now_ns) + of_gripper
}

/// An arm may move while its own state is normal and all its joints
/// communicate, and may have motor power while, besides, all are enabled.
pub open spec fn safety_of(arm: ArmReadoutView) -> SafetyView {
    let motion_allowed = arm.arm_state == SAFETY_NORMAL && all_communicate(arm);
    SafetyView {
        motion_allowed,
        motor_power_allowed: motion_allowed && all_enabled(arm),
        aggregate_state: arm.arm_state,
        detail: Seq::empty(),
    }
}

/// The snapshot of a body with one arm, from the readings of one frame.
pub open spec fn arm_snapshot(
    readings: Seq<ReadingView>,
    body_id: Seq<char>,
    arm_model: Seq<char>,
    seq: u64,
    now_ns: i64,
) -> SnapshotView {
    let arm = readout(readings);
    SnapshotView {
        schema_version: SCHEMA_VERSION,
        body_id,
        seq,
        source_ts_ns: now_ns,
        soma_ts_ns: now_ns,
        ttl_ms: SNAPSHOT_TTL_MS,
        components: components_of(arm_model),
        actuators: actuators_of(arm),
        power_sources: Seq::empty(),
        safety: Some(safety_of(arm)),
        safety_endpoints: Seq::empty(),
        faults: faults_of(arm, now_ns),
        metrics: Seq::empty(),
    }
}

/// The snapshot of a body of which no arm is known: it may not move.
pub open spec fn unknown_snapshot(
    body_id: Seq<char>,
    arm_model: Seq<char>,
    seq: u64,
    now_ns: i64,
) -> SnapshotView {
    SnapshotView {
        schema_version: SCHEMA_VERSION,
        body_id,
        seq,
        source_ts_ns: now_ns,
        soma_ts_ns: now_ns,
        ttl_ms: SNAPSHOT_TTL_MS,
        components: seq![
            component_view("body"@, ""@, KIND_BODY, "Piper Robot"@, "base_link"@, arm_model),
        ],
        actuators: Seq::empty(),
        power_sources: Seq::empty(),
        safety: Some(
            SafetyView {
                motion_allowed: false,
                motor_power_allowed: false,
                aggregate_state: SAFETY_FAULT,
                detail: "no health primitive connected"@,
            },
        ),
        safety_endpoints: Seq::empty(),
        faults: Seq::empty(),
        metrics: Seq::empty(),
    }
}

/// A component that is present, online and active, of unknown health.
pub fn component(
    id: &str,
    parent_id: &str,
    kind: u32,
    name: &str,
    frame_id: &str,
    model: &str,
) -> (r: ComponentStatus)
    ensures
        r@ == component_view(id@, parent_id@, kind, name@, frame_id@, model@),
{
    ComponentStatus {
        id: id.to_owned(),
        parent_id: parent_id.to_owned(),
        kind,
        name: name.to_owned(),
        frame_id: frame_id.to_owned(),
        model: model.to_owned(),
        serial: String::new(),
        health: HEALTH_UNKNOWN,
        operational_state: OP_ACTIVE,
        present: true,
        online: true,
        detail: String::new(),
    }
}

/// A valid value with its unit.
pub fn scalar(value: Real64, unit: &str) -> (r: Scalar)
    ensures
        r@ == scalar_view(value, unit@),
{
    Scalar { value, unit: unit.to_owned(), quality: QUALITY_VALID }
}

/// The component tree of a body with one arm.
pub fn arm_components(arm_model: &str) -> (r: Vec<ComponentStatus>)
    ensures
        views(r@) == components_of(arm_model@),
{
    broadcast use lemma_views_push;

    let mut components: Vec<ComponentStatus> = Vec::new();
    assert(views(components@) =~= Seq::empty());
    components.push(component("body", "", KIND_BODY, "Piper Robot", "base_link", "piper"));
    components.push(
        component("body/arm", "body", KIND_ARM, "Piper arm", "arm_base_link", arm_model),
    );
    let ghost head = views(components@);
    let mut n: usize = 1;
    assert(head =~= head + Seq::new(0, |j: int| joint_component((j + 1) as nat, arm_model@)));
    while n <= JOINTS
        invariant
            1 <= n <= JOINTS + 1,
            views(components@) == head + Seq::new(
                (n - 1) as nat,
                |j: int| joint_component((j + 1) as nat, arm_model@),
            ),
        decreases JOINTS + 1 - n,
    {
        let number = decimal_text(n);
        let id = join("body/arm/joint_", number.as_str());
        let name = join("joint_", number.as_str());
        let joint = component(
            id.as_str(),
            "body/arm",
            KIND_JOINT,
            name.as_str(),
            name.as_str(),
            arm_model,
        );
        let ghost sofar = components@;
        assert(joint@ == joint_component(n as nat, arm_model@));
        components.push(joint);
        assert(views(components@) == views(sofar).push(joint@));
        assert(views(components@) =~= head + Seq::new(
            n as nat,
            |j: int| joint_component((j + 1) as nat, arm_model@),
        ));
        n = n + 1;
    }
    components.push(
        component(
            "body/arm/gripper",
            "body/arm",
            KIND_GRIPPER,
            "gripper",
            "gripper_base",
            "piper_gripper",
        ),
    );
    assert(views(components@) =~= components_of(arm_model@));
    components
}

/// A measurement as it is published.
fn measurement(value: Option<Real64>, unit: &str) -> (r: Option<Scalar>)
    ensures
        option_view(r) == measured(value, unit@),
{
    match value {
        Some(v) => {
            if v.at_least_zero() {
                Some(scalar(v, unit))
            } else {
                None
            }
        },
        None => None,
    }
}

/// Do all joints communicate?
fn joints_communicate(arm: &ArmReadout) -> (r: bool)
    ensures
        r == all_communicate(arm@),
{
    let mut j: usize = 0;
    while j < arm.joints.len()
        invariant
            j <= arm.joints@.len(),
            forall|k: int| 0 <= k < j ==> (#[trigger] arm.joints@[k]).communication,
        decreases arm.joints@.len() - j,
    {
        if !arm.joints[j].communication {
            assert(!arm@.joints[j as int].communication);
            return false;
        }
        j = j + 1;
    }
    true
}

/// Are all joints enabled?
fn joints_enabled(arm: &ArmReadout) -> (r: bool)
    ensures
        r == all_enabled(arm@),
{
    let mut j: usize = 0;
    while j < arm.joints.len()
        invariant
            j <= arm.joints@.len(),
            forall|k: int| 0 <= k < j ==> (#[trigger] arm.joints@[k]).enabled,
        decreases arm.joints@.len() - j,
    {
        if !arm.joints[j].enabled {
            assert(!arm@.joints[j as int].enabled);
            return false;
        }
        j = j + 1;
    }
    true
}

/// The actuators of an arm.
pub fn arm_actuators(arm: &ArmReadout) -> (r: Vec<ActuatorState>)
    ensures
        views(r@) == actuators_of(arm@),
{
    broadcast use lemma_views_push;

    let mut actuators: Vec<ActuatorState> = Vec::new();
    let count: usize = arm.joints.len();
    let mut j: usize = 0;
    assert(views(actuators@) =~= Seq::new(
        0,
        |k: int| joint_actuator(arm@.joints[k], (k + 1) as nat),
    ));
    while j < count
        invariant
            j <= count,
            count == arm.joints@.len(),
            views(actuators@) == Seq::new(
                j as nat,
                |k: int| joint_actuator(arm@.joints[k], (k + 1) as nat),
            ),
        decreases count - j,
    {
        let joint = arm.joints[j];
        let number = decimal_text(j + 1);
        let actuator = ActuatorState {
            component_id: join("body/arm/joint_", number.as_str()),
            joint_name: join("joint_", number.as_str()),
            position: Some(scalar(Real64 { bits: 0 }, "rad")),
            velocity: Some(scalar(Real64 { bits: 0 }, "rad/s")),
            effort: Some(scalar(Real64 { bits: 0 }, "Nm")),
            current: measurement(joint.current, "A"),
            voltage: measurement(joint.voltage, "V"),
            motor_temp: measurement(joint.motor_temp, "degC"),
            driver_temp: measurement(joint.driver_temp, "degC"),
            torque_enabled: joint.enabled,
            brake_engaged: false,
            communication_ok: joint.communication,
            vendor_mode: 0,
            vendor_error_code: joint.error,
            status_flags: joint.error,
        };
        let ghost sofar = actuators@;
        assert(actuator@ == joint_actuator(joint, (j + 1) as nat));
        actuators.push(actuator);
        assert(views(actuators@) == views(sofar).push(actuator@));
        assert(views(actuators@) =~= Seq::new(
            (j + 1) as nat,
            |k: int| joint_actuator(arm@.joints[k], (k + 1) as nat),
        ));
        j = j + 1;
    }
    let gripper = ActuatorState {
        component_id: "body/arm/gripper".to_owned(),
        joint_name: "gripper".to_owned(),
        position: Some(scalar(arm.gripper_opening_m, "m")),
        velocity: Some(scalar(Real64 { bits: 0 }, "m/s")),
        effort: None,
        current: None,
        voltage: None,
        motor_temp: None,
        driver_temp: None,
        torque_enabled: arm.gripper_enabled,
        brake_engaged: false,
        communication_ok: joints_communicate(arm),
        vendor_mode: if arm.gripper_homed {
            1
        } else {
            0
        },
        vendor_error_code: arm.gripper_error,
        status_flags: arm.gripper_error,
    };
    assert(gripper@ == gripper_actuator(arm@));
    actuators.push(gripper);
    actuators
}

/// An active error that can be cleared.
fn fault(
    component_id: String,
    fault_id: &str,
    onset_ts_ns: i64,
    code: u32,
    code_text: String,
    message: String,
) -> (r: FaultState)
    ensures
        r@ == fault_view(component_id@, fault_id@, onset_ts_ns, code, code_text@, message@),
{
    FaultState {
        component_id,
        fault_id: fault_id.to_owned(),
        severity: FAULT_ERROR,
        active: true,
        clearable: true,
        onset_ts_ns,
        vendor_code: code,
        vendor_code_text: code_text,
        message,
        attributes: Vec::new(),
        vendor_raw_json: String::new(),
    }
}

/// The faults of an arm.
pub fn arm_faults(arm: &ArmReadout, now_ns: i64) -> (r: Vec<FaultState>)
    ensures
        views(r@) == faults_of(arm@, now_ns),
{
    broadcast use lemma_views_push;

    let mut faults: Vec<FaultState> = Vec::new();
    assert(views(faults@) =~= Seq::empty());
    if arm.arm_error != 0 {
        let text = join("0x", hexadecimal_text(arm.arm_error).as_str());
        let message = join("Piper controller error_code=", text.as_str());
        let item = fault(
            "body/arm".to_owned(),
            "piper_controller_fault",
            now_ns,
            arm.arm_error,
            text,
            message,
        );
        assert(item@ == arm_fault(arm.arm_error, now_ns));
        faults.push(item);
        assert(views(faults@) =~= seq![arm_fault(arm.arm_error, now_ns)]);
    }
    let ghost head = views(faults@);
    let count: usize = arm.joints.len();
    let mut j: usize = 0;
    assert(head =~= head + joint_faults(arm@.joints, 0, now_ns));
    while j < count
        invariant
            j <= count,
            count == arm.joints@.len(),
            views(faults@) == head + joint_faults(arm@.joints, j as nat, now_ns),
        decreases count - j,
    {
        let code: u32 = arm.joints[j].error;
        if code != 0 {
            let number = decimal_text(j + 1);
            let text = join("0x", hexadecimal_padded_text(code).as_str());
            let name = join("joint_", number.as_str());
            let message = join(join(name.as_str(), " foc_status=").as_str(), text.as_str());
            let item = fault(
                join("body/arm/joint_", number.as_str()),
                "piper_foc_fault",
                now_ns,
                code,
                text,
                message,
            );
            let ghost sofar = faults@;
            assert(item@ == joint_fault((j + 1) as nat, code, now_ns));
            faults.push(item);
            assert(views(faults@) == views(sofar).push(item@));
        }
        assert(views(faults@) =~= head + joint_faults(arm@.joints, (j + 1) as nat, now_ns));
        j = j + 1;
    }
    if arm.gripper_error != 0 {
        let text = join("0x", hexadecimal_padded_text(arm.gripper_error).as_str());
        let message = join("gripper status=", text.as_str());
        let item = fault(
            "body/arm/gripper".to_owned(),
            "piper_gripper_fault",
            now_ns,
            arm.gripper_error,
            text,
            message,
        );
        assert(item@ == gripper_fault(arm.gripper_error, now_ns));
        faults.push(item);
    }
    assert(views(faults@) =~= faults_of(arm@, now_ns));
    faults
}

/// The snapshot of a body with one arm, stamped with the time `now_ns`.
pub fn snapshot_at(
    state: &HealthState,
    body_id: &str,
    arm_model: &str,
    seq: u64,
    now_ns: i64,
) -> (r: SomaHealthSnapshot)
    ensures
        r@ == arm_snapshot(state@, body_id@, arm_model@, seq, now_ns),
{
    let arm = read_arm(state);
    let components = arm_components(arm_model);
    let actuators = arm_actuators(&arm);
    let faults = arm_faults(&arm, now_ns);
    let communication_ok = joints_communicate(&arm);
    let motion_allowed = arm.arm_state == SAFETY_NORMAL && communication_ok;
    let motor_power_allowed = motion_allowed && joints_enabled(&arm);
    let snapshot = SomaHealthSnapshot {
        schema_version: SCHEMA_VERSION,
        body_id: body_id.to_owned(),
        seq,
        source_ts_ns: now_ns,
        soma_ts_ns: now_ns,
        ttl_ms: SNAPSHOT_TTL_MS,
        components,
        actuators,
        power_sources: Vec::new(),
        safety: Some(
            SafetyState {
                motion_allowed,
                motor_power_allowed,
                aggregate_state: arm.arm_state,
                detail: String::new(),
            },
        ),
        safety_endpoints: Vec::new(),
        faults,
        metrics: Vec::new(),
    };
    assert(snapshot@.safety_endpoints =~= Seq::<EndpointView>::empty());
    snapshot
}

/// The snapshot of a body with one arm, stamped with the present time.
pub fn health_state_to_snapshot(
    state: &HealthState,
    body_id: &str,
    arm_model: &str,
    seq: u64,
    clock: &mut Clock,
) -> (r: SomaHealthSnapshot)
    ensures
        r@ == arm_snapshot(state@, body_id@, arm_model@, seq, r@.source_ts_ns),
        old(clock)@.reads(r@.source_ts_ns, final(clock)@),
{
    let now_ns: i64 = chrono_now_ns(clock);
    snapshot_at(state, body_id, arm_model, seq, now_ns)
}

/// The snapshot of a body of which no arm is known, stamped with the time
/// `now_ns`.
pub fn empty_snapshot_at(body_id: &str, arm_model: &str, seq: u64, now_ns: i64) -> (r:
    SomaHealthSnapshot)
    ensures
        r@ == unknown_snapshot(body_id@, arm_model@, seq, now_ns),
{
    broadcast use lemma_views_push;

    let mut components: Vec<ComponentStatus> = Vec::new();
    assert(views(components@) =~= Seq::empty());
    components.push(component("body", "", KIND_BODY, "Piper Robot", "base_link", arm_model));
    let snapshot = SomaHealthSnapshot {
        schema_version: SCHEMA_VERSION,
        body_id: body_id.to_owned(),
        seq,
        source_ts_ns: now_ns,
        soma_ts_ns: now_ns,
        ttl_ms: SNAPSHOT_TTL_MS,
        components,
        actuators: Vec::new(),
        power_sources: Vec::new(),
        safety: Some(
            SafetyState {
                motion_allowed: false,
                motor_power_allowed: false,
                aggregate_state: SAFETY_FAULT,
                detail: "no health primitive connected".to_owned(),
            },
        ),
        safety_endpoints: Vec::new(),
        faults: Vec::new(),
        metrics: Vec::new(),
    };
    assert(snapshot@ =~= unknown_snapshot(body_id@, arm_model@, seq, now_ns));
    snapshot
}

/// The snapshot of a body of which no arm is known, stamped with the present
/// time.
pub fn empty_snapshot(body_id: &str, arm_model: &str, seq: u64, clock: &mut Clock) -> (r:
    SomaHealthSnapshot)
    ensures
        r@ == unknown_snapshot(body_id@, arm_model@, seq, r@.source_ts_ns),
        old(clock)@.reads(r@.source_ts_ns, final(clock)@),
{
    let now_ns: i64 = chrono_now_ns(clock);
    empty_snapshot_at(body_id, arm_model, seq, now_ns)
}

} // verus!
