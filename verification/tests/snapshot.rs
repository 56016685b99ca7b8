use soma_health::clock::{chrono_now_ns, stamp_at, time_stamp, Clock};
use soma_health::codes::{SAFETY_ESTOP, SAFETY_FAULT, SAFETY_NORMAL};
use soma_health::model::{ActuatorState, HealthState, Scalar, SensorReading};
use soma_health::number::{Real32, Real64};
use soma_health::readout::{channel_of, parse_joint_index, read_arm, Channel};
use soma_health::snapshot::{
    component, empty_snapshot, empty_snapshot_at, health_state_to_snapshot, scalar, snapshot_at,
};
use std::time::{Duration, Instant};

fn single(x: f32) -> Real32 {
    Real32 { bits: x.to_bits() }
}

fn reading(name: &str, current_a: f32) -> SensorReading {
    SensorReading { name: name.to_string(), current_a: single(current_a), ..Default::default() }
}

fn value(s: &Option<Scalar>) -> Option<f64> {
    s.as_ref().map(|s| f64::from_bits(s.value.bits))
}

fn healthy() -> HealthState {
    let mut readings = Vec::new();
    for n in 1..=6 {
        readings.push(reading(&format!("body/arm/joint_{n}/enabled"), 1.0));
        readings.push(reading(&format!("body/arm/joint_{n}/communication_ok"), 1.0));
    }
    readings.push(reading("body/arm/state", 0.0));
    HealthState { readings }
}

#[test]
fn joint_numbers_are_read_as_numerals() {
    assert_eq!(parse_joint_index("body/arm/joint_01/error"), Some(0));
    assert_eq!(parse_joint_index("body/arm/joint_0000000000000000000000006"), Some(5));
    assert_eq!(parse_joint_index("body/arm/joint_12/error"), None);
    assert_eq!(parse_joint_index("body/arm/joint_99999999999999999999999/error"), None);
    assert_eq!(parse_joint_index("body/arm/joint_/error"), None);
    assert_eq!(parse_joint_index("body/arm/joint_x"), None);
    assert_eq!(parse_joint_index("body/arm/joint_2x"), Some(1));
    assert_eq!(parse_joint_index(""), None);
}

#[test]
fn names_stand_for_channels() {
    assert_eq!(channel_of("body/arm/joint_1/motor_temp"), Some(Channel::MotorTemp(0)));
    assert_eq!(channel_of("body/arm/joint_2/driver_temp"), Some(Channel::DriverTemp(1)));
    assert_eq!(channel_of("body/arm/joint_3/voltage"), Some(Channel::Power(2)));
    assert_eq!(channel_of("body/arm/joint_4/error"), Some(Channel::JointError(3)));
    assert_eq!(channel_of("body/arm/joint_5/enabled"), Some(Channel::JointEnabled(4)));
    assert_eq!(
        channel_of("body/arm/joint_6/communication_ok"),
        Some(Channel::JointCommunication(5))
    );
    assert_eq!(channel_of("body/arm/state"), Some(Channel::ArmState));
    assert_eq!(channel_of("body/arm/error"), Some(Channel::ArmError));
    assert_eq!(channel_of("body/arm/gripper/error"), Some(Channel::GripperError));
    assert_eq!(channel_of("body/arm/gripper/enabled"), Some(Channel::GripperEnabled));
    assert_eq!(channel_of("body/arm/gripper/homed"), Some(Channel::GripperHomed));
    assert_eq!(channel_of("body/arm/gripper/opening_m"), Some(Channel::GripperOpening));
    assert_eq!(channel_of("body/arm/joint_1/other"), None);
    assert_eq!(channel_of("body/arm/joint_7/error"), None);
    assert_eq!(channel_of("elsewhere"), None);
}

#[test]
fn later_readings_win_and_unknown_ones_are_ignored() {
    let state = HealthState {
        readings: vec![
            reading("body/arm/joint_2/error", 5.0),
            reading("body/arm/state", 2.0),
            reading("body/arm/joint_2/error", 9.7),
            reading("noise", 3.0),
            reading("body/arm/state", 0.0),
        ],
    };
    let arm = read_arm(&state);
    assert_eq!(arm.joints[1].error, 9);
    assert_eq!(arm.arm_state, SAFETY_NORMAL);
    assert_eq!(arm.joints[0].error, 0);
}

#[test]
fn arm_state_codes() {
    for (code, expected) in
        [(0.0, SAFETY_NORMAL), (1.0, SAFETY_FAULT), (2.0, SAFETY_ESTOP), (3.0, SAFETY_FAULT)]
    {
        let state = HealthState { readings: vec![reading("body/arm/state", code)] };
        assert_eq!(read_arm(&state).arm_state, expected);
    }
}

#[test]
fn component_tree_of_one_arm() {
    let snapshot = snapshot_at(&HealthState::default(), "b", "piper_x", 3, 42);
    let ids: Vec<_> = snapshot.components.iter().map(|c| c.id.as_str()).collect();
    assert_eq!(
        ids,
        vec![
            "body",
            "body/arm",
            "body/arm/joint_1",
            "body/arm/joint_2",
            "body/arm/joint_3",
            "body/arm/joint_4",
            "body/arm/joint_5",
            "body/arm/joint_6",
            "body/arm/gripper",
        ]
    );
    let arm = &snapshot.components[1];
    assert_eq!(arm.parent_id, "body");
    assert_eq!(arm.kind, 2);
    assert_eq!(arm.name, "Piper arm");
    assert_eq!(arm.frame_id, "arm_base_link");
    assert_eq!(arm.model, "piper_x");
    assert_eq!(arm.health, 4);
    assert_eq!(arm.operational_state, 4);
    assert!(arm.present && arm.online);
    assert_eq!(snapshot.components[0].model, "piper");
    assert_eq!(snapshot.components[8].model, "piper_gripper");
    assert_eq!(snapshot.components[4].frame_id, "joint_3");
    assert_eq!(snapshot.schema_version, 1);
    assert_eq!(snapshot.seq, 3);
    assert_eq!(snapshot.ttl_ms, 1500);
    assert_eq!((snapshot.source_ts_ns, snapshot.soma_ts_ns), (42, 42));
    assert_eq!(snapshot.body_id, "b");
    assert!(snapshot.power_sources.is_empty());
    assert!(snapshot.metrics.is_empty());
    assert!(snapshot.safety_endpoints.is_empty());
}

#[test]
fn every_part_belongs_to_a_listed_component() {
    let mut state = healthy();
    state.readings.push(reading("body/arm/error", 1.0));
    state.readings.push(reading("body/arm/joint_6/error", 1.0));
    state.readings.push(reading("body/arm/gripper/error", 1.0));
    let snapshot = snapshot_at(&state, "b", "m", 1, 0);
    let listed = |id: &str| snapshot.components.iter().any(|c| c.id == id);
    assert_eq!(snapshot.actuators.len(), 7);
    assert_eq!(snapshot.faults.len(), 3);
    assert!(snapshot.actuators.iter().all(|a| listed(&a.component_id)));
    assert!(snapshot.faults.iter().all(|f| listed(&f.component_id)));
    assert!(snapshot.components[1..].iter().all(|c| listed(&c.parent_id)));
}

#[test]
fn measurements_reach_the_actuators() {
    let mut power = reading("body/arm/joint_2/voltage", 1.25);
    power.voltage = single(24.5);
    let mut motor = reading("body/arm/joint_2/motor_temp", 0.0);
    motor.temp_c = single(36.5);
    let mut driver = reading("body/arm/joint_2/driver_temp", 0.0);
    driver.temp_c = single(-4.0);
    let state = HealthState { readings: vec![power, motor, driver] };
    let snapshot = snapshot_at(&state, "b", "m", 1, 0);
    let joint: &ActuatorState = &snapshot.actuators[1];
    assert_eq!(value(&joint.voltage), Some(24.5));
    assert_eq!(joint.voltage.as_ref().unwrap().unit, "V");
    assert_eq!(value(&joint.current), Some(1.25));
    assert_eq!(joint.current.as_ref().unwrap().unit, "A");
    assert_eq!(value(&joint.motor_temp), Some(36.5));
    assert_eq!(joint.motor_temp.as_ref().unwrap().unit, "degC");
    assert_eq!(joint.driver_temp, None);
    assert_eq!(value(&joint.position), Some(0.0));
    assert_eq!(joint.position.as_ref().unwrap().unit, "rad");
    assert_eq!(joint.velocity.as_ref().unwrap().unit, "rad/s");
    assert_eq!(joint.effort.as_ref().unwrap().unit, "Nm");
    assert_eq!(snapshot.actuators[0].voltage, None);
}

#[test]
fn measurements_that_are_no_numbers_are_not_published() {
    let mut motor = reading("body/arm/joint_1/motor_temp", 0.0);
    motor.temp_c = single(f32::NAN);
    let snapshot = snapshot_at(&HealthState { readings: vec![motor] }, "b", "m", 1, 0);
    assert_eq!(snapshot.actuators[0].motor_temp, None);
}

#[test]
fn gripper_actuator() {
    let mut state = healthy();
    state.readings.push(reading("body/arm/gripper/enabled", 0.5));
    state.readings.push(reading("body/arm/gripper/homed", 1.0));
    state.readings.push(reading("body/arm/gripper/opening_m", 0.0625));
    state.readings.push(reading("body/arm/gripper/error", 18.0));
    let snapshot = snapshot_at(&state, "b", "m", 1, 0);
    let gripper = &snapshot.actuators[6];
    assert_eq!(gripper.component_id, "body/arm/gripper");
    assert_eq!(gripper.joint_name, "gripper");
    assert!(gripper.torque_enabled);
    assert!(gripper.communication_ok);
    assert_eq!(gripper.vendor_mode, 1);
    assert_eq!(gripper.vendor_error_code, 18);
    assert_eq!(gripper.status_flags, 18);
    assert_eq!(value(&gripper.position), Some(0.0625));
    assert_eq!(gripper.velocity.as_ref().unwrap().unit, "m/s");
    assert_eq!(gripper.effort, None);
}

#[test]
fn faults_are_listed_with_their_codes() {
    let state = HealthState {
        readings: vec![
            reading("body/arm/gripper/error", 10.0),
            reading("body/arm/joint_3/error", 7.0),
            reading("body/arm/joint_1/error", 255.0),
            reading("body/arm/error", 10.0),
            reading("body/arm/joint_2/error", 0.9),
        ],
    };
    let faults = snapshot_at(&state, "b", "m", 1, 77).faults;
    assert_eq!(faults.len(), 4);
    assert_eq!(faults[0].fault_id, "piper_controller_fault");
    assert_eq!(faults[0].vendor_code_text, "0xA");
    assert_eq!(faults[0].message, "Piper controller error_code=0xA");
    assert_eq!(faults[1].component_id, "body/arm/joint_1");
    assert_eq!(faults[1].fault_id, "piper_foc_fault");
    assert_eq!(faults[1].vendor_code_text, "0xFF");
    assert_eq!(faults[1].message, "joint_1 foc_status=0xFF");
    assert_eq!(faults[2].component_id, "body/arm/joint_3");
    assert_eq!(faults[2].vendor_code_text, "0x07");
    assert_eq!(faults[2].message, "joint_3 foc_status=0x07");
    assert_eq!(faults[3].component_id, "body/arm/gripper");
    assert_eq!(faults[3].message, "gripper status=0x0A");
    for fault in &faults {
        assert_eq!(fault.severity, 2);
        assert!(fault.active && fault.clearable);
        assert_eq!(fault.onset_ts_ns, 77);
        assert!(fault.attributes.is_empty());
        assert_eq!(fault.vendor_raw_json, "");
    }
}

#[test]
fn motion_needs_every_joint_and_a_normal_arm() {
    let safety = |state: &HealthState| snapshot_at(state, "b", "m", 1, 0).safety.unwrap();

    let good = safety(&healthy());
    assert!(good.motion_allowed && good.motor_power_allowed);
    assert_eq!(good.aggregate_state, SAFETY_NORMAL);
    assert_eq!(good.detail, "");

    let silent = safety(&HealthState::default());
    assert!(!silent.motion_allowed && !silent.motor_power_allowed);
    assert_eq!(silent.aggregate_state, SAFETY_NORMAL);

    let mut off = healthy();
    off.readings.push(reading("body/arm/joint_4/enabled", 0.0));
    assert!(safety(&off).motion_allowed);
    assert!(!safety(&off).motor_power_allowed);

    let mut mute = healthy();
    mute.readings.push(reading("body/arm/joint_4/communication_ok", 0.25));
    assert!(!safety(&mute).motion_allowed);

    let mut stopped = healthy();
    stopped.readings.push(reading("body/arm/state", 2.0));
    assert!(!safety(&stopped).motion_allowed);
    assert_eq!(safety(&stopped).aggregate_state, SAFETY_ESTOP);
}

#[test]
fn snapshot_without_arms() {
    let snapshot = empty_snapshot_at("b", "m", 9, -3);
    assert_eq!(snapshot.components.len(), 1);
    assert_eq!(snapshot.components[0].model, "m");
    assert_eq!(snapshot.components[0].name, "Piper Robot");
    assert_eq!(snapshot.source_ts_ns, -3);
    assert_eq!(snapshot.seq, 9);
    let safety = snapshot.safety.unwrap();
    assert!(!safety.motion_allowed && !safety.motor_power_allowed);
    assert_eq!(safety.aggregate_state, SAFETY_FAULT);
    assert_eq!(safety.detail, "no health primitive connected");
}

#[test]
fn clock_runs_forward_and_stamps_snapshots() {
    let mut clock = Clock::start();
    let before = chrono_now_ns(&mut clock);
    let a = health_state_to_snapshot(&HealthState::default(), "b", "m", 1, &mut clock);
    let b = empty_snapshot("b", "m", 2, &mut clock);
    let after = chrono_now_ns(&mut clock);
    assert!(0 <= before);
    assert!(before <= a.source_ts_ns);
    assert!(a.source_ts_ns <= b.source_ts_ns);
    assert!(b.source_ts_ns <= after);
    assert_eq!(a, snapshot_at(&HealthState::default(), "b", "m", 1, a.source_ts_ns));
    assert_eq!(b, empty_snapshot_at("b", "m", 2, b.source_ts_ns));
    let start = std::time::Instant::now();
    while start.elapsed().as_millis() < 2 {}
    assert!(chrono_now_ns(&mut clock) - after >= 2_000_000);
}

#[test]
fn clock_counts_from_its_start() {
    let start = Instant::now();
    let mut clock = Clock::from_instant(start);
    assert_eq!(stamp_at(&mut clock, start), 0);
    assert_eq!(stamp_at(&mut clock, start + Duration::from_nanos(1_500)), 1_500);
    assert_eq!(stamp_at(&mut clock, start + Duration::from_secs(3)), 3_000_000_000);
    assert_eq!(stamp_at(&mut clock, start + Duration::new(9_223_372_036, 854_775_807)), i64::MAX);
    assert_eq!(stamp_at(&mut clock, start + Duration::new(9_223_372_036, 854_775_808)), i64::MIN);
}

#[test]
fn clock_does_not_go_back() {
    let start = Instant::now();
    let mut clock = Clock::from_instant(start);
    assert_eq!(stamp_at(&mut clock, start + Duration::from_nanos(70)), 70);
    assert_eq!(stamp_at(&mut clock, start + Duration::from_nanos(69)), 70);
    assert_eq!(stamp_at(&mut clock, start), 70);
    assert_eq!(stamp_at(&mut clock, start + Duration::from_nanos(71)), 71);
}

#[test]
fn clock_reads_the_present() {
    let start = Instant::now();
    let mut clock = Clock::from_instant(start);
    let lower = start.elapsed().as_nanos() as i64;
    let now = chrono_now_ns(&mut clock);
    let upper = start.elapsed().as_nanos() as i64;
    assert!(lower <= now && now <= upper);
}

#[test]
fn last_readings_decide_the_arm() {
    let twice = HealthState {
        readings: vec![
            reading("body/arm/joint_1/error", 2.0),
            reading("elsewhere", 1.0),
            reading("body/arm/joint_1/error", 7.0),
        ],
    };
    let once = HealthState { readings: vec![reading("body/arm/joint_1/error", 7.0)] };
    assert_eq!(snapshot_at(&twice, "b", "m", 1, 4), snapshot_at(&once, "b", "m", 1, 4));
    let mut later = snapshot_at(&once, "b", "m", 1, 6);
    assert_eq!(later.faults[0].onset_ts_ns, 6);
    (later.source_ts_ns, later.soma_ts_ns, later.faults[0].onset_ts_ns) = (4, 4, 4);
    assert_eq!(later, snapshot_at(&twice, "b", "m", 1, 4));
}

#[test]
fn time_stamps_wrap_round() {
    for n in [0u128, 1, i64::MAX as u128, 1 << 63, u64::MAX as u128, 1 << 64, (1 << 90) + 5] {
        assert_eq!(time_stamp(n), n as i64);
    }
}

#[test]
fn small_builders() {
    let c = component("i", "p", 4, "n", "f", "m");
    assert_eq!((c.id.as_str(), c.parent_id.as_str(), c.kind), ("i", "p", 4));
    assert_eq!((c.name.as_str(), c.frame_id.as_str(), c.model.as_str()), ("n", "f", "m"));
    assert_eq!((c.serial.as_str(), c.detail.as_str()), ("", ""));
    let s = scalar(Real64 { bits: 1.5f64.to_bits() }, "A");
    assert_eq!(s, Scalar { value: Real64 { bits: 1.5f64.to_bits() }, unit: "A".into(), quality: 0 });
}

#[test]
fn order_between_channels_is_free() {
    let a = || reading("body/arm/joint_2/error", 5.0);
    let b = || reading("body/arm/gripper/homed", 1.0);
    let ab = read_arm(&HealthState { readings: vec![a(), b()] });
    let ba = read_arm(&HealthState { readings: vec![b(), a()] });
    assert_eq!(ab, ba);
    assert_eq!(ab.joints[1].error, 5);
    assert!(ab.gripper_homed);
}
