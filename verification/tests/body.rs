use soma_health::clock::Clock;
use soma_health::codes::{SAFETY_ESTOP, SAFETY_FAULT, SAFETY_NORMAL};
use soma_health::collector::{
    plan_collection, Collector, NextStep, ProviderAction, ProviderEvent,
};
use soma_health::dial::{dial_target, normalize_endpoint, DialError};
use soma_health::merge::{
    merge_snapshots, merged_health_snapshot, merged_snapshot_at, ProviderSnapshot,
};
use soma_health::model::{HealthState, SafetyEndpoint, SensorReading};
use soma_health::number::Real32;
use soma_health::providers::ProviderTable;
use soma_health::snapshot::snapshot_at;
use std::time::Instant;

fn reading(name: &str, current_a: f32) -> SensorReading {
    SensorReading {
        name: name.to_string(),
        current_a: Real32 { bits: current_a.to_bits() },
        ..Default::default()
    }
}

fn healthy() -> HealthState {
    let mut readings = Vec::new();
    for n in 1..=6 {
        readings.push(reading(&format!("body/arm/joint_{n}/enabled"), 1.0));
        readings.push(reading(&format!("body/arm/joint_{n}/communication_ok"), 1.0));
    }
    HealthState { readings }
}

fn with(mut state: HealthState, name: &str, x: f32) -> HealthState {
    state.readings.push(reading(name, x));
    state
}

#[test]
fn table_keeps_one_frame_per_provider_in_order() {
    let mut table = ProviderTable::new();
    assert_eq!(table.len(), 0);
    table.insert("right", HealthState::default());
    table.insert("left", HealthState::default());
    table.insert("middle", HealthState::default());
    table.insert("left", healthy());
    assert_eq!(table.len(), 3);
    let ids: Vec<_> = (0..3).map(|i| table.entry(i).id.as_str()).collect();
    assert_eq!(ids, vec!["left", "middle", "right"]);
    assert_eq!(table.entry(0).state, healthy());
    assert!(table.holds("middle"));
    assert!(table.remove("middle"));
    assert!(!table.holds("middle"));
    assert!(!table.remove("middle"));
    assert_eq!(table.len(), 2);
}

#[test]
fn table_forgets_the_order_of_arrival() {
    let mut a = ProviderTable::new();
    let mut b = ProviderTable::new();
    a.insert("x", healthy());
    a.insert("y", HealthState::default());
    b.insert("y", HealthState::default());
    b.insert("z", healthy());
    b.insert("x", healthy());
    b.remove("z");
    assert_eq!(a, b);
    let times = vec![1, 2];
    assert_eq!(
        merged_snapshot_at(&a, "b", "m", 1, 0, &times),
        merged_snapshot_at(&b, "b", "m", 1, 0, &times)
    );
}

#[test]
fn body_with_two_arms() {
    let mut states = ProviderTable::new();
    states.insert("right_piper", with(HealthState::default(), "body/arm/error", 3.0));
    states.insert("left_piper", with(HealthState::default(), "body/arm/joint_2/error", 5.0));
    let snapshot = merged_snapshot_at(&states, "dual", "piper", 7, 100, &vec![101, 102]);

    assert_eq!(snapshot.components.len(), 17);
    assert_eq!(snapshot.actuators.len(), 14);
    let body = &snapshot.components[0];
    assert_eq!((body.id.as_str(), body.name.as_str()), ("body", "Dual Piper robot"));
    assert_eq!((body.frame_id.as_str(), body.model.as_str()), ("dual_piper_base", "dual"));
    let left = &snapshot.components[1];
    assert_eq!((left.id.as_str(), left.parent_id.as_str()), ("body/left_arm", "body"));
    assert_eq!((left.name.as_str(), left.frame_id.as_str()), ("Left Piper arm", "left_base_link"));
    let joint = &snapshot.components[3];
    assert_eq!((joint.id.as_str(), joint.parent_id.as_str()), ("body/left_arm/joint_2", "body/left_arm"));
    assert_eq!((joint.name.as_str(), joint.frame_id.as_str()), ("joint_2", "left_joint2"));
    let gripper = &snapshot.components[16];
    assert_eq!((gripper.id.as_str(), gripper.frame_id.as_str()), ("body/right_arm/gripper", "right_gripper_base"));
    assert_eq!(gripper.name, "gripper");

    assert_eq!(snapshot.actuators[0].component_id, "body/left_arm/joint_1");
    assert_eq!(snapshot.actuators[0].joint_name, "left_joint1");
    assert_eq!(snapshot.actuators[13].component_id, "body/right_arm/gripper");
    assert_eq!(snapshot.actuators[13].joint_name, "right_gripper_base");

    assert_eq!(snapshot.faults.len(), 2);
    assert_eq!(snapshot.faults[0].fault_id, "left_piper_foc_fault");
    assert_eq!(snapshot.faults[0].component_id, "body/left_arm/joint_2");
    assert_eq!(snapshot.faults[0].onset_ts_ns, 101);
    assert_eq!(snapshot.faults[1].fault_id, "right_piper_controller_fault");
    assert_eq!(snapshot.faults[1].component_id, "body/right_arm");
    assert_eq!(snapshot.faults[1].onset_ts_ns, 102);

    assert_eq!(snapshot.source_ts_ns, 100);
    assert_eq!(snapshot.seq, 7);
    let safety = snapshot.safety.unwrap();
    assert_eq!(safety.detail, "2 Piper health provider(s) aggregated");
    assert!(!safety.motion_allowed);

    let mut ids: Vec<_> = snapshot.components.iter().map(|c| c.id.clone()).collect();
    assert!(snapshot.actuators.iter().all(|a| ids.contains(&a.component_id)));
    assert!(snapshot.components[1..].iter().all(|c| ids.contains(&c.parent_id)));
    ids.sort();
    ids.dedup();
    assert_eq!(ids.len(), 17);
}

#[test]
fn arm_without_a_side() {
    let mut states = ProviderTable::new();
    states.insert("piper", HealthState::default());
    let snapshot = merged_snapshot_at(&states, "b", "m", 1, 0, &vec![0]);
    assert_eq!(snapshot.components[1].id, "body/arm_arm");
    assert_eq!(snapshot.components[1].name, "Arm Piper arm");
}

#[test]
fn worst_arm_decides() {
    let safety = |left: HealthState, right: HealthState| {
        let mut states = ProviderTable::new();
        states.insert("left", left);
        states.insert("right", right);
        merged_snapshot_at(&states, "b", "m", 1, 0, &vec![0, 0]).safety.unwrap()
    };
    let good = safety(healthy(), healthy());
    assert!(good.motion_allowed && good.motor_power_allowed);
    assert_eq!(good.aggregate_state, SAFETY_NORMAL);

    let stop = || with(healthy(), "body/arm/state", 2.0);
    let fault = || with(healthy(), "body/arm/state", 9.0);
    assert_eq!(safety(stop(), fault()).aggregate_state, SAFETY_ESTOP);
    assert_eq!(safety(fault(), stop()).aggregate_state, SAFETY_ESTOP);
    assert_eq!(safety(fault(), healthy()).aggregate_state, SAFETY_FAULT);
    assert_eq!(safety(healthy(), fault()).aggregate_state, SAFETY_FAULT);
    assert!(!safety(healthy(), stop()).motion_allowed);

    let off = safety(healthy(), with(healthy(), "body/arm/joint_1/enabled", 0.0));
    assert!(off.motion_allowed && !off.motor_power_allowed);
}

#[test]
fn endpoints_are_named_by_side_and_missing_safety_is_skipped() {
    let mut snapshot = snapshot_at(&healthy(), "b", "m", 1, 0);
    snapshot.safety_endpoints.push(SafetyEndpoint { name: "estop".to_string() });
    snapshot.safety = None;
    let parts = vec![ProviderSnapshot { provider_id: "LEFT".to_string(), snapshot }];
    let merged = merge_snapshots(parts, "b", 1, 0);
    assert_eq!(merged.safety_endpoints[0].name, "left_estop");
    let safety = merged.safety.unwrap();
    assert!(safety.motion_allowed && safety.motor_power_allowed);
    assert_eq!(safety.aggregate_state, SAFETY_NORMAL);
}

#[test]
fn body_without_providers() {
    let snapshot = merged_health_snapshot(&ProviderTable::new(), "b", "m", 4, &mut Clock::start());
    assert_eq!(snapshot.components.len(), 1);
    assert_eq!(snapshot.seq, 4);
    let safety = snapshot.safety.unwrap();
    assert!(!safety.motion_allowed && !safety.motor_power_allowed);
    assert_eq!(safety.aggregate_state, SAFETY_FAULT);
}

#[test]
fn providers_are_planned_once_each() {
    let ids = |names: &[&str]| names.iter().map(|n| n.to_string()).collect::<Vec<_>>();
    assert_eq!(plan_collection(Vec::new()), None);
    assert_eq!(plan_collection(ids(&["b", "a", "b", "c", "a"])), Some(ids(&["b", "a", "c"])));
}

#[test]
fn endpoints_get_a_scheme() {
    assert_eq!(normalize_endpoint("10.0.0.1:50051"), "http://10.0.0.1:50051");
    assert_eq!(normalize_endpoint("http://h:1"), "http://h:1");
    assert_eq!(normalize_endpoint("https://h:1"), "https://h:1");
    assert_eq!(normalize_endpoint("httpd:1"), "httpd:1");
    assert_eq!(normalize_endpoint(""), "http://");
}

#[test]
fn endpoints_are_dialled_where_they_are_urls() {
    let target = dial_target("10.0.0.1:50051").unwrap();
    assert_eq!(target.uri().to_string(), "http://10.0.0.1:50051/");
    let why = |endpoint: &str| match dial_target(endpoint) {
        Ok(target) => panic!("{:?}", target.uri()),
        Err(DialError::InvalidEndpoint(e)) => e.to_string(),
    };
    assert_eq!(why("not a url"), "invalid uri character");
    assert_eq!(why(""), "empty string");
    assert_eq!(why("h:1:2"), "invalid authority");
}

fn step(collector: &mut Collector, id: &str, event: ProviderEvent) -> ProviderAction {
    assert!(collector.can_handle(id, &event));
    collector.handle(id, event, &mut Clock::start())
}

#[test]
fn link_goes_from_step_to_step() {
    let mut c = Collector::new("b".to_string(), "m".to_string());
    let id = "left";
    assert!(matches!(step(&mut c, id, ProviderEvent::Started).next, NextStep::Resolve));
    let resolved = ProviderEvent::Resolved(dial_target("h:1"));
    assert!(matches!(step(&mut c, id, resolved).next, NextStep::Open(_)));
    let opened = step(&mut c, id, ProviderEvent::Opened);
    assert!(matches!(opened.next, NextStep::Receive));
    assert!(opened.publish.is_none());
    let frame = step(&mut c, id, ProviderEvent::Frame(healthy()));
    assert!(matches!(frame.next, NextStep::Receive));
    assert!(frame.publish.is_some());
    assert!(matches!(step(&mut c, id, ProviderEvent::TimedOut).next, NextStep::Pause));
    assert!(matches!(step(&mut c, id, ProviderEvent::Paused).next, NextStep::Resolve));
    for lost in [
        ProviderEvent::Resolved(dial_target("not a url")),
        ProviderEvent::ResolveFailed,
        ProviderEvent::OpenFailed,
        ProviderEvent::StreamEnded,
        ProviderEvent::StreamFailed,
    ] {
        let action = step(&mut c, id, lost);
        assert!(matches!(action.next, NextStep::Pause));
        assert!(action.publish.is_none());
    }
}

#[test]
fn snapshots_are_numbered_and_losses_published_once() {
    let mut c = Collector::new("b".to_string(), "m".to_string());
    assert_eq!(c.sequence(), 0);
    let first = step(&mut c, "left", ProviderEvent::Frame(healthy())).publish.unwrap();
    assert_eq!(first.seq, 1);
    assert_eq!(first.actuators.len(), 7);
    assert!(first.safety.unwrap().motion_allowed);
    let second = step(&mut c, "right", ProviderEvent::Frame(HealthState::default())).publish.unwrap();
    assert_eq!(second.seq, 2);
    assert_eq!(second.actuators.len(), 14);
    let third = step(&mut c, "right", ProviderEvent::StreamEnded).publish.unwrap();
    assert_eq!(third.seq, 3);
    assert_eq!(third.actuators.len(), 7);
    assert!(third.safety.unwrap().motion_allowed);
    assert!(step(&mut c, "right", ProviderEvent::StreamEnded).publish.is_none());
    assert_eq!(c.sequence(), 3);
    let last = step(&mut c, "left", ProviderEvent::StreamFailed).publish.unwrap();
    assert_eq!(last.seq, 4);
    assert_eq!(last.body_id, "b");
    assert_eq!(last.components[0].model, "m");
    assert!(!last.safety.unwrap().motion_allowed);
}

#[test]
fn frames_and_losses_are_counted() {
    let mut c = Collector::new("b".to_string(), "m".to_string());
    assert_eq!(c.record_frame("x", healthy()), 1);
    assert_eq!(c.record_frame("x", HealthState::default()), 2);
    assert_eq!(c.drop_provider("y"), None);
    assert_eq!(c.drop_provider("x"), Some(3));
    assert_eq!(c.drop_provider("x"), None);
    assert_eq!(c.snapshot(&mut Clock::start()).seq, 3);
}

#[test]
fn events_of_different_providers_may_come_in_either_order() {
    let mut a = Collector::new("b".to_string(), "m".to_string());
    a.record_frame("left", healthy());
    a.record_frame("right", HealthState::default());
    let mut b = Collector::new("b".to_string(), "m".to_string());
    b.record_frame("right", HealthState::default());
    b.record_frame("left", healthy());
    let ids = |c: &Collector| {
        let snapshot = c.snapshot(&mut Clock::start());
        snapshot.components.iter().map(|c| c.id.clone()).collect::<Vec<_>>()
    };
    assert_eq!(ids(&a), ids(&b));
    assert_eq!(a.sequence(), b.sequence());
}

#[test]
fn snapshots_of_a_run_come_in_the_order_of_number_and_time() {
    let start = Instant::now();
    let mut clock = Clock::from_instant(start);
    let mut c = Collector::new("b".to_string(), "m".to_string());
    let mut last = 0;
    for n in 1..=20u64 {
        let id = if n % 3 == 0 { "left" } else { "right" };
        let broken = with(healthy(), "body/arm/error", 3.0);
        let event = if n % 5 == 0 {
            ProviderEvent::TimedOut
        } else {
            ProviderEvent::Frame(broken)
        };
        assert!(c.can_handle(id, &event));
        let Some(snapshot) = c.handle(id, event, &mut clock).publish else {
            continue;
        };
        assert_eq!(snapshot.seq, c.sequence());
        assert!(last <= snapshot.source_ts_ns);
        last = snapshot.source_ts_ns;
        assert_eq!(snapshot.soma_ts_ns, last);
        for fault in &snapshot.faults {
            assert!(last <= fault.onset_ts_ns);
            last = fault.onset_ts_ns;
        }
    }
    assert!(last as u128 <= start.elapsed().as_nanos());
    assert!(c.sequence() >= 16);
}

#[test]
fn more_providers_only_restrict() {
    let safety = |table: &ProviderTable, n: usize| {
        merged_snapshot_at(table, "b", "m", 1, 5, &vec![5; n]).safety.unwrap()
    };
    let mut table = ProviderTable::new();
    table.insert("left", healthy());
    assert!(safety(&table, 1).motor_power_allowed);
    table.insert("right", with(healthy(), "body/arm/joint_2/enabled", 0.0));
    let two = safety(&table, 2);
    assert!(two.motion_allowed && !two.motor_power_allowed);
    assert_eq!(two.aggregate_state, SAFETY_NORMAL);
    table.insert("third", with(healthy(), "body/arm/state", 2.0));
    let three = safety(&table, 3);
    assert!(!three.motion_allowed);
    assert_eq!(three.aggregate_state, SAFETY_ESTOP);
    table.insert("fourth", with(healthy(), "body/arm/state", 1.0));
    assert_eq!(safety(&table, 4).aggregate_state, SAFETY_ESTOP);
}

#[test]
fn last_readings_decide_the_body() {
    let mut a = ProviderTable::new();
    a.insert("left", with(with(healthy(), "body/arm/error", 1.0), "body/arm/error", 9.0));
    let mut b = ProviderTable::new();
    b.insert("left", with(with(healthy(), "unknown", 4.0), "body/arm/error", 9.0));
    let mut x = merged_snapshot_at(&a, "b", "m", 1, 5, &vec![6]);
    let y = merged_snapshot_at(&b, "b", "m", 1, 7, &vec![8]);
    assert_eq!((x.source_ts_ns, x.faults[0].onset_ts_ns), (5, 6));
    assert_eq!((y.source_ts_ns, y.faults[0].onset_ts_ns), (7, 8));
    (x.source_ts_ns, x.soma_ts_ns, x.faults[0].onset_ts_ns) = (7, 7, 8);
    assert_eq!(x, y);
}

#[test]
fn parents_are_listed_before_their_children() {
    let mut table = ProviderTable::new();
    table.insert("left", healthy());
    table.insert("right", healthy());
    let all = merged_snapshot_at(&table, "b", "m", 1, 5, &vec![5, 5]).components;
    for j in 1..all.len() {
        assert!(all[..j].iter().any(|c| c.id == all[j].parent_id));
    }
}
