use soma_health::clock::Clock;
use soma_health::merge::merged_health_snapshot;
use soma_health::model::{HealthState, SensorReading};
use soma_health::number::Real32;
use soma_health::providers::ProviderTable;
use soma_health::readout::parse_joint_index;
use soma_health::snapshot::health_state_to_snapshot;

#[test]
fn parse_joint_index_valid() {
    assert_eq!(parse_joint_index("body/arm/joint_1/motor_temp"), Some(0));
    assert_eq!(parse_joint_index("body/arm/joint_6/enabled"), Some(5));
    assert_eq!(parse_joint_index("body/arm/joint_3/error"), Some(2));
}

#[test]
fn parse_joint_index_invalid() {
    assert_eq!(parse_joint_index("body/arm/joint_7/motor_temp"), None);
    assert_eq!(parse_joint_index("body/arm/joint_0/motor_temp"), None);
    assert_eq!(parse_joint_index("body/leg/joint_1/motor_temp"), None);
    assert_eq!(parse_joint_index("random_string"), None);
}

#[test]
fn merge_namespaces_left_and_right_provider_components() {
    let mut states = ProviderTable::new();
    states.insert("left_piper", HealthState::default());
    states.insert("right_piper", HealthState::default());

    let snapshot = merged_health_snapshot(&states, "dual_piper", "piper", 7, &mut Clock::start());
    let component_ids: std::collections::HashSet<_> = snapshot
        .components
        .iter()
        .map(|component| component.id.as_str())
        .collect();

    assert!(component_ids.contains("body/left_arm/joint_1"));
    assert!(component_ids.contains("body/left_arm/gripper"));
    assert!(component_ids.contains("body/right_arm/joint_6"));
    assert!(component_ids.contains("body/right_arm/gripper"));
    assert_eq!(snapshot.actuators.len(), 14);
}

#[test]
fn controller_error_becomes_an_arm_fault() {
    let state = HealthState {
        readings: vec![SensorReading {
            name: "body/arm/error".to_string(),
            current_a: Real32 { bits: 7.0f32.to_bits() },
            ..Default::default()
        }],
    };

    let snapshot = health_state_to_snapshot(&state, "dual_piper", "piper", 1, &mut Clock::start());

    assert!(snapshot.faults.iter().any(|fault| {
        fault.component_id == "body/arm"
            && fault.fault_id == "piper_controller_fault"
            && fault.vendor_code == 7
    }));
}
