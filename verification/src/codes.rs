//! The numeric codes of the snapshot schema.

use vstd::prelude::*;

verus! {

pub const SCHEMA_VERSION: u32 = 1;

pub const QUALITY_VALID: u32 = 0;

pub const KIND_BODY: u32 = 1;

pub const KIND_ARM: u32 = 2;

pub const KIND_JOINT: u32 = 4;

pub const KIND_GRIPPER: u32 = 6;

pub const HEALTH_UNKNOWN: u32 = 4;

pub const OP_ACTIVE: u32 = 4;

pub const SAFETY_NORMAL: u32 = 1;

pub const SAFETY_ESTOP: u32 = 4;

pub const SAFETY_FAULT: u32 = 5;

pub const FAULT_ERROR: u32 = 2;

/// How long a snapshot may be used, in milliseconds.
pub const SNAPSHOT_TTL_MS: u32 = 1500;

/// The number of joints of an arm.
pub const JOINTS: usize = 6;

} // verus!
