//! Health aggregation for a robot body with one or more Piper arms.

pub mod arm_laws;
pub mod body_laws;
pub mod clock;
pub mod codes;
pub mod collector;
pub mod collector_laws;
pub mod dial;
pub mod merge;
pub mod model;
pub mod number;
pub mod providers;
pub mod readout;
pub mod snapshot;
pub mod text;
