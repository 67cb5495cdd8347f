//! Turning raw readings of the system into snapshots.
pub mod bundle;
pub mod cadence;
pub mod cpu;
pub mod disks;
pub mod drives;
pub mod groups;
pub mod lists;
pub mod local;
pub mod networks;
pub mod processes;
pub mod registry;
pub mod rounds;
pub mod select;
pub mod sensors;
pub mod shares;
pub mod status;
pub mod totals;
pub mod traffic;
pub mod trees;
pub mod volumes;
