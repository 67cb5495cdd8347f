//! System performance metrics: collection, alert rules, history, settings and
//! text for people.
pub mod alerts;
pub mod averages;
pub mod cli;
pub mod client;
pub mod collector;
pub mod config;
pub mod daemon;
pub mod date;
pub mod error;
pub mod keys;
pub mod monitor;
pub mod number;
pub mod order;
pub mod overrides;
pub mod paths;
pub mod rate;
pub mod records;
pub mod render;
pub mod rolling;
pub mod scheduler;
pub mod settings;
pub mod snapshot;
pub mod text;
pub mod time;

pub use collector::local::LocalCollector;
pub use config::CollectorConfig;
pub use error::{ClientError, CollectError, ConfigError, SchedulerError, SinkError};
pub use monitor::{Monitor, Tick};
pub use scheduler::{Scheduler, StdoutSink};
pub use snapshot::{
    CpuSnapshot, DiskSnapshot, HostInfo, LoadSnapshot, MemorySnapshot, NetworkSnapshot,
    ProcessSnapshot, SystemSnapshot, TemperatureSnapshot,
};
