//! Alert rules: sustained processor and memory use of processes and whole
//! applications, full volumes, and memory pressure.
pub mod active;
pub mod consumers;
pub mod engine;
pub mod episode;
pub mod event;
pub mod history;
pub mod laws;
pub mod machine;
pub mod matcher;
pub mod memory;
pub mod names;
pub mod runs;
pub mod tables;
pub mod template;
pub mod thresholds;
pub mod verdicts;

pub use active::ActiveThresholds;
pub use engine::{AlertEngine, Evaluation};
pub use event::{
    AlertDetail, AlertEvent, AlertKind, AlertSubject, MemoryConsumer, Severity, TopConsumers,
};
pub use matcher::Matcher;
pub use template::Template;
pub use thresholds::Thresholds;
