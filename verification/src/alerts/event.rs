//! Alerts as data, and the line of text that tells of one.
use vstd::prelude::*;
use vstd::string::*;
use crate::number::{push_tenths, round_div, rounded, tenths_text, UNIT};
use crate::text::{decimal, number_text, push_number};
use crate::time::{Duration, NANOS_PER_SEC};

verus! {

/// Which rule an alert comes from.
#[derive(Debug, Clone, Copy, PartialEq, Eq, Hash, Structural)]
pub enum AlertKind {
    Cpu,
    Memory,
    /// The processor use of a whole application
    AppCpu,
    /// The memory of a whole application
    AppMemory,
    /// A full volume
    Disk,
    /// The kernel's verdict on memory
    Pressure,
}

/// How alarming an alert is.
#[derive(Debug, Clone, Copy, PartialEq, Eq, Hash, Structural)]
pub enum Severity {
    Warning,
    /// A runaway process, or critical memory pressure
    Critical,
}

/// What an alert is about.
#[derive(Debug, Clone, PartialEq, Eq)]
pub enum AlertSubject {
    /// Told of under the display name, where there is one
    Process { pid: u32, name: String, display_name: Option<String> },
    /// A whole process tree, told of under the display name, where there is one
    App { root_pid: u32, name: String, display_name: Option<String>, process_count: u32 },
    Volume { mount_point: String },
    /// The machine as a whole
    System,
}

/// A process or an application that holds much memory.
#[derive(Debug, Clone, PartialEq, Eq)]
pub struct MemoryConsumer {
    /// The pid, or that of the tree's root
    pub pid: u32,
    pub name: String,
    pub display_name: Option<String>,
    pub bytes: u64,
    /// Share of all memory
    pub share_percent: u64,
    pub process_count: u32,
}

/// The largest holders of memory, at most three, the largest first.
#[derive(Debug, Clone, PartialEq, Eq)]
pub struct TopConsumers {
    pub first: Option<MemoryConsumer>,
    pub second: Option<MemoryConsumer>,
    pub third: Option<MemoryConsumer>,
}

/// What was measured. Percentages are counted in millionths.
#[derive(Debug, Clone, PartialEq, Eq)]
pub enum AlertDetail {
    Cpu {
        /// Mean over the window, in percent of one core
        avg_percent: u128,
        /// The bar that was crossed
        threshold_percent: u128,
        window: Duration,
        /// The fast tier: a multiple of the threshold
        runaway: bool,
    },
    Memory {
        avg_bytes: u64,
        /// Share of all memory
        share_percent: u128,
        /// The bar that was crossed, in bytes
        threshold_bytes: u128,
        threshold_percent: u128,
        window: Duration,
    },
    Disk {
        used_percent: u128,
        threshold_percent: u128,
        available_bytes: u64,
        total_bytes: u64,
    },
    Pressure {
        /// 2 is a warning, 4 is critical
        level: u32,
        /// How long the pressure has lasted
        sustained: Duration,
        swap_used_bytes: u64,
        swap_total_bytes: u64,
        compressed_bytes: Option<u64>,
        /// What to close first
        top_consumers: TopConsumers,
    },
}

/// An alert that should reach the user now.
#[derive(Debug, Clone)]
pub struct AlertEvent {
    pub subject: AlertSubject,
    pub detail: AlertDetail,
    /// How long the condition had lasted, when this is the follow-up
    pub repeat_after: Option<Duration>,
}

/// The rule that a subject and a measurement belong to.
pub open spec fn kind_of(e: AlertEvent) -> AlertKind {
    match e.detail {
        AlertDetail::Cpu { .. } => if e.subject is App {
            AlertKind::AppCpu
        } else {
            AlertKind::Cpu
        },
        AlertDetail::Memory { .. } => if e.subject is App {
            AlertKind::AppMemory
        } else {
            AlertKind::Memory
        },
        AlertDetail::Disk { .. } => AlertKind::Disk,
        AlertDetail::Pressure { .. } => AlertKind::Pressure,
    }
}

/// How alarming a measurement is.
pub open spec fn severity_of(d: AlertDetail) -> Severity {
    match d {
        AlertDetail::Cpu { runaway, .. } => if runaway {
            Severity::Critical
        } else {
            Severity::Warning
        },
        AlertDetail::Pressure { level, .. } => if level >= 4 {
            Severity::Critical
        } else {
            Severity::Warning
        },
        _ => Severity::Warning,
    }
}

/// The name to tell of: the display name, where there is one.
pub open spec fn shown_name(name: String, display_name: Option<String>) -> Seq<char> {
    match display_name {
        Some(shown) => shown@,
        None => name@,
    }
}

fn show_name(name: &String, display_name: &Option<String>) -> (r: String)
    ensures
        r@ == shown_name(*name, *display_name),
{
    match display_name {
        Some(shown) => shown.clone(),
        None => name.clone(),
    }
}

/// The subject's name in a sentence.
pub open spec fn subject_text(s: AlertSubject) -> Seq<char> {
    match s {
        AlertSubject::Process { pid, name, display_name } => shown_name(name, display_name)
            + " (pid "@ + decimal(pid as nat) + ")"@,
        AlertSubject::App { root_pid, name, display_name, process_count } => shown_name(
            name,
            display_name,
        ) + " ("@ + decimal(process_count as nat) + " processes)"@,
        AlertSubject::Volume { mount_point } => "disk "@ + mount_point@,
        AlertSubject::System => "system"@,
    }
}

/// Whole minutes of a span.
pub open spec fn minutes(d: Duration) -> nat {
    (d.nanos / NANOS_PER_SEC / 60) as nat
}

/// The averaging window in a sentence.
pub open spec fn window_text(window: Duration) -> Seq<char> {
    if minutes(window) <= 1 {
        "the last minute"@
    } else {
        "the last "@ + decimal(minutes(window)) + " minutes"@
    }
}

/// A percentage without a fraction.
pub open spec fn percent_text(p: nat) -> Seq<char> {
    decimal(rounded(p, UNIT as nat))
}

/// Bytes as gibibytes with one digit after the point.
pub open spec fn gib_text(bytes: nat) -> Seq<char> {
    tenths_text(rounded(10 * bytes, 0x4000_0000))
}

/// The measurement in a sentence about `who`.
pub open spec fn detail_text(who: Seq<char>, d: AlertDetail) -> Seq<char> {
    match d {
        AlertDetail::Cpu { avg_percent, threshold_percent, window, runaway } => who + (
        if runaway {
            " runaway:"@
        } else {
            ""@
        }) + " averaged "@ + percent_text(avg_percent as nat) + "% CPU over "@ + window_text(window)
            + " (threshold "@ + percent_text(threshold_percent as nat) + "%)"@,
        AlertDetail::Memory {
            avg_bytes,
            share_percent,
            threshold_bytes,
            threshold_percent,
            window,
        } => who + " averaged "@ + gib_text(avg_bytes as nat) + " GiB — "@ + percent_text(
            share_percent as nat,
        ) + "% of total memory — over "@ + window_text(window) + " (threshold "@ + percent_text(
            threshold_percent as nat,
        ) + "%)"@,
        AlertDetail::Disk { used_percent, threshold_percent, available_bytes, total_bytes } => who
            + " is "@ + percent_text(used_percent as nat) + "% full — "@ + gib_text(
            available_bytes as nat,
        ) + " GiB free of "@ + gib_text(total_bytes as nat) + " GiB"@,
        AlertDetail::Pressure {
            level,
            sustained,
            swap_used_bytes,
            swap_total_bytes,
            compressed_bytes,
            top_consumers,
        } => who + " memory pressure: "@ + (if level >= 4 {
            "critical"@
        } else {
            "warning"@
        }) + " for "@ + decimal(minutes(sustained)) + " min — swap "@ + gib_text(
            swap_used_bytes as nat,
        ) + "/"@ + gib_text(swap_total_bytes as nat) + " GiB"@ + match compressed_bytes {
            Some(b) => ", compressor "@ + gib_text(b as nat) + " GiB"@,
            None => ""@,
        },
    }
}

/// The line of text that tells of an alert.
pub open spec fn event_text(e: AlertEvent) -> Seq<char> {
    detail_text(subject_text(e.subject), e.detail) + match e.repeat_after {
        Some(d) => " — still going after "@ + decimal(minutes(d)) + " min"@,
        None => ""@,
    }
}

impl AlertSubject {
    /// How the subject is named in a sentence.
    pub fn label(&self) -> (r: String)
        ensures
            r@ == subject_text(*self),
    {
        match self {
            AlertSubject::Process { pid, name, display_name } => {
                let mut r = show_name(name, display_name);
                r.append(" (pid ");
                push_number(&mut r, *pid as u128);
                r.append(")");
                r
            },
            AlertSubject::App { root_pid: _, name, display_name, process_count } => {
                let mut r = show_name(name, display_name);
                r.append(" (");
                push_number(&mut r, *process_count as u128);
                r.append(" processes)");
                r
            },
            AlertSubject::Volume { mount_point } => {
                "disk ".to_owned().concat(mount_point.as_str())
            },
            AlertSubject::System => "system".to_owned(),
        }
    }
}

/// The averaging window in a sentence.
pub fn window_label(window: Duration) -> (r: String)
    ensures
        r@ == window_text(window),
{
    let m: u128 = window.as_secs() / 60;
    if m <= 1 {
        "the last minute".to_owned()
    } else {
        "the last ".to_owned().concat(number_text(m).as_str()).concat(" minutes")
    }
}

/// Appends a percentage without a fraction.
fn push_percent(out: &mut String, p: u128)
    ensures
        final(out)@ == old(out)@ + percent_text(p as nat),
{
    push_number(out, round_div(p, UNIT as u128));
}

/// Appends bytes as gibibytes.
fn push_gib(out: &mut String, bytes: u64)
    ensures
        final(out)@ == old(out)@ + gib_text(bytes as nat),
{
    push_tenths(out, round_div(10 * bytes as u128, 0x4000_0000));
}

impl AlertEvent {
    /// The rule that the alert comes from.
    pub fn kind(&self) -> (r: AlertKind)
        ensures
            r == kind_of(*self),
    {
        let app: bool = matches!(self.subject, AlertSubject::App { .. });
        match &self.detail {
            AlertDetail::Cpu { .. } => if app {
                AlertKind::AppCpu
            } else {
                AlertKind::Cpu
            },
            AlertDetail::Memory { .. } => if app {
                AlertKind::AppMemory
            } else {
                AlertKind::Memory
            },
            AlertDetail::Disk { .. } => AlertKind::Disk,
            AlertDetail::Pressure { .. } => AlertKind::Pressure,
        }
    }

    /// How alarming the alert is.
    pub fn severity(&self) -> (r: Severity)
        ensures
            r == severity_of(self.detail),
    {
        match &self.detail {
            AlertDetail::Cpu { runaway, .. } => if *runaway {
                Severity::Critical
            } else {
                Severity::Warning
            },
            AlertDetail::Pressure { level, .. } => if *level >= 4 {
                Severity::Critical
            } else {
                Severity::Warning
            },
            _ => Severity::Warning,
        }
    }

    /// The line of text that tells of the alert.
    pub fn summary(&self) -> (r: String)
        ensures
            r@ == event_text(*self),
    {
        let mut text = self.subject.label();
        match &self.detail {
            AlertDetail::Cpu { avg_percent, threshold_percent, window, runaway } => {
                if *runaway {
                    text.append(" runaway:");
                } else {
                    text.append("");
                }
                text.append(" averaged ");
                push_percent(&mut text, *avg_percent);
                text.append("% CPU over ");
                text.append(window_label(*window).as_str());
                text.append(" (threshold ");
                push_percent(&mut text, *threshold_percent);
                text.append("%)");
            },
            AlertDetail::Memory {
                avg_bytes,
                share_percent,
                threshold_bytes: _,
                threshold_percent,
                window,
            } => {
                text.append(" averaged ");
                push_gib(&mut text, *avg_bytes);
                text.append(" GiB — ");
                push_percent(&mut text, *share_percent);
                text.append("% of total memory — over ");
                text.append(window_label(*window).as_str());
                text.append(" (threshold ");
                push_percent(&mut text, *threshold_percent);
                text.append("%)");
            },
            AlertDetail::Disk { used_percent, threshold_percent: _, available_bytes, total_bytes } => {
                text.append(" is ");
                push_percent(&mut text, *used_percent);
                text.append("% full — ");
                push_gib(&mut text, *available_bytes);
                text.append(" GiB free of ");
                push_gib(&mut text, *total_bytes);
                text.append(" GiB");
            },
            AlertDetail::Pressure {
                level,
                sustained,
                swap_used_bytes,
                swap_total_bytes,
                compressed_bytes,
                top_consumers: _,
            } => {
                text.append(" memory pressure: ");
                if *level >= 4 {
                    text.append("critical");
                } else {
                    text.append("warning");
                }
                text.append(" for ");
                push_number(&mut text, sustained.as_secs() / 60);
                text.append(" min — swap ");
                push_gib(&mut text, *swap_used_bytes);
                text.append("/");
                push_gib(&mut text, *swap_total_bytes);
                text.append(" GiB");
                let mut more = String::new();
                match compressed_bytes {
                    Some(b) => {
                        more = ", compressor ".to_owned();
                        push_gib(&mut more, *b);
                        more.append(" GiB");
                    },
                    None => {
                        more = "".to_owned();
                    },
                }
                text.append(more.as_str());
            },
        }
        match self.repeat_after {
            Some(d) => {
                let mut more = " — still going after ".to_owned();
                push_number(&mut more, d.as_secs() / 60);
                more.append(" min");
                text.append(more.as_str());
            },
            None => {
                text.append("");
            },
        }
        text
    }
}

/// A runaway and the critical level of pressure are critical, and nothing else is.
/// An alert comes from the rule that measured it, one on an application from the
/// rules on applications.
pub proof fn law_severity_and_kind(e: AlertEvent)
    ensures
        severity_of(e.detail) == Severity::Critical <==> match e.detail {
            AlertDetail::Cpu { runaway, .. } => runaway,
            AlertDetail::Pressure { level, .. } => level >= 4,
            _ => false,
        },
        e.detail is Disk ==> kind_of(e) == AlertKind::Disk,
        e.detail is Pressure ==> kind_of(e) == AlertKind::Pressure,
        e.detail is Cpu ==> kind_of(e) == if e.subject is App {
            AlertKind::AppCpu
        } else {
            AlertKind::Cpu
        },
        e.detail is Memory ==> kind_of(e) == if e.subject is App {
            AlertKind::AppMemory
        } else {
            AlertKind::Memory
        },
{
}

} // verus!
