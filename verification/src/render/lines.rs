//! The lines above the tables: host, processor, memory, load, battery,
//! temperature and throughput.
use vstd::prelude::*;
use vstd::string::*;
use super::figures::{
    bytes_text, human_bytes, human_rate, human_uptime, hundredths, no_digit, one_digit, pad,
    padded, rate_text, signed_digit, signed_tenths, tenths, two_digits, uptime_text, whole,
};
use super::theme::{
    color_of, gauge, gauge_text, level_color, painted, styled_gauge, styled_gauge_text, Theme,
    RED_BOLD, WHOLE, YELLOW,
};
use crate::snapshot::{
    BatterySnapshot, CpuSnapshot, HostInfo, IoTotalsSnapshot, LoadSnapshot, MemorySnapshot,
    PerfLevelSnapshot, TemperatureSnapshot,
};
use crate::text::{chars_of, decimal, is_text, lowered, number_text, to_lower};

verus! {

/// How wide the gauges of the lines are.
pub const GAUGE_WIDTH: usize = 20;

/// The host, with the local time of the sample.
pub open spec fn host_line(host: HostInfo, time: Seq<char>) -> Seq<char> {
    "HOST  "@ + host.hostname@ + "  "@ + host.os_name@ + " "@ + host.os_version@ + " ("@ + host.arch@
        + ")  up "@ + uptime_text(host.uptime_secs as nat) + "  "@ + time + "\n"@
}

/// The line of the host.
pub fn host_text(host: &HostInfo, time: &str) -> (r: String)
    ensures
        r@ == host_line(*host, time@),
{
    "HOST  ".to_owned().concat(host.hostname.as_str()).concat("  ").concat(
        host.os_name.as_str(),
    ).concat(" ").concat(host.os_version.as_str()).concat(" (").concat(host.arch.as_str()).concat(
        ")  up ",
    ).concat(human_uptime(host.uptime_secs).as_str()).concat("  ").concat(time).concat("\n")
}

/// The frequency, where it is known.
pub open spec fn frequency_text(f: Option<u64>) -> Seq<char> {
    match f {
        Some(f) => " @ "@ + decimal(f as nat) + " MHz"@,
        None => ""@,
    }
}

/// The brand, where it is known.
pub open spec fn brand_text(brand: Option<String>) -> Seq<char> {
    match brand {
        Some(b) => if b@.len() > 0 {
            "  "@ + b@
        } else {
            ""@
        },
        None => ""@,
    }
}

/// A performance level: its initial, its cores and its usage.
pub open spec fn level_text(l: PerfLevelSnapshot) -> Seq<char> {
    seq![
        if l.name@.len() > 0 {
            l.name@[0]
        } else {
            '?'
        },
    ] + decimal(l.logical_cores as nat) + " "@ + no_digit(l.usage_percent as nat) + "%"@
}

/// The first `n` levels, with a dot between each two.
pub open spec fn levels_joined(levels: Seq<PerfLevelSnapshot>, n: nat) -> Seq<char>
    decreases n,
{
    if n == 0 {
        ""@
    } else if n == 1 {
        level_text(levels[0])
    } else {
        levels_joined(levels, (n - 1) as nat) + " · "@ + level_text(levels[n - 1])
    }
}

/// The performance levels, where there are any.
pub open spec fn levels_text(levels: Option<Vec<PerfLevelSnapshot>>) -> Seq<char> {
    match levels {
        Some(levels) => "  "@ + levels_joined(levels@, levels@.len()),
        None => ""@,
    }
}

/// The processor.
pub open spec fn cpu_line(cpu: CpuSnapshot, theme: Theme) -> Seq<char> {
    "CPU   "@ + styled_gauge_text(theme, cpu.usage_percent as int, GAUGE_WIDTH as nat) + "  "@
        + padded(one_digit(cpu.usage_percent as nat), 5) + "%  "@ + decimal(
        cpu.logical_cores as nat,
    ) + " cores"@ + frequency_text(cpu.frequency_mhz) + brand_text(cpu.brand) + levels_text(
        cpu.perf_levels,
    ) + "\n"@
}

fn level_cell(l: &PerfLevelSnapshot) -> (r: String)
    ensures
        r@ == level_text(*l),
{
    let name = chars_of(l.name.as_str());
    let mut r = String::new();
    if name.len() > 0 {
        r.push(name[0]);
    } else {
        r.push('?');
    }
    assert(r@ =~= seq![
        if l.name@.len() > 0 {
            l.name@[0]
        } else {
            '?'
        },
    ]);
    r.concat(number_text(l.logical_cores as u128).as_str()).concat(" ").concat(
        whole(l.usage_percent).as_str(),
    ).concat("%")
}

fn levels_cell(levels: &Option<Vec<PerfLevelSnapshot>>) -> (r: String)
    ensures
        r@ == levels_text(*levels),
{
    match levels {
        None => "".to_owned(),
        Some(levels) => {
            let mut joined = "".to_owned();
            for i in 0..levels.len()
                invariant
                    joined@ == levels_joined(levels@, i as nat),
            {
                if i == 0 {
                    joined = level_cell(&levels[i]);
                } else {
                    joined.append(" · ");
                    joined.append(level_cell(&levels[i]).as_str());
                }
            }
            "  ".to_owned().concat(joined.as_str())
        },
    }
}

/// The line of the processor.
pub fn cpu_text(cpu: &CpuSnapshot, theme: Theme) -> (r: String)
    ensures
        r@ == cpu_line(*cpu, theme),
{
    let frequency = match cpu.frequency_mhz {
        Some(f) => " @ ".to_owned().concat(number_text(f as u128).as_str()).concat(" MHz"),
        None => "".to_owned(),
    };
    let brand = match &cpu.brand {
        Some(b) => if !b.as_str().is_empty() {
            "  ".to_owned().concat(b.as_str())
        } else {
            "".to_owned()
        },
        None => "".to_owned(),
    };
    "CPU   ".to_owned().concat(
        styled_gauge(cpu.usage_percent as i128, GAUGE_WIDTH, theme).as_str(),
    ).concat("  ").concat(pad(tenths(cpu.usage_percent), 5).as_str()).concat("%  ").concat(
        number_text(cpu.logical_cores as u128).as_str(),
    ).concat(" cores").concat(frequency.as_str()).concat(brand.as_str()).concat(
        levels_cell(&cpu.perf_levels).as_str(),
    ).concat("\n")
}

/// The memory compressor, where it is known.
pub open spec fn compressor_text(bytes: Option<u64>) -> Seq<char> {
    match bytes {
        Some(b) => "  ·  zip "@ + bytes_text(b as nat),
        None => ""@,
    }
}

/// The kernel's verdict, where it is known.
pub open spec fn pressure_text(level: Option<u32>, theme: Theme) -> Seq<char> {
    match level {
        Some(level) => if level == 1 {
            "  ·  pressure normal"@
        } else if level == 2 {
            painted(theme, YELLOW@, "  ·  pressure warning"@)
        } else if level > 2 {
            painted(theme, RED_BOLD@, "  ·  pressure critical"@)
        } else {
            ""@
        },
        None => ""@,
    }
}

/// A gauge, a percentage and two sizes.
pub open spec fn usage_part(percent: u64, used: u64, total: u64, theme: Theme) -> Seq<char> {
    styled_gauge_text(theme, percent as int, GAUGE_WIDTH as nat) + "  "@ + padded(
        one_digit(percent as nat),
        5,
    ) + "%  "@ + bytes_text(used as nat) + " / "@ + bytes_text(total as nat)
}

/// The memory.
pub open spec fn memory_line(m: MemorySnapshot, theme: Theme) -> Seq<char> {
    "MEM   "@ + usage_part(m.used_percent, m.used_bytes, m.total_bytes, theme) + compressor_text(
        m.compressed_bytes,
    ) + pressure_text(m.pressure_level, theme) + "\n"@
}

/// The swap space, where there is any.
pub open spec fn swap_line(m: MemorySnapshot, theme: Theme) -> Seq<char> {
    if m.swap_total_bytes > 0 {
        "SWP   "@ + usage_part(m.swap_used_percent, m.swap_used_bytes, m.swap_total_bytes, theme)
            + "\n"@
    } else {
        ""@
    }
}

fn usage_text(percent: u64, used: u64, total: u64, theme: Theme) -> (r: String)
    ensures
        r@ == usage_part(percent, used, total, theme),
{
    styled_gauge(percent as i128, GAUGE_WIDTH, theme).concat("  ").concat(
        pad(tenths(percent), 5).as_str(),
    ).concat("%  ").concat(human_bytes(used).as_str()).concat(" / ").concat(
        human_bytes(total).as_str(),
    )
}

/// The lines of the memory and the swap space.
pub fn memory_text(m: &MemorySnapshot, theme: Theme) -> (r: (String, String))
    ensures
        r.0@ == memory_line(*m, theme),
        r.1@ == swap_line(*m, theme),
{
    let compressor = match m.compressed_bytes {
        Some(b) => "  ·  zip ".to_owned().concat(human_bytes(b).as_str()),
        None => "".to_owned(),
    };
    let pressure = match m.pressure_level {
        Some(level) => if level == 1 {
            "  ·  pressure normal".to_owned()
        } else if level == 2 {
            theme.paint(YELLOW, "  ·  pressure warning")
        } else if level > 2 {
            theme.paint(RED_BOLD, "  ·  pressure critical")
        } else {
            "".to_owned()
        },
        None => "".to_owned(),
    };
    let memory = "MEM   ".to_owned().concat(
        usage_text(m.used_percent, m.used_bytes, m.total_bytes, theme).as_str(),
    ).concat(compressor.as_str()).concat(pressure.as_str()).concat("\n");
    let swap = if m.swap_total_bytes > 0 {
        "SWP   ".to_owned().concat(
            usage_text(m.swap_used_percent, m.swap_used_bytes, m.swap_total_bytes, theme).as_str(),
        ).concat("\n")
    } else {
        "".to_owned()
    };
    (memory, swap)
}

/// The load of one core as a percentage, in millionths.
pub open spec fn load_level(load1: u64, cores: u32) -> int {
    if cores > 0 {
        load1 * 100 / cores as int
    } else {
        0
    }
}

/// The load averages and the number of processes.
pub open spec fn load_line(l: LoadSnapshot, cores: u32, processes: Option<u32>, theme: Theme) -> Seq<
    char,
> {
    "LOAD  "@ + styled_gauge_text(theme, load_level(l.load1, cores), GAUGE_WIDTH as nat) + "  "@
        + padded(two_digits(l.load1 as nat), 6) + "  "@ + two_digits(l.load5 as nat) + " · "@
        + two_digits(l.load15 as nat) + match processes {
        Some(n) => "  ·  "@ + decimal(n as nat) + " procs"@,
        None => ""@,
    } + "\n"@
}

/// The line of the load averages.
pub fn load_text(l: &LoadSnapshot, cores: u32, processes: Option<u32>, theme: Theme) -> (r: String)
    ensures
        r@ == load_line(*l, cores, processes, theme),
{
    let level: i128 = if cores > 0 {
        l.load1 as i128 * 100 / cores as i128
    } else {
        0
    };
    let count = match processes {
        Some(n) => "  ·  ".to_owned().concat(number_text(n as u128).as_str()).concat(" procs"),
        None => "".to_owned(),
    };
    "LOAD  ".to_owned().concat(styled_gauge(level, GAUGE_WIDTH, theme).as_str()).concat(
        "  ",
    ).concat(pad(hundredths(l.load1), 6).as_str()).concat("  ").concat(
        hundredths(l.load5).as_str(),
    ).concat(" · ").concat(hundredths(l.load15).as_str()).concat(count.as_str()).concat("\n")
}

/// The direction of the battery's charge in words.
pub open spec fn battery_state(state: Seq<char>) -> Seq<char> {
    let s = lowered(state);
    if s == "charging"@ {
        "charging"@
    } else if s == "discharging"@ {
        "on battery"@
    } else if s == "full"@ {
        "full, on AC"@
    } else if s == "empty"@ {
        "empty"@
    } else {
        "unknown state"@
    }
}

/// How long the battery takes, where it is known.
pub open spec fn battery_time(b: BatterySnapshot) -> Seq<char> {
    let s = lowered(b.state@);
    if s == "charging"@ && b.time_to_full_secs is Some {
        "  ·  "@ + uptime_text(b.time_to_full_secs->0 as nat) + " to full"@
    } else if s == "discharging"@ && b.time_to_empty_secs is Some {
        "  ·  "@ + uptime_text(b.time_to_empty_secs->0 as nat) + " left"@
    } else {
        ""@
    }
}

/// The power flow, where it is more than a trifle.
pub open spec fn power_text(w: Option<u64>) -> Seq<char> {
    match w {
        Some(w) => if w > 100_000 {
            "  ·  "@ + one_digit(w as nat) + " W"@
        } else {
            ""@
        },
        None => ""@,
    }
}

/// The wear, where it is known.
pub open spec fn health_text(h: Option<u64>) -> Seq<char> {
    match h {
        Some(h) => "  ·  health "@ + no_digit(h as nat) + "%"@,
        None => ""@,
    }
}

/// The charge cycles, where they are known.
pub open spec fn cycles_text(c: Option<u32>) -> Seq<char> {
    match c {
        Some(c) => "  ·  "@ + decimal(c as nat) + " cycles"@,
        None => ""@,
    }
}

/// The battery. An empty one is the alarming one.
pub open spec fn battery_line(b: BatterySnapshot, theme: Theme) -> Seq<char> {
    "BATT  "@ + painted(
        theme,
        color_of(WHOLE - b.charge_percent, 80_000_000, 90_000_000),
        gauge_text(b.charge_percent as int, GAUGE_WIDTH as nat),
    ) + "  "@ + padded(one_digit(b.charge_percent as nat), 5) + "%  "@ + battery_state(b.state@)
        + battery_time(b) + power_text(b.power_watts) + health_text(b.health_percent)
        + cycles_text(b.cycle_count) + "\n"@
}

/// The line of the battery; nothing where there is none.
pub open spec fn battery_part(b: Option<BatterySnapshot>, theme: Theme) -> Seq<char> {
    match b {
        Some(b) => battery_line(b, theme),
        None => ""@,
    }
}

/// The line of the battery.
pub fn battery_text(b: &Option<BatterySnapshot>, theme: Theme) -> (r: String)
    ensures
        r@ == battery_part(*b, theme),
{
    let b = match b {
        Some(b) => b,
        None => {
            return "".to_owned();
        },
    };
    let state = to_lower(&chars_of(b.state.as_str()));
    let charging: bool = is_text(&state, "charging");
    let discharging: bool = is_text(&state, "discharging");
    let word = if charging {
        "charging"
    } else if discharging {
        "on battery"
    } else if is_text(&state, "full") {
        "full, on AC"
    } else if is_text(&state, "empty") {
        "empty"
    } else {
        "unknown state"
    };
    let mut time = "".to_owned();
    if charging && b.time_to_full_secs.is_some() {
        if let Some(secs) = b.time_to_full_secs {
            time = "  ·  ".to_owned().concat(human_uptime(secs).as_str()).concat(" to full");
        }
    } else if discharging {
        if let Some(secs) = b.time_to_empty_secs {
            time = "  ·  ".to_owned().concat(human_uptime(secs).as_str()).concat(" left");
        }
    }
    assert(time@ == battery_time(*b));
    let power = match b.power_watts {
        Some(w) => if w > 100_000 {
            "  ·  ".to_owned().concat(tenths(w).as_str()).concat(" W")
        } else {
            "".to_owned()
        },
        None => "".to_owned(),
    };
    let health = match b.health_percent {
        Some(h) => "  ·  health ".to_owned().concat(whole(h).as_str()).concat("%"),
        None => "".to_owned(),
    };
    let cycles = match b.cycle_count {
        Some(c) => "  ·  ".to_owned().concat(number_text(c as u128).as_str()).concat(" cycles"),
        None => "".to_owned(),
    };
    let level: i128 = b.charge_percent as i128;
    let color = level_color(WHOLE - level, 80_000_000, 90_000_000);
    "BATT  ".to_owned().concat(
        theme.paint(color, gauge(level, GAUGE_WIDTH).as_str()).as_str(),
    ).concat("  ").concat(pad(tenths(b.charge_percent), 5).as_str()).concat("%  ").concat(
        word,
    ).concat(time.as_str()).concat(power.as_str()).concat(health.as_str()).concat(
        cycles.as_str(),
    ).concat("\n")
}

/// From here on a machine is warm, in millionths of a degree.
pub const TEMP_WARM: i128 = 65_000_000;

/// From here on a machine is hot.
pub const TEMP_HOT: i128 = 85_000_000;

/// Whether the machine is hot, in words.
pub open spec fn verdict(celsius: int) -> Seq<char> {
    if celsius >= TEMP_HOT {
        "hot"@
    } else if celsius >= TEMP_WARM {
        "warm"@
    } else {
        "normal"@
    }
}

/// The hottest of the sensors, which are in order.
pub open spec fn temperature_line(temps: Seq<TemperatureSnapshot>, theme: Theme) -> Seq<char> {
    if temps.len() == 0 {
        "TEMP  (no sensors)\n"@
    } else {
        let t = temps[0];
        let color = color_of(t.celsius as int, TEMP_WARM as int, TEMP_HOT as int);
        "TEMP  "@ + painted(theme, color, gauge_text(t.celsius as int, GAUGE_WIDTH as nat)) + "  "@
            + padded(signed_digit(t.celsius as int), 5) + "°C  "@ + painted(
            theme,
            color,
            verdict(t.celsius as int),
        ) + "  ·  "@ + decimal(temps.len()) + " sensors (max "@ + t.label@ + ")\n"@
    }
}

/// The line of the temperatures; nothing where they are not collected.
pub open spec fn temperature_part(temps: Option<Vec<TemperatureSnapshot>>, theme: Theme) -> Seq<
    char,
> {
    match temps {
        Some(temps) => temperature_line(temps@, theme),
        None => ""@,
    }
}

/// The line of the temperatures.
pub fn temperature_text(temps: &Option<Vec<TemperatureSnapshot>>, theme: Theme) -> (r: String)
    ensures
        r@ == temperature_part(*temps, theme),
{
    let temps = match temps {
        Some(temps) => temps,
        None => {
            return "".to_owned();
        },
    };
    if temps.len() == 0 {
        return "TEMP  (no sensors)\n".to_owned();
    }
    let t = &temps[0];
    let level: i128 = t.celsius as i128;
    let color = level_color(level, TEMP_WARM, TEMP_HOT);
    let word = if level >= TEMP_HOT {
        "hot"
    } else if level >= TEMP_WARM {
        "warm"
    } else {
        "normal"
    };
    "TEMP  ".to_owned().concat(
        theme.paint(color, gauge(level, GAUGE_WIDTH).as_str()).as_str(),
    ).concat("  ").concat(pad(signed_tenths(t.celsius), 5).as_str()).concat("°C  ").concat(
        theme.paint(color, word).as_str(),
    ).concat("  ·  ").concat(number_text(temps.len() as u128).as_str()).concat(
        " sensors (max ",
    ).concat(t.label.as_str()).concat(")\n")
}

/// The throughput of the whole machine; nothing where none is known.
pub open spec fn io_line(io: IoTotalsSnapshot) -> Seq<char> {
    if io.disk_read_bytes_per_sec is Some || io.disk_write_bytes_per_sec is Some
        || io.network_received_bytes_per_sec is Some
        || io.network_transmitted_bytes_per_sec is Some {
        "IO    disk "@ + rate_text(io.disk_read_bytes_per_sec) + "↓ "@ + rate_text(
            io.disk_write_bytes_per_sec,
        ) + "↑  ·  net "@ + rate_text(io.network_received_bytes_per_sec) + "↓ "@ + rate_text(
            io.network_transmitted_bytes_per_sec,
        ) + "↑\n"@
    } else {
        ""@
    }
}

/// The line of the throughput.
pub fn io_text(io: &IoTotalsSnapshot) -> (r: String)
    ensures
        r@ == io_line(*io),
{
    if io.disk_read_bytes_per_sec.is_some() || io.disk_write_bytes_per_sec.is_some()
        || io.network_received_bytes_per_sec.is_some()
        || io.network_transmitted_bytes_per_sec.is_some() {
        "IO    disk ".to_owned().concat(human_rate(io.disk_read_bytes_per_sec).as_str()).concat(
            "↓ ",
        ).concat(human_rate(io.disk_write_bytes_per_sec).as_str()).concat("↑  ·  net ").concat(
            human_rate(io.network_received_bytes_per_sec).as_str(),
        ).concat("↓ ").concat(human_rate(io.network_transmitted_bytes_per_sec).as_str()).concat(
            "↑\n",
        )
    } else {
        "".to_owned()
    }
}

} // verus!
