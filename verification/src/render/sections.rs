//! The tables of a snapshot: volumes, network interfaces and processes.
use std::collections::HashMap;
use vstd::prelude::*;
use vstd::string::*;
use super::figures::{
    bytes_text, human_bytes, human_rate, one_digit, rate_text, tenths,
};
use super::table::{cell_views, row_views, table_text, write_table, Align};
use super::theme::{color_of, gauge, gauge_text, level_color, painted, Theme};
use super::width::{truncate_width, truncated};
use crate::order::{
    arrange, arranged, count, law_arranged_is_in_order, law_arranged_keeps_values,
    lemma_arranged_contains, lemma_count_all, lemma_count_arranged, lemma_count_parts, weak_order,
    Order,
};
use crate::overrides::{
    before, lemma_less_irreflexive, lemma_less_total, lemma_less_transitive, text_less,
};
use crate::snapshot::{DiskSnapshot, NetworkSnapshot, ProcessSnapshot};
use crate::text::{chars_of, decimal, number_text};

verus! {

broadcast use vstd::std_specs::hash::group_hash_axioms;

/// How wide the gauge of a volume is.
pub const DISK_GAUGE_WIDTH: usize = 14;

/// How many network interfaces are shown.
pub const NET_ROWS: usize = 6;

/// How many processes are shown for their processor use.
pub const PROC_CPU_ROWS: usize = 5;

/// How many processes are shown for their memory.
pub const PROC_MEM_ROWS: usize = 4;

/// How many columns of a command line are shown.
pub const CMD_MAX_WIDTH: usize = 50;

/// A text, or a dash in place of an empty one.
pub open spec fn or_dash(s: Seq<char>) -> Seq<char> {
    if s.len() == 0 {
        "-"@
    } else {
        s
    }
}

/// The cells of a volume.
pub open spec fn disk_row(d: DiskSnapshot, theme: Theme) -> Seq<Seq<char>> {
    let color = color_of(d.used_percent as int, 70_000_000, 90_000_000);
    seq![
        d.mount_point@,
        or_dash(d.kind@),
        painted(theme, color, gauge_text(d.used_percent as int, DISK_GAUGE_WIDTH as nat)),
        painted(theme, color, one_digit(d.used_percent as nat) + "%"@),
        bytes_text(d.available_bytes as nat),
        bytes_text(d.total_bytes as nat),
        rate_text(d.read_bytes_per_sec),
        rate_text(d.write_bytes_per_sec),
    ]
}

/// The headers of the volumes.
pub open spec fn disk_headers() -> Seq<Seq<char>> {
    seq!["MOUNT"@, "KIND"@, "USED"@, "USE%"@, "FREE"@, "TOTAL"@, "READ"@, "WRITE"@]
}

/// The sides of the volumes' columns.
pub open spec fn disk_aligns() -> Seq<Align> {
    seq![
        Align::Left,
        Align::Left,
        Align::Left,
        Align::Right,
        Align::Right,
        Align::Right,
        Align::Right,
        Align::Right,
    ]
}

/// The table of the volumes; nothing where they are not collected.
pub open spec fn disk_part(disks: Option<Vec<DiskSnapshot>>, theme: Theme) -> Seq<char> {
    match disks {
        Some(disks) => table_text(
            "DISK"@,
            disk_headers(),
            disk_aligns(),
            disks@.map_values(|d: DiskSnapshot| disk_row(d, theme)),
            theme,
        ),
        None => ""@,
    }
}

fn dash_for_empty(s: &String) -> (r: String)
    ensures
        r@ == or_dash(s@),
{
    if s.as_str().is_empty() {
        "-".to_owned()
    } else {
        s.clone()
    }
}

fn disk_cells(d: &DiskSnapshot, theme: Theme) -> (r: Vec<String>)
    ensures
        cell_views(r@) == disk_row(*d, theme),
{
    let level: i128 = d.used_percent as i128;
    let color = level_color(level, 70_000_000, 90_000_000);
    let percent = tenths(d.used_percent).concat("%");
    let mut r: Vec<String> = Vec::new();
    r.push(d.mount_point.clone());
    r.push(dash_for_empty(&d.kind));
    r.push(theme.paint(color, gauge(level, DISK_GAUGE_WIDTH).as_str()));
    r.push(theme.paint(color, percent.as_str()));
    r.push(human_bytes(d.available_bytes));
    r.push(human_bytes(d.total_bytes));
    r.push(human_rate(d.read_bytes_per_sec));
    r.push(human_rate(d.write_bytes_per_sec));
    assert(cell_views(r@) =~= disk_row(*d, theme));
    r
}

/// The table of the volumes.
pub fn disk_section(disks: &Option<Vec<DiskSnapshot>>, theme: Theme) -> (r: String)
    ensures
        r@ == disk_part(*disks, theme),
{
    let disks = match disks {
        Some(disks) => disks,
        None => {
            return "".to_owned();
        },
    };
    let ghost wanted = disks@.map_values(|d: DiskSnapshot| disk_row(d, theme));
    let mut rows: Vec<Vec<String>> = Vec::new();
    for i in 0..disks.len()
        invariant
            wanted == disks@.map_values(|d: DiskSnapshot| disk_row(d, theme)),
            row_views(rows@) =~= wanted.take(i as int),
            forall|j: int| 0 <= j < rows@.len() ==> (#[trigger] rows@[j])@.len() == 8,
    {
        let cells = disk_cells(&disks[i], theme);
        assert(cell_views(cells@).len() == 8);
        let ghost was = rows@;
        rows.push(cells);
        assert(row_views(rows@) =~= row_views(was).push(cell_views(cells@)));
    }
    assert(row_views(rows@) =~= wanted);
    let mut headers: Vec<String> = Vec::new();
    headers.push("MOUNT".to_owned());
    headers.push("KIND".to_owned());
    headers.push("USED".to_owned());
    headers.push("USE%".to_owned());
    headers.push("FREE".to_owned());
    headers.push("TOTAL".to_owned());
    headers.push("READ".to_owned());
    headers.push("WRITE".to_owned());
    assert(cell_views(headers@) =~= disk_headers());
    let aligns: Vec<Align> =
        vec![
        Align::Left,
        Align::Left,
        Align::Left,
        Align::Right,
        Align::Right,
        Align::Right,
        Align::Right,
        Align::Right,
    ];
    assert(aligns@ =~= disk_aligns());
    let mut out = String::new();
    write_table(&mut out, "DISK", &headers, &aligns, &rows, theme);
    assert(out@ =~= disk_part(Some(*disks), theme));
    out
}

/// The traffic and the errors of an interface added up.
pub open spec fn traffic(n: NetworkSnapshot) -> nat {
    n.received_bytes_per_sec as nat + n.transmitted_bytes_per_sec as nat + or_zero(
        n.received_errors_per_sec,
    ) + or_zero(n.transmitted_errors_per_sec)
}

/// A rate, or zero where there is none.
pub open spec fn or_zero(rate: Option<u64>) -> nat {
    match rate {
        Some(v) => v as nat,
        None => 0,
    }
}

/// Whether a text starts with these two characters.
pub open spec fn starts(s: Seq<char>, a: char, b: char) -> bool {
    s.len() >= 2 && s[0] == a && s[1] == b
}

/// Network cards come first, then the loopback, then the rest.
pub open spec fn class_of(name: Seq<char>) -> nat {
    if starts(name, 'e', 'n') {
        0
    } else if starts(name, 'l', 'o') {
        1
    } else {
        2
    }
}

/// More traffic first, then the better class, then by name.
pub struct ByTraffic;

fn zero_for_none(rate: Option<u64>) -> (r: u64)
    ensures
        r == or_zero(rate),
{
    match rate {
        Some(v) => v,
        None => 0,
    }
}

fn sum_traffic(n: &NetworkSnapshot) -> (r: u128)
    ensures
        r == traffic(*n),
{
    n.received_bytes_per_sec as u128 + n.transmitted_bytes_per_sec as u128 + zero_for_none(
        n.received_errors_per_sec,
    ) as u128 + zero_for_none(n.transmitted_errors_per_sec) as u128
}

fn class(name: &str) -> (r: u64)
    ensures
        r == class_of(name@),
{
    let s = chars_of(name);
    if s.len() >= 2 && s[0] == 'e' && s[1] == 'n' {
        0
    } else if s.len() >= 2 && s[0] == 'l' && s[1] == 'o' {
        1
    } else {
        2
    }
}

impl Order<NetworkSnapshot> for ByTraffic {
    open spec fn before(a: NetworkSnapshot, b: NetworkSnapshot) -> bool {
        let ca = class_of(a.interface@);
        let cb = class_of(b.interface@);
        traffic(a) > traffic(b) || (traffic(a) == traffic(b) && (ca < cb || (ca == cb && text_less(
            a.interface@,
            b.interface@,
        ))))
    }

    fn goes_before(a: &NetworkSnapshot, b: &NetworkSnapshot) -> (r: bool) {
        let ta: u128 = sum_traffic(a);
        let tb: u128 = sum_traffic(b);
        let ca: u64 = class(a.interface.as_str());
        let cb: u64 = class(b.interface.as_str());
        ta > tb || (ta == tb && (ca < cb || (ca == cb && before(
            a.interface.as_str(),
            b.interface.as_str(),
        ))))
    }
}

/// The interfaces that are shown.
pub open spec fn shown_networks(networks: Seq<NetworkSnapshot>) -> Seq<NetworkSnapshot> {
    let ranked = arranged::<NetworkSnapshot, ByTraffic>(networks);
    if ranked.len() <= NET_ROWS {
        ranked
    } else {
        ranked.take(NET_ROWS as int)
    }
}

/// The errors of an interface; a dash where there are none.
pub open spec fn errors_text(n: NetworkSnapshot) -> Seq<char> {
    let rx = or_zero(n.received_errors_per_sec);
    let tx = or_zero(n.transmitted_errors_per_sec);
    if rx > 0 || tx > 0 {
        decimal(rx) + "/"@ + decimal(tx)
    } else {
        "-"@
    }
}

/// The cells of an interface.
pub open spec fn network_row(n: NetworkSnapshot) -> Seq<Seq<char>> {
    seq![
        n.interface@,
        rate_text(Some(n.received_bytes_per_sec)),
        rate_text(Some(n.transmitted_bytes_per_sec)),
        errors_text(n),
    ]
}

/// The headers of the interfaces.
pub open spec fn network_headers() -> Seq<Seq<char>> {
    seq!["IFACE"@, "RX↓"@, "TX↑"@, "ERR↓/↑"@]
}

/// The sides of the interfaces' columns.
pub open spec fn network_aligns() -> Seq<Align> {
    seq![Align::Left, Align::Right, Align::Right, Align::Right]
}

/// The table of the interfaces; a line where there are none, nothing where they
/// are not collected.
pub open spec fn network_part(networks: Option<Vec<NetworkSnapshot>>, theme: Theme) -> Seq<char> {
    match networks {
        Some(networks) => if networks@.len() == 0 {
            "NET   (no interfaces)\n"@
        } else {
            table_text(
                "NET"@,
                network_headers(),
                network_aligns(),
                shown_networks(networks@).map_values(|n: NetworkSnapshot| network_row(n)),
                theme,
            )
        },
        None => ""@,
    }
}

fn network_cells(n: &NetworkSnapshot) -> (r: Vec<String>)
    ensures
        cell_views(r@) == network_row(*n),
{
    let rx: u64 = zero_for_none(n.received_errors_per_sec);
    let tx: u64 = zero_for_none(n.transmitted_errors_per_sec);
    let errors = if rx > 0 || tx > 0 {
        number_text(rx as u128).concat("/").concat(number_text(tx as u128).as_str())
    } else {
        "-".to_owned()
    };
    let mut r: Vec<String> = Vec::new();
    r.push(n.interface.clone());
    r.push(human_rate(Some(n.received_bytes_per_sec)));
    r.push(human_rate(Some(n.transmitted_bytes_per_sec)));
    r.push(errors);
    assert(cell_views(r@) =~= network_row(*n));
    r
}

/// The table of the interfaces.
pub fn network_section(networks: &Option<Vec<NetworkSnapshot>>, theme: Theme) -> (r: String)
    ensures
        r@ == network_part(*networks, theme),
{
    let networks = match networks {
        Some(networks) => networks,
        None => {
            return "".to_owned();
        },
    };
    if networks.len() == 0 {
        return "NET   (no interfaces)\n".to_owned();
    }
    let mut copies: Vec<NetworkSnapshot> = Vec::new();
    for i in 0..networks.len()
        invariant
            copies@ =~= networks@.take(i as int),
    {
        copies.push(networks[i].duplicate());
    }
    assert(copies@ =~= networks@);
    let mut ranked = arrange::<NetworkSnapshot, ByTraffic>(copies);
    let ghost all = ranked@;
    ranked.truncate(NET_ROWS);
    assert(ranked@ =~= shown_networks(networks@));
    let ghost wanted = ranked@.map_values(|n: NetworkSnapshot| network_row(n));
    let mut rows: Vec<Vec<String>> = Vec::new();
    for i in 0..ranked.len()
        invariant
            wanted == ranked@.map_values(|n: NetworkSnapshot| network_row(n)),
            row_views(rows@) =~= wanted.take(i as int),
            forall|j: int| 0 <= j < rows@.len() ==> (#[trigger] rows@[j])@.len() == 4,
    {
        let cells = network_cells(&ranked[i]);
        assert(cell_views(cells@).len() == 4);
        let ghost was = rows@;
        rows.push(cells);
        assert(row_views(rows@) =~= row_views(was).push(cell_views(cells@)));
    }
    assert(row_views(rows@) =~= wanted);
    let mut headers: Vec<String> = Vec::new();
    headers.push("IFACE".to_owned());
    headers.push("RX↓".to_owned());
    headers.push("TX↑".to_owned());
    headers.push("ERR↓/↑".to_owned());
    assert(cell_views(headers@) =~= network_headers());
    let aligns: Vec<Align> = vec![Align::Left, Align::Right, Align::Right, Align::Right];
    assert(aligns@ =~= network_aligns());
    let mut out = String::new();
    write_table(&mut out, "NET", &headers, &aligns, &rows, theme);
    assert(out@ =~= network_part(Some(*networks), theme));
    out
}

/// The rolling averages of processes: processor use in millionths of a percent,
/// and memory in bytes.
pub type ProcAverages = HashMap<u32, (u64, u64)>;

/// The averages by pid, where there are any.
pub open spec fn averages_of(averages: Option<&ProcAverages>) -> Option<Map<u32, (u64, u64)>> {
    match averages {
        Some(m) => Some(m@),
        None => None,
    }
}

/// The averages of a process.
pub open spec fn average_for(averages: Option<Map<u32, (u64, u64)>>, pid: u32) -> Option<
    (u64, u64),
> {
    if averages is Some && averages->0.contains_key(pid) {
        Some(averages->0[pid])
    } else {
        None
    }
}

/// A process in a ranking: its place in the list and what it is ranked by.
#[derive(Debug, Clone, Copy, PartialEq, Eq, Structural)]
pub struct Ranked {
    pub place: usize,
    pub pid: u32,
    pub cpu: u64,
    pub mem: u64,
}

/// More processor use first.
pub struct Busiest;

/// More memory first.
pub struct Largest;

impl Order<Ranked> for Busiest {
    open spec fn before(a: Ranked, b: Ranked) -> bool {
        a.cpu > b.cpu
    }

    fn goes_before(a: &Ranked, b: &Ranked) -> (r: bool) {
        a.cpu > b.cpu
    }
}

impl Order<Ranked> for Largest {
    open spec fn before(a: Ranked, b: Ranked) -> bool {
        a.mem > b.mem
    }

    fn goes_before(a: &Ranked, b: &Ranked) -> (r: bool) {
        a.mem > b.mem
    }
}

/// What the processes are ranked by: their averages, else the latest values.
pub open spec fn rankings(
    processes: Seq<ProcessSnapshot>,
    averages: Option<Map<u32, (u64, u64)>>,
) -> Seq<Ranked> {
    Seq::new(
        processes.len(),
        |i: int|
            Ranked {
                place: i as usize,
                pid: processes[i].pid,
                cpu: match average_for(averages, processes[i].pid) {
                    Some(a) => a.0,
                    None => processes[i].cpu_usage_percent,
                },
                mem: match average_for(averages, processes[i].pid) {
                    Some(a) => a.1,
                    None => processes[i].memory_bytes,
                },
            },
    )
}

/// Whether the pid is among the processes.
pub open spec fn listed(rows: Seq<Ranked>, pid: u32) -> bool {
    exists|i: int| 0 <= i < rows.len() && (#[trigger] rows[i]).pid == pid
}

/// The processes with those of the first `n` candidates that are not there yet,
/// up to the number of rows.
pub open spec fn filled_up(rows: Seq<Ranked>, candidates: Seq<Ranked>, n: nat) -> Seq<Ranked>
    decreases n,
{
    if n == 0 {
        rows
    } else {
        let so_far = filled_up(rows, candidates, (n - 1) as nat);
        let c = candidates[n - 1];
        if so_far.len() >= PROC_CPU_ROWS + PROC_MEM_ROWS || listed(so_far, c.pid) {
            so_far
        } else {
            so_far.push(c)
        }
    }
}

/// The processes that are shown: the busiest, then the largest that are not
/// among them.
pub open spec fn shown_processes(
    processes: Seq<ProcessSnapshot>,
    averages: Option<Map<u32, (u64, u64)>>,
) -> Seq<Ranked> {
    let all = rankings(processes, averages);
    let by_cpu = arranged::<Ranked, Busiest>(all);
    let by_mem = arranged::<Ranked, Largest>(all);
    let busiest = if by_cpu.len() <= PROC_CPU_ROWS {
        by_cpu
    } else {
        by_cpu.take(PROC_CPU_ROWS as int)
    };
    filled_up(busiest, by_mem, by_mem.len())
}

/// The command line, cut; a dash where it is unknown.
pub open spec fn cmd_text(cmd: Seq<char>) -> Seq<char> {
    if cmd.len() == 0 {
        "-"@
    } else {
        truncated(cmd, CMD_MAX_WIDTH)
    }
}

/// The cells of a process.
pub open spec fn process_row(p: ProcessSnapshot, average: Option<(u64, u64)>) -> Seq<Seq<char>> {
    seq![
        decimal(p.pid as nat),
        p.name@,
        match average {
            Some(a) => one_digit(p.cpu_usage_percent as nat) + "("@ + one_digit(a.0 as nat) + ")"@,
            None => one_digit(p.cpu_usage_percent as nat),
        },
        match average {
            Some(a) => bytes_text(p.memory_bytes as nat) + "("@ + bytes_text(a.1 as nat) + ")"@,
            None => bytes_text(p.memory_bytes as nat),
        },
        cmd_text(p.cmd@),
    ]
}

/// The headers of the processes.
pub open spec fn process_headers(averaged: bool) -> Seq<Seq<char>> {
    seq![
        "PID"@,
        "NAME"@,
        if averaged {
            "CPU%(AVG)"@
        } else {
            "CPU%"@
        },
        if averaged {
            "MEM(AVG)"@
        } else {
            "MEM"@
        },
        "CMD"@,
    ]
}

/// The sides of the processes' columns.
pub open spec fn process_aligns() -> Seq<Align> {
    seq![Align::Right, Align::Left, Align::Right, Align::Right, Align::Left]
}

/// The cells of the processes that are shown.
pub open spec fn process_rows(
    processes: Seq<ProcessSnapshot>,
    averages: Option<Map<u32, (u64, u64)>>,
) -> Seq<Seq<Seq<char>>> {
    shown_processes(processes, averages).map_values(
        |r: Ranked| process_row(processes[r.place as int], average_for(averages, r.pid)),
    )
}

/// The table of the processes; nothing where they are not collected.
pub open spec fn process_part(
    processes: Option<Vec<ProcessSnapshot>>,
    averages: Option<Map<u32, (u64, u64)>>,
    theme: Theme,
) -> Seq<char> {
    match processes {
        Some(processes) => table_text(
            "PROC"@,
            process_headers(averages is Some),
            process_aligns(),
            process_rows(processes@, averages),
            theme,
        ),
        None => ""@,
    }
}

/// The averages of a process.
fn find_average(averages: Option<&ProcAverages>, pid: u32) -> (r: Option<(u64, u64)>)
    ensures
        r == average_for(averages_of(averages), pid),
{
    match averages {
        Some(m) => match m.get(&pid) {
            Some(a) => Some(*a),
            None => None,
        },
        None => None,
    }
}

fn process_cells(p: &ProcessSnapshot, average: Option<(u64, u64)>) -> (r: Vec<String>)
    ensures
        cell_views(r@) == process_row(*p, average),
{
    let cpu = match average {
        Some(a) => tenths(p.cpu_usage_percent).concat("(").concat(tenths(a.0).as_str()).concat(")"),
        None => tenths(p.cpu_usage_percent),
    };
    let mem = match average {
        Some(a) => human_bytes(p.memory_bytes).concat("(").concat(
            human_bytes(a.1).as_str(),
        ).concat(")"),
        None => human_bytes(p.memory_bytes),
    };
    let cmd = if p.cmd.as_str().is_empty() {
        "-".to_owned()
    } else {
        truncate_width(p.cmd.as_str(), CMD_MAX_WIDTH)
    };
    let mut r: Vec<String> = Vec::new();
    r.push(number_text(p.pid as u128));
    r.push(p.name.clone());
    r.push(cpu);
    r.push(mem);
    r.push(cmd);
    assert(cell_views(r@) =~= process_row(*p, average));
    r
}

/// What the processes are ranked by.
fn rank(processes: &Vec<ProcessSnapshot>, averages: Option<&ProcAverages>) -> (r: Vec<Ranked>)
    ensures
        r@ == rankings(processes@, averages_of(averages)),
{
    let mut r: Vec<Ranked> = Vec::new();
    for i in 0..processes.len()
        invariant
            r@ =~= rankings(processes@, averages_of(averages)).take(i as int),
    {
        let p = &processes[i];
        let (cpu, mem) = match find_average(averages, p.pid) {
            Some(a) => a,
            None => (p.cpu_usage_percent, p.memory_bytes),
        };
        r.push(Ranked { place: i, pid: p.pid, cpu, mem });
    }
    assert(r@ =~= rankings(processes@, averages_of(averages)));
    r
}

/// Whether the pid is among the processes.
fn is_listed(rows: &Vec<Ranked>, pid: u32) -> (r: bool)
    ensures
        r == listed(rows@, pid),
{
    for i in 0..rows.len()
        invariant
            forall|j: int| 0 <= j < i ==> (#[trigger] rows@[j]).pid != pid,
    {
        if rows[i].pid == pid {
            return true;
        }
    }
    false
}

/// Whether each row stands for a process of the list, with its pid.
pub open spec fn from_list(rows: Seq<Ranked>, processes: Seq<ProcessSnapshot>) -> bool {
    forall|i: int|
        0 <= i < rows.len() ==> (#[trigger] rows[i]).place < processes.len()
            && processes[rows[i].place as int].pid == rows[i].pid
}

/// A ranking in order stands for processes of the list.
proof fn lemma_arranged_from_list<O: Order<Ranked>>(
    all: Seq<Ranked>,
    processes: Seq<ProcessSnapshot>,
)
    requires
        from_list(all, processes),
    ensures
        from_list(arranged::<Ranked, O>(all), processes),
{
    broadcast use vstd::seq_lib::group_to_multiset_ensures;

    law_arranged_keeps_values::<Ranked, O>(all);
    let order = arranged::<Ranked, O>(all);
    assert forall|i: int| 0 <= i < order.len() implies (#[trigger] order[i]).place
        < processes.len() && processes[order[i].place as int].pid == order[i].pid by {
        assert(order.contains(order[i]));
        assert(order.to_multiset().contains(order[i]));
        assert(all.to_multiset().contains(order[i]));
        assert(all.contains(order[i]));
        let j = choose|j: int| 0 <= j < all.len() && all[j] == order[i];
        assert(all[j].place < processes.len());
    }
}

/// The processes that are shown.
fn choose_processes(processes: &Vec<ProcessSnapshot>, averages: Option<&ProcAverages>) -> (r: Vec<
    Ranked,
>)
    ensures
        r@ == shown_processes(processes@, averages_of(averages)),
        from_list(r@, processes@),
{
    let first = rank(processes, averages);
    let second = rank(processes, averages);
    let ghost all = first@;
    let n: usize = processes.len();
    proof {
        assert forall|i: int| 0 <= i < all.len() implies (#[trigger] all[i]).place
            < processes@.len() && processes@[all[i].place as int].pid == all[i].pid by {
            assert(all[i].place == i && n == processes@.len());
        }
        lemma_arranged_from_list::<Busiest>(all, processes@);
        lemma_arranged_from_list::<Largest>(all, processes@);
    }
    let mut rows = arrange::<Ranked, Busiest>(first);
    let ghost by_cpu = rows@;
    rows.truncate(PROC_CPU_ROWS);
    let by_mem = arrange::<Ranked, Largest>(second);
    let ghost busiest = rows@;
    assert(busiest =~= if by_cpu.len() <= PROC_CPU_ROWS {
        by_cpu
    } else {
        by_cpu.take(PROC_CPU_ROWS as int)
    });
    for i in 0..by_mem.len()
        invariant
            rows@ == filled_up(busiest, by_mem@, i as nat),
            from_list(rows@, processes@),
            from_list(by_mem@, processes@),
    {
        let c = by_mem[i];
        if rows.len() < PROC_CPU_ROWS + PROC_MEM_ROWS && !is_listed(&rows, c.pid) {
            assert(by_mem@[i as int].place < processes@.len());
            rows.push(c);
        }
    }
    rows
}

/// The table of the processes.
pub fn process_section(
    processes: &Option<Vec<ProcessSnapshot>>,
    averages: Option<&ProcAverages>,
    theme: Theme,
) -> (r: String)
    ensures
        r@ == process_part(*processes, averages_of(averages), theme),
{
    let processes = match processes {
        Some(processes) => processes,
        None => {
            return "".to_owned();
        },
    };
    let chosen = choose_processes(processes, averages);
    let ghost wanted = process_rows(processes@, averages_of(averages));
    let mut rows: Vec<Vec<String>> = Vec::new();
    for i in 0..chosen.len()
        invariant
            chosen@ == shown_processes(processes@, averages_of(averages)),
            wanted == process_rows(processes@, averages_of(averages)),
            from_list(chosen@, processes@),
            row_views(rows@) =~= wanted.take(i as int),
            forall|j: int| 0 <= j < rows@.len() ==> (#[trigger] rows@[j])@.len() == 5,
    {
        let c = chosen[i];
        assert(chosen@[i as int].place < processes@.len());
        let cells = process_cells(&processes[c.place], find_average(averages, c.pid));
        assert(cell_views(cells@).len() == 5);
        let ghost was = rows@;
        rows.push(cells);
        assert(row_views(rows@) =~= row_views(was).push(cell_views(cells@)));
        assert(wanted[i as int] == cell_views(cells@));
    }
    assert(row_views(rows@) =~= wanted);
    let averaged: bool = averages.is_some();
    let mut headers: Vec<String> = Vec::new();
    headers.push("PID".to_owned());
    headers.push("NAME".to_owned());
    headers.push(
        if averaged {
            "CPU%(AVG)".to_owned()
        } else {
            "CPU%".to_owned()
        },
    );
    headers.push(
        if averaged {
            "MEM(AVG)".to_owned()
        } else {
            "MEM".to_owned()
        },
    );
    headers.push("CMD".to_owned());
    assert(cell_views(headers@) =~= process_headers(averaged));
    let aligns: Vec<Align> =
        vec![Align::Right, Align::Left, Align::Right, Align::Right, Align::Left];
    assert(aligns@ =~= process_aligns());
    let mut out = String::new();
    write_table(&mut out, "PROC", &headers, &aligns, &rows, theme);
    assert(out@ =~= process_part(Some(*processes), averages_of(averages), theme));
    out
}

/// No more processes are shown than there are rows.
proof fn lemma_filled_up(rows: Seq<Ranked>, candidates: Seq<Ranked>, n: nat)
    requires
        rows.len() <= PROC_CPU_ROWS + PROC_MEM_ROWS,
    ensures
        filled_up(rows, candidates, n).len() <= PROC_CPU_ROWS + PROC_MEM_ROWS,
    decreases n,
{
    if n > 0 {
        lemma_filled_up(rows, candidates, (n - 1) as nat);
    }
}

/// The table of processes has a bounded height.
pub proof fn law_process_table_height(
    processes: Seq<ProcessSnapshot>,
    averages: Option<Map<u32, (u64, u64)>>,
)
    ensures
        process_rows(processes, averages).len() <= PROC_CPU_ROWS + PROC_MEM_ROWS,
{
    let all = rankings(processes, averages);
    let by_cpu = arranged::<Ranked, Busiest>(all);
    let by_mem = arranged::<Ranked, Largest>(all);
    let busiest = if by_cpu.len() <= PROC_CPU_ROWS {
        by_cpu
    } else {
        by_cpu.take(PROC_CPU_ROWS as int)
    };
    lemma_filled_up(busiest, by_mem, by_mem.len());
}

/// The table of interfaces has a bounded height.
pub proof fn law_network_table_height(networks: Seq<NetworkSnapshot>)
    ensures
        shown_networks(networks).len() <= NET_ROWS,
        networks.len() <= NET_ROWS ==> shown_networks(networks).len() == networks.len(),
{
    law_arranged_keeps_values::<NetworkSnapshot, ByTraffic>(networks);
}

/// Bytes and errors of an interface, each second, in both directions.
pub open spec fn moved(n: NetworkSnapshot) -> int {
    let rx = match n.received_errors_per_sec {
        Some(errors) => errors as int,
        None => 0,
    };
    let tx = match n.transmitted_errors_per_sec {
        Some(errors) => errors as int,
        None => 0,
    };
    n.received_bytes_per_sec + n.transmitted_bytes_per_sec + rx + tx
}

/// The interfaces are shown by what they move, the most first, and at most six of
/// them: every one that fewer than six move as much as is shown.
pub proof fn law_busiest_interfaces_are_shown(networks: Seq<NetworkSnapshot>, n: NetworkSnapshot)
    requires
        networks.contains(n),
    ensures
        ({
            let shown = shown_networks(networks);
            &&& shown.len() == if networks.len() <= 6 {
                networks.len()
            } else {
                6
            }
            &&& forall|i: int, j: int|
                0 <= i < j < shown.len() ==> moved(#[trigger] shown[i]) >= moved(
                    #[trigger] shown[j],
                )
            &&& forall|i: int| 0 <= i < shown.len() ==> networks.contains(#[trigger] shown[i])
            &&& count(networks, |x: NetworkSnapshot| moved(x) >= moved(n)) <= 6
                ==> shown.contains(n)
        }),
{
    let ranked = arranged::<NetworkSnapshot, ByTraffic>(networks);
    let shown = shown_networks(networks);
    lemma_traffic_ordered();
    law_arranged_is_in_order::<NetworkSnapshot, ByTraffic>(networks);
    law_arranged_keeps_values::<NetworkSnapshot, ByTraffic>(networks);
    assert forall|x: NetworkSnapshot| traffic(x) == #[trigger] moved(x) by {}
    assert forall|i: int, j: int| 0 <= i < j < ranked.len() implies moved(
        #[trigger] ranked[i],
    ) >= moved(#[trigger] ranked[j]) by {
        assert(!ByTraffic::before(ranked[j], ranked[i]));
    }
    assert forall|i: int| 0 <= i < shown.len() implies networks.contains(#[trigger] shown[i]) by {
        lemma_arranged_contains::<NetworkSnapshot, ByTraffic>(networks, shown[i]);
        assert(ranked[i] == shown[i]);
        assert(ranked.contains(shown[i]));
    }
    let which = |x: NetworkSnapshot| moved(x) >= moved(n);
    if count(networks, which) <= 6 {
        lemma_count_arranged::<NetworkSnapshot, ByTraffic>(networks, which);
        lemma_arranged_contains::<NetworkSnapshot, ByTraffic>(networks, n);
        let p = choose|p: int| 0 <= p < ranked.len() && ranked[p] == n;
        lemma_count_parts(ranked, p + 1, which);
        let first = ranked.take(p + 1);
        assert forall|i: int| 0 <= i < first.len() implies which(#[trigger] first[i]) by {
            if i < p {
                assert(moved(ranked[i]) >= moved(ranked[p]));
            }
        }
        lemma_count_all(first, which);
        assert(shown[p] == n);
    }
}

/// The order of interfaces.
proof fn lemma_traffic_ordered()
    ensures
        weak_order::<NetworkSnapshot, ByTraffic>(),
{
    assert forall|a: Seq<char>, b: Seq<char>| #[trigger] text_less(a, b) implies !text_less(
        b,
        a,
    ) by {
        if text_less(b, a) {
            lemma_less_transitive(a, b, a);
            lemma_less_irreflexive(a);
        }
    }
    assert forall|a: Seq<char>, b: Seq<char>, c: Seq<char>|
        #![trigger text_less(b, a), text_less(c, b)]
        !text_less(b, a) && !text_less(c, b) implies !text_less(c, a) by {
        if text_less(c, a) {
            lemma_less_total(b, c);
            if text_less(b, c) {
                lemma_less_transitive(b, c, a);
            }
        }
    }
}

/// The use by which a process is ranked: its average, or the latest.
pub open spec fn use_of(p: ProcessSnapshot, averages: Option<Map<u32, (u64, u64)>>) -> u64 {
    if averages is Some && averages->0.contains_key(p.pid) {
        averages->0[p.pid].0
    } else {
        p.cpu_usage_percent
    }
}

/// The memory by which a process is ranked: its average, or the latest.
pub open spec fn memory_of(p: ProcessSnapshot, averages: Option<Map<u32, (u64, u64)>>) -> u64 {
    if averages is Some && averages->0.contains_key(p.pid) {
        averages->0[p.pid].1
    } else {
        p.memory_bytes
    }
}

/// How many processes `which` picks are as many as their rankings.
proof fn lemma_rankings(
    processes: Seq<ProcessSnapshot>,
    averages: Option<Map<u32, (u64, u64)>>,
    n: nat,
    which: spec_fn(ProcessSnapshot) -> bool,
    picks: spec_fn(Ranked) -> bool,
)
    requires
        n <= processes.len(),
        forall|i: int|
            0 <= i < processes.len() ==> which(processes[i]) == picks(
                #[trigger] rankings(processes, averages)[i],
            ),
    ensures
        count(processes.take(n as int), which) == count(
            rankings(processes, averages).take(n as int),
            picks,
        ),
    decreases n,
{
    let all = rankings(processes, averages);
    if n > 0 {
        lemma_rankings(processes, averages, (n - 1) as nat, which, picks);
        assert(processes.take(n as int).drop_last() =~= processes.take(n - 1));
        assert(all.take(n as int).drop_last() =~= all.take(n - 1));
        assert(which(processes[n - 1]) == picks(all[n - 1]));
    } else {
        assert(processes.take(0) =~= Seq::<ProcessSnapshot>::empty());
        assert(all.take(0) =~= Seq::<Ranked>::empty());
    }
}

/// Rows are added and none is lost; one candidate adds one row at most.
proof fn lemma_rows_added(rows: Seq<Ranked>, candidates: Seq<Ranked>, n: nat)
    requires
        n <= candidates.len(),
    ensures
        ({
            let all = filled_up(rows, candidates, n);
            &&& rows.len() <= all.len() <= rows.len() + n
            &&& forall|i: int| 0 <= i < rows.len() ==> all[i] == #[trigger] rows[i]
            &&& all.len() <= if rows.len() >= PROC_CPU_ROWS + PROC_MEM_ROWS {
                rows.len()
            } else {
                (PROC_CPU_ROWS + PROC_MEM_ROWS) as nat
            }
        }),
    decreases n,
{
    if n > 0 {
        lemma_rows_added(rows, candidates, (n - 1) as nat);
    }
}

/// A candidate that comes before the rows run out has a row.
proof fn lemma_candidate_listed(rows: Seq<Ranked>, candidates: Seq<Ranked>, p: int, n: nat)
    requires
        0 <= p < n <= candidates.len(),
        rows.len() + p < PROC_CPU_ROWS + PROC_MEM_ROWS,
    ensures
        listed(filled_up(rows, candidates, n), candidates[p].pid),
    decreases n,
{
    let all = filled_up(rows, candidates, n);
    let before = filled_up(rows, candidates, (n - 1) as nat);
    lemma_rows_added(rows, candidates, (n - 1) as nat);
    let c = candidates[n - 1];
    if p == n - 1 {
        if !listed(before, c.pid) {
            assert(all[before.len() as int].pid == c.pid);
        }
    } else {
        lemma_candidate_listed(rows, candidates, p, (n - 1) as nat);
        let i = choose|i: int| 0 <= i < before.len() && (#[trigger] before[i]).pid
            == candidates[p].pid;
        assert(all[i].pid == candidates[p].pid);
    }
}

/// The busiest processes are shown, and so are the largest: every one that no more
/// than five are as busy as, itself among them, and every one that no more than
/// four are as large as. There are no more rows than that.
pub proof fn law_busiest_and_largest_are_shown(
    processes: Seq<ProcessSnapshot>,
    averages: Option<Map<u32, (u64, u64)>>,
    i: int,
)
    requires
        0 <= i < processes.len() <= usize::MAX,
    ensures
        ({
            let shown = shown_processes(processes, averages);
            let p = processes[i];
            &&& shown.len() <= 5 + 4
            &&& count(
                processes,
                |x: ProcessSnapshot| use_of(x, averages) >= use_of(p, averages),
            ) <= 5 ==> listed(shown, p.pid)
            &&& count(
                processes,
                |x: ProcessSnapshot| memory_of(x, averages) >= memory_of(p, averages),
            ) <= 4 ==> listed(shown, p.pid)
        }),
{
    let all = rankings(processes, averages);
    let by_cpu = arranged::<Ranked, Busiest>(all);
    let by_mem = arranged::<Ranked, Largest>(all);
    let p = processes[i];
    let r = all[i];
    assert(weak_order::<Ranked, Busiest>());
    assert(weak_order::<Ranked, Largest>());
    law_arranged_is_in_order::<Ranked, Busiest>(all);
    law_arranged_is_in_order::<Ranked, Largest>(all);
    law_arranged_keeps_values::<Ranked, Busiest>(all);
    law_arranged_keeps_values::<Ranked, Largest>(all);
    lemma_arranged_contains::<Ranked, Busiest>(all, r);
    lemma_arranged_contains::<Ranked, Largest>(all, r);
    assert(all.contains(r));
    let busiest = if by_cpu.len() <= PROC_CPU_ROWS {
        by_cpu
    } else {
        by_cpu.take(PROC_CPU_ROWS as int)
    };
    let shown = shown_processes(processes, averages);
    lemma_rows_added(busiest, by_mem, by_mem.len());
    assert(processes.take(processes.len() as int) =~= processes);
    assert(all.take(all.len() as int) =~= all);
    let busy = |x: ProcessSnapshot| use_of(x, averages) >= use_of(p, averages);
    let busy_rank = |x: Ranked| x.cpu >= r.cpu;
    lemma_rankings(processes, averages, processes.len(), busy, busy_rank);
    if count(processes, busy) <= 5 {
        lemma_count_arranged::<Ranked, Busiest>(all, busy_rank);
        let at = choose|at: int| 0 <= at < by_cpu.len() && by_cpu[at] == r;
        lemma_count_parts(by_cpu, at + 1, busy_rank);
        let first = by_cpu.take(at + 1);
        assert forall|j: int| 0 <= j < first.len() implies busy_rank(#[trigger] first[j]) by {
            if j < at {
                assert(!Busiest::before(by_cpu[at], by_cpu[j]));
            }
        }
        lemma_count_all(first, busy_rank);
        assert(busiest[at] == r);
        assert(shown[at].pid == p.pid);
    }
    let large = |x: ProcessSnapshot| memory_of(x, averages) >= memory_of(p, averages);
    let large_rank = |x: Ranked| x.mem >= r.mem;
    lemma_rankings(processes, averages, processes.len(), large, large_rank);
    if count(processes, large) <= 4 {
        lemma_count_arranged::<Ranked, Largest>(all, large_rank);
        let at = choose|at: int| 0 <= at < by_mem.len() && by_mem[at] == r;
        lemma_count_parts(by_mem, at + 1, large_rank);
        let first = by_mem.take(at + 1);
        assert forall|j: int| 0 <= j < first.len() implies large_rank(#[trigger] first[j]) by {
            if j < at {
                assert(!Largest::before(by_mem[at], by_mem[j]));
            }
        }
        lemma_count_all(first, large_rank);
        lemma_candidate_listed(busiest, by_mem, at, by_mem.len());
    }
}

/// Each figure stands under its own header: what an interface receives under the
/// arrow down and what it sends under the arrow up, what a volume has free, has in
/// all, reads and writes, and what a process uses and holds.
pub proof fn law_figures_under_their_headers(
    n: NetworkSnapshot,
    d: DiskSnapshot,
    p: ProcessSnapshot,
    theme: Theme,
)
    ensures
        network_headers().len() == network_row(n).len(),
        network_headers()[1] == "RX↓"@ && network_row(n)[1] == bytes_text(
            n.received_bytes_per_sec as nat,
        ) + "/s"@,
        network_headers()[2] == "TX↑"@ && network_row(n)[2] == bytes_text(
            n.transmitted_bytes_per_sec as nat,
        ) + "/s"@,
        disk_headers().len() == disk_row(d, theme).len(),
        disk_headers()[0] == "MOUNT"@ && disk_row(d, theme)[0] == d.mount_point@,
        disk_headers()[4] == "FREE"@ && disk_row(d, theme)[4] == bytes_text(
            d.available_bytes as nat,
        ),
        disk_headers()[5] == "TOTAL"@ && disk_row(d, theme)[5] == bytes_text(d.total_bytes as nat),
        disk_headers()[6] == "READ"@ && d.read_bytes_per_sec is Some ==> disk_row(d, theme)[6]
            == bytes_text(d.read_bytes_per_sec->0 as nat) + "/s"@,
        disk_headers()[7] == "WRITE"@ && d.write_bytes_per_sec is Some ==> disk_row(d, theme)[7]
            == bytes_text(d.write_bytes_per_sec->0 as nat) + "/s"@,
        process_headers(false).len() == process_row(p, None).len(),
        process_headers(false)[2] == "CPU%"@ && process_row(p, None)[2] == one_digit(
            p.cpu_usage_percent as nat,
        ),
        process_headers(false)[3] == "MEM"@ && process_row(p, None)[3] == bytes_text(
            p.memory_bytes as nat,
        ),
{
}

} // verus!
