//! A whole snapshot as text, and the frames of a live view.
use std::collections::HashMap;
use vstd::prelude::*;
use vstd::string::*;
use super::lines::{
    battery_part, battery_text, cpu_line, cpu_text, host_line, host_text, io_line, io_text,
    load_line, load_text, memory_line, memory_text, swap_line, temperature_part, temperature_text,
};
use super::sections::{
    averages_of, disk_part, disk_section, network_part, network_section, process_part,
    process_section, ProcAverages,
};
use super::theme::{painted, Theme, DIM};
use crate::rolling::{
    all_stats, history_after, observations, seen_pid, ProcessStats, ProcessWindows, Sample,
};
use crate::snapshot::{ProcessSnapshot, SystemSnapshot};
use crate::text::chars_of;
use crate::time::{Duration, Instant};

verus! {

broadcast use vstd::std_specs::hash::group_hash_axioms;

/// A snapshot as text. `time` is the local time of the sample.
pub open spec fn rendered(
    s: SystemSnapshot,
    averages: Option<Map<u32, (u64, u64)>>,
    theme: Theme,
    time: Seq<char>,
) -> Seq<char> {
    host_line(s.host, time) + cpu_line(s.cpu, theme) + memory_line(s.memory, theme) + swap_line(
        s.memory,
        theme,
    ) + load_line(s.load, s.cpu.logical_cores, s.total_processes, theme) + battery_part(
        s.battery,
        theme,
    ) + temperature_part(s.temperatures, theme) + io_line(s.io_totals) + disk_part(s.disks, theme)
        + network_part(s.networks, theme) + process_part(s.processes, averages, theme)
}

/// A snapshot as text.
pub fn render_with(
    s: &SystemSnapshot,
    averages: Option<&ProcAverages>,
    theme: Theme,
    time: &str,
) -> (r: String)
    ensures
        r@ == rendered(*s, averages_of(averages), theme, time@),
{
    let (memory, swap) = memory_text(&s.memory, theme);
    host_text(&s.host, time).concat(cpu_text(&s.cpu, theme).as_str()).concat(
        memory.as_str(),
    ).concat(swap.as_str()).concat(
        load_text(&s.load, s.cpu.logical_cores, s.total_processes, theme).as_str(),
    ).concat(battery_text(&s.battery, theme).as_str()).concat(
        temperature_text(&s.temperatures, theme).as_str(),
    ).concat(io_text(&s.io_totals).as_str()).concat(
        disk_section(&s.disks, theme).as_str(),
    ).concat(network_section(&s.networks, theme).as_str()).concat(
        process_section(&s.processes, averages, theme).as_str(),
    )
}

/// A snapshot as text, without averages and colours.
pub fn render(s: &SystemSnapshot, time: &str) -> (r: String)
    ensures
        r@ == rendered(*s, None, Theme { enabled: false }, time@),
{
    render_with(s, None, Theme::plain(), time)
}

/// The text with the rest of each line cleared.
pub open spec fn clearing_lines(s: Seq<char>) -> Seq<char>
    decreases s.len(),
{
    if s.len() == 0 {
        Seq::empty()
    } else if s.last() == '\n' {
        clearing_lines(s.drop_last()) + "\u{1b}[K\n"@
    } else {
        clearing_lines(s.drop_last()).push(s.last())
    }
}

/// A frame that repaints the screen in place.
pub open spec fn repainted(frame: Seq<char>) -> Seq<char> {
    "\u{1b}[H"@ + clearing_lines(frame) + "\u{1b}[J"@
}

/// A frame that repaints the screen in place.
pub fn repaint(frame: &str) -> (r: String)
    ensures
        r@ == repainted(frame@),
{
    let chars = chars_of(frame);
    let mut body = String::new();
    for i in 0..chars.len()
        invariant
            chars@ == frame@,
            body@ =~= clearing_lines(frame@.take(i as int)),
    {
        assert(frame@.take(i as int + 1).drop_last() =~= frame@.take(i as int));
        if chars[i] == '\n' {
            body.append("\u{1b}[K\n");
        } else {
            body.push(chars[i]);
        }
    }
    assert(frame@.take(chars.len() as int) =~= frame@);
    "\u{1b}[H".to_owned().concat(body.as_str()).concat("\u{1b}[J")
}

/// How far back the averages of a live view go, in nanoseconds: one minute.
pub const AVG_WINDOW_NANOS: u128 = 60_000_000_000;

/// The averages that a live view shows.
pub open spec fn shown_averages(stats: Map<u32, ProcessStats>) -> Map<u32, (u64, u64)> {
    Map::new(
        |pid: u32| stats.contains_key(pid),
        |pid: u32| (stats[pid].cpu_avg, stats[pid].memory_avg_bytes),
    )
}

/// A live view: the recent samples of each process, and how frames look.
pub struct TextSink {
    windows: ProcessWindows,
    interactive: bool,
    footer: Option<String>,
}

/// A frame with its footer, as it is written out: repainting a terminal, or as a
/// block of lines.
pub open spec fn frame_text(body: Seq<char>, footer: Option<Seq<char>>, interactive: bool) -> Seq<
    char,
> {
    let theme = Theme { enabled: interactive };
    let frame = match footer {
        Some(f) => body + painted(theme, DIM@, f) + "\n"@,
        None => body,
    };
    if interactive {
        repainted(frame)
    } else {
        frame + "\n"@
    }
}

impl TextSink {
    /// How far back the averages go.
    pub closed spec fn window(&self) -> Duration {
        self.windows.window()
    }

    /// The recent samples of each process.
    pub closed spec fn history(&self) -> Map<u32, Seq<Sample>> {
        self.windows.history()
    }

    /// Whether frames repaint a terminal.
    pub closed spec fn interactive(&self) -> bool {
        self.interactive
    }

    /// The line below each frame.
    pub closed spec fn footer(&self) -> Option<Seq<char>> {
        match self.footer {
            Some(f) => Some(f@),
            None => None,
        }
    }

    /// A live view without samples.
    pub fn new(interactive: bool) -> (r: TextSink)
        ensures
            r.window() == (Duration { nanos: AVG_WINDOW_NANOS }),
            r.history() == Map::<u32, Seq<Sample>>::empty(),
            r.interactive() == interactive,
            r.footer() is None,
    {
        TextSink {
            windows: ProcessWindows::new(Duration { nanos: AVG_WINDOW_NANOS }),
            interactive,
            footer: None,
        }
    }

    /// The same live view with a line below each frame.
    pub fn with_footer(self, footer: &str) -> (r: TextSink)
        ensures
            r.window() == self.window(),
            r.history() == self.history(),
            r.interactive() == self.interactive(),
            r.footer() == Some(footer@),
    {
        TextSink {
            windows: self.windows,
            interactive: self.interactive,
            footer: Some(footer.to_owned()),
        }
    }

    /// Adds the processes seen at `now` and returns the averages of each pid.
    pub fn averages(&mut self, now: Instant, processes: &Vec<ProcessSnapshot>) -> (r: ProcAverages)
        ensures
            r@ == shown_averages(
                all_stats(
                    old(self).history(),
                    observations(processes@),
                    now,
                    old(self).window(),
                ),
            ),
            final(self).history() == history_after(
                old(self).history(),
                observations(processes@),
                now,
                old(self).window(),
            ),
            final(self).window() == old(self).window(),
            final(self).interactive() == old(self).interactive(),
            final(self).footer() == old(self).footer(),
    {
        let stats = self.windows.record(now, processes);
        let mut r: ProcAverages = HashMap::new();
        let ghost seen = observations(processes@);
        for i in 0..processes.len()
            invariant
                seen == observations(processes@),
                forall|pid: u32| #[trigger]
                    stats@.contains_key(pid) <==> seen_pid(seen, pid),
                forall|pid: u32| #[trigger]
                    r@.contains_key(pid) <==> seen_pid(seen.take(i as int), pid),
                forall|pid: u32| #[trigger]
                    r@.contains_key(pid) ==> stats@.contains_key(pid) && r@[pid] == (
                        stats@[pid].cpu_avg,
                        stats@[pid].memory_avg_bytes,
                    ),
        {
            let pid: u32 = processes[i].pid;
            let ghost done = seen.take(i as int);
            let ghost next = seen.take(i as int + 1);
            proof {
                assert(seen[i as int].pid == pid);
                assert(seen_pid(seen, pid));
                assert forall|q: u32| seen_pid(next, q) <==> seen_pid(done, q) || q == pid by {
                    if seen_pid(done, q) {
                        let j = choose|j: int| 0 <= j < done.len() && #[trigger] done[j].pid == q;
                        assert(next[j].pid == q);
                    }
                    assert(next[i as int].pid == pid);
                    if seen_pid(next, q) && q != pid {
                        let j = choose|j: int| 0 <= j < next.len() && #[trigger] next[j].pid == q;
                        assert(done[j].pid == q);
                    }
                }
            }
            if let Some(stat) = stats.get(&pid) {
                r.insert(pid, (stat.cpu_avg, stat.memory_avg_bytes));
            }
        }
        assert(seen.take(processes.len() as int) =~= seen);
        assert(r@ =~= shown_averages(stats@));
        r
    }

    /// Adds the processes of a snapshot without showing it.
    pub fn absorb(&mut self, now: Instant, snapshot: &SystemSnapshot)
        ensures
            final(self).history() == match snapshot.processes {
                Some(processes) => history_after(
                    old(self).history(),
                    observations(processes@),
                    now,
                    old(self).window(),
                ),
                None => old(self).history(),
            },
            final(self).window() == old(self).window(),
            final(self).interactive() == old(self).interactive(),
            final(self).footer() == old(self).footer(),
    {
        if let Some(processes) = &snapshot.processes {
            let _ = self.averages(now, processes);
        }
    }

    /// The text that shows a snapshot: its processes enter the averages, and the
    /// frame is ready to be written out.
    pub fn write(&mut self, now: Instant, snapshot: &SystemSnapshot, time: &str) -> (r: String)
        ensures
            ({
                let averages = match snapshot.processes {
                    Some(processes) => Some(
                        shown_averages(
                            all_stats(
                                old(self).history(),
                                observations(processes@),
                                now,
                                old(self).window(),
                            ),
                        ),
                    ),
                    None => None,
                };
                let theme = Theme { enabled: old(self).interactive() };
                r@ == frame_text(
                    rendered(*snapshot, averages, theme, time@),
                    old(self).footer(),
                    old(self).interactive(),
                )
            }),
            final(self).history() == match snapshot.processes {
                Some(processes) => history_after(
                    old(self).history(),
                    observations(processes@),
                    now,
                    old(self).window(),
                ),
                None => old(self).history(),
            },
            final(self).window() == old(self).window(),
            final(self).interactive() == old(self).interactive(),
            final(self).footer() == old(self).footer(),
    {
        let theme = Theme { enabled: self.interactive };
        let averages: Option<ProcAverages> = match &snapshot.processes {
            Some(processes) => Some(self.averages(now, processes)),
            None => None,
        };
        let mut frame = render_with(snapshot, averages.as_ref(), theme, time);
        if let Some(footer) = &self.footer {
            frame = frame.concat(theme.paint(DIM, footer.as_str()).as_str()).concat("\n");
        }
        if self.interactive {
            repaint(frame.as_str())
        } else {
            frame.concat("\n")
        }
    }
}

} // verus!
