//! One round after another: alerts, averages and history records.
use std::collections::HashMap;
use vstd::prelude::*;
use vstd::string::*;
use crate::alerts::active::ActiveThresholds;
use crate::alerts::engine::{evaluated, fresh_state, AlertEngine, EngineState};
use crate::alerts::event::AlertEvent;
use crate::alerts::template::Template;
use crate::alerts::verdicts::processes_seen;
use crate::averages::{
    after_sightings, averages_of, clock_runs_on, law_averages_over_a_run, no_older, since_absent,
    Sighting,
};
use crate::records::MetricRecord;
use crate::rolling::{all_stats, history_after, observations, ProcessStats, ProcessWindows, Sample};
use crate::settings::FileConfig;
use crate::snapshot::{Capabilities, SystemSnapshot};
use crate::time::{Duration, Instant};

verus! {

broadcast use vstd::std_specs::hash::group_hash_axioms;

/// How far back the averages for display go, in nanoseconds: one minute.
pub const DISPLAY_WINDOW_NANOS: u128 = 60_000_000_000;

/// What one round gave.
pub struct Tick {
    /// Alerts to deliver
    pub alerts: Vec<AlertEvent>,
    /// Averages for display
    pub process_stats: HashMap<u32, ProcessStats>,
    /// Data points to append to the history
    pub records: Vec<MetricRecord>,
}

/// The rule engine, the averages for display and the settings in force.
pub struct Monitor {
    config_dir: String,
    settings: FileConfig,
    engine: AlertEngine,
    thresholds: ActiveThresholds,
    windows: ProcessWindows,
}

/// The averages that a snapshot gives for display; none without processes.
pub open spec fn displayed(
    history: Map<u32, Seq<Sample>>,
    window: Duration,
    now: Instant,
    snapshot: SystemSnapshot,
) -> Map<u32, ProcessStats> {
    match snapshot.processes {
        Some(processes) => all_stats(history, observations(processes@), now, window),
        None => Map::empty(),
    }
}

/// The samples for display after a snapshot.
pub open spec fn remembered(
    history: Map<u32, Seq<Sample>>,
    window: Duration,
    now: Instant,
    snapshot: SystemSnapshot,
) -> Map<u32, Seq<Sample>> {
    match snapshot.processes {
        Some(processes) => history_after(history, observations(processes@), now, window),
        None => history,
    }
}

/// One round: its time and its snapshot.
pub ghost struct Round {
    pub now: Instant,
    pub snapshot: SystemSnapshot,
}

/// The samples for display after the rounds.
pub open spec fn remembered_after(rounds: Seq<Round>, window: Duration) -> Map<u32, Seq<Sample>>
    decreases rounds.len(),
{
    if rounds.len() == 0 {
        Map::empty()
    } else {
        remembered(
            remembered_after(rounds.drop_last(), window),
            window,
            rounds.last().now,
            rounds.last().snapshot,
        )
    }
}

/// What the rounds with processes saw of them.
pub open spec fn seen_in(rounds: Seq<Round>) -> Seq<Sighting>
    decreases rounds.len(),
{
    if rounds.len() == 0 {
        Seq::empty()
    } else {
        let before = seen_in(rounds.drop_last());
        match rounds.last().snapshot.processes {
            Some(processes) => before.push(
                Sighting { now: rounds.last().now, seen: processes_seen(processes@) },
            ),
            None => before,
        }
    }
}

/// What is remembered is what was seen.
proof fn lemma_remembered(rounds: Seq<Round>, window: Duration)
    ensures
        remembered_after(rounds, window) == after_sightings(seen_in(rounds), window),
    decreases rounds.len(),
{
    if rounds.len() > 0 {
        let before = rounds.drop_last();
        lemma_remembered(before, window);
        if rounds.last().snapshot.processes is Some {
            let processes = rounds.last().snapshot.processes->0@;
            assert(observations(processes) =~= processes_seen(processes));
            assert(seen_in(rounds).drop_last() =~= seen_in(before));
        }
    }
}

/// After any rounds, the averages for display are of the processes of the last one,
/// each over its samples since it was last absent that are no older than the
/// window. Without processes there are none.
pub proof fn law_displayed_averages(rounds: Seq<Round>, window: Duration, pid: u32)
    requires
        rounds.len() > 0,
        clock_runs_on(seen_in(rounds)),
        since_absent(seen_in(rounds), pid).len() <= usize::MAX,
    ensures
        ({
            let last = rounds.last();
            let stats = displayed(
                remembered_after(rounds.drop_last(), window),
                window,
                last.now,
                last.snapshot,
            );
            let samples = no_older(since_absent(seen_in(rounds), pid), last.now, window.nanos);
            &&& stats.contains_key(pid) <==> last.snapshot.processes is Some && exists|i: int|
                0 <= i < last.snapshot.processes->0@.len() && (
                #[trigger] last.snapshot.processes->0@[i]).pid == pid
            &&& stats.contains_key(pid) ==> samples.len() > 0 && averages_of(
                stats[pid],
                samples,
                last.now,
            )
        }),
{
    let before = rounds.drop_last();
    let last = rounds.last();
    lemma_remembered(before, window);
    if last.snapshot.processes is Some {
        let processes = last.snapshot.processes->0@;
        let run = seen_in(rounds);
        assert(observations(processes) =~= processes_seen(processes));
        assert(run.drop_last() =~= seen_in(before));
        law_averages_over_a_run(run, window, pid);
        let seen = run.last().seen;
        if exists|i: int| 0 <= i < seen.len() && (#[trigger] seen[i]).pid == pid {
            let i = choose|i: int| 0 <= i < seen.len() && (#[trigger] seen[i]).pid == pid;
            assert(processes[i].pid == pid);
        }
        if exists|i: int| 0 <= i < processes.len() && (#[trigger] processes[i]).pid == pid {
            let i = choose|i: int| 0 <= i < processes.len() && (#[trigger] processes[i]).pid == pid;
            assert(seen[i].pid == pid);
        }
    }
}

impl Monitor {
    /// What the rule engine remembers.
    pub closed spec fn engine(&self) -> EngineState {
        self.engine@
    }

    /// The thresholds in force.
    pub closed spec fn thresholds(&self) -> ActiveThresholds {
        self.thresholds
    }

    /// The settings in force.
    pub closed spec fn file(&self) -> FileConfig {
        self.settings
    }

    /// The samples for display.
    pub closed spec fn history(&self) -> Map<u32, Seq<Sample>> {
        self.windows.history()
    }

    /// How far back they go.
    pub closed spec fn window(&self) -> Duration {
        self.windows.window()
    }

    /// The directory of the settings.
    pub closed spec fn dir(&self) -> Seq<char> {
        self.config_dir@
    }

    /// A monitor with these settings and this template.
    pub fn with_settings(config_dir: &str, settings: FileConfig, template: &Template) -> (r: Monitor)
        ensures
            r.engine() == fresh_state(),
            r.thresholds().comes_from(settings.alerts@, template@),
            r.file() == settings,
            r.history() == Map::<u32, Seq<Sample>>::empty(),
            r.window() == (Duration { nanos: DISPLAY_WINDOW_NANOS }),
            r.window().nanos == 60_000_000_000,
            r.dir() == config_dir@,
    {
        let thresholds = ActiveThresholds::from_config_with_template(&settings.alerts, template);
        Monitor {
            config_dir: config_dir.to_owned(),
            settings,
            engine: AlertEngine::new(),
            thresholds,
            windows: ProcessWindows::new(Duration { nanos: DISPLAY_WINDOW_NANOS }),
        }
    }

    /// One round: judges a snapshot and averages its processes.
    pub fn tick(&mut self, now: Instant, snapshot: &SystemSnapshot) -> (r: Tick)
        ensures
            ({
                let o = evaluated(old(self).engine(), now, *snapshot, old(self).thresholds());
                &&& r.alerts@ == o.events
                &&& r.records@ == o.records
                &&& final(self).engine() == o.state
            }),
            r.process_stats@ == displayed(
                old(self).history(),
                old(self).window(),
                now,
                *snapshot,
            ),
            final(self).history() == remembered(
                old(self).history(),
                old(self).window(),
                now,
                *snapshot,
            ),
            final(self).window() == old(self).window(),
            final(self).thresholds() == old(self).thresholds(),
            final(self).file() == old(self).file(),
            final(self).dir() == old(self).dir(),
    {
        let evaluation = self.engine.evaluate(now, snapshot, &self.thresholds);
        let process_stats: HashMap<u32, ProcessStats> = match &snapshot.processes {
            Some(processes) => self.windows.record(now, processes),
            None => {
                let none: HashMap<u32, ProcessStats> = HashMap::new();
                assert(none@ =~= Map::empty());
                none
            },
        };
        Tick { alerts: evaluation.events, process_stats, records: evaluation.records }
    }

    /// Puts other settings and another template in force. What the rule engine
    /// and the averages remember stays.
    pub fn reload_settings(&mut self, settings: FileConfig, template: &Template)
        ensures
            final(self).thresholds().comes_from(settings.alerts@, template@),
            final(self).file() == settings,
            final(self).engine() == old(self).engine(),
            final(self).history() == old(self).history(),
            final(self).window() == old(self).window(),
            final(self).dir() == old(self).dir(),
    {
        self.thresholds = ActiveThresholds::from_config_with_template(&settings.alerts, template);
        self.settings = settings;
    }

    /// The settings in force.
    pub fn settings(&self) -> (r: &FileConfig)
        ensures
            *r == self.file(),
    {
        &self.settings
    }

    /// The directory of the settings.
    pub fn config_dir(&self) -> (r: &str)
        ensures
            r@ == self.dir(),
    {
        self.config_dir.as_str()
    }

    /// Whether any rule is on that a build with these capabilities can raise.
    pub fn alerts_enabled(&self, capabilities: Capabilities) -> (r: bool)
        ensures
            r == self.thresholds().enabled(capabilities),
    {
        self.thresholds.any_enabled(capabilities)
    }
}

/// How many rounds pass between two looks at the settings files.
pub const RELOAD_CHECK_EVERY: u32 = 30;

/// When the settings files were last seen, in nanoseconds since the epoch; absent
/// where there is no file.
#[derive(Debug, Clone, Copy, PartialEq, Eq, Structural)]
pub struct SourceTimes {
    pub config: Option<i128>,
    pub template: Option<i128>,
}

/// Keeping track of the settings files.
pub struct ReloadState {
    rounds_since_check: u32,
    last: SourceTimes,
}

impl ReloadState {
    /// A look comes before the rounds reach the limit.
    #[verifier::type_invariant]
    spec fn counts_below_the_limit(self) -> bool {
        self.rounds_since_check < RELOAD_CHECK_EVERY
    }

    /// The rounds since the last look.
    pub closed spec fn rounds(&self) -> u32 {
        self.rounds_since_check
    }

    /// The times seen last.
    pub closed spec fn last(&self) -> SourceTimes {
        self.last
    }

    /// No rounds since a look that saw these times.
    pub fn new(seen: SourceTimes) -> (r: ReloadState)
        ensures
            r.rounds() == 0,
            r.last() == seen,
    {
        ReloadState { rounds_since_check: 0, last: seen }
    }

    /// Counts a round; whether it is time to look at the files.
    pub fn check_due(&mut self) -> (r: bool)
        ensures
            r == (old(self).rounds() + 1 == RELOAD_CHECK_EVERY),
            r == (old(self).rounds() + 1 == 30),
            final(self).rounds() == if r {
                0
            } else {
                (old(self).rounds() + 1) as u32
            },
            final(self).last() == old(self).last(),
    {
        proof {
            use_type_invariant(&*self);
        }
        let rounds: u32 = self.rounds_since_check + 1;
        if rounds < RELOAD_CHECK_EVERY {
            self.rounds_since_check = rounds;
            return false;
        }
        self.rounds_since_check = 0;
        true
    }

    /// Takes note of the files' times; whether they changed.
    pub fn changed(&mut self, seen: SourceTimes) -> (r: bool)
        ensures
            r == (seen != old(self).last()),
            final(self).last() == seen,
            final(self).rounds() == old(self).rounds(),
    {
        proof {
            use_type_invariant(&*self);
        }
        if seen == self.last {
            return false;
        }
        self.last = seen;
        true
    }
}

/// A text for a script: backslashes and quotes escaped.
pub open spec fn escaped(s: Seq<char>) -> Seq<char>
    decreases s.len(),
{
    if s.len() == 0 {
        Seq::empty()
    } else if s.last() == '\\' || s.last() == '"' {
        escaped(s.drop_last()).push('\\').push(s.last())
    } else {
        escaped(s.drop_last()).push(s.last())
    }
}

/// A text for a script: backslashes and quotes escaped.
pub fn escape_applescript(s: &str) -> (r: String)
    ensures
        r@ == escaped(s@),
{
    let chars = crate::text::chars_of(s);
    let mut out = String::new();
    for i in 0..chars.len()
        invariant
            chars@ == s@,
            out@ =~= escaped(s@.take(i as int)),
    {
        assert(s@.take(i as int + 1).drop_last() =~= s@.take(i as int));
        if chars[i] == '\\' || chars[i] == '"' {
            out.push('\\');
        }
        out.push(chars[i]);
    }
    assert(s@.take(chars.len() as int) =~= s@);
    out
}

/// What a quoted text of a script says: a backslash stands for the character after
/// it, and a quote ends the text before its time.
pub open spec fn said(s: Seq<char>) -> Option<Seq<char>>
    decreases s.len(),
{
    if s.len() == 0 {
        Some(Seq::empty())
    } else if s[0] == '"' || (s[0] == '\\' && s.len() < 2) {
        None
    } else {
        let n: int = if s[0] == '\\' {
            2
        } else {
            1
        };
        match said(s.skip(n)) {
            Some(rest) => Some(seq![s[n - 1]] + rest),
            None => None,
        }
    }
}

/// One more character at the start.
proof fn lemma_escaped_first(s: Seq<char>)
    requires
        s.len() > 0,
    ensures
        escaped(s) == if s[0] == '\\' || s[0] == '"' {
            seq!['\\', s[0]] + escaped(s.skip(1))
        } else {
            seq![s[0]] + escaped(s.skip(1))
        },
    decreases s.len(),
{
    if s.len() == 1 {
        assert(s.drop_last() =~= Seq::<char>::empty());
        assert(s.skip(1) =~= Seq::<char>::empty());
        assert(escaped(Seq::<char>::empty()) =~= Seq::<char>::empty());
        if s[0] == '\\' || s[0] == '"' {
            assert(escaped(s) =~= seq!['\\', s[0]] + escaped(s.skip(1)));
        } else {
            assert(escaped(s) =~= seq![s[0]] + escaped(s.skip(1)));
        }
    } else {
        lemma_escaped_first(s.drop_last());
        assert(s.drop_last().skip(1) =~= s.skip(1).drop_last());
        assert(s.skip(1).last() == s.last());
        if s[0] == '\\' || s[0] == '"' {
            assert(escaped(s) =~= seq!['\\', s[0]] + escaped(s.skip(1)));
        } else {
            assert(escaped(s) =~= seq![s[0]] + escaped(s.skip(1)));
        }
    }
}

/// A message in a script says what the message says, whatever is in it.
pub proof fn law_script_says_the_message(message: Seq<char>)
    ensures
        said(escaped(message)) == Some(message),
    decreases message.len(),
{
    let text = escaped(message);
    if message.len() > 0 {
        lemma_escaped_first(message);
        law_script_says_the_message(message.skip(1));
        let n: int = if message[0] == '\\' || message[0] == '"' {
            2
        } else {
            1
        };
        assert(text.skip(n) =~= escaped(message.skip(1)));
        assert(text[n - 1] == message[0]);
        assert(seq![message[0]] + message.skip(1) =~= message);
    } else {
        assert(text =~= Seq::<char>::empty());
        assert(message =~= Seq::<char>::empty());
    }
}

/// The program that shows a notification, and its arguments.
pub fn notification_command(message: &str, macos: bool) -> (r: (String, Vec<String>))
    ensures
        macos ==> {
            &&& r.0@ == "osascript"@
            &&& r.1@.len() == 2
            &&& r.1@[0]@ == "-e"@
            &&& r.1@[1]@ == "display notification \""@ + escaped(message@)
                + "\" with title \"zstats\""@
        },
        !macos ==> {
            &&& r.0@ == "notify-send"@
            &&& r.1@.len() == 2
            &&& r.1@[0]@ == "zstats"@
            &&& r.1@[1]@ == message@
        },
{
    let mut args: Vec<String> = Vec::new();
    if macos {
        args.push("-e".to_owned());
        args.push(
            "display notification \"".to_owned().concat(
                escape_applescript(message).as_str(),
            ).concat("\" with title \"zstats\""),
        );
        ("osascript".to_owned(), args)
    } else {
        args.push("zstats".to_owned());
        args.push(message.to_owned());
        ("notify-send".to_owned(), args)
    }
}

} // verus!
