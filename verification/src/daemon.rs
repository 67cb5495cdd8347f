//! The daemon: the history it keeps and the lines it exchanges with clients.
use vstd::prelude::*;
use vstd::string::*;
use crate::text::{
    chars_of, decimal, is_digit, is_text, lemma_decimal, lemma_trimmed_fixed, number_text,
    parse_unsigned, part, trim, trimmed, unsigned_of,
};
use crate::time::{Duration, NANOS_PER_SEC};

verus! {

/// A snapshot in the history: its time in seconds, and its line.
#[derive(Debug)]
pub struct Entry {
    pub second: i64,
    pub line: String,
}

/// The entries without the oldest ones that are too far from the newest. The
/// newest always stays.
pub open spec fn pruned(entries: Seq<Entry>, retention_secs: int) -> Seq<Entry>
    decreases entries.len(),
{
    if entries.len() > 1 && entries.last().second - entries[0].second > retention_secs {
        pruned(entries.drop_first(), retention_secs)
    } else {
        entries
    }
}

/// The recent snapshots, the oldest first.
pub struct HistoryBuffer {
    retention_secs: u128,
    entries: Vec<Entry>,
}

impl HistoryBuffer {
    /// How far back the history goes, in seconds.
    pub closed spec fn retention(&self) -> int {
        self.retention_secs as int
    }

    /// The snapshots, the oldest first.
    pub closed spec fn view(&self) -> Seq<Entry> {
        self.entries@
    }

    /// An empty history of that length.
    pub fn new(retention: Duration) -> (r: HistoryBuffer)
        ensures
            r.retention() == retention.nanos / NANOS_PER_SEC,
            r@ == Seq::<Entry>::empty(),
    {
        let r = HistoryBuffer { retention_secs: retention.as_secs(), entries: Vec::new() };
        assert(r@ =~= Seq::<Entry>::empty());
        r
    }

    /// Adds the newest snapshot and drops those that are too old beside it.
    pub fn push(&mut self, entry: Entry)
        ensures
            final(self).retention() == old(self).retention(),
            final(self)@ == pruned(old(self)@.push(entry), old(self).retention()),
    {
        self.entries.push(entry);
        let ghost all = self.entries@;
        let n: usize = self.entries.len();
        let newest: i128 = self.entries[n - 1].second as i128;
        let mut k: usize = 0;
        assert(all.skip(0) =~= all);
        while k + 1 < n && newest - self.entries[k].second as i128 > 0 && (newest
            - self.entries[k].second as i128) as u128 > self.retention_secs
            invariant
                k < n == self.entries@.len(),
                all == self.entries@,
                newest == all[n - 1].second,
                pruned(all, self.retention()) == pruned(all.skip(k as int), self.retention()),
            decreases n - k,
        {
            assert(all.skip(k as int).drop_first() =~= all.skip(k as int + 1));
            assert(all.skip(k as int).last() == all[n - 1]);
            k += 1;
        }
        assert(all.skip(k as int).last() == all[n - 1]);
        if k > 0 {
            self.entries = self.entries.split_off(k);
        }
        assert(self.entries@ =~= all.skip(k as int));
    }

    /// How many snapshots there are.
    pub fn len(&self) -> (r: usize)
        ensures
            r == self@.len(),
    {
        self.entries.len()
    }

    /// The time of the snapshot in place `i`.
    pub fn second(&self, i: usize) -> (r: i64)
        requires
            i < self@.len(),
        ensures
            r == self@[i as int].second,
    {
        self.entries[i].second
    }

    /// The lines of the snapshots, the oldest first.
    pub fn to_json_lines(&self) -> (r: Vec<String>)
        ensures
            r@ == self@.map_values(|e: Entry| e.line),
    {
        let mut lines: Vec<String> = Vec::new();
        for i in 0..self.entries.len()
            invariant
                lines@ =~= self@.map_values(|e: Entry| e.line).take(i as int),
        {
            lines.push(self.entries[i].line.clone());
        }
        assert(lines@ =~= self@.map_values(|e: Entry| e.line));
        lines
    }
}

/// The newest snapshot is always there, and where there are others, the oldest is
/// no further from it than the retention.
pub proof fn law_history_spans_the_retention(entries: Seq<Entry>, newest: Entry, retention_secs: int)
    ensures
        ({
            let kept = pruned(entries.push(newest), retention_secs);
            &&& kept.len() >= 1
            &&& kept.last() == newest
            &&& kept.len() > 1 ==> newest.second - kept[0].second <= retention_secs
        }),
    decreases entries.len(),
{
    let all = entries.push(newest);
    if all.len() > 1 && all.last().second - all[0].second > retention_secs {
        assert(all.drop_first() =~= entries.drop_first().push(newest));
        law_history_spans_the_retention(entries.drop_first(), newest, retention_secs);
    }
}

/// A new snapshot drops the oldest ones alone: those before the first that is no
/// further from it than the retention. The others stay, in their order, and it
/// comes last. Where the snapshots come in the order of time, what stays is all
/// that lies within the retention.
pub proof fn law_history_drops_the_oldest(entries: Seq<Entry>, newest: Entry, retention_secs: int)
    ensures
        ({
            let all = entries.push(newest);
            let kept = pruned(all, retention_secs);
            let k = all.len() - kept.len();
            &&& 0 <= k < all.len()
            &&& kept == all.subrange(k, all.len() as int)
            &&& forall|j: int|
                0 <= j < k ==> newest.second - (#[trigger] all[j]).second > retention_secs
            &&& kept.len() > 1 ==> newest.second - all[k].second <= retention_secs
            &&& (forall|i: int, j: int|
                0 <= i <= j < all.len() ==> (#[trigger] all[i]).second <= (
                #[trigger] all[j]).second) && retention_secs >= 0 ==> forall|j: int|
                k <= j < all.len() ==> newest.second - (#[trigger] all[j]).second
                    <= retention_secs
        }),
    decreases entries.len(),
{
    let all = entries.push(newest);
    let kept = pruned(all, retention_secs);
    assert(all.last() == newest);
    if all.len() > 1 && newest.second - all[0].second > retention_secs {
        let rest = all.drop_first();
        assert(rest =~= entries.drop_first().push(newest));
        law_history_drops_the_oldest(entries.drop_first(), newest, retention_secs);
        let k = rest.len() - kept.len();
        assert(kept =~= all.subrange(k + 1, all.len() as int));
        assert forall|j: int| 0 <= j < k + 1 implies newest.second - (
        #[trigger] all[j]).second > retention_secs by {
            if j > 0 {
                assert(rest[j - 1] == all[j]);
            }
        }
        assert(rest[k] == all[k + 1]);
        if (forall|i: int, j: int|
            0 <= i <= j < all.len() ==> (#[trigger] all[i]).second <= (#[trigger] all[j]).second)
            && retention_secs >= 0 {
            assert forall|i: int, j: int| 0 <= i <= j < rest.len() implies (
            #[trigger] rest[i]).second <= (#[trigger] rest[j]).second by {
                assert(all[i + 1].second <= all[j + 1].second);
            }
            assert forall|j: int| k + 1 <= j < all.len() implies newest.second - (
            #[trigger] all[j]).second <= retention_secs by {
                assert(rest[j - 1] == all[j]);
            }
        }
    } else {
        assert(kept =~= all.subrange(0, all.len() as int));
        if (forall|i: int, j: int|
            0 <= i <= j < all.len() ==> (#[trigger] all[i]).second <= (#[trigger] all[j]).second)
            && retention_secs >= 0 {
            assert forall|j: int| 0 <= j < all.len() implies newest.second - (
            #[trigger] all[j]).second <= retention_secs by {
                assert(all[0].second <= all[j].second);
                assert(all[j].second <= all[all.len() - 1].second);
            }
        }
    }
}

/// What a client asks of the daemon.
#[derive(Debug, Clone, Copy, PartialEq, Eq, Structural)]
pub enum ClientCommand {
    Stop,
    Attach,
    /// A line that is no command
    Other,
}

/// The command of a line.
pub open spec fn command_of(line: Seq<char>) -> ClientCommand {
    if trimmed(line) == "STOP"@ {
        ClientCommand::Stop
    } else if trimmed(line) == "ATTACH"@ {
        ClientCommand::Attach
    } else {
        ClientCommand::Other
    }
}

/// Reads the line that a client sent.
pub fn parse_command(line: &str) -> (r: ClientCommand)
    ensures
        r == command_of(line@),
{
    let word = trim(&chars_of(line));
    if is_text(&word, "STOP") {
        ClientCommand::Stop
    } else if is_text(&word, "ATTACH") {
        ClientCommand::Attach
    } else {
        ClientCommand::Other
    }
}

/// What the daemon writes to a client that attaches, up to the live snapshots:
/// how many snapshots follow, and then each on a line.
pub open spec fn replay_text(lines: Seq<String>, n: nat) -> Seq<char>
    decreases n,
{
    if n == 0 {
        "HISTORY "@ + decimal(lines.len()) + "\n"@
    } else {
        replay_text(lines, (n - 1) as nat) + lines[n - 1]@ + "\n"@
    }
}

/// What the daemon writes to a client that attaches.
pub fn attach_reply(lines: &Vec<String>) -> (r: String)
    ensures
        r@ == replay_text(lines@, lines@.len()),
{
    let mut out = "HISTORY ".to_owned().concat(number_text(lines.len() as u128).as_str()).concat(
        "\n",
    );
    for i in 0..lines.len()
        invariant
            out@ == replay_text(lines@, i as nat),
    {
        out.append(lines[i].as_str());
        out.append("\n");
    }
    out
}

/// How many snapshots the daemon announces in its first line; nothing where the
/// line announces none.
pub open spec fn announced(line: Seq<char>) -> Option<u64> {
    if line.len() >= 8 && line.take(8) == "HISTORY "@ {
        unsigned_of(trimmed(line.skip(8)))
    } else {
        None
    }
}

/// How many snapshots the daemon announces in its first line.
pub fn parse_history_header(line: &str) -> (r: Option<u64>)
    ensures
        r == announced(line@),
{
    let chars = chars_of(line);
    if chars.len() < 8 {
        return None;
    }
    let head = part(&chars, 0, 8);
    assert(head@ =~= line@.take(8));
    if !is_text(&head, "HISTORY ") {
        return None;
    }
    let rest = part(&chars, 8, chars.len());
    assert(rest@ =~= line@.skip(8));
    parse_unsigned(&trim(&rest))
}

/// A client reads the number that the daemon wrote.
pub proof fn law_header_round_trip(n: nat)
    requires
        n <= u64::MAX,
    ensures
        announced("HISTORY "@ + decimal(n)) == Some(n as u64),
{
    reveal_strlit("HISTORY ");
    let line = "HISTORY "@ + decimal(n);
    lemma_decimal(n);
    let d = decimal(n);
    assert(line.take(8) =~= "HISTORY "@);
    assert(line.skip(8) =~= d);
    assert(is_digit(d[0]));
    assert(is_digit(d[d.len() - 1]));
    lemma_trimmed_fixed(d);
}

/// The lines, each with its end.
pub open spec fn each_on_a_line(lines: Seq<String>) -> Seq<char>
    decreases lines.len(),
{
    if lines.len() == 0 {
        Seq::empty()
    } else {
        each_on_a_line(lines.drop_last()) + lines.last()@ + seq!['\n']
    }
}

/// A client that attaches reads in the first line how many snapshots follow, and
/// then each of them on a line of its own, in their order.
pub proof fn law_replay_is_announced(lines: Seq<String>)
    requires
        lines.len() <= u64::MAX,
    ensures
        ({
            let reply = replay_text(lines, lines.len());
            let head = reply.take(8 + decimal(lines.len()).len() as int);
            &&& announced(head) == Some(lines.len() as u64)
            &&& forall|i: int| 0 <= i < head.len() ==> #[trigger] head[i] != '\n'
            &&& reply == head + seq!['\n'] + each_on_a_line(lines)
        }),
{
    reveal_strlit("HISTORY ");
    let d = decimal(lines.len());
    let head = "HISTORY "@ + d;
    law_header_round_trip(lines.len());
    lemma_decimal(lines.len());
    lemma_replay(lines, lines.len());
    let reply = replay_text(lines, lines.len());
    assert(lines.take(lines.len() as int) =~= lines);
    assert(reply.take(8 + d.len() as int) =~= head);
    assert forall|i: int| 0 <= i < head.len() implies #[trigger] head[i] != '\n' by {
        if i >= 8 {
            assert(is_digit(d[i - 8]));
        }
    }
}

/// The reply with the first `n` lines.
proof fn lemma_replay(lines: Seq<String>, n: nat)
    requires
        n <= lines.len(),
    ensures
        replay_text(lines, n) == "HISTORY "@ + decimal(lines.len()) + seq!['\n'] + each_on_a_line(
            lines.take(n as int),
        ),
    decreases n,
{
    reveal_strlit("\n");
    assert("\n"@ =~= seq!['\n']);
    if n == 0 {
        assert(lines.take(0) =~= Seq::<String>::empty());
        assert(replay_text(lines, 0) =~= "HISTORY "@ + decimal(lines.len()) + seq!['\n']
            + each_on_a_line(lines.take(0)));
    } else {
        lemma_replay(lines, (n - 1) as nat);
        assert(lines.take(n as int).drop_last() =~= lines.take(n - 1));
        assert(replay_text(lines, n) =~= "HISTORY "@ + decimal(lines.len()) + seq!['\n']
            + each_on_a_line(lines.take(n as int)));
    }
}

/// What to do about the daemon's socket before it is bound.
#[derive(Debug, Clone, Copy, PartialEq, Eq, Structural)]
pub enum SocketPlan {
    /// A daemon answers there already
    Refuse,
    /// A socket was left behind
    RemoveStale,
    Bind,
}

/// What to do about the daemon's socket.
pub fn socket_plan(present: bool, reachable: bool) -> (r: SocketPlan)
    ensures
        r == if !present {
            SocketPlan::Bind
        } else if reachable {
            SocketPlan::Refuse
        } else {
            SocketPlan::RemoveStale
        },
{
    if !present {
        SocketPlan::Bind
    } else if reachable {
        SocketPlan::Refuse
    } else {
        SocketPlan::RemoveStale
    }
}

/// How a live view was left.
#[derive(Debug, Clone, Copy, PartialEq, Eq, Structural)]
pub enum LiveExit {
    Quit,
    /// The collection goes on in the background
    Detach,
}

/// The way out that a key asks for.
pub open spec fn exit_of(byte: u8) -> Option<LiveExit> {
    if byte == 0x71 || byte == 0x51 {
        Some(LiveExit::Quit)
    } else if byte == 0x64 || byte == 0x44 {
        Some(LiveExit::Detach)
    } else {
        None
    }
}

/// The way out that a key asks for: `q` to quit, `d` to detach, in either case.
pub fn key_to_exit(byte: u8) -> (r: Option<LiveExit>)
    ensures
        r == exit_of(byte),
{
    if byte == 0x71 || byte == 0x51 {
        Some(LiveExit::Quit)
    } else if byte == 0x64 || byte == 0x44 {
        Some(LiveExit::Detach)
    } else {
        None
    }
}

/// What happens to a live view.
#[derive(Debug, Clone, Copy, PartialEq, Eq, Structural)]
pub enum LiveEvent {
    /// The user pressed Ctrl+C
    Interrupt,
    Key(u8),
    /// No more keys will come
    KeysClosed,
    /// A line from the daemon
    Line,
    /// The daemon closed the connection
    Closed,
}

/// What a live view does next.
#[derive(Debug, Clone, Copy, PartialEq, Eq, Structural)]
pub enum LiveAction {
    Continue,
    /// Show the line, where it is a snapshot
    Show,
    Leave(LiveExit),
    /// Leave since the daemon is gone
    Abandon,
}

/// What a view that follows the daemon does next.
pub fn follow(event: LiveEvent) -> (r: LiveAction)
    ensures
        r == match event {
            LiveEvent::Interrupt => LiveAction::Leave(LiveExit::Quit),
            LiveEvent::Key(byte) => match exit_of(byte) {
                Some(exit) => LiveAction::Leave(exit),
                None => LiveAction::Continue,
            },
            LiveEvent::KeysClosed => LiveAction::Continue,
            LiveEvent::Line => LiveAction::Show,
            LiveEvent::Closed => LiveAction::Abandon,
        },
{
    match event {
        LiveEvent::Interrupt => LiveAction::Leave(LiveExit::Quit),
        LiveEvent::Key(byte) => match key_to_exit(byte) {
            Some(exit) => LiveAction::Leave(exit),
            None => LiveAction::Continue,
        },
        LiveEvent::KeysClosed => LiveAction::Continue,
        LiveEvent::Line => LiveAction::Show,
        LiveEvent::Closed => LiveAction::Abandon,
    }
}

/// What a replayed snapshot is for.
#[derive(Debug, Clone, Copy, PartialEq, Eq, Structural)]
pub enum Replay {
    /// It only enters the averages
    Absorb,
    /// It is shown, being the newest
    Show,
}

/// What snapshot `i` of `count` replayed ones is for.
pub fn replay_step(i: u64, count: u64) -> (r: Replay)
    requires
        i < count,
    ensures
        r == if i + 1 == count {
            Replay::Show
        } else {
            Replay::Absorb
        },
{
    if i + 1 == count {
        Replay::Show
    } else {
        Replay::Absorb
    }
}

/// What to print when a view that followed the daemon ends.
pub fn farewell(daemon_gone: bool, log: &str) -> (r: String)
    ensures
        r@ == if daemon_gone {
            "zstats daemon closed the connection"@
        } else {
            "detached; daemon still running (log: "@ + log@ + "). reattach with `zstats attach`"@
        },
{
    if daemon_gone {
        "zstats daemon closed the connection".to_owned()
    } else {
        "detached; daemon still running (log: ".to_owned().concat(log).concat(
            "). reattach with `zstats attach`",
        )
    }
}

} // verus!
