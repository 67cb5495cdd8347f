//! The daily history of busy processes.
use vstd::prelude::*;
use vstd::string::*;
use crate::date::{
    date_text, day_number, days_before, earlier, first_day, is_earlier, last_day,
    law_days_are_in_the_order_of_their_numbers, law_next_day_has_the_next_number, parse_date,
    parsed_date, tomorrow, valid, write_date, Date,
};
use crate::order::count;
use crate::overrides::NameMap;
use crate::paths::{join, joined};
use crate::text::{chars_of, is_text, part, string_of};

pub use crate::paths::data_dir;

verus! {

/// One recorded data point.
#[derive(Debug, Clone)]
pub struct MetricRecord {
    /// Sampling time: nanoseconds since the start of 1970, UTC
    pub timestamp: i128,
    pub pid: u32,
    pub name: String,
    pub display_name: Option<String>,
    /// Mean processor use over a minute, in millionths of a percent
    pub cpu_avg_percent: u64,
    /// Mean resident memory over a minute
    pub memory_avg_bytes: u64,
    /// The resident memory's share of all memory, in millionths of a percent
    pub memory_share_percent: u128,
    /// Mean footprint over a minute, where the system reports one
    pub memory_footprint_bytes: Option<u64>,
    /// The processor time counter, not the minute's part of it
    pub cpu_time_ms: u64,
}

/// How many days the history goes back.
pub const RETENTION_DAYS: i64 = 30;

/// The name of a day's file.
pub open spec fn file_name(date: Date) -> Seq<char> {
    date_text(date) + ".jsonl"@
}

/// The file of a day. Its name stands for that day again.
pub fn file_for(config_dir: &str, date: Date, target_os: &str) -> (r: String)
    requires
        valid(date),
    ensures
        r@ == joined(target_os@, joined(target_os@, config_dir@, "data"@), file_name(date)),
        file_date(file_name(date)) == Some(date),
{
    let stem = write_date(date);
    let name = stem.concat(".jsonl");
    proof {
        reveal_strlit(".jsonl");
        let n = file_name(date);
        assert(n.skip(n.len() - 6) =~= ".jsonl"@);
        assert(n.take(n.len() - 6) =~= date_text(date));
    }
    join(data_dir(config_dir, target_os).as_str(), name.as_str(), target_os)
}

/// The day that a file name stands for, where it is one of a day's file.
pub open spec fn file_date(name: Seq<char>) -> Option<Date> {
    if name.len() >= 6 && name.skip(name.len() - 6) == ".jsonl"@ {
        parsed_date(name.take(name.len() - 6))
    } else {
        None
    }
}

/// The day that a file name stands for.
fn read_file_date(name: &str) -> (r: Option<Date>)
    ensures
        r == file_date(name@),
        r is Some ==> valid(r->0),
{
    let chars = chars_of(name);
    let n: usize = chars.len();
    if n < 6 {
        return None;
    }
    let ending = part(&chars, n - 6, n);
    assert(ending@ =~= name@.skip(n - 6));
    if !is_text(&ending, ".jsonl") {
        return None;
    }
    let stem = part(&chars, 0, n - 6);
    assert(stem@ =~= name@.take(n - 6));
    parse_date(string_of(&stem).as_str())
}

/// Whether a file of this name is that of a day more than `days` before `today`.
pub open spec fn expired(name: Seq<char>, today: Date, days: int) -> bool {
    file_date(name) is Some && valid(file_date(name)->0) && day_number(file_date(name)->0)
        < day_number(today) - days
}

/// The expired ones among the names.
pub open spec fn expired_names(names: Seq<String>, today: Date, days: int) -> Seq<String>
    decreases names.len(),
{
    if names.len() == 0 {
        Seq::empty()
    } else {
        let rest = expired_names(names.drop_last(), today, days);
        if expired(names.last()@, today, days) {
            rest.push(names.last())
        } else {
            rest
        }
    }
}

/// No file is as old as the first day there is.
proof fn lemma_oldest(d: Date)
    requires
        valid(d),
    ensures
        day_number(first_day()) <= day_number(d) <= day_number(last_day()),
{
    law_days_are_in_the_order_of_their_numbers(first_day(), d);
    law_days_are_in_the_order_of_their_numbers(last_day(), d);
    assert(!earlier(d, first_day()));
    assert(!earlier(last_day(), d));
}

/// Which files of the history to delete: those of days more than
/// `retention_days` before `today`. Any other file stays, and every file where no
/// day is so many days away.
pub fn cleanup(names: &Vec<String>, today: Date, retention_days: i64) -> (r: Vec<String>)
    requires
        valid(today),
        -7_304_484 <= retention_days <= 7_304_484,
    ensures
        r@ == if day_number(first_day()) <= day_number(today) - retention_days <= day_number(
            last_day(),
        ) {
            expired_names(names@, today, retention_days as int)
        } else {
            Seq::empty()
        },
{
    let mut removed: Vec<String> = Vec::new();
    let cutoff = match days_before(today, retention_days) {
        Some(cutoff) => cutoff,
        None => {
            assert(removed@ =~= Seq::empty());
            return removed;
        },
    };
    for i in 0..names.len()
        invariant
            valid(cutoff),
            day_number(cutoff) == day_number(today) - retention_days,
            removed@ == expired_names(names@.take(i as int), today, retention_days as int),
    {
        assert(names@.take(i as int + 1).drop_last() =~= names@.take(i as int));
        if let Some(date) = read_file_date(names[i].as_str()) {
            proof {
                law_days_are_in_the_order_of_their_numbers(date, cutoff);
            }
            if is_earlier(date, cutoff) {
                removed.push(names[i].clone());
            }
        }
    }
    assert(names@.take(names.len() as int) =~= names@);
    removed
}

/// Whether a directory is to be swept on a day: unless it was on that day.
pub open spec fn sweep_due(last: Map<Seq<char>, Date>, dir: Seq<char>, date: Date) -> bool {
    !(last.contains_key(dir) && last[dir] == date)
}

/// The days of the last sweeps, once a directory was looked at on a day.
pub open spec fn swept(
    last: Map<Seq<char>, Date>,
    dir: Seq<char>,
    date: Date,
) -> Map<Seq<char>, Date> {
    last.insert(dir, date)
}

/// A directory is swept once on a day, however often it is written to, and again on
/// any other day. Each directory is swept on its own.
pub proof fn law_one_sweep_a_day(
    last: Map<Seq<char>, Date>,
    dir: Seq<char>,
    date: Date,
    other_dir: Seq<char>,
    other_date: Date,
)
    ensures
        !last.contains_key(dir) ==> sweep_due(last, dir, date),
        !sweep_due(swept(last, dir, date), dir, date),
        other_date != date ==> sweep_due(swept(last, dir, date), dir, other_date),
        other_dir != dir ==> sweep_due(swept(last, dir, date), other_dir, other_date)
            == sweep_due(last, other_dir, other_date),
{
}

/// When the history of each directory was last swept.
pub struct Sweeps {
    last: NameMap<Date>,
}

impl Sweeps {
    /// The day of the last sweep of each directory.
    pub closed spec fn view(&self) -> Map<Seq<char>, Date> {
        self.last.map()
    }

    /// No directory was swept yet.
    pub fn new() -> (r: Sweeps)
        ensures
            r@ == Map::<Seq<char>, Date>::empty(),
    {
        Sweeps { last: NameMap::new() }
    }

    /// Whether to sweep a directory: once for each new day.
    pub fn maybe_cleanup(&mut self, config_dir: &str, date: Date) -> (r: bool)
        ensures
            r == sweep_due(old(self)@, config_dir@, date),
            final(self)@ == swept(old(self)@, config_dir@, date),
    {
        if let Some(last) = self.last.get(config_dir) {
            if last == date {
                assert(self@ =~= old(self)@.insert(config_dir@, date));
                return false;
            }
        }
        self.last.insert(config_dir, date);
        true
    }
}

/// The days from `from` to `to`, both included.
pub open spec fn days_between(from: Date, to: Date) -> nat {
    if day_number(to) < day_number(from) {
        0
    } else {
        (day_number(to) - day_number(from) + 1) as nat
    }
}

/// The days whose files hold the records of `from` to `to`, the oldest first.
pub fn read_range(from: Date, to: Date) -> (r: Vec<Date>)
    requires
        valid(from),
        valid(to),
    ensures
        r@.len() == days_between(from, to),
        forall|i: int|
            0 <= i < r@.len() ==> valid(#[trigger] r@[i]) && day_number(r@[i]) == day_number(from)
                + i,
{
    let mut days: Vec<Date> = Vec::new();
    let mut date = from;
    proof {
        law_days_are_in_the_order_of_their_numbers(to, date);
        lemma_oldest(to);
    }
    while !is_earlier(to, date)
        invariant_except_break
            valid(date),
            valid(to),
            valid(from),
            day_number(to) <= day_number(last_day()),
            day_number(date) == day_number(from) + days@.len(),
            earlier(to, date) <==> day_number(to) < day_number(date),
            day_number(date) <= day_number(to) + 1 || days@.len() == 0,
            forall|i: int|
                0 <= i < days@.len() ==> valid(#[trigger] days@[i]) && day_number(days@[i])
                    == day_number(from) + i,
        ensures
            days@.len() == days_between(from, to),
            forall|i: int|
                0 <= i < days@.len() ==> valid(#[trigger] days@[i]) && day_number(days@[i])
                    == day_number(from) + i,
        decreases day_number(to) + 1 - day_number(date),
    {
        days.push(date);
        proof {
            law_days_are_in_the_order_of_their_numbers(date, last_day());
        }
        match tomorrow(date) {
            Some(next) => {
                proof {
                    law_next_day_has_the_next_number(date);
                    law_days_are_in_the_order_of_their_numbers(to, next);
                }
                date = next;
            },
            None => {
                break;
            },
        }
    }
    days
}

/// Whether the file of this name is that of a day, and that day is more than
/// `days` days before `today`: its name is the date with `.jsonl` behind it.
pub open spec fn is_old(name: Seq<char>, today: Date, days: int) -> bool {
    name.len() >= 6 && name.subrange(name.len() - 6, name.len() as int) == seq![
        '.',
        'j',
        's',
        'o',
        'n',
        'l',
    ] && {
        let date = parsed_date(name.subrange(0, name.len() - 6));
        date is Some && valid(date->0) && day_number(today) - day_number(date->0) > days
    }
}

/// The files to delete are those of days that are too old, each as often as it is
/// listed, in the order of the list; no other file is. The history goes back thirty
/// days.
pub proof fn law_only_old_files_go(names: Seq<String>, today: Date, days: int, name: String)
    ensures
        ({
            let gone = expired_names(names, today, days);
            &&& count(gone, |n: String| n == name) == if is_old(name@, today, days) {
                count(names, |n: String| n == name)
            } else {
                0
            }
            &&& gone == names.filter(|n: String| is_old(n@, today, days))
        }),
        RETENTION_DAYS == 30,
    decreases names.len(),
{
    reveal(Seq::filter);
    reveal_strlit(".jsonl");
    assert(".jsonl"@ =~= seq!['.', 'j', 's', 'o', 'n', 'l']);
    if names.len() > 0 {
        law_only_old_files_go(names.drop_last(), today, days, name);
        let n = names.last()@;
        if n.len() >= 6 {
            assert(n.skip(n.len() - 6) =~= n.subrange(n.len() - 6, n.len() as int));
            assert(n.take(n.len() - 6) =~= n.subrange(0, n.len() - 6));
        }
        let gone = expired_names(names, today, days);
        if is_old(n, today, days) {
            assert(gone.drop_last() =~= expired_names(names.drop_last(), today, days));
        }
    }
}

} // verus!
