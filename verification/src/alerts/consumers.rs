//! The largest holders of memory.
use vstd::prelude::*;
use vstd::string::*;
use super::event::{MemoryConsumer, TopConsumers};
use crate::collector::cpu::{percent_ratio, ratio_percent};
use crate::collector::shares::{is_share, law_percentage_is_the_share};
use crate::order::{
    arrange, arranged, count, law_arranged_is_in_order, law_arranged_keeps_values,
    lemma_arranged_contains, lemma_count_all, lemma_count_arranged, lemma_count_parts, weak_order,
    Order,
};
use crate::snapshot::{copy_text, ProcessGroupSnapshot, ProcessSnapshot, SystemSnapshot};

verus! {

/// More memory first.
pub struct LargestConsumer;

impl Order<MemoryConsumer> for LargestConsumer {
    open spec fn before(a: MemoryConsumer, b: MemoryConsumer) -> bool {
        a.bytes > b.bytes
    }

    fn goes_before(a: &MemoryConsumer, b: &MemoryConsumer) -> (r: bool) {
        a.bytes > b.bytes
    }
}

/// The footprint, or the resident memory where there is none.
pub open spec fn held_bytes(footprint: Option<u64>, resident: u64) -> u64 {
    match footprint {
        Some(f) => f,
        None => resident,
    }
}

fn held(footprint: Option<u64>, resident: u64) -> (r: u64)
    ensures
        r == held_bytes(footprint, resident),
{
    match footprint {
        Some(f) => f,
        None => resident,
    }
}

/// An application as a holder of memory.
pub open spec fn group_consumer(g: ProcessGroupSnapshot, total: u64) -> MemoryConsumer {
    let bytes = held_bytes(g.phys_footprint_bytes, g.memory_bytes);
    MemoryConsumer {
        pid: g.root_pid,
        name: g.name,
        display_name: g.display_name,
        bytes,
        share_percent: percent_ratio(bytes, total),
        process_count: g.process_count,
    }
}

/// A process as a holder of memory.
pub open spec fn process_consumer(p: ProcessSnapshot, total: u64) -> MemoryConsumer {
    let bytes = held_bytes(p.phys_footprint_bytes, p.memory_bytes);
    MemoryConsumer {
        pid: p.pid,
        name: p.name,
        display_name: p.display_name,
        bytes,
        share_percent: percent_ratio(bytes, total),
        process_count: 1,
    }
}

/// Whether so many bytes are more than a twentieth of all memory.
pub open spec fn notable(bytes: u64, total: u64) -> bool {
    bytes * 20 > total
}

/// The notable applications.
pub open spec fn notable_groups(groups: Seq<ProcessGroupSnapshot>, total: u64) -> Seq<MemoryConsumer>
    decreases groups.len(),
{
    if groups.len() == 0 {
        Seq::empty()
    } else {
        let rest = notable_groups(groups.drop_last(), total);
        let c = group_consumer(groups.last(), total);
        if notable(c.bytes, total) {
            rest.push(c)
        } else {
            rest
        }
    }
}

/// The notable processes.
pub open spec fn notable_processes(processes: Seq<ProcessSnapshot>, total: u64) -> Seq<
    MemoryConsumer,
>
    decreases processes.len(),
{
    if processes.len() == 0 {
        Seq::empty()
    } else {
        let rest = notable_processes(processes.drop_last(), total);
        let c = process_consumer(processes.last(), total);
        if notable(c.bytes, total) {
            rest.push(c)
        } else {
            rest
        }
    }
}

/// The notable holders of memory: applications where they are collected, else
/// processes.
pub open spec fn candidates(s: SystemSnapshot) -> Seq<MemoryConsumer> {
    match s.process_groups {
        Some(groups) => notable_groups(groups@, s.memory.total_bytes),
        None => match s.processes {
            Some(processes) => notable_processes(processes@, s.memory.total_bytes),
            None => Seq::empty(),
        },
    }
}

/// The value in a place of a list, where there is one.
pub open spec fn at(s: Seq<MemoryConsumer>, i: int) -> Option<MemoryConsumer> {
    if 0 <= i < s.len() {
        Some(s[i])
    } else {
        None
    }
}

/// The three largest holders of memory that are notable.
pub open spec fn consumers_of(s: SystemSnapshot) -> TopConsumers {
    let ranked = arranged::<MemoryConsumer, LargestConsumer>(candidates(s));
    TopConsumers { first: at(ranked, 0), second: at(ranked, 1), third: at(ranked, 2) }
}

fn list_groups(groups: &Vec<ProcessGroupSnapshot>, total: u64) -> (r: Vec<MemoryConsumer>)
    ensures
        r@ == notable_groups(groups@, total),
{
    let mut r: Vec<MemoryConsumer> = Vec::new();
    for i in 0..groups.len()
        invariant
            r@ == notable_groups(groups@.take(i as int), total),
    {
        assert(groups@.take(i as int + 1).drop_last() =~= groups@.take(i as int));
        let g = &groups[i];
        let bytes: u64 = held(g.phys_footprint_bytes, g.memory_bytes);
        if bytes as u128 * 20 > total as u128 {
            r.push(
                MemoryConsumer {
                    pid: g.root_pid,
                    name: g.name.clone(),
                    display_name: copy_text(&g.display_name),
                    bytes,
                    share_percent: ratio_percent(bytes, total),
                    process_count: g.process_count,
                },
            );
        }
    }
    assert(groups@.take(groups.len() as int) =~= groups@);
    r
}

fn list_processes(processes: &Vec<ProcessSnapshot>, total: u64) -> (r: Vec<MemoryConsumer>)
    ensures
        r@ == notable_processes(processes@, total),
{
    let mut r: Vec<MemoryConsumer> = Vec::new();
    for i in 0..processes.len()
        invariant
            r@ == notable_processes(processes@.take(i as int), total),
    {
        assert(processes@.take(i as int + 1).drop_last() =~= processes@.take(i as int));
        let p = &processes[i];
        let bytes: u64 = held(p.phys_footprint_bytes, p.memory_bytes);
        if bytes as u128 * 20 > total as u128 {
            r.push(
                MemoryConsumer {
                    pid: p.pid,
                    name: p.name.clone(),
                    display_name: copy_text(&p.display_name),
                    bytes,
                    share_percent: ratio_percent(bytes, total),
                    process_count: 1,
                },
            );
        }
    }
    assert(processes@.take(processes.len() as int) =~= processes@);
    r
}

/// The three largest holders of memory that are notable.
pub fn top_consumers(s: &SystemSnapshot) -> (r: TopConsumers)
    ensures
        r == consumers_of(*s),
{
    let list: Vec<MemoryConsumer> = match &s.process_groups {
        Some(groups) => list_groups(groups, s.memory.total_bytes),
        None => match &s.processes {
            Some(processes) => list_processes(processes, s.memory.total_bytes),
            None => Vec::new(),
        },
    };
    assert(list@ =~= candidates(*s));
    let mut ranked = arrange::<MemoryConsumer, LargestConsumer>(list);
    let ghost all = ranked@;
    ranked.truncate(3);
    let third: Option<MemoryConsumer> = if ranked.len() > 2 {
        ranked.pop()
    } else {
        None
    };
    let second: Option<MemoryConsumer> = if ranked.len() > 1 {
        ranked.pop()
    } else {
        None
    };
    let first: Option<MemoryConsumer> = ranked.pop();
    TopConsumers { first, second, third }
}

/// The memory that an application or a process holds: its footprint where it is
/// known, else what is resident.
pub open spec fn holds(footprint: Option<u64>, resident: u64) -> int {
    if footprint is Some {
        footprint->0 as int
    } else {
        resident as int
    }
}

/// How many of those that hold more than a twentieth of all memory hold more than
/// `bytes`. They are the applications, where those are collected, else the
/// processes.
pub open spec fn holding_more(s: SystemSnapshot, bytes: int) -> nat {
    let total = s.memory.total_bytes;
    if s.process_groups is Some {
        count(
            s.process_groups->0@,
            |g: ProcessGroupSnapshot|
                {
                    let held = holds(g.phys_footprint_bytes, g.memory_bytes);
                    held * 20 > total && held > bytes
                },
        )
    } else if s.processes is Some {
        count(
            s.processes->0@,
            |p: ProcessSnapshot|
                {
                    let held = holds(p.phys_footprint_bytes, p.memory_bytes);
                    held * 20 > total && held > bytes
                },
        )
    } else {
        0
    }
}

/// Whether a holder of memory is an application of the snapshot, or a process where
/// applications are not collected.
pub open spec fn is_holder(c: MemoryConsumer, s: SystemSnapshot) -> bool {
    if s.process_groups is Some {
        exists|i: int|
            0 <= i < s.process_groups->0@.len() && ({
                let g = #[trigger] s.process_groups->0@[i];
                &&& c.pid == g.root_pid
                &&& c.name == g.name
                &&& c.display_name == g.display_name
                &&& c.bytes == holds(g.phys_footprint_bytes, g.memory_bytes)
                &&& c.process_count == g.process_count
            })
    } else {
        s.processes is Some && exists|i: int|
            0 <= i < s.processes->0@.len() && ({
                let p = #[trigger] s.processes->0@[i];
                &&& c.pid == p.pid
                &&& c.name == p.name
                &&& c.display_name == p.display_name
                &&& c.bytes == holds(p.phys_footprint_bytes, p.memory_bytes)
                &&& c.process_count == 1
            })
    }
}

/// Whether a holder is told as it should be: it is one of the snapshot's, with its
/// share of all memory, rounded down, and holds more than a twentieth.
pub open spec fn told_right(c: MemoryConsumer, s: SystemSnapshot) -> bool {
    &&& is_holder(c, s)
    &&& c.bytes * 20 > s.memory.total_bytes
    &&& is_share(c.share_percent, c.bytes, s.memory.total_bytes)
}

/// The notable applications, and how many hold more.
proof fn lemma_groups(groups: Seq<ProcessGroupSnapshot>, total: u64, bytes: int)
    ensures
        count(notable_groups(groups, total), |c: MemoryConsumer| c.bytes > bytes) == count(
            groups,
            |g: ProcessGroupSnapshot|
                {
                    let held = holds(g.phys_footprint_bytes, g.memory_bytes);
                    held * 20 > total && held > bytes
                },
        ),
        forall|k: int|
            0 <= k < notable_groups(groups, total).len() ==> exists|i: int|
                0 <= i < groups.len() && (#[trigger] notable_groups(groups, total)[k])
                    == group_consumer(#[trigger] groups[i], total),
        forall|k: int|
            0 <= k < notable_groups(groups, total).len() ==> (#[trigger] notable_groups(
                groups,
                total,
            )[k]).bytes * 20 > total,
    decreases groups.len(),
{
    if groups.len() > 0 {
        let rest = groups.drop_last();
        lemma_groups(rest, total, bytes);
        let all = notable_groups(groups, total);
        let few = notable_groups(rest, total);
        let c = group_consumer(groups.last(), total);
        if notable(c.bytes, total) {
            assert(all.drop_last() =~= few);
        }
        assert forall|k: int| 0 <= k < all.len() implies exists|i: int|
            0 <= i < groups.len() && (#[trigger] all[k]) == group_consumer(
                #[trigger] groups[i],
                total,
            ) by {
            if k < few.len() {
                assert(all[k] == few[k]);
                let i = choose|i: int|
                    0 <= i < rest.len() && few[k] == group_consumer(#[trigger] rest[i], total);
                assert(groups[i] == rest[i]);
            } else {
                assert(all[k] == group_consumer(groups[groups.len() - 1], total));
            }
        }
        assert forall|k: int| 0 <= k < all.len() implies (#[trigger] all[k]).bytes * 20 > total by {
            if k < few.len() {
                assert(all[k] == few[k]);
            }
        }
    }
}

/// The notable processes, and how many hold more.
proof fn lemma_processes(processes: Seq<ProcessSnapshot>, total: u64, bytes: int)
    ensures
        count(notable_processes(processes, total), |c: MemoryConsumer| c.bytes > bytes) == count(
            processes,
            |p: ProcessSnapshot|
                {
                    let held = holds(p.phys_footprint_bytes, p.memory_bytes);
                    held * 20 > total && held > bytes
                },
        ),
        forall|k: int|
            0 <= k < notable_processes(processes, total).len() ==> exists|i: int|
                0 <= i < processes.len() && (#[trigger] notable_processes(processes, total)[k])
                    == process_consumer(#[trigger] processes[i], total),
        forall|k: int|
            0 <= k < notable_processes(processes, total).len() ==> (#[trigger] notable_processes(
                processes,
                total,
            )[k]).bytes * 20 > total,
    decreases processes.len(),
{
    if processes.len() > 0 {
        let rest = processes.drop_last();
        lemma_processes(rest, total, bytes);
        let all = notable_processes(processes, total);
        let few = notable_processes(rest, total);
        let c = process_consumer(processes.last(), total);
        if notable(c.bytes, total) {
            assert(all.drop_last() =~= few);
        }
        assert forall|k: int| 0 <= k < all.len() implies exists|i: int|
            0 <= i < processes.len() && (#[trigger] all[k]) == process_consumer(
                #[trigger] processes[i],
                total,
            ) by {
            if k < few.len() {
                assert(all[k] == few[k]);
                let i = choose|i: int|
                    0 <= i < rest.len() && few[k] == process_consumer(#[trigger] rest[i], total);
                assert(processes[i] == rest[i]);
            } else {
                assert(all[k] == process_consumer(processes[processes.len() - 1], total));
            }
        }
        assert forall|k: int| 0 <= k < all.len() implies (#[trigger] all[k]).bytes * 20 > total by {
            if k < few.len() {
                assert(all[k] == few[k]);
            }
        }
    }
}

/// The candidates, told as they should be.
proof fn lemma_candidates(s: SystemSnapshot, bytes: int)
    ensures
        count(candidates(s), |c: MemoryConsumer| c.bytes > bytes) == holding_more(s, bytes),
        forall|k: int| 0 <= k < candidates(s).len() ==> told_right(#[trigger] candidates(s)[k], s),
{
    let total = s.memory.total_bytes;
    let list = candidates(s);
    if s.process_groups is Some {
        let groups = s.process_groups->0@;
        lemma_groups(groups, total, bytes);
        assert forall|k: int| 0 <= k < list.len() implies told_right(#[trigger] list[k], s) by {
            let c = list[k];
            let i = choose|i: int|
                0 <= i < groups.len() && c == group_consumer(#[trigger] groups[i], total);
            assert(c.pid == groups[i].root_pid);
            law_percentage_is_the_share(c.bytes, total);
        }
    } else if s.processes is Some {
        let processes = s.processes->0@;
        lemma_processes(processes, total, bytes);
        assert forall|k: int| 0 <= k < list.len() implies told_right(#[trigger] list[k], s) by {
            let c = list[k];
            let i = choose|i: int|
                0 <= i < processes.len() && c == process_consumer(#[trigger] processes[i], total);
            assert(c.pid == processes[i].pid);
            law_percentage_is_the_share(c.bytes, total);
        }
    } else {
        assert(count(list, |c: MemoryConsumer| c.bytes > bytes) == 0);
    }
}

/// Those told of as the largest holders of memory are the largest: there are three
/// where there are as many that hold more than a twentieth of all memory, no one
/// holds more than the first, at most one more than the second, and at most two more
/// than the third.
pub proof fn law_largest_holders(s: SystemSnapshot)
    ensures
        ({
            let top = consumers_of(s);
            let all = holding_more(s, -1);
            &&& top.first is Some <==> all >= 1
            &&& top.second is Some <==> all >= 2
            &&& top.third is Some <==> all >= 3
            &&& top.first is Some ==> told_right(top.first->0, s) && holding_more(
                s,
                top.first->0.bytes as int,
            ) == 0
            &&& top.second is Some ==> told_right(top.second->0, s) && holding_more(
                s,
                top.second->0.bytes as int,
            ) <= 1 && top.second->0.bytes <= top.first->0.bytes
            &&& top.third is Some ==> told_right(top.third->0, s) && holding_more(
                s,
                top.third->0.bytes as int,
            ) <= 2 && top.third->0.bytes <= top.second->0.bytes
        }),
{
    let list = candidates(s);
    let ranked = arranged::<MemoryConsumer, LargestConsumer>(list);
    assert(weak_order::<MemoryConsumer, LargestConsumer>());
    law_arranged_is_in_order::<MemoryConsumer, LargestConsumer>(list);
    lemma_candidates(s, -1);
    let any = |c: MemoryConsumer| c.bytes > -1;
    lemma_count_all(list, any);
    assert forall|k: int| 0 <= k < list.len() implies any(#[trigger] list[k]) by {}
    assert forall|k: int| 0 <= k < ranked.len() implies told_right(#[trigger] ranked[k], s)
        && holding_more(s, ranked[k].bytes as int) <= k && ranked.len() == list.len() by {
        let c = ranked[k];
        lemma_arranged_contains::<MemoryConsumer, LargestConsumer>(list, c);
        assert(ranked.contains(c));
        let m = choose|m: int| 0 <= m < list.len() && list[m] == c;
        assert(told_right(list[m], s));
        lemma_candidates(s, c.bytes as int);
        let which = |x: MemoryConsumer| x.bytes > c.bytes as int;
        lemma_count_arranged::<MemoryConsumer, LargestConsumer>(list, which);
        lemma_count_parts(ranked, k, which);
        lemma_count_all(ranked.take(k), which);
        let after = ranked.skip(k);
        assert forall|j: int| 0 <= j < after.len() implies !which(#[trigger] after[j]) by {
            if j > 0 {
                assert(!LargestConsumer::before(ranked[k + j], ranked[k]));
            }
        }
        lemma_count_all(after, which);
    }
    law_arranged_keeps_values::<MemoryConsumer, LargestConsumer>(list);
    if ranked.len() > 1 {
        assert(!LargestConsumer::before(ranked[1], ranked[0]));
    }
    if ranked.len() > 2 {
        assert(!LargestConsumer::before(ranked[2], ranked[1]));
    }
}

} // verus!
