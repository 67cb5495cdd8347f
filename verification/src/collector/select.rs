//! Which processes a snapshot keeps.
use vstd::prelude::*;
use crate::order::{
    arrange, arranged, count, in_order, law_arranged_is_in_order, law_arranged_keeps_values,
    lemma_arranged_contains, lemma_count_all, lemma_count_arranged, lemma_count_monotone,
    lemma_count_parts, weak_order, Order,
};

verus! {

/// What a process is ranked by.
#[derive(Debug, Clone, Copy, PartialEq, Eq, Structural)]
pub struct ProcKey {
    pub pid: u32,
    /// Millionths of a percent of one core
    pub cpu: u64,
    pub mem: u64,
}

/// More processor use first, then more memory, then the lower pid.
pub struct ByCpuThenMemory;

/// More memory first, then more processor use, then the lower pid.
pub struct ByMemory;

impl Order<ProcKey> for ByCpuThenMemory {
    open spec fn before(a: ProcKey, b: ProcKey) -> bool {
        a.cpu > b.cpu || (a.cpu == b.cpu && (a.mem > b.mem || (a.mem == b.mem && a.pid < b.pid)))
    }

    fn goes_before(a: &ProcKey, b: &ProcKey) -> (r: bool) {
        a.cpu > b.cpu || (a.cpu == b.cpu && (a.mem > b.mem || (a.mem == b.mem && a.pid < b.pid)))
    }
}

impl Order<ProcKey> for ByMemory {
    open spec fn before(a: ProcKey, b: ProcKey) -> bool {
        a.mem > b.mem || (a.mem == b.mem && (a.cpu > b.cpu || (a.cpu == b.cpu && a.pid < b.pid)))
    }

    fn goes_before(a: &ProcKey, b: &ProcKey) -> (r: bool) {
        a.mem > b.mem || (a.mem == b.mem && (a.cpu > b.cpu || (a.cpu == b.cpu && a.pid < b.pid)))
    }
}

/// The processes by processor use.
pub open spec fn by_cpu(keys: Seq<ProcKey>) -> Seq<ProcKey> {
    arranged::<ProcKey, ByCpuThenMemory>(keys)
}

/// The processes by memory.
pub open spec fn by_memory(keys: Seq<ProcKey>) -> Seq<ProcKey> {
    arranged::<ProcKey, ByMemory>(keys)
}

/// The processes that are kept, by processor use. Where there are more than
/// `max`, half of the places go to the busiest and the others to those of the
/// rest that hold most memory.
pub open spec fn selected(keys: Seq<ProcKey>, max: nat) -> Seq<ProcKey> {
    let ranked = by_cpu(keys);
    if keys.len() <= max {
        ranked
    } else {
        let busiest = ranked.take((max / 2) as int);
        let largest = by_memory(ranked.skip((max / 2) as int)).take(max - max / 2);
        by_cpu(busiest + largest)
    }
}

/// The pids of the processes.
pub open spec fn pids_of(keys: Seq<ProcKey>) -> Seq<u32> {
    keys.map_values(|k: ProcKey| k.pid)
}

/// The pids of the processes that are kept, by processor use.
pub fn select_top_pids(keys: Vec<ProcKey>, max: usize) -> (r: Vec<u32>)
    ensures
        r@ == pids_of(selected(keys@, max as nat)),
{
    let n: usize = keys.len();
    let mut ranked = arrange::<ProcKey, ByCpuThenMemory>(keys);
    proof {
        law_arranged_keeps_values::<ProcKey, ByCpuThenMemory>(keys@);
    }
    if n > max {
        let budget: usize = max / 2;
        let rest = ranked.split_off(budget);
        proof {
            law_arranged_keeps_values::<ProcKey, ByMemory>(rest@);
        }
        let mut largest = arrange::<ProcKey, ByMemory>(rest);
        largest.truncate(max - budget);
        proof {
            assert(ranked@ =~= by_cpu(keys@).take(budget as int));
            assert(rest@ =~= by_cpu(keys@).skip(budget as int));
            assert(largest@ =~= by_memory(rest@).take(max - budget));
        }
        ranked.append(&mut largest);
        ranked = arrange::<ProcKey, ByCpuThenMemory>(ranked);
    }
    let mut pids: Vec<u32> = Vec::new();
    for i in 0..ranked.len()
        invariant
            pids@ =~= pids_of(ranked@.take(i as int)),
    {
        pids.push(ranked[i].pid);
    }
    assert(ranked@.take(ranked.len() as int) =~= ranked@);
    pids
}

/// At most `max` processes are kept, and all of them where there are no more.
pub proof fn law_selection_size(keys: Seq<ProcKey>, max: nat)
    ensures
        selected(keys, max).len() == if keys.len() <= max {
            keys.len()
        } else {
            max
        },
{
    law_arranged_keeps_values::<ProcKey, ByCpuThenMemory>(keys);
    if keys.len() > max {
        let ranked = by_cpu(keys);
        let rest = ranked.skip((max / 2) as int);
        law_arranged_keeps_values::<ProcKey, ByMemory>(rest);
        let busiest = ranked.take((max / 2) as int);
        let largest = by_memory(rest).take(max - max / 2);
        law_arranged_keeps_values::<ProcKey, ByCpuThenMemory>(busiest + largest);
    }
}

/// What is kept is in the order of processor use.
pub proof fn law_selection_is_by_cpu(keys: Seq<ProcKey>, max: nat)
    ensures
        in_order::<ProcKey, ByCpuThenMemory>(selected(keys, max)),
{
    assert(weak_order::<ProcKey, ByCpuThenMemory>());
    law_arranged_is_in_order::<ProcKey, ByCpuThenMemory>(keys);
    if keys.len() > max {
        let ranked = by_cpu(keys);
        let busiest = ranked.take((max / 2) as int);
        let largest = by_memory(ranked.skip((max / 2) as int)).take(max - max / 2);
        law_arranged_is_in_order::<ProcKey, ByCpuThenMemory>(busiest + largest);
    }
}

/// The process that holds more memory than any other is kept whenever there is
/// a place at all, however busy the others are.
pub proof fn law_largest_process_is_kept(keys: Seq<ProcKey>, max: nat, hog: ProcKey)
    requires
        max >= 1,
        keys.contains(hog),
        forall|i: int| 0 <= i < keys.len() && keys[i] != hog ==> (#[trigger] keys[i]).mem < hog.mem,
    ensures
        selected(keys, max).contains(hog),
{
    broadcast use vstd::seq_lib::group_to_multiset_ensures;

    law_arranged_keeps_values::<ProcKey, ByCpuThenMemory>(keys);
    let ranked = by_cpu(keys);
    assert(keys.to_multiset().contains(hog));
    assert(ranked.contains(hog));
    if keys.len() > max {
        let half = (max / 2) as int;
        let busiest = ranked.take(half);
        let rest = ranked.skip(half);
        let largest = by_memory(rest).take(max - half);
        let both = busiest + largest;
        law_arranged_keeps_values::<ProcKey, ByMemory>(rest);
        law_arranged_keeps_values::<ProcKey, ByCpuThenMemory>(both);
        let k = choose|k: int| 0 <= k < ranked.len() && ranked[k] == hog;
        if k < half {
            assert(busiest[k] == hog);
            assert(both[k] == hog);
        } else {
            assert(rest[k - half] == hog);
            assert(rest.contains(hog));
            let order = by_memory(rest);
            assert(order.to_multiset().contains(hog));
            assert(order.contains(hog));
            assert(weak_order::<ProcKey, ByMemory>());
            law_arranged_is_in_order::<ProcKey, ByMemory>(rest);
            let first = order[0];
            assert(order.contains(first));
            assert(rest.to_multiset().contains(first));
            assert(rest.contains(first));
            let a = choose|a: int| 0 <= a < rest.len() && rest[a] == first;
            assert(ranked[a + half] == first);
            assert(ranked.contains(first));
            assert(keys.to_multiset().contains(first));
            assert(keys.contains(first));
            let b = choose|b: int| 0 <= b < keys.len() && keys[b] == first;
            if first != hog {
                assert(keys[b].mem < hog.mem);
                let c = choose|c: int| 0 <= c < order.len() && order[c] == hog;
                assert(!ByMemory::before(order[c], order[0]));
            }
            assert(largest[0] == hog);
            assert(both[half] == hog);
        }
        assert(both.contains(hog));
        assert(both.to_multiset().contains(hog));
        assert(by_cpu(both).to_multiset().contains(hog));
    }
}

/// What is kept is among the processes.
pub proof fn lemma_selected_from(keys: Seq<ProcKey>, max: nat)
    ensures
        forall|k: ProcKey| #[trigger] selected(keys, max).contains(k) ==> keys.contains(k),
{
    broadcast use vstd::seq_lib::group_to_multiset_ensures;

    law_arranged_keeps_values::<ProcKey, ByCpuThenMemory>(keys);
    let ranked = by_cpu(keys);
    assert forall|k: ProcKey| ranked.contains(k) implies keys.contains(k) by {
        assert(ranked.to_multiset().contains(k));
        assert(keys.to_multiset().contains(k));
    }
    if keys.len() > max {
        let half = (max / 2) as int;
        let busiest = ranked.take(half);
        let rest = ranked.skip(half);
        let order = by_memory(rest);
        let largest = order.take(max - half);
        let both = busiest + largest;
        law_arranged_keeps_values::<ProcKey, ByMemory>(rest);
        law_arranged_keeps_values::<ProcKey, ByCpuThenMemory>(both);
        assert forall|k: ProcKey| #[trigger] selected(keys, max).contains(k) implies keys.contains(
            k,
        ) by {
            assert(by_cpu(both).to_multiset().contains(k));
            assert(both.to_multiset().contains(k));
            assert(both.contains(k));
            let j = choose|j: int| 0 <= j < both.len() && both[j] == k;
            if j < half {
                assert(ranked[j] == k);
                assert(ranked.contains(k));
            } else {
                assert(order[j - half] == k);
                assert(order.contains(k));
                assert(order.to_multiset().contains(k));
                assert(rest.to_multiset().contains(k));
                assert(rest.contains(k));
                let a = choose|a: int| 0 <= a < rest.len() && rest[a] == k;
                assert(ranked[a + half] == k);
                assert(ranked.contains(k));
            }
        }
    }
}

/// Whether a process is busier than another, or as busy and larger, or alike in
/// both with the lower pid.
pub open spec fn busier(a: ProcKey, b: ProcKey) -> bool {
    ||| a.cpu > b.cpu
    ||| a.cpu == b.cpu && a.mem > b.mem
    ||| a.cpu == b.cpu && a.mem == b.mem && a.pid < b.pid
}

/// Whether a process is larger than another, or as large and busier, or alike in
/// both with the lower pid.
pub open spec fn larger(a: ProcKey, b: ProcKey) -> bool {
    ||| a.mem > b.mem
    ||| a.mem == b.mem && a.cpu > b.cpu
    ||| a.mem == b.mem && a.cpu == b.cpu && a.pid < b.pid
}

/// How many processes are busier than one.
pub open spec fn busier_ones(keys: Seq<ProcKey>, k: ProcKey) -> nat {
    count(keys, |x: ProcKey| busier(x, k))
}

/// How many processes are larger than one, those left out that are among the
/// `places` busiest.
pub open spec fn larger_ones(keys: Seq<ProcKey>, places: nat, k: ProcKey) -> nat {
    count(keys, |x: ProcKey| larger(x, k) && busier_ones(keys, x) >= places)
}

/// In a list by processor use without repetition, as many processes are busier
/// than one as stand before it.
proof fn lemma_rank(keys: Seq<ProcKey>, i: int)
    requires
        keys.no_duplicates(),
        0 <= i < by_cpu(keys).len(),
    ensures
        busier_ones(keys, by_cpu(keys)[i]) == i,
{
    let ranked = by_cpu(keys);
    let k = ranked[i];
    let which = |x: ProcKey| busier(x, k);
    lemma_count_arranged::<ProcKey, ByCpuThenMemory>(keys, which);
    lemma_arranged_apart::<ByCpuThenMemory>(keys);
    assert(weak_order::<ProcKey, ByCpuThenMemory>());
    law_arranged_is_in_order::<ProcKey, ByCpuThenMemory>(keys);
    lemma_count_parts(ranked, i, which);
    let before = ranked.take(i);
    let after = ranked.skip(i);
    assert forall|j: int| 0 <= j < before.len() implies which(#[trigger] before[j]) by {
        assert(!ByCpuThenMemory::before(ranked[i], ranked[j]));
        assert(ranked[i] != ranked[j]);
    }
    assert forall|j: int| 0 <= j < after.len() implies !which(#[trigger] after[j]) by {
        if j > 0 {
            assert(!ByCpuThenMemory::before(ranked[i + j], ranked[i]));
        }
    }
    lemma_count_all(before, which);
    lemma_count_all(after, which);
}

/// Putting processes in order repeats none.
proof fn lemma_arranged_apart<O: Order<ProcKey>>(keys: Seq<ProcKey>)
    requires
        keys.no_duplicates(),
    ensures
        arranged::<ProcKey, O>(keys).no_duplicates(),
        arranged::<ProcKey, O>(keys).len() == keys.len(),
{
    law_arranged_keeps_values::<ProcKey, O>(keys);
    keys.lemma_multiset_has_no_duplicates();
    arranged::<ProcKey, O>(keys).lemma_multiset_has_no_duplicates_conv();
}

/// Half of the places go to the busiest processes, however much memory the
/// others hold, and the other places to those of the rest that hold most. A
/// process is kept exactly if there is a place for all, or fewer are busier than
/// half of the places, or fewer of the rest are larger than the other half.
pub proof fn law_who_is_kept(keys: Seq<ProcKey>, max: nat, k: ProcKey)
    requires
        keys.no_duplicates(),
        keys.contains(k),
    ensures
        selected(keys, max).contains(k) <==> {
            ||| keys.len() <= max
            ||| busier_ones(keys, k) < max / 2
            ||| larger_ones(keys, max / 2, k) < max - max / 2
        },
{
    let ranked = by_cpu(keys);
    lemma_arranged_contains::<ProcKey, ByCpuThenMemory>(keys, k);
    lemma_arranged_apart::<ByCpuThenMemory>(keys);
    if keys.len() > max {
        let half = (max / 2) as int;
        let busiest = ranked.take(half);
        let rest = ranked.skip(half);
        assert(rest.no_duplicates());
        let order = by_memory(rest);
        lemma_arranged_apart::<ByMemory>(rest);
        let largest = order.take(max - half);
        let both = busiest + largest;
        lemma_arranged_contains::<ProcKey, ByCpuThenMemory>(both, k);
        lemma_arranged_contains::<ProcKey, ByMemory>(rest, k);
        let at = choose|at: int| 0 <= at < ranked.len() && ranked[at] == k;
        lemma_rank(keys, at);
        let which = |x: ProcKey| larger(x, k) && busier_ones(keys, x) >= max / 2;
        let mere = |x: ProcKey| larger(x, k);
        lemma_count_arranged::<ProcKey, ByCpuThenMemory>(keys, which);
        lemma_count_parts(ranked, half, which);
        assert forall|j: int| 0 <= j < busiest.len() implies !which(#[trigger] busiest[j]) by {
            lemma_rank(keys, j);
        }
        lemma_count_all(busiest, which);
        assert forall|j: int| 0 <= j < rest.len() && which(#[trigger] rest[j]) implies mere(
            rest[j],
        ) by {}
        assert forall|j: int| 0 <= j < rest.len() && mere(#[trigger] rest[j]) implies which(
            rest[j],
        ) by {
            lemma_rank(keys, half + j);
        }
        lemma_count_monotone(rest, which, mere);
        lemma_count_monotone(rest, mere, which);
        lemma_count_arranged::<ProcKey, ByMemory>(rest, mere);
        assert(larger_ones(keys, max / 2, k) == count(order, mere));
        if at < half {
            assert(both[at] == k);
            assert(both.contains(k));
        } else {
            assert(rest[at - half] == k);
            assert(rest.contains(k));
            let p = choose|p: int| 0 <= p < order.len() && order[p] == k;
            assert(weak_order::<ProcKey, ByMemory>());
            law_arranged_is_in_order::<ProcKey, ByMemory>(rest);
            lemma_count_parts(order, p, mere);
            let before = order.take(p);
            let after = order.skip(p);
            assert forall|j: int| 0 <= j < before.len() implies mere(#[trigger] before[j]) by {
                assert(!ByMemory::before(order[p], order[j]));
                assert(order[p] != order[j]);
            }
            assert forall|j: int| 0 <= j < after.len() implies !mere(#[trigger] after[j]) by {
                if j > 0 {
                    assert(!ByMemory::before(order[p + j], order[p]));
                }
            }
            lemma_count_all(before, mere);
            lemma_count_all(after, mere);
            assert(count(order, mere) == p);
            if p < max - half {
                assert(both[half + p] == k);
                assert(both.contains(k));
            } else if both.contains(k) {
                let j = choose|j: int| 0 <= j < both.len() && both[j] == k;
                if j < half {
                    assert(ranked[j] == ranked[at]);
                } else {
                    assert(order[j - half] == order[p]);
                }
            }
        }
    }
}

/// With two places or more the busiest process is kept.
pub proof fn law_busiest_process_is_kept(keys: Seq<ProcKey>, max: nat, k: ProcKey)
    requires
        max >= 2,
        keys.no_duplicates(),
        keys.contains(k),
        forall|i: int| 0 <= i < keys.len() ==> !busier(#[trigger] keys[i], k),
    ensures
        selected(keys, max).contains(k),
{
    let which = |x: ProcKey| busier(x, k);
    assert forall|i: int| 0 <= i < keys.len() implies !which(#[trigger] keys[i]) by {}
    lemma_count_all(keys, which);
    law_who_is_kept(keys, max, k);
}

/// What is kept comes in the order of processor use, then of memory, then of
/// pids; no process is kept twice, and none that is not there. As many are kept
/// as there are places or processes. The pids are theirs, in the same order.
pub proof fn law_kept_in_order(keys: Seq<ProcKey>, max: nat)
    requires
        keys.no_duplicates(),
    ensures
        ({
            let kept = selected(keys, max);
            &&& forall|i: int, j: int|
                0 <= i < j < kept.len() ==> busier(#[trigger] kept[i], #[trigger] kept[j])
            &&& forall|i: int| 0 <= i < kept.len() ==> keys.contains(#[trigger] kept[i])
            &&& kept.len() == if keys.len() <= max {
                keys.len()
            } else {
                max
            }
            &&& pids_of(kept).len() == kept.len()
            &&& forall|i: int|
                0 <= i < kept.len() ==> (#[trigger] pids_of(kept)[i]) == kept[i].pid
        }),
{
    let kept = selected(keys, max);
    law_selection_is_by_cpu(keys, max);
    law_selection_size(keys, max);
    lemma_selected_from(keys, max);
    lemma_arranged_apart::<ByCpuThenMemory>(keys);
    if keys.len() > max {
        let ranked = by_cpu(keys);
        let half = (max / 2) as int;
        let busiest = ranked.take(half);
        let rest = ranked.skip(half);
        lemma_arranged_apart::<ByMemory>(rest);
        let order = by_memory(rest);
        let largest = order.take(max - half);
        let both = busiest + largest;
        assert forall|i: int, j: int| 0 <= i < j < both.len() implies both[i] != both[j] by {
            if i < half && j >= half {
                lemma_arranged_contains::<ProcKey, ByMemory>(rest, both[j]);
                assert(order[j - half] == both[j]);
                let a = choose|a: int| 0 <= a < rest.len() && rest[a] == both[j];
                assert(ranked[half + a] == both[j]);
                assert(ranked[i] == both[i]);
            }
        }
        lemma_arranged_apart::<ByCpuThenMemory>(both);
    }
    assert forall|i: int, j: int| 0 <= i < j < kept.len() implies busier(
        #[trigger] kept[i],
        #[trigger] kept[j],
    ) by {
        assert(kept[i] != kept[j]);
        assert(!ByCpuThenMemory::before(kept[j], kept[i]));
    }
    assert forall|i: int| 0 <= i < kept.len() implies keys.contains(#[trigger] kept[i]) by {
        assert(kept.contains(kept[i]));
    }
}

} // verus!
