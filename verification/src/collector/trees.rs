//! What adding up process trees promises, in terms of the table of processes.
use vstd::prelude::*;
use super::groups::{
    all_groups, ancestor, distinct_roots, has_footprint, law_root_is_the_top_of_the_tree,
    lemma_ancestor_stable, lemma_distinct, lemma_distinct_from, lemma_node_map, lemma_roots_known,
    lemma_top_of_parent, link, links_end, members, node_map, roots_of, top, top_groups, total_cpu,
    total_footprint, total_mem, total_read, total_written, totals_of, ByGroupRank, GroupTotals,
    ProcNode, MAX_DEPTH,
};
use crate::order::{
    arranged, law_arranged_is_in_order, law_arranged_keeps_values, lemma_arranged_contains,
    weak_order, Order,
};

verus! {

/// A process as the table has it: its pid and what is known of it.
pub type Entry = (u32, ProcNode);

/// Whether each pid occurs once.
pub open spec fn pids_differ(table: Seq<Entry>) -> bool {
    forall|i: int, j: int|
        0 <= i < table.len() && 0 <= j < table.len() && (#[trigger] table[i]).0 == (
        #[trigger] table[j]).0 ==> i == j
}

/// Whether one process is the child of another: it names it as its parent, which is
/// not the first process of the system nor the child itself, and the parent did
/// not start later. However long after its parent a child started, it is its
/// child; where either time is unknown, nothing speaks against it.
pub open spec fn is_child(child: Entry, parent: Entry) -> bool {
    &&& child.1.parent == Some(parent.0)
    &&& parent.0 != 1
    &&& parent.0 != child.0
    &&& child.1.start_time_secs == 0 || parent.1.start_time_secs == 0 || parent.1.start_time_secs
        <= child.1.start_time_secs
}

/// Whether each of the places in the table holds a child of the next one.
pub open spec fn is_line(table: Seq<Entry>, line: Seq<int>) -> bool {
    &&& forall|k: int| 0 <= k < line.len() ==> 0 <= #[trigger] line[k] < table.len()
    &&& forall|k: int|
        0 <= k < line.len() - 1 ==> is_child(table[#[trigger] line[k]], table[line[k + 1]])
}

/// Whether no line of children has more than 512 processes.
pub open spec fn lines_are_short(table: Seq<Entry>) -> bool {
    forall|line: Seq<int>| #[trigger] is_line(table, line) ==> line.len() <= 512
}

/// What `figure` says of the processes with that root, added up.
pub open spec fn tally(
    table: Seq<Entry>,
    roots: Map<u32, u32>,
    root: u32,
    figure: spec_fn(ProcNode) -> int,
) -> int
    decreases table.len(),
{
    if table.len() == 0 {
        0
    } else {
        tally(table.drop_last(), roots, root, figure) + if roots[table.last().0] == root {
            figure(table.last().1)
        } else {
            0
        }
    }
}

/// A sum in 64 bits.
pub open spec fn fits(sum: int, r: u64) -> bool {
    r == if sum <= 0xffff_ffff_ffff_ffff {
        sum
    } else {
        0xffff_ffff_ffff_ffff
    }
}

/// Whether the totals are those of the processes with their root: how many there
/// are, their processor use, their memory, their footprints, where a process
/// without one counts with its memory, and what they read and wrote, where any is
/// known.
pub open spec fn adds_up(g: GroupTotals, table: Seq<Entry>, roots: Map<u32, u32>) -> bool {
    let root = g.root_pid;
    &&& g.process_count == tally(table, roots, root, |n: ProcNode| 1)
    &&& fits(tally(table, roots, root, |n: ProcNode| n.cpu as int), g.cpu)
    &&& fits(tally(table, roots, root, |n: ProcNode| n.mem as int), g.mem)
    &&& fits(
        tally(
            table,
            roots,
            root,
            |n: ProcNode|
                match n.footprint {
                    Some(bytes) => bytes as int,
                    None => n.mem as int,
                },
        ),
        g.footprint_sum,
    )
    &&& g.any_footprint <==> exists|i: int|
        0 <= i < table.len() && roots[(#[trigger] table[i]).0] == root
            && table[i].1.footprint is Some
    &&& g.read_bytes is Some <==> exists|i: int|
        0 <= i < table.len() && roots[(#[trigger] table[i]).0] == root && table[i].1.io is Some
    &&& g.written_bytes is Some <==> g.read_bytes is Some
    &&& g.read_bytes is Some ==> fits(
        tally(
            table,
            roots,
            root,
            |n: ProcNode|
                match n.io {
                    Some((read, written)) => read as int,
                    None => 0,
                },
        ),
        g.read_bytes->0,
    )
    &&& g.written_bytes is Some ==> fits(
        tally(
            table,
            roots,
            root,
            |n: ProcNode|
                match n.io {
                    Some((read, written)) => written as int,
                    None => 0,
                },
        ),
        g.written_bytes->0,
    )
}

/// Whether a tree stands before another: by processor use, then by memory, then by
/// the lower pid.
pub open spec fn outranks(a: GroupTotals, b: GroupTotals) -> bool {
    ||| a.cpu > b.cpu
    ||| a.cpu == b.cpu && a.mem > b.mem
    ||| a.cpu == b.cpu && a.mem == b.mem && a.root_pid < b.root_pid
}

/// Where each pid occurs once, the map of the table holds its entries.
proof fn lemma_entry(table: Seq<Entry>, i: int)
    requires
        pids_differ(table),
        0 <= i < table.len(),
    ensures
        node_map(table).contains_key(table[i].0),
        node_map(table)[table[i].0] == table[i].1,
    decreases table.len(),
{
    let rest = table.drop_last();
    if i < rest.len() {
        assert forall|a: int, b: int|
            0 <= a < rest.len() && 0 <= b < rest.len() && (#[trigger] rest[a]).0 == (
            #[trigger] rest[b]).0 implies a == b by {
            assert(table[a].0 == table[b].0);
        }
        assert(rest[i] == table[i]);
        lemma_entry(rest, i);
        assert(table[table.len() - 1].0 != table[i].0);
    }
}

/// The link from a process leads to the process it is a child of.
proof fn lemma_link(table: Seq<Entry>, i: int)
    requires
        pids_differ(table),
        0 <= i < table.len(),
    ensures
        forall|j: int|
            0 <= j < table.len() && is_child(table[i], #[trigger] table[j]) ==> link(
                node_map(table),
                table[i].0,
            ) == Some(table[j].0),
        link(node_map(table), table[i].0) is Some ==> exists|j: int|
            0 <= j < table.len() && is_child(table[i], #[trigger] table[j]) && table[j].0 == link(
                node_map(table),
                table[i].0,
            )->0,
{
    let nodes = node_map(table);
    lemma_entry(table, i);
    assert forall|j: int| 0 <= j < table.len() && is_child(table[i], #[trigger] table[j]) implies
        link(nodes, table[i].0) == Some(table[j].0) by {
        lemma_entry(table, j);
    }
    if link(nodes, table[i].0) is Some {
        let parent = link(nodes, table[i].0)->0;
        lemma_node_map(table, parent);
        let j = choose|j: int| 0 <= j < table.len() && (#[trigger] table[j]).0 == parent;
        lemma_entry(table, j);
        assert(is_child(table[i], table[j]));
    }
}

/// One more link.
proof fn lemma_next_ancestor(nodes: Map<u32, ProcNode>, pid: u32, k: nat)
    requires
        link(nodes, ancestor(nodes, pid, k)) is Some,
    ensures
        ancestor(nodes, pid, k + 1) == link(nodes, ancestor(nodes, pid, k))->0,
    decreases k,
{
    if k > 0 && link(nodes, pid) is Some {
        lemma_next_ancestor(nodes, link(nodes, pid)->0, (k - 1) as nat);
    } else if k == 0 {
        let p = link(nodes, pid)->0;
        assert(ancestor(nodes, pid, 1) == ancestor(nodes, p, 0));
    }
}

/// The place of a pid in the table.
spec fn place(table: Seq<Entry>, pid: u32) -> int {
    choose|i: int| 0 <= i < table.len() && (#[trigger] table[i]).0 == pid
}

/// Short lines end within the limit.
proof fn lemma_short_lines(table: Seq<Entry>)
    requires
        pids_differ(table),
        lines_are_short(table),
    ensures
        links_end(node_map(table)),
{
    let nodes = node_map(table);
    let n = (MAX_DEPTH - 1) as nat;
    assert forall|pid: u32| link(nodes, #[trigger] ancestor(nodes, pid, n)) is None by {
        if link(nodes, ancestor(nodes, pid, n)) is Some {
            let line = Seq::new(n + 2, |k: int| place(table, ancestor(nodes, pid, k as nat)));
            assert forall|k: int| 0 <= k <= n implies link(
                nodes,
                #[trigger] ancestor(nodes, pid, k as nat),
            ) is Some by {
                if link(nodes, ancestor(nodes, pid, k as nat)) is None {
                    lemma_ancestor_stable(nodes, pid, k as nat, n);
                }
            }
            assert forall|k: int| 0 <= k < line.len() implies 0 <= #[trigger] line[k] < table.len()
                && table[line[k]].0 == ancestor(nodes, pid, k as nat) by {
                let p = ancestor(nodes, pid, k as nat);
                if k > 0 {
                    let q = ancestor(nodes, pid, (k - 1) as nat);
                    assert(link(nodes, q) is Some);
                    lemma_next_ancestor(nodes, pid, (k - 1) as nat);
                } else {
                    assert(link(nodes, p) is Some);
                }
                assert(nodes.contains_key(p));
                lemma_node_map(table, p);
            }
            assert forall|k: int| 0 <= k < line.len() - 1 implies is_child(
                table[#[trigger] line[k]],
                table[line[k + 1]],
            ) by {
                let p = ancestor(nodes, pid, k as nat);
                assert(link(nodes, p) is Some);
                assert(table[line[k]].0 == p);
                lemma_next_ancestor(nodes, pid, k as nat);
                lemma_link(table, line[k]);
                let j = choose|j: int|
                    0 <= j < table.len() && is_child(table[line[k]], #[trigger] table[j])
                        && table[j].0 == link(nodes, p)->0;
                assert(table[line[k + 1]].0 == table[j].0);
                assert(line[k + 1] == j);
            }
            assert(is_line(table, line));
        }
    }
}

/// The figures of the members of a tree, added up, are those of the table.
proof fn lemma_tallies(table: Seq<Entry>, roots: Map<u32, u32>, root: u32)
    requires
        table.len() <= u32::MAX,
    ensures
        ({
            let s = members(table, roots, root);
            &&& s.len() <= table.len()
            &&& s.len() == tally(table, roots, root, |n: ProcNode| 1)
            &&& total_cpu(s) == tally(table, roots, root, |n: ProcNode| n.cpu as int)
            &&& total_mem(s) == tally(table, roots, root, |n: ProcNode| n.mem as int)
            &&& total_footprint(s) == tally(
                table,
                roots,
                root,
                |n: ProcNode|
                    match n.footprint {
                        Some(bytes) => bytes as int,
                        None => n.mem as int,
                    },
            )
            &&& has_footprint(s) <==> exists|i: int|
                0 <= i < table.len() && roots[(#[trigger] table[i]).0] == root
                    && table[i].1.footprint is Some
            &&& total_read(s) is Some <==> exists|i: int|
                0 <= i < table.len() && roots[(#[trigger] table[i]).0] == root
                    && table[i].1.io is Some
            &&& total_written(s) is Some <==> total_read(s) is Some
            &&& tally(
                table,
                roots,
                root,
                |n: ProcNode|
                    match n.io {
                        Some((read, written)) => read as int,
                        None => 0,
                    },
            ) == if total_read(s) is Some {
                total_read(s)->0 as int
            } else {
                0
            }
            &&& tally(
                table,
                roots,
                root,
                |n: ProcNode|
                    match n.io {
                        Some((read, written)) => written as int,
                        None => 0,
                    },
            ) == if total_written(s) is Some {
                total_written(s)->0 as int
            } else {
                0
            }
        }),
    decreases table.len(),
{
    if table.len() > 0 {
        let rest = table.drop_last();
        lemma_tallies(rest, roots, root);
        let s = members(table, roots, root);
        let t = members(rest, roots, root);
        let last = table.last();
        assert(last == table[table.len() - 1]);
        if roots[last.0] == root {
            assert(s.drop_last() =~= t);
            assert(s.last() == last.1);
        }
        assert(has_footprint(s) <==> has_footprint(t) || (roots[last.0] == root
            && last.1.footprint is Some)) by {
            if has_footprint(t) {
                let i = choose|i: int| 0 <= i < t.len() && (#[trigger] t[i]).footprint is Some;
                assert(s[i].footprint is Some);
            }
            if has_footprint(s) {
                let i = choose|i: int| 0 <= i < s.len() && (#[trigger] s[i]).footprint is Some;
                if i < t.len() {
                    assert(t[i].footprint is Some);
                }
            }
            if roots[last.0] == root && last.1.footprint is Some {
                assert(s[s.len() - 1].footprint is Some);
            }
        }
        let mine = |i: int| roots[table[i].0] == root;
        assert forall|i: int| 0 <= i < rest.len() implies #[trigger] rest[i] == table[i] by {}
        assert((exists|i: int|
            0 <= i < table.len() && roots[(#[trigger] table[i]).0] == root
                && table[i].1.footprint is Some) <==> (exists|i: int|
            0 <= i < rest.len() && roots[(#[trigger] rest[i]).0] == root
                && rest[i].1.footprint is Some) || (roots[last.0] == root
            && last.1.footprint is Some)) by {
            if exists|i: int|
                0 <= i < rest.len() && roots[(#[trigger] rest[i]).0] == root
                    && rest[i].1.footprint is Some {
                let i = choose|i: int|
                    0 <= i < rest.len() && roots[(#[trigger] rest[i]).0] == root
                        && rest[i].1.footprint is Some;
                assert(roots[table[i].0] == root);
            }
            if exists|i: int|
                0 <= i < table.len() && roots[(#[trigger] table[i]).0] == root
                    && table[i].1.footprint is Some {
                let i = choose|i: int|
                    0 <= i < table.len() && roots[(#[trigger] table[i]).0] == root
                        && table[i].1.footprint is Some;
                if i < rest.len() {
                    assert(roots[rest[i].0] == root);
                }
            }
        }
        assert((exists|i: int|
            0 <= i < table.len() && roots[(#[trigger] table[i]).0] == root
                && table[i].1.io is Some) <==> (exists|i: int|
            0 <= i < rest.len() && roots[(#[trigger] rest[i]).0] == root && rest[i].1.io is Some)
            || (roots[last.0] == root && last.1.io is Some)) by {
            if exists|i: int|
                0 <= i < rest.len() && roots[(#[trigger] rest[i]).0] == root
                    && rest[i].1.io is Some {
                let i = choose|i: int|
                    0 <= i < rest.len() && roots[(#[trigger] rest[i]).0] == root
                        && rest[i].1.io is Some;
                assert(roots[table[i].0] == root);
            }
            if exists|i: int|
                0 <= i < table.len() && roots[(#[trigger] table[i]).0] == root
                    && table[i].1.io is Some {
                let i = choose|i: int|
                    0 <= i < table.len() && roots[(#[trigger] table[i]).0] == root
                        && table[i].1.io is Some;
                if i < rest.len() {
                    assert(roots[rest[i].0] == root);
                }
            }
        }
    }
}

/// The totals of a tree are those of its processes.
proof fn lemma_adds_up(table: Seq<Entry>, roots: Map<u32, u32>, root: u32)
    requires
        table.len() <= u32::MAX,
    ensures
        adds_up(totals_of(root, members(table, roots, root)), table, roots),
{
    lemma_tallies(table, roots, root);
}

/// The root of every process is listed.
proof fn lemma_root_listed(table: Seq<Entry>, roots: Map<u32, u32>, i: int)
    requires
        0 <= i < table.len(),
    ensures
        distinct_roots(table, roots).contains(roots[table[i].0]),
    decreases table.len(),
{
    let rest = table.drop_last();
    let few = distinct_roots(rest, roots);
    let all = distinct_roots(table, roots);
    if i < rest.len() {
        assert(rest[i] == table[i]);
        lemma_root_listed(rest, roots, i);
        let j = choose|j: int| 0 <= j < few.len() && few[j] == roots[table[i].0];
        assert(all[j] == roots[table[i].0]);
    } else if !few.contains(roots[table[i].0]) {
        assert(all[few.len() as int] == roots[table[i].0]);
    }
}

/// A tree that adds up is the one with the totals of its processes.
proof fn lemma_one_sum(g: GroupTotals, table: Seq<Entry>, roots: Map<u32, u32>)
    requires
        table.len() <= u32::MAX,
        adds_up(g, table, roots),
    ensures
        g == totals_of(g.root_pid, members(table, roots, g.root_pid)),
{
    lemma_adds_up(table, roots, g.root_pid);
}

/// Every process is counted with its parent: they have one root, and a process
/// that is no other's child is its own. The roots say which processes make a tree.
pub proof fn law_child_is_counted_with_its_parent(table: Seq<Entry>)
    requires
        pids_differ(table),
        lines_are_short(table),
    ensures
        ({
            let roots = roots_of(node_map(table), table);
            &&& forall|i: int|
                0 <= i < table.len() ==> roots.contains_key((#[trigger] table[i]).0)
            &&& forall|i: int, j: int|
                0 <= i < table.len() && 0 <= j < table.len() && is_child(
                    #[trigger] table[i],
                    #[trigger] table[j],
                ) ==> roots[table[i].0] == roots[table[j].0]
            &&& forall|i: int|
                0 <= i < table.len() && (forall|j: int|
                    0 <= j < table.len() ==> !is_child(table[i], #[trigger] table[j]))
                    ==> roots[(#[trigger] table[i]).0] == table[i].0
        }),
{
    let nodes = node_map(table);
    let roots = roots_of(nodes, table);
    lemma_short_lines(table);
    lemma_roots_known(nodes, table);
    law_root_is_the_top_of_the_tree(nodes, table);
    assert forall|i: int, j: int|
        0 <= i < table.len() && 0 <= j < table.len() && is_child(
            #[trigger] table[i],
            #[trigger] table[j],
        ) implies roots[table[i].0] == roots[table[j].0] by {
        lemma_link(table, i);
        lemma_top_of_parent(nodes, table[i].0);
    }
    assert forall|i: int|
        0 <= i < table.len() && (forall|j: int|
            0 <= j < table.len() ==> !is_child(table[i], #[trigger] table[j])) implies roots[(
    #[trigger] table[i]).0] == table[i].0 by {
        lemma_link(table, i);
        lemma_ancestor_stable(nodes, table[i].0, 0, (MAX_DEPTH - 1) as nat);
        assert(top(nodes, table[i].0) == table[i].0);
    }
}

/// The trees come with the figures of their processes added up, each tree once,
/// in the order of processor use, then of memory, then of pids. There are no more
/// of them than places. A tree is left out only where the places are taken by trees
/// that stand before it.
pub proof fn law_trees_add_up(table: Seq<Entry>, max: nat)
    requires
        table.len() <= u32::MAX,
        pids_differ(table),
    ensures
        ({
            let roots = roots_of(node_map(table), table);
            let shown = top_groups(table, max);
            &&& shown.len() <= max
            &&& forall|k: int| 0 <= k < shown.len() ==> adds_up(#[trigger] shown[k], table, roots)
            &&& forall|k: int|
                0 <= k < shown.len() ==> exists|i: int|
                    0 <= i < table.len() && roots[(#[trigger] table[i]).0] == (
                    #[trigger] shown[k]).root_pid
            &&& forall|k: int, l: int|
                0 <= k < l < shown.len() ==> outranks(#[trigger] shown[k], #[trigger] shown[l])
                    && shown[k].root_pid != shown[l].root_pid
            &&& forall|i: int, g: GroupTotals|
                0 <= i < table.len() && g.root_pid == roots[(#[trigger] table[i]).0]
                    && #[trigger] adds_up(g, table, roots) ==> shown.contains(g) || (shown.len()
                    == max && forall|k: int|
                    0 <= k < shown.len() ==> outranks(#[trigger] shown[k], g))
        }),
{
    let roots = roots_of(node_map(table), table);
    let shown = top_groups(table, max);
    let list = distinct_roots(table, roots);
    let groups = all_groups(table, roots);
    let all = arranged::<GroupTotals, ByGroupRank>(groups);
    lemma_distinct(table, roots);
    lemma_distinct_from(table, roots);
    law_arranged_keeps_values::<GroupTotals, ByGroupRank>(groups);
    assert(weak_order::<GroupTotals, ByGroupRank>());
    law_arranged_is_in_order::<GroupTotals, ByGroupRank>(groups);
    assert(groups.no_duplicates()) by {
        assert forall|k: int, l: int| 0 <= k < groups.len() && 0 <= l < groups.len() && k
            != l implies groups[k] != groups[l] by {
            assert(groups[k].root_pid == list[k] && groups[l].root_pid == list[l]);
        }
    }
    groups.lemma_multiset_has_no_duplicates();
    all.lemma_multiset_has_no_duplicates_conv();
    assert forall|k: int| 0 <= k < all.len() implies adds_up(#[trigger] all[k], table, roots)
        && list.contains(all[k].root_pid) by {
        lemma_arranged_contains::<GroupTotals, ByGroupRank>(groups, all[k]);
        assert(all.contains(all[k]));
        let m = choose|m: int| 0 <= m < groups.len() && groups[m] == all[k];
        assert(list[m] == all[k].root_pid);
        lemma_adds_up(table, roots, list[m]);
    }
    assert forall|k: int, l: int| 0 <= k < l < all.len() implies outranks(
        #[trigger] all[k],
        #[trigger] all[l],
    ) && all[k].root_pid != all[l].root_pid by {
        assert(!ByGroupRank::before(all[l], all[k]));
        lemma_one_sum(all[k], table, roots);
        lemma_one_sum(all[l], table, roots);
        if all[k].root_pid == all[l].root_pid {
            assert(all[k] == all[l]);
        }
    }
    assert forall|k: int| 0 <= k < shown.len() implies exists|i: int|
        0 <= i < table.len() && roots[(#[trigger] table[i]).0] == (
        #[trigger] shown[k]).root_pid by {
        assert(shown[k] == all[k]);
        assert(list.contains(all[k].root_pid));
    }
    assert forall|i: int, g: GroupTotals|
        0 <= i < table.len() && g.root_pid == roots[(#[trigger] table[i]).0] && #[trigger] adds_up(
            g,
            table,
            roots,
        ) implies shown.contains(g) || (shown.len() == max && forall|k: int|
        0 <= k < shown.len() ==> outranks(#[trigger] shown[k], g)) by {
        lemma_root_listed(table, roots, i);
        lemma_one_sum(g, table, roots);
        let m = choose|m: int| 0 <= m < list.len() && list[m] == g.root_pid;
        assert(groups[m] == g);
        lemma_arranged_contains::<GroupTotals, ByGroupRank>(groups, g);
        assert(groups.contains(g));
        let at = choose|at: int| 0 <= at < all.len() && all[at] == g;
        if at < shown.len() {
            assert(shown[at] == g);
        } else {
            assert forall|k: int| 0 <= k < shown.len() implies outranks(
                #[trigger] shown[k],
                g,
            ) by {
                assert(outranks(all[k], all[at]));
            }
        }
    }
}

} // verus!
