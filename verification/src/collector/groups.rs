//! Process trees added up into applications.
use std::collections::HashMap;
use vstd::prelude::*;
use crate::order::{arrange, arranged, law_arranged_keeps_values, Order};
use crate::rate::capped64;

verus! {

broadcast use vstd::std_specs::hash::group_hash_axioms;

/// One process, for adding up trees.
#[derive(Debug, Clone, Copy, PartialEq, Eq)]
pub struct ProcNode {
    pub parent: Option<u32>,
    /// Seconds since the epoch; zero when unknown
    pub start_time_secs: u64,
    pub cpu: u64,
    pub mem: u64,
    pub footprint: Option<u64>,
    /// Bytes read and written since the refresh before
    pub io: Option<(u64, u64)>,
}

/// One tree added up.
#[derive(Debug, Clone, Copy, PartialEq, Eq, Structural)]
pub struct GroupTotals {
    pub root_pid: u32,
    pub process_count: u32,
    pub cpu: u64,
    pub mem: u64,
    /// Footprints, with the resident memory of members that have none
    pub footprint_sum: u64,
    /// Whether any member has a footprint
    pub any_footprint: bool,
    pub read_bytes: Option<u64>,
    pub written_bytes: Option<u64>,
}

/// The process that starts all others: its children are the roots.
pub const INIT_PID: u32 = 1;

/// How far a chain of parents is followed.
pub const MAX_DEPTH: usize = 512;

/// The processes by pid.
pub open spec fn node_map(table: Seq<(u32, ProcNode)>) -> Map<u32, ProcNode>
    decreases table.len(),
{
    if table.len() == 0 {
        Map::empty()
    } else {
        node_map(table.drop_last()).insert(table.last().0, table.last().1)
    }
}

/// Whether `parent` can be the parent of `child`: both are there, and the parent
/// did not start after the child where both times are known.
pub open spec fn plausible_parent(nodes: Map<u32, ProcNode>, child: u32, parent: u32) -> bool {
    &&& nodes.contains_key(child)
    &&& nodes.contains_key(parent)
    &&& {
        ||| nodes[child].start_time_secs == 0
        ||| nodes[parent].start_time_secs == 0
        ||| nodes[parent].start_time_secs <= nodes[child].start_time_secs
    }
}

/// The parent to climb to, or nothing at the root of a tree.
pub open spec fn link(nodes: Map<u32, ProcNode>, pid: u32) -> Option<u32> {
    if nodes.contains_key(pid) && nodes[pid].parent is Some {
        let parent = nodes[pid].parent->0;
        if parent != INIT_PID && parent != pid && plausible_parent(nodes, pid, parent) {
            Some(parent)
        } else {
            None
        }
    } else {
        None
    }
}

/// The pids on the way up from `pid`, `steps` of which were seen before, until a
/// pid with a known root, the root, or the limit.
pub open spec fn climb(
    nodes: Map<u32, ProcNode>,
    known: Map<u32, u32>,
    pid: u32,
    steps: nat,
) -> (Seq<u32>, u32)
    decreases MAX_DEPTH - steps,
{
    if known.contains_key(pid) {
        (Seq::empty(), known[pid])
    } else if link(nodes, pid) is Some && steps + 1 < MAX_DEPTH {
        let above = climb(nodes, known, link(nodes, pid)->0, steps + 1);
        (seq![pid] + above.0, above.1)
    } else {
        (seq![pid], pid)
    }
}

/// The known roots with that of every pid on a path.
pub open spec fn learned(known: Map<u32, u32>, path: Seq<u32>, root: u32) -> Map<u32, u32> {
    Map::new(
        |p: u32| known.contains_key(p) || path.contains(p),
        |p: u32| if path.contains(p) {
            root
        } else {
            known[p]
        },
    )
}

/// The root of each process, the processes taken in the order of the table.
pub open spec fn roots_of(nodes: Map<u32, ProcNode>, table: Seq<(u32, ProcNode)>) -> Map<u32, u32>
    decreases table.len(),
{
    if table.len() == 0 {
        Map::empty()
    } else {
        let known = roots_of(nodes, table.drop_last());
        let way = climb(nodes, known, table.last().0, 0);
        learned(known, way.0, way.1)
    }
}

/// Whether `parent` can be the parent of `child`.
pub fn is_plausible_parent(nodes: &HashMap<u32, ProcNode>, child: u32, parent: u32) -> (r: bool)
    ensures
        r == plausible_parent(nodes@, child, parent),
{
    match (nodes.get(&child), nodes.get(&parent)) {
        (Some(c), Some(p)) => c.start_time_secs == 0 || p.start_time_secs == 0 || p.start_time_secs
            <= c.start_time_secs,
        _ => false,
    }
}

/// The parent to climb to.
fn find_link(nodes: &HashMap<u32, ProcNode>, pid: u32) -> (r: Option<u32>)
    ensures
        r == link(nodes@, pid),
{
    match nodes.get(&pid) {
        Some(node) => match node.parent {
            Some(parent) => if parent != INIT_PID && parent != pid && is_plausible_parent(
                nodes,
                pid,
                parent,
            ) {
                Some(parent)
            } else {
                None
            },
            None => None,
        },
        None => None,
    }
}

/// The processes by pid.
fn index_nodes(table: &Vec<(u32, ProcNode)>) -> (r: HashMap<u32, ProcNode>)
    ensures
        r@ == node_map(table@),
{
    let mut nodes: HashMap<u32, ProcNode> = HashMap::new();
    assert(nodes@ =~= Map::empty());
    for i in 0..table.len()
        invariant
            nodes@ == node_map(table@.take(i as int)),
    {
        assert(table@.take(i as int + 1).drop_last() =~= table@.take(i as int));
        nodes.insert(table[i].0, table[i].1);
    }
    assert(table@.take(table.len() as int) =~= table@);
    nodes
}

/// The way up from a process.
fn walk(nodes: &HashMap<u32, ProcNode>, known: &HashMap<u32, u32>, pid: u32) -> (r: (Vec<u32>, u32))
    ensures
        (r.0@, r.1) == climb(nodes@, known@, pid, 0),
{
    let mut path: Vec<u32> = Vec::new();
    let mut current: u32 = pid;
    let ghost whole = climb(nodes@, known@, pid, 0);
    assert(whole.0 =~= path@ + whole.0);
    loop
        invariant
            path@.len() < MAX_DEPTH,
            whole == climb(nodes@, known@, pid, 0),
            whole.0 == path@ + climb(nodes@, known@, current, path@.len()).0,
            whole.1 == climb(nodes@, known@, current, path@.len()).1,
        decreases MAX_DEPTH - path@.len(),
    {
        if let Some(root) = known.get(&current) {
            assert(path@ + Seq::<u32>::empty() =~= path@);
            return (path, *root);
        }
        let ghost before = path@;
        path.push(current);
        assert(path@ =~= before + seq![current]);
        match find_link(nodes, current) {
            Some(parent) => {
                if path.len() < MAX_DEPTH {
                    proof {
                        let above = climb(nodes@, known@, parent, path@.len());
                        assert(before + (seq![current] + above.0) =~= path@ + above.0);
                    }
                    current = parent;
                } else {
                    return (path, current);
                }
            },
            None => {
                return (path, current);
            },
        }
    }
}

/// The root of each process.
fn find_roots(nodes: &HashMap<u32, ProcNode>, table: &Vec<(u32, ProcNode)>) -> (r: HashMap<
    u32,
    u32,
>)
    ensures
        r@ == roots_of(nodes@, table@),
{
    let mut known: HashMap<u32, u32> = HashMap::new();
    assert(known@ =~= Map::empty());
    for i in 0..table.len()
        invariant
            known@ == roots_of(nodes@, table@.take(i as int)),
    {
        assert(table@.take(i as int + 1).drop_last() =~= table@.take(i as int));
        let (path, root) = walk(nodes, &known, table[i].0);
        let ghost before = known@;
        for k in 0..path.len()
            invariant
                known@ =~= learned(before, path@.take(k as int), root),
        {
            let ghost done = path@.take(k as int);
            let ghost next = path@.take(k as int + 1);
            proof {
                assert forall|p: u32| next.contains(p) <==> done.contains(p) || p
                    == path@[k as int] by {
                    if done.contains(p) {
                        let j = choose|j: int| 0 <= j < done.len() && done[j] == p;
                        assert(next[j] == p);
                    }
                    assert(next[k as int] == path@[k as int]);
                    if next.contains(p) && p != path@[k as int] {
                        let j = choose|j: int| 0 <= j < next.len() && next[j] == p;
                        assert(done[j] == p);
                    }
                }
            }
            known.insert(path[k], root);
        }
        assert(path@.take(path.len() as int) =~= path@);
    }
    assert(table@.take(table.len() as int) =~= table@);
    known
}

/// The processes with the given root, in the order of the table.
pub open spec fn members(
    table: Seq<(u32, ProcNode)>,
    roots: Map<u32, u32>,
    root: u32,
) -> Seq<ProcNode>
    decreases table.len(),
{
    if table.len() == 0 {
        Seq::empty()
    } else {
        let rest = members(table.drop_last(), roots, root);
        if roots[table.last().0] == root {
            rest.push(table.last().1)
        } else {
            rest
        }
    }
}

/// The processor use of processes added up.
pub open spec fn total_cpu(s: Seq<ProcNode>) -> nat
    decreases s.len(),
{
    if s.len() == 0 {
        0
    } else {
        total_cpu(s.drop_last()) + s.last().cpu as nat
    }
}

/// The resident memory of processes added up.
pub open spec fn total_mem(s: Seq<ProcNode>) -> nat
    decreases s.len(),
{
    if s.len() == 0 {
        0
    } else {
        total_mem(s.drop_last()) + s.last().mem as nat
    }
}

/// The best memory figure of a process: its footprint, else its resident memory.
pub open spec fn best_figure(n: ProcNode) -> nat {
    match n.footprint {
        Some(f) => f as nat,
        None => n.mem as nat,
    }
}

/// The best memory figures of processes added up.
pub open spec fn total_footprint(s: Seq<ProcNode>) -> nat
    decreases s.len(),
{
    if s.len() == 0 {
        0
    } else {
        total_footprint(s.drop_last()) + best_figure(s.last())
    }
}

/// Whether any process has a footprint.
pub open spec fn has_footprint(s: Seq<ProcNode>) -> bool {
    exists|i: int| 0 <= i < s.len() && (#[trigger] s[i]).footprint is Some
}

/// The bytes that processes read, added up; nothing when none is counted.
pub open spec fn total_read(s: Seq<ProcNode>) -> Option<nat>
    decreases s.len(),
{
    if s.len() == 0 {
        None
    } else {
        match (total_read(s.drop_last()), s.last().io) {
            (Some(sum), Some(io)) => Some(sum + io.0 as nat),
            (None, Some(io)) => Some(io.0 as nat),
            (sum, None) => sum,
        }
    }
}

/// The bytes that processes wrote, added up; nothing when none is counted.
pub open spec fn total_written(s: Seq<ProcNode>) -> Option<nat>
    decreases s.len(),
{
    if s.len() == 0 {
        None
    } else {
        match (total_written(s.drop_last()), s.last().io) {
            (Some(sum), Some(io)) => Some(sum + io.1 as nat),
            (None, Some(io)) => Some(io.1 as nat),
            (sum, None) => sum,
        }
    }
}

/// An optional sum, kept to 64 bits.
pub open spec fn capped_sum(sum: Option<nat>) -> Option<u64> {
    match sum {
        Some(n) => Some(capped64(n)),
        None => None,
    }
}

/// A tree added up.
pub open spec fn totals_of(root: u32, s: Seq<ProcNode>) -> GroupTotals {
    GroupTotals {
        root_pid: root,
        process_count: s.len() as u32,
        cpu: capped64(total_cpu(s)),
        mem: capped64(total_mem(s)),
        footprint_sum: capped64(total_footprint(s)),
        any_footprint: has_footprint(s),
        read_bytes: capped_sum(total_read(s)),
        written_bytes: capped_sum(total_written(s)),
    }
}

/// The roots that occur, each once, in the order of the table.
pub open spec fn distinct_roots(table: Seq<(u32, ProcNode)>, roots: Map<u32, u32>) -> Seq<u32>
    decreases table.len(),
{
    if table.len() == 0 {
        Seq::empty()
    } else {
        let rest = distinct_roots(table.drop_last(), roots);
        let root = roots[table.last().0];
        if rest.contains(root) {
            rest
        } else {
            rest.push(root)
        }
    }
}

/// The trees of the table added up, in the order of the table.
pub open spec fn all_groups(table: Seq<(u32, ProcNode)>, roots: Map<u32, u32>) -> Seq<GroupTotals> {
    distinct_roots(table, roots).map_values(
        |root: u32| totals_of(root, members(table, roots, root)),
    )
}

/// More processor use first, then more memory, then the lower root pid.
pub struct ByGroupRank;

impl Order<GroupTotals> for ByGroupRank {
    open spec fn before(a: GroupTotals, b: GroupTotals) -> bool {
        a.cpu > b.cpu || (a.cpu == b.cpu && (a.mem > b.mem || (a.mem == b.mem && a.root_pid
            < b.root_pid)))
    }

    fn goes_before(a: &GroupTotals, b: &GroupTotals) -> (r: bool) {
        a.cpu > b.cpu || (a.cpu == b.cpu && (a.mem > b.mem || (a.mem == b.mem && a.root_pid
            < b.root_pid)))
    }
}

/// The `max` busiest trees.
pub open spec fn top_groups(table: Seq<(u32, ProcNode)>, max: nat) -> Seq<GroupTotals> {
    let all = arranged::<GroupTotals, ByGroupRank>(
        all_groups(table, roots_of(node_map(table), table)),
    );
    if all.len() <= max {
        all
    } else {
        all.take(max as int)
    }
}

/// Adding to a sum kept to 64 bits is adding to the sum.
proof fn lemma_capped_add(a: nat, b: nat)
    ensures
        capped64(capped64(a) as nat + b) == capped64(a + b),
{
}

/// A tree with one more process.
fn add_member(g: &mut GroupTotals, node: &ProcNode)
    requires
        old(g).process_count < u32::MAX,
    ensures
        forall|root: u32, s: Seq<ProcNode>|
            *old(g) == totals_of(root, s) && s.len() < u32::MAX ==> *final(g)
                == #[trigger] totals_of(root, s.push(*node)),
{
    let ghost before = *g;
    g.process_count = g.process_count + 1;
    g.cpu = g.cpu.saturating_add(node.cpu);
    g.mem = g.mem.saturating_add(node.mem);
    let figure: u64 = match node.footprint {
        Some(f) => f,
        None => node.mem,
    };
    g.footprint_sum = g.footprint_sum.saturating_add(figure);
    g.any_footprint = g.any_footprint || node.footprint.is_some();
    if let Some((read, written)) = node.io {
        g.read_bytes = match g.read_bytes {
            Some(sum) => Some(sum.saturating_add(read)),
            None => Some(read),
        };
        g.written_bytes = match g.written_bytes {
            Some(sum) => Some(sum.saturating_add(written)),
            None => Some(written),
        };
    }
    proof {
        assert forall|root: u32, s: Seq<ProcNode>|
            before == totals_of(root, s) && s.len() < u32::MAX implies *g == #[trigger] totals_of(
            root,
            s.push(*node),
        ) by {
            let t = s.push(*node);
            assert(t.drop_last() =~= s);
            lemma_capped_add(total_cpu(s), node.cpu as nat);
            lemma_capped_add(total_mem(s), node.mem as nat);
            lemma_capped_add(total_footprint(s), best_figure(*node));
            if has_footprint(s) {
                let i = choose|i: int| 0 <= i < s.len() && (#[trigger] s[i]).footprint is Some;
                assert(t[i].footprint is Some);
            }
            if node.footprint is Some {
                assert(t[s.len() as int].footprint is Some);
            }
            if has_footprint(t) && node.footprint is None {
                let i = choose|i: int| 0 <= i < t.len() && (#[trigger] t[i]).footprint is Some;
                assert(s[i].footprint is Some);
            }
        }
    }
}

/// One tree added up.
fn sum_group(table: &Vec<(u32, ProcNode)>, roots: &HashMap<u32, u32>, root: u32) -> (r: GroupTotals)
    requires
        table@.len() <= u32::MAX,
        forall|i: int|
            0 <= i < table@.len() ==> roots@.contains_key((#[trigger] table@[i]).0),
    ensures
        r == totals_of(root, members(table@, roots@, root)),
{
    let mut g = GroupTotals {
        root_pid: root,
        process_count: 0,
        cpu: 0,
        mem: 0,
        footprint_sum: 0,
        any_footprint: false,
        read_bytes: None,
        written_bytes: None,
    };
    for i in 0..table.len()
        invariant
            table@.len() <= u32::MAX,
            forall|j: int|
                0 <= j < table@.len() ==> roots@.contains_key((#[trigger] table@[j]).0),
            members(table@.take(i as int), roots@, root).len() <= i,
            g == totals_of(root, members(table@.take(i as int), roots@, root)),
    {
        let entry = &table[i];
        assert(table@.take(i as int + 1).drop_last() =~= table@.take(i as int));
        let ghost s = members(table@.take(i as int), roots@, root);
        assert(roots@.contains_key(table@[i as int].0));
        if let Some(r) = roots.get(&entry.0) {
            if *r == root {
                add_member(&mut g, &entry.1);
                assert(g == totals_of(root, s.push(entry.1)));
            }
        }
    }
    assert(table@.take(table.len() as int) =~= table@);
    g
}

/// Every process of the table has a root.
pub(crate) proof fn lemma_roots_known(nodes: Map<u32, ProcNode>, table: Seq<(u32, ProcNode)>)
    ensures
        forall|i: int|
            0 <= i < table.len() ==> roots_of(nodes, table).contains_key((#[trigger] table[i]).0),
    decreases table.len(),
{
    if table.len() > 0 {
        let rest = table.drop_last();
        lemma_roots_known(nodes, rest);
        let known = roots_of(nodes, rest);
        let pid = table.last().0;
        let way = climb(nodes, known, pid, 0);
        if !known.contains_key(pid) {
            assert(way.0[0] == pid);
            assert(way.0.contains(pid));
        }
        assert forall|i: int| 0 <= i < table.len() implies roots_of(nodes, table).contains_key(
            (#[trigger] table[i]).0,
        ) by {
            if i < rest.len() {
                assert(rest[i] == table[i]);
            }
        }
    }
}

/// The roots that occur, each once.
fn list_roots(table: &Vec<(u32, ProcNode)>, roots: &HashMap<u32, u32>) -> (r: Vec<u32>)
    requires
        forall|i: int|
            0 <= i < table@.len() ==> roots@.contains_key((#[trigger] table@[i]).0),
    ensures
        r@ == distinct_roots(table@, roots@),
{
    let mut list: Vec<u32> = Vec::new();
    for i in 0..table.len()
        invariant
            forall|j: int|
                0 <= j < table@.len() ==> roots@.contains_key((#[trigger] table@[j]).0),
            list@ =~= distinct_roots(table@.take(i as int), roots@),
    {
        assert(table@.take(i as int + 1).drop_last() =~= table@.take(i as int));
        assert(roots@.contains_key(table@[i as int].0));
        if let Some(root) = roots.get(&table[i].0) {
            let mut found: bool = false;
            for k in 0..list.len()
                invariant
                    found == exists|j: int| 0 <= j < k && (#[trigger] list@[j]) == *root,
            {
                if list[k] == *root {
                    found = true;
                }
            }
            assert(found == list@.contains(*root));
            if !found {
                list.push(*root);
            }
        }
    }
    assert(table@.take(table.len() as int) =~= table@);
    list
}

/// Adds up the trees of the table and returns the `max` busiest.
pub fn aggregate_process_groups(table: &Vec<(u32, ProcNode)>, max: usize) -> (r: Vec<GroupTotals>)
    requires
        table@.len() <= u32::MAX,
    ensures
        r@ == top_groups(table@, max as nat),
{
    let nodes = index_nodes(table);
    let roots = find_roots(&nodes, table);
    proof {
        lemma_roots_known(nodes@, table@);
    }
    let list = list_roots(table, &roots);
    let mut groups: Vec<GroupTotals> = Vec::new();
    for i in 0..list.len()
        invariant
            table@.len() <= u32::MAX,
            forall|j: int|
                0 <= j < table@.len() ==> roots@.contains_key((#[trigger] table@[j]).0),
            list@ == distinct_roots(table@, roots@),
            groups@ =~= all_groups(table@, roots@).take(i as int),
    {
        groups.push(sum_group(table, &roots, list[i]));
    }
    assert(groups@ =~= all_groups(table@, roots@));
    let mut ranked = arrange::<GroupTotals, ByGroupRank>(groups);
    let ghost all = ranked@;
    ranked.truncate(max);
    assert(ranked@ =~= if all.len() <= max {
        all
    } else {
        all.take(max as int)
    });
    ranked
}

/// The processes of all the groups, counted.
pub open spec fn counted(table: Seq<(u32, ProcNode)>, roots: Map<u32, u32>, list: Seq<u32>) -> nat
    decreases list.len(),
{
    if list.len() == 0 {
        0
    } else {
        counted(table, roots, list.drop_last()) + members(table, roots, list.last()).len()
    }
}

/// A process more counts once, in the group of its root.
proof fn lemma_counted_step(table: Seq<(u32, ProcNode)>, roots: Map<u32, u32>, list: Seq<u32>)
    requires
        table.len() > 0,
        list.no_duplicates(),
    ensures
        counted(table, roots, list) == counted(table.drop_last(), roots, list) + if list.contains(
            roots[table.last().0],
        ) {
            1nat
        } else {
            0
        },
    decreases list.len(),
{
    if list.len() > 0 {
        let short = list.drop_last();
        assert(short.no_duplicates());
        lemma_counted_step(table, roots, short);
        let root = roots[table.last().0];
        if list.last() == root {
            assert(list.contains(root)) by {
                assert(list[list.len() - 1] == root);
            }
            assert(!short.contains(root)) by {
                if short.contains(root) {
                    let j = choose|j: int| 0 <= j < short.len() && short[j] == root;
                    assert(list[j] == list[list.len() - 1]);
                }
            }
        } else {
            assert(list.contains(root) == short.contains(root)) by {
                if short.contains(root) {
                    let j = choose|j: int| 0 <= j < short.len() && short[j] == root;
                    assert(list[j] == root);
                }
                if list.contains(root) {
                    let j = choose|j: int| 0 <= j < list.len() && list[j] == root;
                    assert(short[j] == root);
                }
            }
        }
    }
}

/// The roots are listed once each.
pub(crate) proof fn lemma_distinct(table: Seq<(u32, ProcNode)>, roots: Map<u32, u32>)
    ensures
        distinct_roots(table, roots).no_duplicates(),
    decreases table.len(),
{
    if table.len() > 0 {
        lemma_distinct(table.drop_last(), roots);
    }
}

/// A root that no process has counts no process.
proof fn lemma_no_members(table: Seq<(u32, ProcNode)>, roots: Map<u32, u32>, root: u32)
    requires
        !distinct_roots(table, roots).contains(root),
    ensures
        members(table, roots, root).len() == 0,
    decreases table.len(),
{
    if table.len() > 0 {
        let rest = distinct_roots(table.drop_last(), roots);
        let last = roots[table.last().0];
        let all = distinct_roots(table, roots);
        if rest.contains(root) {
            let j = choose|j: int| 0 <= j < rest.len() && rest[j] == root;
            assert(all[j] == root);
        }
        if last == root {
            if !rest.contains(last) {
                assert(all[rest.len() as int] == root);
            }
        }
        lemma_no_members(table.drop_last(), roots, root);
    }
}

/// The groups cover the table: every process counts in exactly one of them.
pub proof fn law_groups_cover_the_table(table: Seq<(u32, ProcNode)>, roots: Map<u32, u32>)
    ensures
        counted(table, roots, distinct_roots(table, roots)) == table.len(),
    decreases table.len(),
{
    if table.len() > 0 {
        let rest = table.drop_last();
        law_groups_cover_the_table(rest, roots);
        let list = distinct_roots(rest, roots);
        let root = roots[table.last().0];
        lemma_distinct(table, roots);
        lemma_distinct(rest, roots);
        let all = distinct_roots(table, roots);
        lemma_counted_step(table, roots, all);
        if !list.contains(root) {
            assert(all.drop_last() =~= list);
            assert(all[all.len() - 1] == root);
            lemma_no_members(rest, roots, root);
        }
    }
}

/// At most `max` groups come out.
pub proof fn law_group_limit(table: Seq<(u32, ProcNode)>, max: nat)
    ensures
        top_groups(table, max).len() <= max,
{
}

/// The pid that `k` links lead to, or the last one before them.
pub open spec fn ancestor(nodes: Map<u32, ProcNode>, pid: u32, k: nat) -> u32
    decreases k,
{
    if k == 0 || link(nodes, pid) is None {
        pid
    } else {
        ancestor(nodes, link(nodes, pid)->0, (k - 1) as nat)
    }
}

/// Whether the links from every process end within the limit: no cycle, and no
/// chain that is too long.
pub open spec fn links_end(nodes: Map<u32, ProcNode>) -> bool {
    forall|pid: u32| link(nodes, #[trigger] ancestor(nodes, pid, (MAX_DEPTH - 1) as nat)) is None
}

/// The root of the tree that a process is in.
pub open spec fn top(nodes: Map<u32, ProcNode>, pid: u32) -> u32 {
    ancestor(nodes, pid, (MAX_DEPTH - 1) as nat)
}

/// Where the links end within `k`, more links change nothing.
pub(crate) proof fn lemma_ancestor_stable(nodes: Map<u32, ProcNode>, pid: u32, k: nat, m: nat)
    requires
        link(nodes, ancestor(nodes, pid, k)) is None,
        m >= k,
    ensures
        ancestor(nodes, pid, m) == ancestor(nodes, pid, k),
    decreases k,
{
    if k > 0 && link(nodes, pid) is Some {
        lemma_ancestor_stable(nodes, link(nodes, pid)->0, (k - 1) as nat, (m - 1) as nat);
    }
}

/// A process and its parent have the same root.
pub(crate) proof fn lemma_top_of_parent(nodes: Map<u32, ProcNode>, pid: u32)
    requires
        links_end(nodes),
        link(nodes, pid) is Some,
    ensures
        top(nodes, link(nodes, pid)->0) == top(nodes, pid),
{
    let p = link(nodes, pid)->0;
    let m = (MAX_DEPTH - 1) as nat;
    assert(link(nodes, ancestor(nodes, pid, m)) is None);
    assert(link(nodes, ancestor(nodes, p, m)) is None);
    assert(ancestor(nodes, pid, m) == ancestor(nodes, p, (m - 1) as nat));
    lemma_ancestor_stable(nodes, p, (m - 1) as nat, m);
}

/// The way up ends at the root of the tree.
proof fn lemma_climb_to_top(
    nodes: Map<u32, ProcNode>,
    known: Map<u32, u32>,
    pid: u32,
    steps: nat,
)
    requires
        links_end(nodes),
        steps < MAX_DEPTH,
        link(nodes, ancestor(nodes, pid, (MAX_DEPTH - 1 - steps) as nat)) is None,
        forall|p: u32| #[trigger] known.contains_key(p) ==> known[p] == top(nodes, p),
    ensures
        climb(nodes, known, pid, steps).1 == top(nodes, pid),
        forall|p: u32| #[trigger]
            climb(nodes, known, pid, steps).0.contains(p) ==> top(nodes, p) == top(nodes, pid),
    decreases MAX_DEPTH - steps,
{
    if known.contains_key(pid) {
    } else if link(nodes, pid) is Some && steps + 1 < MAX_DEPTH {
        let parent = link(nodes, pid)->0;
        lemma_climb_to_top(nodes, known, parent, steps + 1);
        lemma_top_of_parent(nodes, pid);
        let above = climb(nodes, known, parent, steps + 1).0;
        let all = climb(nodes, known, pid, steps).0;
        assert forall|p: u32| #[trigger] all.contains(p) implies top(nodes, p) == top(
            nodes,
            pid,
        ) by {
            let j = choose|j: int| 0 <= j < all.len() && all[j] == p;
            if j > 0 {
                assert(above[j - 1] == p);
                assert(above.contains(p));
            }
        }
    } else {
        let rest = (MAX_DEPTH - 1 - steps) as nat;
        if link(nodes, pid) is Some {
            assert(rest == 0);
        }
        assert(link(nodes, pid) is None);
        lemma_ancestor_stable(nodes, pid, 0, (MAX_DEPTH - 1) as nat);
        assert(climb(nodes, known, pid, steps).0 == seq![pid]);
    }
}

/// Where the links end, each process is counted with the root of its tree: the
/// ancestor below the first process of the system, whose parent is gone, or
/// whose parent started later.
pub proof fn law_root_is_the_top_of_the_tree(nodes: Map<u32, ProcNode>, table: Seq<(u32, ProcNode)>)
    requires
        links_end(nodes),
    ensures
        forall|pid: u32| #[trigger]
            roots_of(nodes, table).contains_key(pid) ==> roots_of(nodes, table)[pid] == top(
                nodes,
                pid,
            ),
    decreases table.len(),
{
    if table.len() > 0 {
        let known = roots_of(nodes, table.drop_last());
        law_root_is_the_top_of_the_tree(nodes, table.drop_last());
        let pid = table.last().0;
        assert(link(nodes, ancestor(nodes, pid, (MAX_DEPTH - 1) as nat)) is None);
        lemma_climb_to_top(nodes, known, pid, 0);
    }
}

/// The way up from a process of the table stays in the table.
proof fn lemma_climb_in_table(
    nodes: Map<u32, ProcNode>,
    known: Map<u32, u32>,
    pid: u32,
    steps: nat,
)
    requires
        nodes.contains_key(pid),
        forall|p: u32| #[trigger] known.contains_key(p) ==> nodes.contains_key(known[p]),
    ensures
        nodes.contains_key(climb(nodes, known, pid, steps).1),
    decreases MAX_DEPTH - steps,
{
    if !known.contains_key(pid) && link(nodes, pid) is Some && steps + 1 < MAX_DEPTH {
        lemma_climb_in_table(nodes, known, link(nodes, pid)->0, steps + 1);
    }
}

/// The roots are processes of the table.
proof fn lemma_roots_in_table(nodes: Map<u32, ProcNode>, table: Seq<(u32, ProcNode)>)
    requires
        forall|i: int| 0 <= i < table.len() ==> nodes.contains_key((#[trigger] table[i]).0),
    ensures
        forall|p: u32| #[trigger]
            roots_of(nodes, table).contains_key(p) ==> nodes.contains_key(
                roots_of(nodes, table)[p],
            ),
    decreases table.len(),
{
    if table.len() > 0 {
        let rest = table.drop_last();
        assert forall|i: int| 0 <= i < rest.len() implies nodes.contains_key(
            (#[trigger] rest[i]).0,
        ) by {
            assert(table[i] == rest[i]);
        }
        lemma_roots_in_table(nodes, rest);
        let last = table[table.len() - 1];
        lemma_climb_in_table(nodes, roots_of(nodes, rest), last.0, 0);
    }
}

/// A pid is in the map of the table exactly when it is in the table.
pub proof fn lemma_node_map(table: Seq<(u32, ProcNode)>, pid: u32)
    ensures
        node_map(table).contains_key(pid) <==> exists|i: int|
            0 <= i < table.len() && (#[trigger] table[i]).0 == pid,
    decreases table.len(),
{
    if table.len() > 0 {
        let rest = table.drop_last();
        lemma_node_map(rest, pid);
        if node_map(rest).contains_key(pid) {
            let i = choose|i: int| 0 <= i < rest.len() && (#[trigger] rest[i]).0 == pid;
            assert(table[i].0 == pid);
        }
        if table.last().0 == pid {
            assert(table[table.len() - 1].0 == pid);
        }
        if exists|i: int| 0 <= i < table.len() && (#[trigger] table[i]).0 == pid {
            let i = choose|i: int| 0 <= i < table.len() && (#[trigger] table[i]).0 == pid;
            if i < rest.len() {
                assert(rest[i].0 == pid);
            }
        }
    }
}

/// The roots that occur are those of processes of the table.
pub(crate) proof fn lemma_distinct_from(table: Seq<(u32, ProcNode)>, roots: Map<u32, u32>)
    ensures
        forall|r: u32| #[trigger]
            distinct_roots(table, roots).contains(r) ==> exists|i: int|
                0 <= i < table.len() && roots[(#[trigger] table[i]).0] == r,
    decreases table.len(),
{
    if table.len() > 0 {
        let rest = table.drop_last();
        lemma_distinct_from(rest, roots);
        let all = distinct_roots(table, roots);
        let few = distinct_roots(rest, roots);
        assert forall|r: u32| #[trigger] all.contains(r) implies exists|i: int|
            0 <= i < table.len() && roots[(#[trigger] table[i]).0] == r by {
            let j = choose|j: int| 0 <= j < all.len() && all[j] == r;
            if j < few.len() {
                assert(few[j] == r);
                assert(few.contains(r));
                let i = choose|i: int| 0 <= i < rest.len() && roots[(#[trigger] rest[i]).0] == r;
                assert(table[i] == rest[i]);
                assert(roots[table[i].0] == r);
            } else {
                assert(roots[table[table.len() - 1].0] == r);
            }
        }
    }
}

/// The root of every group is a process of the table.
pub proof fn lemma_group_roots_in_table(table: Seq<(u32, ProcNode)>, max: nat)
    ensures
        forall|g: GroupTotals| #[trigger]
            top_groups(table, max).contains(g) ==> node_map(table).contains_key(g.root_pid),
{
    broadcast use vstd::seq_lib::group_to_multiset_ensures;

    let nodes = node_map(table);
    assert forall|i: int| 0 <= i < table.len() implies nodes.contains_key(
        (#[trigger] table[i]).0,
    ) by {
        lemma_node_map(table, table[i].0);
    }
    lemma_roots_in_table(nodes, table);
    lemma_roots_known(nodes, table);
    let roots = roots_of(nodes, table);
    lemma_distinct_from(table, roots);
    let groups = all_groups(table, roots);
    law_arranged_keeps_values::<GroupTotals, ByGroupRank>(groups);
    let all = arranged::<GroupTotals, ByGroupRank>(groups);
    assert forall|g: GroupTotals| #[trigger] top_groups(table, max).contains(
        g,
    ) implies nodes.contains_key(g.root_pid) by {
        let top = top_groups(table, max);
        let j = choose|j: int| 0 <= j < top.len() && top[j] == g;
        assert(all[j] == g);
        assert(all.contains(g));
        assert(all.to_multiset().contains(g));
        assert(groups.to_multiset().contains(g));
        assert(groups.contains(g));
        let k = choose|k: int| 0 <= k < groups.len() && groups[k] == g;
        let list = distinct_roots(table, roots);
        assert(list[k] == g.root_pid);
        assert(list.contains(g.root_pid));
        let i = choose|i: int|
            0 <= i < table.len() && roots[(#[trigger] table[i]).0] == g.root_pid;
        assert(roots.contains_key(table[i].0));
    }
}

} // verus!
