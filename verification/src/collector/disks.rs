//! Volumes: their rates, and one entry for volumes that share a device.
use vstd::prelude::*;
use vstd::string::*;
use vstd::utf8::encode_utf8;
use super::cpu::{percent_ratio, ratio_percent};
use crate::order::{arrange, arranged, Order};
use crate::overrides::{before, text_less, NameMap};
use crate::rate::{rate_of, rate_per_sec};
use crate::snapshot::DiskSnapshot;
use crate::text::same_text;
use crate::time::Duration;

verus! {

/// The counters of a volume.
#[derive(Debug, Clone, Copy, PartialEq, Eq, Structural)]
pub struct DiskCounters {
    pub total_read_bytes: u64,
    pub total_written_bytes: u64,
}

/// A volume as the system reports it.
#[derive(Debug, Clone)]
pub struct RawDisk {
    pub name: String,
    pub mount_point: String,
    pub file_system: String,
    pub kind: String,
    pub is_removable: bool,
    pub total_bytes: u64,
    pub available_bytes: u64,
    pub counters: DiskCounters,
}

/// What identifies a volume: its device and its mount point.
pub open spec fn key_of(name: Seq<char>, mount_point: Seq<char>) -> Seq<char> {
    name + ":"@ + mount_point
}

/// What identifies a volume.
pub fn disk_key(name: &str, mount_point: &str) -> (r: String)
    ensures
        r@ == key_of(name@, mount_point@),
{
    name.to_owned().concat(":").concat(mount_point)
}

/// Whether a volume has appeared since the refresh before. Nothing is new before
/// the first refresh.
pub open spec fn new_mount(known: Map<Seq<char>, DiskCounters>, key: Seq<char>) -> bool {
    known != Map::<Seq<char>, DiskCounters>::empty() && !known.contains_key(key)
}

/// Whether a volume has appeared since the refresh before.
pub fn is_new_mount(key: &str, known: &NameMap<DiskCounters>) -> (r: bool)
    ensures
        r == new_mount(known.map(), key@),
{
    !known.is_empty() && !known.contains_key(key)
}

/// The rate of a counter since the refresh before, where there was one.
pub open spec fn disk_rates(
    last: Map<Seq<char>, DiskCounters>,
    key: Seq<char>,
    now: DiskCounters,
    elapsed: Option<Duration>,
) -> (Option<u64>, Option<u64>) {
    if elapsed is Some && last.contains_key(key) {
        (
            Some(rate_of(last[key].total_read_bytes, now.total_read_bytes, elapsed->0)),
            Some(rate_of(last[key].total_written_bytes, now.total_written_bytes, elapsed->0)),
        )
    } else {
        (None, None)
    }
}

/// The bytes in use.
pub open spec fn used_of(total: u64, available: u64) -> u64 {
    if total >= available {
        (total - available) as u64
    } else {
        0
    }
}

/// The snapshot of a volume.
pub open spec fn disk_snapshot(
    last: Map<Seq<char>, DiskCounters>,
    raw: RawDisk,
    elapsed: Option<Duration>,
) -> DiskSnapshot {
    let rates = disk_rates(last, key_of(raw.name@, raw.mount_point@), raw.counters, elapsed);
    DiskSnapshot {
        name: raw.name,
        mount_point: raw.mount_point,
        file_system: raw.file_system,
        kind: raw.kind,
        is_removable: raw.is_removable,
        total_bytes: raw.total_bytes,
        available_bytes: raw.available_bytes,
        used_percent: percent_ratio(
            used_of(raw.total_bytes, raw.available_bytes),
            raw.total_bytes,
        ),
        read_bytes_per_sec: rates.0,
        write_bytes_per_sec: rates.1,
    }
}

/// The snapshots of the volumes.
pub open spec fn disk_snapshots(
    last: Map<Seq<char>, DiskCounters>,
    raws: Seq<RawDisk>,
    elapsed: Option<Duration>,
) -> Seq<DiskSnapshot> {
    raws.map_values(|raw: RawDisk| disk_snapshot(last, raw, elapsed))
}

/// The counters of the volumes, and of no others.
pub open spec fn counters_of(raws: Seq<RawDisk>) -> Map<Seq<char>, DiskCounters>
    decreases raws.len(),
{
    if raws.len() == 0 {
        Map::empty()
    } else {
        let raw = raws.last();
        counters_of(raws.drop_last()).insert(key_of(raw.name@, raw.mount_point@), raw.counters)
    }
}

/// The snapshots of the volumes, and the counters for the next refresh.
pub fn build_disks(
    last: &NameMap<DiskCounters>,
    raws: &Vec<RawDisk>,
    elapsed: Option<Duration>,
) -> (r: (Vec<DiskSnapshot>, NameMap<DiskCounters>))
    ensures
        r.0@ == disk_snapshots(last.map(), raws@, elapsed),
        r.1.map() == counters_of(raws@),
{
    let mut snapshots: Vec<DiskSnapshot> = Vec::new();
    let mut counters: NameMap<DiskCounters> = NameMap::new();
    for i in 0..raws.len()
        invariant
            snapshots@ =~= disk_snapshots(last.map(), raws@, elapsed).take(i as int),
            counters.map() == counters_of(raws@.take(i as int)),
    {
        let raw = &raws[i];
        assert(raws@.take(i as int + 1).drop_last() =~= raws@.take(i as int));
        let key = disk_key(raw.name.as_str(), raw.mount_point.as_str());
        let mut read: Option<u64> = None;
        let mut written: Option<u64> = None;
        if let (Some(elapsed), Some(prev)) = (elapsed, last.get(key.as_str())) {
            read = Some(
                rate_per_sec(prev.total_read_bytes, raw.counters.total_read_bytes, elapsed),
            );
            written = Some(
                rate_per_sec(prev.total_written_bytes, raw.counters.total_written_bytes, elapsed),
            );
        }
        counters.insert(key.as_str(), raw.counters);
        let used: u64 = raw.total_bytes.saturating_sub(raw.available_bytes);
        snapshots.push(
            DiskSnapshot {
                name: raw.name.clone(),
                mount_point: raw.mount_point.clone(),
                file_system: raw.file_system.clone(),
                kind: raw.kind.clone(),
                is_removable: raw.is_removable,
                total_bytes: raw.total_bytes,
                available_bytes: raw.available_bytes,
                used_percent: ratio_percent(used, raw.total_bytes),
                read_bytes_per_sec: read,
                write_bytes_per_sec: written,
            },
        );
    }
    assert(snapshots@ =~= disk_snapshots(last.map(), raws@, elapsed));
    assert(raws@.take(raws.len() as int) =~= raws@);
    (snapshots, counters)
}

/// How many bytes a text takes.
pub open spec fn byte_len(s: Seq<char>) -> usize {
    encode_utf8(s).len() as usize
}

/// The place of the volume of that name; their number where there is none.
pub open spec fn name_place(disks: Seq<DiskSnapshot>, name: Seq<char>) -> int
    decreases disks.len(),
{
    if disks.len() == 0 || disks[0].name@ == name {
        0
    } else {
        1 + name_place(disks.drop_first(), name)
    }
}

/// The volumes with one more: a volume of a known name replaces the known one
/// when its mount point is shorter.
pub open spec fn with_disk(best: Seq<DiskSnapshot>, d: DiskSnapshot) -> Seq<DiskSnapshot> {
    let k = name_place(best, d.name@);
    if k >= best.len() {
        best.push(d)
    } else if byte_len(best[k].mount_point@) <= byte_len(d.mount_point@) {
        best
    } else {
        best.update(k, d)
    }
}

/// One volume for each name, the one with the shortest mount point.
pub open spec fn best_named(disks: Seq<DiskSnapshot>) -> Seq<DiskSnapshot>
    decreases disks.len(),
{
    if disks.len() == 0 {
        Seq::empty()
    } else if disks.last().name@.len() == 0 {
        best_named(disks.drop_last())
    } else {
        with_disk(best_named(disks.drop_last()), disks.last())
    }
}

/// The volumes without a name.
pub open spec fn unnamed(disks: Seq<DiskSnapshot>) -> Seq<DiskSnapshot>
    decreases disks.len(),
{
    if disks.len() == 0 {
        Seq::empty()
    } else if disks.last().name@.len() == 0 {
        unnamed(disks.drop_last()).push(disks.last())
    } else {
        unnamed(disks.drop_last())
    }
}

/// By mount point.
pub struct ByMount;

impl Order<DiskSnapshot> for ByMount {
    open spec fn before(a: DiskSnapshot, b: DiskSnapshot) -> bool {
        text_less(a.mount_point@, b.mount_point@)
    }

    fn goes_before(a: &DiskSnapshot, b: &DiskSnapshot) -> (r: bool) {
        before(a.mount_point.as_str(), b.mount_point.as_str())
    }
}

/// One volume for each name and all without one, by mount point.
pub open spec fn deduped(disks: Seq<DiskSnapshot>) -> Seq<DiskSnapshot> {
    arranged::<DiskSnapshot, ByMount>(best_named(disks) + unnamed(disks))
}

/// The place of the volume of that name.
fn find_name(disks: &Vec<DiskSnapshot>, name: &str) -> (r: usize)
    ensures
        r == name_place(disks@, name@),
        r <= disks@.len(),
{
    let mut k: usize = 0;
    assert(disks@.skip(0) =~= disks@);
    while k < disks.len() && !same_text(disks[k].name.as_str(), name)
        invariant
            k <= disks@.len(),
            name_place(disks@, name@) == k + name_place(disks@.skip(k as int), name@),
        decreases disks@.len() - k,
    {
        assert(disks@.skip(k as int).drop_first() =~= disks@.skip(k as int + 1));
        k += 1;
    }
    k
}

/// Keeps one volume for each name, the one with the shortest mount point, and
/// every volume without a name; in the order of the mount points.
pub fn dedupe_disks_by_name(disks: &Vec<DiskSnapshot>) -> (r: Vec<DiskSnapshot>)
    ensures
        r@ == deduped(disks@),
{
    let mut best: Vec<DiskSnapshot> = Vec::new();
    let mut rest: Vec<DiskSnapshot> = Vec::new();
    for i in 0..disks.len()
        invariant
            best@ == best_named(disks@.take(i as int)),
            rest@ == unnamed(disks@.take(i as int)),
    {
        let d = &disks[i];
        assert(disks@.take(i as int + 1).drop_last() =~= disks@.take(i as int));
        if d.name.as_str().is_empty() {
            rest.push(d.duplicate());
        } else {
            let k: usize = find_name(&best, d.name.as_str());
            if k >= best.len() {
                best.push(d.duplicate());
            } else if best[k].mount_point.as_str().len() > d.mount_point.as_str().len() {
                best.set(k, d.duplicate());
            }
        }
    }
    assert(disks@.take(disks.len() as int) =~= disks@);
    best.append(&mut rest);
    arrange::<DiskSnapshot, ByMount>(best)
}

/// The place of a name is where it stands first.
pub(crate) proof fn lemma_name_place(disks: Seq<DiskSnapshot>, name: Seq<char>)
    ensures
        0 <= name_place(disks, name) <= disks.len(),
        name_place(disks, name) < disks.len() ==> disks[name_place(disks, name)].name@ == name,
        forall|j: int| 0 <= j < name_place(disks, name) ==> (#[trigger] disks[j]).name@ != name,
    decreases disks.len(),
{
    if disks.len() > 0 && disks[0].name@ != name {
        let rest = disks.drop_first();
        lemma_name_place(rest, name);
        assert forall|j: int| 0 <= j < name_place(disks, name) implies (#[trigger] disks[j]).name@
            != name by {
            if j > 0 {
                assert(rest[j - 1] == disks[j]);
            }
        }
    }
}

/// Every name occurs once, with a mount point as short as any of that name.
pub proof fn law_one_volume_per_name(disks: Seq<DiskSnapshot>)
    ensures
        forall|i: int, j: int|
            0 <= i < best_named(disks).len() && 0 <= j < best_named(disks).len() && (
            #[trigger] best_named(disks)[i]).name@ == (#[trigger] best_named(disks)[j]).name@ ==> i
                == j,
        forall|i: int|
            0 <= i < best_named(disks).len() ==> (#[trigger] best_named(disks)[i]).name@.len() > 0,
        forall|i: int|
            0 <= i < disks.len() && (#[trigger] disks[i]).name@.len() > 0 ==> ({
                let k = name_place(best_named(disks), disks[i].name@);
                &&& k < best_named(disks).len()
                &&& byte_len(best_named(disks)[k].mount_point@) <= byte_len(disks[i].mount_point@)
            }),
    decreases disks.len(),
{
    if disks.len() > 0 {
        let rest = disks.drop_last();
        let d = disks.last();
        law_one_volume_per_name(rest);
        let was = best_named(rest);
        let now = best_named(disks);
        if d.name@.len() > 0 {
            lemma_name_place(was, d.name@);
            let k = name_place(was, d.name@);
            assert forall|i: int|
                0 <= i < disks.len() && (#[trigger] disks[i]).name@.len() > 0 implies ({
                let m = name_place(now, disks[i].name@);
                &&& m < now.len()
                &&& byte_len(now[m].mount_point@) <= byte_len(disks[i].mount_point@)
            }) by {
                let name = disks[i].name@;
                lemma_name_place(now, name);
                lemma_name_place(was, name);
                let m = name_place(now, name);
                let p = name_place(was, name);
                if i < rest.len() {
                    assert(rest[i] == disks[i]);
                    assert(p < was.len());
                    assert(now[p].name@ == name);
                    assert(m <= p);
                    assert(was[m].name@ == now[m].name@);
                    assert(m == p);
                } else if k >= was.len() {
                    assert(now[was.len() as int] == d);
                } else {
                    assert(now[k].name@ == name);
                    assert(m <= k);
                    assert(was[m].name@ == now[m].name@);
                    assert(m == k);
                }
            }
        } else {
            assert forall|i: int|
                0 <= i < disks.len() && (#[trigger] disks[i]).name@.len() > 0 implies ({
                let m = name_place(now, disks[i].name@);
                &&& m < now.len()
                &&& byte_len(now[m].mount_point@) <= byte_len(disks[i].mount_point@)
            }) by {
                assert(rest[i] == disks[i]);
            }
        }
    }
}

/// Every volume without a name is kept.
pub proof fn law_unnamed_volumes_are_kept(disks: Seq<DiskSnapshot>, i: int)
    requires
        0 <= i < disks.len(),
        disks[i].name@.len() == 0,
    ensures
        unnamed(disks).contains(disks[i]),
    decreases disks.len(),
{
    if i == disks.len() - 1 {
        let all = unnamed(disks);
        assert(all[all.len() - 1] == disks[i]);
    } else {
        let rest = disks.drop_last();
        assert(rest[i] == disks[i]);
        law_unnamed_volumes_are_kept(rest, i);
        let k = choose|k: int| 0 <= k < unnamed(rest).len() && unnamed(rest)[k] == disks[i];
        assert(unnamed(disks)[k] == disks[i]);
    }
}

} // verus!
