//! What the collector promises of the volumes over a run of rounds.
use vstd::prelude::*;
use vstd::utf8::encode_utf8;
use super::disks::{
    best_named, counters_of, deduped, disk_snapshot, disk_snapshots, key_of,
    law_one_volume_per_name, lemma_name_place, name_place, new_mount, unnamed, used_of, ByMount,
    RawDisk,
};
use super::local::{
    after_disk_plan, after_disks, disk_plan, disks_shown, elapsed_since, fresh_collector,
    CollectorState,
};
use super::shares::{is_share, law_percentage_is_the_share};
use crate::config::CollectorView;
use crate::order::{
    arranged, count, law_arranged_is_in_order, law_arranged_keeps_values, lemma_arranged_contains,
    lemma_count_all, lemma_count_arranged, lemma_count_concat, lemma_count_one, lemma_count_parts,
    weak_order, Order,
};
use crate::overrides::{
    lemma_less_irreflexive, lemma_less_total, lemma_less_transitive, text_less,
};
use crate::rate::{is_rate, law_rate_is_the_nearest, rate_of};
use crate::snapshot::DiskSnapshot;
use crate::time::{nanos_since, Duration, Instant};

verus! {

/// One round: its time, and the volumes as the system reports them then.
pub ghost struct DiskRound {
    pub now: Instant,
    pub raws: Seq<RawDisk>,
}

/// What is remembered after one round.
pub open spec fn after_disk_round(s: CollectorState, round: DiskRound) -> CollectorState {
    after_disks(after_disk_plan(s, round.now), disk_plan(s, round.now), round.raws)
}

/// What is remembered after the rounds.
pub open spec fn after_disk_rounds(s: CollectorState, rounds: Seq<DiskRound>) -> CollectorState
    decreases rounds.len(),
{
    if rounds.len() == 0 {
        s
    } else {
        after_disk_round(after_disk_rounds(s, rounds.drop_last()), rounds.last())
    }
}

/// The volumes that the last of the rounds shows.
pub open spec fn last_shown(s: CollectorState, rounds: Seq<DiskRound>) -> Option<
    Seq<DiskSnapshot>,
> {
    let before = after_disk_rounds(s, rounds.drop_last());
    let round = rounds.last();
    disks_shown(after_disk_plan(before, round.now), disk_plan(before, round.now), round.raws)
}

/// Whether the volumes are due, by the last round that read them.
pub open spec fn round_due(
    interval: Duration,
    read: Option<DiskRound>,
    now: Instant,
) -> bool {
    read is None || nanos_since(now, read->0.now) >= interval.nanos
}

/// The last round that read the volumes.
pub open spec fn last_read(interval: Duration, rounds: Seq<DiskRound>) -> Option<DiskRound>
    decreases rounds.len(),
{
    if rounds.len() == 0 {
        None
    } else {
        let read = last_read(interval, rounds.drop_last());
        if round_due(interval, read, rounds.last().now) {
            Some(rounds.last())
        } else {
            read
        }
    }
}

/// Whether a volume is the one with that key.
pub open spec fn has_key(raw: RawDisk, key: Seq<char>) -> bool {
    raw.name@ + ":"@ + raw.mount_point@ == key
}

/// Whether `raws[j]` is the last with that key.
pub open spec fn last_with_key(raws: Seq<RawDisk>, j: int, key: Seq<char>) -> bool {
    &&& 0 <= j < raws.len()
    &&& has_key(raws[j], key)
    &&& forall|k: int| j < k < raws.len() ==> !has_key(#[trigger] raws[k], key)
}

/// Whether a volume is shown as the system reports it, with the share in use, and
/// with the right rates at `now`: both, since the reading before, if that one had
/// the volume, and else none.
pub open spec fn rated(
    d: DiskSnapshot,
    raw: RawDisk,
    read: Option<DiskRound>,
    now: Instant,
) -> bool {
    let key = raw.name@ + ":"@ + raw.mount_point@;
    &&& d.name == raw.name
    &&& d.mount_point == raw.mount_point
    &&& d.file_system == raw.file_system
    &&& d.kind == raw.kind
    &&& d.is_removable == raw.is_removable
    &&& d.total_bytes == raw.total_bytes
    &&& d.available_bytes == raw.available_bytes
    &&& is_share(
        d.used_percent,
        if raw.available_bytes <= raw.total_bytes {
            (raw.total_bytes - raw.available_bytes) as u64
        } else {
            0
        },
        raw.total_bytes,
    )
    &&& read is Some ==> forall|j: int| #[trigger]
        last_with_key(read->0.raws, j, key) ==> {
            let since = Duration { nanos: nanos_since(now, read->0.now) as u128 };
            let was = read->0.raws[j].counters;
            &&& d.read_bytes_per_sec == Some(
                rate_of(was.total_read_bytes, raw.counters.total_read_bytes, since),
            )
            &&& d.write_bytes_per_sec == Some(
                rate_of(was.total_written_bytes, raw.counters.total_written_bytes, since),
            )
            &&& is_rate(
                d.read_bytes_per_sec->0,
                was.total_read_bytes,
                raw.counters.total_read_bytes,
                since.nanos,
            )
            &&& is_rate(
                d.write_bytes_per_sec->0,
                was.total_written_bytes,
                raw.counters.total_written_bytes,
                since.nanos,
            )
        }
    &&& read is None || (forall|j: int|
        0 <= j < read->0.raws.len() ==> !has_key(#[trigger] read->0.raws[j], key)) ==> {
        d.read_bytes_per_sec is None && d.write_bytes_per_sec is None
    }
}

/// The counters that are kept of a key are those of the last volume with it.
proof fn lemma_counters(raws: Seq<RawDisk>, key: Seq<char>)
    ensures
        counters_of(raws).contains_key(key) ==> exists|j: int| #[trigger]
            last_with_key(raws, j, key),
        forall|j: int| #[trigger]
            last_with_key(raws, j, key) ==> counters_of(raws).contains_key(key) && counters_of(
                raws,
            )[key] == raws[j].counters,
    decreases raws.len(),
{
    if raws.len() > 0 {
        let rest = raws.drop_last();
        lemma_counters(rest, key);
        if has_key(raws.last(), key) {
            assert(last_with_key(raws, raws.len() - 1, key));
            assert forall|j: int| #[trigger] last_with_key(raws, j, key) implies j == raws.len()
                - 1 by {
                assert(j < raws.len() - 1 ==> !has_key(raws[raws.len() - 1], key));
            }
        } else {
            assert forall|j: int| #[trigger] last_with_key(raws, j, key) implies last_with_key(
                rest,
                j,
                key,
            ) by {
                assert forall|k: int| j < k < rest.len() implies !has_key(
                    #[trigger] rest[k],
                    key,
                ) by {
                    assert(rest[k] == raws[k]);
                }
            }
            if counters_of(raws).contains_key(key) {
                let j = choose|j: int| #[trigger] last_with_key(rest, j, key);
                assert forall|k: int| j < k < raws.len() implies !has_key(
                    #[trigger] raws[k],
                    key,
                ) by {
                    if k < rest.len() {
                        assert(rest[k] == raws[k]);
                    }
                }
                assert(last_with_key(raws, j, key));
            }
        }
    }
}

/// Rounds do not change the settings.
proof fn lemma_settings_stay(s: CollectorState, rounds: Seq<DiskRound>)
    ensures
        after_disk_rounds(s, rounds).config == s.config,
    decreases rounds.len(),
{
    if rounds.len() > 0 {
        lemma_settings_stay(s, rounds.drop_last());
    }
}

/// What the collector remembers of the volumes is what the last reading gave.
proof fn lemma_disk_memory(
    config: CollectorView,
    levels: Seq<(String, u32)>,
    start: Instant,
    rounds: Seq<DiskRound>,
)
    requires
        config.collect_disks,
    ensures
        ({
            let s = after_disk_rounds(fresh_collector(config, levels, start), rounds);
            let read = last_read(config.disk_io_refresh_interval, rounds);
            &&& s.config == config
            &&& read is Some == (rounds.len() > 0)
            &&& s.timers.disk_io == match read {
                Some(round) => Some(round.now),
                None => None,
            }
            &&& read is Some ==> s.disk_counters == counters_of(read->0.raws)
            &&& rounds.len() > 0 ==> s.disks == last_shown(
                fresh_collector(config, levels, start),
                rounds,
            ) && s.disks is Some
        }),
    decreases rounds.len(),
{
    if rounds.len() > 0 {
        lemma_disk_memory(config, levels, start, rounds.drop_last());
    }
}

/// One entry for volumes that share a name leaves entries of the list only.
proof fn lemma_named_among(disks: Seq<DiskSnapshot>)
    ensures
        forall|k: int|
            0 <= k < best_named(disks).len() ==> disks.contains(#[trigger] best_named(disks)[k]),
        forall|k: int|
            0 <= k < unnamed(disks).len() ==> disks.contains(#[trigger] unnamed(disks)[k]),
    decreases disks.len(),
{
    if disks.len() > 0 {
        let rest = disks.drop_last();
        lemma_named_among(rest);
        assert(disks.contains(disks[disks.len() - 1]));
        assert forall|d: DiskSnapshot| rest.contains(d) implies disks.contains(d) by {
            let i = choose|i: int| 0 <= i < rest.len() && rest[i] == d;
            assert(disks[i] == d);
        }
        let was = best_named(rest);
        lemma_name_place(was, disks.last().name@);
        assert forall|k: int| 0 <= k < best_named(disks).len() implies disks.contains(
            #[trigger] best_named(disks)[k],
        ) by {
            if k < was.len() {
                assert(rest.contains(was[k]));
                assert(best_named(disks)[k] == was[k] || best_named(disks)[k] == disks.last());
            }
        }
        assert forall|k: int| 0 <= k < unnamed(disks).len() implies disks.contains(
            #[trigger] unnamed(disks)[k],
        ) by {
            if k < unnamed(rest).len() {
                assert(rest.contains(unnamed(rest)[k]));
            }
        }
    }
}

/// Every entry that is left comes from the list.
proof fn lemma_deduped_among(disks: Seq<DiskSnapshot>, k: int)
    requires
        0 <= k < deduped(disks).len(),
    ensures
        disks.contains(deduped(disks)[k]),
{
    broadcast use vstd::seq_lib::group_to_multiset_ensures;

    let all = best_named(disks) + unnamed(disks);
    let d = deduped(disks)[k];
    lemma_named_among(disks);
    law_arranged_keeps_values::<DiskSnapshot, ByMount>(all);
    assert(arranged::<DiskSnapshot, ByMount>(all).contains(d));
    assert(arranged::<DiskSnapshot, ByMount>(all).to_multiset().count(d) > 0);
    assert(all.contains(d));
    let i = choose|i: int| 0 <= i < all.len() && all[i] == d;
    if i < best_named(disks).len() {
        assert(best_named(disks)[i] == d);
    } else {
        assert(unnamed(disks)[i - best_named(disks).len()] == d);
    }
}

/// Over any run of rounds there is no list of volumes exactly if they are not
/// collected. In a round that does not read them the list is the one before, as it
/// was. In one that does, a volume that the reading before had is shown with both
/// its rates, over the time since that reading, and every other volume, so every
/// one on the first round, without either. Volumes are told apart by name and
/// mount point, joined by a colon.
pub proof fn law_volumes_over_a_run(
    config: CollectorView,
    levels: Seq<(String, u32)>,
    start: Instant,
    rounds: Seq<DiskRound>,
)
    requires
        rounds.len() > 0,
    ensures
        ({
            let fresh = fresh_collector(config, levels, start);
            let shown = last_shown(fresh, rounds);
            let round = rounds.last();
            let read = last_read(config.disk_io_refresh_interval, rounds.drop_last());
            let due = round_due(config.disk_io_refresh_interval, read, round.now);
            &&& shown is None <==> !config.collect_disks
            &&& config.collect_disks && !due ==> rounds.len() > 1 && shown == last_shown(
                fresh,
                rounds.drop_last(),
            )
            &&& config.collect_disks && due ==> forall|k: int|
                0 <= k < shown->0.len() ==> exists|i: int|
                    0 <= i < round.raws.len() && rated(
                        #[trigger] shown->0[k],
                        #[trigger] round.raws[i],
                        read,
                        round.now,
                    )
            &&& config.collect_disks && due && !config.dedupe_disks ==> {
                &&& shown->0.len() == round.raws.len()
                &&& forall|i: int|
                    0 <= i < round.raws.len() ==> rated(
                        #[trigger] shown->0[i],
                        round.raws[i],
                        read,
                        round.now,
                    )
            }
        }),
{
    let fresh = fresh_collector(config, levels, start);
    let round = rounds.last();
    let before = rounds.drop_last();
    lemma_settings_stay(fresh, before);
    if config.collect_disks {
        lemma_disk_memory(config, levels, start, before);
        lemma_disk_memory(config, levels, start, rounds);
        let s = after_disk_rounds(fresh, before);
        let read = last_read(config.disk_io_refresh_interval, before);
        if round_due(config.disk_io_refresh_interval, read, round.now) {
            let elapsed = elapsed_since(s.timers.disk_io, round.now);
            let all = disk_snapshots(s.disk_counters, round.raws, elapsed);
            assert forall|i: int| 0 <= i < round.raws.len() implies rated(
                #[trigger] all[i],
                round.raws[i],
                read,
                round.now,
            ) by {
                let raw = round.raws[i];
                let key = key_of(raw.name@, raw.mount_point@);
                assert(all[i] == disk_snapshot(s.disk_counters, raw, elapsed));
                law_percentage_is_the_share(
                    used_of(raw.total_bytes, raw.available_bytes),
                    raw.total_bytes,
                );
                if read is Some {
                    lemma_counters(read->0.raws, key);
                    assert forall|j: int| #[trigger]
                        last_with_key(read->0.raws, j, key) implies is_rate(
                        all[i].read_bytes_per_sec->0,
                        read->0.raws[j].counters.total_read_bytes,
                        raw.counters.total_read_bytes,
                        elapsed->0.nanos,
                    ) && is_rate(
                        all[i].write_bytes_per_sec->0,
                        read->0.raws[j].counters.total_written_bytes,
                        raw.counters.total_written_bytes,
                        elapsed->0.nanos,
                    ) by {
                        let was = read->0.raws[j].counters;
                        let d = elapsed->0;
                        law_rate_is_the_nearest(
                            was.total_read_bytes,
                            raw.counters.total_read_bytes,
                            d,
                        );
                        law_rate_is_the_nearest(
                            was.total_written_bytes,
                            raw.counters.total_written_bytes,
                            d,
                        );
                    }
                    if s.disk_counters.contains_key(key) {
                        let j = choose|j: int| #[trigger] last_with_key(read->0.raws, j, key);
                        assert(has_key(read->0.raws[j], key));
                    }
                }
            }
            let shown = last_shown(fresh, rounds)->0;
            assert forall|k: int| 0 <= k < shown.len() implies exists|i: int|
                0 <= i < round.raws.len() && rated(
                    #[trigger] shown[k],
                    #[trigger] round.raws[i],
                    read,
                    round.now,
                ) by {
                if config.dedupe_disks {
                    lemma_deduped_among(all, k);
                    let i = choose|i: int| 0 <= i < all.len() && all[i] == shown[k];
                    assert(rated(all[i], round.raws[i], read, round.now));
                } else {
                    assert(rated(all[k], round.raws[k], read, round.now));
                }
            }
        }
    }
}

/// The named volumes that are left: one for each name, with a mount point as short
/// as any of that name.
proof fn lemma_named_once(disks: Seq<DiskSnapshot>, d: DiskSnapshot)
    requires
        disks.contains(d),
        d.name@.len() > 0,
    ensures
        ({
            let left = best_named(disks) + unnamed(disks);
            &&& count(left, |x: DiskSnapshot| x.name@ == d.name@) == 1
            &&& forall|k: int|
                0 <= k < left.len() && (#[trigger] left[k]).name@ == d.name@ ==> encode_utf8(
                    left[k].mount_point@,
                ).len() as usize <= encode_utf8(d.mount_point@).len() as usize
        }),
{
    let named = best_named(disks);
    let other = unnamed(disks);
    let left = named + other;
    let which = |x: DiskSnapshot| x.name@ == d.name@;
    law_one_volume_per_name(disks);
    lemma_unnamed(disks, d);
    let i = choose|i: int| 0 <= i < disks.len() && disks[i] == d;
    assert(disks[i].name@.len() > 0);
    lemma_name_place(named, d.name@);
    let k = name_place(named, d.name@);
    assert(named[k].name@ == d.name@);
    lemma_count_concat(named, other, which);
    assert forall|j: int| 0 <= j < other.len() implies !which(#[trigger] other[j]) by {}
    lemma_count_all(other, which);
    lemma_count_parts(named, k, which);
    let a = named.take(k);
    let b = named.skip(k);
    assert forall|j: int| 0 <= j < a.len() implies !which(#[trigger] a[j]) by {
        assert(named[j].name@ != d.name@);
    }
    lemma_count_all(a, which);
    lemma_count_parts(b, 1, which);
    assert(b.take(1) =~= seq![named[k]]);
    lemma_count_one(named[k], which);
    let c = b.skip(1);
    assert forall|j: int| 0 <= j < c.len() implies !which(#[trigger] c[j]) by {
        assert(c[j] == named[k + 1 + j]);
    }
    lemma_count_all(c, which);
    assert forall|m: int| 0 <= m < left.len() && (#[trigger] left[m]).name@
        == d.name@ implies encode_utf8(left[m].mount_point@).len() as usize <= encode_utf8(
        d.mount_point@,
    ).len() as usize by {
        if m < named.len() {
            assert(named[m] == left[m]);
            assert(m == k);
        } else {
            assert(other[m - named.len()] == left[m]);
        }
    }
}

/// The volumes without a name are all of them, and no others.
proof fn lemma_unnamed(disks: Seq<DiskSnapshot>, d: DiskSnapshot)
    ensures
        forall|j: int| 0 <= j < unnamed(disks).len() ==> (#[trigger] unnamed(disks)[j]).name@.len()
            == 0,
        d.name@.len() == 0 ==> count(unnamed(disks), |x: DiskSnapshot| x == d) == count(
            disks,
            |x: DiskSnapshot| x == d,
        ),
    decreases disks.len(),
{
    if disks.len() > 0 {
        lemma_unnamed(disks.drop_last(), d);
        if disks.last().name@.len() == 0 {
            assert(unnamed(disks).drop_last() =~= unnamed(disks.drop_last()));
        }
    }
}

/// The order of mount points.
proof fn lemma_mounts_ordered()
    ensures
        weak_order::<DiskSnapshot, ByMount>(),
{
    assert forall|a: Seq<char>, b: Seq<char>| #[trigger] text_less(a, b) implies !text_less(
        b,
        a,
    ) by {
        if text_less(b, a) {
            lemma_less_transitive(a, b, a);
            lemma_less_irreflexive(a);
        }
    }
    assert forall|a: Seq<char>, b: Seq<char>, c: Seq<char>|
        #![trigger text_less(b, a), text_less(c, b)]
        !text_less(b, a) && !text_less(c, b) implies !text_less(c, a) by {
        if text_less(c, a) {
            lemma_less_total(b, c);
            if text_less(b, c) {
                lemma_less_transitive(b, c, a);
            }
        }
    }
}

/// Volumes that share a name are shown as one, that with the shortest mount point,
/// in bytes. Volumes without a name are all shown. What is shown comes from the
/// list, in the order of the mount points.
pub proof fn law_shared_volumes_are_shown_once(disks: Seq<DiskSnapshot>, d: DiskSnapshot)
    requires
        disks.contains(d),
    ensures
        ({
            let shown = deduped(disks);
            &&& forall|k: int| 0 <= k < shown.len() ==> disks.contains(#[trigger] shown[k])
            &&& forall|i: int, j: int|
                0 <= i < j < shown.len() ==> !text_less(
                    (#[trigger] shown[j]).mount_point@,
                    (#[trigger] shown[i]).mount_point@,
                )
            &&& d.name@.len() > 0 ==> {
                &&& count(shown, |x: DiskSnapshot| x.name@ == d.name@) == 1
                &&& forall|k: int|
                    0 <= k < shown.len() && (#[trigger] shown[k]).name@ == d.name@ ==> encode_utf8(
                        shown[k].mount_point@,
                    ).len() as usize <= encode_utf8(d.mount_point@).len() as usize
            }
            &&& d.name@.len() == 0 ==> count(shown, |x: DiskSnapshot| x == d) == count(
                disks,
                |x: DiskSnapshot| x == d,
            )
        }),
{
    let left = best_named(disks) + unnamed(disks);
    let shown = deduped(disks);
    assert forall|k: int| 0 <= k < shown.len() implies disks.contains(#[trigger] shown[k]) by {
        lemma_deduped_among(disks, k);
    }
    lemma_mounts_ordered();
    law_arranged_is_in_order::<DiskSnapshot, ByMount>(left);
    assert forall|i: int, j: int| 0 <= i < j < shown.len() implies !text_less(
        (#[trigger] shown[j]).mount_point@,
        (#[trigger] shown[i]).mount_point@,
    ) by {
        assert(!ByMount::before(shown[j], shown[i]));
    }
    if d.name@.len() > 0 {
        lemma_named_once(disks, d);
        lemma_count_arranged::<DiskSnapshot, ByMount>(
            left,
            |x: DiskSnapshot| x.name@ == d.name@,
        );
        assert forall|k: int| 0 <= k < shown.len() && (#[trigger] shown[k]).name@
            == d.name@ implies encode_utf8(shown[k].mount_point@).len() as usize <= encode_utf8(
            d.mount_point@,
        ).len() as usize by {
            lemma_arranged_contains::<DiskSnapshot, ByMount>(left, shown[k]);
            assert(shown.contains(shown[k]));
            let m = choose|m: int| 0 <= m < left.len() && left[m] == shown[k];
            assert(left[m].name@ == d.name@);
        }
    } else {
        let which = |x: DiskSnapshot| x == d;
        lemma_unnamed(disks, d);
        law_one_volume_per_name(disks);
        lemma_count_arranged::<DiskSnapshot, ByMount>(left, which);
        lemma_count_concat(best_named(disks), unnamed(disks), which);
        let named = best_named(disks);
        assert forall|j: int| 0 <= j < named.len() implies !which(#[trigger] named[j]) by {}
        lemma_count_all(named, which);
        assert(count(unnamed(disks), |x: DiskSnapshot| x == d) == count(
            disks,
            |x: DiskSnapshot| x == d,
        ));
    }
}

/// A volume is new if the reading before had others and not this one: then its
/// capacity is read out of turn. Before the first reading, and after one without
/// volumes, none is new.
pub proof fn law_new_volumes(raws: Seq<RawDisk>, name: Seq<char>, mount: Seq<char>)
    ensures
        new_mount(counters_of(raws), key_of(name, mount)) <==> raws.len() > 0 && forall|j: int|
            0 <= j < raws.len() ==> (#[trigger] raws[j]).name@ + ":"@ + raws[j].mount_point@ != name
                + ":"@ + mount,
{
    let key = key_of(name, mount);
    lemma_counters(raws, key);
    let m = counters_of(raws);
    if raws.len() > 0 {
        let last = raws.last();
        assert(m.contains_key(key_of(last.name@, last.mount_point@)));
        if m.contains_key(key) {
            let j = choose|j: int| #[trigger] last_with_key(raws, j, key);
            assert(has_key(raws[j], key));
        } else {
            assert forall|j: int| 0 <= j < raws.len() implies (#[trigger] raws[j]).name@ + ":"@
                + raws[j].mount_point@ != name + ":"@ + mount by {
                lemma_key_counted(raws, j);
            }
        }
    }
}

/// The key of every volume is counted.
proof fn lemma_key_counted(raws: Seq<RawDisk>, j: int)
    requires
        0 <= j < raws.len(),
    ensures
        counters_of(raws).contains_key(key_of(raws[j].name@, raws[j].mount_point@)),
    decreases raws.len(),
{
    let rest = raws.drop_last();
    if j < rest.len() {
        assert(rest[j] == raws[j]);
        lemma_key_counted(rest, j);
    }
}

} // verus!
