//! What the collector promises of the network interfaces over a run of rounds.
use vstd::prelude::*;
use super::cadence::has_passed;
use super::local::{
    after_network_plan, after_networks, fresh_collector, network_plan, networks_shown,
    CollectorState,
};
use super::networks::{net_counters_of, network_snapshot, network_snapshots, RawNetwork};
use crate::config::CollectorView;
use crate::rate::{is_rate, law_rate_is_the_nearest};
use crate::snapshot::NetworkSnapshot;
use crate::time::{Duration, Instant};

verus! {

/// One round: its time, and the interfaces as the system reports them then.
pub ghost struct NetRound {
    pub now: Instant,
    pub raws: Seq<RawNetwork>,
}

/// What is remembered after the rounds.
pub open spec fn after_net_rounds(s: CollectorState, rounds: Seq<NetRound>) -> CollectorState
    decreases rounds.len(),
{
    if rounds.len() == 0 {
        s
    } else {
        let before = after_net_rounds(s, rounds.drop_last());
        let round = rounds.last();
        after_networks(
            after_network_plan(before, round.now),
            network_plan(before, round.now),
            round.raws,
        )
    }
}

/// The interfaces that the last of the rounds shows.
pub open spec fn last_traffic(s: CollectorState, rounds: Seq<NetRound>) -> Option<
    Seq<NetworkSnapshot>,
> {
    let before = after_net_rounds(s, rounds.drop_last());
    let round = rounds.last();
    networks_shown(
        after_network_plan(before, round.now),
        network_plan(before, round.now),
        round.raws,
    )
}

/// The time of a round, where there is one.
pub open spec fn time_of(round: Option<NetRound>) -> Option<Instant> {
    match round {
        Some(round) => Some(round.now),
        None => None,
    }
}

/// The last round that read the interfaces.
pub open spec fn last_reading(interval: Duration, rounds: Seq<NetRound>) -> Option<NetRound>
    decreases rounds.len(),
{
    if rounds.len() == 0 {
        None
    } else {
        let read = last_reading(interval, rounds.drop_last());
        if has_passed(interval, time_of(read), rounds.last().now) {
            Some(rounds.last())
        } else {
            read
        }
    }
}

/// Whether `raws[j]` is the last interface of that name.
pub open spec fn last_named(raws: Seq<RawNetwork>, j: int, name: Seq<char>) -> bool {
    &&& 0 <= j < raws.len()
    &&& raws[j].interface@ == name
    &&& forall|k: int| j < k < raws.len() ==> (#[trigger] raws[k]).interface@ != name
}

/// Whether an interface is shown with its rates over that time: what it received
/// from the counters of what it received, and what it sent from those of what it
/// sent, in bytes, in packets and in errors.
pub open spec fn shows_rates(
    n: NetworkSnapshot,
    before: RawNetwork,
    now: RawNetwork,
    nanos: u128,
) -> bool {
    let (a, b) = (before.counters, now.counters);
    &&& is_rate(n.received_bytes_per_sec, a.received_bytes, b.received_bytes, nanos)
    &&& is_rate(n.transmitted_bytes_per_sec, a.transmitted_bytes, b.transmitted_bytes, nanos)
    &&& n.received_packets_per_sec is Some
    &&& is_rate(n.received_packets_per_sec->0, a.received_packets, b.received_packets, nanos)
    &&& n.transmitted_packets_per_sec is Some
    &&& is_rate(
        n.transmitted_packets_per_sec->0,
        a.transmitted_packets,
        b.transmitted_packets,
        nanos,
    )
    &&& n.received_errors_per_sec is Some
    &&& is_rate(n.received_errors_per_sec->0, a.received_errors, b.received_errors, nanos)
    &&& n.transmitted_errors_per_sec is Some
    &&& is_rate(n.transmitted_errors_per_sec->0, a.transmitted_errors, b.transmitted_errors, nanos)
}

/// Whether an interface is shown without rates.
pub open spec fn shows_no_rates(n: NetworkSnapshot) -> bool {
    &&& n.received_bytes_per_sec == 0
    &&& n.transmitted_bytes_per_sec == 0
    &&& n.received_packets_per_sec is None
    &&& n.transmitted_packets_per_sec is None
    &&& n.received_errors_per_sec is None
    &&& n.transmitted_errors_per_sec is None
}

/// Whether an interface is shown as it should be: with rates since the reading
/// before, if that one had it, and else without.
pub open spec fn shows_traffic(
    n: NetworkSnapshot,
    raw: RawNetwork,
    read: Option<NetRound>,
    now: Instant,
) -> bool {
    let name = raw.interface@;
    &&& n.interface == raw.interface
    &&& read is Some ==> forall|j: int| #[trigger]
        last_named(read->0.raws, j, name) ==> shows_rates(
            n,
            read->0.raws[j],
            raw,
            if read->0.now.nanos <= now.nanos {
                (now.nanos - read->0.now.nanos) as u128
            } else {
                0
            },
        )
    &&& read is None || (forall|j: int|
        0 <= j < read->0.raws.len() ==> (#[trigger] read->0.raws[j]).interface@ != name)
        ==> shows_no_rates(n)
}

/// The counters that are kept of a name are those of the last interface of it.
proof fn lemma_net_counters(raws: Seq<RawNetwork>, name: Seq<char>)
    ensures
        net_counters_of(raws).contains_key(name) ==> exists|j: int| #[trigger]
            last_named(raws, j, name),
        forall|j: int| #[trigger]
            last_named(raws, j, name) ==> net_counters_of(raws).contains_key(name)
                && net_counters_of(raws)[name] == raws[j].counters,
    decreases raws.len(),
{
    if raws.len() > 0 {
        let rest = raws.drop_last();
        lemma_net_counters(rest, name);
        let n = raws.len() - 1;
        assert(raws.last() == raws[n]);
        if raws.last().interface@ == name {
            assert(last_named(raws, n, name));
            assert forall|j: int| #[trigger] last_named(raws, j, name) implies j == n by {
                assert(j < n ==> raws[n].interface@ != name);
            }
        } else {
            assert forall|j: int| #[trigger] last_named(raws, j, name) implies last_named(
                rest,
                j,
                name,
            ) by {
                assert forall|k: int| j < k < rest.len() implies (
                #[trigger] rest[k]).interface@ != name by {
                    assert(rest[k] == raws[k]);
                }
            }
            if net_counters_of(raws).contains_key(name) {
                let j = choose|j: int| #[trigger] last_named(rest, j, name);
                assert forall|k: int| j < k < raws.len() implies (
                #[trigger] raws[k]).interface@ != name by {
                    if k < rest.len() {
                        assert(rest[k] == raws[k]);
                    }
                }
                assert(last_named(raws, j, name));
            }
        }
    }
}

/// What the collector remembers of the interfaces is what the last reading gave.
proof fn lemma_net_memory(
    config: CollectorView,
    levels: Seq<(String, u32)>,
    start: Instant,
    rounds: Seq<NetRound>,
)
    ensures
        ({
            let s = after_net_rounds(fresh_collector(config, levels, start), rounds);
            let read = last_reading(config.network_refresh_interval, rounds);
            &&& s.config == config
            &&& config.collect_networks ==> {
                &&& read is Some == (rounds.len() > 0)
                &&& s.timers.network == time_of(read)
                &&& read is Some ==> s.net_counters == net_counters_of(read->0.raws)
                &&& rounds.len() > 0 ==> s.networks == last_traffic(
                    fresh_collector(config, levels, start),
                    rounds,
                ) && s.networks is Some
            }
        }),
    decreases rounds.len(),
{
    if rounds.len() > 0 {
        lemma_net_memory(config, levels, start, rounds.drop_last());
    }
}

/// Over any run of rounds there is no list of interfaces exactly if they are not
/// collected. In a round that does not read them the list is the one before, as it
/// was. In one that does, each interface is shown, in the order in which the system
/// reports them; one that the reading before had with its rates since, and every
/// other, so every one on the first round, without.
pub proof fn law_traffic_over_a_run(
    config: CollectorView,
    levels: Seq<(String, u32)>,
    start: Instant,
    rounds: Seq<NetRound>,
)
    requires
        rounds.len() > 0,
    ensures
        ({
            let fresh = fresh_collector(config, levels, start);
            let shown = last_traffic(fresh, rounds);
            let round = rounds.last();
            let read = last_reading(config.network_refresh_interval, rounds.drop_last());
            let due = has_passed(config.network_refresh_interval, time_of(read), round.now);
            &&& shown is None <==> !config.collect_networks
            &&& config.collect_networks && !due ==> rounds.len() > 1 && shown == last_traffic(
                fresh,
                rounds.drop_last(),
            )
            &&& config.collect_networks && due ==> {
                &&& shown->0.len() == round.raws.len()
                &&& forall|i: int|
                    0 <= i < round.raws.len() ==> shows_traffic(
                        #[trigger] shown->0[i],
                        round.raws[i],
                        read,
                        round.now,
                    )
            }
        }),
{
    let fresh = fresh_collector(config, levels, start);
    let round = rounds.last();
    let before = rounds.drop_last();
    lemma_net_memory(config, levels, start, before);
    if config.collect_networks {
        let s = after_net_rounds(fresh, before);
        let read = last_reading(config.network_refresh_interval, before);
        if has_passed(config.network_refresh_interval, time_of(read), round.now) {
            let plan = network_plan(s, round.now);
            let elapsed = plan->Refresh_0;
            let all = network_snapshots(s.net_counters, round.raws, elapsed);
            assert(last_traffic(fresh, rounds) == Some(all));
            assert forall|i: int| 0 <= i < round.raws.len() implies shows_traffic(
                #[trigger] all[i],
                round.raws[i],
                read,
                round.now,
            ) by {
                let raw = round.raws[i];
                let name = raw.interface@;
                assert(all[i] == network_snapshot(s.net_counters, raw, elapsed));
                if read is Some {
                    lemma_net_counters(read->0.raws, name);
                    let b = raw.counters;
                    assert forall|j: int| #[trigger]
                        last_named(read->0.raws, j, name) implies shows_rates(
                        all[i],
                        read->0.raws[j],
                        raw,
                        elapsed->0.nanos,
                    ) by {
                        let a = read->0.raws[j].counters;
                        let d = elapsed->0;
                        law_rate_is_the_nearest(a.received_bytes, b.received_bytes, d);
                        law_rate_is_the_nearest(a.transmitted_bytes, b.transmitted_bytes, d);
                        law_rate_is_the_nearest(a.received_packets, b.received_packets, d);
                        law_rate_is_the_nearest(a.transmitted_packets, b.transmitted_packets, d);
                        law_rate_is_the_nearest(a.received_errors, b.received_errors, d);
                        law_rate_is_the_nearest(a.transmitted_errors, b.transmitted_errors, d);
                    }
                    if s.net_counters.contains_key(name) {
                        let j = choose|j: int| #[trigger] last_named(read->0.raws, j, name);
                        assert(read->0.raws[j].interface@ == name);
                    }
                }
            }
        }
    }
}

} // verus!
