//! Network interfaces and their rates.
use vstd::prelude::*;
use vstd::string::*;
use crate::overrides::NameMap;
use crate::rate::{rate_of, rate_per_sec};
use crate::snapshot::NetworkSnapshot;
use crate::time::Duration;

verus! {

/// The counters of an interface.
#[derive(Debug, Clone, Copy, PartialEq, Eq, Structural)]
pub struct NetCounters {
    pub received_bytes: u64,
    pub transmitted_bytes: u64,
    pub received_packets: u64,
    pub transmitted_packets: u64,
    pub received_errors: u64,
    pub transmitted_errors: u64,
}

/// An interface as the system reports it.
#[derive(Debug, Clone)]
pub struct RawNetwork {
    pub interface: String,
    pub counters: NetCounters,
}

/// The snapshot of an interface: its rates since the refresh before, and none on
/// the first.
pub open spec fn network_snapshot(
    last: Map<Seq<char>, NetCounters>,
    raw: RawNetwork,
    elapsed: Option<Duration>,
) -> NetworkSnapshot {
    let now = raw.counters;
    if elapsed is Some && last.contains_key(raw.interface@) {
        let d = elapsed->0;
        let prev = last[raw.interface@];
        NetworkSnapshot {
            interface: raw.interface,
            received_bytes_per_sec: rate_of(prev.received_bytes, now.received_bytes, d),
            transmitted_bytes_per_sec: rate_of(prev.transmitted_bytes, now.transmitted_bytes, d),
            received_packets_per_sec: Some(
                rate_of(prev.received_packets, now.received_packets, d),
            ),
            transmitted_packets_per_sec: Some(
                rate_of(prev.transmitted_packets, now.transmitted_packets, d),
            ),
            received_errors_per_sec: Some(rate_of(prev.received_errors, now.received_errors, d)),
            transmitted_errors_per_sec: Some(
                rate_of(prev.transmitted_errors, now.transmitted_errors, d),
            ),
        }
    } else {
        NetworkSnapshot {
            interface: raw.interface,
            received_bytes_per_sec: 0,
            transmitted_bytes_per_sec: 0,
            received_packets_per_sec: None,
            transmitted_packets_per_sec: None,
            received_errors_per_sec: None,
            transmitted_errors_per_sec: None,
        }
    }
}

/// The snapshots of the interfaces.
pub open spec fn network_snapshots(
    last: Map<Seq<char>, NetCounters>,
    raws: Seq<RawNetwork>,
    elapsed: Option<Duration>,
) -> Seq<NetworkSnapshot> {
    raws.map_values(|raw: RawNetwork| network_snapshot(last, raw, elapsed))
}

/// The counters of the interfaces, and of no others.
pub open spec fn net_counters_of(raws: Seq<RawNetwork>) -> Map<Seq<char>, NetCounters>
    decreases raws.len(),
{
    if raws.len() == 0 {
        Map::empty()
    } else {
        net_counters_of(raws.drop_last()).insert(raws.last().interface@, raws.last().counters)
    }
}

/// The snapshots of the interfaces, and the counters for the next refresh.
pub fn build_networks(
    last: &NameMap<NetCounters>,
    raws: &Vec<RawNetwork>,
    elapsed: Option<Duration>,
) -> (r: (Vec<NetworkSnapshot>, NameMap<NetCounters>))
    ensures
        r.0@ == network_snapshots(last.map(), raws@, elapsed),
        r.1.map() == net_counters_of(raws@),
{
    let mut snapshots: Vec<NetworkSnapshot> = Vec::new();
    let mut counters: NameMap<NetCounters> = NameMap::new();
    for i in 0..raws.len()
        invariant
            snapshots@ =~= network_snapshots(last.map(), raws@, elapsed).take(i as int),
            counters.map() == net_counters_of(raws@.take(i as int)),
    {
        let raw = &raws[i];
        let now = raw.counters;
        assert(raws@.take(i as int + 1).drop_last() =~= raws@.take(i as int));
        let snapshot = match (elapsed, last.get(raw.interface.as_str())) {
            (Some(d), Some(prev)) => NetworkSnapshot {
                interface: raw.interface.clone(),
                received_bytes_per_sec: rate_per_sec(prev.received_bytes, now.received_bytes, d),
                transmitted_bytes_per_sec: rate_per_sec(
                    prev.transmitted_bytes,
                    now.transmitted_bytes,
                    d,
                ),
                received_packets_per_sec: Some(
                    rate_per_sec(prev.received_packets, now.received_packets, d),
                ),
                transmitted_packets_per_sec: Some(
                    rate_per_sec(prev.transmitted_packets, now.transmitted_packets, d),
                ),
                received_errors_per_sec: Some(
                    rate_per_sec(prev.received_errors, now.received_errors, d),
                ),
                transmitted_errors_per_sec: Some(
                    rate_per_sec(prev.transmitted_errors, now.transmitted_errors, d),
                ),
            },
            _ => NetworkSnapshot {
                interface: raw.interface.clone(),
                received_bytes_per_sec: 0,
                transmitted_bytes_per_sec: 0,
                received_packets_per_sec: None,
                transmitted_packets_per_sec: None,
                received_errors_per_sec: None,
                transmitted_errors_per_sec: None,
            },
        };
        counters.insert(raw.interface.as_str(), now);
        snapshots.push(snapshot);
    }
    assert(snapshots@ =~= network_snapshots(last.map(), raws@, elapsed));
    assert(raws@.take(raws.len() as int) =~= raws@);
    (snapshots, counters)
}

} // verus!
