//! Rates of the whole machine.
use vstd::prelude::*;
use crate::rate::capped64;
use crate::snapshot::{DiskSnapshot, DriveSnapshot, IoTotalsSnapshot, NetworkSnapshot};

verus! {

/// Known rates added up; nothing when none is known.
pub open spec fn known_sum(rates: Seq<Option<u64>>) -> Option<nat>
    decreases rates.len(),
{
    if rates.len() == 0 {
        None
    } else {
        match (known_sum(rates.drop_last()), rates.last()) {
            (Some(sum), Some(rate)) => Some(sum + rate as nat),
            (None, Some(rate)) => Some(rate as nat),
            (sum, None) => sum,
        }
    }
}

/// Known rates added up, kept to 64 bits; nothing when none is known.
pub open spec fn optional_total(rates: Seq<Option<u64>>) -> Option<u64> {
    match known_sum(rates) {
        Some(sum) => Some(capped64(sum)),
        None => None,
    }
}

/// Known rates added up; nothing when none is known.
pub fn sum_optional_rates(rates: &Vec<Option<u64>>) -> (r: Option<u64>)
    ensures
        r == optional_total(rates@),
{
    let mut total: Option<u64> = None;
    for i in 0..rates.len()
        invariant
            total == optional_total(rates@.take(i as int)),
    {
        assert(rates@.take(i as int + 1).drop_last() =~= rates@.take(i as int));
        if let Some(rate) = rates[i] {
            total = match total {
                Some(sum) => Some(sum.saturating_add(rate)),
                None => Some(rate),
            };
        }
    }
    assert(rates@.take(rates.len() as int) =~= rates@);
    total
}

/// Rates added up; a list always has a total.
pub open spec fn plain_sum(rates: Seq<u64>) -> nat
    decreases rates.len(),
{
    if rates.len() == 0 {
        0
    } else {
        plain_sum(rates.drop_last()) + rates.last() as nat
    }
}

/// Rates added up, kept to 64 bits.
fn sum_rates(rates: &Vec<u64>) -> (r: u64)
    ensures
        r == capped64(plain_sum(rates@)),
{
    let mut total: u64 = 0;
    for i in 0..rates.len()
        invariant
            total == capped64(plain_sum(rates@.take(i as int))),
    {
        assert(rates@.take(i as int + 1).drop_last() =~= rates@.take(i as int));
        total = total.saturating_add(rates[i]);
    }
    assert(rates@.take(rates.len() as int) =~= rates@);
    total
}

/// The read rates of volumes.
pub open spec fn disk_reads(disks: Seq<DiskSnapshot>) -> Seq<Option<u64>> {
    disks.map_values(|d: DiskSnapshot| d.read_bytes_per_sec)
}

/// The write rates of volumes.
pub open spec fn disk_writes(disks: Seq<DiskSnapshot>) -> Seq<Option<u64>> {
    disks.map_values(|d: DiskSnapshot| d.write_bytes_per_sec)
}

/// The receive rates of interfaces.
pub open spec fn received(networks: Seq<NetworkSnapshot>) -> Seq<u64> {
    networks.map_values(|n: NetworkSnapshot| n.received_bytes_per_sec)
}

/// The transmit rates of interfaces.
pub open spec fn transmitted(networks: Seq<NetworkSnapshot>) -> Seq<u64> {
    networks.map_values(|n: NetworkSnapshot| n.transmitted_bytes_per_sec)
}

/// The read operations of drives.
pub open spec fn read_ops(drives: Seq<DriveSnapshot>) -> Seq<Option<u64>> {
    drives.map_values(|d: DriveSnapshot| d.read_ops_per_sec)
}

/// The write operations of drives.
pub open spec fn write_ops(drives: Seq<DriveSnapshot>) -> Seq<Option<u64>> {
    drives.map_values(|d: DriveSnapshot| d.write_ops_per_sec)
}

/// The totals of the machine: bytes over volumes and interfaces, operations over
/// drives.
pub open spec fn totals(
    disks: Option<Seq<DiskSnapshot>>,
    networks: Option<Seq<NetworkSnapshot>>,
    drives: Option<Seq<DriveSnapshot>>,
) -> IoTotalsSnapshot {
    IoTotalsSnapshot {
        disk_read_bytes_per_sec: match disks {
            Some(d) => optional_total(disk_reads(d)),
            None => None,
        },
        disk_write_bytes_per_sec: match disks {
            Some(d) => optional_total(disk_writes(d)),
            None => None,
        },
        network_received_bytes_per_sec: match networks {
            Some(n) => Some(capped64(plain_sum(received(n)))),
            None => None,
        },
        network_transmitted_bytes_per_sec: match networks {
            Some(n) => Some(capped64(plain_sum(transmitted(n)))),
            None => None,
        },
        disk_read_ops_per_sec: match drives {
            Some(d) => optional_total(read_ops(d)),
            None => None,
        },
        disk_write_ops_per_sec: match drives {
            Some(d) => optional_total(write_ops(d)),
            None => None,
        },
    }
}

/// The items of an optional list.
pub open spec fn items<T>(list: Option<&Vec<T>>) -> Option<Seq<T>> {
    match list {
        Some(list) => Some(list@),
        None => None,
    }
}

/// The totals of the machine.
pub fn io_totals_from(
    disks: Option<&Vec<DiskSnapshot>>,
    networks: Option<&Vec<NetworkSnapshot>>,
    drives: Option<&Vec<DriveSnapshot>>,
) -> (r: IoTotalsSnapshot)
    ensures
        r == totals(items(disks), items(networks), items(drives)),
{
    let mut r = IoTotalsSnapshot::default();
    if let Some(disks) = disks {
        let mut reads: Vec<Option<u64>> = Vec::new();
        let mut writes: Vec<Option<u64>> = Vec::new();
        for i in 0..disks.len()
            invariant
                reads@ =~= disk_reads(disks@).take(i as int),
                writes@ =~= disk_writes(disks@).take(i as int),
        {
            reads.push(disks[i].read_bytes_per_sec);
            writes.push(disks[i].write_bytes_per_sec);
        }
        assert(reads@ =~= disk_reads(disks@));
        assert(writes@ =~= disk_writes(disks@));
        r.disk_read_bytes_per_sec = sum_optional_rates(&reads);
        r.disk_write_bytes_per_sec = sum_optional_rates(&writes);
    }
    if let Some(networks) = networks {
        let mut down: Vec<u64> = Vec::new();
        let mut up: Vec<u64> = Vec::new();
        for i in 0..networks.len()
            invariant
                down@ =~= received(networks@).take(i as int),
                up@ =~= transmitted(networks@).take(i as int),
        {
            down.push(networks[i].received_bytes_per_sec);
            up.push(networks[i].transmitted_bytes_per_sec);
        }
        assert(down@ =~= received(networks@));
        assert(up@ =~= transmitted(networks@));
        r.network_received_bytes_per_sec = Some(sum_rates(&down));
        r.network_transmitted_bytes_per_sec = Some(sum_rates(&up));
    }
    if let Some(drives) = drives {
        let mut reads: Vec<Option<u64>> = Vec::new();
        let mut writes: Vec<Option<u64>> = Vec::new();
        for i in 0..drives.len()
            invariant
                reads@ =~= read_ops(drives@).take(i as int),
                writes@ =~= write_ops(drives@).take(i as int),
        {
            reads.push(drives[i].read_ops_per_sec);
            writes.push(drives[i].write_ops_per_sec);
        }
        assert(reads@ =~= read_ops(drives@));
        assert(writes@ =~= write_ops(drives@));
        r.disk_read_ops_per_sec = sum_optional_rates(&reads);
        r.disk_write_ops_per_sec = sum_optional_rates(&writes);
    }
    r
}

/// There is no total when no rate is known, and one as soon as one rate is.
pub proof fn law_total_needs_a_known_rate(rates: Seq<Option<u64>>)
    ensures
        optional_total(rates) is None <==> forall|i: int|
            0 <= i < rates.len() ==> (#[trigger] rates[i]) is None,
    decreases rates.len(),
{
    if rates.len() > 0 {
        let rest = rates.drop_last();
        law_total_needs_a_known_rate(rest);
        if optional_total(rates) is None {
            assert forall|i: int| 0 <= i < rates.len() implies (#[trigger] rates[i]) is None by {
                if i < rest.len() {
                    assert(rest[i] == rates[i]);
                }
            }
        } else if rates.last() is Some {
            assert(rates[rates.len() - 1] is Some);
        } else {
            let i = choose|i: int| 0 <= i < rest.len() && (#[trigger] rest[i]) is Some;
            assert(rates[i] is Some);
        }
    }
}

} // verus!
