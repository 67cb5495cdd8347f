//! Temperature sensors.
use vstd::prelude::*;
use vstd::string::*;
use crate::order::{arrange, arranged, Order};
use crate::snapshot::TemperatureSnapshot;

verus! {

/// The lowest plausible temperature, in millionths of a degree.
pub const TEMP_CELSIUS_MIN: i64 = -20_000_000;

/// The highest plausible temperature.
pub const TEMP_CELSIUS_MAX: i64 = 150_000_000;

/// A sensor as the system reports it. A reading that is no number is absent.
#[derive(Debug, Clone)]
pub struct RawSensor {
    pub label: String,
    pub celsius: Option<i64>,
    pub max: Option<i64>,
    pub critical: Option<i64>,
}

/// Whether a reading is there and within the range of silicon and rooms.
pub open spec fn plausible(t: Option<i64>) -> bool {
    t is Some && TEMP_CELSIUS_MIN <= t->0 <= TEMP_CELSIUS_MAX
}

/// Whether a reading is plausible.
pub fn is_plausible_celsius(t: Option<i64>) -> (r: bool)
    ensures
        r == plausible(t),
{
    match t {
        Some(t) => TEMP_CELSIUS_MIN <= t && t <= TEMP_CELSIUS_MAX,
        None => false,
    }
}

/// The reading, where it is plausible.
pub open spec fn only_plausible(t: Option<i64>) -> Option<i64> {
    if plausible(t) {
        t
    } else {
        None
    }
}

fn keep_plausible(t: Option<i64>) -> (r: Option<i64>)
    ensures
        r == only_plausible(t),
{
    if is_plausible_celsius(t) {
        t
    } else {
        None
    }
}

/// Hotter first.
pub struct Hottest;

impl Order<TemperatureSnapshot> for Hottest {
    open spec fn before(a: TemperatureSnapshot, b: TemperatureSnapshot) -> bool {
        a.celsius > b.celsius
    }

    fn goes_before(a: &TemperatureSnapshot, b: &TemperatureSnapshot) -> (r: bool) {
        a.celsius > b.celsius
    }
}

/// The sensors with a plausible reading.
pub open spec fn readable(raws: Seq<RawSensor>) -> Seq<TemperatureSnapshot>
    decreases raws.len(),
{
    if raws.len() == 0 {
        Seq::empty()
    } else {
        let raw = raws.last();
        let rest = readable(raws.drop_last());
        if plausible(raw.celsius) {
            rest.push(
                TemperatureSnapshot {
                    label: raw.label,
                    celsius: raw.celsius->0,
                    max_celsius: only_plausible(raw.max),
                    critical_celsius: only_plausible(raw.critical),
                },
            )
        } else {
            rest
        }
    }
}

/// The sensors with a plausible reading, the hottest first.
pub open spec fn hottest_first(raws: Seq<RawSensor>) -> Seq<TemperatureSnapshot> {
    arranged::<TemperatureSnapshot, Hottest>(readable(raws))
}

/// The sensors with a plausible reading, the hottest first.
pub fn build_temperatures(raws: &Vec<RawSensor>) -> (r: Vec<TemperatureSnapshot>)
    ensures
        r@ == hottest_first(raws@),
{
    let mut sensors: Vec<TemperatureSnapshot> = Vec::new();
    for i in 0..raws.len()
        invariant
            sensors@ == readable(raws@.take(i as int)),
    {
        let raw = &raws[i];
        assert(raws@.take(i as int + 1).drop_last() =~= raws@.take(i as int));
        if let Some(celsius) = keep_plausible(raw.celsius) {
            sensors.push(
                TemperatureSnapshot {
                    label: raw.label.clone(),
                    celsius,
                    max_celsius: keep_plausible(raw.max),
                    critical_celsius: keep_plausible(raw.critical),
                },
            );
        }
    }
    assert(raws@.take(raws.len() as int) =~= raws@);
    arrange::<TemperatureSnapshot, Hottest>(sensors)
}

} // verus!
