//! Which conditions have been alerted, and when a repeated one alerts again.
use std::collections::HashMap;
use vstd::prelude::*;
use super::event::AlertKind;
use crate::rolling::ProcessStats;
use crate::time::{nanos_since, Duration, Instant};

verus! {

broadcast use vstd::std_specs::hash::group_hash_axioms;

/// A process (or a tree's root) and a rule.
pub type Key = (u32, AlertKind);

/// How long a condition lasts before its one follow-up, in nanoseconds: half an
/// hour.
pub const PERSIST_REMINDER_NANOS: u128 = 1_800_000_000_000;

/// One condition that was alerted and has not ended.
#[derive(Debug, Clone, Copy, PartialEq, Eq, Structural)]
pub struct Episode {
    pub started: Instant,
    /// Whether the follow-up went out
    pub reminded: bool,
}

/// Why an alert is due.
#[derive(Debug, Clone, Copy, PartialEq, Eq, Structural)]
pub enum Notify {
    /// The condition has just begun
    New,
    /// The condition still holds, after this long
    Reminder(Duration),
}

impl Notify {
    /// How long the condition had lasted, for a follow-up.
    pub fn elapsed(self) -> (r: Option<Duration>)
        ensures
            r == elapsed_of(self),
    {
        match self {
            Notify::New => None,
            Notify::Reminder(elapsed) => Some(elapsed),
        }
    }
}

/// How long the condition had lasted, for a follow-up.
pub open spec fn elapsed_of(n: Notify) -> Option<Duration> {
    match n {
        Notify::New => None,
        Notify::Reminder(elapsed) => Some(elapsed),
    }
}

/// Whether each key occurs once.
pub open spec fn unique_keys<V>(s: Seq<(Key, V)>) -> bool {
    forall|i: int, j: int|
        0 <= i < s.len() && 0 <= j < s.len() && (#[trigger] s[i]).0 == (#[trigger] s[j]).0 ==> i
            == j
}

/// The values by key.
pub open spec fn map_of<V>(s: Seq<(Key, V)>) -> Map<Key, V> {
    Map::new(
        |k: Key| exists|i: int| 0 <= i < s.len() && (#[trigger] s[i]).0 == k,
        |k: Key| s[choose|i: int| 0 <= i < s.len() && (#[trigger] s[i]).0 == k].1,
    )
}

/// Values by process and rule.
pub struct Table<V: Copy> {
    entries: Vec<(Key, V)>,
}

/// Whether a rule is one on whole applications.
pub open spec fn is_app_kind(kind: AlertKind) -> bool {
    kind == AlertKind::AppCpu || kind == AlertKind::AppMemory
}

fn app_kind(kind: AlertKind) -> (r: bool)
    ensures
        r == is_app_kind(kind),
{
    match kind {
        AlertKind::AppCpu => true,
        AlertKind::AppMemory => true,
        _ => false,
    }
}

/// Whether a key stays: one of the other tier, or one of a live process.
pub open spec fn stays(key: Key, app: bool, alive: Map<u32, ProcessStats>) -> bool {
    is_app_kind(key.1) != app || alive.contains_key(key.0)
}

/// The entries that stay.
pub open spec fn kept<V>(m: Map<Key, V>, app: bool, alive: Map<u32, ProcessStats>) -> Map<Key, V> {
    Map::new(|k: Key| m.contains_key(k) && stays(k, app, alive), |k: Key| m[k])
}

impl<V: Copy> Table<V> {
    /// Each key occurs once.
    #[verifier::type_invariant]
    spec fn wf(&self) -> bool {
        unique_keys(self.entries@)
    }

    /// The values by key.
    pub closed spec fn map(&self) -> Map<Key, V> {
        map_of(self.entries@)
    }

    /// No values.
    pub fn new() -> (r: Table<V>)
        ensures
            r.map() == Map::<Key, V>::empty(),
    {
        let r = Table { entries: Vec::new() };
        assert(r.map() =~= Map::<Key, V>::empty());
        r
    }

    fn place(&self, key: Key) -> (r: Option<usize>)
        ensures
            r is Some == self.map().contains_key(key),
            r is Some ==> r->0 < self.entries@.len() && self.entries@[r->0 as int].0 == key
                && self.map()[key] == self.entries@[r->0 as int].1,
    {
        proof {
            use_type_invariant(self);
        }
        for i in 0..self.entries.len()
            invariant
                unique_keys(self.entries@),
                forall|j: int| 0 <= j < i ==> (#[trigger] self.entries@[j]).0 != key,
        {
            if self.entries[i].0.0 == key.0 && self.entries[i].0.1 == key.1 {
                return Some(i);
            }
        }
        None
    }

    /// The value of a key.
    pub fn get(&self, key: Key) -> (r: Option<V>)
        ensures
            r is Some == self.map().contains_key(key),
            r is Some ==> r->0 == self.map()[key],
    {
        match self.place(key) {
            Some(i) => Some(self.entries[i].1),
            None => None,
        }
    }

    /// Drops a key.
    pub fn remove(&mut self, key: Key)
        ensures
            final(self).map() == old(self).map().remove(key),
    {
        proof {
            use_type_invariant(&*self);
        }
        let mut fresh: Vec<(Key, V)> = Vec::new();
        let n: usize = self.entries.len();
        for i in 0..n
            invariant
                n == self.entries.len(),
                unique_keys(self.entries@),
                unique_keys(fresh@),
                forall|k: int|
                    0 <= k < fresh@.len() ==> (#[trigger] fresh@[k]).0 != key && self.entries@.take(
                        i as int,
                    ).contains(fresh@[k]),
                forall|j: int|
                    0 <= j < i && (#[trigger] self.entries@[j]).0 != key ==> fresh@.contains(
                        self.entries@[j],
                    ),
        {
            let e = self.entries[i];
            let ghost was = fresh@;
            if !(e.0.0 == key.0 && e.0.1 == key.1) {
                fresh.push(e);
                proof {
                    lemma_pushed(was, e);
                    assert forall|j: int|
                        0 <= j < i + 1 && (#[trigger] self.entries@[j]).0
                            != key implies fresh@.contains(self.entries@[j]) by {
                        if j < i {
                            let k = choose|k: int| 0 <= k < was.len() && was[k] == self.entries@[j];
                            assert(fresh@[k] == was[k]);
                        } else {
                            assert(fresh@[was.len() as int] == e);
                        }
                    }
                }
            }
            proof {
                assert forall|k: int| 0 <= k < fresh@.len() implies (#[trigger] fresh@[k]).0 != key
                    && self.entries@.take(i as int + 1).contains(fresh@[k]) by {
                    let next = self.entries@.take(i as int + 1);
                    if k < was.len() {
                        assert(fresh@[k] == was[k]);
                        let done = self.entries@.take(i as int);
                        let j = choose|j: int| 0 <= j < done.len() && done[j] == was[k];
                        assert(next[j] == fresh@[k]);
                    } else {
                        assert(next[i as int] == fresh@[k]);
                    }
                }
            }
        }
        let ghost was = self.entries@;
        assert(was.take(n as int) =~= was);
        self.entries = fresh;
        proof {
            lemma_same_entries(was, fresh@, |k: Key| k != key);
            assert(self.map() =~= old(self).map().remove(key));
        }
    }

    /// Gives a key a value.
    pub fn insert(&mut self, key: Key, value: V)
        ensures
            final(self).map() == old(self).map().insert(key, value),
    {
        self.remove(key);
        proof {
            use_type_invariant(&*self);
        }
        let ghost was = self.entries@;
        let ghost before = self.map();
        let mut fresh: Vec<(Key, V)> = Vec::new();
        for i in 0..self.entries.len()
            invariant
                fresh@ =~= self.entries@.take(i as int),
        {
            fresh.push(self.entries[i]);
        }
        fresh.push((key, value));
        assert(fresh@ =~= was.push((key, value)));
        proof {
            assert(!before.contains_key(key));
            assert forall|i: int| 0 <= i < was.len() implies (#[trigger] was[i]).0 != key by {}
        }
        self.entries = fresh;
        proof {
            lemma_map_push(was, (key, value));
            assert(self.map() =~= old(self).map().insert(key, value));
        }
    }

    /// Drops the keys of one tier whose process is not alive.
    pub fn retain(&mut self, app: bool, alive: &HashMap<u32, ProcessStats>)
        ensures
            final(self).map() == kept(old(self).map(), app, alive@),
    {
        proof {
            use_type_invariant(&*self);
        }
        let mut fresh: Vec<(Key, V)> = Vec::new();
        let n: usize = self.entries.len();
        for i in 0..n
            invariant
                n == self.entries.len(),
                unique_keys(self.entries@),
                unique_keys(fresh@),
                forall|k: int|
                    0 <= k < fresh@.len() ==> stays((#[trigger] fresh@[k]).0, app, alive@)
                        && self.entries@.take(i as int).contains(fresh@[k]),
                forall|j: int|
                    0 <= j < i && stays((#[trigger] self.entries@[j]).0, app, alive@)
                        ==> fresh@.contains(self.entries@[j]),
        {
            let e = self.entries[i];
            let ghost was = fresh@;
            if app_kind(e.0.1) != app || alive.contains_key(&e.0.0) {
                fresh.push(e);
                proof {
                    lemma_pushed(was, e);
                    assert forall|j: int|
                        0 <= j < i + 1 && stays(
                            (#[trigger] self.entries@[j]).0,
                            app,
                            alive@,
                        ) implies fresh@.contains(self.entries@[j]) by {
                        if j < i {
                            let k = choose|k: int| 0 <= k < was.len() && was[k] == self.entries@[j];
                            assert(fresh@[k] == was[k]);
                        } else {
                            assert(fresh@[was.len() as int] == e);
                        }
                    }
                }
            }
            proof {
                assert forall|k: int| 0 <= k < fresh@.len() implies stays((#[trigger] fresh@[k]).0, app, alive@)
                    && self.entries@.take(i as int + 1).contains(fresh@[k]) by {
                    let next = self.entries@.take(i as int + 1);
                    if k < was.len() {
                        assert(fresh@[k] == was[k]);
                        let done = self.entries@.take(i as int);
                        let j = choose|j: int| 0 <= j < done.len() && done[j] == was[k];
                        assert(next[j] == fresh@[k]);
                    } else {
                        assert(next[i as int] == fresh@[k]);
                    }
                }
            }
        }
        let ghost was = self.entries@;
        assert(was.take(n as int) =~= was);
        self.entries = fresh;
        proof {
            lemma_same_entries(was, fresh@, |k: Key| stays(k, app, alive@));
            assert(self.map() =~= kept(old(self).map(), app, alive@));
        }
    }
}

/// Adding an entry with a new key keeps the keys apart.
proof fn lemma_pushed<V>(s: Seq<(Key, V)>, e: (Key, V))
    ensures
        unique_keys(s) && (forall|i: int| 0 <= i < s.len() ==> (#[trigger] s[i]).0 != e.0)
            ==> unique_keys(s.push(e)),
{
}

/// A list with the entries of another whose keys pass a test has their values.
proof fn lemma_same_entries<V>(s: Seq<(Key, V)>, t: Seq<(Key, V)>, keep: spec_fn(Key) -> bool)
    requires
        unique_keys(s),
        unique_keys(t),
        forall|k: int|
            0 <= k < t.len() ==> keep((#[trigger] t[k]).0) && s.contains(t[k]),
        forall|j: int| 0 <= j < s.len() && keep((#[trigger] s[j]).0) ==> t.contains(s[j]),
    ensures
        forall|k: Key| #[trigger]
            map_of(t).contains_key(k) <==> map_of(s).contains_key(k) && keep(k),
        forall|k: Key| #[trigger] map_of(t).contains_key(k) ==> map_of(t)[k] == map_of(s)[k],
{
    assert forall|k: Key| #[trigger] map_of(t).contains_key(k) implies map_of(s).contains_key(k)
        && keep(k) && map_of(t)[k] == map_of(s)[k] by {
        let a = choose|a: int| 0 <= a < t.len() && (#[trigger] t[a]).0 == k;
        let b = choose|b: int| 0 <= b < s.len() && s[b] == t[a];
        assert(s[b].0 == k);
    }
    assert forall|k: Key| map_of(s).contains_key(k) && keep(k) implies #[trigger] map_of(
        t,
    ).contains_key(k) by {
        let b = choose|b: int| 0 <= b < s.len() && (#[trigger] s[b]).0 == k;
        assert(t.contains(s[b]));
        let a = choose|a: int| 0 <= a < t.len() && t[a] == s[b];
        assert(t[a].0 == k);
    }
}

/// An entry with a new key adds its value to the map.
proof fn lemma_map_push<V>(s: Seq<(Key, V)>, e: (Key, V))
    requires
        unique_keys(s),
        forall|i: int| 0 <= i < s.len() ==> (#[trigger] s[i]).0 != e.0,
    ensures
        map_of(s.push(e)) == map_of(s).insert(e.0, e.1),
{
    let t = s.push(e);
    assert forall|k: Key| map_of(s).insert(e.0, e.1).contains_key(k) <==> #[trigger] map_of(
        t,
    ).contains_key(k) by {
        if k == e.0 {
            assert(t[s.len() as int].0 == k);
        } else if map_of(s).contains_key(k) {
            let i = choose|i: int| 0 <= i < s.len() && (#[trigger] s[i]).0 == k;
            assert(t[i].0 == k);
        } else if map_of(t).contains_key(k) {
            let i = choose|i: int| 0 <= i < t.len() && (#[trigger] t[i]).0 == k;
            assert(s[i].0 == k);
        }
    }
    assert forall|k: Key| #[trigger] map_of(t).contains_key(k) implies map_of(t)[k] == map_of(
        s,
    ).insert(e.0, e.1)[k] by {
        let i = choose|i: int| 0 <= i < t.len() && (#[trigger] t[i]).0 == k;
        if k != e.0 {
            assert(s[i].0 == k);
        }
    }
    assert(map_of(t) =~= map_of(s).insert(e.0, e.1));
}

/// The alerted conditions, and when each key last alerted.
pub ghost struct Episodes {
    pub active: Map<Key, Episode>,
    pub last_alert: Map<Key, Instant>,
}

/// Whether and why a condition that holds at `now` alerts. A new condition
/// alerts unless its key alerted less than the cooldown ago; one that was
/// alerted gets a single follow-up once it has lasted long enough.
pub open spec fn decision(s: Episodes, key: Key, now: Instant, cooldown: Duration) -> Option<
    Notify,
> {
    if s.active.contains_key(key) {
        let e = s.active[key];
        let elapsed = nanos_since(now, e.started);
        if e.reminded || elapsed < PERSIST_REMINDER_NANOS {
            None
        } else {
            Some(Notify::Reminder(Duration { nanos: elapsed as u128 }))
        }
    } else if s.last_alert.contains_key(key) && nanos_since(now, s.last_alert[key])
        < cooldown.nanos {
        None
    } else {
        Some(Notify::New)
    }
}

/// The conditions after a decision.
pub open spec fn notified(s: Episodes, key: Key, now: Instant, cooldown: Duration) -> Episodes {
    match decision(s, key, now, cooldown) {
        None => s,
        Some(Notify::New) => Episodes {
            active: s.active.insert(key, Episode { started: now, reminded: false }),
            last_alert: s.last_alert.insert(key, now),
        },
        Some(Notify::Reminder(_)) => Episodes {
            active: s.active.insert(
                key,
                Episode { started: s.active[key].started, reminded: true },
            ),
            last_alert: s.last_alert.insert(key, now),
        },
    }
}

/// The conditions once one has ended.
pub open spec fn cleared(s: Episodes, key: Key) -> Episodes {
    Episodes { active: s.active.remove(key), last_alert: s.last_alert }
}

/// The conditions without the keys of one tier whose process is not alive.
pub open spec fn retained(s: Episodes, app: bool, alive: Map<u32, ProcessStats>) -> Episodes {
    Episodes {
        active: kept(s.active, app, alive),
        last_alert: kept(s.last_alert, app, alive),
    }
}

/// Which conditions are inside an alerted episode, and when each last alerted.
pub struct EpisodeState {
    active: Table<Episode>,
    last_alert: Table<Instant>,
}

impl EpisodeState {
    /// The alerted conditions.
    pub closed spec fn view(&self) -> Episodes {
        Episodes { active: self.active.map(), last_alert: self.last_alert.map() }
    }

    /// No conditions.
    pub fn new() -> (r: EpisodeState)
        ensures
            r@ == (Episodes { active: Map::empty(), last_alert: Map::empty() }),
    {
        EpisodeState { active: Table::new(), last_alert: Table::new() }
    }

    /// Whether and why a condition that holds now alerts.
    pub fn notify(&mut self, key: Key, now: Instant, cooldown: Duration) -> (r: Option<Notify>)
        ensures
            r == decision(old(self)@, key, now, cooldown),
            final(self)@ == notified(old(self)@, key, now, cooldown),
    {
        match self.active.get(key) {
            Some(episode) => {
                let elapsed = now.duration_since(episode.started);
                if episode.reminded || elapsed.nanos < PERSIST_REMINDER_NANOS {
                    None
                } else {
                    self.active.insert(key, Episode { started: episode.started, reminded: true });
                    self.last_alert.insert(key, now);
                    Some(Notify::Reminder(elapsed))
                }
            },
            None => {
                let too_soon: bool = match self.last_alert.get(key) {
                    Some(previous) => now.duration_since(previous).nanos < cooldown.nanos,
                    None => false,
                };
                if too_soon {
                    None
                } else {
                    self.active.insert(key, Episode { started: now, reminded: false });
                    self.last_alert.insert(key, now);
                    Some(Notify::New)
                }
            },
        }
    }

    /// The condition no longer holds.
    pub fn clear(&mut self, key: Key)
        ensures
            final(self)@ == cleared(old(self)@, key),
    {
        self.active.remove(key);
    }

    /// Forgets the keys of one tier whose process is not alive.
    pub fn retain(&mut self, app: bool, alive: &HashMap<u32, ProcessStats>)
        ensures
            final(self)@ == retained(old(self)@, app, alive@),
    {
        self.active.retain(app, alive);
        self.last_alert.retain(app, alive);
    }
}

/// The conditions after a condition held at each of `times`.
pub open spec fn after_run(s: Episodes, key: Key, times: Seq<Instant>, cooldown: Duration) -> Episodes
    decreases times.len(),
{
    if times.len() == 0 {
        s
    } else {
        notified(after_run(s, key, times.drop_last(), cooldown), key, times.last(), cooldown)
    }
}

/// How many alerts a condition raises that holds at each of `times`.
pub open spec fn alerts_in_run(s: Episodes, key: Key, times: Seq<Instant>, cooldown: Duration) -> nat
    decreases times.len(),
{
    if times.len() == 0 {
        0
    } else {
        alerts_in_run(s, key, times.drop_last(), cooldown) + if decision(
            after_run(s, key, times.drop_last(), cooldown),
            key,
            times.last(),
            cooldown,
        ) is Some {
            1nat
        } else {
            0
        }
    }
}

/// A condition that never ends raises at most two alerts, however long it
/// lasts: one when it begins and one follow-up.
pub proof fn law_one_alert_and_one_follow_up(
    s: Episodes,
    key: Key,
    times: Seq<Instant>,
    cooldown: Duration,
)
    requires
        !s.active.contains_key(key),
    ensures
        alerts_in_run(s, key, times, cooldown) <= 2,
        ({
            let after = after_run(s, key, times, cooldown);
            alerts_in_run(s, key, times, cooldown) == if !after.active.contains_key(key) {
                0nat
            } else if !after.active[key].reminded {
                1
            } else {
                2
            }
        }),
    decreases times.len(),
{
    if times.len() > 0 {
        law_one_alert_and_one_follow_up(s, key, times.drop_last(), cooldown);
    }
}

/// The follow-up of a condition comes when it has lasted half an hour, and not
/// before.
pub proof fn law_follow_up_after_half_an_hour(
    s: Episodes,
    key: Key,
    now: Instant,
    cooldown: Duration,
)
    requires
        s.active.contains_key(key),
        !s.active[key].reminded,
    ensures
        decision(s, key, now, cooldown) is Some <==> nanos_since(now, s.active[key].started)
            >= PERSIST_REMINDER_NANOS,
{
}

/// A condition that ended and begins again within the cooldown of its last
/// alert stays silent; once the cooldown is over it alerts.
pub proof fn law_cooldown_between_episodes(
    s: Episodes,
    key: Key,
    now: Instant,
    cooldown: Duration,
)
    requires
        s.last_alert.contains_key(key),
    ensures
        decision(cleared(s, key), key, now, cooldown) == if nanos_since(now, s.last_alert[key])
            < cooldown.nanos {
            None::<Notify>
        } else {
            Some(Notify::New)
        },
{
}

/// A decision on one key leaves every other key as it is.
pub proof fn law_keys_are_independent(
    s: Episodes,
    key: Key,
    other: Key,
    now: Instant,
    later: Instant,
    cooldown: Duration,
)
    requires
        key != other,
    ensures
        decision(notified(s, key, now, cooldown), other, later, cooldown) == decision(
            s,
            other,
            later,
            cooldown,
        ),
        decision(cleared(s, key), other, later, cooldown) == decision(s, other, later, cooldown),
{
}

} // verus!
