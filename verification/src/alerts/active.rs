//! The thresholds in force: the settings over the template over the builtin
//! values.
use vstd::prelude::*;
use vstd::string::*;
use super::event::AlertKind;
use super::matcher::{claims, law_exact_key_claims_its_name};
use super::tables::{
    law_builtin_tables_are_plain, plain_table, TEMPLATE_APP_CPU_OVERRIDES,
    TEMPLATE_APP_MEM_OVERRIDES, TEMPLATE_CPU_OVERRIDES,
};
use super::template::{builtin_template, table_map, Template, TemplateView};
use super::thresholds::{
    choice, law_deciding_entry, law_unclaimed_name_has_base_value, Thresholds,
};
use crate::overrides::{in_order, lemma_entries_in_order, Overrides};
use crate::settings::{pressure_level, AlertsConfig, AlertsView, PressureAlert};
use crate::snapshot::Capabilities;
use crate::text::lowered;
use crate::time::Duration;

verus! {

/// Builtin processor threshold: thirty percent of a core.
pub const DEFAULT_CPU_PERCENT: u64 = 30_000_000;

/// Builtin memory threshold: a quarter of all memory.
pub const DEFAULT_MEMORY_PERCENT: u64 = 25_000_000;

/// Builtin memory threshold in bytes: four gibibytes.
pub const DEFAULT_MEMORY_BYTES: u64 = 0x1_0000_0000;

/// Builtin volume threshold: ninety percent full.
pub const DEFAULT_DISK_PERCENT: u64 = 90_000_000;

/// Builtin processor threshold of a whole application: two cores.
pub const DEFAULT_APP_CPU_PERCENT: u64 = 200_000_000;

/// Builtin memory threshold of a whole application: two fifths of all memory.
pub const DEFAULT_APP_MEMORY_PERCENT: u64 = 40_000_000;

/// Builtin memory threshold of a whole application in bytes: eight gibibytes.
pub const DEFAULT_APP_MEMORY_BYTES: u64 = 0x2_0000_0000;

/// Builtin least time between two alerts, in seconds.
pub const DEFAULT_COOLDOWN_SECS: u64 = 600;

/// A threshold as set: nothing when it is not above zero.
pub open spec fn threshold_of(value: i64) -> Option<u64> {
    if value > 0 {
        Some(value as u64)
    } else {
        None
    }
}

/// A base threshold: as set, or the builtin one where nothing is set.
pub open spec fn base_of(setting: Option<i64>, builtin: u64) -> Option<u64> {
    match setting {
        Some(value) => threshold_of(value),
        None => Some(builtin),
    }
}

/// A threshold in bytes: as set, nothing for zero, or the builtin one.
pub open spec fn ceiling_of(setting: Option<u64>, builtin: u64) -> Option<u64> {
    match setting {
        Some(bytes) => if bytes > 0 {
            Some(bytes)
        } else {
            None
        },
        None => Some(builtin),
    }
}

/// The thresholds of single names.
pub open spec fn layer(m: Map<Seq<char>, i64>) -> Seq<(Seq<char>, Option<u64>)> {
    in_order(m).map_values(|e: (Seq<char>, i64)| (e.0, threshold_of(e.1)))
}

/// Whether `t` has this base value, these values of the user's and, where the
/// template counts and the base rule is on, these of the template.
pub open spec fn merged(
    t: &Thresholds<u64>,
    base: Option<u64>,
    user: Map<Seq<char>, i64>,
    use_template: bool,
    template: Map<Seq<char>, i64>,
) -> bool {
    &&& t.default_value() == base
    &&& t.user() == layer(user)
    &&& t.templated() == if use_template && base is Some {
        layer(template)
    } else {
        Seq::empty()
    }
}

/// The thresholds in force.
pub struct ActiveThresholds {
    /// Percent of one core, by process name
    pub cpu: Thresholds<u64>,
    /// Percent of all memory, by process name
    pub memory: Thresholds<u64>,
    /// Bytes that are enough for a process without a value of its own
    pub memory_ceiling: Option<u64>,
    /// Percent of a volume's capacity, by mount point
    pub disk: Thresholds<u64>,
    /// The kernel's level from which memory pressure alerts
    pub pressure: Option<u32>,
    /// Percent of one core, by the name of the tree's root
    pub app_cpu: Thresholds<u64>,
    /// Percent of all memory, by the name of the tree's root
    pub app_memory: Thresholds<u64>,
    /// Bytes that are enough for an application without a value of its own
    pub app_memory_ceiling: Option<u64>,
    /// Least time between two episodes of one rule on one process
    pub cooldown: Duration,
}

fn threshold(value: i64) -> (r: Option<u64>)
    ensures
        r == threshold_of(value),
{
    if value > 0 {
        Some(value as u64)
    } else {
        None
    }
}

fn base_threshold(setting: Option<i64>, builtin: u64) -> (r: Option<u64>)
    ensures
        r == base_of(setting, builtin),
{
    match setting {
        Some(value) => threshold(value),
        None => Some(builtin),
    }
}

fn ceiling(setting: Option<u64>, builtin: u64) -> (r: Option<u64>)
    ensures
        r == ceiling_of(setting, builtin),
{
    match setting {
        Some(bytes) => if bytes > 0 {
            Some(bytes)
        } else {
            None
        },
        None => Some(builtin),
    }
}

/// Puts the user's values over the template's over the base value.
fn merge(base: Option<u64>, user: &Overrides, use_template: bool, template: &Overrides) -> (r:
    Thresholds<u64>)
    ensures
        merged(&r, base, user.map(), use_template, template.map()),
{
    let mut t: Thresholds<u64> = Thresholds::new(base);
    let n: usize = user.len();
    for i in 0..n
        invariant
            user.entries() == in_order(user.map()),
            n == user.entries().len(),
            t.default_value() == base,
            t.user() =~= layer(user.map()).take(i as int),
            t.templated() =~= Seq::<(Seq<char>, Option<u64>)>::empty(),
    {
        let e = user.entry(i);
        assert(layer(user.map())[i as int] == (e.0@, threshold_of(e.1)));
        t = t.with_override(e.0, threshold(e.1));
    }
    assert(layer(user.map()).take(n as int) =~= layer(user.map()));
    if use_template && base.is_some() {
        let m: usize = template.len();
        for i in 0..m
            invariant
                template.entries() == in_order(template.map()),
                m == template.entries().len(),
                t.default_value() == base,
                t.user() == layer(user.map()),
                t.templated() =~= layer(template.map()).take(i as int),
        {
            let e = template.entry(i);
            assert(layer(template.map())[i as int] == (e.0@, threshold_of(e.1)));
            t = t.with_template(e.0, threshold(e.1));
        }
        assert(layer(template.map()).take(m as int) =~= layer(template.map()));
    }
    t
}

impl ActiveThresholds {
    /// Whether these are the thresholds that the settings and the template give.
    pub open spec fn comes_from(&self, file: AlertsView, template: TemplateView) -> bool {
        let on = file.template != Some(false);
        let none = Seq::<(Seq<char>, Option<u64>)>::empty();
        &&& merged(
            &self.cpu,
            base_of(file.cpu, DEFAULT_CPU_PERCENT),
            file.cpu_overrides,
            on,
            template.cpu,
        )
        &&& merged(
            &self.memory,
            base_of(file.mem, DEFAULT_MEMORY_PERCENT),
            file.mem_overrides,
            on,
            template.mem,
        )
        &&& self.memory_ceiling == ceiling_of(file.mem_bytes, DEFAULT_MEMORY_BYTES)
        &&& self.disk.default_value() == base_of(file.disk, DEFAULT_DISK_PERCENT)
        &&& self.disk.user() == layer(file.disk_overrides)
        &&& self.disk.templated() == none
        &&& merged(
            &self.app_cpu,
            base_of(file.app_cpu, DEFAULT_APP_CPU_PERCENT),
            file.app_cpu_overrides,
            on,
            template.app_cpu,
        )
        &&& merged(
            &self.app_memory,
            base_of(file.app_mem, DEFAULT_APP_MEMORY_PERCENT),
            file.app_mem_overrides,
            on,
            template.app_mem,
        )
        &&& self.app_memory_ceiling == ceiling_of(file.app_mem_bytes, DEFAULT_APP_MEMORY_BYTES)
        &&& self.pressure == match file.pressure {
            Some(p) => pressure_level(p),
            None => Some(2u32),
        }
        &&& self.cooldown == match file.cooldown {
            Some(d) => d,
            None => crate::config::seconds(DEFAULT_COOLDOWN_SECS as nat),
        }
    }

    /// The thresholds that the settings and the builtin template give.
    pub fn from_config(file: &AlertsConfig) -> (r: ActiveThresholds)
        ensures
            r.comes_from(file@, builtin_template()),
    {
        ActiveThresholds::from_config_with_template(file, &Template::builtin())
    }

    /// The thresholds that the settings and a template give.
    pub fn from_config_with_template(file: &AlertsConfig, template: &Template) -> (r:
        ActiveThresholds)
        ensures
            r.comes_from(file@, template@),
    {
        let on: bool = match file.template {
            Some(on) => on,
            None => true,
        };
        ActiveThresholds {
            cpu: merge(
                base_threshold(file.cpu, DEFAULT_CPU_PERCENT),
                &file.cpu_overrides,
                on,
                &template.cpu,
            ),
            memory: merge(
                base_threshold(file.mem, DEFAULT_MEMORY_PERCENT),
                &file.mem_overrides,
                on,
                &template.mem,
            ),
            memory_ceiling: ceiling(file.mem_bytes, DEFAULT_MEMORY_BYTES),
            disk: merge(
                base_threshold(file.disk, DEFAULT_DISK_PERCENT),
                &file.disk_overrides,
                false,
                &template.cpu,
            ),
            app_cpu: merge(
                base_threshold(file.app_cpu, DEFAULT_APP_CPU_PERCENT),
                &file.app_cpu_overrides,
                on,
                &template.app_cpu,
            ),
            app_memory: merge(
                base_threshold(file.app_mem, DEFAULT_APP_MEMORY_PERCENT),
                &file.app_mem_overrides,
                on,
                &template.app_mem,
            ),
            app_memory_ceiling: ceiling(file.app_mem_bytes, DEFAULT_APP_MEMORY_BYTES),
            pressure: match file.pressure {
                Some(p) => p.level(),
                None => PressureAlert::Warning.level(),
            },
            cooldown: match file.cooldown {
                Some(d) => d,
                None => Duration::from_secs(DEFAULT_COOLDOWN_SECS),
            },
        }
    }

    /// Whether any rule is on that a build with these capabilities can raise.
    pub open spec fn enabled(&self, capabilities: Capabilities) -> bool {
        ||| self.cpu.enabled()
        ||| self.memory.enabled()
        ||| self.disk.enabled()
        ||| self.app_cpu.enabled()
        ||| self.app_memory.enabled()
        ||| self.pressure is Some && capabilities.memory_pressure
    }

    /// Whether any rule is on that a build with these capabilities can raise.
    pub fn any_enabled(&self, capabilities: Capabilities) -> (r: bool)
        ensures
            r == self.enabled(capabilities),
    {
        self.cpu.any_enabled() || self.memory.any_enabled() || self.disk.any_enabled()
            || self.app_cpu.any_enabled() || self.app_memory.any_enabled() || (
        self.pressure.is_some() && ActiveThresholds::supports(AlertKind::Pressure, capabilities))
    }

    /// Whether a build with these capabilities can ever raise such an alert.
    pub fn supports(kind: AlertKind, capabilities: Capabilities) -> (r: bool)
        ensures
            r == (kind == AlertKind::Pressure ==> capabilities.memory_pressure),
    {
        match kind {
            AlertKind::Pressure => capabilities.memory_pressure,
            _ => true,
        }
    }
}

/// The template refines a rule that is on: where the base rule is off, or the
/// template does not count, a name without a value of the user's has the base
/// value, whatever the template says of it.
pub proof fn law_template_needs_its_rule(
    t: &Thresholds<u64>,
    base: Option<u64>,
    user: Map<Seq<char>, i64>,
    use_template: bool,
    template: Map<Seq<char>, i64>,
    name: Seq<char>,
)
    requires
        merged(t, base, user, use_template, template),
        base is None || !use_template,
        forall|i: int| 0 <= i < t.user().len() ==> !claims((#[trigger] t.user()[i]).0, name),
    ensures
        t.threshold(name) == base,
{
    law_unclaimed_name_has_base_value(base, t.user(), t.templated(), name);
}

/// Whether the keys are single names, and none is there twice, letter case left
/// aside.
pub open spec fn plain_names(m: Map<Seq<char>, i64>) -> bool {
    &&& m.dom().finite()
    &&& forall|k: Seq<char>| #[trigger] m.contains_key(k) ==> !k.contains('*')
    &&& forall|k: Seq<char>, l: Seq<char>|
        #![trigger m.contains_key(k), m.contains_key(l)]
        m.contains_key(k) && m.contains_key(l) && lowered(k) == lowered(l) ==> k == l
}

/// Whether the map has the name, letter case left aside.
pub open spec fn has_key(m: Map<Seq<char>, i64>, name: Seq<char>) -> bool {
    exists|k: Seq<char>| #[trigger] m.contains_key(k) && lowered(k) == lowered(name)
}

/// The value that the map has for the name, letter case left aside.
pub open spec fn listed(m: Map<Seq<char>, i64>, name: Seq<char>) -> Option<i64> {
    if has_key(m, name) {
        Some(m[choose|k: Seq<char>| #[trigger] m.contains_key(k) && lowered(k) == lowered(name)])
    } else {
        None
    }
}

/// The entry of plain names that decides for a name is the one that lists it.
proof fn lemma_plain_choice(m: Map<Seq<char>, i64>, name: Seq<char>)
    requires
        plain_names(m),
    ensures
        match choice(layer(m), name) {
            Some(i) => 0 <= i < layer(m).len() && listed(m, name) is Some && layer(m)[i].1
                == threshold_of(listed(m, name)->0),
            None => listed(m, name) is None,
        },
{
    lemma_entries_in_order(m);
    law_deciding_entry(layer(m), name);
    let s = in_order(m);
    match choice(layer(m), name) {
        Some(i) => {
            let key = s[i].0;
            assert(layer(m)[i] == (key, threshold_of(s[i].1)));
            assert(m.contains_key(key));
            law_exact_key_claims_its_name(key, name);
            assert(has_key(m, name));
        },
        None => {
            if has_key(m, name) {
                let k = choose|k: Seq<char>| #[trigger]
                    m.contains_key(k) && lowered(k) == lowered(name);
                let i = choose|i: int| 0 <= i < s.len() && (#[trigger] s[i]).0 == k;
                assert(layer(m)[i].0 == k);
                law_exact_key_claims_its_name(k, name);
            }
        },
    }
}

/// The threshold of a name where single names alone have values: the user's
/// value, then the template's where it counts and the rule is on, then the base
/// value. A value that is not above zero turns the rule off for its name.
pub open spec fn by_precedence(
    base: Option<u64>,
    user: Map<Seq<char>, i64>,
    use_template: bool,
    template: Map<Seq<char>, i64>,
    name: Seq<char>,
) -> Option<u64> {
    if listed(user, name) is Some {
        threshold_of(listed(user, name)->0)
    } else if use_template && base is Some && listed(template, name) is Some {
        threshold_of(listed(template, name)->0)
    } else {
        base
    }
}

/// The thresholds of one rule follow the precedence.
proof fn lemma_merged_precedence(
    t: &Thresholds<u64>,
    base: Option<u64>,
    user: Map<Seq<char>, i64>,
    use_template: bool,
    template: Map<Seq<char>, i64>,
    name: Seq<char>,
)
    requires
        merged(t, base, user, use_template, template),
        plain_names(user),
        plain_names(template),
    ensures
        t.threshold(name) == by_precedence(base, user, use_template, template, name),
{
    lemma_plain_choice(user, name);
    lemma_plain_choice(template, name);
    law_deciding_entry(t.templated(), name);
}

/// The values of a table by name are those of its rows.
proof fn lemma_table_values(table: Seq<(&str, i64)>)
    ensures
        table_map(table).dom().finite(),
        forall|k: Seq<char>| #[trigger]
            table_map(table).contains_key(k) ==> exists|i: int|
                0 <= i < table.len() && (#[trigger] table[i]).0@ == k && table[i].1
                    == table_map(table)[k],
        forall|i: int|
            0 <= i < table.len() ==> table_map(table).contains_key((#[trigger] table[i]).0@),
    decreases table.len(),
{
    if table.len() > 0 {
        let rest = table.drop_last();
        lemma_table_values(rest);
        assert forall|k: Seq<char>| #[trigger] table_map(table).contains_key(k) implies exists|
            i: int,
        |
            0 <= i < table.len() && (#[trigger] table[i]).0@ == k && table[i].1 == table_map(
                table,
            )[k] by {
            if k == table.last().0@ {
                assert(table[table.len() - 1].0@ == k);
            } else {
                assert(table_map(rest).contains_key(k));
                let i = choose|i: int|
                    0 <= i < rest.len() && (#[trigger] rest[i]).0@ == k && rest[i].1 == table_map(
                        rest,
                    )[k];
                assert(table[i] == rest[i]);
            }
        }
        assert forall|i: int| 0 <= i < table.len() implies table_map(table).contains_key(
            (#[trigger] table[i]).0@,
        ) by {
            if i < rest.len() {
                assert(rest[i] == table[i]);
            }
        }
    }
}

/// What a plain table says of a name is what its row for the name says.
pub proof fn law_table_lists_its_rows(table: Seq<(&str, i64)>, name: Seq<char>)
    requires
        plain_table(table),
    ensures
        plain_names(table_map(table)),
        forall|i: int|
            0 <= i < table.len() && lowered((#[trigger] table[i]).0@) == lowered(name) ==> listed(
                table_map(table),
                name,
            ) == Some(table[i].1),
        (forall|i: int| 0 <= i < table.len() ==> lowered((#[trigger] table[i]).0@) != lowered(name))
            ==> listed(table_map(table), name) is None,
{
    let m = table_map(table);
    lemma_table_values(table);
    assert forall|i: int|
        0 <= i < table.len() && lowered((#[trigger] table[i]).0@) == lowered(
            name,
        ) implies listed(m, name) == Some(table[i].1) by {
        assert(m.contains_key(table[i].0@));
        assert(has_key(m, name));
        let k = choose|k: Seq<char>| #[trigger] m.contains_key(k) && lowered(k) == lowered(name);
        let j = choose|j: int|
            0 <= j < table.len() && (#[trigger] table[j]).0@ == k && table[j].1 == m[k];
        assert(lowered(table[j].0@) == lowered(table[i].0@));
    }
}

/// The thresholds that the settings and the builtin template give: for every name
/// the user's value comes first, then the template's, then the base value, and
/// the base value is the one in the settings or the builtin one. This is so in
/// each rule in which the user has values for single names only, and none twice
/// but for letter case. The builtin tables are of that kind.
pub proof fn law_user_then_template_then_base(
    active: ActiveThresholds,
    file: AlertsView,
    name: Seq<char>,
)
    requires
        active.comes_from(file, builtin_template()),
    ensures
        plain_table(TEMPLATE_CPU_OVERRIDES@),
        plain_table(TEMPLATE_APP_CPU_OVERRIDES@),
        plain_table(TEMPLATE_APP_MEM_OVERRIDES@),
        ({
            let on = file.template != Some(false);
            let builtin = builtin_template();
            let none = Map::<Seq<char>, i64>::empty();
            let cpu = base_of(file.cpu, DEFAULT_CPU_PERCENT);
            let memory = base_of(file.mem, DEFAULT_MEMORY_PERCENT);
            let disk = base_of(file.disk, DEFAULT_DISK_PERCENT);
            let app_cpu = base_of(file.app_cpu, DEFAULT_APP_CPU_PERCENT);
            let app_memory = base_of(file.app_mem, DEFAULT_APP_MEMORY_PERCENT);
            &&& active.cpu.default_value() == cpu
            &&& plain_names(file.cpu_overrides) ==> active.cpu.threshold(name) == by_precedence(
                cpu,
                file.cpu_overrides,
                on,
                builtin.cpu,
                name,
            )
            &&& active.memory.default_value() == memory
            &&& plain_names(file.mem_overrides) ==> active.memory.threshold(name) == by_precedence(
                memory,
                file.mem_overrides,
                on,
                builtin.mem,
                name,
            )
            &&& active.disk.default_value() == disk
            &&& plain_names(file.disk_overrides) ==> active.disk.threshold(name) == by_precedence(
                disk,
                file.disk_overrides,
                false,
                none,
                name,
            )
            &&& active.app_cpu.default_value() == app_cpu
            &&& plain_names(file.app_cpu_overrides) ==> active.app_cpu.threshold(name)
                == by_precedence(app_cpu, file.app_cpu_overrides, on, builtin.app_cpu, name)
            &&& active.app_memory.default_value() == app_memory
            &&& plain_names(file.app_mem_overrides) ==> active.app_memory.threshold(name)
                == by_precedence(app_memory, file.app_mem_overrides, on, builtin.app_mem, name)
        }),
{
    let on = file.template != Some(false);
    let builtin = builtin_template();
    law_builtin_tables_are_plain();
    law_table_lists_its_rows(TEMPLATE_CPU_OVERRIDES@, name);
    law_table_lists_its_rows(TEMPLATE_APP_CPU_OVERRIDES@, name);
    law_table_lists_its_rows(TEMPLATE_APP_MEM_OVERRIDES@, name);
    assert(plain_names(Map::<Seq<char>, i64>::empty()));
    if plain_names(file.cpu_overrides) {
        lemma_merged_precedence(
            &active.cpu,
            base_of(file.cpu, DEFAULT_CPU_PERCENT),
            file.cpu_overrides,
            on,
            builtin.cpu,
            name,
        );
    }
    if plain_names(file.mem_overrides) {
        lemma_merged_precedence(
            &active.memory,
            base_of(file.mem, DEFAULT_MEMORY_PERCENT),
            file.mem_overrides,
            on,
            builtin.mem,
            name,
        );
    }
    if plain_names(file.disk_overrides) {
        lemma_merged_precedence(
            &active.disk,
            base_of(file.disk, DEFAULT_DISK_PERCENT),
            file.disk_overrides,
            false,
            Map::empty(),
            name,
        );
    }
    if plain_names(file.app_cpu_overrides) {
        lemma_merged_precedence(
            &active.app_cpu,
            base_of(file.app_cpu, DEFAULT_APP_CPU_PERCENT),
            file.app_cpu_overrides,
            on,
            builtin.app_cpu,
            name,
        );
    }
    if plain_names(file.app_mem_overrides) {
        lemma_merged_precedence(
            &active.app_memory,
            base_of(file.app_mem, DEFAULT_APP_MEMORY_PERCENT),
            file.app_mem_overrides,
            on,
            builtin.app_mem,
            name,
        );
    }
}

/// Whether a base threshold is the one in the settings, with nothing for one that
/// is not above zero, or the builtin one where the settings have none.
pub open spec fn is_base(base: Option<u64>, setting: Option<i64>, builtin: u64) -> bool {
    match setting {
        Some(value) => (base is Some <==> value > 0) && (value > 0 ==> base->0 == value),
        None => base == Some(builtin),
    }
}

/// Whether the entries are those of a map, each name with its value; a value that
/// is not above zero turns the rule off for its name.
pub open spec fn lists_values(
    entries: Seq<(Seq<char>, Option<u64>)>,
    m: Map<Seq<char>, i64>,
) -> bool {
    &&& forall|i: int|
        0 <= i < entries.len() ==> {
            let (name, value) = #[trigger] entries[i];
            &&& m.contains_key(name)
            &&& value is Some <==> m[name] > 0
            &&& m[name] > 0 ==> value->0 == m[name]
        }
    &&& forall|name: Seq<char>| #[trigger]
        m.contains_key(name) ==> exists|i: int|
            0 <= i < entries.len() && (#[trigger] entries[i]).0 == name
}

/// The entries of a map.
proof fn lemma_layer(m: Map<Seq<char>, i64>)
    requires
        m.dom().finite(),
    ensures
        lists_values(layer(m), m),
{
    lemma_entries_in_order(m);
    let s = in_order(m);
    assert forall|i: int| 0 <= i < layer(m).len() implies {
        let (name, value) = #[trigger] layer(m)[i];
        &&& m.contains_key(name)
        &&& value is Some <==> m[name] > 0
        &&& m[name] > 0 ==> value->0 == m[name]
    } by {
        assert(m.contains_key(s[i].0));
    }
    assert forall|name: Seq<char>| #[trigger] m.contains_key(name) implies exists|i: int|
        0 <= i < layer(m).len() && (#[trigger] layer(m)[i]).0 == name by {
        let i = choose|i: int| 0 <= i < s.len() && (#[trigger] s[i]).0 == name;
        assert(layer(m)[i].0 == name);
    }
}

/// Each rule has its own setting, its own values of single names, and its own part
/// of the template where that counts and the rule is on; volumes have none. The
/// builtin thresholds are thirty percent of a core, a quarter of the memory or four
/// gibibytes, a volume ninety percent full; for applications two cores, two fifths
/// of the memory or eight gibibytes; a warning of memory pressure; and ten minutes
/// between two episodes.
pub proof fn law_settings_in_force(
    active: ActiveThresholds,
    file: AlertsView,
    template: TemplateView,
)
    requires
        active.comes_from(file, template),
        file.cpu_overrides.dom().finite(),
        file.mem_overrides.dom().finite(),
        file.disk_overrides.dom().finite(),
        file.app_cpu_overrides.dom().finite(),
        file.app_mem_overrides.dom().finite(),
        template.cpu.dom().finite(),
        template.mem.dom().finite(),
        template.app_cpu.dom().finite(),
        template.app_mem.dom().finite(),
    ensures
        is_base(active.cpu.default_value(), file.cpu, 30_000_000),
        is_base(active.memory.default_value(), file.mem, 25_000_000),
        is_base(active.disk.default_value(), file.disk, 90_000_000),
        is_base(active.app_cpu.default_value(), file.app_cpu, 200_000_000),
        is_base(active.app_memory.default_value(), file.app_mem, 40_000_000),
        active.memory_ceiling == match file.mem_bytes {
            None => Some(4_294_967_296u64),
            Some(bytes) => if bytes == 0 {
                None
            } else {
                Some(bytes)
            },
        },
        active.app_memory_ceiling == match file.app_mem_bytes {
            None => Some(8_589_934_592u64),
            Some(bytes) => if bytes == 0 {
                None
            } else {
                Some(bytes)
            },
        },
        active.pressure == match file.pressure {
            None => Some(2u32),
            Some(PressureAlert::Off) => None,
            Some(PressureAlert::Warning) => Some(2u32),
            Some(PressureAlert::Critical) => Some(4u32),
        },
        file.cooldown is Some ==> active.cooldown == file.cooldown->0,
        file.cooldown is None ==> active.cooldown.nanos == 600_000_000_000,
        lists_values(active.cpu.user(), file.cpu_overrides),
        lists_values(active.memory.user(), file.mem_overrides),
        lists_values(active.disk.user(), file.disk_overrides),
        lists_values(active.app_cpu.user(), file.app_cpu_overrides),
        lists_values(active.app_memory.user(), file.app_mem_overrides),
        ({
            let on = file.template is None || file.template->0;
            &&& active.disk.templated().len() == 0
            &&& on && active.cpu.default_value() is Some ==> lists_values(
                active.cpu.templated(),
                template.cpu,
            )
            &&& on && active.memory.default_value() is Some ==> lists_values(
                active.memory.templated(),
                template.mem,
            )
            &&& on && active.app_cpu.default_value() is Some ==> lists_values(
                active.app_cpu.templated(),
                template.app_cpu,
            )
            &&& on && active.app_memory.default_value() is Some ==> lists_values(
                active.app_memory.templated(),
                template.app_mem,
            )
            &&& !on || active.cpu.default_value() is None ==> active.cpu.templated().len() == 0
            &&& !on || active.memory.default_value() is None ==> active.memory.templated().len()
                == 0
            &&& !on || active.app_cpu.default_value() is None ==> active.app_cpu.templated().len()
                == 0
            &&& !on || active.app_memory.default_value() is None
                ==> active.app_memory.templated().len() == 0
        }),
{
    lemma_layer(file.cpu_overrides);
    lemma_layer(file.mem_overrides);
    lemma_layer(file.disk_overrides);
    lemma_layer(file.app_cpu_overrides);
    lemma_layer(file.app_mem_overrides);
    lemma_layer(template.cpu);
    lemma_layer(template.mem);
    lemma_layer(template.app_cpu);
    lemma_layer(template.app_mem);
}

} // verus!
