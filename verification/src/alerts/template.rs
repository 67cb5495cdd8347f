//! The builtin thresholds of applications that are busy by nature.
use vstd::prelude::*;
use vstd::string::*;
use super::matcher::{key_refusal, literal_of, open_start, valid_key, Matcher};
use super::tables::{
    TEMPLATE_APP_CPU_OVERRIDES, TEMPLATE_APP_MEM_OVERRIDES, TEMPLATE_CPU_OVERRIDES,
};
use crate::overrides::{in_order, lemma_entries_in_order, Overrides};
use crate::text::{decimal, number_text};

verus! {

/// The values of a table by name.
pub open spec fn table_map(table: Seq<(&str, i64)>) -> Map<Seq<char>, i64>
    decreases table.len(),
{
    if table.len() == 0 {
        Map::empty()
    } else {
        table_map(table.drop_last()).insert(table.last().0@, table.last().1)
    }
}

/// The values of a table by name.
fn from_table<const N: usize>(table: [(&'static str, i64); N]) -> (r: Overrides)
    ensures
        r.map() == table_map(table@),
{
    let mut r = Overrides::new();
    for i in 0..N
        invariant
            r.map() == table_map(table@.take(i as int)),
    {
        assert(table@.take(i as int + 1).drop_last() =~= table@.take(i as int));
        r.insert(table[i].0, table[i].1);
    }
    assert(table@.take(N as int) =~= table@);
    r
}

/// The version of the template's layout.
pub const TEMPLATE_VERSION: u32 = 1;

/// Thresholds of applications that are busy by nature, below the user's own.
#[derive(Debug, Clone)]
pub struct Template {
    pub version: u32,
    pub cpu: Overrides,
    pub mem: Overrides,
    pub app_cpu: Overrides,
    pub app_mem: Overrides,
}

/// A template as values.
pub ghost struct TemplateView {
    pub version: u32,
    pub cpu: Map<Seq<char>, i64>,
    pub mem: Map<Seq<char>, i64>,
    pub app_cpu: Map<Seq<char>, i64>,
    pub app_mem: Map<Seq<char>, i64>,
}

impl View for Template {
    type V = TemplateView;

    open spec fn view(&self) -> TemplateView {
        TemplateView {
            version: self.version,
            cpu: self.cpu.map(),
            mem: self.mem.map(),
            app_cpu: self.app_cpu.map(),
            app_mem: self.app_mem.map(),
        }
    }
}

/// What is said of the first key with a star anywhere but at its ends, in the
/// order of the keys; nothing where there is none.
pub open spec fn bad_key(keys: Seq<(Seq<char>, i64)>) -> Option<Seq<char>>
    decreases keys.len(),
{
    if keys.len() == 0 {
        None
    } else if !valid_key(keys[0].0) {
        Some(key_refusal(keys[0].0))
    } else {
        bad_key(keys.drop_first())
    }
}

/// Why a template is refused, where it is.
pub open spec fn refusal(t: TemplateView) -> Option<Seq<char>> {
    if t.version != TEMPLATE_VERSION {
        Some("unsupported template version "@ + decimal(t.version as nat))
    } else if bad_key(in_order(t.cpu)) is Some {
        bad_key(in_order(t.cpu))
    } else if bad_key(in_order(t.mem)) is Some {
        bad_key(in_order(t.mem))
    } else if bad_key(in_order(t.app_cpu)) is Some {
        bad_key(in_order(t.app_cpu))
    } else {
        bad_key(in_order(t.app_mem))
    }
}

/// Checks the keys.
fn check_keys(o: &Overrides) -> (r: Option<String>)
    ensures
        r is Some == bad_key(in_order(o.map())) is Some,
        r is Some ==> Some(r->0@) == bad_key(in_order(o.map())),
{
    let n: usize = o.len();
    let ghost all = in_order(o.map());
    assert(all.skip(0) =~= all);
    for i in 0..n
        invariant
            all == in_order(o.map()),
            all == o.entries(),
            n == all.len(),
            bad_key(all) == bad_key(all.skip(i as int)),
    {
        let e = o.entry(i);
        assert(all.skip(i as int)[0] == all[i as int]);
        assert(all.skip(i as int).drop_first() =~= all.skip(i as int + 1));
        match Matcher::parse(e.0.as_str()) {
            Ok(_) => {},
            Err(message) => {
                return Some(message);
            },
        }
    }
    None
}

/// The builtin template.
pub open spec fn builtin_template() -> TemplateView {
    TemplateView {
        version: TEMPLATE_VERSION,
        cpu: table_map(TEMPLATE_CPU_OVERRIDES@),
        mem: Map::empty(),
        app_cpu: table_map(TEMPLATE_APP_CPU_OVERRIDES@),
        app_mem: table_map(TEMPLATE_APP_MEM_OVERRIDES@),
    }
}

impl Template {
    /// A template read from a file: of the known version, with stars only at
    /// the ends of its keys.
    pub fn checked(template: Template) -> (r: Result<Template, String>)
        ensures
            r is Ok == refusal(template@) is None,
            r is Ok ==> r->Ok_0 == template,
            r is Err ==> Some(r->Err_0@) == refusal(template@),
    {
        if template.version != TEMPLATE_VERSION {
            return Err(
                "unsupported template version ".to_owned().concat(
                    number_text(template.version as u128).as_str(),
                ),
            );
        }
        if let Some(e) = check_keys(&template.cpu) {
            return Err(e);
        }
        if let Some(e) = check_keys(&template.mem) {
            return Err(e);
        }
        if let Some(e) = check_keys(&template.app_cpu) {
            return Err(e);
        }
        if let Some(e) = check_keys(&template.app_mem) {
            return Err(e);
        }
        Ok(template)
    }

    /// The builtin template.
    pub fn builtin() -> (r: Template)
        ensures
            r@ == builtin_template(),
    {
        Template {
            version: TEMPLATE_VERSION,
            cpu: from_table(TEMPLATE_CPU_OVERRIDES),
            mem: Overrides::new(),
            app_cpu: from_table(TEMPLATE_APP_CPU_OVERRIDES),
            app_mem: from_table(TEMPLATE_APP_MEM_OVERRIDES),
        }
    }
}

/// Whether stars stand at the ends of every key only.
pub open spec fn stars_at_the_ends(m: Map<Seq<char>, i64>) -> bool {
    forall|key: Seq<char>, i: int|
        #![trigger m.contains_key(key), key[i]]
        m.contains_key(key) && 0 < i < key.len() - 1 ==> key[i] != '*'
}

/// A key is valid where no star stands between its ends.
proof fn lemma_valid_key(key: Seq<char>)
    ensures
        valid_key(key) <==> forall|i: int| 0 < i < key.len() - 1 ==> #[trigger] key[i] != '*',
{
    let inner = literal_of(key);
    let from: int = if open_start(key) {
        1
    } else {
        0
    };
    if valid_key(key) {
        assert forall|i: int| 0 < i < key.len() - 1 implies #[trigger] key[i] != '*' by {
            assert(inner[i - from] == key[i]);
            assert(inner.contains(inner[i - from]));
        }
    }
    if forall|i: int| 0 < i < key.len() - 1 ==> #[trigger] key[i] != '*' {
        if inner.contains('*') {
            let j = choose|j: int| 0 <= j < inner.len() && inner[j] == '*';
            assert(key[j + from] == '*');
        }
    }
}

/// The first bad key, where there is one.
proof fn lemma_bad_key(keys: Seq<(Seq<char>, i64)>)
    ensures
        bad_key(keys) is None <==> forall|i: int|
            0 <= i < keys.len() ==> valid_key((#[trigger] keys[i]).0),
    decreases keys.len(),
{
    if keys.len() > 0 {
        let rest = keys.drop_first();
        lemma_bad_key(rest);
        if bad_key(keys) is None {
            assert forall|i: int| 0 <= i < keys.len() implies valid_key(
                (#[trigger] keys[i]).0,
            ) by {
                if i > 0 {
                    assert(rest[i - 1] == keys[i]);
                }
            }
        }
        if forall|i: int| 0 <= i < keys.len() ==> valid_key((#[trigger] keys[i]).0) {
            assert forall|i: int| 0 <= i < rest.len() implies valid_key(
                (#[trigger] rest[i]).0,
            ) by {
                assert(keys[i + 1] == rest[i]);
            }
        }
    }
}

/// The keys of a map.
proof fn lemma_map_keys(m: Map<Seq<char>, i64>)
    requires
        m.dom().finite(),
    ensures
        bad_key(in_order(m)) is None <==> stars_at_the_ends(m),
{
    let s = in_order(m);
    lemma_entries_in_order(m);
    lemma_bad_key(s);
    if bad_key(s) is None {
        assert forall|key: Seq<char>, i: int|
            #![trigger m.contains_key(key), key[i]]
            m.contains_key(key) && 0 < i < key.len() - 1 implies key[i] != '*' by {
            let k = choose|k: int| 0 <= k < s.len() && (#[trigger] s[k]).0 == key;
            assert(valid_key(s[k].0));
            lemma_valid_key(key);
        }
    }
    if stars_at_the_ends(m) {
        assert forall|k: int| 0 <= k < s.len() implies valid_key((#[trigger] s[k]).0) by {
            let key = s[k].0;
            assert(m.contains_key(key));
            lemma_valid_key(key);
        }
    }
}

/// A template is accepted exactly if it is of version one and every star in its
/// keys stands at an end.
pub proof fn law_template_that_is_accepted(t: TemplateView)
    requires
        t.cpu.dom().finite(),
        t.mem.dom().finite(),
        t.app_cpu.dom().finite(),
        t.app_mem.dom().finite(),
    ensures
        refusal(t) is None <==> t.version == 1 && stars_at_the_ends(t.cpu) && stars_at_the_ends(
            t.mem,
        ) && stars_at_the_ends(t.app_cpu) && stars_at_the_ends(t.app_mem),
{
    lemma_map_keys(t.cpu);
    lemma_map_keys(t.mem);
    lemma_map_keys(t.app_cpu);
    lemma_map_keys(t.app_mem);
}

} // verus!
