//! Thresholds: a base value and the values of single names.
use vstd::prelude::*;
use vstd::string::*;
use super::matcher::{
    claims, exact_key, literal_of, open_end, open_start, valid_key, Matcher,
};
use crate::text::{chars_of, lowered, to_lower};

verus! {

/// The first of the first `n` entries whose key is exactly `name`.
pub open spec fn first_exact<T>(
    layer: Seq<(Seq<char>, Option<T>)>,
    name: Seq<char>,
    n: nat,
) -> Option<int>
    decreases n,
{
    if n == 0 {
        None
    } else {
        match first_exact(layer, name, (n - 1) as nat) {
            Some(i) => Some(i),
            None => if exact_key(layer[n - 1].0) && claims(layer[n - 1].0, name) {
                Some(n - 1)
            } else {
                None
            },
        }
    }
}

/// Among the first `n` entries, the key with stars that claims `name` and is
/// longest without them; the first of equally long ones.
pub open spec fn best_family<T>(
    layer: Seq<(Seq<char>, Option<T>)>,
    name: Seq<char>,
    n: nat,
) -> Option<int>
    decreases n,
{
    if n == 0 {
        None
    } else {
        let key = layer[n - 1].0;
        let best = best_family(layer, name, (n - 1) as nat);
        if !exact_key(key) && claims(key, name) && (best is None || literal_of(key).len()
            > literal_of(layer[best->0].0).len()) {
            Some(n - 1)
        } else {
            best
        }
    }
}

/// The entry of a layer that decides for `name`: an exact key before a family.
pub open spec fn choice<T>(layer: Seq<(Seq<char>, Option<T>)>, name: Seq<char>) -> Option<int> {
    match first_exact(layer, name, layer.len()) {
        Some(i) => Some(i),
        None => best_family(layer, name, layer.len()),
    }
}

/// The threshold of `name`: the user's entry, then the template's, then the
/// base value.
pub open spec fn effective<T>(
    base: Option<T>,
    user: Seq<(Seq<char>, Option<T>)>,
    template: Seq<(Seq<char>, Option<T>)>,
    name: Seq<char>,
) -> Option<T> {
    match choice(user, name) {
        Some(i) => user[i].1,
        None => match choice(template, name) {
            Some(i) => template[i].1,
            None => base,
        },
    }
}

/// The entry with its key as text.
pub open spec fn layer_of<T>(s: Seq<(String, Option<T>)>) -> Seq<(Seq<char>, Option<T>)> {
    s.map_values(|e: (String, Option<T>)| (e.0@, e.1))
}

/// A base value with values for single names above it. A value of `None` turns
/// the rule off.
pub struct Thresholds<T> {
    default: Option<T>,
    overrides: Vec<(String, Option<T>)>,
    template: Vec<(String, Option<T>)>,
}

/// The entry of a layer that decides for `name`.
fn choose_entry<T: Copy>(layer: &Vec<(String, Option<T>)>, name: &str) -> (r: Option<usize>)
    ensures
        r is Some == choice(layer_of(layer@), name@) is Some,
        r is Some ==> r->0 == choice(layer_of(layer@), name@)->0 && r->0 < layer@.len(),
{
    let whole = to_lower(&chars_of(name));
    let mut exact: Option<usize> = None;
    let mut best: Option<usize> = None;
    let mut best_len: usize = 0;
    for i in 0..layer.len()
        invariant
            whole@ == lowered(name@),
            exact is Some == first_exact(layer_of(layer@), name@, i as nat) is Some,
            exact is Some ==> exact->0 == first_exact(layer_of(layer@), name@, i as nat)->0
                && exact->0 < i,
            best is Some == best_family(layer_of(layer@), name@, i as nat) is Some,
            best is Some ==> best->0 == best_family(layer_of(layer@), name@, i as nat)->0
                && best->0 < i && best_len == literal_of(layer@[best->0 as int].0@).len(),
    {
        let key = layer[i].0.as_str();
        assert(layer_of(layer@)[i as int].0 == key@);
        match Matcher::parse(key) {
            Err(_) => {},
            Ok(m) => {
                let claimed: bool = m.matches_lowered(&whole);
                assert(claimed == claims(key@, name@));
                if claimed {
                    if m.is_exact() {
                        if exact.is_none() {
                            exact = Some(i);
                        }
                    } else if best.is_none() || m.literal_len() > best_len {
                        best = Some(i);
                        best_len = m.literal_len();
                    }
                }
            },
        }
    }
    if exact.is_some() {
        exact
    } else {
        best
    }
}

/// Whether any entry turns the rule on.
fn any_value<T: Copy>(layer: &Vec<(String, Option<T>)>) -> (r: bool)
    ensures
        r == exists|i: int| 0 <= i < layer@.len() && (#[trigger] layer_of(layer@)[i]).1 is Some,
{
    for i in 0..layer.len()
        invariant
            forall|j: int| 0 <= j < i ==> (#[trigger] layer_of(layer@)[j]).1 is None,
    {
        if layer[i].1.is_some() {
            assert(layer_of(layer@)[i as int].1 is Some);
            return true;
        }
    }
    false
}

impl<T: Copy> Thresholds<T> {
    /// The base value.
    pub closed spec fn default_value(&self) -> Option<T> {
        self.default
    }

    /// The user's entries, in the order they came.
    pub closed spec fn user(&self) -> Seq<(Seq<char>, Option<T>)> {
        layer_of(self.overrides@)
    }

    /// The template's entries, in the order they came.
    pub closed spec fn templated(&self) -> Seq<(Seq<char>, Option<T>)> {
        layer_of(self.template@)
    }

    /// The threshold of `name`.
    pub open spec fn threshold(&self, name: Seq<char>) -> Option<T> {
        effective(self.default_value(), self.user(), self.templated(), name)
    }

    /// Whether the rule is on for any name.
    pub open spec fn enabled(&self) -> bool {
        ||| self.default_value() is Some
        ||| exists|i: int| 0 <= i < self.user().len() && (#[trigger] self.user()[i]).1 is Some
        ||| exists|i: int|
            0 <= i < self.templated().len() && (#[trigger] self.templated()[i]).1 is Some
    }

    /// A base value alone.
    pub fn new(default: Option<T>) -> (r: Thresholds<T>)
        ensures
            r.default_value() == default,
            r.user() == Seq::<(Seq<char>, Option<T>)>::empty(),
            r.templated() == Seq::<(Seq<char>, Option<T>)>::empty(),
    {
        let r = Thresholds { default, overrides: Vec::new(), template: Vec::new() };
        assert(r.user() =~= Seq::<(Seq<char>, Option<T>)>::empty());
        assert(r.templated() =~= Seq::<(Seq<char>, Option<T>)>::empty());
        r
    }

    /// Adds the user's value for a name or a family of names.
    pub fn with_override(self, name: String, value: Option<T>) -> (r: Thresholds<T>)
        ensures
            r.default_value() == self.default_value(),
            r.user() == self.user().push((name@, value)),
            r.templated() == self.templated(),
    {
        let mut r = self;
        r.overrides.push((name, value));
        assert(r.user() =~= self.user().push((name@, value)));
        r
    }

    /// Adds the template's value for a name or a family of names.
    pub fn with_template(self, name: String, value: Option<T>) -> (r: Thresholds<T>)
        ensures
            r.default_value() == self.default_value(),
            r.user() == self.user(),
            r.templated() == self.templated().push((name@, value)),
    {
        let mut r = self;
        r.template.push((name, value));
        assert(r.templated() =~= self.templated().push((name@, value)));
        r
    }

    /// The threshold of a process; `None` means that the rule is off for it.
    pub fn for_process(&self, name: &str) -> (r: Option<T>)
        ensures
            r == self.threshold(name@),
    {
        match choose_entry(&self.overrides, name) {
            Some(i) => self.overrides[i].1,
            None => match choose_entry(&self.template, name) {
                Some(i) => self.template[i].1,
                None => self.default,
            },
        }
    }

    /// Whether a name has a value of its own, from the user or the template.
    pub fn has_own_value(&self, name: &str) -> (r: bool)
        ensures
            r == (choice(self.user(), name@) is Some || choice(self.templated(), name@) is Some),
    {
        choose_entry(&self.overrides, name).is_some() || choose_entry(
            &self.template,
            name,
        ).is_some()
    }

    /// The base value, whatever single names have.
    pub fn base(&self) -> (r: Option<T>)
        ensures
            r == self.default_value(),
    {
        self.default
    }

    /// Whether the rule is on for any name.
    pub fn any_enabled(&self) -> (r: bool)
        ensures
            r == self.enabled(),
    {
        self.default.is_some() || any_value(&self.overrides) || any_value(&self.template)
    }
}

/// The first exact key is one of the layer that claims the name, and none
/// before it does; with none, no exact key claims it.
proof fn lemma_first_exact<T>(layer: Seq<(Seq<char>, Option<T>)>, name: Seq<char>, n: nat)
    requires
        n <= layer.len(),
    ensures
        match first_exact(layer, name, n) {
            Some(i) => 0 <= i < n && exact_key(layer[i].0) && claims(layer[i].0, name) && forall|
                j: int,
            |
                0 <= j < i ==> !(exact_key((#[trigger] layer[j]).0) && claims(layer[j].0, name)),
            None => forall|j: int|
                0 <= j < n ==> !(exact_key((#[trigger] layer[j]).0) && claims(layer[j].0, name)),
        },
    decreases n,
{
    if n > 0 {
        lemma_first_exact(layer, name, (n - 1) as nat);
    }
}

/// The best family claims the name and no claiming family is longer; with
/// none, no family claims it.
proof fn lemma_best_family<T>(layer: Seq<(Seq<char>, Option<T>)>, name: Seq<char>, n: nat)
    requires
        n <= layer.len(),
    ensures
        match best_family(layer, name, n) {
            Some(i) => 0 <= i < n && !exact_key(layer[i].0) && claims(layer[i].0, name) && forall|
                j: int,
            |
                0 <= j < n && !exact_key((#[trigger] layer[j]).0) && claims(layer[j].0, name)
                    ==> literal_of(layer[j].0).len() <= literal_of(layer[i].0).len(),
            None => forall|j: int|
                0 <= j < n ==> exact_key((#[trigger] layer[j]).0) || !claims(layer[j].0, name),
        },
    decreases n,
{
    if n > 0 {
        lemma_best_family(layer, name, (n - 1) as nat);
    }
}

/// The deciding entry of a layer claims the name. An exact key decides before
/// any family, and among families the longest one does. Where no entry
/// decides, none claims the name.
pub proof fn law_deciding_entry<T>(layer: Seq<(Seq<char>, Option<T>)>, name: Seq<char>)
    ensures
        match choice(layer, name) {
            Some(i) => {
                &&& 0 <= i < layer.len()
                &&& claims(layer[i].0, name)
                &&& !exact_key(layer[i].0) ==> forall|j: int|
                    0 <= j < layer.len() && claims((#[trigger] layer[j]).0, name) ==> !exact_key(
                        layer[j].0,
                    ) && literal_of(layer[j].0).len() <= literal_of(layer[i].0).len()
            },
            None => forall|j: int| 0 <= j < layer.len() ==> !claims((#[trigger] layer[j]).0, name),
        },
{
    lemma_first_exact(layer, name, layer.len());
    lemma_best_family(layer, name, layer.len());
}

/// The user's entries come before the template's and the base value: a name
/// that a user's entry claims has that layer's value whatever the rest says.
pub proof fn law_user_decides_first<T>(
    user: Seq<(Seq<char>, Option<T>)>,
    name: Seq<char>,
    base: Option<T>,
    template: Seq<(Seq<char>, Option<T>)>,
    other_base: Option<T>,
    other_template: Seq<(Seq<char>, Option<T>)>,
)
    requires
        exists|j: int| 0 <= j < user.len() && claims((#[trigger] user[j]).0, name),
    ensures
        effective(base, user, template, name) == effective(
            other_base,
            user,
            other_template,
            name,
        ),
{
    law_deciding_entry(user, name);
}

/// A name that no entry claims has the base value.
pub proof fn law_unclaimed_name_has_base_value<T>(
    base: Option<T>,
    user: Seq<(Seq<char>, Option<T>)>,
    template: Seq<(Seq<char>, Option<T>)>,
    name: Seq<char>,
)
    requires
        forall|j: int| 0 <= j < user.len() ==> !claims((#[trigger] user[j]).0, name),
        forall|j: int| 0 <= j < template.len() ==> !claims((#[trigger] template[j]).0, name),
    ensures
        effective(base, user, template, name) == base,
{
    law_deciding_entry(user, name);
    law_deciding_entry(template, name);
}

/// Whether an entry decides for a name: its key claims it, and of all keys that do
/// it is the best. A key without stars is better than one with, one with more
/// characters beside the stars better than one with fewer, and of two alike the
/// first.
pub open spec fn decides<T>(layer: Seq<(Seq<char>, Option<T>)>, name: Seq<char>, i: int) -> bool {
    &&& 0 <= i < layer.len()
    &&& claims(layer[i].0, name)
    &&& forall|j: int|
        0 <= j < layer.len() && j != i && claims((#[trigger] layer[j]).0, name) ==> {
            let (key, other) = (layer[i].0, layer[j].0);
            if !key.contains('*') {
                other.contains('*') || i < j
            } else {
                &&& other.contains('*')
                &&& literal_of(other).len() < literal_of(key).len() || (literal_of(other).len()
                    == literal_of(key).len() && i < j)
            }
        }
}

/// The first of the best families.
proof fn lemma_first_best<T>(layer: Seq<(Seq<char>, Option<T>)>, name: Seq<char>, n: nat)
    requires
        n <= layer.len(),
    ensures
        match best_family(layer, name, n) {
            Some(i) => 0 <= i < n && forall|j: int|
                0 <= j < i && !exact_key((#[trigger] layer[j]).0) && claims(layer[j].0, name)
                    ==> literal_of(layer[j].0).len() < literal_of(layer[i].0).len(),
            None => true,
        },
    decreases n,
{
    if n > 0 {
        lemma_first_best(layer, name, (n - 1) as nat);
        lemma_best_family(layer, name, (n - 1) as nat);
    }
}

/// A key that claims a name is exact if it has no star.
proof fn lemma_exact(key: Seq<char>)
    requires
        valid_key(key),
    ensures
        exact_key(key) <==> !key.contains('*'),
{
    if key.contains('*') && exact_key(key) {
        assert(literal_of(key) =~= key);
    }
    if open_start(key) {
        assert(key[0] == '*');
    }
    if open_end(key) {
        assert(key[key.len() - 1] == '*');
    }
}

/// The deciding entry of a layer.
proof fn lemma_decides<T>(layer: Seq<(Seq<char>, Option<T>)>, name: Seq<char>)
    ensures
        match choice(layer, name) {
            Some(i) => decides(layer, name, i),
            None => forall|j: int| 0 <= j < layer.len() ==> !claims((#[trigger] layer[j]).0, name),
        },
{
    law_deciding_entry(layer, name);
    lemma_first_exact(layer, name, layer.len());
    lemma_best_family(layer, name, layer.len());
    lemma_first_best(layer, name, layer.len());
    if choice(layer, name) is Some {
        let i = choice(layer, name)->0;
        lemma_exact(layer[i].0);
        assert forall|j: int|
            0 <= j < layer.len() && j != i && claims((#[trigger] layer[j]).0, name) implies {
            let (key, other) = (layer[i].0, layer[j].0);
            if !key.contains('*') {
                other.contains('*') || i < j
            } else {
                &&& other.contains('*')
                &&& literal_of(other).len() < literal_of(key).len() || (literal_of(other).len()
                    == literal_of(key).len() && i < j)
            }
        } by {
            lemma_exact(layer[j].0);
        }
    }
}

/// The threshold of a name is the value of the user's entry that decides for it;
/// where none of them claims it, that of the template's that does; and where none
/// of those claims it either, the base value.
pub proof fn law_threshold_of_a_name<T>(
    base: Option<T>,
    user: Seq<(Seq<char>, Option<T>)>,
    template: Seq<(Seq<char>, Option<T>)>,
    name: Seq<char>,
)
    ensures
        ({
            let t = effective(base, user, template, name);
            let users = exists|j: int| 0 <= j < user.len() && claims((#[trigger] user[j]).0, name);
            let templates = exists|j: int|
                0 <= j < template.len() && claims((#[trigger] template[j]).0, name);
            &&& users ==> exists|i: int| #[trigger] decides(user, name, i) && t == user[i].1
            &&& !users && templates ==> exists|i: int| #[trigger]
                decides(template, name, i) && t == template[i].1
            &&& !users && !templates ==> t == base
        }),
{
    lemma_decides(user, name);
    lemma_decides(template, name);
}

/// A rule that is off has no threshold for any name: what raises no alert may be
/// left out, and nothing else is.
pub proof fn law_rule_that_is_off(t: Thresholds<u64>, name: Seq<char>)
    ensures
        t.threshold(name) is Some ==> t.enabled(),
        t.default_value() is Some ==> t.enabled(),
{
    law_deciding_entry(t.user(), name);
    law_deciding_entry(t.templated(), name);
}

} // verus!
