//! Values by name, in the order of the names.
use vstd::prelude::*;
use vstd::string::*;
use crate::text::{chars_of, same_text};

verus! {

/// Whether `a` stands before `b` in the order of their characters.
pub open spec fn text_less(a: Seq<char>, b: Seq<char>) -> bool
    decreases a.len(),
{
    if b.len() == 0 {
        false
    } else if a.len() == 0 {
        true
    } else if a[0] != b[0] {
        a[0] < b[0]
    } else {
        text_less(a.drop_first(), b.drop_first())
    }
}

/// The order is strict.
pub proof fn lemma_less_irreflexive(a: Seq<char>)
    ensures
        !text_less(a, a),
    decreases a.len(),
{
    if a.len() > 0 {
        lemma_less_irreflexive(a.drop_first());
    }
}

/// The order is transitive.
pub proof fn lemma_less_transitive(a: Seq<char>, b: Seq<char>, c: Seq<char>)
    requires
        text_less(a, b),
        text_less(b, c),
    ensures
        text_less(a, c),
    decreases a.len(),
{
    if a.len() > 0 && a[0] == b[0] && b[0] == c[0] {
        lemma_less_transitive(a.drop_first(), b.drop_first(), c.drop_first());
    }
}

/// Of two different texts one stands before the other.
pub proof fn lemma_less_total(a: Seq<char>, b: Seq<char>)
    ensures
        a == b || text_less(a, b) || text_less(b, a),
    decreases a.len(),
{
    if a.len() > 0 && b.len() > 0 && a[0] == b[0] {
        lemma_less_total(a.drop_first(), b.drop_first());
        if a.drop_first() == b.drop_first() {
            assert(a =~= seq![a[0]] + a.drop_first());
            assert(b =~= seq![b[0]] + b.drop_first());
        }
    } else if a.len() == 0 && b.len() == 0 {
        assert(a =~= b);
    }
}

/// Whether `a` stands before `b`.
pub fn before(a: &str, b: &str) -> (r: bool)
    ensures
        r == text_less(a@, b@),
{
    let x = chars_of(a);
    let y = chars_of(b);
    let mut i: usize = 0;
    assert(x@.skip(0) =~= x@);
    assert(y@.skip(0) =~= y@);
    while i < x.len() && i < y.len() && x[i] == y[i]
        invariant
            i <= x.len(),
            i <= y.len(),
            text_less(x@, y@) == text_less(x@.skip(i as int), y@.skip(i as int)),
        decreases x.len() - i,
    {
        assert(x@.skip(i as int).drop_first() =~= x@.skip(i as int + 1));
        assert(y@.skip(i as int).drop_first() =~= y@.skip(i as int + 1));
        i += 1;
    }
    if i >= y.len() {
        false
    } else if i >= x.len() {
        true
    } else {
        x[i] < y[i]
    }
}

/// The entries with their names as texts.
pub open spec fn entries_of<V>(s: Seq<(String, V)>) -> Seq<(Seq<char>, V)> {
    s.map_values(|e: (String, V)| (e.0@, e.1))
}

/// The entries of a longer list.
proof fn lemma_entries_push<V>(s: Seq<(String, V)>, e: (String, V))
    ensures
        entries_of(s.push(e)) == entries_of(s).push((e.0@, e.1)),
{
    assert(entries_of(s.push(e)) =~= entries_of(s).push((e.0@, e.1)));
}

/// Whether each name stands before the next.
pub open spec fn sorted<V>(s: Seq<(Seq<char>, V)>) -> bool {
    forall|i: int, j: int| 0 <= i < j < s.len() ==> text_less((#[trigger] s[i]).0, (#[trigger] s[j]).0)
}

/// Whether `name` is among the entries.
pub open spec fn has_name<V>(s: Seq<(Seq<char>, V)>, name: Seq<char>) -> bool {
    exists|i: int| 0 <= i < s.len() && (#[trigger] s[i]).0 == name
}

/// The value that `name` has among the entries.
pub open spec fn value_at<V>(s: Seq<(Seq<char>, V)>, name: Seq<char>) -> V {
    s[choose|i: int| 0 <= i < s.len() && (#[trigger] s[i]).0 == name].1
}

/// The value of each name among the entries.
pub open spec fn map_of<V>(s: Seq<(Seq<char>, V)>) -> Map<Seq<char>, V> {
    Map::new(|name: Seq<char>| has_name(s, name), |name: Seq<char>| value_at(s, name))
}

/// The names of a map in their order, each with its value.
pub open spec fn in_order<V>(m: Map<Seq<char>, V>) -> Seq<(Seq<char>, V)> {
    choose|s: Seq<(Seq<char>, V)>| sorted(s) && #[trigger] map_of(s) == m
}

/// The names before `k` that stand before `name`, followed by the entry, or the
/// entry in the place of an equal name.
pub open spec fn placed_at<V>(s: Seq<(Seq<char>, V)>, k: int, name: Seq<char>, value: V) -> Seq<
    (Seq<char>, V),
> {
    if k < s.len() && s[k].0 == name {
        s.update(k, (name, value))
    } else {
        s.insert(k, (name, value))
    }
}

/// In sorted entries each name has one value.
proof fn lemma_unique<V>(s: Seq<(Seq<char>, V)>, i: int)
    requires
        sorted(s),
        0 <= i < s.len(),
    ensures
        has_name(s, s[i].0),
        value_at(s, s[i].0) == s[i].1,
{
    let j = choose|j: int| 0 <= j < s.len() && (#[trigger] s[j]).0 == s[i].0;
    lemma_less_irreflexive(s[i].0);
    if i < j {
        assert(text_less(s[i].0, s[j].0));
    } else if j < i {
        assert(text_less(s[j].0, s[i].0));
    }
}

/// Placing an entry where its name belongs keeps the order and sets the value
/// of that name alone.
proof fn lemma_placed<V>(s: Seq<(Seq<char>, V)>, k: int, name: Seq<char>, value: V)
    requires
        sorted(s),
        0 <= k <= s.len(),
        forall|i: int| 0 <= i < k ==> text_less((#[trigger] s[i]).0, name),
        k < s.len() ==> !text_less(s[k].0, name),
    ensures
        sorted(placed_at(s, k, name, value)),
        forall|n: Seq<char>|
            has_name(placed_at(s, k, name, value), n) <==> n == name || has_name(s, n),
        has_name(placed_at(s, k, name, value), name),
        value_at(placed_at(s, k, name, value), name) == value,
        forall|n: Seq<char>|
            n != name && has_name(s, n) ==> value_at(placed_at(s, k, name, value), n) == value_at(
                s,
                n,
            ),
{
    let t = placed_at(s, k, name, value);
    let same = k < s.len() && s[k].0 == name;
    if k < s.len() && !same {
        lemma_less_total(s[k].0, name);
        assert(text_less(name, s[k].0));
    }
    assert forall|i: int, j: int| 0 <= i < j < t.len() implies text_less(
        (#[trigger] t[i]).0,
        (#[trigger] t[j]).0,
    ) by {
        if same {
            assert(t[i].0 == s[i].0 && t[j].0 == s[j].0);
        } else if j < k {
            assert(t[i] == s[i] && t[j] == s[j]);
        } else if j == k {
            assert(t[i] == s[i]);
        } else if i < k {
            assert(t[i] == s[i] && t[j] == s[j - 1]);
        } else if i == k {
            assert(t[j] == s[j - 1]);
            if j - 1 > k {
                assert(text_less(s[k].0, s[j - 1].0));
                lemma_less_transitive(name, s[k].0, s[j - 1].0);
            }
        } else {
            assert(t[i] == s[i - 1] && t[j] == s[j - 1]);
        }
    }
    assert(t[k] == (name, value));
    lemma_unique(t, k);
    assert forall|n: Seq<char>| has_name(t, n) implies n == name || has_name(s, n) by {
        let i = choose|i: int| 0 <= i < t.len() && (#[trigger] t[i]).0 == n;
        if i < k || same {
            assert(s[i].0 == t[i].0);
        } else if i > k {
            assert(s[i - 1].0 == t[i].0);
        }
    }
    assert forall|n: Seq<char>| has_name(s, n) implies has_name(t, n) && (n != name ==> value_at(
        t,
        n,
    ) == value_at(s, n)) by {
        let i = choose|i: int| 0 <= i < s.len() && (#[trigger] s[i]).0 == n;
        lemma_unique(s, i);
        if i < k || same {
            assert(t[i].0 == n);
            lemma_unique(t, i);
        } else {
            assert(t[i + 1] == s[i]);
            lemma_unique(t, i + 1);
        }
    }
}

/// Removing one entry keeps the order and the values of the other names.
proof fn lemma_removed<V>(s: Seq<(Seq<char>, V)>, k: int)
    requires
        sorted(s),
        0 <= k < s.len(),
    ensures
        sorted(s.remove(k)),
        forall|n: Seq<char>| has_name(s.remove(k), n) <==> n != s[k].0 && has_name(s, n),
        forall|n: Seq<char>|
            n != s[k].0 && has_name(s, n) ==> value_at(s.remove(k), n) == value_at(s, n),
{
    let t = s.remove(k);
    assert forall|i: int, j: int| 0 <= i < j < t.len() implies text_less(
        (#[trigger] t[i]).0,
        (#[trigger] t[j]).0,
    ) by {
        let a = if i < k {
            i
        } else {
            i + 1
        };
        let b = if j < k {
            j
        } else {
            j + 1
        };
        assert(t[i] == s[a] && t[j] == s[b]);
    }
    assert forall|n: Seq<char>| has_name(t, n) implies n != s[k].0 && has_name(s, n) by {
        let i = choose|i: int| 0 <= i < t.len() && (#[trigger] t[i]).0 == n;
        let a = if i < k {
            i
        } else {
            i + 1
        };
        assert(t[i] == s[a]);
        lemma_less_irreflexive(n);
    }
    assert forall|n: Seq<char>| n != s[k].0 && has_name(s, n) implies has_name(t, n) && value_at(
        t,
        n,
    ) == value_at(s, n) by {
        let i = choose|i: int| 0 <= i < s.len() && (#[trigger] s[i]).0 == n;
        lemma_unique(s, i);
        let b = if i < k {
            i
        } else {
            i - 1
        };
        assert(t[b] == s[i]);
        lemma_unique(t, b);
    }
}

/// There is one order of the names: entries in order that give the same values to
/// the same names are the same.
pub proof fn law_order_of_names_is_unique<V>(a: Seq<(Seq<char>, V)>, b: Seq<(Seq<char>, V)>)
    requires
        sorted(a),
        sorted(b),
        map_of(a) == map_of(b),
    ensures
        a == b,
    decreases a.len(),
{
    if a.len() == 0 {
        if b.len() > 0 {
            lemma_unique(b, 0);
            assert(map_of(b).contains_key(b[0].0));
            assert(!map_of(a).contains_key(b[0].0));
        }
        assert(a =~= b);
    } else {
        lemma_unique(a, 0);
        assert(map_of(a).contains_key(a[0].0));
        assert(map_of(b).contains_key(a[0].0));
        let j = choose|j: int| 0 <= j < b.len() && (#[trigger] b[j]).0 == a[0].0;
        lemma_unique(b, j);
        lemma_unique(b, 0);
        assert(map_of(b).contains_key(b[0].0));
        assert(map_of(a).contains_key(b[0].0));
        let i = choose|i: int| 0 <= i < a.len() && (#[trigger] a[i]).0 == b[0].0;
        lemma_less_irreflexive(a[0].0);
        if j > 0 {
            assert(text_less(b[0].0, b[j].0));
            if i > 0 {
                assert(text_less(a[0].0, a[i].0));
                lemma_less_transitive(a[0].0, b[0].0, a[0].0);
            }
        }
        assert(map_of(a)[a[0].0] == a[0].1);
        assert(map_of(b)[a[0].0] == b[0].1);
        assert(a[0] == b[0]);
        lemma_removed(a, 0);
        lemma_removed(b, 0);
        assert forall|n: Seq<char>| has_name(a.remove(0), n) implies has_name(b.remove(0), n)
            && value_at(a.remove(0), n) == value_at(b.remove(0), n) by {
            assert(n != a[0].0 && has_name(a, n));
            assert(map_of(a).contains_key(n) && map_of(b).contains_key(n));
            assert(has_name(b, n) && n != b[0].0);
            assert(has_name(b.remove(0), n));
            assert(map_of(a)[n] == value_at(a, n));
            assert(map_of(b)[n] == value_at(b, n));
            assert(value_at(a.remove(0), n) == value_at(a, n));
            assert(value_at(b.remove(0), n) == value_at(b, n));
        }
        assert forall|n: Seq<char>| has_name(b.remove(0), n) implies has_name(a.remove(0), n) by {
            assert(n != b[0].0 && has_name(b, n));
            assert(map_of(b).contains_key(n) && map_of(a).contains_key(n));
            assert(has_name(a, n));
        }
        assert(map_of(a.remove(0)) =~= map_of(b.remove(0)));
        law_order_of_names_is_unique(a.remove(0), b.remove(0));
        assert(a =~= seq![a[0]] + a.remove(0));
        assert(b =~= seq![b[0]] + b.remove(0));
    }
}

/// Entries in order are those that their values give.
proof fn lemma_in_order<V>(s: Seq<(Seq<char>, V)>)
    requires
        sorted(s),
    ensures
        s == in_order(map_of(s)),
{
    let t = in_order(map_of(s));
    assert(sorted(s) && map_of(s) == map_of(s));
    law_order_of_names_is_unique(s, t);
}

/// A list gives values to finitely many names.
proof fn lemma_finite<V>(s: Seq<(Seq<char>, V)>)
    ensures
        map_of(s).dom().finite(),
{
    let names = s.map_values(|e: (Seq<char>, V)| e.0);
    assert forall|n: Seq<char>| #[trigger] map_of(s).dom().contains(n) implies names.to_set().contains(
        n,
    ) by {
        let i = choose|i: int| 0 <= i < s.len() && (#[trigger] s[i]).0 == n;
        assert(names[i] == n);
    }
    vstd::seq_lib::seq_to_set_is_finite(names);
    vstd::set_lib::lemma_set_subset_finite(names.to_set(), map_of(s).dom());
}

/// How many of the first names stand before `name`.
spec fn names_before<V>(s: Seq<(Seq<char>, V)>, name: Seq<char>) -> int
    decreases s.len(),
{
    if s.len() == 0 || !text_less(s[0].0, name) {
        0
    } else {
        1 + names_before(s.drop_first(), name)
    }
}

proof fn lemma_names_before<V>(s: Seq<(Seq<char>, V)>, name: Seq<char>)
    ensures
        0 <= names_before(s, name) <= s.len(),
        forall|i: int| 0 <= i < names_before(s, name) ==> text_less((#[trigger] s[i]).0, name),
        names_before(s, name) < s.len() ==> !text_less(s[names_before(s, name)].0, name),
    decreases s.len(),
{
    if s.len() > 0 && text_less(s[0].0, name) {
        let rest = s.drop_first();
        lemma_names_before(rest, name);
        assert forall|i: int| 0 <= i < names_before(s, name) implies text_less(
            (#[trigger] s[i]).0,
            name,
        ) by {
            if i > 0 {
                assert(rest[i - 1] == s[i]);
            }
        }
    }
}

/// The names of a finite map can be put in order.
pub proof fn lemma_can_be_ordered<V>(m: Map<Seq<char>, V>)
    requires
        m.dom().finite(),
    ensures
        sorted(in_order(m)),
        map_of(in_order(m)) == m,
    decreases m.dom().len(),
{
    if m.dom().len() == 0 {
        let s = Seq::<(Seq<char>, V)>::empty();
        assert(m.dom() =~= Set::empty());
        assert(map_of(s) =~= m);
        assert(sorted(s) && map_of(s) == m);
    } else {
        let name = m.dom().choose();
        let rest = m.remove(name);
        assert(rest.dom() =~= m.dom().remove(name));
        lemma_can_be_ordered(rest);
        let t = in_order(rest);
        lemma_names_before(t, name);
        let k = names_before(t, name);
        lemma_placed(t, k, name, m[name]);
        let s = placed_at(t, k, name, m[name]);
        assert forall|n: Seq<char>| has_name(s, n) <==> m.contains_key(n) by {
            assert(map_of(t).contains_key(n) == rest.contains_key(n));
        }
        assert forall|n: Seq<char>| m.contains_key(n) implies value_at(s, n) == m[n] by {
            if n != name {
                assert(rest.contains_key(n));
                assert(map_of(t).contains_key(n));
                assert(map_of(t)[n] == rest[n]);
            }
        }
        assert(map_of(s) =~= m);
        assert(sorted(s) && map_of(s) == m);
    }
}

/// An entry in order has the map's value of its name, and each name has an entry.
pub proof fn lemma_entries_in_order<V>(m: Map<Seq<char>, V>)
    requires
        m.dom().finite(),
    ensures
        forall|i: int|
            0 <= i < in_order(m).len() ==> m.contains_key((#[trigger] in_order(m)[i]).0)
                && in_order(m)[i].1 == m[in_order(m)[i].0],
        forall|n: Seq<char>| #[trigger]
            m.contains_key(n) ==> exists|i: int|
                0 <= i < in_order(m).len() && (#[trigger] in_order(m)[i]).0 == n,
{
    lemma_can_be_ordered(m);
    let s = in_order(m);
    assert forall|i: int| 0 <= i < s.len() implies m.contains_key((#[trigger] s[i]).0) && s[i].1
        == m[s[i].0] by {
        lemma_unique(s, i);
        assert(map_of(s).contains_key(s[i].0));
    }
    assert forall|n: Seq<char>| #[trigger] m.contains_key(n) implies exists|i: int|
        0 <= i < s.len() && (#[trigger] s[i]).0 == n by {
        assert(map_of(s).contains_key(n));
        assert(has_name(s, n));
    }
}

/// Values by name, each name once, in the order of the names.
#[derive(Debug)]
pub struct NameMap<V: Copy> {
    entries: Vec<(String, V)>,
}

impl<V: Copy> NameMap<V> {
    /// The entries in the order of their names.
    pub closed spec fn entries(&self) -> Seq<(Seq<char>, V)> {
        entries_of(self.entries@)
    }

    /// Whether the names are in order, each once.
    #[verifier::type_invariant]
    spec fn wf(&self) -> bool {
        sorted(entries_of(self.entries@))
    }

    /// The value of each name.
    pub open spec fn map(&self) -> Map<Seq<char>, V> {
        map_of(self.entries())
    }

    /// No names.
    pub fn new() -> (r: NameMap<V>)
        ensures
            r.entries() == Seq::<(Seq<char>, V)>::empty(),
            r.map() == Map::<Seq<char>, V>::empty(),
    {
        let r = NameMap { entries: Vec::new() };
        assert(r.entries() =~= Seq::<(Seq<char>, V)>::empty());
        assert(r.map() =~= Map::<Seq<char>, V>::empty());
        r
    }

    /// How many names there are.
    pub fn len(&self) -> (r: usize)
        ensures
            r == self.entries().len(),
            self.entries() == in_order(self.map()),
            self.map().dom().finite(),
    {
        proof {
            use_type_invariant(self);
            lemma_in_order(self.entries());
            lemma_finite(self.entries());
        }
        self.entries.len()
    }

    /// Whether there are no names.
    pub fn is_empty(&self) -> (r: bool)
        ensures
            r == (self.entries().len() == 0),
            r == (self.map() == Map::<Seq<char>, V>::empty()),
    {
        proof {
            if self.entries().len() == 0 {
                assert(self.map() =~= Map::<Seq<char>, V>::empty());
            } else {
                assert(has_name(self.entries(), self.entries()[0].0));
                assert(self.map().contains_key(self.entries()[0].0));
            }
        }
        self.entries.len() == 0
    }

    /// The name and value at place `i` in the order of the names.
    pub fn entry(&self, i: usize) -> (r: (String, V))
        requires
            i < self.entries().len(),
        ensures
            (r.0@, r.1) == self.entries()[i as int],
            self.entries() == in_order(self.map()),
    {
        proof {
            use_type_invariant(self);
            lemma_in_order(self.entries());
        }
        (self.entries[i].0.clone(), self.entries[i].1)
    }

    /// The place where `name` stands or belongs.
    fn place(&self, name: &str) -> (k: usize)
        ensures
            k <= self.entries@.len(),
            forall|i: int| 0 <= i < k ==> text_less((#[trigger] self.entries()[i]).0, name@),
            k < self.entries@.len() ==> !text_less(self.entries()[k as int].0, name@),
    {
        let mut k: usize = 0;
        while k < self.entries.len() && before(self.entries[k].0.as_str(), name)
            invariant
                k <= self.entries.len(),
                forall|i: int| 0 <= i < k ==> text_less((#[trigger] self.entries()[i]).0, name@),
            decreases self.entries.len() - k,
        {
            assert(self.entries()[k as int].0 == self.entries@[k as int].0@);
            k += 1;
        }
        k
    }

    /// The value of `name`.
    pub fn get(&self, name: &str) -> (r: Option<V>)
        ensures
            r is Some == self.map().contains_key(name@),
            r is Some ==> r->0 == self.map()[name@],
    {
        proof {
            use_type_invariant(self);
        }
        let k: usize = self.place(name);
        if k < self.entries.len() && same_text(self.entries[k].0.as_str(), name) {
            proof {
                lemma_unique(self.entries(), k as int);
            }
            Some(self.entries[k].1)
        } else {
            proof {
                lemma_absent(self.entries(), k as int, name@);
            }
            None
        }
    }

    /// Whether `name` has a value.
    pub fn contains_key(&self, name: &str) -> (r: bool)
        ensures
            r == self.map().contains_key(name@),
    {
        self.get(name).is_some()
    }

    /// Gives `name` the value.
    pub fn insert(&mut self, name: &str, value: V)
        ensures
            final(self).map() == old(self).map().insert(name@, value),
    {
        proof {
            use_type_invariant(&*self);
        }
        let ghost was = self.entries();
        let k: usize = self.place(name);
        proof {
            lemma_placed(was, k as int, name@, value);
        }
        let mut fresh: Vec<(String, V)> = Vec::new();
        let n: usize = self.entries.len();
        let same: bool = k < n && same_text(self.entries[k].0.as_str(), name);
        for i in 0..k
            invariant
                k <= n == self.entries.len(),
                was == entries_of(self.entries@),
                entries_of(fresh@) =~= was.take(i as int),
        {
            let e = (self.entries[i].0.clone(), self.entries[i].1);
            proof {
                lemma_entries_push(fresh@, e);
            }
            fresh.push(e);
        }
        fresh.push((name.to_owned(), value));
        let from: usize = if same {
            k + 1
        } else {
            k
        };
        assert(entries_of(fresh@) =~= was.take(k as int).push((name@, value)));
        for i in from..n
            invariant
                from <= n == self.entries.len(),
                was == entries_of(self.entries@),
                entries_of(fresh@) =~= was.take(k as int).push((name@, value)) + was.subrange(
                    from as int,
                    i as int,
                ),
        {
            let e = (self.entries[i].0.clone(), self.entries[i].1);
            proof {
                lemma_entries_push(fresh@, e);
            }
            fresh.push(e);
        }
        assert(entries_of(fresh@) =~= placed_at(was, k as int, name@, value));
        self.entries = fresh;
        assert(self.map() =~= old(self).map().insert(name@, value));
    }

    /// Drops `name`; whether it was there.
    pub fn remove(&mut self, name: &str) -> (r: bool)
        ensures
            r == old(self).map().contains_key(name@),
            final(self).map() == old(self).map().remove(name@),
    {
        proof {
            use_type_invariant(&*self);
        }
        let ghost was = self.entries();
        let k: usize = self.place(name);
        if k < self.entries.len() && same_text(self.entries[k].0.as_str(), name) {
            proof {
                lemma_unique(was, k as int);
                lemma_removed(was, k as int);
            }
            let mut fresh: Vec<(String, V)> = Vec::new();
            let n: usize = self.entries.len();
            for i in 0..n
                invariant
                    k < n == self.entries.len(),
                    was == entries_of(self.entries@),
                    entries_of(fresh@) =~= if i <= k {
                        was.take(i as int)
                    } else {
                        was.take(i as int).remove(k as int)
                    },
            {
                if i != k {
                    let e = (self.entries[i].0.clone(), self.entries[i].1);
                    proof {
                        lemma_entries_push(fresh@, e);
                    }
                    fresh.push(e);
                }
            }
            assert(was.take(n as int) =~= was);
            self.entries = fresh;
            assert(self.map() =~= old(self).map().remove(name@));
            true
        } else {
            proof {
                lemma_absent(was, k as int, name@);
            }
            assert(self.map() =~= old(self).map().remove(name@));
            false
        }
    }
}

/// A name that is not at the place where it belongs is not there at all.
proof fn lemma_absent<V>(s: Seq<(Seq<char>, V)>, k: int, name: Seq<char>)
    requires
        sorted(s),
        0 <= k <= s.len(),
        forall|i: int| 0 <= i < k ==> text_less((#[trigger] s[i]).0, name),
        k < s.len() ==> !text_less(s[k].0, name) && s[k].0 != name,
    ensures
        !has_name(s, name),
{
    if has_name(s, name) {
        let i = choose|i: int| 0 <= i < s.len() && (#[trigger] s[i]).0 == name;
        lemma_less_irreflexive(name);
        if i > k {
            assert(text_less(s[k].0, s[i].0));
        }
    }
}

impl<V: Copy> Clone for NameMap<V> {
    fn clone(&self) -> (r: NameMap<V>)
        ensures
            r.entries() == self.entries(),
            r.map() == self.map(),
    {
        proof {
            use_type_invariant(self);
        }
        let mut fresh: Vec<(String, V)> = Vec::new();
        for i in 0..self.entries.len()
            invariant
                entries_of(fresh@) =~= self.entries().take(i as int),
        {
            let e = (self.entries[i].0.clone(), self.entries[i].1);
            proof {
                lemma_entries_push(fresh@, e);
            }
            fresh.push(e);
        }
        assert(entries_of(fresh@) =~= self.entries());
        NameMap { entries: fresh }
    }
}

impl<V: Copy> Default for NameMap<V> {
    fn default() -> (r: NameMap<V>)
        ensures
            r.entries() == Seq::<(Seq<char>, V)>::empty(),
            r.map() == Map::<Seq<char>, V>::empty(),
    {
        NameMap::new()
    }
}

/// Percentages by name, in millionths.
pub type Overrides = NameMap<i64>;

} // verus!
