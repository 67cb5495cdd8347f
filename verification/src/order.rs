//! Putting lists in order.
use vstd::prelude::*;

verus! {

/// A way to put values in order.
pub trait Order<T> {
    /// Whether `a` must stand before `b`.
    spec fn before(a: T, b: T) -> bool;

    /// Whether `a` must stand before `b`.
    fn goes_before(a: &T, b: &T) -> (r: bool)
        ensures
            r == Self::before(*a, *b),
    ;
}

/// The place for `x` in a list in order: ahead of the first value that need not
/// stand before it.
pub open spec fn place_for<T, O: Order<T>>(t: Seq<T>, x: T) -> int
    decreases t.len(),
{
    if t.len() == 0 || !O::before(t[0], x) {
        0
    } else {
        1 + place_for::<T, O>(t.drop_first(), x)
    }
}

/// The values in order; values of which neither must stand before the other
/// keep their order.
pub open spec fn arranged<T, O: Order<T>>(s: Seq<T>) -> Seq<T>
    decreases s.len(),
{
    if s.len() == 0 {
        s
    } else {
        let t = arranged::<T, O>(s.drop_first());
        t.insert(place_for::<T, O>(t, s[0]), s[0])
    }
}

/// The place lies within the list.
pub proof fn lemma_place<T, O: Order<T>>(t: Seq<T>, x: T)
    ensures
        0 <= place_for::<T, O>(t, x) <= t.len(),
        forall|i: int| 0 <= i < place_for::<T, O>(t, x) ==> O::before(#[trigger] t[i], x),
        place_for::<T, O>(t, x) < t.len() ==> !O::before(t[place_for::<T, O>(t, x)], x),
    decreases t.len(),
{
    if t.len() > 0 && O::before(t[0], x) {
        let u = t.drop_first();
        lemma_place::<T, O>(u, x);
        assert forall|i: int| 0 <= i < place_for::<T, O>(t, x) implies O::before(
            #[trigger] t[i],
            x,
        ) by {
            if i > 0 {
                assert(u[i - 1] == t[i]);
            }
        }
    }
}

/// Puts the values in order.
pub fn arrange<T, O: Order<T>>(items: Vec<T>) -> (r: Vec<T>)
    ensures
        r@ == arranged::<T, O>(items@),
{
    let mut left = items;
    let mut out: Vec<T> = Vec::new();
    let ghost all = left@;
    assert(all.skip(all.len() as int) =~= Seq::<T>::empty());
    assert(out@ =~= Seq::<T>::empty());
    while left.len() > 0
        invariant
            left@.len() <= all.len(),
            left@ =~= all.take(left@.len() as int),
            out@ == arranged::<T, O>(all.skip(left@.len() as int)),
        decreases left@.len(),
    {
        let ghost n = left@.len() as int;
        if let Some(x) = left.pop() {
            let mut k: usize = 0;
            assert(out@.skip(0) =~= out@);
            while k < out.len() && O::goes_before(&out[k], &x)
                invariant
                    k <= out.len(),
                    place_for::<T, O>(out@, x) == k + place_for::<T, O>(out@.skip(k as int), x),
                decreases out.len() - k,
            {
                assert(out@.skip(k as int).drop_first() =~= out@.skip(k as int + 1));
                k += 1;
            }
            proof {
                assert(all.skip(n - 1).drop_first() =~= all.skip(n));
                assert(all.skip(n - 1)[0] == x);
            }
            out.insert(k, x);
        }
    }
    assert(all.skip(0) =~= all);
    out
}

/// Putting values in order drops none and adds none.
pub proof fn law_arranged_keeps_values<T, O: Order<T>>(s: Seq<T>)
    ensures
        arranged::<T, O>(s).to_multiset() == s.to_multiset(),
        arranged::<T, O>(s).len() == s.len(),
    decreases s.len(),
{
    broadcast use vstd::seq_lib::group_to_multiset_ensures;

    if s.len() > 0 {
        let rest = s.drop_first();
        let t = arranged::<T, O>(rest);
        let k = place_for::<T, O>(t, s[0]);
        law_arranged_keeps_values::<T, O>(rest);
        lemma_place::<T, O>(t, s[0]);
        let u = t.insert(k, s[0]);
        assert(u.remove(k) =~= t);
        assert(s.remove(0) =~= rest);
        assert(u.remove(k).to_multiset() =~= u.to_multiset().remove(u[k]));
        assert(s.remove(0).to_multiset() =~= s.to_multiset().remove(s[0]));
        assert(u.to_multiset() =~= t.to_multiset().insert(s[0])) by {
            assert(u.contains(u[k]));
            assert(u.to_multiset().contains(u[k]));
        }
        assert(s.to_multiset() =~= rest.to_multiset().insert(s[0])) by {
            assert(s.contains(s[0]));
            assert(s.to_multiset().contains(s[0]));
        }
    }
}

/// Whether the order is a strict one with classes of equal values.
pub open spec fn weak_order<T, O: Order<T>>() -> bool {
    &&& forall|a: T, b: T| #[trigger] O::before(a, b) ==> !O::before(b, a)
    &&& forall|a: T, b: T, c: T|
        #![trigger O::before(a, b), O::before(b, c)]
        !O::before(b, a) && !O::before(c, b) ==> !O::before(c, a)
}

/// No value of a list in order must stand before an earlier one.
pub open spec fn in_order<T, O: Order<T>>(s: Seq<T>) -> bool {
    forall|i: int, j: int| 0 <= i < j < s.len() ==> !O::before(#[trigger] s[j], #[trigger] s[i])
}

/// The result is in order.
pub proof fn law_arranged_is_in_order<T, O: Order<T>>(s: Seq<T>)
    requires
        weak_order::<T, O>(),
    ensures
        in_order::<T, O>(arranged::<T, O>(s)),
    decreases s.len(),
{
    if s.len() > 0 {
        let x = s[0];
        let t = arranged::<T, O>(s.drop_first());
        law_arranged_is_in_order::<T, O>(s.drop_first());
        lemma_place::<T, O>(t, x);
        let k = place_for::<T, O>(t, x);
        let u = t.insert(k, x);
        assert forall|i: int, j: int| 0 <= i < j < u.len() implies !O::before(
            #[trigger] u[j],
            #[trigger] u[i],
        ) by {
            if j < k {
                assert(u[i] == t[i] && u[j] == t[j]);
            } else if j == k {
                assert(u[i] == t[i] && O::before(t[i], x));
            } else if i < k {
                assert(u[i] == t[i] && u[j] == t[j - 1]);
            } else if i == k {
                assert(u[j] == t[j - 1]);
                assert(!O::before(t[k], x));
                if j - 1 > k {
                    assert(!O::before(t[j - 1], t[k]));
                    let a = x;
                    let b = t[k];
                    let c = t[j - 1];
                    if O::before(c, a) {
                        assert(!O::before(a, c));
                        lemma_weak_transitive::<T, O>(c, a, b);
                    }
                }
            } else {
                assert(u[i] == t[i - 1] && u[j] == t[j - 1]);
            }
        }
    }
}

/// What must stand before a value must stand before every value that need not
/// stand before that one.
proof fn lemma_weak_transitive<T, O: Order<T>>(c: T, a: T, b: T)
    requires
        weak_order::<T, O>(),
        O::before(c, a),
        !O::before(b, a),
    ensures
        O::before(c, b),
{
    if !O::before(c, b) {
        let p = O::before(a, b);
        let q = O::before(b, c);
        assert(!O::before(c, a));
    }
}

/// How many of the values `which` picks.
pub open spec fn count<T>(s: Seq<T>, which: spec_fn(T) -> bool) -> nat
    decreases s.len(),
{
    if s.len() == 0 {
        0
    } else {
        count(s.drop_last(), which) + if which(s.last()) {
            1nat
        } else {
            0
        }
    }
}

/// Two lists are counted one after the other.
pub(crate) proof fn lemma_count_concat<T>(a: Seq<T>, b: Seq<T>, which: spec_fn(T) -> bool)
    ensures
        count(a + b, which) == count(a, which) + count(b, which),
    decreases b.len(),
{
    if b.len() == 0 {
        assert(a + b =~= a);
    } else {
        assert((a + b).drop_last() =~= a + b.drop_last());
        lemma_count_concat(a, b.drop_last(), which);
    }
}

/// A list is counted in two parts.
pub(crate) proof fn lemma_count_parts<T>(s: Seq<T>, k: int, which: spec_fn(T) -> bool)
    requires
        0 <= k <= s.len(),
    ensures
        count(s, which) == count(s.take(k), which) + count(s.skip(k), which),
{
    assert(s =~= s.take(k) + s.skip(k));
    lemma_count_concat(s.take(k), s.skip(k), which);
}

/// One value.
pub(crate) proof fn lemma_count_one<T>(x: T, which: spec_fn(T) -> bool)
    ensures
        count(seq![x], which) == if which(x) {
            1nat
        } else {
            0
        },
{
    assert(seq![x].drop_last() =~= Seq::<T>::empty());
    assert(count(Seq::<T>::empty(), which) == 0);
}

/// Putting values in order changes no count.
pub(crate) proof fn lemma_count_arranged<T, O: Order<T>>(s: Seq<T>, which: spec_fn(T) -> bool)
    ensures
        count(arranged::<T, O>(s), which) == count(s, which),
    decreases s.len(),
{
    if s.len() > 0 {
        let x = s[0];
        let rest = s.drop_first();
        let t = arranged::<T, O>(rest);
        lemma_count_arranged::<T, O>(rest, which);
        lemma_place::<T, O>(t, x);
        let k = place_for::<T, O>(t, x);
        let u = t.insert(k, x);
        lemma_count_parts(t, k, which);
        lemma_count_parts(u, k, which);
        assert(u.take(k) =~= t.take(k));
        assert(u.skip(k) =~= seq![x] + t.skip(k));
        lemma_count_concat(seq![x], t.skip(k), which);
        assert(s =~= seq![x] + rest);
        lemma_count_concat(seq![x], rest, which);
    }
}

/// Every value is picked, or none is.
pub(crate) proof fn lemma_count_all<T>(s: Seq<T>, which: spec_fn(T) -> bool)
    ensures
        (forall|i: int| 0 <= i < s.len() ==> which(#[trigger] s[i])) ==> count(s, which) == s.len(),
        (forall|i: int| 0 <= i < s.len() ==> !which(#[trigger] s[i])) ==> count(s, which) == 0,
        count(s, which) <= s.len(),
        count(s, which) > 0 ==> exists|i: int| 0 <= i < s.len() && which(#[trigger] s[i]),
    decreases s.len(),
{
    if s.len() > 0 {
        let rest = s.drop_last();
        lemma_count_all(rest, which);
        assert forall|i: int| 0 <= i < rest.len() implies #[trigger] rest[i] == s[i] by {}
        assert(s.last() == s[s.len() - 1]);
        if forall|i: int| 0 <= i < s.len() ==> which(#[trigger] s[i]) {
            assert forall|i: int| 0 <= i < rest.len() implies which(#[trigger] rest[i]) by {
                assert(which(s[i]));
            }
        }
        if forall|i: int| 0 <= i < s.len() ==> !which(#[trigger] s[i]) {
            assert forall|i: int| 0 <= i < rest.len() implies !which(#[trigger] rest[i]) by {
                assert(!which(s[i]));
            }
        }
        if count(rest, which) > 0 {
            let i = choose|i: int| 0 <= i < rest.len() && which(#[trigger] rest[i]);
            assert(which(s[i]));
        }
    }
}

/// What picks more counts more.
pub(crate) proof fn lemma_count_monotone<T>(
    s: Seq<T>,
    few: spec_fn(T) -> bool,
    many: spec_fn(T) -> bool,
)
    requires
        forall|i: int| 0 <= i < s.len() && few(#[trigger] s[i]) ==> many(s[i]),
    ensures
        count(s, few) <= count(s, many),
    decreases s.len(),
{
    if s.len() > 0 {
        let rest = s.drop_last();
        assert forall|i: int| 0 <= i < rest.len() && few(#[trigger] rest[i]) implies many(
            rest[i],
        ) by {
            assert(rest[i] == s[i]);
        }
        assert(s.last() == s[s.len() - 1]);
        lemma_count_monotone(rest, few, many);
    }
}

/// A value that occurs is counted.
pub(crate) proof fn lemma_count_has<T>(s: Seq<T>, i: int, which: spec_fn(T) -> bool)
    requires
        0 <= i < s.len(),
        which(s[i]),
    ensures
        count(s, which) >= 1,
    decreases s.len(),
{
    if i < s.len() - 1 {
        assert(s.drop_last()[i] == s[i]);
        lemma_count_has(s.drop_last(), i, which);
    }
}

/// Putting values in order keeps which values there are.
pub(crate) proof fn lemma_arranged_contains<T, O: Order<T>>(s: Seq<T>, x: T)
    ensures
        arranged::<T, O>(s).contains(x) <==> s.contains(x),
        arranged::<T, O>(s).len() == s.len(),
{
    let same = |y: T| y == x;
    let u = arranged::<T, O>(s);
    law_arranged_keeps_values::<T, O>(s);
    lemma_count_arranged::<T, O>(s, same);
    lemma_count_all(u, same);
    lemma_count_all(s, same);
    if u.contains(x) {
        let i = choose|i: int| 0 <= i < u.len() && u[i] == x;
        lemma_count_has(u, i, same);
        let j = choose|j: int| 0 <= j < s.len() && same(#[trigger] s[j]);
        assert(s[j] == x);
    }
    if s.contains(x) {
        let i = choose|i: int| 0 <= i < s.len() && s[i] == x;
        lemma_count_has(s, i, same);
        let j = choose|j: int| 0 <= j < u.len() && same(#[trigger] u[j]);
        assert(u[j] == x);
    }
}

} // verus!
