//! Names and families of names.
use vstd::prelude::*;
use vstd::string::*;
use crate::text::{chars_of, lower, lowered, part, same_chars, to_lower};

verus! {

/// Whether the key claims every name with a given end.
pub open spec fn open_start(key: Seq<char>) -> bool {
    key.len() > 0 && key[0] == '*'
}

/// Whether the key claims every name with a given start.
pub open spec fn open_end(key: Seq<char>) -> bool {
    key.len() > 1 && key.last() == '*'
}

/// The key without the stars at its ends.
pub open spec fn literal_of(key: Seq<char>) -> Seq<char> {
    key.subrange(
        if open_start(key) {
            1
        } else {
            0
        },
        if open_end(key) {
            key.len() - 1
        } else {
            key.len() as int
        },
    )
}

/// Whether stars stand at the ends of the key only.
pub open spec fn valid_key(key: Seq<char>) -> bool {
    !literal_of(key).contains('*')
}

/// Whether the key is one name, without stars.
pub open spec fn exact_key(key: Seq<char>) -> bool {
    valid_key(key) && !open_start(key) && !open_end(key)
}

/// Whether `part` stands in `whole` from place `k` on.
pub open spec fn stands_at(whole: Seq<char>, part: Seq<char>, k: int) -> bool {
    0 <= k && k + part.len() <= whole.len() && whole.subrange(k, k + part.len()) == part
}

/// Whether the key claims the name. Letter case does not count.
pub open spec fn claims(key: Seq<char>, name: Seq<char>) -> bool {
    let literal = lowered(literal_of(key));
    let whole = lowered(name);
    &&& valid_key(key)
    &&& if open_start(key) && open_end(key) {
        exists|k: int| stands_at(whole, literal, k)
    } else if open_start(key) {
        stands_at(whole, literal, whole.len() - literal.len())
    } else if open_end(key) {
        stands_at(whole, literal, 0)
    } else {
        whole == literal
    }
}

/// What is said of a key with a star anywhere but at its ends.
pub open spec fn key_refusal(key: Seq<char>) -> Seq<char> {
    key + " (a `*` may only start or end a name)"@
}

/// A key taken apart.
#[derive(Debug, Clone)]
pub struct Matcher {
    literal: Vec<char>,
    starts_open: bool,
    ends_open: bool,
}

impl Matcher {
    /// Whether this is the key taken apart.
    pub closed spec fn stands_for(&self, key: Seq<char>) -> bool {
        &&& self.literal@ == lowered(literal_of(key))
        &&& self.starts_open == open_start(key)
        &&& self.ends_open == open_end(key)
        &&& valid_key(key)
    }

    /// Takes a key apart. A star anywhere but at the ends is refused.
    pub fn parse(key: &str) -> (r: Result<Matcher, String>)
        ensures
            r is Ok == valid_key(key@),
            r is Ok ==> r->Ok_0.stands_for(key@),
            r is Err ==> r->Err_0@ == key_refusal(key@),
    {
        let k = chars_of(key);
        let starts_open: bool = k.len() > 0 && k[0] == '*';
        let ends_open: bool = k.len() > 1 && k[k.len() - 1] == '*';
        let from: usize = if starts_open {
            1
        } else {
            0
        };
        let to: usize = if ends_open {
            k.len() - 1
        } else {
            k.len()
        };
        let literal = part(&k, from, to);
        for i in 0..literal.len()
            invariant
                literal@ == literal_of(key@),
                forall|j: int| 0 <= j < i ==> literal@[j] != '*',
        {
            if literal[i] == '*' {
                assert(literal_of(key@)[i as int] == '*');
                return Err(key.to_owned().concat(" (a `*` may only start or end a name)"));
            }
        }
        Ok(Matcher { literal: to_lower(&literal), starts_open, ends_open })
    }

    /// Whether the key claims the name.
    pub fn matches(&self, name: &str) -> (r: bool)
        ensures
            forall|key: Seq<char>| self.stands_for(key) ==> r == claims(key, name@),
    {
        let whole = to_lower(&chars_of(name));
        self.matches_lowered(&whole)
    }

    /// Whether the key claims the name, given in small letters.
    pub fn matches_lowered(&self, whole: &Vec<char>) -> (r: bool)
        ensures
            forall|key: Seq<char>, name: Seq<char>|
                self.stands_for(key) && whole@ == lowered(name) ==> r == #[trigger] claims(
                    key,
                    name,
                ),
    {
        if self.starts_open && self.ends_open {
            find_part(whole, &self.literal)
        } else if self.starts_open {
            self.literal.len() <= whole.len() && part_at(
                whole,
                &self.literal,
                whole.len() - self.literal.len(),
            )
        } else if self.ends_open {
            part_at(whole, &self.literal, 0)
        } else {
            same_chars(whole, &self.literal)
        }
    }

    /// Whether the key is one name, without stars.
    pub fn is_exact(&self) -> (r: bool)
        ensures
            forall|key: Seq<char>| self.stands_for(key) ==> r == exact_key(key),
    {
        !self.starts_open && !self.ends_open
    }

    /// How long the key is without its stars.
    pub fn literal_len(&self) -> (r: usize)
        ensures
            forall|key: Seq<char>| #[trigger]
                self.stands_for(key) ==> r == literal_of(key).len(),
    {
        self.literal.len()
    }
}

/// Whether `piece` stands in `whole` at `k`.
fn part_at(whole: &Vec<char>, piece: &Vec<char>, k: usize) -> (r: bool)
    ensures
        r == stands_at(whole@, piece@, k as int),
{
    if k > whole.len() || piece.len() > whole.len() - k {
        return false;
    }
    let there = part(whole, k, k + piece.len());
    same_chars(&there, piece)
}

/// Whether `piece` stands anywhere in `whole`.
fn find_part(whole: &Vec<char>, piece: &Vec<char>) -> (r: bool)
    ensures
        r == exists|k: int| stands_at(whole@, piece@, k),
{
    let mut k: usize = 0;
    while k <= whole.len() && piece.len() <= whole.len() - k
        invariant
            k <= whole.len() + 1,
            forall|j: int| 0 <= j < k ==> !stands_at(whole@, piece@, j),
        decreases whole.len() + 1 - k,
    {
        if part_at(whole, piece, k) {
            return true;
        }
        if k == whole.len() {
            return false;
        }
        k += 1;
    }
    false
}

/// A key without stars claims exactly the names that differ from it in letter
/// case at most.
pub proof fn law_exact_key_claims_its_name(key: Seq<char>, name: Seq<char>)
    requires
        !key.contains('*'),
    ensures
        claims(key, name) <==> lowered(key) == lowered(name),
{
    if open_start(key) {
        assert(key[0] == '*');
    }
    if open_end(key) {
        assert(key[key.len() - 1] == '*');
    }
    assert(literal_of(key) =~= key);
}

/// A key that ends in a star claims every name that starts with the rest of it.
pub proof fn law_trailing_star_claims_a_family(stem: Seq<char>, rest: Seq<char>)
    requires
        !stem.contains('*'),
        stem.len() > 0,
    ensures
        claims(stem.push('*'), stem + rest),
{
    let key = stem.push('*');
    assert(key.last() == '*');
    assert(!open_start(key)) by {
        assert(stem.contains(stem[0]));
    }
    assert(literal_of(key) =~= stem);
    assert(lowered(stem + rest).subrange(0, stem.len() as int) =~= lowered(stem));
}

/// A key that starts with a star claims every name that ends in the rest of it.
pub proof fn law_leading_star_claims_a_family(rest: Seq<char>, stem: Seq<char>)
    requires
        !stem.contains('*'),
    ensures
        claims(seq!['*'] + stem, rest + stem),
{
    let key = seq!['*'] + stem;
    assert(!open_end(key)) by {
        if stem.len() > 0 {
            assert(stem.contains(stem.last()));
            assert(key.last() == stem.last());
        }
    }
    assert(literal_of(key) =~= stem);
    let whole = lowered(rest + stem);
    assert(whole.subrange(whole.len() - stem.len(), whole.len() as int) =~= lowered(stem));
}

/// Letter case does not count: names that differ in it alone are claimed alike.
pub proof fn law_case_does_not_count(key: Seq<char>, name: Seq<char>, other: Seq<char>)
    requires
        lowered(name) == lowered(other),
    ensures
        claims(key, name) == claims(key, other),
{
}

/// Whether two characters are the same, or the same ASCII letter in its two cases.
pub open spec fn alike(a: char, b: char) -> bool {
    ||| a == b
    ||| 'A' <= a <= 'Z' && b as u32 == a as u32 + 32
    ||| 'A' <= b <= 'Z' && a as u32 == b as u32 + 32
}

/// Whether `stem` stands in `name` from place `k` on, letter case left aside.
pub open spec fn found_at(name: Seq<char>, stem: Seq<char>, k: int) -> bool {
    &&& 0 <= k
    &&& k + stem.len() <= name.len()
    &&& forall|i: int| 0 <= i < stem.len() ==> alike(name[k + i], #[trigger] stem[i])
}

/// Two characters are in one case the same exactly if they are alike.
proof fn lemma_alike(a: char, b: char)
    ensures
        lower(a) == lower(b) <==> alike(a, b),
{
}

/// Where a text stands, letter case left aside.
proof fn lemma_found(name: Seq<char>, stem: Seq<char>, k: int)
    ensures
        stands_at(lowered(name), lowered(stem), k) <==> found_at(name, stem, k),
{
    let a = lowered(name);
    let b = lowered(stem);
    if 0 <= k && k + stem.len() <= name.len() {
        let cut = a.subrange(k, k + b.len());
        if cut == b {
            assert forall|i: int| 0 <= i < stem.len() implies alike(
                name[k + i],
                #[trigger] stem[i],
            ) by {
                assert(cut[i] == b[i]);
                lemma_alike(name[k + i], stem[i]);
            }
        }
        if found_at(name, stem, k) {
            assert forall|i: int| 0 <= i < b.len() implies cut[i] == b[i] by {
                assert(alike(name[k + i], stem[i]));
                lemma_alike(name[k + i], stem[i]);
            }
            assert(cut =~= b);
        }
    }
}

/// A key is a name, or the start of names with a star behind it, or the end of
/// names with a star before it, or with both what stands anywhere in them. It claims
/// exactly those names; letter case does not count.
pub proof fn law_what_a_key_claims(stem: Seq<char>, name: Seq<char>)
    requires
        !stem.contains('*'),
        stem.len() > 0,
    ensures
        claims(stem, name) <==> name.len() == stem.len() && found_at(name, stem, 0),
        claims(stem + seq!['*'], name) <==> found_at(name, stem, 0),
        claims(seq!['*'] + stem, name) <==> found_at(name, stem, name.len() - stem.len()),
        claims(seq!['*'] + stem + seq!['*'], name) <==> exists|k: int| #[trigger]
            found_at(name, stem, k),
{
    assert(stem.contains(stem[0]));
    assert(stem.contains(stem[stem.len() - 1]));
    let start = stem + seq!['*'];
    let end = seq!['*'] + stem;
    let both = seq!['*'] + stem + seq!['*'];
    assert(literal_of(stem) =~= stem);
    assert(literal_of(start) =~= stem);
    assert(literal_of(end) =~= stem);
    assert(literal_of(both) =~= stem);
    lemma_found(name, stem, 0);
    lemma_found(name, stem, name.len() - stem.len());
    if name.len() == stem.len() {
        assert(lowered(name).subrange(0, name.len() as int) =~= lowered(name));
    }
    if lowered(name) == lowered(stem) {
        assert(lowered(name).len() == name.len() && lowered(stem).len() == stem.len());
    }
    if exists|k: int| stands_at(lowered(name), lowered(stem), k) {
        let k = choose|k: int| stands_at(lowered(name), lowered(stem), k);
        lemma_found(name, stem, k);
    }
    if exists|k: int| #[trigger] found_at(name, stem, k) {
        let k = choose|k: int| #[trigger] found_at(name, stem, k);
        lemma_found(name, stem, k);
    }
}

} // verus!
