//! Sets of names.
use vstd::prelude::*;
use vstd::string::*;
use crate::snapshot::DiskSnapshot;
use crate::text::same_text;

verus! {

/// A set of names.
pub struct Names {
    list: Vec<String>,
}

/// The names in a list.
pub open spec fn names_of(list: Seq<String>) -> Set<Seq<char>> {
    Set::new(|name: Seq<char>| exists|i: int| 0 <= i < list.len() && (#[trigger] list[i])@ == name)
}

/// Whether a volume is mounted at `mount`.
pub open spec fn mounted(disks: Seq<DiskSnapshot>, mount: Seq<char>) -> bool {
    exists|i: int| 0 <= i < disks.len() && (#[trigger] disks[i]).mount_point@ == mount
}

/// Whether a volume is mounted at `mount`.
fn is_mounted(disks: &Vec<DiskSnapshot>, mount: &str) -> (r: bool)
    ensures
        r == mounted(disks@, mount@),
{
    for i in 0..disks.len()
        invariant
            forall|j: int| 0 <= j < i ==> (#[trigger] disks@[j]).mount_point@ != mount@,
    {
        if same_text(disks[i].mount_point.as_str(), mount) {
            return true;
        }
    }
    false
}

impl Names {
    /// The set of names.
    pub closed spec fn view(&self) -> Set<Seq<char>> {
        names_of(self.list@)
    }

    /// No names.
    pub fn new() -> (r: Names)
        ensures
            r@ == Set::<Seq<char>>::empty(),
    {
        let r = Names { list: Vec::new() };
        assert(r@ =~= Set::<Seq<char>>::empty());
        r
    }

    /// Whether `name` is in the set.
    pub fn contains(&self, name: &str) -> (r: bool)
        ensures
            r == self@.contains(name@),
    {
        for i in 0..self.list.len()
            invariant
                forall|j: int| 0 <= j < i ==> (#[trigger] self.list@[j])@ != name@,
        {
            if same_text(self.list[i].as_str(), name) {
                return true;
            }
        }
        false
    }

    /// Adds a name.
    pub fn insert(&mut self, name: &str)
        ensures
            final(self)@ == old(self)@.insert(name@),
    {
        let ghost was = self.list@;
        self.list.push(name.to_owned());
        proof {
            let now = self.list@;
            assert forall|n: Seq<char>| names_of(now).contains(n) <==> names_of(was).insert(
                name@,
            ).contains(n) by {
                if names_of(was).contains(n) {
                    let i = choose|i: int| 0 <= i < was.len() && (#[trigger] was[i])@ == n;
                    assert(now[i]@ == n);
                }
                if n == name@ {
                    assert(now[was.len() as int]@ == n);
                }
                if names_of(now).contains(n) && n != name@ {
                    let i = choose|i: int| 0 <= i < now.len() && (#[trigger] now[i])@ == n;
                    assert(was[i]@ == n);
                }
            }
            assert(names_of(now) =~= names_of(was).insert(name@));
        }
    }

    /// Drops a name.
    pub fn remove(&mut self, name: &str)
        ensures
            final(self)@ == old(self)@.remove(name@),
    {
        let mut fresh: Vec<String> = Vec::new();
        let ghost was = self.list@;
        for i in 0..self.list.len()
            invariant
                was == self.list@,
                forall|n: Seq<char>| #[trigger]
                    names_of(fresh@).contains(n) <==> n != name@ && names_of(
                        was.take(i as int),
                    ).contains(n),
        {
            let ghost before = fresh@;
            let ghost skipped = was[i as int]@ == name@;
            if !same_text(self.list[i].as_str(), name) {
                fresh.push(self.list[i].clone());
            }
            proof {
                lemma_step(was, before, fresh@, i as int, !skipped);
            }
        }
        proof {
            assert(was.take(was.len() as int) =~= was);
        }
        self.list = fresh;
        assert(self@ =~= old(self)@.remove(name@));
    }

    /// Drops the names at which no volume is mounted.
    pub fn retain_mounted(&mut self, disks: &Vec<DiskSnapshot>)
        ensures
            final(self)@ == old(self)@.filter(|n: Seq<char>| mounted(disks@, n)),
    {
        let mut fresh: Vec<String> = Vec::new();
        let ghost was = self.list@;
        for i in 0..self.list.len()
            invariant
                was == self.list@,
                forall|n: Seq<char>| #[trigger]
                    names_of(fresh@).contains(n) <==> mounted(disks@, n) && names_of(
                        was.take(i as int),
                    ).contains(n),
        {
            let ghost before = fresh@;
            let ghost stays = mounted(disks@, was[i as int]@);
            if is_mounted(disks, self.list[i].as_str()) {
                fresh.push(self.list[i].clone());
            }
            proof {
                lemma_step(was, before, fresh@, i as int, stays);
            }
        }
        proof {
            assert(was.take(was.len() as int) =~= was);
        }
        self.list = fresh;
        assert(self@ =~= old(self)@.filter(|n: Seq<char>| mounted(disks@, n)));
    }
}

/// One step of copying the names that stay.
proof fn lemma_step(was: Seq<String>, before: Seq<String>, fresh: Seq<String>, i: int, stays: bool)
    requires
        0 <= i < was.len(),
        stays ==> fresh.len() == before.len() + 1 && fresh.last()@ == was[i]@ && fresh.drop_last()
            =~= before,
        !stays ==> fresh == before,
    ensures
        forall|n: Seq<char>| #[trigger]
            names_of(fresh).contains(n) <==> names_of(before).contains(n) || (stays && n
                == was[i]@),
        forall|n: Seq<char>| #[trigger]
            names_of(was.take(i + 1)).contains(n) <==> names_of(was.take(i)).contains(n) || n
                == was[i]@,
{
    assert forall|n: Seq<char>| #[trigger] names_of(fresh).contains(n) <==> names_of(
        before,
    ).contains(n) || (stays && n == was[i]@) by {
        if names_of(before).contains(n) {
            let j = choose|j: int| 0 <= j < before.len() && (#[trigger] before[j])@ == n;
            assert(fresh[j]@ == n) by {
                if stays {
                    assert(fresh.drop_last()[j] == before[j]);
                }
            }
        }
        if stays && n == was[i]@ {
            assert(fresh[fresh.len() - 1]@ == n);
        }
        if names_of(fresh).contains(n) && stays && n != was[i]@ {
            let j = choose|j: int| 0 <= j < fresh.len() && (#[trigger] fresh[j])@ == n;
            assert(fresh.drop_last()[j] == before[j]);
            assert(before[j]@ == n);
        }
    }
    let next = was.take(i + 1);
    let done = was.take(i);
    assert forall|n: Seq<char>| #[trigger] names_of(next).contains(n) <==> names_of(done).contains(
        n,
    ) || n == was[i]@ by {
        if names_of(done).contains(n) {
            let j = choose|j: int| 0 <= j < done.len() && (#[trigger] done[j])@ == n;
            assert(next[j]@ == n);
        }
        if n == was[i]@ {
            assert(next[i]@ == n);
        }
        if names_of(next).contains(n) && n != was[i]@ {
            let j = choose|j: int| 0 <= j < next.len() && (#[trigger] next[j])@ == n;
            assert(done[j]@ == n);
        }
    }
}

} // verus!
