//! Identity hashes and sets of them.
use vstd::prelude::*;

verus! {

/// The hash by which a party is known.
pub type IdentityHash = [u8; 16];

/// Whether two identity hashes are the same.
pub fn same_identity(left: &IdentityHash, right: &IdentityHash) -> (same: bool)
    ensures
        same == (left@ == right@),
{
    let mut i: usize = 0;
    while i < 16
        invariant
            i <= 16,
            forall|j: int| 0 <= j < i ==> left@[j] == right@[j],
        decreases 16 - i,
    {
        if left[i] != right[i] {
            return false;
        }
        i += 1;
    }
    assert(left@ =~= right@);
    true
}

/// A set of identity hashes.
#[derive(Debug)]
pub struct IdentitySet {
    hashes: Vec<IdentityHash>,
}

/// Whether `hash` is among `hashes`.
spec fn held(hashes: Seq<IdentityHash>, hash: Seq<u8>) -> bool {
    exists|i: int| 0 <= i < hashes.len() && (#[trigger] hashes[i])@ == hash
}

impl PartialEq for IdentitySet {
    fn eq(&self, other: &Self) -> (same: bool) {
        let same = self.holds_all(other) && other.holds_all(self);
        proof {
            if same {
                assert(self@ =~= other@);
            }
        }
        same
    }
}

impl vstd::std_specs::cmp::PartialEqSpecImpl for IdentitySet {
    open spec fn obeys_eq_spec() -> bool {
        true
    }

    open spec fn eq_spec(&self, other: &Self) -> bool {
        self@ == other@
    }
}

impl Eq for IdentitySet {

}

impl IdentitySet {
    /// The hashes in the set.
    pub closed spec fn view(&self) -> Set<Seq<u8>> {
        Set::new(|hash: Seq<u8>| self.holds(hash))
    }

    spec fn holds(&self, hash: Seq<u8>) -> bool {
        held(self.hashes@, hash)
    }

    /// Whether every hash is held once.
    pub closed spec fn wf(&self) -> bool {
        forall|i: int, j: int|
            0 <= i < j < self.hashes@.len() ==> (#[trigger] self.hashes@[i])@ != (
            #[trigger] self.hashes@[j])@
    }

    /// An empty set.
    pub fn new() -> (set: Self)
        ensures
            set.wf(),
            set@ == Set::<Seq<u8>>::empty(),
    {
        let set = IdentitySet { hashes: Vec::new() };
        assert(set@ =~= Set::<Seq<u8>>::empty());
        set
    }

    /// Whether the set holds `hash`.
    pub fn contains(&self, hash: &IdentityHash) -> (found: bool)
        ensures
            found == self@.contains(hash@),
    {
        let mut i: usize = 0;
        while i < self.hashes.len()
            invariant
                i <= self.hashes@.len(),
                forall|j: int| 0 <= j < i ==> (#[trigger] self.hashes@[j])@ != hash@,
            decreases self.hashes.len() - i,
        {
            if same_identity(&self.hashes[i], hash) {
                assert(self.holds(hash@));
                return true;
            }
            i += 1;
        }
        false
    }

    /// Whether every hash of `part` is in the set.
    fn holds_all(&self, part: &IdentitySet) -> (all: bool)
        ensures
            all == part@.subset_of(self@),
    {
        let mut i: usize = 0;
        while i < part.hashes.len()
            invariant
                i <= part.hashes@.len(),
                forall|j: int| 0 <= j < i ==> self@.contains((#[trigger] part.hashes@[j])@),
            decreases part.hashes.len() - i,
        {
            if !self.contains(&part.hashes[i]) {
                assert(part.holds(part.hashes@[i as int]@));
                assert(part@.contains(part.hashes@[i as int]@));
                return false;
            }
            i += 1;
        }
        true
    }

    /// Adds `hash`, and says whether it was new.
    pub fn insert(&mut self, hash: IdentityHash) -> (added: bool)
        requires
            old(self).wf(),
        ensures
            final(self).wf(),
            final(self)@ == old(self)@.insert(hash@),
            added == !old(self)@.contains(hash@),
    {
        let known = self.contains(&hash);
        if known {
            assert(self@.insert(hash@) =~= self@);
            return false;
        }
        let ghost before = *self;
        self.hashes.push(hash);
        proof {
            assert forall|i: int| 0 <= i < before.hashes@.len() implies (
            #[trigger] self.hashes@[i])@ != hash@ by {
                assert(before.hashes@[i] == self.hashes@[i]);
                if before.hashes@[i]@ == hash@ {
                    assert(before.holds(hash@));
                }
            }
            assert forall|other: Seq<u8>| self@.contains(other) == before@.insert(hash@).contains(
                other,
            ) by {
                if before.holds(other) {
                    let i = choose|i: int|
                        0 <= i < before.hashes@.len() && (#[trigger] before.hashes@[i])@ == other;
                    assert(self.hashes@[i]@ == other);
                }
                if self.holds(other) && other != hash@ {
                    let i = choose|i: int|
                        0 <= i < self.hashes@.len() && (#[trigger] self.hashes@[i])@ == other;
                    assert(before.hashes@[i]@ == other);
                }
                if other == hash@ {
                    assert(self.hashes@[before.hashes@.len() as int]@ == other);
                    assert(self.holds(other));
                }
            }
            assert(self@ =~= before@.insert(hash@));
        }
        true
    }

    /// Takes `hash` out, and says whether it was there.
    pub fn remove(&mut self, hash: &IdentityHash) -> (removed: bool)
        requires
            old(self).wf(),
        ensures
            final(self).wf(),
            final(self)@ == old(self)@.remove(hash@),
            removed == old(self)@.contains(hash@),
    {
        let ghost before = *self;
        let mut i: usize = 0;
        while i < self.hashes.len()
            invariant
                *self == before,
                before == *old(self),
                before.wf(),
                i <= self.hashes@.len(),
                forall|j: int| 0 <= j < i ==> (#[trigger] self.hashes@[j])@ != hash@,
            decreases self.hashes.len() - i,
        {
            if same_identity(&self.hashes[i], hash) {
                assert(before.holds(hash@));
                self.hashes.remove(i);
                proof {
                    assert(self.hashes@ == before.hashes@.remove(i as int));
                    assert forall|other: Seq<u8>| self@.contains(other) == before@.remove(
                        hash@,
                    ).contains(other) by {
                        if self.holds(other) {
                            let k = choose|k: int|
                                0 <= k < self.hashes@.len() && (#[trigger] self.hashes@[k])@
                                    == other;
                            let m = if k < i {
                                k
                            } else {
                                k + 1
                            };
                            assert(before.hashes@[m] == self.hashes@[k]);
                            assert(before.hashes@[i as int]@ == hash@);
                            assert(before.hashes@[m]@ == other);
                        }
                        if before.holds(other) && other != hash@ {
                            let k = choose|k: int|
                                0 <= k < before.hashes@.len() && (#[trigger] before.hashes@[k])@
                                    == other;
                            let m = if k < i {
                                k
                            } else {
                                k - 1
                            };
                            assert(self.hashes@[m] == before.hashes@[k]);
                            assert(self.hashes@[m]@ == other);
                        }
                    }
                    assert(self@ =~= before@.remove(hash@));
                    assert forall|a: int, b: int| 0 <= a < b < self.hashes@.len() implies (
                    #[trigger] self.hashes@[a])@ != (#[trigger] self.hashes@[b])@ by {
                        let x = if a < i {
                            a
                        } else {
                            a + 1
                        };
                        let y = if b < i {
                            b
                        } else {
                            b + 1
                        };
                        assert(before.hashes@[x] == self.hashes@[a]);
                        assert(before.hashes@[y] == self.hashes@[b]);
                    }
                }
                return true;
            }
            i += 1;
        }
        assert(self@ =~= before@.remove(hash@));
        false
    }

    /// How many hashes the set holds.
    pub fn len(&self) -> (count: usize)
        requires
            self.wf(),
        ensures
            count == self@.len(),
            self@.finite(),
    {
        proof {
            lemma_count(self.hashes@);
            assert(self@ =~= Set::new(
                |hash: Seq<u8>|
                    exists|i: int|
                        0 <= i < self.hashes@.len() && (#[trigger] self.hashes@[i])@ == hash,
            ));
        }
        self.hashes.len()
    }

    /// Whether the set holds no hash.
    pub fn is_empty(&self) -> (empty: bool)
        ensures
            empty == (self@ == Set::<Seq<u8>>::empty()),
    {
        let empty = self.hashes.len() == 0;
        proof {
            if empty {
                assert(self@ =~= Set::<Seq<u8>>::empty());
            } else {
                assert(self.hashes@[0]@ == self.hashes@[0]@);
                assert(self.holds(self.hashes@[0]@));
                assert(self@.contains(self.hashes@[0]@));
            }
        }
        empty
    }
}

/// Distinct hashes make a set with as many members.
proof fn lemma_count(hashes: Seq<IdentityHash>)
    requires
        forall|i: int, j: int|
            0 <= i < j < hashes.len() ==> (#[trigger] hashes[i])@ != (#[trigger] hashes[j])@,
    ensures
        ({
            let set = Set::new(
                |hash: Seq<u8>|
                    exists|i: int| 0 <= i < hashes.len() && (#[trigger] hashes[i])@ == hash,
            );
            &&& set.finite()
            &&& set.len() == hashes.len()
        }),
    decreases hashes.len(),
{
    let set = Set::new(
        |hash: Seq<u8>| exists|i: int| 0 <= i < hashes.len() && (#[trigger] hashes[i])@ == hash,
    );
    if hashes.len() == 0 {
        assert(set =~= Set::<Seq<u8>>::empty());
    } else {
        let rest = hashes.drop_last();
        assert forall|i: int, j: int| 0 <= i < j < rest.len() implies (#[trigger] rest[i])@ != (
        #[trigger] rest[j])@ by {
            assert(hashes[i]@ != hashes[j]@);
        }
        lemma_count(rest);
        let smaller = Set::new(
            |hash: Seq<u8>| exists|i: int| 0 <= i < rest.len() && (#[trigger] rest[i])@ == hash,
        );
        let last = hashes.last()@;
        assert forall|hash: Seq<u8>| set.contains(hash) == smaller.insert(last).contains(hash) by {
            if set.contains(hash) {
                let i = choose|i: int| 0 <= i < hashes.len() && (#[trigger] hashes[i])@ == hash;
                if i < rest.len() {
                    assert(rest[i]@ == hash);
                }
            }
            if smaller.contains(hash) {
                let i = choose|i: int| 0 <= i < rest.len() && (#[trigger] rest[i])@ == hash;
                assert(hashes[i]@ == hash);
            }
            if hash == last {
                assert(hashes[hashes.len() - 1]@ == hash);
            }
        }
        assert(set =~= smaller.insert(last));
        if smaller.contains(last) {
            let i = choose|i: int| 0 <= i < rest.len() && (#[trigger] rest[i])@ == last;
            assert(hashes[i]@ != hashes[hashes.len() - 1]@);
        }
    }
}

impl Clone for IdentitySet {
    fn clone(&self) -> (copy: Self)
        ensures
            copy@ == self@,
            self.wf() ==> copy.wf(),
    {
        let mut hashes: Vec<IdentityHash> = Vec::new();
        let mut i: usize = 0;
        while i < self.hashes.len()
            invariant
                i <= self.hashes@.len(),
                hashes@ == self.hashes@.take(i as int),
            decreases self.hashes.len() - i,
        {
            hashes.push(self.hashes[i]);
            i += 1;
        }
        assert(hashes@ =~= self.hashes@);
        let copy = IdentitySet { hashes };
        assert(copy@ =~= self@);
        copy
    }
}

} // verus!
