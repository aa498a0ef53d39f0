//! The places of the cache that lookups have claimed.
//!
//! A lookup claims the place of its archive before it looks there and
//! gives the claim up when it is over. One table serves all lookups of a
//! process; whoever shares it between threads puts it behind a lock.

use vstd::prelude::*;

verus! {

/// The claimed places.
pub struct ClaimTable {
    held: Vec<String>,
}

impl View for ClaimTable {
    type V = Set<Seq<char>>;

    closed spec fn view(&self) -> Set<Seq<char>> {
        Set::new(|path: Seq<char>| exists|i: int| 0 <= i < self.held.len() && self.held[i]@ == path)
    }
}

impl ClaimTable {
    /// A table without claims.
    pub fn new() -> (table: ClaimTable)
        ensures
            table@ == Set::<Seq<char>>::empty(),
    {
        let table = ClaimTable { held: Vec::new() };
        assert(table@ =~= Set::<Seq<char>>::empty());
        table
    }

    /// Whether `path` is claimed.
    pub fn is_claimed(&self, path: &String) -> (r: bool)
        ensures
            r == self@.contains(path@),
    {
        let mut i: usize = 0;
        while i < self.held.len()
            invariant
                i <= self.held.len(),
                forall|j: int| 0 <= j < i ==> self.held[j]@ != path@,
            decreases self.held.len() - i,
        {
            if self.held[i] == *path {
                return true;
            }
            i = i + 1;
        }
        false
    }

    /// Claims `path`. The claim is granted where the place was free; where
    /// it was not, nothing changes.
    pub fn acquire(&mut self, path: &String) -> (granted: bool)
        ensures
            granted == !old(self)@.contains(path@),
            final(self)@ == old(self)@.insert(path@),
    {
        if self.is_claimed(path) {
            assert(self@.insert(path@) =~= self@);
            return false;
        }
        let ghost before = self.held@;
        self.held.push(path.clone());
        proof {
            assert forall|p: Seq<char>| self@.contains(p) <==> old(self)@.insert(path@).contains(
                p,
            ) by {
                if old(self)@.contains(p) {
                    let i = choose|i: int| 0 <= i < before.len() && before[i]@ == p;
                    assert(self.held[i]@ == p);
                }
                if p == path@ {
                    assert(self.held[before.len() as int]@ == p);
                }
            }
            assert(self@ =~= old(self)@.insert(path@));
        }
        true
    }

    /// Gives up the claim on `path`; nothing changes where there is none.
    pub fn release(&mut self, path: &String)
        ensures
            final(self)@ == old(self)@.remove(path@),
    {
        let mut kept: Vec<String> = Vec::new();
        let mut i: usize = 0;
        while i < self.held.len()
            invariant
                i <= self.held.len(),
                self.held == old(self).held,
                forall|j: int| 0 <= j < kept.len() ==> kept[j]@ != path@,
                forall|j: int|
                    0 <= j < kept.len() ==> exists|k: int|
                        0 <= k < i && self.held[k]@ == #[trigger] kept[j]@,
                forall|k: int|
                    0 <= k < i && self.held[k]@ != path@ ==> exists|j: int|
                        0 <= j < kept.len() && kept[j]@ == #[trigger] self.held[k]@,
            decreases self.held.len() - i,
        {
            if self.held[i] != *path {
                let ghost before = kept@;
                kept.push(self.held[i].clone());
                proof {
                    let last = before.len() as int;
                    assert(kept[last]@ == self.held[i as int]@);
                    assert forall|j: int| 0 <= j < kept.len() implies exists|k: int|
                        0 <= k < i + 1 && self.held[k]@ == #[trigger] kept[j]@ by {
                        if j < last {
                            assert(kept[j] == before[j]);
                            let k = choose|k: int| 0 <= k < i && self.held[k]@ == before[j]@;
                            assert(self.held[k]@ == kept[j]@);
                        } else {
                            assert(self.held[i as int]@ == kept[j]@);
                        }
                    }
                    assert forall|k: int|
                        0 <= k < i + 1 && self.held[k]@ != path@ implies exists|j: int|
                        0 <= j < kept.len() && kept[j]@ == #[trigger] self.held[k]@ by {
                        if k < i {
                            let j = choose|j: int|
                                0 <= j < before.len() && before[j]@ == self.held[k]@;
                            assert(kept[j] == before[j]);
                        } else {
                            assert(kept[last]@ == self.held[k]@);
                        }
                    }
                }
            }
            i = i + 1;
        }
        let ghost all = self.held@;
        self.held = kept;
        proof {
            assert forall|p: Seq<char>| self@.contains(p) <==> old(self)@.remove(path@).contains(
                p,
            ) by {
                if self@.contains(p) {
                    let j = choose|j: int| 0 <= j < self.held.len() && self.held[j]@ == p;
                    let k = choose|k: int| 0 <= k < all.len() && all[k]@ == self.held[j]@;
                    assert(old(self).held[k]@ == p);
                }
                if old(self)@.remove(path@).contains(p) {
                    let k = choose|k: int| 0 <= k < all.len() && all[k]@ == p;
                    let j = choose|j: int| 0 <= j < self.held.len() && self.held[j]@ == all[k]@;
                    assert(self.held[j]@ == p);
                }
            }
            assert(self@ =~= old(self)@.remove(path@));
        }
    }
}

} // verus!
