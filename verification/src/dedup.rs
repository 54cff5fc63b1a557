//! Duplicate suppression: a set of already-emitted identifiers, owned by
//! one generator invocation and discarded with it. Generators ask `seen`
//! before emitting and `mark_seen` after deciding to emit, giving
//! insert-if-absent semantics across stops, route sections and trips.

use vstd::prelude::*;

verus! {

/// A set-backed suppression filter over derived identifier strings.
pub struct Dedup {
    ids: Vec<String>,
}

impl View for Dedup {
    type V = Set<Seq<char>>;

    closed spec fn view(&self) -> Set<Seq<char>> {
        Set::new(|s: Seq<char>| exists|i: int| 0 <= i < self.ids@.len() && self.ids@[i]@ == s)
    }
}

impl Dedup {
    /// A fresh filter that has seen nothing.
    pub fn new() -> (r: Dedup)
        ensures
            r@ == Set::<Seq<char>>::empty(),
    {
        let r = Dedup { ids: Vec::new() };
        proof {
            assert(r@ =~= Set::<Seq<char>>::empty());
        }
        r
    }

    /// Whether `id` has been marked already.
    pub fn seen(&self, id: &String) -> (r: bool)
        ensures
            r == self@.contains(id@),
    {
        let n = self.ids.len();
        let mut i: usize = 0;
        while i < n
            invariant
                0 <= i <= n == self.ids@.len(),
                forall|k: int| 0 <= k < i ==> self.ids@[k]@ != id@,
            decreases n - i,
        {
            if self.ids[i] == *id {
                proof {
                    assert(self@.contains(id@));
                }
                return true;
            }
            i += 1;
        }
        proof {
            assert(!self@.contains(id@));
        }
        false
    }

    /// Marks `id` as seen.
    pub fn mark_seen(&mut self, id: &String)
        ensures
            final(self)@ == old(self)@.insert(id@),
    {
        self.ids.push(id.clone());
        proof {
            assert forall|s: Seq<char>| self@.contains(s) <==> old(self)@.insert(id@).contains(
                s,
            ) by {
                if old(self)@.insert(id@).contains(s) {
                    if s == id@ {
                        assert(self.ids@[self.ids@.len() - 1]@ == s);
                    } else {
                        let i = choose|i: int|
                            0 <= i < old(self).ids@.len() && old(self).ids@[i]@ == s;
                        assert(self.ids@[i]@ == s);
                    }
                }
            }
            assert(self@ =~= old(self)@.insert(id@));
        }
    }
}

} // verus!
