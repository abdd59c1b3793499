//! The set of challenges that ceremonies have consumed.

use vstd::prelude::*;

use crate::bytes::{bytes_equal, copy_bytes};

verus! {

/// A set of consumed challenges.
#[derive(Debug)]
pub struct UsedChallenges {
    list: Vec<Vec<u8>>,
}

/// Whether a byte string stands in a list.
pub closed spec fn listed(list: Seq<Vec<u8>>, challenge: Seq<u8>) -> bool {
    exists|i: int| 0 <= i < list.len() && (#[trigger] list[i])@ == challenge
}

impl View for UsedChallenges {
    type V = Set<Seq<u8>>;

    closed spec fn view(&self) -> Set<Seq<u8>> {
        Set::new(|challenge: Seq<u8>| listed(self.list@, challenge))
    }
}

impl UsedChallenges {
    /// No challenge stands in the list twice.
    #[verifier::type_invariant]
    spec fn no_duplicates(self) -> bool {
        forall|i: int, j: int| 0 <= i < j < self.list@.len() ==> self.list@[i]@ != self.list@[j]@
    }

    /// An empty set.
    pub fn new() -> (set: Self)
        ensures
            set@ == Set::<Seq<u8>>::empty(),
    {
        let set = UsedChallenges { list: Vec::new() };
        assert(set@ =~= Set::<Seq<u8>>::empty());
        set
    }

    /// Whether a challenge has been consumed.
    pub fn contains(&self, challenge: &[u8]) -> (found: bool)
        ensures
            found == self@.contains(challenge@),
    {
        let mut i: usize = 0;
        while i < self.list.len()
            invariant
                i <= self.list@.len(),
                forall|k: int| 0 <= k < i ==> (#[trigger] self.list@[k])@ != challenge@,
            decreases self.list.len() - i,
        {
            if bytes_equal(self.list[i].as_slice(), challenge) {
                return true;
            }
            i += 1;
        }
        false
    }

    /// Consumes a challenge; returns whether it was fresh.
    pub fn consume(&mut self, challenge: &[u8]) -> (fresh: bool)
        ensures
            fresh == !old(self)@.contains(challenge@),
            final(self)@ == old(self)@.insert(challenge@),
    {
        let mut list: Vec<Vec<u8>> = Vec::new();
        proof {
            use_type_invariant(&*self);
        }
        let ghost before = self.list@;
        let fresh = !self.contains(challenge);
        std::mem::swap(&mut list, &mut self.list);
        if fresh {
            list.push(copy_bytes(challenge));
        }
        proof {
            assert forall|c: Seq<u8>| listed(list@, c) == (listed(before, c) || c == challenge@) by {
                if listed(before, c) {
                    let i = choose|i: int| 0 <= i < before.len() && (#[trigger] before[i])@ == c;
                    assert(list@[i]@ == c);
                }
                if fresh && c == challenge@ {
                    assert(list@[list@.len() - 1]@ == c);
                }
                if listed(list@, c) && c != challenge@ {
                    let i = choose|i: int| 0 <= i < list@.len() && (#[trigger] list@[i])@ == c;
                    assert(before[i]@ == c);
                }
            }
        }
        self.list = list;
        assert(self@ =~= old(self)@.insert(challenge@));
        fresh
    }
}

} // verus!
