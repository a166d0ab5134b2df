use std::collections::HashSet;
use vstd::prelude::*;

verus! {

broadcast use vstd::std_specs::hash::group_hash_axioms;

/// The set of job ids already admitted in one run. It only grows.
pub struct DedupGate {
    seen: HashSet<u32>,
}

impl DedupGate {
    /// The ids admitted so far.
    pub closed spec fn admitted(&self) -> Set<u32> {
        self.seen@
    }

    /// A gate that has admitted nothing.
    pub fn new() -> (r: DedupGate)
        ensures
            r.admitted() == Set::<u32>::empty(),
    {
        DedupGate { seen: HashSet::new() }
    }

    /// Whether `id` has been admitted already.
    pub fn contains(&self, id: u32) -> (r: bool)
        ensures
            r == self.admitted().contains(id),
    {
        self.seen.contains(&id)
    }

    /// Check-and-insert in one step: admits `id` and returns `true` the first
    /// time it is seen; returns `false` and changes nothing afterwards.
    pub fn try_admit(&mut self, id: u32) -> (r: bool)
        ensures
            r == !old(self).admitted().contains(id),
            final(self).admitted() == old(self).admitted().insert(id),
            !r ==> final(self).admitted() == old(self).admitted(),
    {
        let r = self.seen.insert(id);
        proof {
            if !r {
                assert(self.seen@ =~= old(self).seen@);
            }
        }
        r
    }
}

/// Of two admission attempts for the same id, in whichever order they take
/// the lock, at most one succeeds; and exactly one does when the id had not
/// been admitted before.
pub proof fn lemma_single_admission(seen: Set<u32>, id: u32)
    ensures
        ({
            let first = !seen.contains(id);
            let second = !seen.insert(id).contains(id);
            &&& !(first && second)
            &&& !seen.contains(id) ==> (first && !second)
        }),
{
}

} // verus!
