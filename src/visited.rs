use crate::datatypes::BlockID;
use vstd::prelude::*;

verus! {

/// The ids of the blocks that one traversal phase has already processed.
///
/// Membership is all it records. The ids are held once each, in the order in
/// which they were first inserted.
pub struct VisitedSet {
    ids: Vec<String>,
}

impl View for VisitedSet {
    type V = Set<Seq<char>>;

    open spec fn view(&self) -> Set<Seq<char>> {
        self.id_seq().to_set()
    }
}

impl VisitedSet {
    /// The ids in order of first insertion.
    pub closed spec fn id_seq(&self) -> Seq<Seq<char>> {
        self.ids@.map_values(|s: String| s@)
    }

    /// Each id is held once.
    pub closed spec fn wf(&self) -> bool {
        self.id_seq().no_duplicates()
    }

    /// An empty set.
    pub fn new() -> (r: VisitedSet)
        ensures
            r@ == Set::<Seq<char>>::empty(),
            r.wf(),
    {
        let r = VisitedSet { ids: Vec::new() };
        assert(r.id_seq() =~= Seq::<Seq<char>>::empty());
        r
    }

    /// Whether `id` is in the set.
    pub fn contains(&self, id: &BlockID) -> (r: bool)
        ensures
            r == self@.contains(id.0@),
    {
        let mut i: usize = 0;
        while i < self.ids.len()
            invariant
                i <= self.ids@.len(),
                forall|j: int| 0 <= j < i ==> self.ids@[j]@ != id.0@,
            decreases self.ids@.len() - i,
        {
            if self.ids[i] == id.0 {
                assert(self.id_seq()[i as int] == id.0@);
                return true;
            }
            i = i + 1;
        }
        proof {
            if self@.contains(id.0@) {
                let k = choose|k: int| 0 <= k < self.id_seq().len() && self.id_seq()[k] == id.0@;
                assert(self.ids@[k]@ == id.0@);
            }
        }
        false
    }

    /// Adds `id`; returns whether it was absent before.
    pub fn insert(&mut self, id: &BlockID) -> (r: bool)
        requires
            old(self).wf(),
        ensures
            final(self).wf(),
            final(self)@ == old(self)@.insert(id.0@),
            r == !old(self)@.contains(id.0@),
    {
        if self.contains(id) {
            assert(self@.insert(id.0@) =~= self@);
            return false;
        }
        let ghost before = self.id_seq();
        self.ids.push(id.0.clone());
        assert(self.id_seq() =~= before.push(id.0@));
        proof {
            before.lemma_push_to_set_commute(id.0@);
            assert(!before.contains(id.0@));
            assert forall|a: int, b: int|
                0 <= a < b < self.id_seq().len() implies self.id_seq()[a] != self.id_seq()[b] by {
                if b == before.len() {
                    assert(before[a] == self.id_seq()[a]);
                }
            }
        }
        true
    }

    /// The number of ids in the set.
    pub fn len(&self) -> (r: usize)
        requires
            self.wf(),
        ensures
            r == self@.len(),
    {
        proof {
            self.id_seq().unique_seq_to_set();
        }
        self.ids.len()
    }
}

} // verus!
