//! A set of names.

use crate::text::same_text;
use vstd::prelude::*;
use vstd::string::*;

verus! {

/// A set of names, in the order they were added.
#[derive(Debug)]
pub struct NameSet {
    names: Vec<String>,
}

impl View for NameSet {
    type V = Set<Seq<char>>;

    closed spec fn view(&self) -> Set<Seq<char>> {
        name_views(self.names@).to_set()
    }
}

spec fn name_views(names: Seq<String>) -> Seq<Seq<char>> {
    Seq::new(names.len(), |i: int| names[i]@)
}

impl NameSet {
    #[verifier::type_invariant]
    spec fn distinct(self) -> bool {
        name_views(self.names@).no_duplicates()
    }

    /// An empty set.
    pub fn new() -> (r: NameSet)
        ensures
            r@ == Set::<Seq<char>>::empty(),
    {
        let r = NameSet { names: Vec::new() };
        assert(r@ =~= Set::<Seq<char>>::empty());
        r
    }

    /// Whether `name` is in the set.
    pub fn contains(&self, name: &str) -> (r: bool)
        ensures
            r == self@.contains(name@),
    {
        let ghost views = name_views(self.names@);
        let mut i: usize = 0;
        while i < self.names.len()
            invariant
                i <= self.names@.len(),
                views == name_views(self.names@),
                forall|k: int| 0 <= k < i ==> views[k] != name@,
            decreases self.names@.len() - i,
        {
            assert(views[i as int] == self.names@[i as int]@);
            if same_text(self.names[i].as_str(), name) {
                assert(views.contains(name@));
                return true;
            }
            i = i + 1;
        }
        false
    }

    /// Adds `name`, and says whether it was new.
    pub fn insert(&mut self, name: String) -> (r: bool)
        ensures
            r == !old(self)@.contains(name@),
            final(self)@ == old(self)@.insert(name@),
    {
        let ghost before = name_views(self.names@);
        if self.contains(name.as_str()) {
            assert(self@ =~= old(self)@.insert(name@));
            return false;
        }
        proof {
            use_type_invariant(&*self);
        }
        let mut names: Vec<String> = Vec::new();
        std::mem::swap(&mut names, &mut self.names);
        let ghost named = name@;
        names.push(name);
        proof {
            let after = name_views(names@);
            assert(after =~= before.push(named));
            assert(after.no_duplicates());
            assert(after.to_set() =~= before.to_set().insert(named)) by {
                assert(after.last() == named);
                assert forall|x: Seq<char>| before.to_set().insert(named).contains(
                    x,
                ) implies #[trigger] after.to_set().contains(x) by {
                    if before.contains(x) {
                        let k = choose|k: int| 0 <= k < before.len() && before[k] == x;
                        assert(after[k] == x);
                    }
                }
            }
        }
        self.names = names;
        true
    }

    /// How many names the set holds.
    pub fn len(&self) -> (r: usize)
        ensures
            r == self@.len(),
            self@.finite(),
    {
        proof {
            use_type_invariant(self);
            name_views(self.names@).unique_seq_to_set();
        }
        self.names.len()
    }

    /// Whether every name of this set is in `other`.
    pub fn is_subset_of(&self, other: &NameSet) -> (r: bool)
        ensures
            r == self@.subset_of(other@),
    {
        let ghost views = name_views(self.names@);
        let mut i: usize = 0;
        while i < self.names.len()
            invariant
                i <= self.names@.len(),
                views == name_views(self.names@),
                forall|k: int| 0 <= k < i ==> other@.contains(#[trigger] views[k]),
            decreases self.names@.len() - i,
        {
            assert(views[i as int] == self.names@[i as int]@);
            if !other.contains(self.names[i].as_str()) {
                assert(views.contains(views[i as int]));
                assert(self@.contains(views[i as int]));
                return false;
            }
            i = i + 1;
        }
        assert forall|x: Seq<char>| self@.contains(x) implies other@.contains(x) by {
            let k = choose|k: int| 0 <= k < views.len() && views[k] == x;
            assert(other@.contains(views[k]));
        }
        true
    }

    /// Whether two sets hold the same names.
    pub fn same_as(&self, other: &NameSet) -> (r: bool)
        ensures
            r == (self@ == other@),
    {
        let r = self.is_subset_of(other) && other.is_subset_of(self);
        assert(r ==> self@ =~= other@);
        r
    }
}

} // verus!
