//! A set of file paths that remembers the order of insertion.

use vstd::hash_set::StringHashSet;
use vstd::prelude::*;

use crate::text::texts;

verus! {

/// A set of file paths. Membership is answered by a hash index; the paths can be listed in the
/// order in which they were first inserted.
pub struct PathSet {
    order: Vec<String>,
    index: StringHashSet,
}

impl View for PathSet {
    type V = Seq<Seq<char>>;

    closed spec fn view(&self) -> Seq<Seq<char>> {
        texts(self.order@)
    }
}

/// The paths with one more: at the end if it is new, else unchanged.
pub open spec fn with_path(paths: Seq<Seq<char>>, path: Seq<char>) -> Seq<Seq<char>> {
    if paths.contains(path) {
        paths
    } else {
        paths.push(path)
    }
}

impl PathSet {
    /// The index holds exactly the listed paths, and none is listed twice.
    #[verifier::type_invariant]
    spec fn consistent(self) -> bool {
        &&& self@.no_duplicates()
        &&& forall|path: Seq<char>| #[trigger] self.index@.contains(path) <==> self@.contains(path)
    }

    /// The empty set.
    pub fn new() -> (set: Self)
        ensures
            set@ == Seq::<Seq<char>>::empty(),
    {
        let set = PathSet { order: Vec::new(), index: StringHashSet::new() };
        assert(set@ =~= Seq::<Seq<char>>::empty());
        set
    }

    /// Adds a path, at the end of the order if it is new.
    pub fn insert(&mut self, path: String)
        ensures
            final(self)@ == with_path(old(self)@, path@),
            final(self)@.no_duplicates(),
    {
        proof {
            use_type_invariant(&*self);
        }
        if self.index.contains(path.as_str()) {
            return;
        }
        let mut taken = PathSet::new();
        std::mem::swap(self, &mut taken);
        let PathSet { mut order, mut index } = taken;
        let ghost before = order@;
        order.push(path.clone());
        index.insert(path);
        proof {
            let listed = texts(order@);
            assert(listed =~= texts(before).push(path@));
            assert forall|p: Seq<char>| #[trigger] index@.contains(p) <==> listed.contains(p) by {
                if texts(before).contains(p) {
                    let k = choose|k: int| 0 <= k < texts(before).len() && texts(before)[k] == p;
                    assert(listed[k] == p);
                }
                assert(listed[before.len() as int] == path@);
            }
        }
        *self = PathSet { order, index };
    }

    /// Whether the path is in the set.
    pub fn contains(&self, path: &str) -> (found: bool)
        ensures
            found == self@.contains(path@),
    {
        proof {
            use_type_invariant(self);
        }
        self.index.contains(path)
    }

    /// The number of paths.
    pub fn len(&self) -> (len: usize)
        ensures
            len == self@.len(),
    {
        self.order.len()
    }

    /// The `i`-th path in order of insertion.
    pub fn get(&self, i: usize) -> (path: &String)
        requires
            i < self@.len(),
        ensures
            path@ == self@[i as int],
    {
        &self.order[i]
    }
}

} // verus!
