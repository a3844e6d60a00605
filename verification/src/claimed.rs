//! The set of manifest identities that a traversal has claimed.

use vstd::prelude::*;

verus! {

/// The identities claimed so far, in the order in which they were claimed.
///
/// An identity is the canonical path of a manifest file. A claim is never
/// released: the only way to change the set is [`ClaimedSet::claim`], which
/// tests membership and inserts in one step.
pub struct ClaimedSet {
    ids: Vec<String>,
}

impl View for ClaimedSet {
    type V = Seq<Seq<char>>;

    closed spec fn view(&self) -> Seq<Seq<char>> {
        self.ids.deep_view()
    }
}

impl ClaimedSet {
    /// No identity is held twice.
    pub open spec fn wf(&self) -> bool {
        self@.no_duplicates()
    }

    /// The identities fit in memory, so their number fits in a `usize`.
    pub proof fn lemma_len_bounded(&self)
        ensures
            self@.len() <= usize::MAX,
    {
        assert(self.ids.len() == self.ids@.len());
        assert(self.ids.deep_view().len() == self.ids@.len());
    }

    /// The empty set.
    pub fn new() -> (set: Self)
        ensures
            set@ == Seq::<Seq<char>>::empty(),
            set.wf(),
    {
        let set = ClaimedSet { ids: Vec::new() };
        assert(set.ids.deep_view() =~= Seq::<Seq<char>>::empty());
        set
    }

    /// The number of identities claimed.
    pub fn len(&self) -> (n: usize)
        ensures
            n == self@.len(),
    {
        self.ids.len()
    }

    /// Where `id` stands in the order of the claims, if it has been
    /// claimed.
    pub fn position(&self, id: &str) -> (at: Option<usize>)
        ensures
            match at {
                Some(i) => i < self@.len() && self@[i as int] == id@,
                None => !self@.contains(id@),
            },
    {
        let wanted: String = id.to_owned();
        let mut i: usize = 0;
        while i < self.ids.len()
            invariant
                i <= self.ids.len(),
                wanted@ == id@,
                forall|j: int| 0 <= j < i ==> self@[j] != id@,
            decreases self.ids.len() - i,
        {
            if self.ids[i] == wanted {
                assert(self@[i as int] == id@);
                return Some(i);
            }
            i += 1;
        }
        None
    }

    /// Whether `id` has been claimed.
    pub fn contains(&self, id: &str) -> (found: bool)
        ensures
            found == self@.contains(id@),
    {
        self.position(id).is_some()
    }

    /// Claims `id`: inserts it unless it is there already, and says whether
    /// it was inserted. Exactly one of any number of claims of the same
    /// identity is answered with `true`.
    pub fn claim(&mut self, id: &str) -> (fresh: bool)
        requires
            old(self).wf(),
        ensures
            fresh == !old(self)@.contains(id@),
            final(self)@ == if fresh { old(self)@.push(id@) } else { old(self)@ },
            final(self).wf(),
    {
        if self.contains(id) {
            false
        } else {
            self.ids.push(id.to_owned());
            assert(self.ids.deep_view() =~= old(self).ids.deep_view().push(id@));
            true
        }
    }
}

} // verus!
