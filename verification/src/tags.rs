//! A set of feature tags (strings) without duplicates.
use vstd::prelude::*;

verus! {

/// A finite set of tags; each tag occurs once.
#[derive(Debug)]
pub struct TagSet {
    items: Vec<String>,
}

impl TagSet {
    #[verifier::type_invariant]
    spec fn no_duplicates(&self) -> bool {
        forall|i: int, j: int|
            0 <= i < j < self.items@.len() ==> #[trigger] self.items@[i]@ != #[trigger] self.items@[j]@
    }
}

impl View for TagSet {
    type V = Set<Seq<char>>;

    closed spec fn view(&self) -> Set<Seq<char>> {
        Set::new(|t: Seq<char>| exists|i: int| 0 <= i < self.items@.len() && #[trigger] self.items@[i]@ == t)
    }
}

impl TagSet {
    /// The empty set.
    pub fn new() -> (r: TagSet)
        ensures
            r@ == Set::<Seq<char>>::empty(),
    {
        let r = TagSet { items: Vec::new() };
        assert(r@ =~= Set::<Seq<char>>::empty());
        r
    }

    /// Whether `tag` is in the set.
    pub fn contains(&self, tag: &str) -> (r: bool)
        ensures
            r == self@.contains(tag@),
    {
        let t = tag.to_owned();
        let mut i: usize = 0;
        while i < self.items.len()
            invariant
                i <= self.items@.len(),
                t@ == tag@,
                forall|k: int| 0 <= k < i ==> #[trigger] self.items@[k]@ != tag@,
            decreases self.items@.len() - i,
        {
            if self.items[i] == t {
                return true;
            }
            i = i + 1;
        }
        false
    }

    /// Adds `tag`; nothing changes when it is already present.
    pub fn insert(&mut self, tag: &str)
        ensures
            final(self)@ == old(self)@.insert(tag@),
    {
        let t = tag.to_owned();
        self.insert_string(t);
    }

    /// Adds an owned tag; nothing changes when it is already present.
    pub fn insert_string(&mut self, tag: String)
        ensures
            final(self)@ == old(self)@.insert(tag@),
    {
        proof {
            use_type_invariant(&*self);
        }
        let mut i: usize = 0;
        while i < self.items.len()
            invariant
                i <= self.items@.len(),
                forall|k: int| 0 <= k < i ==> #[trigger] self.items@[k]@ != tag@,
            decreases self.items@.len() - i,
        {
            if self.items[i] == tag {
                assert(self@.insert(tag@) =~= self@);
                return ;
            }
            i = i + 1;
        }
        let ghost before = self@;
        let mut items = Vec::new();
        std::mem::swap(&mut items, &mut self.items);
        items.push(tag);
        self.items = items;
        assert(self@ =~= before.insert(tag@)) by {
            assert forall|t: Seq<char>| before.insert(tag@).contains(t) implies self@.contains(t) by {
                if t == tag@ {
                    assert(self.items@[self.items@.len() - 1]@ == t);
                } else {
                    let k = choose|k: int| 0 <= k < old(self).items@.len() && #[trigger] old(self).items@[k]@ == t;
                    assert(self.items@[k]@ == t);
                }
            }
        }
    }

    /// Whether the set is empty.
    pub fn is_empty(&self) -> (r: bool)
        ensures
            r == (self@ == Set::<Seq<char>>::empty()),
    {
        if self.items.len() == 0 {
            assert(self@ =~= Set::<Seq<char>>::empty());
            true
        } else {
            assert(self@.contains(self.items@[0]@));
            false
        }
    }

    /// The tags, each once, in insertion order.
    pub fn tags(&self) -> (r: &Vec<String>)
        ensures
            forall|t: Seq<char>| self@.contains(t) <==> exists|i: int| 0 <= i < r@.len() && #[trigger] r@[i]@ == t,
            forall|i: int, j: int| 0 <= i < j < r@.len() ==> #[trigger] r@[i]@ != #[trigger] r@[j]@,
    {
        proof {
            use_type_invariant(self);
        }
        &self.items
    }
}

} // verus!
