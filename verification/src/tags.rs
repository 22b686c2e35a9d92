//! The count of occurrences that each tag has left in one run.
use crate::text_map::TextMap;
use vstd::prelude::*;

verus! {

/// What a table of counts has left for a tag: its count, and nothing for a tag
/// that the table does not hold.
pub open spec fn left(counts: Map<Seq<char>, nat>, tag: Seq<char>) -> nat {
    if counts.dom().contains(tag) {
        counts[tag]
    } else {
        0
    }
}

/// For each tag text a number: how often the tag occurs on a page, and during a
/// run how many of these occurrences are still to be linked. It belongs to one run.
#[derive(Debug)]
pub struct TagCounter {
    counts: TextMap<usize>,
}

impl View for TagCounter {
    type V = Map<Seq<char>, nat>;

    closed spec fn view(&self) -> Map<Seq<char>, nat> {
        Map::new(
            |tag: Seq<char>| self.counts@.dom().contains(tag),
            |tag: Seq<char>| self.counts@[tag] as nat,
        )
    }
}

impl TagCounter {
    pub closed spec fn wf(&self) -> bool {
        self.counts.wf()
    }

    /// The tags that have a count, in the order in which they first came.
    pub closed spec fn tags(&self) -> Seq<Seq<char>> {
        self.counts.keys()
    }

    /// What is left for a tag: its count, and nothing for a tag without one.
    pub open spec fn budget(&self, tag: Seq<char>) -> nat {
        left(self@, tag)
    }

    /// The tags with a count are the domain of the view, each listed once.
    pub proof fn lemma_tags(&self)
        requires
            self.wf(),
        ensures
            self.tags().no_duplicates(),
            self.tags().to_set() == self@.dom(),
            self@.dom().finite(),
            self@.dom().len() == self.tags().len(),
            forall|tag: Seq<char>| self@.dom().contains(tag) ==> self@[tag] <= usize::MAX,
    {
        self.counts.lemma_domain();
        assert(self@.dom() =~= self.counts@.dom());
    }

    pub fn new() -> (counter: Self)
        ensures
            counter.wf(),
            counter@ == Map::<Seq<char>, nat>::empty(),
            counter.tags() == Seq::<Seq<char>>::empty(),
    {
        let counter = TagCounter { counts: TextMap::new() };
        assert(counter@ =~= Map::<Seq<char>, nat>::empty());
        counter
    }

    /// How many tags have a count.
    pub fn len(&self) -> (n: usize)
        requires
            self.wf(),
        ensures
            n == self.tags().len(),
            n == self@.dom().len(),
    {
        proof {
            self.lemma_tags();
        }
        self.counts.len()
    }

    /// The tag at a place.
    pub fn tag(&self, i: usize) -> (tag: &String)
        requires
            self.wf(),
            i < self.tags().len(),
        ensures
            tag@ == self.tags()[i as int],
            self@.dom().contains(tag@),
    {
        proof {
            self.counts.lemma_domain();
            assert(self.counts.keys().contains(self.counts.keys()[i as int]));
        }
        self.counts.key(i)
    }

    /// What is left for a tag.
    pub fn remaining(&self, tag: &String) -> (left: usize)
        requires
            self.wf(),
        ensures
            left == self.budget(tag@),
    {
        match self.counts.get(tag) {
            Some(count) => count,
            None => 0,
        }
    }

    /// Counts one more occurrence of a tag.
    pub fn record(&mut self, tag: &String)
        requires
            old(self).wf(),
            old(self).budget(tag@) < usize::MAX,
        ensures
            final(self).wf(),
            final(self)@ == old(self)@.insert(tag@, old(self).budget(tag@) + 1),
            final(self).tags() == if old(self).tags().contains(tag@) {
                old(self).tags()
            } else {
                old(self).tags().push(tag@)
            },
    {
        let count = self.remaining(tag);
        self.counts.insert(tag.clone(), count + 1);
        assert(self@ =~= old(self)@.insert(tag@, old(self).budget(tag@) + 1));
    }

    /// Takes one occurrence of a tag, if one is left, and says whether it did.
    pub fn spend(&mut self, tag: &String) -> (spent: bool)
        requires
            old(self).wf(),
        ensures
            final(self).wf(),
            spent == (old(self).budget(tag@) > 0),
            spent ==> final(self)@ == old(self)@.insert(tag@, (old(self).budget(tag@) - 1) as nat),
            !spent ==> final(self)@ == old(self)@,
            final(self).tags() == old(self).tags(),
    {
        let count = self.remaining(tag);
        if count == 0 {
            return false;
        }
        proof {
            self.counts.lemma_domain();
        }
        self.counts.insert(tag.clone(), count - 1);
        assert(self@ =~= old(self)@.insert(tag@, (old(self).budget(tag@) - 1) as nat));
        true
    }
}

} // verus!
