use crate::grapheme::Grapheme;
use crate::gstring::GString;
use vstd::prelude::*;

verus! {

/// Walks the clusters of a borrowed [`GString`] from first to last.
pub struct GStringRefIter<'a> {
    gstring: &'a GString,
    index: usize,
}

impl<'a> GStringRefIter<'a> {
    /// The clusters being walked.
    pub closed spec fn items(&self) -> Seq<Seq<char>> {
        self.gstring@
    }

    /// How many clusters have been handed out.
    pub closed spec fn taken(&self) -> int {
        self.index as int
    }

    /// The next cluster, if any is left.
    pub fn next(&mut self) -> (r: Option<&'a Grapheme>)
        ensures
            final(self).items() == old(self).items(),
            old(self).taken() < old(self).items().len() ==> (r matches Some(g) && g@ == old(
                self,
            ).items()[old(self).taken()] && final(self).taken() == old(self).taken() + 1),
            old(self).taken() >= old(self).items().len() ==> r is None && final(self).taken()
                == old(self).taken(),
    {
        if self.index < self.gstring.len() {
            let r = self.gstring.get(self.index);
            self.index = self.index + 1;
            r
        } else {
            None
        }
    }
}

/// Walks the clusters of an owned [`GString`] from first to last.
pub struct GStringIter {
    gstring: GString,
    index: usize,
}

impl GStringIter {
    /// The clusters being walked.
    pub closed spec fn items(&self) -> Seq<Seq<char>> {
        self.gstring@
    }

    /// How many clusters have been handed out.
    pub closed spec fn taken(&self) -> int {
        self.index as int
    }

    /// The next cluster, if any is left.
    pub fn next(&mut self) -> (r: Option<Grapheme>)
        ensures
            final(self).items() == old(self).items(),
            old(self).taken() < old(self).items().len() ==> (r matches Some(g) && g@ == old(
                self,
            ).items()[old(self).taken()] && final(self).taken() == old(self).taken() + 1),
            old(self).taken() >= old(self).items().len() ==> r is None && final(self).taken()
                == old(self).taken(),
    {
        if self.index < self.gstring.len() {
            let r = match self.gstring.get(self.index) {
                Some(g) => Some(g.clone()),
                None => None,
            };
            self.index = self.index + 1;
            r
        } else {
            None
        }
    }
}

impl GString {
    /// Walks the clusters by reference.
    pub fn iter(&self) -> (r: GStringRefIter<'_>)
        ensures
            r.items() == self@,
            r.taken() == 0,
    {
        GStringRefIter { gstring: self, index: 0 }
    }

    /// Walks the clusters, taking the container.
    pub fn into_iter(self) -> (r: GStringIter)
        ensures
            r.items() == self@,
            r.taken() == 0,
    {
        GStringIter { gstring: self, index: 0 }
    }
}

} // verus!
