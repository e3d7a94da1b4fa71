use vstd::prelude::*;

use crate::text::{chars_of, same_chars};

verus! {

/// The supported locales: an ordered list of (tag, catalog) pairs with unique tags,
/// and the tag to fall back on when a client names none of them.
pub struct CatalogSet<C> {
    entries: Vec<(String, C)>,
    default_tag: String,
}

impl<C> CatalogSet<C> {
    /// The registered tags, in order of registration.
    pub closed spec fn tags(&self) -> Seq<Seq<char>> {
        self.entries@.map_values(|e: (String, C)| e.0@)
    }

    /// The catalog registered under the `i`-th tag.
    pub closed spec fn catalog_at(&self, i: int) -> C {
        self.entries@[i].1
    }

    /// The fallback tag.
    pub closed spec fn default(&self) -> Seq<char> {
        self.default_tag@
    }

    pub open spec fn wf(&self) -> bool {
        self.tags().no_duplicates()
    }

    /// An empty set with `default_tag` as its fallback; the fallback need not be
    /// registered.
    pub fn new(default_tag: String) -> (r: Self)
        ensures
            r.wf(),
            r.tags() == Seq::<Seq<char>>::empty(),
            r.default() == default_tag@,
    {
        let r = CatalogSet { entries: Vec::new(), default_tag };
        proof {
            assert(r.tags() =~= Seq::<Seq<char>>::empty());
        }
        r
    }

    /// Registers `catalog` under `tag`, unless `tag` is already registered, in which
    /// case the set is left unchanged. Returns whether it was registered.
    pub fn add(&mut self, tag: String, catalog: C) -> (added: bool)
        requires
            old(self).wf(),
        ensures
            final(self).wf(),
            added == !old(self).tags().contains(tag@),
            final(self).default() == old(self).default(),
            added ==> final(self).tags() == old(self).tags().push(tag@),
            added ==> final(self).catalog_at(old(self).tags().len() as int) == catalog,
            forall|i: int|
                0 <= i < old(self).tags().len() ==> #[trigger] final(self).catalog_at(i)
                    == old(self).catalog_at(i),
            !added ==> final(self).tags() == old(self).tags(),
    {
        let t = chars_of(tag.as_str());
        match self.position(&t) {
            Some(_) => false,
            None => {
                self.entries.push((tag, catalog));
                proof {
                    assert(final(self).tags() =~= old(self).tags().push(tag@));
                    assert forall|i: int, j: int|
                        0 <= i < final(self).tags().len() && 0 <= j < final(self).tags().len()
                            && i != j implies final(self).tags()[i] != final(self).tags()[j] by {
                        if i < old(self).tags().len() && j < old(self).tags().len() {
                            assert(old(self).tags()[i] != old(self).tags()[j]);
                        } else if i < old(self).tags().len() {
                            assert(old(self).tags()[i] != tag@);
                        } else if j < old(self).tags().len() {
                            assert(old(self).tags()[j] != tag@);
                        }
                    }
                }
                true
            },
        }
    }

    /// The number of registered tags.
    pub fn len(&self) -> (r: usize)
        ensures
            r == self.tags().len(),
    {
        self.entries.len()
    }

    /// The index of the first registered tag equal to `tag`.
    pub fn position(&self, tag: &Vec<char>) -> (r: Option<usize>)
        ensures
            match r {
                Some(i) => i < self.tags().len() && self.tags()[i as int] == tag@ && forall|
                    j: int,
                | 0 <= j < i ==> self.tags()[j] != tag@,
                None => !self.tags().contains(tag@),
            },
    {
        let mut i: usize = 0;
        while i < self.entries.len()
            invariant
                i <= self.entries.len(),
                forall|j: int| 0 <= j < i ==> self.tags()[j] != tag@,
            decreases self.entries.len() - i,
        {
            let e = chars_of(self.entries[i].0.as_str());
            if same_chars(&e, tag) {
                return Some(i);
            }
            i += 1;
        }
        None
    }

    /// Whether some registered tag equals `tag` exactly.
    pub fn contains(&self, tag: &str) -> (r: bool)
        ensures
            r == self.tags().contains(tag@),
    {
        let t = chars_of(tag);
        self.position(&t).is_some()
    }

    /// The catalog registered under `tag`, if any.
    pub fn lookup(&self, tag: &str) -> (r: Option<&C>)
        requires
            self.wf(),
        ensures
            match r {
                Some(c) => exists|i: int|
                    0 <= i < self.tags().len() && self.tags()[i] == tag@ && *c
                        == self.catalog_at(i),
                None => !self.tags().contains(tag@),
            },
    {
        let t = chars_of(tag);
        match self.position(&t) {
            Some(i) => {
                let c = &self.entries[i].1;
                proof {
                    assert(self.tags()[i as int] == t@ && *c == self.catalog_at(i as int));
                }
                Some(c)
            },
            None => None,
        }
    }

    /// The `i`-th registered tag.
    pub fn tag_at(&self, i: usize) -> (r: &String)
        requires
            i < self.tags().len(),
        ensures
            r@ == self.tags()[i as int],
    {
        &self.entries[i].0
    }

    /// The fallback tag.
    pub fn default_tag(&self) -> (r: &String)
        ensures
            r@ == self.default(),
    {
        &self.default_tag
    }
}

} // verus!
