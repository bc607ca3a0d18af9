use vstd::prelude::*;

use crate::fileext::same_text;

verus! {

/// Translations of labels into the text shown for them.
pub struct Locale {
    entries: Vec<(String, String)>,
}

impl Locale {
    /// The text of each label.
    pub closed spec fn view(&self) -> Map<Seq<char>, Seq<char>> {
        Map::new(
            |k: Seq<char>| exists|i: int| 0 <= i < self.entries@.len() && #[trigger] self.entries@[i].0@ == k,
            |k: Seq<char>| self.entries@[self.index_of(k)].1@,
        )
    }

    /// Where the label is held.
    closed spec fn index_of(&self, k: Seq<char>) -> int {
        choose|i: int| 0 <= i < self.entries@.len() && #[trigger] self.entries@[i].0@ == k
    }

    /// No label is held twice.
    pub closed spec fn wf(&self) -> bool {
        forall|i: int, j: int|
            0 <= i < j < self.entries@.len() ==> #[trigger] self.entries@[i].0@ != #[trigger] self.entries@[j].0@
    }

    /// A locale with no translations.
    pub fn new() -> (r: Locale)
        ensures
            r.wf(),
            r@ == Map::<Seq<char>, Seq<char>>::empty(),
    {
        let r = Locale { entries: Vec::new() };
        assert(r@ =~= Map::<Seq<char>, Seq<char>>::empty());
        r
    }

    /// Where the label is held, if it is.
    fn find(&self, label: &str) -> (r: Option<usize>)
        requires
            self.wf(),
        ensures
            match r {
                Some(i) => i < self.entries@.len() && self.entries@[i as int].0@ == label@,
                None => forall|i: int| 0 <= i < self.entries@.len() ==> #[trigger] self.entries@[i].0@ != label@,
            },
    {
        let n = self.entries.len();
        let mut i: usize = 0;
        while i < n
            invariant
                i <= n,
                n == self.entries@.len(),
                forall|j: int| 0 <= j < i ==> #[trigger] self.entries@[j].0@ != label@,
            decreases n - i,
        {
            if same_text(self.entries[i].0.as_str(), label) {
                return Some(i);
            }
            i = i + 1;
        }
        None
    }

    /// The text for a label, or the label itself where it has no translation.
    pub fn get(&self, label: &str) -> (r: String)
        requires
            self.wf(),
        ensures
            self@.contains_key(label@) ==> r@ == self@[label@],
            !self@.contains_key(label@) ==> r@ == label@,
    {
        match self.find(label) {
            Some(i) => {
                proof {
                    let k = self.index_of(label@);
                    assert(self.entries@[i as int].0@ == label@);
                    assert(self.entries@[k].0@ == label@);
                    assert(k == i);
                }
                self.entries[i].1.clone()
            },
            None => label.to_owned(),
        }
    }

    /// Set the text for a label, in place of any it had.
    pub fn insert(&mut self, label: String, text: String)
        requires
            old(self).wf(),
        ensures
            final(self).wf(),
            final(self)@ == old(self)@.insert(label@, text@),
    {
        let ghost k = label@;
        let ghost t = text@;
        match self.find(label.as_str()) {
            Some(i) => {
                self.entries.set(i, (label, text));
                proof {
                    assert forall|a: int, b: int| 0 <= a < b < self.entries@.len() implies #[trigger] self.entries@[a].0@
                        != #[trigger] self.entries@[b].0@ by {
                        assert(old(self).entries@[a].0@ != old(self).entries@[b].0@);
                    }
                    assert forall|key: Seq<char>| #[trigger] self@.contains_key(key) == old(self)@.insert(k, t).contains_key(key) by {
                        if old(self)@.contains_key(key) {
                            let j = old(self).index_of(key);
                            assert(self.entries@[j].0@ == key);
                        }
                        if self@.contains_key(key) {
                            let j = self.index_of(key);
                            if j != i {
                                assert(old(self).entries@[j].0@ == key);
                            }
                        }
                    }
                    assert forall|key: Seq<char>| #[trigger] self@.contains_key(key) implies self@[key] == old(self)@.insert(k, t)[key] by {
                        let j = self.index_of(key);
                        if key == k {
                            assert(j == i);
                        } else {
                            let j0 = old(self).index_of(key);
                            assert(old(self).entries@[j].0@ == key);
                            assert(j0 == j);
                        }
                    }
                    assert(self@ =~= old(self)@.insert(k, t));
                }
            },
            None => {
                self.entries.push((label, text));
                proof {
                    let n = old(self).entries@.len();
                    assert forall|key: Seq<char>| #[trigger] self@.contains_key(key) == old(self)@.insert(k, t).contains_key(key) by {
                        if old(self)@.contains_key(key) {
                            let j = old(self).index_of(key);
                            assert(self.entries@[j].0@ == key);
                        }
                        if key == k {
                            assert(self.entries@[n as int].0@ == key);
                        }
                        if self@.contains_key(key) {
                            let j = self.index_of(key);
                            if j != n {
                                assert(old(self).entries@[j].0@ == key);
                            }
                        }
                    }
                    assert forall|key: Seq<char>| #[trigger] self@.contains_key(key) implies self@[key] == old(self)@.insert(k, t)[key] by {
                        let j = self.index_of(key);
                        if key == k {
                            assert(self.entries@[n as int].0@ == key);
                            assert(j == n);
                        } else {
                            let j0 = old(self).index_of(key);
                            assert(old(self).entries@[j].0@ == key);
                            assert(j0 == j);
                        }
                    }
                    assert(self@ =~= old(self)@.insert(k, t));
                }
            },
        }
    }
}

impl Default for Locale {
    fn default() -> (r: Locale)
        ensures
            r.wf(),
            r@ == Map::<Seq<char>, Seq<char>>::empty(),
    {
        Locale::new()
    }
}

} // verus!
