//! The table of user-defined words.

use vstd::prelude::*;
use std::rc::Rc;
use crate::word::{share, Code, Word};

verus! {

/// A name and the word that is bound to it.
struct Entry {
    name: String,
    word: Rc<Word>,
}

/// The user-defined words, by name. Its view is a map from names to the
/// code of the word that each name is bound to.
pub struct Dictionary {
    entries: Vec<Entry>,
}

/// The map that a list of entries stands for: where a name occurs more
/// than once, its last entry counts.
spec fn bindings(entries: Seq<Entry>) -> Map<Seq<char>, Code>
    decreases entries.len(),
{
    if entries.len() == 0 {
        Map::empty()
    } else {
        bindings(entries.drop_last()).insert(entries.last().name@, entries.last().word@)
    }
}

proof fn lemma_absent(entries: Seq<Entry>, name: Seq<char>)
    requires
        forall|j: int| 0 <= j < entries.len() ==> entries[j].name@ != name,
    ensures
        !bindings(entries).contains_key(name),
    decreases entries.len(),
{
    if entries.len() > 0 {
        lemma_absent(entries.drop_last(), name);
    }
}

proof fn lemma_present(entries: Seq<Entry>, name: Seq<char>, i: int)
    requires
        0 <= i < entries.len(),
        entries[i].name@ == name,
        forall|j: int| i < j < entries.len() ==> entries[j].name@ != name,
    ensures
        bindings(entries).contains_key(name),
        bindings(entries)[name] == entries[i].word@,
    decreases entries.len(),
{
    if i < entries.len() - 1 {
        lemma_present(entries.drop_last(), name, i);
    }
}

proof fn lemma_replaced(entries: Seq<Entry>, i: int, entry: Entry)
    requires
        0 <= i < entries.len(),
        entries[i].name@ == entry.name@,
        forall|j: int| i < j < entries.len() ==> entries[j].name@ != entry.name@,
    ensures
        bindings(entries.update(i, entry)) == bindings(entries).insert(entry.name@, entry.word@),
    decreases entries.len(),
{
    let updated = entries.update(i, entry);
    if i < entries.len() - 1 {
        lemma_replaced(entries.drop_last(), i, entry);
        assert(updated.drop_last() == entries.drop_last().update(i, entry));
    } else {
        assert(updated.drop_last() == entries.drop_last());
    }
}

impl View for Dictionary {
    type V = Map<Seq<char>, Code>;

    closed spec fn view(&self) -> Map<Seq<char>, Code> {
        bindings(self.entries@)
    }
}

impl Dictionary {
    /// The invariant of the type: no name has two entries.
    pub closed spec fn wf(&self) -> bool {
        forall|i: int, j: int|
            0 <= i < j < self.entries@.len() ==> self.entries@[i].name@ != self.entries@[j].name@
    }

    /// A dictionary without words.
    pub fn new() -> (d: Self)
        ensures
            d.wf(),
            d@ == Map::<Seq<char>, Code>::empty(),
    {
        Dictionary { entries: Vec::new() }
    }

    /// The place of the entry for `name`, if it has one.
    fn position(&self, name: &str) -> (r: Option<usize>)
        ensures
            match r {
                Some(i) => i < self.entries@.len() && self.entries@[i as int].name@ == name@
                    && forall|j: int|
                    i < j < self.entries@.len() ==> self.entries@[j].name@ != name@,
                None => forall|j: int|
                    0 <= j < self.entries@.len() ==> self.entries@[j].name@ != name@,
            },
    {
        let mut i: usize = self.entries.len();
        while i > 0
            invariant
                i <= self.entries@.len(),
                forall|j: int| i <= j < self.entries@.len() ==> self.entries@[j].name@ != name@,
            decreases i,
        {
            i -= 1;
            if self.entries[i].name.as_str().eq(name) {
                return Some(i);
            }
        }
        None
    }

    /// Binds `name` to `word`. A name that is bound already is bound anew;
    /// every other name keeps its word.
    pub fn define(&mut self, name: String, word: Rc<Word>)
        requires
            old(self).wf(),
        ensures
            final(self).wf(),
            final(self)@ == old(self)@.insert(name@, word@),
    {
        let found = self.position(name.as_str());
        let entry = Entry { name, word };
        match found {
            Some(i) => {
                proof {
                    lemma_replaced(self.entries@, i as int, entry);
                }
                self.entries[i] = entry;
            },
            None => {
                assert(self.entries@.push(entry).drop_last() == self.entries@);
                self.entries.push(entry);
            },
        }
    }

    /// The word that `name` is bound to, if it is bound.
    pub fn lookup(&self, name: &str) -> (r: Option<Rc<Word>>)
        ensures
            match r {
                Some(word) => self@.contains_key(name@) && word@ == self@[name@],
                None => !self@.contains_key(name@),
            },
    {
        match self.position(name) {
            Some(i) => {
                proof {
                    lemma_present(self.entries@, name@, i as int);
                }
                Some(share(&self.entries[i].word))
            },
            None => {
                proof {
                    lemma_absent(self.entries@, name@);
                }
                None
            },
        }
    }
}

} // verus!
