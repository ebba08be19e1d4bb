//! The table of linked classes, keyed by the dotted class name.
//!
//! The table is filled while classes are loaded and only read afterwards.  A
//! class is shared between the table and whoever runs it, and never changes.
//!
//! The table is a list without a name twice, and a name is found by walking
//! it: that is enough for the classes of a program, and it keeps `insert`
//! and `get` within what can be proved of strings.

use std::rc::Rc;
use vstd::prelude::*;
use crate::linker::{RuntimeClass, RuntimeClassView};
use crate::text::text_eq;

verus! {

/// One class of the table under the name that finds it.
struct Entry {
    name: String,
    class: Rc<RuntimeClass>,
}

/// The classes that have been linked, each under its dotted name.
pub struct ClassRegistry {
    entries: Vec<Entry>,
}

/// No two entries have the same name.
spec fn distinct(entries: Seq<Entry>) -> bool {
    forall|i: int, j: int|
        0 <= i < j < entries.len() ==> #[trigger] entries[i].name@ != #[trigger] entries[j].name@
}

/// Whether some entry has the name `name`.
spec fn holds(entries: Seq<Entry>, name: Seq<char>) -> bool {
    exists|i: int| 0 <= i < entries.len() && #[trigger] entries[i].name@ == name
}

/// The position of an entry with the name `name`.
spec fn position(entries: Seq<Entry>, name: Seq<char>) -> int {
    choose|i: int| 0 <= i < entries.len() && #[trigger] entries[i].name@ == name
}

/// The map that the entries stand for.
spec fn as_map(entries: Seq<Entry>) -> Map<Seq<char>, RuntimeClassView> {
    Map::new(
        |name: Seq<char>| holds(entries, name),
        |name: Seq<char>| entries[position(entries, name)].class@,
    )
}

impl View for ClassRegistry {
    type V = Map<Seq<char>, RuntimeClassView>;

    /// The classes of the table by their dotted names.
    closed spec fn view(&self) -> Map<Seq<char>, RuntimeClassView> {
        as_map(self.entries@)
    }
}

/// Where names are distinct, the entry at `i` is the one that its name finds.
proof fn lemma_position(entries: Seq<Entry>, i: int)
    requires
        distinct(entries),
        0 <= i < entries.len(),
    ensures
        holds(entries, entries[i].name@),
        position(entries, entries[i].name@) == i,
{
    let p = position(entries, entries[i].name@);
    assert(entries[p].name@ == entries[i].name@);
}

/// Replacing the class of the entry at `i` is an insertion under its name.
proof fn lemma_replace(entries: Seq<Entry>, i: int, entry: Entry)
    requires
        distinct(entries),
        0 <= i < entries.len(),
        entry.name@ == entries[i].name@,
    ensures
        distinct(entries.update(i, entry)),
        as_map(entries.update(i, entry)) == as_map(entries).insert(entry.name@, entry.class@),
{
    let after = entries.update(i, entry);
    assert(distinct(after)) by {
        assert forall|a: int, b: int| 0 <= a < b < after.len() implies #[trigger] after[a].name@
            != #[trigger] after[b].name@ by {
            assert(after[a].name@ == entries[a].name@);
            assert(after[b].name@ == entries[b].name@);
        }
    }
    let want = as_map(entries).insert(entry.name@, entry.class@);
    assert forall|name: Seq<char>| as_map(after).dom().contains(name) <==> want.dom().contains(
        name,
    ) by {
        if holds(after, name) {
            let j = position(after, name);
            assert(entries[j].name@ == name);
        }
        if holds(entries, name) {
            let j = position(entries, name);
            assert(after[j].name@ == name);
        }
        if name == entry.name@ {
            assert(after[i].name@ == name);
        }
    }
    assert forall|name: Seq<char>| as_map(after).dom().contains(name) implies as_map(after)[name]
        == want[name] by {
        let j = position(after, name);
        assert(entries[j].name@ == name);
        lemma_position(after, j);
        lemma_position(entries, j);
    }
    assert(as_map(after) =~= want);
}

/// Appending an entry with a new name is an insertion under that name.
proof fn lemma_append(entries: Seq<Entry>, entry: Entry)
    requires
        distinct(entries),
        !holds(entries, entry.name@),
    ensures
        distinct(entries.push(entry)),
        as_map(entries.push(entry)) == as_map(entries).insert(entry.name@, entry.class@),
{
    let after = entries.push(entry);
    assert(distinct(after)) by {
        assert forall|a: int, b: int| 0 <= a < b < after.len() implies #[trigger] after[a].name@
            != #[trigger] after[b].name@ by {
            if b == entries.len() {
                assert(entries[a].name@ != entry.name@);
            } else {
                assert(after[a].name@ == entries[a].name@);
                assert(after[b].name@ == entries[b].name@);
            }
        }
    }
    let want = as_map(entries).insert(entry.name@, entry.class@);
    assert forall|name: Seq<char>| as_map(after).dom().contains(name) <==> want.dom().contains(
        name,
    ) by {
        if holds(after, name) {
            let j = position(after, name);
            if j < entries.len() {
                assert(entries[j].name@ == name);
            }
        }
        if holds(entries, name) {
            let j = position(entries, name);
            assert(after[j].name@ == name);
        }
        if name == entry.name@ {
            assert(after[entries.len() as int].name@ == name);
        }
    }
    assert forall|name: Seq<char>| as_map(after).dom().contains(name) implies as_map(after)[name]
        == want[name] by {
        let j = position(after, name);
        lemma_position(after, j);
        if j < entries.len() {
            assert(entries[j].name@ == name);
            lemma_position(entries, j);
        }
    }
    assert(as_map(after) =~= want);
}

/// A table of distinct names holds as many classes as it has entries.
proof fn lemma_len(entries: Seq<Entry>)
    requires
        distinct(entries),
    ensures
        as_map(entries).dom().finite(),
        as_map(entries).len() == entries.len(),
    decreases entries.len(),
{
    if entries.len() == 0 {
        assert(as_map(entries) =~= Map::<Seq<char>, RuntimeClassView>::empty());
    } else {
        let last = entries.last();
        let front = entries.drop_last();
        assert(distinct(front)) by {
            assert forall|a: int, b: int| 0 <= a < b < front.len() implies #[trigger] front[a].name@
                != #[trigger] front[b].name@ by {
                assert(front[a].name@ == entries[a].name@);
                assert(front[b].name@ == entries[b].name@);
            }
        }
        lemma_len(front);
        if holds(front, last.name@) {
            let j = position(front, last.name@);
            assert(entries[j].name@ == entries[entries.len() - 1].name@);
        }
        lemma_append(front, last);
        assert(front.push(last) =~= entries);
    }
}

/// `Rc::clone` hands out one more pointer to the same, unchanged class.
#[verifier::external_body]
pub(crate) fn share(class: &Rc<RuntimeClass>) -> (res: Rc<RuntimeClass>)
    ensures
        res == *class,
{
    Rc::clone(class)
}

impl ClassRegistry {
    /// No name stands in the table twice.
    #[verifier::type_invariant]
    spec fn well_formed(self) -> bool {
        distinct(self.entries@)
    }

    /// An empty table.
    pub fn new() -> (registry: ClassRegistry)
        ensures
            registry@ == Map::<Seq<char>, RuntimeClassView>::empty(),
    {
        let registry = ClassRegistry { entries: Vec::new() };
        assert(registry@ =~= Map::<Seq<char>, RuntimeClassView>::empty());
        registry
    }

    /// The position of the entry with the name `name`, if there is one.
    fn find(&self, name: &str) -> (res: Option<usize>)
        ensures
            match res {
                Some(i) => i < self.entries@.len() && self.entries@[i as int].name@ == name@,
                None => !holds(self.entries@, name@),
            },
    {
        let mut i: usize = 0;
        while i < self.entries.len()
            invariant
                i <= self.entries@.len(),
                forall|j: int| 0 <= j < i ==> (#[trigger] self.entries@[j]).name@ != name@,
            decreases self.entries@.len() - i,
        {
            if text_eq(self.entries[i].name.as_str(), name) {
                return Some(i);
            }
            i = i + 1;
        }
        None
    }

    /// The number of classes in the table.
    pub fn len(&self) -> (n: usize)
        ensures
            n == self@.len(),
    {
        proof {
            use_type_invariant(self);
            lemma_len(self.entries@);
        }
        self.entries.len()
    }

    /// Puts `class` into the table under `name`, in place of any class that
    /// was there under that name.
    pub fn insert(&mut self, name: String, class: Rc<RuntimeClass>)
        ensures
            final(self)@ == old(self)@.insert(name@, class@),
    {
        proof {
            use_type_invariant(&*self);
        }
        let found = self.find(name.as_str());
        let entry = Entry { name, class };
        // The entries are taken out, changed and put back, so that the table
        // is never seen with a name twice.
        let mut entries: Vec<Entry> = Vec::new();
        std::mem::swap(&mut self.entries, &mut entries);
        match found {
            Some(i) => {
                proof {
                    lemma_replace(entries@, i as int, entry);
                }
                entries.set(i, entry);
            },
            None => {
                proof {
                    lemma_append(entries@, entry);
                }
                entries.push(entry);
            },
        }
        self.entries = entries;
    }

    /// The class that stands in the table under `name`, if there is one.
    pub fn get(&self, name: &str) -> (res: Option<&Rc<RuntimeClass>>)
        ensures
            match res {
                Some(class) => self@.contains_key(name@) && self@[name@] == class@,
                None => !self@.contains_key(name@),
            },
    {
        proof {
            use_type_invariant(self);
        }
        match self.find(name) {
            Some(i) => {
                proof {
                    lemma_position(self.entries@, i as int);
                }
                Some(&self.entries[i].class)
            },
            None => None,
        }
    }
}

} // verus!
