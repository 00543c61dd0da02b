//! The named-variable store: a mapping from single characters to recorded
//! body lengths. A key that was never written is observably distinct from a
//! key mapped to zero.

use vstd::prelude::*;
use vstd::pervasive::VecAdditionalExecFns;

verus! {

/// The mapping a sequence of entries denotes: the earliest entry with a given
/// key wins.
pub open spec fn entries_map(entries: Seq<(char, usize)>) -> Map<char, usize>
    decreases entries.len(),
{
    if entries.len() == 0 {
        Map::empty()
    } else {
        entries_map(entries.drop_first()).insert(entries.first().0, entries.first().1)
    }
}

/// The store. Viewed as a `Map<char, usize>`.
pub struct VarStore {
    entries: Vec<(char, usize)>,
}

impl View for VarStore {
    type V = Map<char, usize>;

    closed spec fn view(&self) -> Map<char, usize> {
        entries_map(self.entries@)
    }
}

/// The first entry holding a key gives that key's value in the mapping.
proof fn lemma_entries_map_first_match(entries: Seq<(char, usize)>, i: int)
    requires
        0 <= i < entries.len(),
        forall|j: int| 0 <= j < i ==> (#[trigger] entries[j]).0 != entries[i].0,
    ensures
        entries_map(entries).contains_key(entries[i].0),
        entries_map(entries)[entries[i].0] == entries[i].1,
    decreases entries.len(),
{
    if i > 0 {
        assert(entries.drop_first()[i - 1] == entries[i]);
        assert(forall|j: int|
            0 <= j < i - 1 ==> (#[trigger] entries.drop_first()[j]) == entries[j + 1]);
        lemma_entries_map_first_match(entries.drop_first(), i - 1);
    }
}

/// A key held by no entry is absent from the mapping.
proof fn lemma_entries_map_absent(entries: Seq<(char, usize)>, name: char)
    requires
        forall|j: int| 0 <= j < entries.len() ==> (#[trigger] entries[j]).0 != name,
    ensures
        !entries_map(entries).contains_key(name),
    decreases entries.len(),
{
    if entries.len() > 0 {
        assert(forall|j: int|
            0 <= j < entries.len() - 1 ==> (#[trigger] entries.drop_first()[j]) == entries[j + 1]);
        lemma_entries_map_absent(entries.drop_first(), name);
    }
}

/// Overwriting the first entry holding a key in place denotes a map insert of
/// that key.
proof fn lemma_entries_map_update_first(entries: Seq<(char, usize)>, i: int, value: usize)
    requires
        0 <= i < entries.len(),
        forall|j: int| 0 <= j < i ==> (#[trigger] entries[j]).0 != entries[i].0,
    ensures
        entries_map(entries.update(i, (entries[i].0, value))) == entries_map(entries).insert(
            entries[i].0,
            value,
        ),
    decreases entries.len(),
{
    let updated = entries.update(i, (entries[i].0, value));
    if i == 0 {
        assert(updated.drop_first() =~= entries.drop_first());
        assert(entries_map(updated) =~= entries_map(entries).insert(entries[i].0, value));
    } else {
        assert(updated.drop_first() =~= entries.drop_first().update(i - 1, (entries[i].0, value)));
        assert(entries.drop_first()[i - 1] == entries[i]);
        assert(forall|j: int|
            0 <= j < i - 1 ==> (#[trigger] entries.drop_first()[j]) == entries[j + 1]);
        lemma_entries_map_update_first(entries.drop_first(), i - 1, value);
        assert(entries_map(updated) =~= entries_map(entries).insert(entries[i].0, value));
    }
}

/// Appending an entry whose key no other entry holds denotes a map insert of
/// that key.
proof fn lemma_entries_map_push_absent(entries: Seq<(char, usize)>, name: char, value: usize)
    requires
        forall|j: int| 0 <= j < entries.len() ==> (#[trigger] entries[j]).0 != name,
    ensures
        entries_map(entries.push((name, value))) == entries_map(entries).insert(name, value),
    decreases entries.len(),
{
    let pushed = entries.push((name, value));
    assert(pushed.first() == (if entries.len() == 0 {
        (name, value)
    } else {
        entries.first()
    }));
    if entries.len() == 0 {
        assert(pushed.drop_first() =~= Seq::<(char, usize)>::empty());
        assert(entries_map(Seq::<(char, usize)>::empty()) == Map::<char, usize>::empty());
        assert(entries_map(pushed) =~= entries_map(entries).insert(name, value));
    } else {
        assert(pushed.drop_first() =~= entries.drop_first().push((name, value)));
        assert(forall|j: int|
            0 <= j < entries.len() - 1 ==> (#[trigger] entries.drop_first()[j]) == entries[j + 1]);
        lemma_entries_map_push_absent(entries.drop_first(), name, value);
        assert(entries_map(pushed) =~= entries_map(entries).insert(name, value));
    }
}

impl VarStore {
    /// An empty store: no key has been written.
    pub fn new() -> (store: VarStore)
        ensures
            store@ == Map::<char, usize>::empty(),
    {
        VarStore { entries: Vec::new() }
    }

    /// The value recorded under `name`, or `None` where `name` was never
    /// written.
    pub fn get(&self, name: char) -> (r: Option<usize>)
        ensures
            r == (if self@.contains_key(name) {
                Some(self@[name])
            } else {
                Option::<usize>::None
            }),
    {
        let n = self.entries.len();
        let mut i: usize = 0;
        while i < n
            invariant
                i <= n,
                n == self.entries@.len(),
                forall|j: int| 0 <= j < i ==> (#[trigger] self.entries@[j]).0 != name,
            decreases n - i,
        {
            let (key, value) = self.entries[i];
            if key == name {
                proof {
                    lemma_entries_map_first_match(self.entries@, i as int);
                }
                return Some(value);
            }
            i += 1;
        }
        proof {
            lemma_entries_map_absent(self.entries@, name);
        }
        None
    }

    /// Record `value` under `name`, replacing any prior value.
    pub fn set(&mut self, name: char, value: usize)
        ensures
            final(self)@ == old(self)@.insert(name, value),
    {
        let n = self.entries.len();
        let mut i: usize = 0;
        while i < n
            invariant
                i <= n,
                n == self.entries@.len(),
                self.entries@ == old(self).entries@,
                forall|j: int| 0 <= j < i ==> (#[trigger] self.entries@[j]).0 != name,
            decreases n - i,
        {
            let (key, _) = self.entries[i];
            if key == name {
                proof {
                    lemma_entries_map_update_first(self.entries@, i as int, value);
                }
                self.entries.set(i, (name, value));
                return ;
            }
            i += 1;
        }
        proof {
            lemma_entries_map_push_absent(self.entries@, name, value);
        }
        self.entries.push((name, value));
    }
}

} // verus!
