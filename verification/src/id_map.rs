//! Maps and sets keyed by commit, kept in the order in which keys came in.

use vstd::prelude::*;

use crate::commit::CommitId;
use crate::commit::Id;
use crate::commit::ids;

verus! {

/// A map from commits to values. No key occurs twice.
pub struct IdMap<V> {
    entries: Vec<(CommitId, V)>,
}

/// The keys of a list of entries.
spec fn entry_keys<V>(entries: Seq<(CommitId, V)>) -> Seq<Id> {
    entries.map_values(|entry: (CommitId, V)| entry.0@)
}

/// The map that a list of entries spells out, later entries winning.
spec fn entry_map<V>(entries: Seq<(CommitId, V)>) -> Map<Id, V>
    decreases entries.len(),
{
    if entries.len() == 0 {
        Map::empty()
    } else {
        entry_map(entries.drop_last()).insert(entries.last().0@, entries.last().1)
    }
}

proof fn lemma_entry_map<V>(entries: Seq<(CommitId, V)>)
    ensures
        entry_map(entries).dom().finite(),
        entry_map(entries).dom() == entry_keys(entries).to_set(),
        entry_keys(entries).no_duplicates() ==> forall|i: int|
            0 <= i < entries.len() ==> entry_map(entries)[(#[trigger] entries[i]).0@]
                == entries[i].1,
    decreases entries.len(),
{
    if entries.len() == 0 {
        assert(entry_map(entries).dom() =~= entry_keys(entries).to_set());
    } else {
        let front = entries.drop_last();
        lemma_entry_map(front);
        let keys = entry_keys(entries);
        assert(entry_keys(front) =~= keys.drop_last());
        assert(entry_map(entries).dom() =~= keys.to_set()) by {
            assert forall|k: Id| keys.contains(k) implies entry_map(entries).contains_key(k) by {
                let i = keys.index_of(k);
                if i < front.len() {
                    assert(entry_keys(front)[i] == k);
                    assert(entry_keys(front).contains(k));
                }
            }
            assert forall|k: Id| entry_map(entries).contains_key(k) implies keys.contains(k) by {
                if k == entries.last().0@ {
                    assert(keys[keys.len() - 1] == k);
                } else {
                    assert(entry_keys(front).contains(k));
                    let i = entry_keys(front).index_of(k);
                    assert(keys[i] == k);
                }
            }
        }
        if keys.no_duplicates() {
            assert(entry_keys(front).no_duplicates());
            assert forall|i: int| 0 <= i < entries.len() implies entry_map(
                entries,
            )[(#[trigger] entries[i]).0@] == entries[i].1 by {
                if i < front.len() {
                    assert(front[i] == entries[i]);
                    assert(keys[i] != keys[keys.len() - 1]);
                }
            }
        }
    }
}

impl<V> View for IdMap<V> {
    type V = Map<Id, V>;

    closed spec fn view(&self) -> Map<Id, V> {
        entry_map(self.entries@)
    }
}

impl<V> IdMap<V> {
    /// The keys, in the order in which they came in.
    pub closed spec fn keys(self) -> Seq<Id> {
        entry_keys(self.entries@)
    }

    /// No key occurs twice.
    pub closed spec fn wf(self) -> bool {
        self.keys().no_duplicates()
    }

    /// What the keys say of the map.
    pub proof fn lemma_keys(self)
        requires
            self.wf(),
        ensures
            self.keys().no_duplicates(),
            self@.dom().finite(),
            self@.dom() == self.keys().to_set(),
    {
        lemma_entry_map(self.entries@);
    }

    /// A map without entries.
    pub fn new() -> (map: IdMap<V>)
        ensures
            map.wf(),
            map@ == Map::<Id, V>::empty(),
            map.keys() == Seq::<Id>::empty(),
    {
        let map = IdMap { entries: Vec::new() };
        assert(map.keys() =~= Seq::<Id>::empty());
        map
    }

    /// The number of entries.
    pub fn len(&self) -> (len: usize)
        ensures
            len == self.keys().len(),
    {
        self.entries.len()
    }

    /// The key that came in at place `i`.
    pub fn key_at(&self, i: usize) -> (key: &CommitId)
        requires
            i < self.keys().len(),
        ensures
            key@ == self.keys()[i as int],
    {
        &self.entries[i].0
    }

    /// The value of the key that came in at place `i`.
    pub fn value_at(&self, i: usize) -> (value: &V)
        requires
            self.wf(),
            i < self.keys().len(),
        ensures
            self@.contains_key(self.keys()[i as int]),
            *value == self@[self.keys()[i as int]],
    {
        proof {
            lemma_entry_map(self.entries@);
            assert(self.keys().contains(self.keys()[i as int]));
            assert(self.entries@[i as int].0@ == self.keys()[i as int]);
        }
        &self.entries[i].1
    }

    fn position(&self, key: &CommitId) -> (at: Option<usize>)
        ensures
            at matches Some(i) ==> i < self.entries.len() && self.keys()[i as int] == key@,
            at is None ==> !self.keys().contains(key@),
    {
        let mut i: usize = 0;
        while i < self.entries.len()
            invariant
                i <= self.entries.len(),
                forall|j: int| 0 <= j < i ==> self.keys()[j] != key@,
            decreases self.entries.len() - i,
        {
            if self.entries[i].0.same(key) {
                return Some(i);
            }
            i += 1;
        }
        None
    }

    /// Tells whether the map has the key.
    pub fn contains_key(&self, key: &CommitId) -> (found: bool)
        requires
            self.wf(),
        ensures
            found == self@.contains_key(key@),
    {
        proof {
            lemma_entry_map(self.entries@);
        }
        match self.position(key) {
            Some(i) => {
                assert(self.keys()[i as int] == key@);
                assert(self.keys().contains(key@));
                true
            },
            None => false,
        }
    }

    /// The value of a key.
    pub fn get(&self, key: &CommitId) -> (value: Option<&V>)
        requires
            self.wf(),
        ensures
            self@.contains_key(key@) ==> value == Some(&self@[key@]),
            !self@.contains_key(key@) ==> value is None,
    {
        proof {
            lemma_entry_map(self.entries@);
        }
        match self.position(key) {
            Some(i) => {
                assert(self.entries@[i as int].0@ == self.keys()[i as int]);
                assert(self.keys().contains(key@));
                Some(&self.entries[i].1)
            },
            None => None,
        }
    }

    /// Gives a key a value: a new key comes in last, a known one keeps its
    /// place.
    pub fn insert(&mut self, key: CommitId, value: V)
        requires
            old(self).wf(),
        ensures
            final(self).wf(),
            final(self)@ == old(self)@.insert(key@, value),
            final(self).keys() == if old(self)@.contains_key(key@) {
                old(self).keys()
            } else {
                old(self).keys().push(key@)
            },
    {
        proof {
            lemma_entry_map(self.entries@);
        }
        let ghost before = self.entries@;
        match self.position(&key) {
            Some(i) => {
                assert(entry_keys(before)[i as int] == key@);
                assert(entry_keys(before).contains(key@));
                self.entries[i] = (key, value);
                proof {
                    assert(entry_keys(self.entries@) =~= entry_keys(before));
                    lemma_entry_map(self.entries@);
                    lemma_same_entries(
                        entry_map(self.entries@),
                        self.entries@,
                        entry_map(before).insert(key@, value),
                        before,
                        i as int,
                    );
                }
            },
            None => {
                self.entries.push((key, value));
                assert(self.entries@.drop_last() =~= before);
                assert(entry_keys(self.entries@) =~= entry_keys(before).push(key@));
            },
        }
    }
}

proof fn lemma_same_entries<V>(
    after: Map<Id, V>,
    new: Seq<(CommitId, V)>,
    expected: Map<Id, V>,
    old_entries: Seq<(CommitId, V)>,
    i: int,
)
    requires
        0 <= i < old_entries.len(),
        new.len() == old_entries.len(),
        forall|j: int| 0 <= j < new.len() && j != i ==> new[j] == old_entries[j],
        entry_keys(new) == entry_keys(old_entries),
        entry_keys(new).no_duplicates(),
        after == entry_map(new),
        expected == entry_map(old_entries).insert(new[i].0@, new[i].1),
    ensures
        after == expected,
{
    lemma_entry_map(new);
    lemma_entry_map(old_entries);
    assert(entry_keys(new)[i] == entry_keys(old_entries)[i]);
    assert(entry_keys(new).contains(new[i].0@));
    assert(after.dom() =~= expected.dom());
    assert forall|k: Id| after.contains_key(k) implies after[k] == expected[k] by {
        let j = entry_keys(new).index_of(k);
        assert(new[j].0@ == k);
        assert(entry_keys(old_entries)[j] == k);
        assert(old_entries[j].0@ == k);
        if j != i {
            assert(entry_keys(new)[j] != entry_keys(new)[i]);
        }
    }
    assert(after =~= expected);
}

/// The lists of identifiers that a map holds.
pub open spec fn id_lists(map: Map<Id, Vec<CommitId>>) -> Map<Id, Seq<Id>> {
    map.map_values(|list: Vec<CommitId>| ids(list@))
}

impl IdMap<Vec<CommitId>> {
    /// Adds an identifier at the end of the list of a known key.
    pub fn push_to(&mut self, key: &CommitId, item: CommitId)
        requires
            old(self).wf(),
            old(self)@.contains_key(key@),
        ensures
            final(self).wf(),
            final(self).keys() == old(self).keys(),
            id_lists(final(self)@) == id_lists(old(self)@).insert(
                key@,
                id_lists(old(self)@)[key@].push(item@),
            ),
    {
        let mut list: Vec<CommitId> = match self.get(key) {
            Some(found) => crate::commit::clone_ids(found),
            None => Vec::new(),
        };
        list.push(item);
        assert(ids(list@) =~= id_lists(self@)[key@].push(item@));
        self.insert(key.clone(), list);
        assert(id_lists(self@) =~= id_lists(old(self)@).insert(
            key@,
            id_lists(old(self)@)[key@].push(item@),
        ));
    }
}

/// A set of commits. Nothing occurs in it twice.
pub struct IdSet {
    items: Vec<CommitId>,
}

impl View for IdSet {
    type V = Set<Id>;

    closed spec fn view(&self) -> Set<Id> {
        ids(self.items@).to_set()
    }
}

impl IdSet {
    /// No member is held twice.
    pub closed spec fn wf(self) -> bool {
        ids(self.items@).no_duplicates()
    }

    /// A set without members.
    pub fn new() -> (set: IdSet)
        ensures
            set.wf(),
            set@ == Set::<Id>::empty(),
    {
        let set = IdSet { items: Vec::new() };
        assert(set@ =~= Set::<Id>::empty());
        set
    }

    /// Tells whether a commit is a member.
    pub fn contains(&self, item: &CommitId) -> (found: bool)
        ensures
            found == self@.contains(item@),
    {
        let mut i: usize = 0;
        while i < self.items.len()
            invariant
                i <= self.items.len(),
                forall|j: int| 0 <= j < i ==> ids(self.items@)[j] != item@,
            decreases self.items.len() - i,
        {
            if self.items[i].same(item) {
                assert(ids(self.items@)[i as int] == item@);
                return true;
            }
            i += 1;
        }
        false
    }

    /// Makes a commit a member.
    pub fn insert(&mut self, item: CommitId)
        requires
            old(self).wf(),
        ensures
            final(self).wf(),
            final(self)@ == old(self)@.insert(item@),
    {
        let ghost before = ids(self.items@);
        if self.contains(&item) {
            assert(self@ =~= old(self)@.insert(item@));
        } else {
            self.items.push(item);
            let ghost after = ids(self.items@);
            proof {
                assert(after =~= before.push(item@));
                assert(after.to_set() =~= before.to_set().insert(item@)) by {
                    before.lemma_push_to_set_commute(item@);
                }
            }
        }
    }
}

} // verus!
