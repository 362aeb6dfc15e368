//! The registry: serialized record definitions, each under the key it was
//! registered with.

use vstd::prelude::*;

verus! {

/// One write to the registry: a serialized record definition and its key.
#[derive(Debug, PartialEq, Eq)]
pub struct StoreEntry {
    pub key: String,
    pub value: String,
}

/// Why the store could not serve a request.
#[derive(Debug, PartialEq, Eq)]
pub enum StoreError {
    /// Nothing is stored under the key.
    NotFound,
    /// The backing storage did not take the value. An in-memory
    /// [`Registry`] never reports it; a durable store behind it may.
    WriteFailure,
}

/// What a list of entries amounts to: for each key the value of the last
/// entry that carries it.
pub open spec fn latest(entries: Seq<StoreEntry>) -> Map<Seq<char>, Seq<char>>
    decreases entries.len(),
{
    if entries.len() == 0 {
        Map::empty()
    } else {
        latest(entries.drop_last()).insert(entries.last().key@, entries.last().value@)
    }
}

/// A key that no entry carries has no value.
proof fn lemma_latest_absent(entries: Seq<StoreEntry>, key: Seq<char>)
    requires
        forall|j: int| 0 <= j < entries.len() ==> (#[trigger] entries[j]).key@ != key,
    ensures
        !latest(entries).contains_key(key),
    decreases entries.len(),
{
    if entries.len() > 0 {
        let rest = entries.drop_last();
        assert forall|j: int| 0 <= j < rest.len() implies (#[trigger] rest[j]).key@ != key by {
            assert(rest[j] == entries[j]);
        }
        lemma_latest_absent(rest, key);
    }
}

/// The last entry that carries a key gives the key's value.
proof fn lemma_latest_found(entries: Seq<StoreEntry>, at: int)
    requires
        0 <= at < entries.len(),
        forall|j: int| at < j < entries.len() ==> (#[trigger] entries[j]).key@ != entries[at].key@,
    ensures
        latest(entries).contains_key(entries[at].key@),
        latest(entries)[entries[at].key@] == entries[at].value@,
    decreases entries.len(),
{
    if at < entries.len() - 1 {
        let rest = entries.drop_last();
        assert(rest[at] == entries[at]);
        assert forall|j: int| at < j < rest.len() implies (#[trigger] rest[j]).key@
            != rest[at].key@ by {
            assert(rest[j] == entries[j]);
        }
        lemma_latest_found(rest, at);
        assert(entries.last().key@ != entries[at].key@);
    }
}

/// Overwriting the last entry that carries a key is a write under that key.
proof fn lemma_latest_replaced(entries: Seq<StoreEntry>, at: int, entry: StoreEntry)
    requires
        0 <= at < entries.len(),
        entry.key@ == entries[at].key@,
        forall|j: int| at < j < entries.len() ==> (#[trigger] entries[j]).key@ != entry.key@,
    ensures
        latest(entries.update(at, entry)) == latest(entries).insert(entry.key@, entry.value@),
    decreases entries.len(),
{
    let changed = entries.update(at, entry);
    if at == entries.len() - 1 {
        assert(changed.drop_last() =~= entries.drop_last());
        assert(latest(changed) =~= latest(entries).insert(entry.key@, entry.value@));
    } else {
        let rest = entries.drop_last();
        assert(rest[at] == entries[at]);
        assert forall|j: int| at < j < rest.len() implies (#[trigger] rest[j]).key@
            != entry.key@ by {
            assert(rest[j] == entries[j]);
        }
        lemma_latest_replaced(rest, at, entry);
        assert(changed.drop_last() =~= rest.update(at, entry));
        assert(changed.last() == entries.last());
        assert(entries.last().key@ != entry.key@);
        assert(latest(changed) =~= latest(entries).insert(entry.key@, entry.value@));
    }
}

/// An in-memory key-value store of serialized record definitions.
///
/// A later write under a key replaces what an earlier one stored there;
/// writes under other keys leave it alone. Nothing is ever deleted.
pub struct Registry {
    entries: Vec<StoreEntry>,
}

impl View for Registry {
    type V = Map<Seq<char>, Seq<char>>;

    closed spec fn view(&self) -> Map<Seq<char>, Seq<char>> {
        latest(self.entries@)
    }
}

impl Registry {
    /// A registry that holds nothing.
    pub fn new() -> (registry: Registry)
        ensures
            registry@ == Map::<Seq<char>, Seq<char>>::empty(),
    {
        Registry { entries: Vec::new() }
    }

    /// Where the entry stands that decides what is stored under `key`.
    fn position(&self, key: &String) -> (place: Option<usize>)
        ensures
            match place {
                Some(at) => at < self.entries@.len() && self.entries@[at as int].key@ == key@
                    && forall|j: int|
                    at < j < self.entries@.len() ==> (#[trigger] self.entries@[j]).key@ != key@,
                None => forall|j: int|
                    0 <= j < self.entries@.len() ==> (#[trigger] self.entries@[j]).key@ != key@,
            },
    {
        let mut i: usize = self.entries.len();
        while i > 0
            invariant
                i <= self.entries.len(),
                forall|j: int|
                    i <= j < self.entries.len() ==> (#[trigger] self.entries@[j]).key@ != key@,
            decreases i,
        {
            i -= 1;
            if self.entries[i].key == *key {
                return Some(i);
            }
        }
        None
    }

    /// Stores `value` under `key`, in place of whatever was there.
    pub fn write(&mut self, key: &str, value: &str) -> (outcome: Result<(), StoreError>)
        ensures
            outcome is Ok,
            final(self)@ == old(self)@.insert(key@, value@),
    {
        let entry = StoreEntry { key: key.to_owned(), value: value.to_owned() };
        match self.position(&entry.key) {
            Some(at) => {
                proof {
                    lemma_latest_replaced(self.entries@, at as int, entry);
                }
                self.entries.set(at, entry);
            },
            None => {
                self.entries.push(entry);
                proof {
                    assert(self.entries@.drop_last() =~= old(self).entries@);
                }
            },
        }
        Ok(())
    }

    /// Hands out a copy of what is stored under `key`.
    pub fn read(&self, key: &str) -> (outcome: Result<String, StoreError>)
        ensures
            match outcome {
                Ok(value) => self@.contains_key(key@) && value@ == self@[key@],
                Err(error) => !self@.contains_key(key@) && error == StoreError::NotFound,
            },
    {
        let wanted = key.to_owned();
        match self.position(&wanted) {
            Some(at) => {
                proof {
                    lemma_latest_found(self.entries@, at as int);
                }
                Ok(self.entries[at].value.clone())
            },
            None => {
                proof {
                    lemma_latest_absent(self.entries@, key@);
                }
                Err(StoreError::NotFound)
            },
        }
    }
}

} // verus!
