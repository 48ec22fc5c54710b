//! The store: values kept in memory under their keys.
use crate::protocol::set::{SetRequest, SetView};
use vstd::hash_map::StringHashMap;
use vstd::prelude::*;

verus! {

/// The value kept under a key, if there is one.
pub open spec fn stored(entries: Map<Seq<char>, Seq<char>>, key: Seq<char>) -> Option<Seq<char>> {
    if entries.contains_key(key) {
        Some(entries[key])
    } else {
        None
    }
}

/// The entries after a `SET` request: the value stands under the key, in
/// place of what was there; the time to live is not kept.
pub open spec fn written(entries: Map<Seq<char>, Seq<char>>, request: SetView) -> Map<
    Seq<char>,
    Seq<char>,
> {
    entries.insert(request.key, request.value)
}

/// The entries after a list of `SET` requests on an empty store, the first
/// request first.
pub open spec fn replayed(requests: Seq<SetView>) -> Map<Seq<char>, Seq<char>>
    decreases requests.len(),
{
    if requests.len() == 0 {
        Map::empty()
    } else {
        written(replayed(requests.drop_last()), requests.last())
    }
}

/// A value as plain text, where there is one.
pub open spec fn text_of(value: Option<String>) -> Option<Seq<char>> {
    match value {
        Some(text) => Some(text@),
        None => None,
    }
}

/// A store of string values under string keys.
pub struct Storage {
    inner: StringHashMap<String>,
}

impl View for Storage {
    type V = Map<Seq<char>, Seq<char>>;

    closed spec fn view(&self) -> Map<Seq<char>, Seq<char>> {
        self.inner@.map_values(|value: String| value@)
    }
}

impl Storage {
    /// An empty store.
    pub fn new() -> (storage: Storage)
        ensures
            storage@ == Map::<Seq<char>, Seq<char>>::empty(),
    {
        let storage = Storage { inner: StringHashMap::new() };
        assert(storage@ =~= Map::<Seq<char>, Seq<char>>::empty());
        storage
    }

    /// A copy of the value kept under a key, or nothing where the key was
    /// never written.
    pub fn get(&self, key: &str) -> (value: Option<String>)
        ensures
            text_of(value) == stored(self@, key@),
    {
        match self.inner.get(key) {
            Some(value) => Some(value.clone()),
            None => None,
        }
    }

    /// Keeps the value of the request under its key, in place of any value
    /// that was there.
    pub fn set(&mut self, request: SetRequest)
        ensures
            final(self)@ == written(old(self)@, request@),
    {
        self.inner.insert(request.key, request.value);
        assert(self@ =~= written(old(self)@, request@));
    }
}

/// A key that no request wrote is absent from the store.
pub proof fn lemma_unwritten_key_is_absent(requests: Seq<SetView>, key: Seq<char>)
    requires
        forall|i: int| 0 <= i < requests.len() ==> (#[trigger] requests[i]).key != key,
    ensures
        stored(replayed(requests), key) is None,
    decreases requests.len(),
{
    if requests.len() > 0 {
        let earlier = requests.drop_last();
        assert forall|i: int| 0 <= i < earlier.len() implies (#[trigger] earlier[i]).key != key by {
            assert(earlier[i] == requests[i]);
        }
        lemma_unwritten_key_is_absent(earlier, key);
    }
}

/// After a list of requests, a key holds the value of the last request that
/// wrote it, whatever was written before and whatever other keys were
/// written after.
pub proof fn lemma_last_write_wins(requests: Seq<SetView>, last: int)
    requires
        0 <= last < requests.len(),
        forall|i: int| last < i < requests.len() ==> (#[trigger] requests[i]).key != requests[last].key,
    ensures
        stored(replayed(requests), requests[last].key) == Some(requests[last].value),
    decreases requests.len(),
{
    if last < requests.len() - 1 {
        let earlier = requests.drop_last();
        assert(earlier[last] == requests[last]);
        assert forall|i: int| last < i < earlier.len() implies (#[trigger] earlier[i]).key
            != earlier[last].key by {
            assert(earlier[i] == requests[i]);
        }
        lemma_last_write_wins(earlier, last);
    }
}

/// A value that was written is what a read of its key gives; a read of any
/// other key gives what it gave before.
pub proof fn lemma_read_after_write(
    entries: Map<Seq<char>, Seq<char>>,
    request: SetView,
    key: Seq<char>,
)
    ensures
        stored(written(entries, request), request.key) == Some(request.value),
        key != request.key ==> stored(written(entries, request), key) == stored(entries, key),
{
}

/// A second write to a key replaces the first: the store is as if the first
/// had never been made.
pub proof fn lemma_write_overwrites(
    entries: Map<Seq<char>, Seq<char>>,
    first: SetView,
    second: SetView,
)
    requires
        first.key == second.key,
    ensures
        written(written(entries, first), second) == written(entries, second),
        stored(written(written(entries, first), second), second.key) == Some(second.value),
{
    assert(written(written(entries, first), second) =~= written(entries, second));
}

} // verus!
