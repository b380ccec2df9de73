//! The keyed store: for each key, the list of records stored under it, in
//! the order they were stored.
use vstd::prelude::*;

use crate::assoc::Assoc;

verus! {

/// One stored record.
#[derive(Clone, Debug, PartialEq)]
pub struct StorageData {
    pub body: Option<String>,
    pub content_type: String,
    pub content_length: usize,
}

/// Records by key.
pub struct Storage {
    records: Assoc<Vec<StorageData>>,
}

/// The list under `key`, empty where there is none.
pub open spec fn list_or_empty(m: Map<Seq<char>, Seq<StorageData>>, key: Seq<char>) -> Seq<
    StorageData,
> {
    if m.contains_key(key) {
        m[key]
    } else {
        Seq::empty()
    }
}

impl View for Storage {
    type V = Map<Seq<char>, Seq<StorageData>>;

    closed spec fn view(&self) -> Map<Seq<char>, Seq<StorageData>> {
        self.records@.map_values(|v: Vec<StorageData>| v@)
    }
}

impl Storage {
    pub closed spec fn wf(&self) -> bool {
        self.records.wf()
    }

    /// An empty store.
    pub fn new() -> (r: Storage)
        ensures
            r.wf(),
            r@ == Map::<Seq<char>, Seq<StorageData>>::empty(),
    {
        let r = Storage { records: Assoc::new() };
        assert(r@ =~= Map::<Seq<char>, Seq<StorageData>>::empty());
        r
    }

    /// The records under `key`, if the key is present.
    pub fn get(&self, key: &str) -> (r: Option<&Vec<StorageData>>)
        requires
            self.wf(),
        ensures
            r matches Some(v) ==> self@.contains_key(key@) && self@[key@] == v@,
            r is None ==> !self@.contains_key(key@),
    {
        self.records.get(key)
    }

    /// Appends `record` to the list under `key`, creating the key if absent;
    /// returns the new length of the list.
    pub fn post(&mut self, key: &str, record: StorageData) -> (r: usize)
        requires
            old(self).wf(),
            list_or_empty(old(self)@, key@).len() < usize::MAX,
        ensures
            final(self).wf(),
            final(self)@ == old(self)@.insert(key@, list_or_empty(old(self)@, key@).push(record)),
            r == list_or_empty(old(self)@, key@).len() + 1,
    {
        let mut list = match self.records.remove(key) {
            Some(l) => l,
            None => Vec::new(),
        };
        list.push(record);
        let n = list.len();
        self.records.insert(String::from_str(key), list);
        assert(self@ =~= old(self)@.insert(key@, list_or_empty(old(self)@, key@).push(record)));
        n
    }

    /// Removes `key` with its whole list; tells whether it was present.
    pub fn delete(&mut self, key: &str) -> (r: bool)
        requires
            old(self).wf(),
        ensures
            final(self).wf(),
            final(self)@ == old(self)@.remove(key@),
            r == old(self)@.contains_key(key@),
    {
        let r = self.records.remove(key);
        assert(self@ =~= old(self)@.remove(key@));
        r.is_some()
    }
}

} // verus!
