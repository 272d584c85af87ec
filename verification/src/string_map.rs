//! A hash map from text to text.

use vstd::hash_map::StringHashMap;
use vstd::prelude::*;

verus! {

/// A hash map from text to text. A key has one value: the one stored last.
pub struct StringMap {
    entries: StringHashMap<String>,
}

impl View for StringMap {
    type V = Map<Seq<char>, Seq<char>>;

    closed spec fn view(&self) -> Map<Seq<char>, Seq<char>> {
        self.entries@.map_values(|value: String| value@)
    }
}

impl StringMap {
    /// A map without entries.
    pub fn new() -> (res: StringMap)
        ensures
            res@ == Map::<Seq<char>, Seq<char>>::empty(),
    {
        let res = StringMap { entries: StringHashMap::new() };
        assert(res@ =~= Map::<Seq<char>, Seq<char>>::empty());
        res
    }

    /// Stores `value` under `key`, in place of what was stored there.
    pub fn insert(&mut self, key: String, value: String)
        ensures
            final(self)@ == old(self)@.insert(key@, value@),
    {
        self.entries.insert(key, value);
        assert(self@ =~= old(self)@.insert(key@, value@));
    }

    /// What is stored under `key`.
    pub fn get(&self, key: &str) -> (res: Option<&str>)
        ensures
            match res {
                Some(value) => self@.contains_key(key@) && self@[key@] == value@,
                None => !self@.contains_key(key@),
            },
    {
        match self.entries.get(key) {
            Some(value) => Some(value.as_str()),
            None => None,
        }
    }
}

} // verus!
