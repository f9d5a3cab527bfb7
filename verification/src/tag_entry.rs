use vstd::prelude::*;

verus! {

/// One tag: its namespaced key and the registry entry ids it groups.
pub struct TagEntry {
    key: String,
    entry_ids: Vec<i32>,
}

impl View for TagEntry {
    type V = (Seq<char>, Seq<i32>);

    closed spec fn view(&self) -> (Seq<char>, Seq<i32>) {
        (self.key@, self.entry_ids@)
    }
}

impl TagEntry {
    pub fn new(key: String, entry_ids: Vec<i32>) -> (entry: TagEntry)
        ensures
            entry@ == (key@, entry_ids@),
    {
        TagEntry { key, entry_ids }
    }

    pub fn key(&self) -> (key: &str)
        ensures
            key@ == self@.0,
    {
        self.key.as_str()
    }

    /// Ids of the registry entries in this tag. Legitimately empty: vanilla ships tags
    /// such as `minecraft:incorrect_for_diamond_tool` with no members at all.
    pub fn entry_ids(&self) -> (ids: &[i32])
        ensures
            ids@ == self@.1,
    {
        self.entry_ids.as_slice()
    }
}

} // verus!
