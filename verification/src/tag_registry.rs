use vstd::prelude::*;

use crate::tag_entry::TagEntry;

verus! {

/// Every tag defined for one registry, in the order the resource declares them.
pub struct TagRegistry {
    key: String,
    tags: Vec<TagEntry>,
}

impl View for TagRegistry {
    type V = (Seq<char>, Seq<(Seq<char>, Seq<i32>)>);

    closed spec fn view(&self) -> (Seq<char>, Seq<(Seq<char>, Seq<i32>)>) {
        (self.key@, self.tags@.map_values(|tag: TagEntry| tag@))
    }
}

impl TagRegistry {
    pub fn new(key: String, tags: Vec<TagEntry>) -> (registry: TagRegistry)
        ensures
            registry@ == (key@, tags@.map_values(|tag: TagEntry| tag@)),
    {
        TagRegistry { key, tags }
    }

    /// Registry this group of tags belongs to, for example `minecraft:block`.
    pub fn key(&self) -> (key: &str)
        ensures
            key@ == self@.0,
    {
        self.key.as_str()
    }

    pub fn tags(&self) -> (tags: &[TagEntry])
        ensures
            tags@.map_values(|tag: TagEntry| tag@) == self@.1,
    {
        self.tags.as_slice()
    }
}

} // verus!
