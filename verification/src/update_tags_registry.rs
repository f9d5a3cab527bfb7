use vstd::prelude::*;

use crate::nbt::{lemma_entries_of, nbt_of, Nbt, NbtCompound, NbtItems, NbtList, NbtValue};
use crate::resource_selection::{
    first_claiming, lemma_closed_ladder_selects, lemma_first_claiming_from, tag_ladder, tag_rungs,
    ResourceSelection,
};
use crate::version_match::VersionMatch;
use crate::tag_entry::TagEntry;
use crate::tag_registry::TagRegistry;
use crate::update_tags_error::{TagsFailure, UpdateTagsError};
use crate::version::ProtocolVersion;

verus! {

/// The entry ids a tag's value holds: a list of ints, or the empty list, which NBT types
/// as a list of nothing.
pub open spec fn entry_ids_of(value: Nbt) -> Option<Seq<i32>> {
    match value {
        Nbt::List(NbtItems::Int(ids)) => Some(ids),
        Nbt::List(NbtItems::End) => Some(Seq::empty()),
        _ => None,
    }
}

/// The tags of one registry, in order, or the first tag whose value is not a list of
/// ints.
pub open spec fn tags_of(registry: Seq<char>, tags: Seq<(Seq<char>, Nbt)>) -> Result<
    Seq<(Seq<char>, Seq<i32>)>,
    TagsFailure,
>
    decreases tags.len(),
{
    if tags.len() == 0 {
        Ok(Seq::empty())
    } else {
        match tags_of(registry, tags.drop_last()) {
            Err(failure) => Err(failure),
            Ok(done) => match entry_ids_of(tags.last().1) {
                Some(ids) => Ok(done.push((tags.last().0, ids))),
                None => Err(TagsFailure::TagNotIntList(registry, tags.last().0)),
            },
        }
    }
}

/// A tag set flattened into registries, their tags and the entry ids of each tag, all in
/// the order the set declares them; or the first registry or tag of the wrong shape.
pub open spec fn update_tags_of(tag_set: Seq<(Seq<char>, Nbt)>) -> Result<
    Seq<(Seq<char>, Seq<(Seq<char>, Seq<i32>)>)>,
    TagsFailure,
>
    decreases tag_set.len(),
{
    if tag_set.len() == 0 {
        Ok(Seq::empty())
    } else {
        let registry = tag_set.last().0;
        match update_tags_of(tag_set.drop_last()) {
            Err(failure) => Err(failure),
            Ok(done) => match tag_set.last().1 {
                Nbt::Compound(tags) => match tags_of(registry, tags) {
                    Ok(parsed) => Ok(done.push((registry, parsed))),
                    Err(failure) => Err(failure),
                },
                _ => Err(TagsFailure::RegistryNotCompound(registry)),
            },
        }
    }
}

/// Flattening keeps a registry's tags in the order the registry declares them, each with
/// the ids its value holds.
pub proof fn lemma_tags_keep_their_order(registry: Seq<char>, tags: Seq<(Seq<char>, Nbt)>)
    ensures
        tags_of(registry, tags) matches Ok(parsed) ==> parsed.len() == tags.len() && forall|i: int|
            0 <= i < tags.len() ==> (#[trigger] parsed[i]).0 == tags[i].0 && entry_ids_of(tags[i].1)
                == Some(parsed[i].1),
    decreases tags.len(),
{
    if tags.len() > 0 {
        lemma_tags_keep_their_order(registry, tags.drop_last());
    }
}

/// Flattening keeps the registries in the order the tag set declares them, each with its
/// tags flattened.
pub proof fn lemma_registries_keep_their_order(tag_set: Seq<(Seq<char>, Nbt)>)
    ensures
        update_tags_of(tag_set) matches Ok(parsed) ==> parsed.len() == tag_set.len() && forall|
            i: int,
        |
            0 <= i < tag_set.len() ==> (#[trigger] parsed[i]).0 == tag_set[i].0 && (
            tag_set[i].1 matches Nbt::Compound(tags) && tags_of(tag_set[i].0, tags) == Ok::<
                Seq<(Seq<char>, Seq<i32>)>,
                TagsFailure,
            >(parsed[i].1)),
    decreases tag_set.len(),
{
    if tag_set.len() > 0 {
        lemma_registries_keep_their_order(tag_set.drop_last());
    }
}

fn copy_ids(ids: &Vec<i32>) -> (copy: Vec<i32>)
    ensures
        copy@ == ids@,
{
    let mut copy: Vec<i32> = Vec::new();
    let mut index: usize = 0;
    while index < ids.len()
        invariant
            0 <= index <= ids@.len(),
            copy@ == ids@.take(index as int),
        decreases ids@.len() - index,
    {
        copy.push(ids[index]);
        proof {
            assert(ids@.take(index + 1) =~= ids@.take(index as int).push(ids@[index as int]));
        }
        index += 1;
    }
    proof {
        assert(ids@.take(index as int) =~= ids@);
    }
    copy
}

fn parse_entry_ids(tag_value: &NbtValue, registry_key: &String, tag_key: &String) -> (ids: Result<
    Vec<i32>,
    UpdateTagsError,
>)
    ensures
        match entry_ids_of(tag_value@) {
            Some(expected) => ids matches Ok(found) && found@ == expected,
            None => ids matches Err(failure) && failure@ == TagsFailure::TagNotIntList(
                registry_key@,
                tag_key@,
            ),
        },
{
    match tag_value {
        NbtValue::List(NbtList::Int(entry_ids)) => Ok(copy_ids(entry_ids)),
        // An empty NBT list carries no element type, so a tag with no members is
        // indistinguishable from a list of another type by its tag id alone.
        NbtValue::List(NbtList::End) => Ok(Vec::new()),
        _ => Err(
            UpdateTagsError::TagNotIntList { registry: registry_key.clone(), tag: tag_key.clone() },
        ),
    }
}

fn parse_tags(registry_key: &String, tags: &NbtCompound) -> (parsed: Result<
    Vec<TagEntry>,
    UpdateTagsError,
>)
    ensures
        match tags_of(registry_key@, tags@) {
            Ok(expected) => parsed matches Ok(entries) && entries@.map_values(
                |entry: TagEntry| entry@,
            ) == expected,
            Err(failure) => parsed matches Err(error) && error@ == failure,
        },
{
    proof {
        lemma_entries_of(tags.entries@);
    }
    let ghost model = tags@;
    let mut entries: Vec<TagEntry> = Vec::new();
    let mut index: usize = 0;
    proof {
        assert(model.take(0) =~= Seq::<(Seq<char>, Nbt)>::empty());
        assert(entries@.map_values(|entry: TagEntry| entry@) =~= Seq::<(Seq<char>, Seq<i32>)>::empty());
    }
    while index < tags.entries.len()
        invariant
            0 <= index <= tags.entries@.len(),
            model == tags@,
            model.len() == tags.entries@.len(),
            forall|i: int|
                0 <= i < tags.entries@.len() ==> #[trigger] model[i] == (
                    tags.entries@[i].0@,
                    nbt_of(tags.entries@[i].1),
                ),
            tags_of(registry_key@, model.take(index as int)) == Ok::<
                Seq<(Seq<char>, Seq<i32>)>,
                TagsFailure,
            >(entries@.map_values(|entry: TagEntry| entry@)),
        decreases tags.entries@.len() - index,
    {
        proof {
            assert(model.take(index + 1).drop_last() =~= model.take(index as int));
        }
        let entry = &tags.entries[index];
        let ids = match parse_entry_ids(&entry.1, registry_key, &entry.0) {
            Ok(ids) => ids,
            Err(error) => {
                proof {
                    lemma_tags_of_prefix(registry_key@, model, index + 1);
                }
                return Err(error);
            },
        };
        let ghost before = entries@;
        entries.push(TagEntry::new(entry.0.clone(), ids));
        proof {
            assert(entries@.map_values(|e: TagEntry| e@) =~= before.map_values(|e: TagEntry| e@).push(
                entries@.last()@,
            ));
        }
        index += 1;
    }
    proof {
        assert(model.take(index as int) =~= model);
    }
    Ok(entries)
}

/// Once a prefix of the tags fails, the whole registry fails the same way.
proof fn lemma_tags_of_prefix(registry: Seq<char>, tags: Seq<(Seq<char>, Nbt)>, n: int)
    requires
        0 <= n <= tags.len(),
        tags_of(registry, tags.take(n)) is Err,
    ensures
        tags_of(registry, tags) == tags_of(registry, tags.take(n)),
    decreases tags.len(),
{
    if n < tags.len() {
        assert(tags.drop_last().take(n) =~= tags.take(n));
        lemma_tags_of_prefix(registry, tags.drop_last(), n);
    } else {
        assert(tags.take(n) =~= tags);
    }
}

/// Once a prefix of the tag set fails, the whole set fails the same way.
proof fn lemma_update_tags_of_prefix(tag_set: Seq<(Seq<char>, Nbt)>, n: int)
    requires
        0 <= n <= tag_set.len(),
        update_tags_of(tag_set.take(n)) is Err,
    ensures
        update_tags_of(tag_set) == update_tags_of(tag_set.take(n)),
    decreases tag_set.len(),
{
    if n < tag_set.len() {
        assert(tag_set.drop_last().take(n) =~= tag_set.take(n));
        lemma_update_tags_of_prefix(tag_set.drop_last(), n);
    } else {
        assert(tag_set.take(n) =~= tag_set);
    }
}

/// Flattens a tag resource into registries, their tags and the entry ids each tag holds,
/// keeping the order the resource declares them in.
///
/// The packet is a set of tags that the client indexes by key, so any order is correct;
/// keeping the declared one makes the payload the same on every run.
pub fn parse_update_tags(tag_set: &NbtCompound) -> (parsed: Result<
    Vec<TagRegistry>,
    UpdateTagsError,
>)
    ensures
        match update_tags_of(tag_set@) {
            Ok(expected) => parsed matches Ok(registries) && registries@.map_values(
                |registry: TagRegistry| registry@,
            ) == expected,
            Err(failure) => parsed matches Err(error) && error@ == failure,
        },
{
    proof {
        lemma_entries_of(tag_set.entries@);
    }
    let ghost model = tag_set@;
    let mut registries: Vec<TagRegistry> = Vec::new();
    let mut index: usize = 0;
    proof {
        assert(model.take(0) =~= Seq::<(Seq<char>, Nbt)>::empty());
        assert(registries@.map_values(|registry: TagRegistry| registry@) =~= Seq::<
            (Seq<char>, Seq<(Seq<char>, Seq<i32>)>),
        >::empty());
    }
    while index < tag_set.entries.len()
        invariant
            0 <= index <= tag_set.entries@.len(),
            model == tag_set@,
            model.len() == tag_set.entries@.len(),
            forall|i: int|
                0 <= i < tag_set.entries@.len() ==> #[trigger] model[i] == (
                    tag_set.entries@[i].0@,
                    nbt_of(tag_set.entries@[i].1),
                ),
            update_tags_of(model.take(index as int)) == Ok::<
                Seq<(Seq<char>, Seq<(Seq<char>, Seq<i32>)>)>,
                TagsFailure,
            >(registries@.map_values(|registry: TagRegistry| registry@)),
        decreases tag_set.entries@.len() - index,
    {
        proof {
            assert(model.take(index + 1).drop_last() =~= model.take(index as int));
        }
        let entry = &tag_set.entries[index];
        let tags = match &entry.1 {
            NbtValue::Compound(tags) => tags,
            _ => {
                proof {
                    lemma_update_tags_of_prefix(model, index + 1);
                }
                return Err(UpdateTagsError::RegistryNotCompound { registry: entry.0.clone() });
            },
        };
        let parsed = match parse_tags(&entry.0, tags) {
            Ok(parsed) => parsed,
            Err(error) => {
                proof {
                    lemma_update_tags_of_prefix(model, index + 1);
                }
                return Err(error);
            },
        };
        let ghost before = registries@;
        registries.push(TagRegistry::new(entry.0.clone(), parsed));
        proof {
            assert(registries@.map_values(|r: TagRegistry| r@) =~= before.map_values(
                |r: TagRegistry| r@,
            ).push(registries@.last()@));
        }
        index += 1;
    }
    proof {
        assert(model.take(index as int) =~= model);
    }
    Ok(registries)
}

/// Every registry tag set the server can send, one per rung of the tag ladder.
pub struct UpdateTagsRegistry {
    tag_sets: Vec<NbtCompound>,
}

impl View for UpdateTagsRegistry {
    /// The tag sets, in ladder order.
    type V = Seq<Seq<(Seq<char>, Nbt)>>;

    closed spec fn view(&self) -> Seq<Seq<(Seq<char>, Nbt)>> {
        crate::nbt::compounds_of(self.tag_sets@)
    }
}

/// The Update Tags payload a client of `version` receives from these tag sets.
pub open spec fn tags_payload(tag_sets: Seq<Seq<(Seq<char>, Nbt)>>, version: ProtocolVersion) -> Result<
    Seq<(Seq<char>, Seq<(Seq<char>, Seq<i32>)>)>,
    TagsFailure,
> {
    match first_claiming(tag_rungs(), version) {
        Some(rung) => if rung < tag_sets.len() {
            update_tags_of(tag_sets[rung])
        } else {
            Err(TagsFailure::NoTagSet(version))
        },
        None => Err(TagsFailure::NoTagSet(version)),
    }
}

/// With one tag set for each rung of the tag ladder, every supported version receives the
/// flattening of its own rung's set; none is left without one.
pub proof fn lemma_every_version_has_a_tag_set(
    tag_sets: Seq<Seq<(Seq<char>, Nbt)>>,
    version: ProtocolVersion,
)
    requires
        tag_sets.len() == tag_rungs().len(),
    ensures
        first_claiming(tag_rungs(), version) matches Some(rung) && tags_payload(tag_sets, version)
            == update_tags_of(tag_sets[rung]),
{
    assert(tag_rungs().last().version_match == VersionMatch::Any);
    lemma_closed_ladder_selects(tag_rungs(), version);
    lemma_first_claiming_from(tag_rungs(), version, 0);
}

impl UpdateTagsRegistry {
    /// Holds the decoded tag sets, one per rung of the tag ladder, in ladder order.
    pub fn new(tag_sets: Vec<NbtCompound>) -> (registry: UpdateTagsRegistry)
        ensures
            registry@ == crate::nbt::compounds_of(tag_sets@),
    {
        UpdateTagsRegistry { tag_sets }
    }

    /// The Update Tags payload this protocol version receives.
    pub fn tags_for(&self, version: ProtocolVersion) -> (tags: Result<
        Vec<TagRegistry>,
        UpdateTagsError,
    >)
        ensures
            match tags_payload(self@, version) {
                Ok(expected) => tags matches Ok(registries) && registries@.map_values(
                    |registry: TagRegistry| registry@,
                ) == expected,
                Err(failure) => tags matches Err(error) && error@ == failure,
            },
    {
        proof {
            crate::nbt::lemma_compounds_of(self.tag_sets@);
        }
        let ladder = tag_ladder();
        match ResourceSelection::select(ladder.as_slice(), version) {
            Some(rung) => {
                if rung < self.tag_sets.len() {
                    parse_update_tags(&self.tag_sets[rung])
                } else {
                    Err(UpdateTagsError::NoTagSet { version })
                }
            },
            None => Err(UpdateTagsError::NoTagSet { version }),
        }
    }
}

} // verus!
