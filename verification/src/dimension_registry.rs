use vstd::prelude::*;

use std::sync::Arc;

use crate::dimension::{Dimension, DimensionModel};
use crate::nbt::{
    compounds_of, copy_compound, lemma_compounds_of, lookup, Nbt, NbtCompound, NbtItems, NbtList,
    NbtValue,
};
use crate::nbt_number::{as_i32, nbt_as_i32};
use crate::resource_selection::{
    codec_ladder, codec_rungs, first_claiming, lemma_closed_ladder_selects,
    lemma_first_claiming_from, ResourceSelection,
};
use crate::version_match::VersionMatch;
use crate::strs::str_equal;
use crate::version::ProtocolVersion;

verus! {

/// The text of a string field.
pub open spec fn string_field_of(compound: Seq<(Seq<char>, Nbt)>, key: Seq<char>) -> Option<
    Seq<char>,
> {
    match lookup(compound, key) {
        Some(Nbt::Str(text)) => Some(text),
        _ => None,
    }
}

/// A numeric field read as an `i32`; an absent or non-numeric field reads as zero.
pub open spec fn int_field_or_zero_of(compound: Seq<(Seq<char>, Nbt)>, key: Seq<char>) -> i32 {
    match lookup(compound, key) {
        Some(value) => match nbt_as_i32(value) {
            Some(number) => number,
            None => 0,
        },
        None => 0,
    }
}

/// A nested compound field.
pub open spec fn compound_field_of(compound: Seq<(Seq<char>, Nbt)>, key: Seq<char>) -> Option<
    Seq<(Seq<char>, Nbt)>,
> {
    match lookup(compound, key) {
        Some(Nbt::Compound(nested)) => Some(nested),
        _ => None,
    }
}

/// A list of compounds; an absent or differently typed field reads as the empty list.
pub open spec fn compound_list_of(compound: Seq<(Seq<char>, Nbt)>, key: Seq<char>) -> Seq<
    Seq<(Seq<char>, Nbt)>,
> {
    match lookup(compound, key) {
        Some(Nbt::List(NbtItems::Compound(entries))) => entries,
        _ => Seq::empty(),
    }
}

/// The list a codec keeps its dimension types in: `value` under
/// `minecraft:dimension_type` from 1.16.2, the top-level `dimension` list in the 1.16
/// codec. A codec with the wrapper but no `value` list has none.
pub open spec fn dimension_entries_of(codec: Seq<(Seq<char>, Nbt)>) -> Seq<Seq<(Seq<char>, Nbt)>> {
    match compound_field_of(codec, "minecraft:dimension_type"@) {
        Some(dimension_type) => compound_list_of(dimension_type, "value"@),
        None => compound_list_of(codec, "dimension"@),
    }
}

/// Whether a codec entry is named `key`.
pub open spec fn is_named(entry: Seq<(Seq<char>, Nbt)>, key: Seq<char>) -> bool {
    string_field_of(entry, "name"@) == Some(key)
}

/// The first entry from `start` on that is named `key` and has an `element` compound:
/// the modern codec shape.
pub open spec fn first_modern_from(
    entries: Seq<Seq<(Seq<char>, Nbt)>>,
    key: Seq<char>,
    start: int,
) -> Option<int>
    decreases entries.len() - start,
{
    if start < 0 || start >= entries.len() {
        None
    } else if is_named(entries[start], key) && compound_field_of(entries[start], "element"@) is Some {
        Some(start)
    } else {
        first_modern_from(entries, key, start + 1)
    }
}

/// The first entry from `start` on that is named `key` and whose position fits an `i32`:
/// the legacy codec shape, where the position is the id.
pub open spec fn first_legacy_from(
    entries: Seq<Seq<(Seq<char>, Nbt)>>,
    key: Seq<char>,
    start: int,
) -> Option<int>
    decreases entries.len() - start,
{
    if start < 0 || start >= entries.len() {
        None
    } else if is_named(entries[start], key) && start <= i32::MAX {
        Some(start)
    } else {
        first_legacy_from(entries, key, start + 1)
    }
}

/// The dimension named `key` in a codec.
///
/// The modern shape is tried first: an entry with its own `id` and an `element` holding
/// the properties. Failing that, the legacy shape: the entry is the element, and its
/// position in the list is the id. A modern codec whose matching entry has no `element`
/// therefore falls through to the legacy reading of the same list.
pub open spec fn dimension_in_codec(codec: Seq<(Seq<char>, Nbt)>, key: Seq<char>) -> Option<
    DimensionModel,
> {
    let entries = dimension_entries_of(codec);
    match first_modern_from(entries, key, 0) {
        Some(found) => {
            let element = compound_field_of(entries[found], "element"@)->Some_0;
            Some(
                DimensionModel {
                    key,
                    id: int_field_or_zero_of(entries[found], "id"@),
                    height: int_field_or_zero_of(element, "height"@),
                    codec,
                    element,
                },
            )
        },
        None => match first_legacy_from(entries, key, 0) {
            Some(found) => Some(
                DimensionModel {
                    key,
                    id: found as i32,
                    height: int_field_or_zero_of(entries[found], "height"@),
                    codec,
                    element: entries[found],
                },
            ),
            None => None,
        },
    }
}

/// The codec a client of `version` receives, out of the codecs in ladder order.
pub open spec fn codec_for(codecs: Seq<Seq<(Seq<char>, Nbt)>>, version: ProtocolVersion) -> Option<
    Seq<(Seq<char>, Nbt)>,
> {
    match first_claiming(codec_rungs(), version) {
        Some(rung) => if rung < codecs.len() {
            Some(codecs[rung])
        } else {
            None
        },
        None => None,
    }
}

/// The dimension named `key` as a client of `version` sees it.
pub open spec fn dimension_for(
    codecs: Seq<Seq<(Seq<char>, Nbt)>>,
    version: ProtocolVersion,
    key: Seq<char>,
) -> Option<DimensionModel> {
    match codec_for(codecs, version) {
        Some(codec) => dimension_in_codec(codec, key),
        None => None,
    }
}

/// `Arc::clone`: another pointer to the same compound.
#[verifier::external_body]
fn share(codec: &Arc<NbtCompound>) -> (shared: Arc<NbtCompound>)
    ensures
        shared == *codec,
{
    Arc::clone(codec)
}

fn string_field<'a>(compound: &'a NbtCompound, key: &str) -> (found: Option<&'a String>)
    ensures
        match found {
            Some(text) => string_field_of(compound@, key@) == Some(text@),
            None => string_field_of(compound@, key@) is None,
        },
{
    match compound.get(key) {
        Some(NbtValue::String(text)) => Some(text),
        _ => None,
    }
}

/// Reads a numeric field as `CompoundBinaryTag.getInt` does: any number narrows to `i32`,
/// and an absent or non-numeric field reads as zero.
fn int_field_or_zero(compound: &NbtCompound, key: &str) -> (number: i32)
    ensures
        number == int_field_or_zero_of(compound@, key@),
{
    match compound.get(key) {
        Some(value) => match as_i32(value) {
            Some(number) => number,
            None => 0,
        },
        None => 0,
    }
}

fn compound_field<'a>(compound: &'a NbtCompound, key: &str) -> (found: Option<&'a NbtCompound>)
    ensures
        match found {
            Some(nested) => compound_field_of(compound@, key@) == Some(nested@),
            None => compound_field_of(compound@, key@) is None,
        },
{
    match compound.get(key) {
        Some(NbtValue::Compound(nested)) => Some(nested),
        _ => None,
    }
}

/// Reads a list of compounds; `None` stands for the empty list an absent or differently
/// typed field reads as.
fn compound_list<'a>(compound: &'a NbtCompound, key: &str) -> (found: Option<&'a Vec<NbtCompound>>)
    ensures
        match found {
            Some(entries) => compound_list_of(compound@, key@) == compounds_of(entries@),
            None => compound_list_of(compound@, key@) == Seq::<Seq<(Seq<char>, Nbt)>>::empty(),
        },
{
    match compound.get(key) {
        Some(NbtValue::List(NbtList::Compound(entries))) => Some(entries),
        _ => None,
    }
}

fn dimension_entries(codec: &NbtCompound) -> (found: Option<&Vec<NbtCompound>>)
    ensures
        match found {
            Some(entries) => dimension_entries_of(codec@) == compounds_of(entries@),
            None => dimension_entries_of(codec@) == Seq::<Seq<(Seq<char>, Nbt)>>::empty(),
        },
{
    match compound_field(codec, "minecraft:dimension_type") {
        Some(dimension_type) => compound_list(dimension_type, "value"),
        None => compound_list(codec, "dimension"),
    }
}

fn is_named_entry(entry: &NbtCompound, key: &str) -> (named: bool)
    ensures
        named == is_named(entry@, key@),
{
    match string_field(entry, "name") {
        Some(name) => str_equal(name.as_str(), key),
        None => false,
    }
}

fn find_modern_dimension(codec: &Arc<NbtCompound>, entries: &Vec<NbtCompound>, dimension_key: &str) -> (found:
    Option<Dimension>)
    ensures
        match first_modern_from(compounds_of(entries@), dimension_key@, 0) {
            Some(index) => found matches Some(dimension) && dimension@ == dimension_in_codec_at_modern(
                (**codec)@,
                compounds_of(entries@),
                index,
                dimension_key@,
            ),
            None => found is None,
        },
{
    proof {
        lemma_compounds_of(entries@);
    }
    let ghost models = compounds_of(entries@);
    let mut index: usize = 0;
    while index < entries.len()
        invariant
            0 <= index <= entries@.len(),
            models == compounds_of(entries@),
            models.len() == entries@.len(),
            forall|i: int| 0 <= i < entries@.len() ==> #[trigger] models[i] == entries@[i]@,
            first_modern_from(models, dimension_key@, 0) == first_modern_from(
                models,
                dimension_key@,
                index as int,
            ),
        decreases entries@.len() - index,
    {
        let entry = &entries[index];
        if is_named_entry(entry, dimension_key) {
            if let Some(element) = compound_field(entry, "element") {
                return Some(
                    Dimension::new(
                        dimension_key.to_owned(),
                        int_field_or_zero(entry, "id"),
                        int_field_or_zero(element, "height"),
                        share(codec),
                        copy_compound(element),
                    ),
                );
            }
        }
        index += 1;
    }
    None
}

/// The dimension a modern codec entry at `index` describes.
pub open spec fn dimension_in_codec_at_modern(
    codec: Seq<(Seq<char>, Nbt)>,
    entries: Seq<Seq<(Seq<char>, Nbt)>>,
    index: int,
    key: Seq<char>,
) -> DimensionModel {
    let element = compound_field_of(entries[index], "element"@)->Some_0;
    DimensionModel {
        key,
        id: int_field_or_zero_of(entries[index], "id"@),
        height: int_field_or_zero_of(element, "height"@),
        codec,
        element,
    }
}

fn find_legacy_dimension(codec: &Arc<NbtCompound>, entries: &Vec<NbtCompound>, dimension_key: &str) -> (found:
    Option<Dimension>)
    ensures
        match first_legacy_from(compounds_of(entries@), dimension_key@, 0) {
            Some(index) => found matches Some(dimension) && dimension@ == (DimensionModel {
                key: dimension_key@,
                id: index as i32,
                height: int_field_or_zero_of(compounds_of(entries@)[index], "height"@),
                codec: (**codec)@,
                element: compounds_of(entries@)[index],
            }),
            None => found is None,
        },
{
    proof {
        lemma_compounds_of(entries@);
    }
    let ghost models = compounds_of(entries@);
    let mut index: usize = 0;
    while index < entries.len()
        invariant
            0 <= index <= entries@.len(),
            models == compounds_of(entries@),
            models.len() == entries@.len(),
            forall|i: int| 0 <= i < entries@.len() ==> #[trigger] models[i] == entries@[i]@,
            first_legacy_from(models, dimension_key@, 0) == first_legacy_from(
                models,
                dimension_key@,
                index as int,
            ),
        decreases entries@.len() - index,
    {
        let entry = &entries[index];
        if is_named_entry(entry, dimension_key) && index <= i32::MAX as usize {
            return Some(
                Dimension::new(
                    dimension_key.to_owned(),
                    index as i32,
                    int_field_or_zero(entry, "height"),
                    share(codec),
                    copy_compound(entry),
                ),
            );
        }
        index += 1;
    }
    None
}

/// Every dimension codec the server can send, one per rung of the codec ladder, each
/// shared by the dimensions resolved from it.
pub struct DimensionRegistry {
    codecs: Vec<Arc<NbtCompound>>,
}

pub open spec fn shared_models(codecs: Seq<Arc<NbtCompound>>) -> Seq<Seq<(Seq<char>, Nbt)>> {
    codecs.map_values(|codec: Arc<NbtCompound>| (*codec)@)
}

impl View for DimensionRegistry {
    /// The codecs, in ladder order.
    type V = Seq<Seq<(Seq<char>, Nbt)>>;

    closed spec fn view(&self) -> Seq<Seq<(Seq<char>, Nbt)>> {
        shared_models(self.codecs@)
    }
}

impl DimensionRegistry {
    /// Holds the decoded codecs, one per rung of the codec ladder, in ladder order.
    pub fn new(codecs: Vec<NbtCompound>) -> (registry: DimensionRegistry)
        ensures
            registry@ == compounds_of(codecs@),
    {
        proof {
            lemma_compounds_of(codecs@);
        }
        let mut shared: Vec<Arc<NbtCompound>> = Vec::new();
        let mut remaining = codecs;
        let ghost all = compounds_of(remaining@);
        let mut taken: Vec<NbtCompound> = Vec::new();
        while remaining.len() > 0
            invariant
                all == compounds_of(codecs@),
                all.len() == codecs@.len(),
                forall|i: int| 0 <= i < codecs@.len() ==> #[trigger] all[i] == codecs@[i]@,
                shared@.len() + remaining@.len() == codecs@.len(),
                forall|i: int| 0 <= i < shared@.len() ==> #[trigger] (*shared@[i])@ == all[i],
                forall|i: int|
                    0 <= i < remaining@.len() ==> #[trigger] remaining@[i]@ == all[shared@.len()
                        + i],
            decreases remaining@.len(),
        {
            let first = remaining.remove(0);
            shared.push(Arc::new(first));
        }
        let registry = DimensionRegistry { codecs: shared };
        proof {
            assert(shared_models(registry.codecs@) =~= all);
        }
        registry
    }

    fn shared_codec(&self, version: ProtocolVersion) -> (codec: Option<&Arc<NbtCompound>>)
        ensures
            match codec {
                Some(found) => codec_for(self@, version) == Some((**found)@),
                None => codec_for(self@, version) is None,
            },
    {
        let ladder = codec_ladder();
        match ResourceSelection::select(ladder.as_slice(), version) {
            Some(rung) => {
                if rung < self.codecs.len() {
                    Some(&self.codecs[rung])
                } else {
                    None
                }
            },
            None => None,
        }
    }

    /// The registry codec this protocol version receives.
    pub fn codec(&self, version: ProtocolVersion) -> (codec: Option<&NbtCompound>)
        ensures
            match codec {
                Some(found) => codec_for(self@, version) == Some(found@),
                None => codec_for(self@, version) is None,
            },
    {
        match self.shared_codec(version) {
            Some(shared) => Some(&**shared),
            None => None,
        }
    }

    /// Resolves a dimension by its namespaced key, for example `minecraft:overworld`.
    ///
    /// An unknown key, or a version no codec serves, resolves to nothing.
    pub fn find_dimension(&self, version: ProtocolVersion, dimension_key: &str) -> (found:
        Option<Dimension>)
        ensures
            match dimension_for(self@, version, dimension_key@) {
                Some(expected) => found matches Some(dimension) && dimension@ == expected,
                None => found is None,
            },
    {
        let codec = match self.shared_codec(version) {
            Some(codec) => codec,
            None => return None,
        };
        let entries = match dimension_entries(codec) {
            Some(entries) => entries,
            None => {
                proof {
                    lemma_no_entries(dimension_key@);
                }
                return None;
            },
        };
        match find_modern_dimension(codec, entries, dimension_key) {
            Some(dimension) => Some(dimension),
            None => find_legacy_dimension(codec, entries, dimension_key),
        }
    }
}

/// With one codec for each rung of the codec ladder, every supported version receives a
/// codec.
pub proof fn lemma_every_version_has_a_codec(
    codecs: Seq<Seq<(Seq<char>, Nbt)>>,
    version: ProtocolVersion,
)
    requires
        codecs.len() == codec_rungs().len(),
    ensures
        codec_for(codecs, version) is Some,
{
    assert(codec_rungs().last().version_match == VersionMatch::Any);
    lemma_closed_ladder_selects(codec_rungs(), version);
    lemma_first_claiming_from(codec_rungs(), version, 0);
}

/// A dimension found for a version is named by the key it was looked up by, and carries
/// the whole codec that version receives.
pub proof fn lemma_found_dimension_belongs(
    codecs: Seq<Seq<(Seq<char>, Nbt)>>,
    version: ProtocolVersion,
    key: Seq<char>,
)
    ensures
        dimension_for(codecs, version, key) matches Some(dimension) ==> dimension.key == key
            && codec_for(codecs, version) == Some(dimension.codec),
{
}

proof fn lemma_unnamed_from(entries: Seq<Seq<(Seq<char>, Nbt)>>, key: Seq<char>, start: int)
    requires
        0 <= start,
        forall|i: int| 0 <= i < entries.len() ==> !is_named(#[trigger] entries[i], key),
    ensures
        first_modern_from(entries, key, start) is None,
        first_legacy_from(entries, key, start) is None,
    decreases entries.len() - start,
{
    if start < entries.len() {
        lemma_unnamed_from(entries, key, start + 1);
    }
}

/// A key that no entry of a codec is named by resolves to nothing.
pub proof fn lemma_unknown_key_resolves_to_nothing(codec: Seq<(Seq<char>, Nbt)>, key: Seq<char>)
    requires
        forall|i: int|
            0 <= i < dimension_entries_of(codec).len() ==> !is_named(
                #[trigger] dimension_entries_of(codec)[i],
                key,
            ),
    ensures
        dimension_in_codec(codec, key) is None,
{
    lemma_unnamed_from(dimension_entries_of(codec), key, 0);
}

proof fn lemma_no_entries(key: Seq<char>)
    ensures
        first_modern_from(Seq::empty(), key, 0) is None,
        first_legacy_from(Seq::empty(), key, 0) is None,
{
}

} // verus!
