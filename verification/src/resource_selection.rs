use vstd::prelude::*;

use crate::nbt::{compound_of, compounds_of, lemma_compounds_of, Nbt, NbtCompound, NbtList, NbtValue};
use crate::resource_load_error::ResourceLoadError;
use valence_nbt::{Compound, List, Value};
use crate::version::ProtocolVersion;
use crate::version_match::{version_matches, VersionMatch};

verus! {

/// One rung of a version-selection ladder: the resource it names, and the comparison that
/// decides whether this rung serves a given client.
#[derive(Debug, Clone, Copy)]
pub struct ResourceSelection {
    pub name: &'static str,
    pub version_match: VersionMatch,
}

/// The first rung, from `start` on, that claims `version`.
pub open spec fn first_claiming_from(
    ladder: Seq<ResourceSelection>,
    version: ProtocolVersion,
    start: int,
) -> Option<int>
    decreases ladder.len() - start,
{
    if start < 0 || start >= ladder.len() {
        None
    } else if version_matches(ladder[start].version_match, version) {
        Some(start)
    } else {
        first_claiming_from(ladder, version, start + 1)
    }
}

/// The position of the first rung that claims `version`.
pub open spec fn first_claiming(ladder: Seq<ResourceSelection>, version: ProtocolVersion) -> Option<
    int,
> {
    first_claiming_from(ladder, version, 0)
}

/// What `first_claiming_from` finds is a claiming rung, and no rung before it claims.
pub proof fn lemma_first_claiming_from(
    ladder: Seq<ResourceSelection>,
    version: ProtocolVersion,
    start: int,
)
    requires
        0 <= start,
    ensures
        match first_claiming_from(ladder, version, start) {
            Some(found) => start <= found < ladder.len() && version_matches(
                ladder[found].version_match,
                version,
            ) && forall|i: int|
                start <= i < found ==> !version_matches(#[trigger] ladder[i].version_match, version),
            None => forall|i: int|
                start <= i < ladder.len() ==> !version_matches(
                    #[trigger] ladder[i].version_match,
                    version,
                ),
        },
    decreases ladder.len() - start,
{
    if start < ladder.len() && !version_matches(ladder[start].version_match, version) {
        lemma_first_claiming_from(ladder, version, start + 1);
    }
}

/// A ladder that ends in a rung matching anything serves every version.
pub proof fn lemma_closed_ladder_selects(ladder: Seq<ResourceSelection>, version: ProtocolVersion)
    requires
        ladder.len() > 0,
        ladder.last().version_match == VersionMatch::Any,
    ensures
        first_claiming(ladder, version) is Some,
{
    lemma_first_claiming_from(ladder, version, 0);
    assert(version_matches(ladder[ladder.len() - 1].version_match, version));
}

/// What decompressing gzip bytes gives: the bytes of the first gzip member, or the text
/// of the error met on the way.
pub uninterp spec fn gunzip_outcome(gzip: Seq<u8>) -> Result<Seq<u8>, Seq<char>>;

/// `flate2::read::GzDecoder::new(gzip)` read to its end: the decompressed bytes, or the
/// `io::Error` it stopped on, as text. Both depend on the input bytes alone.
#[verifier::external_body]
fn gunzip(gzip: &[u8]) -> (outcome: Result<Vec<u8>, String>)
    ensures
        match outcome {
            Ok(bytes) => gunzip_outcome(gzip@) == Ok::<Seq<u8>, Seq<char>>(bytes@),
            Err(reason) => gunzip_outcome(gzip@) == Err::<Seq<u8>, Seq<char>>(reason@),
        },
{
    let mut decompressed = Vec::new();
    match std::io::Read::read_to_end(&mut flate2::read::GzDecoder::new(gzip), &mut decompressed) {
        Ok(_) => Ok(decompressed),
        Err(error) => Err(error.to_string()),
    }
}

#[verifier::external_type_specification]
#[verifier::external_body]
#[verifier::reject_recursive_types(S)]
pub struct ExValenceCompound<S>(Compound<S>);

#[verifier::external_type_specification]
#[verifier::external_body]
#[verifier::reject_recursive_types(S)]
pub struct ExValenceValue<S>(Value<S>);

#[verifier::external_type_specification]
#[verifier::external_body]
#[verifier::reject_recursive_types(S)]
pub struct ExValenceList<S>(List<S>);

/// What reading a named root compound from bytes gives: its entries and its root name, or
/// the text of the error met on the way.
pub uninterp spec fn nbt_root_of(bytes: Seq<u8>) -> Result<(Seq<(Seq<char>, Nbt)>, Seq<char>), Seq<char>>;

/// `valence_nbt::binary::from_binary::<String>` on the bytes: the root compound, with its
/// entries in the order they were read and float payloads kept as their bit patterns, and
/// the root's name; or the decoder's error, as text. Both depend on the bytes alone.
#[verifier::external_body]
fn decode_named_root(bytes: &[u8]) -> (decoded: Result<(NbtCompound, String), String>)
    ensures
        match decoded {
            Ok((compound, name)) => nbt_root_of(bytes@) == Ok::<(Seq<(Seq<char>, Nbt)>, Seq<char>), Seq<char>>((compound@, name@)),
            Err(reason) => nbt_root_of(bytes@) == Err::<(Seq<(Seq<char>, Nbt)>, Seq<char>), Seq<char>>(reason@),
        },
{
    let mut slice = bytes;
    match valence_nbt::binary::from_binary::<String>(&mut slice) {
        Ok((compound, name)) => Ok((compound_from_valence(&compound), name)),
        Err(error) => Err(error.to_string()),
    }
}

/// Converts a `valence_nbt` compound entry by entry, in its own order.
#[verifier::external_body]
fn compound_from_valence(compound: &Compound<String>) -> NbtCompound {
    NbtCompound {
        entries: compound.iter().map(|(key, value)| (key.clone(), value_from_valence(value))).collect(),
    }
}

/// Converts a `valence_nbt` value variant by variant: the numbers here, floats as their
/// bit patterns, and the other variants in [`wide_value_from_valence`].
#[verifier::external_body]
fn value_from_valence(value: &Value<String>) -> NbtValue {
    match value {
        Value::Byte(v) => NbtValue::Byte(*v),
        Value::Short(v) => NbtValue::Short(*v),
        Value::Int(v) => NbtValue::Int(*v),
        Value::Long(v) => NbtValue::Long(*v),
        Value::Float(v) => NbtValue::Float(v.to_bits()),
        Value::Double(v) => NbtValue::Double(v.to_bits()),
        other => wide_value_from_valence(other),
    }
}

/// Converts the arrays, strings, lists and compounds among `valence_nbt` values, variant
/// by variant, and hands the numbers to [`value_from_valence`].
#[verifier::external_body]
fn wide_value_from_valence(value: &Value<String>) -> NbtValue {
    match value {
        Value::ByteArray(v) => NbtValue::ByteArray(v.clone()),
        Value::String(text) => NbtValue::String(text.clone()),
        Value::List(list) => NbtValue::List(list_from_valence(list)),
        Value::Compound(nested) => NbtValue::Compound(compound_from_valence(nested)),
        Value::IntArray(v) => NbtValue::IntArray(v.clone()),
        Value::LongArray(v) => NbtValue::LongArray(v.clone()),
        other => value_from_valence(other),
    }
}

/// Converts a `valence_nbt` list variant by variant: the lists of numbers here, floats as
/// their bit patterns, and the other variants in [`wide_list_from_valence`].
#[verifier::external_body]
fn list_from_valence(list: &List<String>) -> NbtList {
    match list {
        List::End => NbtList::End,
        List::Byte(v) => NbtList::Byte(v.clone()),
        List::Short(v) => NbtList::Short(v.clone()),
        List::Int(v) => NbtList::Int(v.clone()),
        List::Long(v) => NbtList::Long(v.clone()),
        List::Float(v) => NbtList::Float(v.iter().map(|item| item.to_bits()).collect()),
        List::Double(v) => NbtList::Double(v.iter().map(|item| item.to_bits()).collect()),
        other => wide_list_from_valence(other),
    }
}

/// Converts the lists of arrays, strings, lists and compounds among `valence_nbt` lists,
/// variant by variant, and hands the lists of numbers to [`list_from_valence`].
#[verifier::external_body]
fn wide_list_from_valence(list: &List<String>) -> NbtList {
    match list {
        List::ByteArray(v) => NbtList::ByteArray(v.clone()),
        List::String(v) => NbtList::String(v.clone()),
        List::List(v) => NbtList::List(v.iter().map(list_from_valence).collect()),
        List::Compound(v) => NbtList::Compound(v.iter().map(compound_from_valence).collect()),
        List::IntArray(v) => NbtList::IntArray(v.clone()),
        List::LongArray(v) => NbtList::LongArray(v.clone()),
        other => list_from_valence(other),
    }
}

/// Why a resource failed to load, without the resource's name.
pub enum LoadFailure {
    Decompress(Seq<char>),
    Parse(Seq<char>),
}

/// The resource's name and failure an error reports.
pub open spec fn load_error_model(error: ResourceLoadError) -> (&'static str, LoadFailure) {
    match error {
        ResourceLoadError::Decompress { resource, reason } => (resource, LoadFailure::Decompress(reason@)),
        ResourceLoadError::Parse { resource, reason } => (resource, LoadFailure::Parse(reason@)),
    }
}

/// What a resource's gzip bytes decode to: the root compound's entries, or why not.
pub open spec fn resource_outcome(gzip: Seq<u8>) -> Result<Seq<(Seq<char>, Nbt)>, LoadFailure> {
    match gunzip_outcome(gzip) {
        Err(reason) => Err(LoadFailure::Decompress(reason)),
        Ok(bytes) => match nbt_root_of(bytes) {
            Ok((root, _name)) => Ok(root),
            Err(reason) => Err(LoadFailure::Parse(reason)),
        },
    }
}

/// What a ladder's resources decode to, rung by rung: every root compound, or the first
/// failure in ladder order with the name of the rung it came from.
pub open spec fn resources_outcome(resources: Seq<(ResourceSelection, Seq<u8>)>) -> Result<
    Seq<Seq<(Seq<char>, Nbt)>>,
    (&'static str, LoadFailure),
>
    decreases resources.len(),
{
    if resources.len() == 0 {
        Ok(Seq::empty())
    } else {
        match resources_outcome(resources.drop_last()) {
            Err(failure) => Err(failure),
            Ok(decoded) => match resource_outcome(resources.last().1) {
                Ok(root) => Ok(decoded.push(root)),
                Err(failure) => Err((resources.last().0.name, failure)),
            },
        }
    }
}

/// The rungs and byte contents of a list of resources.
pub open spec fn resource_contents(resources: Seq<(ResourceSelection, Vec<u8>)>) -> Seq<(ResourceSelection, Seq<u8>)> {
    resources.map_values(|resource: (ResourceSelection, Vec<u8>)| (resource.0, resource.1@))
}

/// A failure among the first `count` resources is the failure of them all.
proof fn lemma_failure_persists(resources: Seq<(ResourceSelection, Seq<u8>)>, count: int)
    requires
        0 <= count <= resources.len(),
        resources_outcome(resources.take(count)) is Err,
    ensures
        resources_outcome(resources) == resources_outcome(resources.take(count)),
    decreases resources.len() - count,
{
    if count < resources.len() {
        assert(resources.take(count + 1).drop_last() =~= resources.take(count));
        lemma_failure_persists(resources, count + 1);
    } else {
        assert(resources.take(count) =~= resources);
    }
}

impl ResourceSelection {
    pub fn new(name: &'static str, version_match: VersionMatch) -> (selection: ResourceSelection)
        ensures
            selection.name == name,
            selection.version_match == version_match,
    {
        ResourceSelection { name, version_match }
    }

    /// File name of the resource, used to say which one failed to load.
    pub fn name(&self) -> (name: &'static str)
        ensures
            name == self.name,
    {
        self.name
    }

    /// The resource's uncompressed NBT bytes, given its gzip bytes; a failure names this
    /// resource.
    pub fn decompress(&self, gzip_bytes: &[u8]) -> (decompressed: Result<Vec<u8>, ResourceLoadError>)
        ensures
            match gunzip_outcome(gzip_bytes@) {
                Ok(bytes) => decompressed matches Ok(found) && found@ == bytes,
                Err(reason) => decompressed matches Err(ResourceLoadError::Decompress { resource, reason: text })
                    && resource == self.name && text@ == reason,
            },
    {
        match gunzip(gzip_bytes) {
            Ok(bytes) => Ok(bytes),
            Err(reason) => Err(ResourceLoadError::Decompress { resource: self.name, reason }),
        }
    }

    /// The root compound of the resource, given its gzip bytes; a failure names this
    /// resource.
    pub fn decode(&self, gzip_bytes: &[u8]) -> (decoded: Result<NbtCompound, ResourceLoadError>)
        ensures
            match resource_outcome(gzip_bytes@) {
                Ok(root) => decoded matches Ok(compound) && compound@ == root,
                Err(failure) => decoded matches Err(error) && load_error_model(error) == (self.name, failure),
            },
    {
        let decompressed = match self.decompress(gzip_bytes) {
            Ok(bytes) => bytes,
            Err(error) => return Err(error),
        };
        match decode_named_root(decompressed.as_slice()) {
            Ok((compound, _root_name)) => Ok(compound),
            Err(reason) => Err(ResourceLoadError::Parse { resource: self.name, reason }),
        }
    }

    /// Decodes every rung's resource up front, in ladder order, so a corrupt resource is
    /// reported at startup instead of when the first client of that version connects.
    pub fn decode_all(resources: &[(ResourceSelection, Vec<u8>)]) -> (decoded: Result<Vec<NbtCompound>, ResourceLoadError>)
        ensures
            match resources_outcome(resource_contents(resources@)) {
                Ok(roots) => decoded matches Ok(compounds) && compounds_of(compounds@) == roots,
                Err(failure) => decoded matches Err(error) && load_error_model(error) == failure,
            },
    {
        let mut compounds: Vec<NbtCompound> = Vec::new();
        let mut index: usize = 0;
        while index < resources.len()
            invariant
                0 <= index <= resources@.len(),
                resources_outcome(resource_contents(resources@.take(index as int))) == Ok::<
                    Seq<Seq<(Seq<char>, Nbt)>>,
                    (&'static str, LoadFailure),
                >(compounds_of(compounds@)),
            decreases resources@.len() - index,
        {
            proof {
                assert(resource_contents(resources@.take(index + 1)).drop_last() =~= resource_contents(
                    resources@.take(index as int),
                ));
                assert(resource_contents(resources@.take(index + 1)).last() == (
                    resources@[index as int].0,
                    resources@[index as int].1@,
                ));
            }
            let resource = &resources[index];
            match resource.0.decode(resource.1.as_slice()) {
                Ok(compound) => {
                    let ghost before = compounds@;
                    compounds.push(compound);
                    proof {
                        assert(compounds@.drop_last() == before);
                    }
                },
                Err(error) => {
                    proof {
                        let contents = resource_contents(resources@);
                        assert(contents.take(index + 1) =~= resource_contents(resources@.take(index + 1)));
                        assert(resources_outcome(contents.take(index + 1)) == Err::<
                            Seq<Seq<(Seq<char>, Nbt)>>,
                            (&'static str, LoadFailure),
                        >(load_error_model(error)));
                        lemma_failure_persists(contents, index as int + 1);
                    }
                    return Err(error);
                },
            }
            index += 1;
        }
        proof {
            assert(resources@.take(index as int) =~= resources@);
        }
        Ok(compounds)
    }

    /// Index of the first rung that claims `version`.
    ///
    /// First, not best: the ladder is ordered, and overlaps resolve to the earlier rung.
    pub fn select(ladder: &[ResourceSelection], version: ProtocolVersion) -> (rung: Option<usize>)
        ensures
            match rung {
                Some(index) => first_claiming(ladder@, version) == Some(index as int),
                None => first_claiming(ladder@, version) is None,
            },
    {
        let mut index: usize = 0;
        while index < ladder.len()
            invariant
                0 <= index <= ladder@.len(),
                first_claiming(ladder@, version) == first_claiming_from(
                    ladder@,
                    version,
                    index as int,
                ),
            decreases ladder@.len() - index,
        {
            if ladder[index].version_match.matches(version) {
                return Some(index);
            }
            index += 1;
        }
        None
    }
}

pub open spec fn codec_rungs() -> Seq<ResourceSelection> {
    seq![
        ResourceSelection { name: "codec_26_2.nbt", version_match: VersionMatch::AtLeast(ProtocolVersion::V26_2) },
        ResourceSelection { name: "codec_26_1.nbt", version_match: VersionMatch::AtLeast(ProtocolVersion::V26_1) },
        ResourceSelection { name: "codec_1_21_11.nbt", version_match: VersionMatch::AtLeast(ProtocolVersion::V1_21_11) },
        ResourceSelection { name: "codec_1_21_9.nbt", version_match: VersionMatch::Exactly(ProtocolVersion::V1_21_9) },
        ResourceSelection { name: "codec_1_21_7.nbt", version_match: VersionMatch::Exactly(ProtocolVersion::V1_21_7) },
        ResourceSelection { name: "codec_1_21_6.nbt", version_match: VersionMatch::Exactly(ProtocolVersion::V1_21_6) },
        ResourceSelection { name: "codec_1_21_5.nbt", version_match: VersionMatch::Exactly(ProtocolVersion::V1_21_5) },
        ResourceSelection { name: "codec_1_21_4.nbt", version_match: VersionMatch::Exactly(ProtocolVersion::V1_21_4) },
        ResourceSelection { name: "codec_1_21_2.nbt", version_match: VersionMatch::Exactly(ProtocolVersion::V1_21_2) },
        ResourceSelection { name: "codec_1_21.nbt", version_match: VersionMatch::Exactly(ProtocolVersion::V1_21) },
        ResourceSelection { name: "codec_1_20_5.nbt", version_match: VersionMatch::Exactly(ProtocolVersion::V1_20_5) },
        ResourceSelection { name: "codec_1_20.nbt", version_match: VersionMatch::AtLeast(ProtocolVersion::V1_20) },
        ResourceSelection { name: "codec_1_19_4.nbt", version_match: VersionMatch::Exactly(ProtocolVersion::V1_19_4) },
        ResourceSelection { name: "codec_1_19_1.nbt", version_match: VersionMatch::AtLeast(ProtocolVersion::V1_19_1) },
        ResourceSelection { name: "codec_1_19.nbt", version_match: VersionMatch::Exactly(ProtocolVersion::V1_19) },
        ResourceSelection { name: "codec_1_18_2.nbt", version_match: VersionMatch::Exactly(ProtocolVersion::V1_18_2) },
        ResourceSelection { name: "codec_1_17.nbt", version_match: VersionMatch::AtLeast(ProtocolVersion::V1_17) },
        ResourceSelection { name: "codec_1_16_2.nbt", version_match: VersionMatch::AtLeast(ProtocolVersion::V1_16_2) },
        ResourceSelection { name: "codec_1_16.nbt", version_match: VersionMatch::Any },
    ]
}

/// The dimension codec each protocol version receives, rung by rung.
///
/// The chain is deliberately irregular: most 1.21.x releases claim exactly one version,
/// while 1.17, 1.19.1, 1.20 and 1.16.2 are lower bounds that absorb the releases above
/// them. Reordering the rungs, or widening an equality into a bound, silently hands a
/// client the registry of a different release.
pub fn codec_ladder() -> (ladder: Vec<ResourceSelection>)
    ensures
        ladder@ == codec_rungs(),
{
    let mut ladder: Vec<ResourceSelection> = Vec::new();
    ladder.push(ResourceSelection::new("codec_26_2.nbt", VersionMatch::AtLeast(ProtocolVersion::V26_2)));
    ladder.push(ResourceSelection::new("codec_26_1.nbt", VersionMatch::AtLeast(ProtocolVersion::V26_1)));
    ladder.push(ResourceSelection::new("codec_1_21_11.nbt", VersionMatch::AtLeast(ProtocolVersion::V1_21_11)));
    ladder.push(ResourceSelection::new("codec_1_21_9.nbt", VersionMatch::Exactly(ProtocolVersion::V1_21_9)));
    ladder.push(ResourceSelection::new("codec_1_21_7.nbt", VersionMatch::Exactly(ProtocolVersion::V1_21_7)));
    ladder.push(ResourceSelection::new("codec_1_21_6.nbt", VersionMatch::Exactly(ProtocolVersion::V1_21_6)));
    ladder.push(ResourceSelection::new("codec_1_21_5.nbt", VersionMatch::Exactly(ProtocolVersion::V1_21_5)));
    ladder.push(ResourceSelection::new("codec_1_21_4.nbt", VersionMatch::Exactly(ProtocolVersion::V1_21_4)));
    ladder.push(ResourceSelection::new("codec_1_21_2.nbt", VersionMatch::Exactly(ProtocolVersion::V1_21_2)));
    ladder.push(ResourceSelection::new("codec_1_21.nbt", VersionMatch::Exactly(ProtocolVersion::V1_21)));
    ladder.push(ResourceSelection::new("codec_1_20_5.nbt", VersionMatch::Exactly(ProtocolVersion::V1_20_5)));
    ladder.push(ResourceSelection::new("codec_1_20.nbt", VersionMatch::AtLeast(ProtocolVersion::V1_20)));
    ladder.push(ResourceSelection::new("codec_1_19_4.nbt", VersionMatch::Exactly(ProtocolVersion::V1_19_4)));
    ladder.push(ResourceSelection::new("codec_1_19_1.nbt", VersionMatch::AtLeast(ProtocolVersion::V1_19_1)));
    ladder.push(ResourceSelection::new("codec_1_19.nbt", VersionMatch::Exactly(ProtocolVersion::V1_19)));
    ladder.push(ResourceSelection::new("codec_1_18_2.nbt", VersionMatch::Exactly(ProtocolVersion::V1_18_2)));
    ladder.push(ResourceSelection::new("codec_1_17.nbt", VersionMatch::AtLeast(ProtocolVersion::V1_17)));
    ladder.push(ResourceSelection::new("codec_1_16_2.nbt", VersionMatch::AtLeast(ProtocolVersion::V1_16_2)));
    ladder.push(ResourceSelection::new("codec_1_16.nbt", VersionMatch::Any));
    proof {
        assert(ladder@ =~= codec_rungs());
    }
    ladder
}

pub open spec fn tag_rungs() -> Seq<ResourceSelection> {
    seq![
        ResourceSelection { name: "tags_26_2.nbt", version_match: VersionMatch::AtLeast(ProtocolVersion::V26_2) },
        ResourceSelection { name: "tags_26_1.nbt", version_match: VersionMatch::AtLeast(ProtocolVersion::V26_1) },
        ResourceSelection { name: "tags_1_21_11.nbt", version_match: VersionMatch::AtLeast(ProtocolVersion::V1_21_11) },
        ResourceSelection { name: "tags_1_21_9.nbt", version_match: VersionMatch::Exactly(ProtocolVersion::V1_21_9) },
        ResourceSelection { name: "tags_1_21_7.nbt", version_match: VersionMatch::Exactly(ProtocolVersion::V1_21_7) },
        ResourceSelection { name: "tags_1_21_6.nbt", version_match: VersionMatch::Exactly(ProtocolVersion::V1_21_6) },
        ResourceSelection { name: "tags_1_21_5.nbt", version_match: VersionMatch::Exactly(ProtocolVersion::V1_21_5) },
        ResourceSelection { name: "tags_1_21_4.nbt", version_match: VersionMatch::Exactly(ProtocolVersion::V1_21_4) },
        ResourceSelection { name: "tags_1_21_2.nbt", version_match: VersionMatch::Exactly(ProtocolVersion::V1_21_2) },
        ResourceSelection { name: "tags_1_21.nbt", version_match: VersionMatch::Exactly(ProtocolVersion::V1_21) },
        ResourceSelection { name: "tags_1_20_5.nbt", version_match: VersionMatch::Any },
    ]
}

/// The registry tag set each protocol version receives, rung by rung. Tags are only sent
/// from 1.20.5 on, so the last rung serves everything older too.
pub fn tag_ladder() -> (ladder: Vec<ResourceSelection>)
    ensures
        ladder@ == tag_rungs(),
{
    let mut ladder: Vec<ResourceSelection> = Vec::new();
    ladder.push(ResourceSelection::new("tags_26_2.nbt", VersionMatch::AtLeast(ProtocolVersion::V26_2)));
    ladder.push(ResourceSelection::new("tags_26_1.nbt", VersionMatch::AtLeast(ProtocolVersion::V26_1)));
    ladder.push(ResourceSelection::new("tags_1_21_11.nbt", VersionMatch::AtLeast(ProtocolVersion::V1_21_11)));
    ladder.push(ResourceSelection::new("tags_1_21_9.nbt", VersionMatch::Exactly(ProtocolVersion::V1_21_9)));
    ladder.push(ResourceSelection::new("tags_1_21_7.nbt", VersionMatch::Exactly(ProtocolVersion::V1_21_7)));
    ladder.push(ResourceSelection::new("tags_1_21_6.nbt", VersionMatch::Exactly(ProtocolVersion::V1_21_6)));
    ladder.push(ResourceSelection::new("tags_1_21_5.nbt", VersionMatch::Exactly(ProtocolVersion::V1_21_5)));
    ladder.push(ResourceSelection::new("tags_1_21_4.nbt", VersionMatch::Exactly(ProtocolVersion::V1_21_4)));
    ladder.push(ResourceSelection::new("tags_1_21_2.nbt", VersionMatch::Exactly(ProtocolVersion::V1_21_2)));
    ladder.push(ResourceSelection::new("tags_1_21.nbt", VersionMatch::Exactly(ProtocolVersion::V1_21)));
    ladder.push(ResourceSelection::new("tags_1_20_5.nbt", VersionMatch::Any));
    proof {
        assert(ladder@ =~= tag_rungs());
    }
    ladder
}

/// A release the codec ladder serves from rung `rung`.
pub open spec fn codec_witness(rung: int) -> ProtocolVersion {
    if rung == 0 {
        ProtocolVersion::V26_2
    } else if rung == 1 {
        ProtocolVersion::V26_1
    } else if rung == 2 {
        ProtocolVersion::V1_21_11
    } else if rung == 3 {
        ProtocolVersion::V1_21_9
    } else if rung == 4 {
        ProtocolVersion::V1_21_7
    } else if rung == 5 {
        ProtocolVersion::V1_21_6
    } else if rung == 6 {
        ProtocolVersion::V1_21_5
    } else if rung == 7 {
        ProtocolVersion::V1_21_4
    } else if rung == 8 {
        ProtocolVersion::V1_21_2
    } else if rung == 9 {
        ProtocolVersion::V1_21
    } else if rung == 10 {
        ProtocolVersion::V1_20_5
    } else if rung == 11 {
        ProtocolVersion::V1_20
    } else if rung == 12 {
        ProtocolVersion::V1_19_4
    } else if rung == 13 {
        ProtocolVersion::V1_19_1
    } else if rung == 14 {
        ProtocolVersion::V1_19
    } else if rung == 15 {
        ProtocolVersion::V1_18_2
    } else if rung == 16 {
        ProtocolVersion::V1_17
    } else if rung == 17 {
        ProtocolVersion::V1_16_2
    } else {
        ProtocolVersion::V1_16
    }
}

/// A release the tag ladder serves from rung `rung`.
pub open spec fn tag_witness(rung: int) -> ProtocolVersion {
    if rung == 0 {
        ProtocolVersion::V26_2
    } else if rung == 1 {
        ProtocolVersion::V26_1
    } else if rung == 2 {
        ProtocolVersion::V1_21_11
    } else if rung == 3 {
        ProtocolVersion::V1_21_9
    } else if rung == 4 {
        ProtocolVersion::V1_21_7
    } else if rung == 5 {
        ProtocolVersion::V1_21_6
    } else if rung == 6 {
        ProtocolVersion::V1_21_5
    } else if rung == 7 {
        ProtocolVersion::V1_21_4
    } else if rung == 8 {
        ProtocolVersion::V1_21_2
    } else if rung == 9 {
        ProtocolVersion::V1_21
    } else {
        ProtocolVersion::V1_20_5
    }
}

/// Every rung of the codec ladder is the one some supported release is served from, so
/// no shipped codec is unreachable.
pub proof fn lemma_every_codec_rung_is_reached(rung: int)
    requires
        0 <= rung < codec_rungs().len(),
    ensures
        first_claiming(codec_rungs(), codec_witness(rung)) == Some(rung),
        exists|version: ProtocolVersion| first_claiming(codec_rungs(), version) == Some(rung),
{
    reveal_with_fuel(first_claiming_from, 20);
    assert(first_claiming(codec_rungs(), codec_witness(rung)) == Some(rung));
}

/// Every rung of the tag ladder is the one some supported release is served from, so no
/// shipped tag set is unreachable.
pub proof fn lemma_every_tag_rung_is_reached(rung: int)
    requires
        0 <= rung < tag_rungs().len(),
    ensures
        first_claiming(tag_rungs(), tag_witness(rung)) == Some(rung),
        exists|version: ProtocolVersion| first_claiming(tag_rungs(), version) == Some(rung),
{
    reveal_with_fuel(first_claiming_from, 12);
    assert(first_claiming(tag_rungs(), tag_witness(rung)) == Some(rung));
}

} // verus!
