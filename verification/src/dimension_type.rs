use vstd::prelude::*;

use crate::dimension::{Dimension, DimensionModel};
use crate::dimension_lookup_error::DimensionLookupError;
use crate::dimension_registry::{dimension_for, DimensionRegistry};
use crate::nbt::Nbt;
use crate::version::{lemma_index_at_release, release_at, ProtocolVersion};
use crate::versioned_dimension::{recorded_for, version_models, VersionedDimension, VersionedModel};

verus! {

/// A dimension the limbo world can be placed in.
#[derive(Debug, Clone, Copy, PartialEq, Eq, Structural, Hash)]
pub enum DimensionType {
    Overworld,
    TheNether,
    TheEnd,
}

/// Namespaced key as it appears in the `name` field of a codec entry.
pub open spec fn dimension_key(dimension: DimensionType) -> Seq<char> {
    match dimension {
        DimensionType::Overworld => "minecraft:overworld"@,
        DimensionType::TheNether => "minecraft:the_nether"@,
        DimensionType::TheEnd => "minecraft:the_end"@,
    }
}

/// Number that identified a dimension before 1.16 replaced it with a key.
pub open spec fn dimension_legacy_id(dimension: DimensionType) -> int {
    match dimension {
        DimensionType::Overworld => 0,
        DimensionType::TheNether => -1,
        DimensionType::TheEnd => 1,
    }
}

/// The first release, from index `start` on, whose codec defines no dimension `key`.
pub open spec fn first_unresolved_from(
    codecs: Seq<Seq<(Seq<char>, Nbt)>>,
    key: Seq<char>,
    start: int,
) -> Option<int>
    decreases 51 - start,
{
    if start < 0 || start >= 51 {
        None
    } else if dimension_for(codecs, release_at(start), key) is None {
        Some(start)
    } else {
        first_unresolved_from(codecs, key, start + 1)
    }
}

/// Each supported release, oldest first, paired with the dimension `key` its codec
/// defines.
pub open spec fn resolved_pairs(codecs: Seq<Seq<(Seq<char>, Nbt)>>, key: Seq<char>) -> Seq<
    (ProtocolVersion, DimensionModel),
> {
    Seq::new(51, |i: int| (release_at(i), dimension_for(codecs, release_at(i), key)->Some_0))
}

/// When every release resolves a dimension, the resolved pairs answer each release with
/// the dimension its own codec defines.
pub proof fn lemma_resolved_pairs_answer_every_release(
    codecs: Seq<Seq<(Seq<char>, Nbt)>>,
    key: Seq<char>,
    index: int,
)
    requires
        first_unresolved_from(codecs, key, 0) is None,
        0 <= index < 51,
    ensures
        recorded_for(resolved_pairs(codecs, key), release_at(index), 0) == dimension_for(
            codecs,
            release_at(index),
            key,
        ),
{
    lemma_no_unresolved(codecs, key, 0);
    lemma_recorded_at(codecs, key, index, 0);
}

proof fn lemma_no_unresolved(codecs: Seq<Seq<(Seq<char>, Nbt)>>, key: Seq<char>, start: int)
    requires
        0 <= start <= 51,
        first_unresolved_from(codecs, key, start) is None,
    ensures
        forall|i: int| start <= i < 51 ==> #[trigger] dimension_for(codecs, release_at(i), key) is Some,
    decreases 51 - start,
{
    if start < 51 {
        lemma_no_unresolved(codecs, key, start + 1);
    }
}

proof fn lemma_recorded_at(
    codecs: Seq<Seq<(Seq<char>, Nbt)>>,
    key: Seq<char>,
    index: int,
    start: int,
)
    requires
        0 <= start <= index < 51,
        forall|i: int| 0 <= i < 51 ==> #[trigger] dimension_for(codecs, release_at(i), key) is Some,
    ensures
        recorded_for(resolved_pairs(codecs, key), release_at(index), start) == dimension_for(
            codecs,
            release_at(index),
            key,
        ),
    decreases index - start,
{
    let pairs = resolved_pairs(codecs, key);
    if start < index {
        lemma_index_at_release(start);
        lemma_index_at_release(index);
        assert(pairs[start].0 != release_at(index));
        lemma_recorded_at(codecs, key, index, start + 1);
    } else {
        assert(dimension_for(codecs, release_at(index), key) is Some);
    }
}

impl DimensionType {
    pub const ALL: [DimensionType; 3] = [
        DimensionType::Overworld,
        DimensionType::TheNether,
        DimensionType::TheEnd,
    ];

    /// Namespaced key as it appears in the `name` field of a codec entry.
    pub fn key(self) -> (key: &'static str)
        ensures
            key@ == dimension_key(self),
    {
        match self {
            DimensionType::Overworld => "minecraft:overworld",
            DimensionType::TheNether => "minecraft:the_nether",
            DimensionType::TheEnd => "minecraft:the_end",
        }
    }

    /// Number that identified this dimension before 1.16 replaced it with a key.
    pub fn legacy_id(self) -> (id: i32)
        ensures
            id == dimension_legacy_id(self),
    {
        match self {
            DimensionType::Overworld => 0,
            DimensionType::TheNether => -1,
            DimensionType::TheEnd => 1,
        }
    }

    /// Resolves this dimension against every supported protocol version, or names the
    /// first version, oldest first, whose codec does not define it.
    pub fn resolve(self, registry: &DimensionRegistry) -> (resolved: Result<
        VersionedDimension,
        DimensionLookupError,
    >)
        ensures
            match first_unresolved_from(registry@, dimension_key(self), 0) {
                Some(index) => resolved matches Err(DimensionLookupError::Unresolved { key, version })
                    && key@ == dimension_key(self) && version == release_at(index),
                None => resolved matches Ok(versioned) && versioned@ == (VersionedModel {
                    key: dimension_key(self),
                    legacy_id: dimension_legacy_id(self) as i32,
                    per_version: resolved_pairs(registry@, dimension_key(self)),
                }),
            },
    {
        let versions = ProtocolVersion::all();
        let key = self.key();
        let mut per_version: Vec<(ProtocolVersion, Dimension)> = Vec::new();
        let mut index: usize = 0;
        while index < versions.len()
            invariant
                0 <= index <= 51,
                versions@.len() == 51,
                forall|i: int| 0 <= i < 51 ==> #[trigger] versions@[i] == release_at(i),
                key@ == dimension_key(self),
                first_unresolved_from(registry@, key@, 0) == first_unresolved_from(
                    registry@,
                    key@,
                    index as int,
                ),
                per_version@.len() == index,
                forall|i: int|
                    0 <= i < index ==> #[trigger] version_models(per_version@)[i] == resolved_pairs(
                        registry@,
                        key@,
                    )[i],
            decreases 51 - index,
        {
            let version = versions[index];
            let dimension = match registry.find_dimension(version, key) {
                Some(dimension) => dimension,
                None => return Err(DimensionLookupError::Unresolved { key, version }),
            };
            let ghost before = per_version@;
            let ghost model = dimension@;
            proof {
                assert(dimension_for(registry@, version, key@) == Some(model));
                assert(version == release_at(index as int));
            }
            per_version.push((version, dimension));
            proof {
                assert forall|i: int| 0 <= i < index + 1 implies #[trigger] version_models(
                    per_version@,
                )[i] == resolved_pairs(registry@, key@)[i] by {
                    if i < index {
                        assert(per_version@[i] == before[i]);
                        assert(version_models(before)[i] == resolved_pairs(registry@, key@)[i]);
                    } else {
                        assert(resolved_pairs(registry@, key@)[i] == (release_at(i), model));
                        assert(per_version@[i].0 == version);
                        assert(per_version@[i].1@ == model);
                    }
                }
            }
            index += 1;
        }
        let mut owned = String::new();
        crate::strs::push_str(&mut owned, key);
        proof {
            assert(owned@ =~= key@);
            assert(version_models(per_version@) =~= resolved_pairs(registry@, key@));
        }
        Ok(VersionedDimension::new(owned, self.legacy_id(), per_version))
    }
}

} // verus!
