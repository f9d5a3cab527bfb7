use vstd::prelude::*;

use crate::dimension::{Dimension, DimensionModel};
use crate::version::ProtocolVersion;

verus! {

/// The content of a [`VersionedDimension`].
pub struct VersionedModel {
    pub key: Seq<char>,
    pub legacy_id: i32,
    pub per_version: Seq<(ProtocolVersion, DimensionModel)>,
}

/// The dimension recorded for `version`: the first pair that names it.
pub open spec fn recorded_for(
    per_version: Seq<(ProtocolVersion, DimensionModel)>,
    version: ProtocolVersion,
    start: int,
) -> Option<DimensionModel>
    decreases per_version.len() - start,
{
    if start < 0 || start >= per_version.len() {
        None
    } else if per_version[start].0 == version {
        Some(per_version[start].1)
    } else {
        recorded_for(per_version, version, start + 1)
    }
}

/// One dimension, resolved ahead of time against every protocol version the server
/// speaks. It hands out the whole [`Dimension`] for a version at once, so the caller reads
/// the fields it needs from it.
pub struct VersionedDimension {
    key: String,
    legacy_id: i32,
    per_version: Vec<(ProtocolVersion, Dimension)>,
}

pub open spec fn version_models(pairs: Seq<(ProtocolVersion, Dimension)>) -> Seq<
    (ProtocolVersion, DimensionModel),
> {
    pairs.map_values(|pair: (ProtocolVersion, Dimension)| (pair.0, pair.1@))
}

impl View for VersionedDimension {
    type V = VersionedModel;

    closed spec fn view(&self) -> VersionedModel {
        VersionedModel {
            key: self.key@,
            legacy_id: self.legacy_id,
            per_version: version_models(self.per_version@),
        }
    }
}

impl VersionedDimension {
    pub fn new(key: String, legacy_id: i32, per_version: Vec<(ProtocolVersion, Dimension)>) -> (versioned:
        VersionedDimension)
        ensures
            versioned@ == (VersionedModel {
                key: key@,
                legacy_id,
                per_version: version_models(per_version@),
            }),
    {
        VersionedDimension { key, legacy_id, per_version }
    }

    pub fn key(&self) -> (key: &str)
        ensures
            key@ == self@.key,
    {
        self.key.as_str()
    }

    /// Id used before 1.16, when the wire carried a bare dimension number instead of a
    /// namespaced key.
    pub fn legacy_id(&self) -> (id: i32)
        ensures
            id == self@.legacy_id,
    {
        self.legacy_id
    }

    /// The dimension as a client of `version` sees it.
    pub fn for_version(&self, version: ProtocolVersion) -> (found: Option<&Dimension>)
        ensures
            match recorded_for(self@.per_version, version, 0) {
                Some(expected) => found matches Some(dimension) && dimension@ == expected,
                None => found is None,
            },
    {
        let ghost models = version_models(self.per_version@);
        let mut index: usize = 0;
        while index < self.per_version.len()
            invariant
                0 <= index <= self.per_version@.len(),
                models == version_models(self.per_version@),
                models == self@.per_version,
                recorded_for(models, version, 0) == recorded_for(models, version, index as int),
            decreases self.per_version@.len() - index,
        {
            if self.per_version[index].0 == version {
                return Some(&self.per_version[index].1);
            }
            index += 1;
        }
        None
    }
}

} // verus!
