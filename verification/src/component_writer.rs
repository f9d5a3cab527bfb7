use vstd::prelude::*;

use crate::component::Component;
use crate::component_json::{component_json_text, to_json_string};
use crate::component_nbt::{component_nbt, to_nbt_compound};
use crate::json_profile::{profile_for, JsonProfile};
use crate::nbt::{Nbt, NbtCompound};
use crate::version::{protocol_number_of, ProtocolVersion};

verus! {

/// Whether a client of this version reads chat components as NBT rather than as JSON
/// text, which it does from 1.20.3.
pub open spec fn reads_nbt_components(version: ProtocolVersion) -> bool {
    protocol_number_of(version) >= protocol_number_of(ProtocolVersion::V1_20_3)
}

/// A component in the form one client version reads it.
pub enum ComponentPayload {
    /// The JSON text, sent as a length-prefixed string.
    Json(String),
    /// The NBT compound, sent as a compound.
    Nbt(NbtCompound),
}

/// The content of a [`ComponentPayload`].
pub enum PayloadModel {
    Json(Seq<char>),
    Nbt(Seq<(Seq<char>, Nbt)>),
}

impl View for ComponentPayload {
    type V = PayloadModel;

    open spec fn view(&self) -> PayloadModel {
        match *self {
            ComponentPayload::Json(text) => PayloadModel::Json(text@),
            ComponentPayload::Nbt(compound) => PayloadModel::Nbt(compound@),
        }
    }
}

/// The form a component takes for a client of `version`: up to 1.20.2 its JSON text, from
/// 1.20.3 its NBT compound. The version's JSON profile applies to both, since the two
/// describe the same tree.
pub open spec fn payload_for(component: Component, version: ProtocolVersion) -> PayloadModel {
    if reads_nbt_components(version) {
        PayloadModel::Nbt(component_nbt(component, profile_for(version)))
    } else {
        PayloadModel::Json(component_json_text(component, profile_for(version)))
    }
}

/// Encodes a component in whichever form this client version reads.
pub fn component_payload(component: &Component, version: ProtocolVersion) -> (payload:
    ComponentPayload)
    ensures
        payload@ == payload_for(*component, version),
{
    let profile = JsonProfile::for_version(version);
    if version.older_than(ProtocolVersion::V1_20_3) {
        ComponentPayload::Json(to_json_string(component, profile))
    } else {
        ComponentPayload::Nbt(to_nbt_compound(component, profile))
    }
}

/// Serializes a component as the JSON string a few packets carry on every version.
///
/// The login disconnect and status response packets never moved to NBT, so they need
/// this rather than the version's own payload form.
pub fn to_json_for(component: &Component, version: ProtocolVersion) -> (json: String)
    ensures
        json@ == component_json_text(*component, profile_for(version)),
{
    to_json_string(component, JsonProfile::for_version(version))
}

} // verus!
