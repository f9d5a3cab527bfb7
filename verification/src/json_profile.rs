use vstd::prelude::*;

use crate::click_event::ClickEvent;
use crate::version::{protocol_number_of, ProtocolVersion};

verus! {

/// A set of serialization rules shared by a span of protocol versions.
///
/// The client's component parser changed shape four times. Each profile below is one of
/// those shapes, and the differences are wire-visible: emitting the wrong key name makes
/// the client ignore a hover event, and emitting a hex colour to a client that predates
/// them makes it ignore the colour.
///
/// Two of these profiles never put JSON on the wire for chat, since components travel as
/// NBT from 1.20.3. They still matter: the login disconnect and status response packets
/// serialize a component to a JSON string on every version.
#[derive(Debug, Clone, Copy, PartialEq, Eq, Structural)]
pub enum JsonProfile {
    /// Before 1.16. No hex colours, hover payload under `value`.
    Legacy,
    /// 1.16 through 1.20.2. Hex colours arrive, hover payload moves to `contents`.
    HexColours,
    /// 1.20.3 through 1.21.4. Unstyled text collapses to a bare string.
    CompactText,
    /// 1.21.5 and later. Event keys and payloads are renamed.
    RenamedEvents,
}

/// The profile a client of this version reads.
pub open spec fn profile_for(version: ProtocolVersion) -> JsonProfile {
    let number = protocol_number_of(version);
    if number >= protocol_number_of(ProtocolVersion::V1_21_5) {
        JsonProfile::RenamedEvents
    } else if number >= protocol_number_of(ProtocolVersion::V1_20_3) {
        JsonProfile::CompactText
    } else if number >= protocol_number_of(ProtocolVersion::V1_16) {
        JsonProfile::HexColours
    } else {
        JsonProfile::Legacy
    }
}

pub open spec fn profile_emits_rgb(profile: JsonProfile) -> bool {
    profile != JsonProfile::Legacy
}

pub open spec fn profile_compacts(profile: JsonProfile) -> bool {
    profile == JsonProfile::CompactText || profile == JsonProfile::RenamedEvents
}

pub open spec fn hover_event_key_of(profile: JsonProfile) -> Seq<char> {
    if profile == JsonProfile::RenamedEvents {
        "hover_event"@
    } else {
        "hoverEvent"@
    }
}

pub open spec fn hover_text_key_of(profile: JsonProfile) -> Seq<char> {
    match profile {
        JsonProfile::Legacy | JsonProfile::RenamedEvents => "value"@,
        _ => "contents"@,
    }
}

pub open spec fn click_event_key_of(profile: JsonProfile) -> Seq<char> {
    if profile == JsonProfile::RenamedEvents {
        "click_event"@
    } else {
        "clickEvent"@
    }
}

pub open spec fn click_payload_key_of(profile: JsonProfile, event: ClickEvent) -> Seq<char> {
    if profile == JsonProfile::RenamedEvents {
        match event {
            ClickEvent::OpenUrl { .. } => "url"@,
            ClickEvent::RunCommand { .. } => "command"@,
            ClickEvent::SuggestCommand { .. } => "command"@,
            ClickEvent::CopyToClipboard { .. } => "value"@,
        }
    } else {
        "value"@
    }
}

impl JsonProfile {
    pub fn for_version(version: ProtocolVersion) -> (profile: JsonProfile)
        ensures
            profile == profile_for(version),
    {
        if version.at_least(ProtocolVersion::V1_21_5) {
            JsonProfile::RenamedEvents
        } else if version.at_least(ProtocolVersion::V1_20_3) {
            JsonProfile::CompactText
        } else if version.at_least(ProtocolVersion::V1_16) {
            JsonProfile::HexColours
        } else {
            JsonProfile::Legacy
        }
    }

    /// Whether an arbitrary 24-bit colour survives, or has to be reduced to one of the
    /// sixteen named colours the client has always understood.
    pub fn emits_rgb(self) -> (emits: bool)
        ensures
            emits == profile_emits_rgb(self),
    {
        !matches!(self, JsonProfile::Legacy)
    }

    /// Whether text with no style and no children collapses from `{"text":"x"}` to `"x"`.
    pub fn compacts_plain_text(self) -> (compacts: bool)
        ensures
            compacts == profile_compacts(self),
    {
        matches!(self, JsonProfile::CompactText | JsonProfile::RenamedEvents)
    }

    pub fn hover_event_key(self) -> (key: &'static str)
        ensures
            key@ == hover_event_key_of(self),
    {
        match self {
            JsonProfile::RenamedEvents => "hover_event",
            _ => "hoverEvent",
        }
    }

    /// The key the `show_text` payload sits under, which moved twice.
    pub fn hover_text_key(self) -> (key: &'static str)
        ensures
            key@ == hover_text_key_of(self),
    {
        match self {
            JsonProfile::Legacy | JsonProfile::RenamedEvents => "value",
            JsonProfile::HexColours | JsonProfile::CompactText => "contents",
        }
    }

    pub fn click_event_key(self) -> (key: &'static str)
        ensures
            key@ == click_event_key_of(self),
    {
        match self {
            JsonProfile::RenamedEvents => "click_event",
            _ => "clickEvent",
        }
    }

    /// The key a click payload sits under. From 1.21.5 it is named after the action
    /// instead of being a generic `value`.
    pub fn click_payload_key(self, event: &ClickEvent) -> (key: &'static str)
        ensures
            key@ == click_payload_key_of(self, *event),
    {
        match self {
            JsonProfile::RenamedEvents => match event {
                ClickEvent::OpenUrl { .. } => "url",
                ClickEvent::RunCommand { .. } | ClickEvent::SuggestCommand { .. } => "command",
                ClickEvent::CopyToClipboard { .. } => "value",
            },
            _ => "value",
        }
    }
}

} // verus!
