use vstd::prelude::*;

use std::sync::Arc;

use crate::nbt::{Nbt, NbtCompound};

verus! {

/// Sections a chunk column is split into, each 16 blocks tall.
pub const BLOCKS_PER_CHUNK_SECTION: i32 = 16;

/// The content of a [`Dimension`].
pub struct DimensionModel {
    pub key: Seq<char>,
    pub id: i32,
    pub height: i32,
    pub codec: Seq<(Seq<char>, Nbt)>,
    pub element: Seq<(Seq<char>, Nbt)>,
}

/// `height / 16` as Rust divides integers: rounding toward zero.
pub open spec fn sections_in(height: i32) -> int {
    if height >= 0 {
        height as int / 16
    } else {
        -((-height) / 16)
    }
}

/// A dimension as one protocol version sees it.
///
/// The same dimension has a different id, height and element layout depending on which
/// codec the client is sent, so a value of this type is only meaningful together with
/// the version it was resolved for.
pub struct Dimension {
    key: String,
    id: i32,
    height: i32,
    codec: Arc<NbtCompound>,
    element_codec: NbtCompound,
}

impl View for Dimension {
    type V = DimensionModel;

    closed spec fn view(&self) -> DimensionModel {
        DimensionModel {
            key: self.key@,
            id: self.id,
            height: self.height,
            codec: (*self.codec)@,
            element: self.element_codec@,
        }
    }
}

impl Dimension {
    /// `codec` is shared: one registry codec backs every dimension resolved from it. The
    /// element is a small slice of that codec and is owned outright.
    pub fn new(
        key: String,
        id: i32,
        height: i32,
        codec: Arc<NbtCompound>,
        element_codec: NbtCompound,
    ) -> (dimension: Dimension)
        ensures
            dimension@ == (DimensionModel {
                key: key@,
                id,
                height,
                codec: (*codec)@,
                element: element_codec@,
            }),
    {
        Dimension { key, id, height, codec, element_codec }
    }

    pub fn key(&self) -> (key: &str)
        ensures
            key@ == self@.key,
    {
        self.key.as_str()
    }

    /// Id the client uses to refer to this dimension: the `id` field of a modern codec
    /// entry, or the entry's position in the 1.16 codec's flat list.
    pub fn id(&self) -> (id: i32)
        ensures
            id == self@.id,
    {
        self.id
    }

    /// Build height in blocks; zero for the 1.16 and 1.16.2 codecs, which predate the
    /// field.
    pub fn height(&self) -> (height: i32)
        ensures
            height == self@.height,
    {
        self.height
    }

    /// Chunk sections the build height spans.
    pub fn chunk_sections(&self) -> (sections: i32)
        ensures
            sections == sections_in(self@.height),
    {
        if self.height >= 0 {
            self.height / BLOCKS_PER_CHUNK_SECTION
        } else {
            let magnitude: i64 = -(self.height as i64);
            -(magnitude / 16) as i32
        }
    }

    /// The whole registry codec this dimension was resolved from, as sent in Join Game
    /// before 1.20.5.
    pub fn codec(&self) -> (codec: &NbtCompound)
        ensures
            codec@ == self@.codec,
    {
        &self.codec
    }

    /// Just this dimension's own entry, as sent in Join Game between 1.16.2 and 1.18.2.
    pub fn element_codec(&self) -> (element: &NbtCompound)
        ensures
            element@ == self@.element,
    {
        &self.element_codec
    }
}

} // verus!
