use vstd::prelude::*;

use crate::nbt_encode_error::NbtEncodeError;
use crate::version::{protocol_number_of, ProtocolVersion};

verus! {

/// Bytes an encoder writes ahead of the compound body when the root name is empty: the
/// root tag id followed by the two-byte length of that empty name.
pub const NAMED_ROOT_HEADER_LEN: usize = 3;

/// Whether a client of this version reads a compound in the nameless form, which it does
/// from 1.20.2.
pub open spec fn reads_nameless_root(version: ProtocolVersion) -> bool {
    protocol_number_of(version) >= protocol_number_of(ProtocolVersion::V1_20_2)
}

/// Appends a compound in the shape `version` expects, given the compound encoded as a
/// named root with an empty name.
///
/// Up to 1.20.1 that encoding goes on the wire as it is. From 1.20.2 the client reads the
/// nameless form: the same bytes with the two name-length bytes after the tag id removed.
/// An encoding too short to hold that header is refused, and nothing is written.
pub fn write_compound(buffer: &mut Vec<u8>, named_root: &[u8], version: ProtocolVersion) -> (written:
    Result<(), NbtEncodeError>)
    ensures
        !reads_nameless_root(version) ==> written is Ok && final(buffer)@ == old(buffer)@
            + named_root@,
        reads_nameless_root(version) && named_root@.len() >= NAMED_ROOT_HEADER_LEN ==> written is Ok
            && final(buffer)@ == old(buffer)@ + seq![named_root@[0]] + named_root@.subrange(
            NAMED_ROOT_HEADER_LEN as int,
            named_root@.len() as int,
        ),
        reads_nameless_root(version) && named_root@.len() < NAMED_ROOT_HEADER_LEN ==> written
            == Err::<(), NbtEncodeError>(NbtEncodeError::MalformedRootHeader) && final(buffer)@
            == old(buffer)@,
{
    if version.older_than(ProtocolVersion::V1_20_2) {
        append(buffer, named_root, 0);
        proof {
            assert(named_root@.subrange(0, named_root@.len() as int) =~= named_root@);
        }
        return Ok(());
    }
    if named_root.len() < NAMED_ROOT_HEADER_LEN {
        return Err(NbtEncodeError::MalformedRootHeader);
    }
    buffer.push(named_root[0]);
    append(buffer, named_root, NAMED_ROOT_HEADER_LEN);
    Ok(())
}

/// Appends `bytes` from position `from` on.
fn append(buffer: &mut Vec<u8>, bytes: &[u8], from: usize)
    requires
        from <= bytes@.len(),
    ensures
        final(buffer)@ == old(buffer)@ + bytes@.subrange(from as int, bytes@.len() as int),
{
    let ghost start = old(buffer)@;
    let mut index: usize = from;
    while index < bytes.len()
        invariant
            from <= index <= bytes@.len(),
            start == old(buffer)@,
            buffer@ == start + bytes@.subrange(from as int, index as int),
        decreases bytes@.len() - index,
    {
        buffer.push(bytes[index]);
        proof {
            assert(bytes@.subrange(from as int, index + 1) =~= bytes@.subrange(
                from as int,
                index as int,
            ).push(bytes@[index as int]));
        }
        index += 1;
    }
}

} // verus!
