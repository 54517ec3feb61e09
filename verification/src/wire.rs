//! Field keys and field values of the wire format.
//!
//! A message is a run of fields. Each field starts with a key, an encoded
//! integer that holds the field's number and its wire type, and the wire
//! type says how long the value after the key is.

use crate::varint::{
    lemma_read_varint_bounds, lemma_read_varint_ignores_tail, lemma_varint_round_trip,
    read_varint, spec_read_varint, spec_varint, write_varint, MAX_VARINT_LEN,
};
use vstd::prelude::*;
use vstd::slice::slice_subrange;

verus! {

/// The highest field number that a key can hold.
pub const MAX_FIELD: u32 = 0x1FFF_FFFF;

/// How the value of a field is laid out.
#[derive(Clone, Copy, Debug, PartialEq, Eq, Structural)]
pub enum WireType {
    /// One encoded integer.
    Varint,
    /// Eight bytes.
    Fixed64,
    /// An encoded length, then that many bytes.
    LengthDelimited,
    /// Opens a group: fields follow, up to the matching `EndGroup`.
    StartGroup,
    /// Closes the group that was opened last.
    EndGroup,
    /// Four bytes.
    Fixed32,
}

impl WireType {
    /// The number that stands for this wire type in a key.
    pub open spec fn spec_code(self) -> nat {
        match self {
            WireType::Varint => 0,
            WireType::Fixed64 => 1,
            WireType::LengthDelimited => 2,
            WireType::StartGroup => 3,
            WireType::EndGroup => 4,
            WireType::Fixed32 => 5,
        }
    }

    /// The wire type that `code` stands for; 6 and 7 stand for none.
    pub open spec fn spec_from_code(code: nat) -> Option<WireType> {
        if code == 0 {
            Some(WireType::Varint)
        } else if code == 1 {
            Some(WireType::Fixed64)
        } else if code == 2 {
            Some(WireType::LengthDelimited)
        } else if code == 3 {
            Some(WireType::StartGroup)
        } else if code == 4 {
            Some(WireType::EndGroup)
        } else if code == 5 {
            Some(WireType::Fixed32)
        } else {
            None
        }
    }

    /// The number that stands for this wire type in a key.
    pub fn code(self) -> (code: u8)
        ensures
            code == self.spec_code(),
    {
        match self {
            WireType::Varint => 0,
            WireType::Fixed64 => 1,
            WireType::LengthDelimited => 2,
            WireType::StartGroup => 3,
            WireType::EndGroup => 4,
            WireType::Fixed32 => 5,
        }
    }

    /// The wire type that `code` stands for, if any.
    pub fn from_code(code: u64) -> (wire_type: Option<WireType>)
        ensures
            wire_type == WireType::spec_from_code(code as nat),
    {
        if code == 0 {
            Some(WireType::Varint)
        } else if code == 1 {
            Some(WireType::Fixed64)
        } else if code == 2 {
            Some(WireType::LengthDelimited)
        } else if code == 3 {
            Some(WireType::StartGroup)
        } else if code == 4 {
            Some(WireType::EndGroup)
        } else if code == 5 {
            Some(WireType::Fixed32)
        } else {
            None
        }
    }
}

/// The head of a field: its number and how its value is laid out.
#[derive(Clone, Copy, Debug, PartialEq, Eq, Structural)]
pub struct Key {
    pub field: u32,
    pub wire_type: WireType,
}

impl Key {
    /// A key can be written and read back if its field number is from 1 to
    /// `MAX_FIELD`.
    pub open spec fn spec_valid(self) -> bool {
        1 <= self.field <= MAX_FIELD
    }

    /// The integer that holds the key: the field number above the three bits
    /// of the wire type.
    pub open spec fn spec_code(self) -> nat {
        (self.field * 8 + self.wire_type.spec_code()) as nat
    }
}

/// The key that the integer `code` holds: `None` where the code does not fit
/// in 32 bits, names field 0, or names no wire type.
pub open spec fn spec_key_of_code(code: u64) -> Option<Key> {
    if code > u32::MAX || code / 8 == 0 {
        None
    } else {
        match WireType::spec_from_code((code % 8) as nat) {
            Some(wire_type) => Some(Key { field: (code / 8) as u32, wire_type }),
            None => None,
        }
    }
}

/// Reads a key from the head of `bytes`: the key and the bytes it takes.
pub open spec fn spec_read_key(bytes: Seq<u8>) -> Option<(Key, nat)> {
    match spec_read_varint(bytes) {
        Some((code, len)) => match spec_key_of_code(code) {
            Some(key) => Some((key, len)),
            None => None,
        },
        None => None,
    }
}

/// Reads a length and that many bytes from the head of `bytes`: the bytes
/// after the length, and what both take together.
pub open spec fn spec_read_delimited(bytes: Seq<u8>) -> Option<(Seq<u8>, nat)> {
    match spec_read_varint(bytes) {
        Some((len, used)) => if len <= bytes.len() - used {
            Some((bytes.subrange(used as int, used + len), (used + len) as nat))
        } else {
            None
        },
        None => None,
    }
}

/// The length of a value of `wire_type` at the head of `bytes`; `None`
/// where the bytes end before the value does. A group has no value of its
/// own: its fields follow.
pub open spec fn spec_value_len(wire_type: WireType, bytes: Seq<u8>) -> Option<nat> {
    match wire_type {
        WireType::Varint => match spec_read_varint(bytes) {
            Some((_, used)) => Some(used),
            None => None,
        },
        WireType::Fixed64 => if bytes.len() >= 8 {
            Some(8)
        } else {
            None
        },
        WireType::LengthDelimited => match spec_read_delimited(bytes) {
            Some((_, used)) => Some(used),
            None => None,
        },
        WireType::StartGroup => Some(0),
        WireType::EndGroup => Some(0),
        WireType::Fixed32 => if bytes.len() >= 4 {
            Some(4)
        } else {
            None
        },
    }
}

/// Appends `key` to `out`.
pub fn write_key(key: Key, out: &mut Vec<u8>)
    ensures
        final(out)@ == old(out)@ + spec_varint(key.spec_code()),
{
    let code: u64 = key.field as u64 * 8 + key.wire_type.code() as u64;
    write_varint(code, out);
}

/// Reads a key from the head of `bytes`: the key and the bytes it takes.
pub fn read_key(bytes: &[u8]) -> (r: Option<(Key, usize)>)
    ensures
        match r {
            Some((key, len)) => spec_read_key(bytes@) == Some((key, len as nat)) && 1 <= len
                <= bytes@.len() && key.spec_valid(),
            None => spec_read_key(bytes@) is None,
        },
{
    match read_varint(bytes) {
        None => None,
        Some((code, len)) => {
            if code > u32::MAX as u64 || code / 8 == 0 {
                None
            } else {
                match WireType::from_code(code % 8) {
                    None => None,
                    Some(wire_type) => Some((Key { field: (code / 8) as u32, wire_type }, len)),
                }
            }
        },
    }
}

/// Reads a length and that many bytes from the head of `bytes`: the bytes
/// after the length, and what both take together.
pub fn read_delimited(bytes: &[u8]) -> (r: Option<(&[u8], usize)>)
    ensures
        match r {
            Some((payload, used)) => spec_read_delimited(bytes@) == Some((payload@, used as nat))
                && 1 <= used <= bytes@.len(),
            None => spec_read_delimited(bytes@) is None,
        },
{
    match read_varint(bytes) {
        None => None,
        Some((len, used)) => {
            if len > (bytes.len() - used) as u64 {
                None
            } else {
                let end: usize = used + len as usize;
                Some((slice_subrange(bytes, used, end), end))
            }
        },
    }
}

/// The length of a value of `wire_type` at the head of `bytes`.
pub fn value_len(wire_type: WireType, bytes: &[u8]) -> (r: Option<usize>)
    ensures
        match r {
            Some(len) => spec_value_len(wire_type, bytes@) == Some(len as nat) && len
                <= bytes@.len(),
            None => spec_value_len(wire_type, bytes@) is None,
        },
{
    match wire_type {
        WireType::Varint => match read_varint(bytes) {
            Some((_, used)) => Some(used),
            None => None,
        },
        WireType::Fixed64 => if bytes.len() >= 8 {
            Some(8)
        } else {
            None
        },
        WireType::LengthDelimited => match read_delimited(bytes) {
            Some((_, used)) => Some(used),
            None => None,
        },
        WireType::StartGroup => Some(0),
        WireType::EndGroup => Some(0),
        WireType::Fixed32 => if bytes.len() >= 4 {
            Some(4)
        } else {
            None
        },
    }
}

/// A valid key that is written reads back as the same key, whatever follows
/// it.
pub proof fn lemma_key_round_trip(key: Key, tail: Seq<u8>)
    requires
        key.spec_valid(),
    ensures
        spec_read_key(spec_varint(key.spec_code()) + tail) == Some(
            (key, spec_varint(key.spec_code()).len()),
        ),
{
    lemma_varint_round_trip(key.spec_code() as u64, tail);
}

/// A key that is read from the head of some bytes is read from them whatever
/// follows.
pub proof fn lemma_read_key_ignores_tail(bytes: Seq<u8>, tail: Seq<u8>)
    requires
        spec_read_key(bytes) is Some,
    ensures
        spec_read_key(bytes + tail) == spec_read_key(bytes),
{
    lemma_read_varint_ignores_tail(bytes, tail, MAX_VARINT_LEN as nat);
}

/// A length and its bytes that are read from the head of some bytes are read
/// from them whatever follows.
pub proof fn lemma_read_delimited_ignores_tail(bytes: Seq<u8>, tail: Seq<u8>)
    requires
        spec_read_delimited(bytes) is Some,
    ensures
        spec_read_delimited(bytes + tail) == spec_read_delimited(bytes),
{
    lemma_read_varint_ignores_tail(bytes, tail, MAX_VARINT_LEN as nat);
    lemma_read_varint_bounds(bytes, MAX_VARINT_LEN as nat);
    let (len, used) = spec_read_varint(bytes).unwrap();
    assert((bytes + tail).subrange(used as int, used + len) == bytes.subrange(
        used as int,
        used + len,
    ));
}

/// A value that is complete at the head of some bytes has the same length
/// whatever follows.
pub proof fn lemma_value_len_ignores_tail(wire_type: WireType, bytes: Seq<u8>, tail: Seq<u8>)
    requires
        spec_value_len(wire_type, bytes) is Some,
    ensures
        spec_value_len(wire_type, bytes + tail) == spec_value_len(wire_type, bytes),
{
    if wire_type == WireType::Varint {
        lemma_read_varint_ignores_tail(bytes, tail, MAX_VARINT_LEN as nat);
    } else if wire_type == WireType::LengthDelimited {
        lemma_read_delimited_ignores_tail(bytes, tail);
    }
}

} // verus!
