//! The wire codec of the two messages.
//!
//! Both messages hold one text, carried as field 1, length-delimited, in
//! UTF-8. A text that is empty is not written at all, and a message without
//! the field reads as the empty text. A reader skips every field it does not
//! know, so that a peer with a newer schema is still understood.

use crate::message::{HelloReply, HelloRequest};
use crate::varint::{
    lemma_read_varint_bounds, lemma_truncated_varint, lemma_varint_round_trip, spec_varint,
    write_varint, MAX_VARINT_LEN,
};
use crate::wire::{
    lemma_key_round_trip, lemma_read_delimited_ignores_tail, lemma_read_key_ignores_tail,
    lemma_value_len_ignores_tail, read_delimited, read_key, spec_read_delimited, spec_read_key,
    spec_value_len, value_len, write_key, Key, WireType,
};
use vstd::prelude::*;
use vstd::slice::slice_subrange;
use vstd::string::{StringExecFns, StringSliceAdditionalSpecFns};
use vstd::utf8::{decode_utf8, encode_utf8, valid_utf8};

verus! {

/// The number of the field that carries the text.
pub const TEXT_FIELD: u32 = 1;

/// How many groups may be open, one inside the other, around a field that
/// is skipped.
pub const MAX_GROUP_DEPTH: usize = 100;

/// Why bytes could not be read as a message.
#[derive(Clone, Copy, Debug, PartialEq, Eq, Structural)]
pub enum DecodeError {
    /// The bytes do not parse as the expected schema: they are cut short, a
    /// key or a length is corrupt, the text field has another wire type or
    /// is not UTF-8, or groups are not properly closed.
    MalformedMessage,
}

/// The key in front of the text.
pub open spec fn spec_text_key() -> Key {
    Key { field: TEXT_FIELD, wire_type: WireType::LengthDelimited }
}

/// The bytes of a message whose text is `text`: nothing for the empty text,
/// else the key, the length of the text in UTF-8, and the text in UTF-8.
pub open spec fn spec_encode_text(text: Seq<char>) -> Seq<u8> {
    if text.len() == 0 {
        Seq::empty()
    } else {
        spec_varint(spec_text_key().spec_code()) + spec_varint(encode_utf8(text).len())
            + encode_utf8(text)
    }
}

/// What reading one field leaves behind.
pub ghost struct FieldStep {
    /// The bytes that the field took.
    pub used: nat,
    /// The numbers of the groups that are open after it, innermost last.
    pub groups: Seq<u32>,
    /// The text of the message as far as it is known after it.
    pub text: Seq<char>,
}

/// Reads the field at the head of `bytes`, inside the open `groups` and with
/// `text` read so far; `None` where the field is malformed.
///
/// Outside any group, field 1 must be length-delimited UTF-8 and replaces the
/// text. Every other field is skipped by its wire type. A group is skipped
/// with all that it holds: it must be closed by an end key of the same
/// number, and no field may lie `MAX_GROUP_DEPTH` groups deep.
pub open spec fn spec_parse_field(bytes: Seq<u8>, groups: Seq<u32>, text: Seq<char>) -> Option<
    FieldStep,
> {
    match spec_read_key(bytes) {
        None => None,
        Some((key, key_len)) => {
            let value = bytes.skip(key_len as int);
            if key.wire_type == WireType::EndGroup {
                if groups.len() > 0 && groups.last() == key.field {
                    Some(FieldStep { used: key_len, groups: groups.drop_last(), text })
                } else {
                    None
                }
            } else if groups.len() >= MAX_GROUP_DEPTH {
                None
            } else if groups.len() == 0 && key.field == TEXT_FIELD {
                if key.wire_type == WireType::LengthDelimited {
                    match spec_read_delimited(value) {
                        Some((payload, used)) => if valid_utf8(payload) {
                            Some(
                                FieldStep {
                                    used: key_len + used,
                                    groups,
                                    text: decode_utf8(payload),
                                },
                            )
                        } else {
                            None
                        },
                        None => None,
                    }
                } else {
                    None
                }
            } else if key.wire_type == WireType::StartGroup {
                Some(FieldStep { used: key_len, groups: groups.push(key.field), text })
            } else {
                match spec_value_len(key.wire_type, value) {
                    Some(used) => Some(FieldStep { used: key_len + used, groups, text }),
                    None => None,
                }
            }
        },
    }
}

/// A field that is read takes at least one byte and no more than there are.
pub proof fn lemma_field_takes_bytes(bytes: Seq<u8>, groups: Seq<u32>, text: Seq<char>)
    ensures
        spec_parse_field(bytes, groups, text) matches Some(step) ==> 1 <= step.used <= bytes.len(),
{
    lemma_read_varint_bounds(bytes, MAX_VARINT_LEN as nat);
    if let Some((_, key_len)) = spec_read_key(bytes) {
        lemma_read_varint_bounds(bytes.skip(key_len as int), MAX_VARINT_LEN as nat);
    }
}

/// Reads fields up to the end of `bytes`: the text of the message, or `None`
/// where a field is malformed or a group is left open.
pub open spec fn spec_parse_fields(bytes: Seq<u8>, groups: Seq<u32>, text: Seq<char>) -> Option<
    Seq<char>,
>
    decreases bytes.len(),
{
    if bytes.len() == 0 {
        if groups.len() == 0 {
            Some(text)
        } else {
            None
        }
    } else {
        match spec_parse_field(bytes, groups, text) {
            None => None,
            Some(step) => {
                proof {
                    lemma_field_takes_bytes(bytes, groups, text);
                }
                spec_parse_fields(bytes.skip(step.used as int), step.groups, step.text)
            },
        }
    }
}

/// The text of the message that `bytes` hold, or `None` where they are
/// malformed. No bytes hold the empty text.
pub open spec fn spec_decode_text(bytes: Seq<u8>) -> Option<Seq<char>> {
    spec_parse_fields(bytes, Seq::empty(), Seq::empty())
}

/// `std::str::from_utf8`: the bytes as text where they are well-formed UTF-8,
/// and only then. The text that comes back has exactly the given bytes.
#[verifier::external_body]
fn text_of_utf8(bytes: &[u8]) -> (r: Option<&str>)
    ensures
        r is Some <==> valid_utf8(bytes@),
        r matches Some(text) ==> text.spec_bytes() == bytes@,
{
    match std::str::from_utf8(bytes) {
        Ok(text) => Some(text),
        Err(_) => None,
    }
}

/// The bytes of a message whose text is `text`. They read back as `text`.
pub fn encode_text(text: &str) -> (out: Vec<u8>)
    ensures
        out@ == spec_encode_text(text@),
        spec_decode_text(out@) == Some(text@),
{
    let mut out: Vec<u8> = Vec::new();
    let payload = text.as_bytes();
    let length: usize = payload.len();
    proof {
        lemma_decode_encode(text@);
    }
    if !text.is_empty() {
        write_key(Key { field: TEXT_FIELD, wire_type: WireType::LengthDelimited }, &mut out);
        write_varint(length as u64, &mut out);
        let ghost head = out@;
        let mut i: usize = 0;
        while i < length
            invariant
                length == payload@.len(),
                i <= length,
                out@ == head + payload@.take(i as int),
            decreases length - i,
        {
            out.push(payload[i]);
            i = i + 1;
        }
        assert(payload@.take(i as int) == payload@);
    }
    out
}

/// The text of the message that `bytes` hold.
pub fn decode_text(bytes: &[u8]) -> (r: Result<String, DecodeError>)
    ensures
        match r {
            Ok(text) => spec_decode_text(bytes@) == Some(text@),
            Err(error) => spec_decode_text(bytes@) is None && error == DecodeError::MalformedMessage,
        },
{
    let total = bytes.len();
    let mut pos: usize = 0;
    let mut groups: Vec<u32> = Vec::new();
    let mut text = String::new();
    proof {
        assert(bytes@.skip(0) == bytes@);
    }
    while pos < total
        invariant
            total == bytes@.len(),
            pos <= total,
            spec_parse_fields(bytes@.skip(pos as int), groups@, text@) == spec_decode_text(bytes@),
        decreases total - pos,
    {
        let rest = slice_subrange(bytes, pos, total);
        let ghost before = groups@;
        proof {
            lemma_field_takes_bytes(rest@, before, text@);
        }
        let (key, key_len) = match read_key(rest) {
            Some(read) => read,
            None => {
                return Err(DecodeError::MalformedMessage);
            },
        };
        let value = slice_subrange(rest, key_len, rest.len());
        let used: usize;
        if key.wire_type == WireType::EndGroup {
            match groups.pop() {
                Some(open) => {
                    if open != key.field {
                        return Err(DecodeError::MalformedMessage);
                    }
                },
                None => {
                    return Err(DecodeError::MalformedMessage);
                },
            }
            used = key_len;
        } else if groups.len() >= MAX_GROUP_DEPTH {
            return Err(DecodeError::MalformedMessage);
        } else if groups.len() == 0 && key.field == TEXT_FIELD {
            if key.wire_type != WireType::LengthDelimited {
                return Err(DecodeError::MalformedMessage);
            }
            let (payload, payload_used) = match read_delimited(value) {
                Some(read) => read,
                None => {
                    return Err(DecodeError::MalformedMessage);
                },
            };
            match text_of_utf8(payload) {
                Some(read) => {
                    text = <String as StringExecFns>::from_str(read);
                    proof {
                        vstd::utf8::encode_utf8_decode_utf8(read@);
                    }
                },
                None => {
                    return Err(DecodeError::MalformedMessage);
                },
            }
            used = key_len + payload_used;
        } else if key.wire_type == WireType::StartGroup {
            groups.push(key.field);
            used = key_len;
        } else {
            match value_len(key.wire_type, value) {
                Some(len) => {
                    used = key_len + len;
                },
                None => {
                    return Err(DecodeError::MalformedMessage);
                },
            }
        }
        proof {
            assert(bytes@.skip(pos as int).skip(used as int) == bytes@.skip(pos + used));
        }
        pos = pos + used;
    }
    if groups.len() == 0 {
        Ok(text)
    } else {
        Err(DecodeError::MalformedMessage)
    }
}

impl HelloRequest {
    /// The bytes of this request on the wire. They read back as this
    /// request.
    pub fn encode(&self) -> (out: Vec<u8>)
        ensures
            out@ == spec_encode_text(self@),
            spec_decode_text(out@) == Some(self@),
    {
        encode_text(self.name.as_str())
    }

    /// The request that `bytes` hold. Fails with `MalformedMessage` exactly
    /// where the bytes do not parse; a message without a name reads as the
    /// empty name.
    pub fn decode(bytes: &[u8]) -> (r: Result<HelloRequest, DecodeError>)
        ensures
            match r {
                Ok(request) => spec_decode_text(bytes@) == Some(request@),
                Err(error) => spec_decode_text(bytes@) is None && error
                    == DecodeError::MalformedMessage,
            },
    {
        match decode_text(bytes) {
            Ok(name) => Ok(HelloRequest { name }),
            Err(error) => Err(error),
        }
    }
}

impl HelloReply {
    /// The bytes of this reply on the wire. They read back as this reply.
    pub fn encode(&self) -> (out: Vec<u8>)
        ensures
            out@ == spec_encode_text(self@),
            spec_decode_text(out@) == Some(self@),
    {
        encode_text(self.message.as_str())
    }

    /// The reply that `bytes` hold. Fails with `MalformedMessage` exactly
    /// where the bytes do not parse; a message without a text reads as the
    /// empty text.
    pub fn decode(bytes: &[u8]) -> (r: Result<HelloReply, DecodeError>)
        ensures
            match r {
                Ok(reply) => spec_decode_text(bytes@) == Some(reply@),
                Err(error) => spec_decode_text(bytes@) is None && error
                    == DecodeError::MalformedMessage,
            },
    {
        match decode_text(bytes) {
            Ok(message) => Ok(HelloReply { message }),
            Err(error) => Err(error),
        }
    }
}

/// A text can be sent if the length of its UTF-8 form fits in 64 bits, as
/// that of every text in memory does.
pub open spec fn spec_sendable(text: Seq<char>) -> bool {
    encode_utf8(text).len() <= u64::MAX
}

/// Round trip: decoding the encoding of a text gives the text back.
pub proof fn lemma_decode_encode(text: Seq<char>)
    requires
        spec_sendable(text),
    ensures
        spec_decode_text(spec_encode_text(text)) == Some(text),
{
    reveal_with_fuel(spec_parse_fields, 2);
    if text.len() > 0 {
        let payload = encode_utf8(text);
        let length = spec_varint(payload.len());
        let bytes = spec_encode_text(text);
        lemma_text_key_is_one_byte();
        lemma_key_round_trip(spec_text_key(), length + payload);
        lemma_varint_round_trip(payload.len() as u64, payload);
        let value = bytes.skip(1);
        assert(value == length + payload);
        assert(value.subrange(length.len() as int, (length.len() + payload.len()) as int) == payload);
        vstd::utf8::encode_utf8_valid_utf8(text);
        vstd::utf8::encode_utf8_decode_utf8(text);
    }
}

/// The key of the text field is the single byte 10.
proof fn lemma_text_key_is_one_byte()
    ensures
        spec_varint(spec_text_key().spec_code()) == seq![10u8],
{
}

/// Truncation: an encoding that is cut short, but not to nothing, is
/// malformed.
pub proof fn lemma_truncated_is_malformed(text: Seq<char>, keep: int)
    requires
        spec_sendable(text),
        0 < keep < spec_encode_text(text).len(),
    ensures
        spec_decode_text(spec_encode_text(text).take(keep)) is None,
{
    reveal_with_fuel(spec_parse_fields, 2);
    let payload = encode_utf8(text);
    let length = spec_varint(payload.len());
    let bytes = spec_encode_text(text);
    let cut = bytes.take(keep);
    lemma_text_key_is_one_byte();
    lemma_key_round_trip(spec_text_key(), cut.skip(1));
    let value = cut.skip(1);
    if keep - 1 < length.len() {
        assert(value == length.take(keep - 1));
        lemma_truncated_varint(payload.len(), keep - 1, MAX_VARINT_LEN as nat);
    } else {
        let part = payload.take(keep - 1 - length.len());
        assert(value == length + part);
        lemma_varint_round_trip(payload.len() as u64, part);
    }
}

/// A complete field that a reader of these messages does not know: its
/// number is not that of the text, it is no group, and its value ends where
/// `field` ends.
pub open spec fn spec_is_unknown_field(field: Seq<u8>) -> bool {
    match spec_read_key(field) {
        Some((key, key_len)) => key.field != TEXT_FIELD && key.wire_type != WireType::StartGroup
            && key.wire_type != WireType::EndGroup && spec_value_len(
            key.wire_type,
            field.skip(key_len as int),
        ) == Some((field.len() - key_len) as nat),
        None => false,
    }
}

/// Forward compatibility: an unknown field in front of other fields changes
/// nothing of what is read.
pub proof fn lemma_unknown_field_is_skipped(field: Seq<u8>, rest: Seq<u8>, text: Seq<char>)
    requires
        spec_is_unknown_field(field),
    ensures
        spec_parse_fields(field + rest, Seq::empty(), text) == spec_parse_fields(
            rest,
            Seq::empty(),
            text,
        ),
{
    let all = field + rest;
    let (key, key_len) = spec_read_key(field).unwrap();
    lemma_read_varint_bounds(field, MAX_VARINT_LEN as nat);
    lemma_read_key_ignores_tail(field, rest);
    assert(all.skip(key_len as int) == field.skip(key_len as int) + rest);
    lemma_value_len_ignores_tail(key.wire_type, field.skip(key_len as int), rest);
    assert(all.skip(field.len() as int) == rest);
}

/// A message without the text field reads as the empty text: no bytes do,
/// and so does an unknown field alone.
pub proof fn lemma_absent_text_is_empty(field: Seq<u8>)
    requires
        spec_is_unknown_field(field),
    ensures
        spec_decode_text(Seq::empty()) == Some(Seq::<char>::empty()),
        spec_decode_text(field) == Some(Seq::<char>::empty()),
{
    lemma_unknown_field_is_skipped(field, Seq::empty(), Seq::empty());
}

/// Forward compatibility: a message with an unknown field in front of the
/// text, or behind it, still reads as the text.
pub proof fn lemma_decode_with_unknown_field(text: Seq<char>, field: Seq<u8>)
    requires
        spec_sendable(text),
        spec_is_unknown_field(field),
    ensures
        spec_decode_text(field + spec_encode_text(text)) == Some(text),
        spec_decode_text(spec_encode_text(text) + field) == Some(text),
{
    lemma_decode_encode(text);
    lemma_unknown_field_is_skipped(field, spec_encode_text(text), Seq::empty());
    lemma_parse_fields_splits(spec_encode_text(text), field, Seq::empty(), Seq::empty());
    lemma_unknown_field_is_skipped(field, Seq::empty(), text);
}

/// A field that is read from the head of some bytes is read from them
/// whatever follows.
pub proof fn lemma_parse_field_ignores_tail(
    bytes: Seq<u8>,
    tail: Seq<u8>,
    groups: Seq<u32>,
    text: Seq<char>,
)
    requires
        spec_parse_field(bytes, groups, text) is Some,
    ensures
        spec_parse_field(bytes + tail, groups, text) == spec_parse_field(bytes, groups, text),
{
    let (key, key_len) = spec_read_key(bytes).unwrap();
    lemma_read_varint_bounds(bytes, MAX_VARINT_LEN as nat);
    lemma_read_key_ignores_tail(bytes, tail);
    let value = bytes.skip(key_len as int);
    assert((bytes + tail).skip(key_len as int) == value + tail);
    if key.wire_type != WireType::StartGroup && key.wire_type != WireType::EndGroup {
        if groups.len() == 0 && key.field == TEXT_FIELD {
            lemma_read_delimited_ignores_tail(value, tail);
        } else {
            lemma_value_len_ignores_tail(key.wire_type, value, tail);
        }
    }
}

/// Fields that read well to their end, followed by more bytes, read as the
/// two parts in turn.
pub proof fn lemma_parse_fields_splits(
    head: Seq<u8>,
    tail: Seq<u8>,
    groups: Seq<u32>,
    text: Seq<char>,
)
    requires
        spec_parse_fields(head, groups, text) is Some,
    ensures
        spec_parse_fields(head + tail, groups, text) == spec_parse_fields(
            tail,
            Seq::empty(),
            spec_parse_fields(head, groups, text).unwrap(),
        ),
    decreases head.len(),
{
    if head.len() == 0 {
        assert(groups == Seq::<u32>::empty());
    } else {
        let step = spec_parse_field(head, groups, text).unwrap();
        lemma_field_takes_bytes(head, groups, text);
        lemma_parse_field_ignores_tail(head, tail, groups, text);
        assert((head + tail).skip(step.used as int) == head.skip(step.used as int) + tail);
        lemma_parse_fields_splits(head.skip(step.used as int), tail, step.groups, step.text);
    }
}

} // verus!
