//! The codec against an independent implementation of the same wire format.

use bytes::{Buf, BufMut};
use greeter::message::{HelloReply, HelloRequest};
use greeter::varint::{read_varint, write_varint};
use prost::encoding::{skip_field, string, DecodeContext, WireType};
use prost::{DecodeError, Message};

/// The request as a schema compiler would lay it out: one text, field 1.
#[derive(Debug, Default, PartialEq)]
struct SchemaRequest {
    name: String,
}

impl Message for SchemaRequest {
    fn encode_raw(&self, buf: &mut impl BufMut) {
        if !self.name.is_empty() {
            string::encode(1, &self.name, buf);
        }
    }

    fn merge_field(
        &mut self,
        tag: u32,
        wire_type: WireType,
        buf: &mut impl Buf,
        ctx: DecodeContext,
    ) -> Result<(), DecodeError> {
        match tag {
            1 => string::merge(wire_type, &mut self.name, buf, ctx),
            _ => skip_field(wire_type, tag, buf, ctx),
        }
    }

    fn encoded_len(&self) -> usize {
        if self.name.is_empty() {
            0
        } else {
            string::encoded_len(1, &self.name)
        }
    }

    fn clear(&mut self) {
        self.name.clear();
    }
}

fn schema_decode(bytes: &[u8]) -> Option<String> {
    SchemaRequest::decode(bytes).ok().map(|message| message.name)
}

fn library_decode(bytes: &[u8]) -> Option<String> {
    HelloRequest::decode(bytes).ok().map(|message| message.name)
}

struct Random(u64);

impl Random {
    fn next(&mut self) -> u64 {
        self.0 ^= self.0 << 13;
        self.0 ^= self.0 >> 7;
        self.0 ^= self.0 << 17;
        self.0
    }

    fn below(&mut self, bound: u64) -> u64 {
        (self.next() >> 11) % bound
    }
}

#[test]
fn encoding_matches_the_schema_encoding() {
    let names = ["", "World", "Grüße", "😀", "a\0b", &"x".repeat(127), &"x".repeat(128), &"é".repeat(20_000)];
    for name in names {
        let expected = SchemaRequest { name: name.to_string() }.encode_to_vec();
        assert_eq!(HelloRequest { name: name.to_string() }.encode(), expected);
        assert_eq!(HelloReply { message: name.to_string() }.encode(), expected);
    }
}

#[test]
fn decoding_matches_the_schema_decoding_on_chosen_bytes() {
    let cases: [&[u8]; 24] = [
        &[],
        &[0x0A, 0x05, b'W', b'o', b'r', b'l', b'd'],
        &[0x0A, 0x00],
        &[0x0A, 0x05, b'W'],
        &[0x0A, 0x01, 0xFF],
        &[0x0A, 0x01, b'a', 0x0A, 0x01, b'b'],
        &[0x08, 0x01],
        &[0x0B, 0x0C],
        &[0x0C],
        &[0x10, 0x96, 0x01],
        &[0x10, 0xFF, 0xFF, 0xFF, 0xFF, 0xFF, 0xFF, 0xFF, 0xFF, 0xFF, 0x01],
        &[0x10, 0xFF, 0xFF, 0xFF, 0xFF, 0xFF, 0xFF, 0xFF, 0xFF, 0xFF, 0x02],
        &[0x10, 0x80, 0x80, 0x80, 0x80, 0x80, 0x80, 0x80, 0x80, 0x80, 0x80, 0x01],
        &[0x13, 0x0A, 0x02, b'z', b'z', 0x14, 0x0A, 0x01, b'a'],
        &[0x13, 0x1B, 0x1C, 0x14],
        &[0x13, 0x1B, 0x14, 0x1C],
        &[0x13],
        &[0x14],
        &[0x00],
        &[0x16],
        &[0x17, 0x00],
        &[0x80, 0x80, 0x80, 0x80, 0x10, 0x00],
        &[0x8A, 0x00, 0x81, 0x00, b'a'],
        &[0x12, 0xFF, 0xFF, 0xFF, 0xFF, 0xFF, 0xFF, 0xFF, 0xFF, 0xFF, 0x01],
    ];
    for bytes in cases {
        assert_eq!(library_decode(bytes), schema_decode(bytes), "{:?}", bytes);
    }
}

#[test]
fn decoding_matches_the_schema_decoding_at_the_depth_limit() {
    for depth in [1usize, 2, 50, 99, 100, 101, 102, 200] {
        for inner in [&[][..], &[0x18, 0x05][..], &[0x0A, 0x01, b'a'][..]] {
            let mut bytes = vec![0x13; depth];
            bytes.extend_from_slice(inner);
            bytes.extend(std::iter::repeat(0x14).take(depth));
            bytes.extend_from_slice(&[0x0A, 0x01, b'k']);
            assert_eq!(library_decode(&bytes), schema_decode(&bytes), "depth {}", depth);
        }
    }
}

#[test]
fn decoding_matches_the_schema_decoding_on_all_short_inputs() {
    for first in 0..=255u8 {
        assert_eq!(library_decode(&[first]), schema_decode(&[first]));
        for second in 0..=255u8 {
            let bytes = [first, second];
            assert_eq!(library_decode(&bytes), schema_decode(&bytes), "{:?}", bytes);
        }
    }
}

#[test]
fn decoding_matches_the_schema_decoding_on_random_bytes() {
    let mut random = Random(0x2545_F491_4F6C_DD1D);
    for _ in 0..30_000 {
        let len = random.below(16) as usize;
        let bytes: Vec<u8> = (0..len).map(|_| random.below(256) as u8).collect();
        assert_eq!(library_decode(&bytes), schema_decode(&bytes), "{:?}", bytes);
    }
}

fn random_message(random: &mut Random) -> Vec<u8> {
    let mut bytes = Vec::new();
    let fields = random.below(6);
    for _ in 0..fields {
        let field = match random.below(4) {
            0 => 0u64,
            1 | 2 => 1,
            _ => random.below(5),
        };
        let wire_type = random.below(8);
        write_varint(field * 8 + wire_type, &mut bytes);
        match random.below(5) {
            0 => write_varint(random.next(), &mut bytes),
            1 => {
                let len = random.below(5);
                write_varint(len, &mut bytes);
                for _ in 0..len {
                    let byte = if random.below(4) == 0 { random.below(256) } else { 0x20 + random.below(0x5F) };
                    bytes.push(byte as u8);
                }
            },
            2 => {
                for _ in 0..random.below(9) {
                    bytes.push(random.below(256) as u8);
                }
            },
            3 => bytes.push((0x03 + 8 * random.below(3)) as u8),
            _ => bytes.push((0x04 + 8 * random.below(3)) as u8),
        }
    }
    if random.below(4) == 0 && !bytes.is_empty() {
        let keep = random.below(bytes.len() as u64) as usize;
        bytes.truncate(keep);
    }
    bytes
}

#[test]
fn decoding_matches_the_schema_decoding_on_random_messages() {
    let mut random = Random(0x0123_4567_89AB_CDEF);
    let mut accepted = 0;
    for _ in 0..60_000 {
        let bytes = random_message(&mut random);
        let expected = schema_decode(&bytes);
        if expected.is_some() {
            accepted += 1;
        }
        assert_eq!(library_decode(&bytes), expected, "{:?}", bytes);
    }
    assert!(accepted > 1_000, "only {} messages were well formed", accepted);
}

fn random_fields(random: &mut Random, depth: u64, out: &mut Vec<u8>) {
    let fields = random.below(4);
    for _ in 0..fields {
        let field = 1 + random.below(3);
        match random.below(6) {
            0 => {
                write_varint(field * 8, out);
                write_varint(random.next() >> random.below(64), out);
            },
            1 => {
                write_varint(field * 8 + 1, out);
                out.extend_from_slice(&random.next().to_le_bytes());
            },
            2 => {
                write_varint(field * 8 + 5, out);
                out.extend_from_slice(&(random.next() as u32).to_le_bytes());
            },
            3 => {
                let text = ["", "a", "World", "é", "😀"][random.below(5) as usize];
                write_varint(field * 8 + 2, out);
                write_varint(text.len() as u64, out);
                out.extend_from_slice(text.as_bytes());
            },
            _ => {
                if depth < 4 {
                    write_varint(field * 8 + 3, out);
                    random_fields(random, depth + 1, out);
                    let closing = if random.below(12) == 0 { 1 + random.below(3) } else { field };
                    write_varint(closing * 8 + 4, out);
                }
            },
        }
    }
}

#[test]
fn decoding_matches_the_schema_decoding_on_random_groups() {
    let mut random = Random(0x0F1E_2D3C_4B5A_6978);
    let mut accepted = 0;
    let mut with_groups = 0;
    for _ in 0..40_000 {
        let mut bytes = Vec::new();
        random_fields(&mut random, 0, &mut bytes);
        if random.below(10) == 0 && !bytes.is_empty() {
            let keep = random.below(bytes.len() as u64) as usize;
            bytes.truncate(keep);
        }
        let expected = schema_decode(&bytes);
        if expected.is_some() {
            accepted += 1;
            if bytes.iter().any(|byte| byte & 7 == 3) {
                with_groups += 1;
            }
        }
        assert_eq!(library_decode(&bytes), expected, "{:?}", bytes);
    }
    assert!(accepted > 5_000, "only {} messages were well formed", accepted);
    assert!(with_groups > 500, "only {} well-formed messages held groups", with_groups);
}

#[test]
fn decoding_matches_the_schema_decoding_on_very_deep_groups() {
    let bytes = vec![0x13u8; 100_000];
    assert_eq!(library_decode(&bytes), schema_decode(&bytes));
    assert_eq!(library_decode(&bytes), None);
}

#[test]
fn varint_matches_the_schema_varint() {
    let mut random = Random(0xDEAD_BEEF_CAFE_F00D);
    for round in 0..20_000u64 {
        let value = match round % 4 {
            0 => random.next(),
            1 => random.below(1 << 14),
            2 => random.below(1 << 35),
            _ => u64::MAX - random.below(1 << 10),
        };
        let mut ours = Vec::new();
        write_varint(value, &mut ours);
        let mut theirs = Vec::new();
        prost::encoding::encode_varint(value, &mut theirs);
        assert_eq!(ours, theirs);
        assert_eq!(read_varint(&ours), Some((value, ours.len())));
    }
}

#[test]
fn read_varint_matches_the_schema_reader() {
    let mut random = Random(0x1357_9BDF_0246_8ACE);
    for _ in 0..30_000 {
        let len = random.below(13) as usize;
        let bytes: Vec<u8> = (0..len)
            .map(|_| if random.below(3) == 0 { random.below(128) as u8 } else { 0x80 | random.below(128) as u8 })
            .collect();
        let mut buf = &bytes[..];
        let expected = prost::encoding::decode_varint(&mut buf).ok().map(|value| (value, bytes.len() - buf.len()));
        assert_eq!(read_varint(&bytes), expected, "{:?}", bytes);
    }
}
