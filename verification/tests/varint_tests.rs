use greeter::varint::{read_varint, write_varint, MAX_VARINT_LEN};

fn written(value: u64) -> Vec<u8> {
    let mut out = Vec::new();
    write_varint(value, &mut out);
    out
}

#[test]
fn varint_of_small_values_is_one_byte() {
    assert_eq!(written(0), vec![0x00]);
    assert_eq!(written(1), vec![0x01]);
    assert_eq!(written(127), vec![0x7F]);
}

#[test]
fn varint_of_larger_values_sets_continuation_bits() {
    assert_eq!(written(128), vec![0x80, 0x01]);
    assert_eq!(written(150), vec![0x96, 0x01]);
    assert_eq!(written(300), vec![0xAC, 0x02]);
    assert_eq!(written(16_384), vec![0x80, 0x80, 0x01]);
}

#[test]
fn varint_of_the_largest_value_is_ten_bytes() {
    let bytes = written(u64::MAX);
    assert_eq!(bytes.len(), MAX_VARINT_LEN);
    assert_eq!(bytes, vec![0xFF, 0xFF, 0xFF, 0xFF, 0xFF, 0xFF, 0xFF, 0xFF, 0xFF, 0x01]);
}

#[test]
fn write_varint_appends_to_what_is_there() {
    let mut out = vec![0xAA, 0xBB];
    write_varint(300, &mut out);
    assert_eq!(out, vec![0xAA, 0xBB, 0xAC, 0x02]);
}

#[test]
fn read_varint_gives_value_and_length() {
    assert_eq!(read_varint(&[0x00]), Some((0, 1)));
    assert_eq!(read_varint(&[0x7F]), Some((127, 1)));
    assert_eq!(read_varint(&[0x96, 0x01]), Some((150, 2)));
    assert_eq!(read_varint(&[0xAC, 0x02]), Some((300, 2)));
}

#[test]
fn read_varint_ignores_what_follows() {
    assert_eq!(read_varint(&[0x96, 0x01, 0xFF, 0xFF]), Some((150, 2)));
    assert_eq!(read_varint(&[0x05, 0x80]), Some((5, 1)));
}

#[test]
fn read_varint_accepts_needless_zero_groups() {
    assert_eq!(read_varint(&[0x80, 0x00]), Some((0, 2)));
    assert_eq!(read_varint(&[0x81, 0x80, 0x00]), Some((1, 3)));
}

#[test]
fn read_varint_fails_on_no_bytes() {
    assert_eq!(read_varint(&[]), None);
}

#[test]
fn read_varint_fails_when_cut_short() {
    assert_eq!(read_varint(&[0x80]), None);
    assert_eq!(read_varint(&[0xFF, 0xFF, 0xFF]), None);
}

#[test]
fn read_varint_fails_beyond_ten_bytes() {
    let bytes = [0x80, 0x80, 0x80, 0x80, 0x80, 0x80, 0x80, 0x80, 0x80, 0x80, 0x01];
    assert_eq!(read_varint(&bytes), None);
}

#[test]
fn read_varint_fails_beyond_64_bits() {
    let fits = [0xFF, 0xFF, 0xFF, 0xFF, 0xFF, 0xFF, 0xFF, 0xFF, 0xFF, 0x01];
    assert_eq!(read_varint(&fits), Some((u64::MAX, 10)));
    let too_large = [0xFF, 0xFF, 0xFF, 0xFF, 0xFF, 0xFF, 0xFF, 0xFF, 0xFF, 0x02];
    assert_eq!(read_varint(&too_large), None);
    let top_bit = [0x80, 0x80, 0x80, 0x80, 0x80, 0x80, 0x80, 0x80, 0x80, 0x01];
    assert_eq!(read_varint(&top_bit), Some((1u64 << 63, 10)));
}

#[test]
fn varint_round_trip_on_chosen_values() {
    let values = [
        0u64,
        1,
        127,
        128,
        255,
        256,
        16_383,
        16_384,
        u32::MAX as u64,
        u32::MAX as u64 + 1,
        (1u64 << 56) - 1,
        1u64 << 56,
        (1u64 << 63) - 1,
        1u64 << 63,
        u64::MAX,
    ];
    for value in values {
        let mut bytes = written(value);
        let len = bytes.len();
        assert_eq!(read_varint(&bytes), Some((value, len)));
        bytes.push(0x80);
        assert_eq!(read_varint(&bytes), Some((value, len)));
    }
}

#[test]
fn varint_cut_short_cannot_be_read() {
    for value in [128u64, 300, 1 << 40, u64::MAX] {
        let bytes = written(value);
        for keep in 0..bytes.len() {
            assert_eq!(read_varint(&bytes[..keep]), None);
        }
    }
}
