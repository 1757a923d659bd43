use request_responses::varint::{decode_varint, encode_varint, VarintError};

#[test]
fn encodes_small_numbers_in_one_byte() {
    assert_eq!(encode_varint(0), vec![0x00]);
    assert_eq!(encode_varint(1), vec![0x01]);
    assert_eq!(encode_varint(127), vec![0x7F]);
}

#[test]
fn encodes_larger_numbers_least_significant_group_first() {
    assert_eq!(encode_varint(128), vec![0x80, 0x01]);
    assert_eq!(encode_varint(300), vec![0xAC, 0x02]);
    assert_eq!(encode_varint(16_384), vec![0x80, 0x80, 0x01]);
    assert_eq!(encode_varint(0xFFFF_FFFF), vec![0xFF, 0xFF, 0xFF, 0xFF, 0x0F]);
}

#[test]
fn decodes_and_says_how_many_bytes_it_took() {
    assert_eq!(decode_varint(&[0x00]), Ok((0, 1)));
    assert_eq!(decode_varint(&[0x7F, 0xFF]), Ok((127, 1)));
    assert_eq!(decode_varint(&[0xAC, 0x02, 0x09, 0x09]), Ok((300, 2)));
    assert_eq!(decode_varint(&[0xFF, 0xFF, 0xFF, 0xFF, 0x0F]), Ok((0xFFFF_FFFF, 5)));
}

#[test]
fn decoding_undoes_encoding() {
    for n in [0usize, 1, 127, 128, 255, 256, 16_383, 16_384, 1 << 21, (1 << 28) - 1, usize::MAX] {
        let bytes = encode_varint(n);
        assert!(bytes.len() >= 1);
        assert_eq!(decode_varint(&bytes), Ok((n, bytes.len())));
        let mut longer = bytes.clone();
        longer.extend_from_slice(&[0xFF, 0x00, 0x80]);
        assert_eq!(decode_varint(&longer), Ok((n, bytes.len())));
    }
}

#[test]
fn too_few_bytes() {
    assert_eq!(decode_varint(&[]), Err(VarintError::Insufficient));
    assert_eq!(decode_varint(&[0x80]), Err(VarintError::Insufficient));
    assert_eq!(decode_varint(&[0xFF, 0xFF, 0xFF]), Err(VarintError::Insufficient));
}

#[test]
fn a_zero_byte_at_the_end_is_not_minimal() {
    assert_eq!(decode_varint(&[0x80, 0x00]), Err(VarintError::NotMinimal));
    assert_eq!(decode_varint(&[0xFF, 0x80, 0x00, 0x01]), Err(VarintError::NotMinimal));
}

#[test]
fn more_bytes_than_a_usize_takes() {
    let most = encode_varint(usize::MAX).len();
    assert_eq!(most, if usize::BITS == 64 { 10 } else { 5 });
    assert_eq!(decode_varint(&vec![0x80; most]), Err(VarintError::Overflow));
    assert_eq!(decode_varint(&vec![0xFF; most + 2]), Err(VarintError::Overflow));
    // Bytes that go on are too few, until the last one says that they are too many.
    assert_eq!(decode_varint(&vec![0x80; most - 1]), Err(VarintError::Insufficient));
}

#[test]
fn bits_that_do_not_fit_are_dropped() {
    let most = encode_varint(usize::MAX).len();
    let mut bytes = vec![0x80u8; most - 1];
    bytes.push(0x20);
    assert_eq!(decode_varint(&bytes), Ok((0, most)));
    let mut bytes = vec![0xFFu8; most - 1];
    bytes.push(0x7F);
    assert_eq!(decode_varint(&bytes), Ok((usize::MAX, most)));
}
