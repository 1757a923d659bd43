use request_responses::codec::{
    encode_frame, CodecError, CodecErrorKind, GenericCodec, ReadStream, WriteStream,
};
use request_responses::varint::VarintError;

#[test]
fn write_then_read_gives_the_payload_back() {
    let codec = GenericCodec::new(1024, 1024);
    let mut out = WriteStream::new();
    assert_eq!(codec.write_request(&mut out, vec![1, 2]), Ok(()));
    assert!(out.is_closed());
    assert_eq!(out.bytes(), &vec![2u8, 1, 2]);
    let mut io = ReadStream::new(out.into_bytes());
    assert_eq!(codec.read_request(&mut io), Ok(vec![1, 2]));
    assert_eq!(io.position(), 3);
    assert_eq!(io.remaining(), 0);
}

#[test]
fn round_trip_at_the_limit_and_with_a_long_prefix() {
    let codec = GenericCodec::new(300, 200);
    let payload: Vec<u8> = (0..300u32).map(|n| n as u8).collect();
    let mut out = WriteStream::new();
    assert_eq!(codec.write_request(&mut out, payload.clone()), Ok(()));
    assert_eq!(&out.bytes()[..2], &[0xAC, 0x02]);
    assert_eq!(out.bytes().len(), 302);
    let mut io = ReadStream::new(out.into_bytes());
    assert_eq!(codec.read_request(&mut io), Ok(payload.clone()));
    assert_eq!(io.position(), 302);

    // The same bytes are too long for a response.
    let mut io = ReadStream::new(encode_frame(&payload));
    assert_eq!(
        codec.read_response(&mut io),
        Err(CodecError::SizeExceeded { length: 300, limit: 200 })
    );
    assert_eq!(io.position(), 2);
    assert_eq!(io.remaining(), 300);
}

#[test]
fn empty_payload() {
    let codec = GenericCodec::new(0, 0);
    let mut out = WriteStream::new();
    assert_eq!(codec.write_response(&mut out, Vec::new()), Ok(()));
    assert_eq!(out.bytes(), &vec![0u8]);
    let mut io = ReadStream::new(out.into_bytes());
    assert_eq!(codec.read_response(&mut io), Ok(Vec::new()));
    assert_eq!(io.position(), 1);
}

#[test]
fn over_limit_takes_the_prefix_only() {
    let codec = GenericCodec::new(16, 16);
    let mut wire = vec![17u8];
    wire.extend_from_slice(&[0xAB; 17]);
    let mut io = ReadStream::new(wire);
    assert_eq!(
        codec.read_request(&mut io),
        Err(CodecError::SizeExceeded { length: 17, limit: 16 })
    );
    assert_eq!(io.position(), 1);
    assert_eq!(io.remaining(), 17);
}

#[test]
fn payload_cut_short() {
    let codec = GenericCodec::new(16, 16);
    let mut io = ReadStream::new(vec![4, 1, 2, 3]);
    assert_eq!(codec.read_request(&mut io), Err(CodecError::UnexpectedEof));
    assert_eq!(io.position(), 1);
}

#[test]
fn bad_prefix_takes_nothing() {
    let codec = GenericCodec::new(16, 16);
    let mut io = ReadStream::new(vec![]);
    assert_eq!(codec.read_request(&mut io), Err(CodecError::Prefix(VarintError::Insufficient)));
    assert_eq!(io.position(), 0);
    let mut io = ReadStream::new(vec![0x81, 0x00, 7]);
    assert_eq!(codec.read_response(&mut io), Err(CodecError::Prefix(VarintError::NotMinimal)));
    assert_eq!(io.position(), 0);
    let mut io = ReadStream::new(vec![0x80; 11]);
    assert_eq!(codec.read_request(&mut io), Err(CodecError::Prefix(VarintError::Overflow)));
    assert_eq!(io.position(), 0);
}

#[test]
fn two_messages_on_one_stream_are_read_in_turn() {
    let codec = GenericCodec::new(16, 16);
    let mut wire = encode_frame(&[1, 2, 3]);
    wire.extend_from_slice(&encode_frame(&[9]));
    let mut io = ReadStream::new(wire);
    assert_eq!(codec.read_request(&mut io), Ok(vec![1, 2, 3]));
    assert_eq!(io.position(), 4);
    assert_eq!(codec.read_request(&mut io), Ok(vec![9]));
    assert_eq!(io.position(), 6);
    assert_eq!(codec.read_request(&mut io), Err(CodecError::Prefix(VarintError::Insufficient)));
}

#[test]
fn writing_after_the_end_of_writing_fails() {
    let codec = GenericCodec::new(16, 16);
    let mut out = WriteStream::new();
    assert!(!out.is_closed());
    assert_eq!(codec.write_response(&mut out, vec![9]), Ok(()));
    assert_eq!(codec.write_response(&mut out, vec![8]), Err(CodecError::Closed));
    assert_eq!(codec.write_request(&mut out, vec![7]), Err(CodecError::Closed));
    assert_eq!(out.bytes(), &vec![1u8, 9]);
}

#[test]
fn limits_are_checked_each_for_its_direction() {
    let codec = GenericCodec::new(10, 20);
    assert_eq!(codec.max_request_size(), 10);
    assert_eq!(codec.max_response_size(), 20);
    assert_eq!(codec.check_request_size(10), Ok(()));
    assert_eq!(
        codec.check_request_size(11),
        Err(CodecError::SizeExceeded { length: 11, limit: 10 })
    );
    assert_eq!(codec.check_response_size(20), Ok(()));
    assert_eq!(
        codec.check_response_size(21),
        Err(CodecError::SizeExceeded { length: 21, limit: 20 })
    );
}

#[test]
fn the_prefix_is_judged_byte_by_byte() {
    let codec = GenericCodec::new(299, 300);
    assert_eq!(codec.request_prefix(&[]), Ok(None));
    assert_eq!(codec.request_prefix(&[0xAC]), Ok(None));
    assert_eq!(
        codec.request_prefix(&[0xAC, 0x02]),
        Err(CodecError::SizeExceeded { length: 300, limit: 299 })
    );
    assert_eq!(codec.response_prefix(&[0xAC]), Ok(None));
    assert_eq!(codec.response_prefix(&[0xAC, 0x02]), Ok(Some(300)));
    // What follows the prefix does not change the verdict.
    assert_eq!(codec.response_prefix(&[0xAC, 0x02, 0xFF, 0xFF]), Ok(Some(300)));
    assert_eq!(
        codec.response_prefix(&[0x80, 0x00]),
        Err(CodecError::Prefix(VarintError::NotMinimal))
    );
}

#[test]
fn kinds_of_errors() {
    assert_eq!(
        CodecError::SizeExceeded { length: 2, limit: 1 }.kind(),
        CodecErrorKind::InvalidInput
    );
    assert_eq!(CodecError::Prefix(VarintError::Overflow).kind(), CodecErrorKind::InvalidInput);
    assert_eq!(CodecError::UnexpectedEof.kind(), CodecErrorKind::UnexpectedEof);
    assert_eq!(CodecError::Closed.kind(), CodecErrorKind::BrokenPipe);
}
