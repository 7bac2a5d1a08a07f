use chat_relay::error::FrameError;
use chat_relay::frame::{
    decode_frame, decode_header, encode_frame, Decoded, HEADER_LEN, MAX_FRAME_LEN,
    MAX_HANDSHAKE_LEN,
};

#[test]
fn frame_limits() {
    assert_eq!(HEADER_LEN, 4);
    assert_eq!(MAX_HANDSHAKE_LEN, 1024);
    assert_eq!(MAX_FRAME_LEN, 65536);
}

#[test]
fn encode_prefixes_the_big_endian_length() {
    assert_eq!(encode_frame(b"hi"), Ok(vec![0, 0, 0, 2, b'h', b'i']));
    assert_eq!(encode_frame(b""), Ok(vec![0, 0, 0, 0]));
}

#[test]
fn encode_spells_lengths_over_one_byte() {
    let wire = encode_frame(&vec![0xaau8; 0x0123]).unwrap();
    assert_eq!(&wire[..4], &[0, 0, 0x01, 0x23]);
    assert_eq!(wire.len(), 4 + 0x0123);
    assert!(wire[4..].iter().all(|b| *b == 0xaa));
}

#[test]
fn encode_accepts_the_longest_body() {
    let wire = encode_frame(&vec![1u8; MAX_FRAME_LEN]).unwrap();
    assert_eq!(&wire[..4], &[0, 1, 0, 0]);
    assert_eq!(wire.len(), 4 + MAX_FRAME_LEN);
}

#[test]
fn encode_rejects_a_body_over_the_limit() {
    assert_eq!(encode_frame(&vec![1u8; MAX_FRAME_LEN + 1]), Err(FrameError::TooLarge));
}

#[test]
fn header_gives_the_length() {
    assert_eq!(decode_header(&[0, 0, 0, 0], 10), Ok(0));
    assert_eq!(decode_header(&[0, 0, 0, 10], 10), Ok(10));
    assert_eq!(decode_header(&[0, 0, 1, 2], 1024), Ok(258));
    assert_eq!(decode_header(&[0, 1, 0, 0], MAX_FRAME_LEN), Ok(65536));
    assert_eq!(decode_header(&[1, 2, 3, 4], usize::MAX), Ok(0x01020304));
}

#[test]
fn header_over_the_limit_is_refused() {
    assert_eq!(decode_header(&[0, 0, 0, 11], 10), Err(FrameError::TooLarge));
    assert_eq!(decode_header(&[0, 0, 4, 1], MAX_HANDSHAKE_LEN), Err(FrameError::TooLarge));
    assert_eq!(decode_header(&[0xff, 0xff, 0xff, 0xff], MAX_FRAME_LEN), Err(FrameError::TooLarge));
    assert_eq!(decode_header(&[0, 0, 0, 1], 0), Err(FrameError::TooLarge));
}

#[test]
fn decode_needs_a_whole_header() {
    assert_eq!(decode_frame(b"", 100), Decoded::Incomplete);
    assert_eq!(decode_frame(&[0, 0, 0], 100), Decoded::Incomplete);
}

#[test]
fn decode_needs_the_whole_body() {
    assert_eq!(decode_frame(&[0, 0, 0, 3, 1, 2], 100), Decoded::Incomplete);
}

#[test]
fn decode_takes_one_frame_and_says_how_much_it_used() {
    assert_eq!(
        decode_frame(&[0, 0, 0, 3, 1, 2, 3], 100),
        Decoded::Frame { body: vec![1, 2, 3], used: 7 }
    );
    assert_eq!(
        decode_frame(&[0, 0, 0, 2, 1, 2, 0, 0, 0, 1, 9], 100),
        Decoded::Frame { body: vec![1, 2], used: 6 }
    );
    assert_eq!(decode_frame(&[0, 0, 0, 0], 100), Decoded::Frame { body: vec![], used: 4 });
}

#[test]
fn decode_refuses_an_oversized_frame_before_its_body_arrives() {
    assert_eq!(decode_frame(&[0, 0, 0, 101], 100), Decoded::TooLarge);
    assert_eq!(decode_frame(&[0, 0, 0, 101, 1, 2, 3], 100), Decoded::TooLarge);
}

#[test]
fn decode_undoes_encode() {
    for n in [0usize, 1, 255, 256, 257, 70, 65536] {
        let body: Vec<u8> = (0..n).map(|i| (i % 251) as u8).collect();
        let mut wire = encode_frame(&body).unwrap();
        assert_eq!(
            decode_frame(&wire, MAX_FRAME_LEN),
            Decoded::Frame { body: body.clone(), used: n + 4 }
        );
        wire.extend_from_slice(b"next frame starts here");
        assert_eq!(decode_frame(&wire, MAX_FRAME_LEN), Decoded::Frame { body, used: n + 4 });
    }
}

#[test]
fn frames_come_off_a_stream_one_by_one() {
    let mut stream = encode_frame(b"first").unwrap();
    stream.extend(encode_frame(b"second").unwrap());
    let mut seen: Vec<Vec<u8>> = Vec::new();
    let mut at = 0;
    while let Decoded::Frame { body, used } = decode_frame(&stream[at..], MAX_FRAME_LEN) {
        seen.push(body);
        at += used;
    }
    assert_eq!(seen, vec![b"first".to_vec(), b"second".to_vec()]);
    assert_eq!(at, stream.len());
}
