use chat_relay::error::HandshakeError;
use chat_relay::handshake::{decode_handshake, parse_handshake, SPACE};
use chat_relay::session::CryptoSession;

const SHARED_KEY: &[u8; 32] = b"the-server-wide-shared-secret-32";
const SHARED_IV: &[u8; 16] = b"shared-iv-16-byt";
const SESSION_KEY: &[u8; 32] = b"secretkey1234567secretkey1234567";
const SESSION_IV: &[u8; 16] = b"iv12345678901234";

fn shared() -> CryptoSession {
    CryptoSession::new(SHARED_KEY, SHARED_IV).unwrap()
}

fn sealed(payload: &[u8]) -> Vec<u8> {
    shared().encrypt(payload).unwrap()
}

fn good_payload() -> Vec<u8> {
    let mut p = b"alice ".to_vec();
    p.extend_from_slice(SESSION_KEY);
    p.push(b' ');
    p.extend_from_slice(SESSION_IV);
    p
}

fn error_of(frame: &[u8]) -> Option<HandshakeError> {
    decode_handshake(&shared(), frame).err()
}

#[test]
fn separator_is_the_ascii_space() {
    assert_eq!(SPACE, b' ');
}

#[test]
fn handshake_yields_username_and_usable_session() {
    let (username, session) = decode_handshake(&shared(), &sealed(&good_payload())).unwrap();
    assert_eq!(username, "alice");
    let expected = CryptoSession::new(SESSION_KEY, SESSION_IV).unwrap();
    let to_client = session.encrypt(b"welcome").unwrap();
    assert_eq!(expected.decrypt(&to_client).unwrap(), b"welcome".to_vec());
    let from_client = expected.encrypt(b"hello").unwrap();
    assert_eq!(session.decrypt(&from_client).unwrap(), b"hello".to_vec());
}

#[test]
fn handshake_with_key_and_iv_of_wrong_length_is_bad_session_key() {
    let frame = sealed(b"alice secretkey1234567 iv1234567890123456");
    assert_eq!(error_of(&frame), Some(HandshakeError::BadSessionKey));
}

#[test]
fn handshake_under_a_wrong_shared_key_is_bad_secret() {
    let other = CryptoSession::new(b"another-shared-secret-32-bytes!!", SHARED_IV).unwrap();
    let frame = other.encrypt(&good_payload()).unwrap();
    assert_eq!(error_of(&frame), Some(HandshakeError::BadSecret));
}

#[test]
fn handshake_that_is_no_ciphertext_is_bad_secret() {
    assert_eq!(error_of(b"plain text, never encrypted"), Some(HandshakeError::BadSecret));
    assert_eq!(error_of(&good_payload()), Some(HandshakeError::BadSecret));
}

#[test]
fn handshake_with_two_fields_is_malformed() {
    assert_eq!(error_of(&sealed(b"alice secretkey")), Some(HandshakeError::MalformedPayload));
}

#[test]
fn handshake_with_one_field_is_malformed() {
    assert_eq!(error_of(&sealed(b"alice")), Some(HandshakeError::MalformedPayload));
}

#[test]
fn handshake_with_empty_payload_is_malformed() {
    assert_eq!(error_of(&sealed(b"")), Some(HandshakeError::MalformedPayload));
}

#[test]
fn empty_frame_means_the_peer_closed() {
    assert_eq!(error_of(b""), Some(HandshakeError::ConnectionClosed));
}

#[test]
fn handshake_with_username_that_is_not_utf8_is_refused() {
    let mut p = vec![0xff, 0xfe, b' '];
    p.extend_from_slice(SESSION_KEY);
    p.push(b' ');
    p.extend_from_slice(SESSION_IV);
    assert_eq!(error_of(&sealed(&p)), Some(HandshakeError::InvalidUsername));
}

#[test]
fn handshake_with_short_key_is_bad_session_key() {
    let mut p = b"alice tooshort ".to_vec();
    p.extend_from_slice(SESSION_IV);
    assert_eq!(error_of(&sealed(&p)), Some(HandshakeError::BadSessionKey));
}

#[test]
fn handshake_with_long_iv_is_bad_session_key() {
    let mut p = b"alice ".to_vec();
    p.extend_from_slice(SESSION_KEY);
    p.extend_from_slice(b" iv12345678901234X");
    assert_eq!(error_of(&sealed(&p)), Some(HandshakeError::BadSessionKey));
}

#[test]
fn handshake_ignores_what_follows_a_third_space() {
    let mut p = good_payload();
    p.extend_from_slice(b" and some trailing words");
    let (username, session) = decode_handshake(&shared(), &sealed(&p)).unwrap();
    assert_eq!(username, "alice");
    let expected = CryptoSession::new(SESSION_KEY, SESSION_IV).unwrap();
    assert_eq!(
        expected.decrypt(&session.encrypt(b"x").unwrap()).unwrap(),
        b"x".to_vec()
    );
}

#[test]
fn parse_reads_the_three_fields() {
    let (username, session) = parse_handshake(&good_payload()).unwrap();
    assert_eq!(username, "alice");
    let expected = CryptoSession::new(SESSION_KEY, SESSION_IV).unwrap();
    assert_eq!(session.encrypt(b"probe").unwrap(), expected.encrypt(b"probe").unwrap());
}

#[test]
fn parse_accepts_a_username_of_several_bytes_per_character() {
    let mut p = "zoë ".as_bytes().to_vec();
    p.extend_from_slice(SESSION_KEY);
    p.push(b' ');
    p.extend_from_slice(SESSION_IV);
    let (username, _) = parse_handshake(&p).unwrap();
    assert_eq!(username, "zoë");
}

#[test]
fn parse_takes_an_empty_username_as_a_field() {
    let mut p = b" ".to_vec();
    p.extend_from_slice(SESSION_KEY);
    p.push(b' ');
    p.extend_from_slice(SESSION_IV);
    let (username, _) = parse_handshake(&p).unwrap();
    assert_eq!(username, "");
}

#[test]
fn parse_counts_fields_before_it_reads_them() {
    assert_eq!(parse_handshake(&[0xff, 0xfe]).err(), Some(HandshakeError::MalformedPayload));
    assert_eq!(
        parse_handshake(&[0xff, b' ', b'k']).err(),
        Some(HandshakeError::MalformedPayload)
    );
}

#[test]
fn parse_checks_the_username_before_the_key() {
    assert_eq!(parse_handshake(&[0xff, b' ', b'k', b' ', b'v']).err(), Some(HandshakeError::InvalidUsername));
}

#[test]
fn parse_treats_two_spaces_as_an_empty_field() {
    let mut p = b"alice  ".to_vec();
    p.extend_from_slice(SESSION_KEY);
    assert_eq!(parse_handshake(&p).err(), Some(HandshakeError::BadSessionKey));
}

#[test]
fn parse_with_an_empty_third_field_is_bad_session_key() {
    let mut p = b"alice ".to_vec();
    p.extend_from_slice(SESSION_KEY);
    p.push(b' ');
    assert_eq!(parse_handshake(&p).err(), Some(HandshakeError::BadSessionKey));
}

#[test]
fn parse_rejects_truncated_utf8() {
    let mut p = vec![b'a', 0xc3, b' '];
    p.extend_from_slice(SESSION_KEY);
    p.push(b' ');
    p.extend_from_slice(SESSION_IV);
    assert_eq!(parse_handshake(&p).err(), Some(HandshakeError::InvalidUsername));
}
