use chat_relay::connection::{rejection_notice, Action, Connection, Phase, RejectReason};
use chat_relay::error::{CryptoError, HandshakeError, RegistryError};
use chat_relay::frame::{MAX_FRAME_LEN, MAX_HANDSHAKE_LEN};
use chat_relay::session::CryptoSession;

const SHARED_KEY: &[u8; 32] = b"0123456789abcdef0123456789abcdef";
const SHARED_IV: &[u8; 16] = b"0123456789abcdef";
const KEY: &[u8; 32] = b"kkkkkkkkkkkkkkkkkkkkkkkkkkkkkkkk";
const IV: &[u8; 16] = b"vvvvvvvvvvvvvvvv";

fn shared() -> CryptoSession {
    CryptoSession::new(SHARED_KEY, SHARED_IV).unwrap()
}

fn own() -> CryptoSession {
    CryptoSession::new(KEY, IV).unwrap()
}

fn hello(name: &str) -> Vec<u8> {
    let mut p = name.as_bytes().to_vec();
    p.push(b' ');
    p.extend_from_slice(KEY);
    p.push(b' ');
    p.extend_from_slice(IV);
    shared().encrypt(&p).unwrap()
}

fn authenticated(identity: u64, name: &str) -> Connection {
    let (conn, action) = Connection::new(identity).receive_handshake(&shared(), &hello(name));
    assert!(matches!(action, Action::Register(_)));
    conn
}

fn serving(identity: u64, name: &str) -> Connection {
    let (conn, action) = authenticated(identity, name).registered(Ok(()));
    assert!(matches!(action, Action::Serve));
    conn
}

#[test]
fn a_new_connection_is_connecting() {
    let conn = Connection::new(42);
    assert_eq!(conn.identity(), 42);
    assert_eq!(conn.phase(), Phase::Connecting);
}

#[test]
fn the_frame_limit_follows_the_phase() {
    assert_eq!(Connection::new(1).frame_limit(), MAX_HANDSHAKE_LEN);
    assert_eq!(authenticated(1, "alice").frame_limit(), MAX_FRAME_LEN);
    assert_eq!(serving(1, "alice").frame_limit(), MAX_FRAME_LEN);
}

#[test]
fn a_good_handshake_asks_for_registration() {
    let (conn, action) = Connection::new(7).receive_handshake(&shared(), &hello("alice"));
    assert_eq!(conn.phase(), Phase::Authenticated);
    assert_eq!(conn.identity(), 7);
    match action {
        Action::Register(client) => {
            assert_eq!(client.identity, 7);
            assert_eq!(client.username, "alice");
            let probe = client.session.encrypt(b"p").unwrap();
            assert_eq!(own().decrypt(&probe).unwrap(), b"p".to_vec());
        }
        _ => panic!("expected a registration"),
    }
}

#[test]
fn a_bad_handshake_is_rejected_and_never_registered() {
    let (conn, action) = Connection::new(7).receive_handshake(&shared(), b"not a handshake");
    assert_eq!(conn.phase(), Phase::Closed);
    assert!(matches!(action, Action::Reject(RejectReason::Handshake(HandshakeError::BadSecret))));
    let (conn, action) = conn.registered(Ok(()));
    assert_eq!(conn.phase(), Phase::Closed);
    assert!(matches!(action, Action::Ignore));
}

#[test]
fn a_malformed_handshake_is_rejected() {
    let frame = shared().encrypt(b"alice onlytwo").unwrap();
    let (conn, action) = Connection::new(7).receive_handshake(&shared(), &frame);
    assert_eq!(conn.phase(), Phase::Closed);
    assert!(matches!(
        action,
        Action::Reject(RejectReason::Handshake(HandshakeError::MalformedPayload))
    ));
}

#[test]
fn a_peer_that_sends_nothing_is_rejected_as_closed() {
    let (conn, action) = Connection::new(7).receive_handshake(&shared(), b"");
    assert_eq!(conn.phase(), Phase::Closed);
    assert!(matches!(
        action,
        Action::Reject(RejectReason::Handshake(HandshakeError::ConnectionClosed))
    ));
}

#[test]
fn every_handshake_error_closes_the_connection() {
    for e in [
        HandshakeError::BadSecret,
        HandshakeError::MalformedPayload,
        HandshakeError::InvalidUsername,
        HandshakeError::BadSessionKey,
        HandshakeError::ConnectionClosed,
    ] {
        let (conn, action) = Connection::new(1).handshake_decoded(Err(e));
        assert_eq!(conn.phase(), Phase::Closed);
        match action {
            Action::Reject(reason) => assert_eq!(reason, RejectReason::Handshake(e)),
            _ => panic!("expected a rejection"),
        }
    }
}

#[test]
fn an_accepted_registration_starts_serving() {
    let (conn, action) = authenticated(3, "alice").registered(Ok(()));
    assert_eq!(conn.phase(), Phase::Serving);
    assert!(matches!(action, Action::Serve));
}

#[test]
fn a_username_collision_is_rejected() {
    let (conn, action) = authenticated(3, "alice").registered(Err(RegistryError::UsernameTaken));
    assert_eq!(conn.phase(), Phase::Closed);
    assert!(matches!(
        action,
        Action::Reject(RejectReason::Registry(RegistryError::UsernameTaken))
    ));
}

#[test]
fn a_frame_from_a_serving_client_is_published_under_its_name() {
    let frame = own().encrypt(b"hi there").unwrap();
    let (conn, action) = serving(3, "alice").receive_frame(&frame);
    assert_eq!(conn.phase(), Phase::Serving);
    match action {
        Action::Publish(message) => {
            assert_eq!(message.sender, "alice");
            assert_eq!(message.payload, b"hi there".to_vec());
        }
        _ => panic!("expected a message"),
    }
}

#[test]
fn a_serving_client_can_send_many_frames() {
    let mut conn = serving(3, "alice");
    for text in ["one", "two", "three"] {
        let frame = own().encrypt(text.as_bytes()).unwrap();
        let (next, action) = conn.receive_frame(&frame);
        conn = next;
        match action {
            Action::Publish(message) => assert_eq!(message.payload, text.as_bytes().to_vec()),
            _ => panic!("expected a message"),
        }
    }
    assert_eq!(conn.phase(), Phase::Serving);
}

#[test]
fn a_frame_that_does_not_decrypt_ends_the_connection() {
    let (conn, action) = serving(3, "alice").receive_frame(b"garbage");
    assert_eq!(conn.phase(), Phase::Closed);
    assert!(matches!(action, Action::Deregister));
}

#[test]
fn a_decrypt_failure_reported_from_outside_ends_the_connection() {
    let (conn, action) = serving(3, "alice").frame_opened(Err(CryptoError::DecryptFailure));
    assert_eq!(conn.phase(), Phase::Closed);
    assert!(matches!(action, Action::Deregister));
}

#[test]
fn a_disconnect_while_serving_deregisters() {
    let (conn, action) = serving(3, "alice").disconnected();
    assert_eq!(conn.phase(), Phase::Closed);
    assert_eq!(conn.identity(), 3);
    assert!(matches!(action, Action::Deregister));
}

#[test]
fn a_disconnect_before_serving_only_releases() {
    let (conn, action) = Connection::new(3).disconnected();
    assert_eq!(conn.phase(), Phase::Closed);
    assert!(matches!(action, Action::Release));
    let (conn, action) = authenticated(3, "alice").disconnected();
    assert_eq!(conn.phase(), Phase::Closed);
    assert!(matches!(action, Action::Release));
}

#[test]
fn deregistration_is_asked_for_once() {
    let (conn, first) = serving(3, "alice").disconnected();
    assert!(matches!(first, Action::Deregister));
    let (conn, second) = conn.disconnected();
    assert!(matches!(second, Action::Ignore));
    let (conn, third) = conn.receive_frame(&own().encrypt(b"late").unwrap());
    assert!(matches!(third, Action::Ignore));
    let (conn, fourth) = conn.frame_opened(Err(CryptoError::DecryptFailure));
    assert!(matches!(fourth, Action::Ignore));
    assert_eq!(conn.phase(), Phase::Closed);
}

#[test]
fn a_closed_connection_ignores_everything() {
    let (conn, _) = Connection::new(3).disconnected();
    let (conn, a) = conn.receive_handshake(&shared(), &hello("alice"));
    assert!(matches!(a, Action::Ignore));
    let (conn, a) = conn.registered(Ok(()));
    assert!(matches!(a, Action::Ignore));
    let (conn, a) = conn.frame_opened(Ok(b"x".to_vec()));
    assert!(matches!(a, Action::Ignore));
    let (conn, a) = conn.disconnected();
    assert!(matches!(a, Action::Ignore));
    assert_eq!(conn.phase(), Phase::Closed);
}

#[test]
fn events_out_of_turn_change_nothing() {
    let (conn, a) = Connection::new(3).registered(Ok(()));
    assert_eq!(conn.phase(), Phase::Connecting);
    assert!(matches!(a, Action::Ignore));
    let (conn, a) = conn.receive_frame(&own().encrypt(b"early").unwrap());
    assert_eq!(conn.phase(), Phase::Connecting);
    assert!(matches!(a, Action::Ignore));
    let (conn, a) = authenticated(3, "alice").receive_handshake(&shared(), &hello("bob"));
    assert_eq!(conn.phase(), Phase::Authenticated);
    assert!(matches!(a, Action::Ignore));
    let (conn, a) = serving(3, "alice").registered(Err(RegistryError::UsernameTaken));
    assert_eq!(conn.phase(), Phase::Serving);
    assert!(matches!(a, Action::Ignore));
    let (conn, a) = conn.receive_frame(&own().encrypt(b"still alice").unwrap());
    assert_eq!(conn.phase(), Phase::Serving);
    match a {
        Action::Publish(message) => assert_eq!(message.sender, "alice"),
        _ => panic!("expected a message"),
    }
}

#[test]
fn the_rejection_notices() {
    assert_eq!(
        rejection_notice(RejectReason::Handshake(HandshakeError::BadSecret)),
        b"Invalid client info\n".to_vec()
    );
    assert_eq!(
        rejection_notice(RejectReason::Handshake(HandshakeError::MalformedPayload)),
        b"Invalid client info\n".to_vec()
    );
    assert_eq!(
        rejection_notice(RejectReason::Registry(RegistryError::UsernameTaken)),
        b"Username taken\n".to_vec()
    );
    assert_eq!(
        rejection_notice(RejectReason::Registry(RegistryError::IdentityTaken)),
        b"Connection refused\n".to_vec()
    );
}

#[test]
fn an_oversized_handshake_frame_is_malformed() {
    let (conn, action) = Connection::new(3).frame_refused();
    assert_eq!(conn.phase(), Phase::Closed);
    assert!(matches!(
        action,
        Action::Reject(RejectReason::Handshake(HandshakeError::MalformedPayload))
    ));
}

#[test]
fn an_oversized_message_frame_ends_a_serving_connection() {
    let (conn, action) = serving(3, "alice").frame_refused();
    assert_eq!(conn.phase(), Phase::Closed);
    assert!(matches!(action, Action::Deregister));
    let (conn, action) = conn.frame_refused();
    assert_eq!(conn.phase(), Phase::Closed);
    assert!(matches!(action, Action::Ignore));
}
