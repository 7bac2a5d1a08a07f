//! The handshake decoder: from the first frame of a connection to a username
//! and a ready cipher session. It touches no registry and no socket.
//!
//! The frame is encrypted under the server-wide shared secret. Its plaintext
//! is `<username> <session key> <session iv>`, the fields separated by single
//! spaces. Anything after a third space is ignored. A field ends at the first
//! space, so neither a username nor key material can hold a space byte.

use crate::cipher::{IV_LEN, KEY_LEN};
use crate::error::{CryptoError, HandshakeError};
use crate::session::{decrypted_under, encrypted_under, CryptoSession};
use std::string::FromUtf8Error;
use vstd::prelude::*;
use vstd::slice::{slice_subrange, slice_to_vec};
use vstd::utf8::{decode_utf8, valid_utf8};

verus! {

/// The field separator, an ASCII space.
pub const SPACE: u8 = 0x20;

/// What a well-formed handshake payload says.
pub struct Credentials {
    pub username: Seq<char>,
    pub key: Seq<u8>,
    pub iv: Seq<u8>,
}

/// Where the field that starts at `from` ends: the index of the first space
/// at or after `from`, or the length of `s` if no space follows.
pub open spec fn field_end(s: Seq<u8>, from: int) -> int
    decreases s.len() - from,
{
    if from >= s.len() {
        s.len() as int
    } else if s[from] == SPACE {
        from
    } else {
        field_end(s, from + 1)
    }
}

/// The first three space-separated fields of `payload`, or `None` if it has
/// fewer than three.
pub open spec fn split_fields(payload: Seq<u8>) -> Option<(Seq<u8>, Seq<u8>, Seq<u8>)> {
    let e1 = field_end(payload, 0);
    let e2 = field_end(payload, e1 + 1);
    let e3 = field_end(payload, e2 + 1);
    if e1 >= payload.len() || e2 >= payload.len() {
        None
    } else {
        Some((payload.subrange(0, e1), payload.subrange(e1 + 1, e2), payload.subrange(e2 + 1, e3)))
    }
}

/// What a decrypted handshake payload means: the credentials it carries, or
/// the reason it is refused. The checks come in this order: field count,
/// username encoding, key material.
pub open spec fn parse_outcome(payload: Seq<u8>) -> Result<Credentials, HandshakeError> {
    match split_fields(payload) {
        None => Err(HandshakeError::MalformedPayload),
        Some((name, key, iv)) => {
            if !valid_utf8(name) {
                Err(HandshakeError::InvalidUsername)
            } else if key.len() != KEY_LEN || iv.len() != IV_LEN {
                Err(HandshakeError::BadSessionKey)
            } else {
                Ok(Credentials { username: decode_utf8(name), key, iv })
            }
        },
    }
}

/// The credentials an executable decoding result holds, or its error.
pub open spec fn credentials_of(r: Result<(String, CryptoSession), HandshakeError>) -> Result<
    Credentials,
    HandshakeError,
> {
    match r {
        Ok((username, session)) => Ok(
            Credentials { username: username@, key: session.key(), iv: session.iv() },
        ),
        Err(e) => Err(e),
    }
}

/// `r` is the executable form of `expected`: the same error, or a username
/// and a valid session that hold the expected credentials.
pub open spec fn carries(
    r: Result<(String, CryptoSession), HandshakeError>,
    expected: Result<Credentials, HandshakeError>,
) -> bool {
    &&& credentials_of(r) == expected
    &&& r matches Ok((_, session)) ==> session.wf()
}

/// `no_space(s)`: no byte of `s` is the separator.
pub open spec fn no_space(s: Seq<u8>) -> bool {
    forall|i: int| 0 <= i < s.len() ==> s[i] != SPACE
}

/// The payload that carries three fields, followed by `extra`.
pub open spec fn join_fields(name: Seq<u8>, key: Seq<u8>, iv: Seq<u8>, extra: Seq<u8>) -> Seq<u8> {
    name + seq![SPACE] + key + seq![SPACE] + iv + extra
}

/// A field ends at the first space after its start: no byte before the end
/// is a space, and the end is a space or the end of the input.
pub proof fn lemma_field_end(s: Seq<u8>, from: int)
    requires
        0 <= from <= s.len(),
    ensures
        from <= field_end(s, from) <= s.len(),
        forall|j: int| from <= j < field_end(s, from) ==> s[j] != SPACE,
        field_end(s, from) < s.len() ==> s[field_end(s, from)] == SPACE,
    decreases s.len() - from,
{
    if from < s.len() && s[from] != SPACE {
        lemma_field_end(s, from + 1);
    }
}

/// The end of a field is the only index of which [`lemma_field_end`] holds.
pub proof fn lemma_field_end_unique(s: Seq<u8>, from: int, end: int)
    requires
        0 <= from <= end <= s.len(),
        forall|j: int| from <= j < end ==> s[j] != SPACE,
        end < s.len() ==> s[end] == SPACE,
    ensures
        field_end(s, from) == end,
    decreases end - from,
{
    if from < end {
        lemma_field_end_unique(s, from + 1, end);
    }
}

/// Splitting undoes joining: three fields without spaces, joined by single
/// spaces, come out again as they went in, whatever follows a third space.
pub proof fn lemma_split_join(name: Seq<u8>, key: Seq<u8>, iv: Seq<u8>, extra: Seq<u8>)
    requires
        no_space(name),
        no_space(key),
        no_space(iv),
        extra.len() > 0 ==> extra[0] == SPACE,
    ensures
        split_fields(join_fields(name, key, iv, extra)) == Some((name, key, iv)),
{
    let p = join_fields(name, key, iv, extra);
    let e1 = name.len() as int;
    let e2 = e1 + 1 + key.len();
    let e3 = e2 + 1 + iv.len();
    assert(p.len() == e3 + extra.len());
    assert forall|j: int| 0 <= j < e1 implies p[j] != SPACE by {
        assert(p[j] == name[j]);
    }
    assert(p[e1] == SPACE);
    lemma_field_end_unique(p, 0, e1);
    assert forall|j: int| e1 + 1 <= j < e2 implies p[j] != SPACE by {
        assert(p[j] == key[j - e1 - 1]);
    }
    assert(p[e2] == SPACE);
    lemma_field_end_unique(p, e1 + 1, e2);
    assert forall|j: int| e2 + 1 <= j < e3 implies p[j] != SPACE by {
        assert(p[j] == iv[j - e2 - 1]);
    }
    if e3 < p.len() {
        assert(p[e3] == extra[0]);
    }
    lemma_field_end_unique(p, e2 + 1, e3);
    assert(p.subrange(0, e1) =~= name);
    assert(p.subrange(e1 + 1, e2) =~= key);
    assert(p.subrange(e2 + 1, e3) =~= iv);
}

/// What a handshake of three fields says, by the fields: the username must
/// be valid UTF-8, then key and vector must have the cipher's lengths.
pub open spec fn credentials_from(name: Seq<u8>, key: Seq<u8>, iv: Seq<u8>) -> Result<
    Credentials,
    HandshakeError,
> {
    if !valid_utf8(name) {
        Err(HandshakeError::InvalidUsername)
    } else if key.len() != KEY_LEN || iv.len() != IV_LEN {
        Err(HandshakeError::BadSessionKey)
    } else {
        Ok(Credentials { username: decode_utf8(name), key, iv })
    }
}

/// A handshake is read as written: three fields without spaces, joined by
/// single spaces, are judged by what they hold. A username that is not
/// UTF-8 is refused whatever the key material; key material of a wrong
/// length is refused; otherwise exactly these credentials come out.
pub proof fn lemma_parse_of_joined(name: Seq<u8>, key: Seq<u8>, iv: Seq<u8>, extra: Seq<u8>)
    requires
        no_space(name),
        no_space(key),
        no_space(iv),
        extra.len() > 0 ==> extra[0] == SPACE,
    ensures
        parse_outcome(join_fields(name, key, iv, extra)) == credentials_from(name, key, iv),
{
    lemma_split_join(name, key, iv, extra);
}

/// What follows the third field is ignored: a payload with more fields is
/// read as the payload of its first three.
pub proof fn lemma_trailing_ignored(name: Seq<u8>, key: Seq<u8>, iv: Seq<u8>, extra: Seq<u8>)
    requires
        no_space(name),
        no_space(key),
        no_space(iv),
        extra.len() > 0 ==> extra[0] == SPACE,
    ensures
        parse_outcome(join_fields(name, key, iv, extra)) == parse_outcome(
            join_fields(name, key, iv, Seq::empty()),
        ),
{
    lemma_parse_of_joined(name, key, iv, extra);
    lemma_parse_of_joined(name, key, iv, Seq::empty());
}

/// A frame that opens under the shared secret is judged by its plaintext
/// alone: a well-formed one yields its credentials, and no frame that opens
/// is reported as a bad secret.
pub proof fn lemma_handshake_of_opened(shared: CryptoSession, frame: Seq<u8>, payload: Seq<u8>)
    requires
        frame.len() > 0,
        shared.decrypted(frame) == Ok::<Seq<u8>, CryptoError>(payload),
    ensures
        handshake_outcome(shared, frame) == parse_outcome(payload),
        handshake_outcome(shared, frame) != Err::<Credentials, HandshakeError>(
            HandshakeError::BadSecret,
        ),
        handshake_outcome(shared, frame) != Err::<Credentials, HandshakeError>(
            HandshakeError::ConnectionClosed,
        ),
{
}

/// The handshake of a frame that carries three joined fields, with or
/// without more behind them.
pub proof fn lemma_handshake_of_joined(
    shared: CryptoSession,
    frame: Seq<u8>,
    name: Seq<u8>,
    key: Seq<u8>,
    iv: Seq<u8>,
    extra: Seq<u8>,
)
    requires
        frame.len() > 0,
        shared.decrypted(frame) == Ok::<Seq<u8>, CryptoError>(join_fields(name, key, iv, extra)),
        no_space(name),
        no_space(key),
        no_space(iv),
        extra.len() > 0 ==> extra[0] == SPACE,
    ensures
        handshake_outcome(shared, frame) == credentials_from(name, key, iv),
{
    lemma_parse_of_joined(name, key, iv, extra);
}

/// The session a handshake yields is the client's own: it encrypts and
/// decrypts under the key and vector that the payload carries, whatever the
/// shared secret is.
pub proof fn lemma_session_of_handshake(
    r: Result<(String, CryptoSession), HandshakeError>,
    expected: Credentials,
    bytes: Seq<u8>,
)
    requires
        carries(r, Ok(expected)),
    ensures
        r matches Ok((username, session)) && username@ == expected.username
            && session.encrypted(bytes) == encrypted_under(expected.key, expected.iv, bytes)
            && session.decrypted(bytes) == decrypted_under(expected.key, expected.iv, bytes),
{
}

/// A payload with fewer than two spaces is malformed.
pub proof fn lemma_two_fields_malformed(first: Seq<u8>, second: Seq<u8>)
    requires
        no_space(first),
        no_space(second),
    ensures
        parse_outcome(first) == Err::<Credentials, HandshakeError>(HandshakeError::MalformedPayload),
        parse_outcome(first + seq![SPACE] + second) == Err::<Credentials, HandshakeError>(
            HandshakeError::MalformedPayload,
        ),
{
    lemma_field_end_unique(first, 0, first.len() as int);
    let p = first + seq![SPACE] + second;
    let e1 = first.len() as int;
    assert forall|j: int| 0 <= j < e1 implies p[j] != SPACE by {
        assert(p[j] == first[j]);
    }
    assert(p[e1] == SPACE);
    lemma_field_end_unique(p, 0, e1);
    assert forall|j: int| e1 + 1 <= j < p.len() implies p[j] != SPACE by {
        assert(p[j] == second[j - e1 - 1]);
    }
    lemma_field_end_unique(p, e1 + 1, p.len() as int);
}

/// `std::string::FromUtf8Error`, the error `String::from_utf8` returns.
/// Nothing is known of its contents here.
#[verifier::external_type_specification]
#[verifier::external_body]
pub struct ExFromUtf8Error(FromUtf8Error);

/// Calls `String::from_utf8`.
///
/// Believed, not proved: the call succeeds exactly on valid UTF-8, and the
/// string it returns holds the characters that the bytes encode.
#[verifier::external_body]
fn string_from_utf8(bytes: Vec<u8>) -> (r: Result<String, FromUtf8Error>)
    ensures
        r is Ok <==> valid_utf8(bytes@),
        r matches Ok(s) ==> s@ == decode_utf8(bytes@),
{
    String::from_utf8(bytes)
}

/// Finds where the field that starts at `from` ends.
fn find_field_end(s: &[u8], from: usize) -> (end: usize)
    requires
        from <= s@.len(),
    ensures
        end == field_end(s@, from as int),
        from <= end <= s@.len(),
{
    let mut i: usize = from;
    while i < s.len() && s[i] != SPACE
        invariant
            from <= i <= s@.len(),
            field_end(s@, from as int) == field_end(s@, i as int),
        decreases s@.len() - i,
    {
        i += 1;
    }
    i
}

/// Reads the credentials out of a decrypted handshake payload.
pub fn parse_handshake(payload: &[u8]) -> (r: Result<(String, CryptoSession), HandshakeError>)
    ensures
        carries(r, parse_outcome(payload@)),
{
    let len = payload.len();
    let e1 = find_field_end(payload, 0);
    if e1 >= len {
        return Err(HandshakeError::MalformedPayload);
    }
    let e2 = find_field_end(payload, e1 + 1);
    if e2 >= len {
        return Err(HandshakeError::MalformedPayload);
    }
    let e3 = find_field_end(payload, e2 + 1);
    let name = slice_to_vec(slice_subrange(payload, 0, e1));
    let username = match string_from_utf8(name) {
        Ok(s) => s,
        Err(_) => {
            return Err(HandshakeError::InvalidUsername);
        },
    };
    let key = slice_subrange(payload, e1 + 1, e2);
    let iv = slice_subrange(payload, e2 + 1, e3);
    match CryptoSession::new(key, iv) {
        Ok(session) => Ok((username, session)),
        Err(_) => Err(HandshakeError::BadSessionKey),
    }
}

/// What the first frame of a connection means under the shared secret: an
/// empty frame is a closed connection, a frame that does not decrypt a bad
/// secret, and any other frame what [`parse_outcome`] makes of its plaintext.
pub open spec fn handshake_outcome(shared: CryptoSession, frame: Seq<u8>) -> Result<
    Credentials,
    HandshakeError,
> {
    if frame.len() == 0 {
        Err(HandshakeError::ConnectionClosed)
    } else {
        match shared.decrypted(frame) {
            Err(_) => Err(HandshakeError::BadSecret),
            Ok(payload) => parse_outcome(payload),
        }
    }
}

/// Decodes the first frame of a connection.
///
/// An empty frame means the peer closed before sending anything. A frame
/// that does not decrypt under `shared` is a bad secret. Every other frame
/// yields what [`parse_outcome`] makes of its plaintext.
pub fn decode_handshake(shared: &CryptoSession, frame: &[u8]) -> (r: Result<
    (String, CryptoSession),
    HandshakeError,
>)
    ensures
        carries(r, handshake_outcome(*shared, frame@)),
{
    if frame.len() == 0 {
        return Err(HandshakeError::ConnectionClosed);
    }
    match shared.decrypt(frame) {
        Err(_) => Err(HandshakeError::BadSecret),
        Ok(payload) => parse_handshake(payload.as_slice()),
    }
}

} // verus!
