//! Cursor codec: an opaque, URL-safe wire token for a sort-key value.
//!
//! Encoding is a bijection between a key and its token: the token is the
//! URL-safe base64 form of the key's UTF-8 bytes. Decoding validates the
//! token strictly — a token that `encode_key` cannot have produced is
//! rejected, never silently coerced to some key.

use vstd::prelude::*;
use base64::Engine;

verus! {

use vstd::utf8::encode_utf8;
use vstd::utf8::valid_utf8;
use vstd::utf8::decode_utf8;
use vstd::utf8::encode_utf8_valid_utf8;
use vstd::utf8::encode_utf8_decode_utf8;

/// The string that the URL-safe base64 alphabet (with padding) makes of a
/// byte sequence; a function of the bytes alone.
pub uninterp spec fn b64_encoding(bytes: Seq<u8>) -> Seq<char>;

/// The token that `encode_key` produces for a key: the URL-safe base64
/// encoding of the key's UTF-8 bytes.
pub open spec fn token_of(key: Seq<char>) -> Seq<char> {
    b64_encoding(encode_utf8(key))
}

/// A token is valid exactly when some key encodes to it.
pub open spec fn valid_token(token: Seq<char>) -> bool {
    exists|k: Seq<char>| token == token_of(k)
}

/// Rejection of a token that `encode_key` cannot have produced.
#[derive(Clone, Copy, Debug, PartialEq, Eq, Structural)]
pub struct InvalidCursor;

/// An opaque pagination token. Clients hold it as a black box and hand it
/// back unmodified to resume a traversal; `decode` alone gives the key back.
pub struct Cursor {
    token: String,
}

impl View for Cursor {
    type V = Seq<char>;

    closed spec fn view(&self) -> Seq<char> {
        self.token@
    }
}

impl Cursor {
    /// Wraps a wire string received from a client. The string is not trusted:
    /// `decode` rejects it unless it is exactly what `encode_key` produces.
    pub fn from_token(token: String) -> (c: Cursor)
        ensures
            c@ == token@,
    {
        Cursor { token }
    }

    /// The wire form of the token, for the transport layer to send out.
    pub fn token(&self) -> (t: &String)
        ensures
            t@ == self@,
    {
        &self.token
    }
}

/// Relies on base64's `Engine::encode` with the URL-safe alphabet and
/// padding: the output is a function of the input bytes alone.
#[verifier::external_body]
fn b64_encode(bytes: &[u8]) -> (r: String)
    ensures
        r@ == b64_encoding(bytes@),
{
    base64::engine::general_purpose::URL_SAFE.encode(bytes)
}

/// Relies on base64's `Engine::decode` with the URL-safe alphabet: decoding
/// inverts encoding, so on the encoding of any byte sequence it returns
/// exactly those bytes.
#[verifier::external_body]
fn b64_decode(token: &str) -> (r: Option<Vec<u8>>)
    ensures
        r is Some <== exists|b: Seq<u8>| token@ == b64_encoding(b),
        r matches Some(v) ==> forall|b: Seq<u8>| token@ == b64_encoding(b) ==> v@ == b,
{
    base64::engine::general_purpose::URL_SAFE.decode(token).ok()
}

/// Relies on `String::from_utf8`: it succeeds exactly on valid UTF-8 input,
/// and returns the string whose UTF-8 bytes the input is.
#[verifier::external_body]
fn bytes_to_string(bytes: Vec<u8>) -> (r: Option<String>)
    ensures
        r matches Some(s) ==> valid_utf8(bytes@) && encode_utf8(s@) == bytes@,
        valid_utf8(bytes@) ==> r is Some,
{
    String::from_utf8(bytes).ok()
}

/// Encodes a sort-key value as an opaque URL-safe token.
pub fn encode_key(key: &str) -> (c: Cursor)
    ensures
        c@ == token_of(key@),
{
    Cursor { token: b64_encode(key.as_bytes()) }
}

/// Decodes a token back to the sort-key value it was made from.
///
/// Round-trip: on the token of any key `k` (what `encode_key(k)` returns)
/// the result is `Ok` and holds exactly `k`. Rejection: on every other
/// string the result is `Err(InvalidCursor)`, never a wrong key.
pub fn decode(cursor: &Cursor) -> (r: Result<String, InvalidCursor>)
    ensures
        r matches Ok(s) ==> cursor@ == token_of(s@),
        forall|k: Seq<char>| cursor@ == token_of(k) ==> (r matches Ok(s) && s@ == k),
        r is Err <==> !valid_token(cursor@),
{
    broadcast use encode_utf8_valid_utf8, encode_utf8_decode_utf8;

    let decoded = b64_decode(cursor.token.as_str());
    let bytes = match decoded {
        Some(b) => b,
        None => {
            proof {
                assert forall|k: Seq<char>| cursor@ != token_of(k) by {
                    if cursor@ == token_of(k) {
                        assert(cursor.token@ == b64_encoding(encode_utf8(k)));
                    }
                }
            }
            return Err(InvalidCursor);
        },
    };
    let ghost bytes_view = bytes@;
    let s = match bytes_to_string(bytes) {
        Some(s) => s,
        None => {
            proof {
                assert forall|k: Seq<char>| cursor@ != token_of(k) by {
                    if cursor@ == token_of(k) {
                        assert(cursor.token@ == b64_encoding(encode_utf8(k)));
                        assert(bytes_view == encode_utf8(k));
                        assert(valid_utf8(bytes_view));
                    }
                }
            }
            return Err(InvalidCursor);
        },
    };
    let re = b64_encode(s.as_str().as_bytes());
    if re == cursor.token {
        proof {
            assert(cursor@ == token_of(s@));
            assert forall|k: Seq<char>| cursor@ == token_of(k) implies s@ == k by {
                assert(cursor.token@ == b64_encoding(encode_utf8(k)));
                assert(bytes_view == encode_utf8(k));
                assert(encode_utf8(s@) == encode_utf8(k));
                assert(decode_utf8(encode_utf8(s@)) == decode_utf8(encode_utf8(k)));
            }
        }
        Ok(s)
    } else {
        proof {
            assert forall|k: Seq<char>| cursor@ != token_of(k) by {
                if cursor@ == token_of(k) {
                    assert(cursor.token@ == b64_encoding(encode_utf8(k)));
                    assert(bytes_view == encode_utf8(k));
                    assert(encode_utf8(s@) == bytes_view);
                    assert(re@ == b64_encoding(encode_utf8(s@)));
                    assert(re@ == cursor.token@);
                }
            }
        }
        Err(InvalidCursor)
    }
}

} // verus!
