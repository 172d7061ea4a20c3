//! Publicly verifiable secret sharing over a prime-order subgroup of the
//! multiplicative group modulo a safe prime.

pub mod bignum;
pub mod dleq;
pub mod transcript;
pub mod laws;
pub mod participant;
pub mod polynomial;
pub mod sharebox;
pub mod util;
pub mod vss;

use vstd::prelude::*;
use vstd::string::StringSliceAdditionalSpecFns;
use vstd::utf8::{decode_utf8, encode_utf8, valid_utf8};

pub use bignum::BigNum;
pub use participant::Participant;
pub use sharebox::{DistributionShareBox, ShareBox};

use transcript::{be_bytes, be_value, from_bytes_be, to_bytes_be};

verus! {

/// Relies on `String::from_utf8`: the string that `b` encodes, when `b` is
/// valid UTF-8.
#[verifier::external_body]
fn string_from_utf8(b: Vec<u8>) -> (r: Option<String>)
    ensures
        r is Some <==> valid_utf8(b@),
        r matches Some(s) ==> s@ == decode_utf8(b@),
{
    String::from_utf8(b).ok()
}

/// The secret that a message stands for: its UTF-8 bytes read as a
/// big-endian number.
pub fn string_to_secret(message: &str) -> (r: BigNum)
    ensures
        r.value() == be_value(message.spec_bytes()),
{
    from_bytes_be(message.as_bytes())
}

/// The message that a secret stands for: the UTF-8 text of the shortest
/// big-endian encoding of the secret.
pub fn string_from_secret(secret: &BigNum) -> (r: String)
    requires
        secret.value() >= 0,
        valid_utf8(be_bytes(secret.value() as nat)),
    ensures
        r@ == decode_utf8(be_bytes(secret.value() as nat)),
{
    match string_from_utf8(to_bytes_be(secret)) {
        Some(s) => s,
        None => {
            proof {
                assert(false);
            }
            String::new()
        },
    }
}

/// The message that a secret stands for, or `None` when the secret is
/// negative or its shortest big-endian encoding is not valid UTF-8.
pub fn try_string_from_secret(secret: &BigNum) -> (r: Option<String>)
    ensures
        r is Some <==> secret.value() >= 0 && valid_utf8(be_bytes(secret.value() as nat)),
        r matches Some(s) ==> s@ == decode_utf8(be_bytes(secret.value() as nat)),
{
    if secret.is_negative() {
        return None;
    }
    string_from_utf8(to_bytes_be(secret))
}

/// Encoding a message as a secret and decoding it again gives the message
/// back, for every message whose UTF-8 encoding is non-empty and does not
/// start with a zero byte (leading zero bytes do not survive the number).
pub proof fn lemma_secret_string_round_trip(s: Seq<char>)
    requires
        encode_utf8(s).len() > 0,
        encode_utf8(s)[0] != 0,
    ensures
        valid_utf8(be_bytes(be_value(encode_utf8(s)))),
        decode_utf8(be_bytes(be_value(encode_utf8(s)))) == s,
{
    transcript::lemma_be_bytes_of_value(encode_utf8(s));
    vstd::utf8::encode_utf8_valid_utf8(s);
    vstd::utf8::encode_utf8_decode_utf8(s);
}

} // verus!
