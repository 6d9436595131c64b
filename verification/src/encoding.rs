//! Transport encoding of binary values, done by the `data_encoding` crate.

use vstd::prelude::*;

verus! {

/// Makes `data_encoding::DecodeError`, the error of a refused text, known as
/// an opaque type.
#[verifier::external_type_specification]
#[verifier::external_body]
pub struct ExDecodeError(data_encoding::DecodeError);

/// The text that `data_encoding::BASE64URL_NOPAD.encode` produces for `data`.
pub uninterp spec fn base64url_encoded(data: Seq<u8>) -> Seq<u8>;

/// What `data_encoding::BASE64URL_NOPAD.decode` makes of `text`: the bytes it
/// stands for, or `None` where the text is rejected.
pub uninterp spec fn base64url_decoded(text: Seq<u8>) -> Option<Seq<u8>>;

/// What `data_encoding::BASE64.decode` makes of `text`.
pub uninterp spec fn base64_decoded(text: Seq<u8>) -> Option<Seq<u8>>;

/// Longest input that the encoder is documented to take without panicking.
pub open spec fn encode_limit() -> int {
    (usize::MAX / 512) as int
}

/// Longest input that the decoder is documented to take without panicking.
pub open spec fn decode_limit() -> int {
    (usize::MAX / 8) as int
}

/// Calls `data_encoding::BASE64URL_NOPAD.encode`. Trusted: the result is the
/// named encoding of `data`, and, as the crate documents ("encoding followed
/// by decoding gives the initial data"), it decodes back to `data`.
#[verifier::external_body]
pub(crate) fn base64url_encode(data: &[u8]) -> (text: Vec<u8>)
    requires
        data@.len() <= encode_limit(),
    ensures
        text@ == base64url_encoded(data@),
        base64url_decoded(text@) == Some(data@),
{
    data_encoding::BASE64URL_NOPAD.encode(data).into_bytes()
}

/// Calls `data_encoding::BASE64URL_NOPAD.decode`. Trusted: the result is the
/// named decoding of `text`, an error exactly where that is `None`; and, as
/// the crate documents of its canonical encodings, of which this is one
/// ("decoding followed by encoding gives the initial data"), what is decoded
/// encodes to `text` again.
#[verifier::external_body]
pub(crate) fn base64url_decode(text: &[u8]) -> (r: Result<Vec<u8>, data_encoding::DecodeError>)
    requires
        text@.len() <= decode_limit(),
    ensures
        match r {
            Ok(data) => base64url_decoded(text@) == Some(data@) && base64url_encoded(data@)
                == text@,
            Err(_) => base64url_decoded(text@) is None,
        },
{
    data_encoding::BASE64URL_NOPAD.decode(text)
}

/// Calls `data_encoding::BASE64.decode`. Trusted: the result is the named
/// decoding of `text`, an error exactly where that is `None`.
#[verifier::external_body]
pub(crate) fn base64_decode(text: &[u8]) -> (r: Result<Vec<u8>, data_encoding::DecodeError>)
    requires
        text@.len() <= decode_limit(),
    ensures
        match r {
            Ok(data) => base64_decoded(text@) == Some(data@),
            Err(_) => base64_decoded(text@) is None,
        },
{
    data_encoding::BASE64.decode(text)
}

/// What a value in transport encoding stands for: the decoding of the text,
/// or nothing where the text is rejected or too long to be looked at.
pub open spec fn transport_decoded(text: Seq<u8>) -> Option<Seq<u8>> {
    if text.len() <= decode_limit() {
        base64url_decoded(text)
    } else {
        None
    }
}

/// The text is the one encoding of what it stands for, if it stands for
/// anything.
pub open spec fn canonical(text: Seq<u8>) -> bool {
    transport_decoded(text) matches Some(data) ==> base64url_encoded(data) == text
}

/// Two different texts that were both found canonical do not stand for the
/// same value: a change to a value in transport is a change to the value.
pub proof fn lemma_texts_decode_apart(a: Seq<u8>, b: Seq<u8>)
    requires
        canonical(a),
        canonical(b),
        a != b,
        transport_decoded(a) is Some,
    ensures
        transport_decoded(a) != transport_decoded(b),
{
}

/// Decodes a cookie's or a token's value as it travels.
pub fn decode_transport(text: &[u8]) -> (r: Option<Vec<u8>>)
    ensures
        match r {
            Some(data) => transport_decoded(text@) == Some(data@),
            None => transport_decoded(text@) is None,
        },
        canonical(text@),
{
    if text.len() > usize::MAX / 8 {
        return None;
    }
    match base64url_decode(text) {
        Ok(data) => Some(data),
        Err(_) => None,
    }
}

/// Encodes a cookie or a token for travel. `None` where the value is too
/// long for the encoder, which no cookie or token is.
pub fn encode_transport(data: &[u8]) -> (r: Option<Vec<u8>>)
    ensures
        match r {
            Some(text) => data@.len() <= encode_limit() && text@ == base64url_encoded(data@)
                && base64url_decoded(text@) == Some(data@),
            None => data@.len() > encode_limit(),
        },
{
    if data.len() > usize::MAX / 512 {
        return None;
    }
    Some(base64url_encode(data))
}

/// The secret that a text in standard base64 holds: its decoding, where
/// that has the length of a key.
pub open spec fn secret_decoded(text: Seq<u8>) -> Option<Seq<u8>> {
    if text.len() <= decode_limit() && base64_decoded(text) is Some && base64_decoded(
        text,
    ).unwrap().len() == 32 {
        base64_decoded(text)
    } else {
        None
    }
}

/// Reads a secret key from its text in standard base64.
pub fn decode_secret(text: &[u8]) -> (r: Option<[u8; 32]>)
    ensures
        match r {
            Some(key) => secret_decoded(text@) == Some(key@),
            None => secret_decoded(text@) is None,
        },
{
    if text.len() > usize::MAX / 8 {
        return None;
    }
    match base64_decode(text) {
        Ok(data) => {
            if data.len() != 32 {
                return None;
            }
            let mut key = [0u8; 32];
            let mut i: usize = 0;
            while i < 32
                invariant
                    i <= 32,
                    data@.len() == 32,
                    forall|j: int| 0 <= j < i ==> key@[j] == data@[j],
                decreases 32 - i,
            {
                key[i] = data[i];
                i += 1;
            }
            assert(key@ =~= data@);
            Some(key)
        },
        Err(_) => None,
    }
}

} // verus!
