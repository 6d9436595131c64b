//! The keyed (cookie, token) pair.
//!
//! Both halves of a pair carry the same nonce and time of issue, each with
//! its own authentication tag: an HMAC-SHA256, computed by the `ring` crate,
//! of a role tag followed by the nonce and the time. Everything needed to
//! verify a pair is in its bytes and the secret.

use vstd::prelude::*;
use vstd::bytes::{
    lemma_auto_spec_u64_to_from_le_bytes, spec_u64_from_le_bytes, spec_u64_to_le_bytes,
    u64_from_le_bytes, u64_to_le_bytes,
};
use vstd::slice::{slice_subrange, slice_to_vec};
use ring::rand::SecureRandom;
use crate::error::CsrfError;
use crate::bytes::{append_bytes, same_bytes};

verus! {

/// Length of the nonce of a pair.
pub const NONCE_LEN: usize = 16;

/// Length of an authentication tag.
pub const MAC_LEN: usize = 32;

/// Length of an encoded cookie or token.
pub const WIRE_LEN: usize = 56;

/// Role tag under which a cookie is authenticated: the bytes of `cookie`.
pub const COOKIE_ROLE: [u8; 6] = [0x63, 0x6f, 0x6f, 0x6b, 0x69, 0x65];

/// Role tag under which a token is authenticated: the bytes of `token`.
pub const TOKEN_ROLE: [u8; 5] = [0x74, 0x6f, 0x6b, 0x65, 0x6e];

/// Makes `ring::error::Unspecified`, the one error of `ring`, known as an
/// opaque type.
#[verifier::external_type_specification]
#[verifier::external_body]
pub struct ExUnspecified(ring::error::Unspecified);

/// The HMAC-SHA256 tag that `ring::hmac::sign` computes for `message` under
/// the key value `key`.
pub uninterp spec fn hmac_sha256(key: Seq<u8>, message: Seq<u8>) -> Seq<u8>;

/// Longest message handed to the MAC.
pub open spec fn message_limit() -> int {
    0xffff
}

/// Calls `ring::hmac::sign` with an HMAC-SHA256 key made of `key`. Trusted:
/// the result is the named tag, and it has the 32 bytes of a SHA-256 digest.
#[verifier::external_body]
fn mac_sign(key: &[u8; 32], message: &[u8]) -> (tag: Vec<u8>)
    requires
        message@.len() <= message_limit(),
    ensures
        tag@ == hmac_sha256(key@, message@),
        tag@.len() == MAC_LEN,
{
    let key = ring::hmac::Key::new(ring::hmac::HMAC_SHA256, key);
    ring::hmac::sign(&key, message).as_ref().to_vec()
}

/// Calls `ring::hmac::verify`, which compares in constant time. Trusted: it
/// succeeds exactly where `tag` is the named tag of `message` under `key`.
#[verifier::external_body]
fn mac_verify(key: &[u8; 32], message: &[u8], tag: &[u8]) -> (r: Result<
    (),
    ring::error::Unspecified,
>)
    requires
        message@.len() <= message_limit(),
    ensures
        r.is_ok() == (tag@ == hmac_sha256(key@, message@)),
{
    let key = ring::hmac::Key::new(ring::hmac::HMAC_SHA256, key);
    ring::hmac::verify(&key, message, tag)
}

/// Calls `ring::rand::SystemRandom::fill` on an array of `N` bytes and
/// returns the array, or the error of the system's generator. Nothing is
/// claimed of the bytes.
#[verifier::external_body]
pub(crate) fn random_array<const N: usize>() -> Result<[u8; N], ring::error::Unspecified> {
    let mut bytes = [0u8; N];
    ring::rand::SystemRandom::new().fill(&mut bytes)?;
    Ok(bytes)
}

/// Calls `time::OffsetDateTime::now_utc` and returns its Unix timestamp.
/// Nothing is claimed of the value.
#[verifier::external_body]
pub(crate) fn unix_timestamp_now() -> i64 {
    time::OffsetDateTime::now_utc().unix_timestamp()
}

/// The content of a cookie or of a token.
pub struct Fields {
    /// The random value shared by the two halves of a pair.
    pub nonce: Seq<u8>,
    /// Seconds since the Unix epoch at which the pair was issued.
    pub issued_at: u64,
    /// The authentication tag.
    pub mac: Seq<u8>,
}

impl Fields {
    /// Nonce and tag have their fixed lengths.
    pub open spec fn wf(self) -> bool {
        self.nonce.len() == NONCE_LEN && self.mac.len() == MAC_LEN
    }

    /// The binary layout: nonce, time of issue as eight little-endian bytes,
    /// tag.
    pub open spec fn wire(self) -> Seq<u8> {
        self.nonce + spec_u64_to_le_bytes(self.issued_at) + self.mac
    }
}

/// The content that `bytes` encode, if they have the length of the layout.
pub open spec fn unwire(bytes: Seq<u8>) -> Option<Fields> {
    if bytes.len() == WIRE_LEN {
        Some(
            Fields {
                nonce: bytes.subrange(0, 16),
                issued_at: spec_u64_from_le_bytes(bytes.subrange(16, 24)),
                mac: bytes.subrange(24, 56),
            },
        )
    } else {
        None
    }
}

/// Decoding an encoded content gives the content back.
pub proof fn lemma_unwire_wire(f: Fields)
    requires
        f.wf(),
    ensures
        f.wire().len() == WIRE_LEN,
        unwire(f.wire()) == Some(f),
{
    lemma_auto_spec_u64_to_from_le_bytes();
    let w = f.wire();
    assert(w.subrange(0, 16) =~= f.nonce);
    assert(w.subrange(16, 24) =~= spec_u64_to_le_bytes(f.issued_at));
    assert(w.subrange(24, 56) =~= f.mac);
}

/// Encoding a decoded content gives the bytes back.
pub proof fn lemma_wire_unwire(bytes: Seq<u8>)
    requires
        bytes.len() == WIRE_LEN,
    ensures
        unwire(bytes) matches Some(f) && f.wf() && f.wire() == bytes,
{
    lemma_auto_spec_u64_to_from_le_bytes();
    let f = unwire(bytes).unwrap();
    assert(f.wire() =~= bytes);
}

/// What is authenticated: the role tag, the nonce and the time of issue.
pub open spec fn mac_message(role: Seq<u8>, nonce: Seq<u8>, issued_at: u64) -> Seq<u8> {
    role + nonce + spec_u64_to_le_bytes(issued_at)
}

/// The tag of a pair's half in the given role.
pub open spec fn role_mac(key: Seq<u8>, role: Seq<u8>, nonce: Seq<u8>, issued_at: u64) -> Seq<u8> {
    hmac_sha256(key, mac_message(role, nonce, issued_at))
}

/// The content of the half in the given role of the pair with this nonce and
/// time of issue.
pub open spec fn sealed(key: Seq<u8>, role: Seq<u8>, nonce: Seq<u8>, issued_at: u64) -> Fields {
    Fields { nonce, issued_at, mac: role_mac(key, role, nonce, issued_at) }
}

/// What parsing makes of `bytes` in the given role.
pub open spec fn parsed(key: Seq<u8>, role: Seq<u8>, bytes: Seq<u8>) -> Result<Fields, CsrfError> {
    match unwire(bytes) {
        None => Err(CsrfError::MalformedInput),
        Some(f) => if f.mac == role_mac(key, role, f.nonce, f.issued_at) {
            Ok(f)
        } else {
            Err(CsrfError::InvalidMac)
        },
    }
}

/// The token belongs to the cookie: same nonce, same time of issue, and the
/// tag that the token role gives to them.
pub open spec fn bound(key: Seq<u8>, token: Fields, cookie: Fields) -> bool {
    &&& token.nonce == cookie.nonce
    &&& token.issued_at == cookie.issued_at
    &&& token.mac == role_mac(key, TOKEN_ROLE@, cookie.nonce, cookie.issued_at)
}

/// The pair has not outlived `duration` at the time `now`.
pub open spec fn fresh(issued_at: u64, duration: u64, now: u64) -> bool {
    issued_at + duration >= now
}

/// The verdict on a parsed pair at the time `now`.
pub open spec fn checked(key: Seq<u8>, duration: u64, token: Fields, cookie: Fields, now: u64)
    -> Result<(), CsrfError> {
    if !bound(key, token, cookie) {
        Err(CsrfError::BindingMismatch)
    } else if !fresh(cookie.issued_at, duration, now) {
        Err(CsrfError::Expired)
    } else {
        Ok(())
    }
}

/// Lays out a content as bytes.
fn encode_wire(nonce: &[u8], issued_at: u64, mac: &[u8]) -> (out: Vec<u8>)
    ensures
        out@ == (Fields { nonce: nonce@, issued_at, mac: mac@ }).wire(),
{
    let mut out: Vec<u8> = Vec::new();
    append_bytes(&mut out, nonce);
    let time = u64_to_le_bytes(issued_at);
    append_bytes(&mut out, time.as_slice());
    append_bytes(&mut out, mac);
    out
}

/// The message that is authenticated for a half in the given role.
fn role_message(role: &[u8], nonce: &[u8], issued_at: u64) -> (out: Vec<u8>)
    ensures
        out@ == mac_message(role@, nonce@, issued_at),
        out@.len() == role@.len() + nonce@.len() + 8,
{
    let mut out: Vec<u8> = Vec::new();
    append_bytes(&mut out, role);
    append_bytes(&mut out, nonce);
    let time = u64_to_le_bytes(issued_at);
    append_bytes(&mut out, time.as_slice());
    out
}

/// The cookie half of a pair, decoded and authenticated.
pub struct Cookie {
    nonce: Vec<u8>,
    issued_at: u64,
    mac: Vec<u8>,
}

/// The token half of a pair, decoded and authenticated.
pub struct Token {
    nonce: Vec<u8>,
    issued_at: u64,
    mac: Vec<u8>,
}

impl View for Cookie {
    type V = Fields;

    closed spec fn view(&self) -> Fields {
        Fields { nonce: self.nonce@, issued_at: self.issued_at, mac: self.mac@ }
    }
}

impl View for Token {
    type V = Fields;

    closed spec fn view(&self) -> Fields {
        Fields { nonce: self.nonce@, issued_at: self.issued_at, mac: self.mac@ }
    }
}

impl Cookie {
    #[verifier::type_invariant]
    spec fn well_formed(self) -> bool {
        self.nonce@.len() == NONCE_LEN && self.mac@.len() == MAC_LEN
    }

    /// The random value shared with the token of the same pair.
    pub fn nonce(&self) -> (r: &[u8])
        ensures
            r@ == self@.nonce,
            self@.wf(),
    {
        proof {
            use_type_invariant(self);
        }
        self.nonce.as_slice()
    }

    /// Seconds since the Unix epoch at which the pair was issued.
    pub fn issued_at(&self) -> (r: u64)
        ensures
            r == self@.issued_at,
    {
        self.issued_at
    }

    /// The authentication tag.
    pub fn mac(&self) -> (r: &[u8])
        ensures
            r@ == self@.mac,
    {
        self.mac.as_slice()
    }

    /// The binary layout of the cookie.
    pub fn to_bytes(&self) -> (out: Vec<u8>)
        ensures
            out@ == self@.wire(),
    {
        encode_wire(self.nonce.as_slice(), self.issued_at, self.mac.as_slice())
    }
}

impl Token {
    #[verifier::type_invariant]
    spec fn well_formed(self) -> bool {
        self.nonce@.len() == NONCE_LEN && self.mac@.len() == MAC_LEN
    }

    /// The random value shared with the cookie of the same pair.
    pub fn nonce(&self) -> (r: &[u8])
        ensures
            r@ == self@.nonce,
            self@.wf(),
    {
        proof {
            use_type_invariant(self);
        }
        self.nonce.as_slice()
    }

    /// Seconds since the Unix epoch at which the pair was issued.
    pub fn issued_at(&self) -> (r: u64)
        ensures
            r == self@.issued_at,
    {
        self.issued_at
    }

    /// The authentication tag.
    pub fn mac(&self) -> (r: &[u8])
        ensures
            r@ == self@.mac,
    {
        self.mac.as_slice()
    }

    /// The binary layout of the token.
    pub fn to_bytes(&self) -> (out: Vec<u8>)
        ensures
            out@ == self@.wire(),
    {
        encode_wire(self.nonce.as_slice(), self.issued_at, self.mac.as_slice())
    }
}

/// Generates and verifies pairs under one secret and one duration.
pub struct CsrfProtection {
    secret: [u8; 32],
    duration: u64,
}

impl CsrfProtection {
    /// The secret key.
    pub closed spec fn key(&self) -> Seq<u8> {
        self.secret@
    }

    /// The number of seconds for which a pair stays valid.
    pub closed spec fn lifetime(&self) -> u64 {
        self.duration
    }

    /// An engine for the given secret, whose pairs stay valid for `duration`
    /// seconds.
    pub fn from_key(secret: [u8; 32], duration: u64) -> (r: Self)
        ensures
            r.key() == secret@,
            r.lifetime() == duration,
    {
        CsrfProtection { secret, duration }
    }

    /// The number of seconds for which a pair stays valid.
    pub fn duration(&self) -> (r: u64)
        ensures
            r == self.lifetime(),
    {
        self.duration
    }

    /// Decodes `bytes` and checks their tag in the given role.
    fn parse(&self, role: &[u8], bytes: &[u8]) -> (r: Result<(Vec<u8>, u64, Vec<u8>), CsrfError>)
        requires
            role@.len() <= 8,
        ensures
            match r {
                Ok((nonce, issued_at, mac)) => parsed(self.key(), role@, bytes@) == Ok::<
                    Fields,
                    CsrfError,
                >(Fields { nonce: nonce@, issued_at, mac: mac@ }) && nonce@.len() == NONCE_LEN
                    && mac@.len() == MAC_LEN,
                Err(e) => parsed(self.key(), role@, bytes@) == Err::<Fields, CsrfError>(e),
            },
    {
        if bytes.len() != WIRE_LEN {
            return Err(CsrfError::MalformedInput);
        }
        let nonce = slice_subrange(bytes, 0, 16);
        let issued_at = u64_from_le_bytes(slice_subrange(bytes, 16, 24));
        let mac = slice_subrange(bytes, 24, 56);
        let message = role_message(role, nonce, issued_at);
        match mac_verify(&self.secret, message.as_slice(), mac) {
            Ok(_) => Ok((slice_to_vec(nonce), issued_at, slice_to_vec(mac))),
            Err(_) => Err(CsrfError::InvalidMac),
        }
    }

    /// Decodes a cookie and checks its tag. Fails with `MalformedInput`
    /// exactly where `bytes` have not the length of the layout, and with
    /// `InvalidMac` exactly where they have it and the tag is not the one
    /// that this secret gives to their nonce and time in the cookie role.
    pub fn parse_cookie(&self, bytes: &[u8]) -> (r: Result<Cookie, CsrfError>)
        ensures
            match r {
                Ok(cookie) => parsed(self.key(), COOKIE_ROLE@, bytes@) == Ok::<Fields, CsrfError>(
                    cookie@,
                ) && cookie@.wf(),
                Err(e) => parsed(self.key(), COOKIE_ROLE@, bytes@) == Err::<Fields, CsrfError>(e),
            },
    {
        match self.parse(COOKIE_ROLE.as_slice(), bytes) {
            Ok((nonce, issued_at, mac)) => Ok(Cookie { nonce, issued_at, mac }),
            Err(e) => Err(e),
        }
    }

    /// Decodes a token and checks its tag, as [`Self::parse_cookie`] does in
    /// the token role.
    pub fn parse_token(&self, bytes: &[u8]) -> (r: Result<Token, CsrfError>)
        ensures
            match r {
                Ok(token) => parsed(self.key(), TOKEN_ROLE@, bytes@) == Ok::<Fields, CsrfError>(
                    token@,
                ) && token@.wf(),
                Err(e) => parsed(self.key(), TOKEN_ROLE@, bytes@) == Err::<Fields, CsrfError>(e),
            },
    {
        match self.parse(TOKEN_ROLE.as_slice(), bytes) {
            Ok((nonce, issued_at, mac)) => Ok(Token { nonce, issued_at, mac }),
            Err(e) => Err(e),
        }
    }

    /// The encoded half, in the given role, of the pair with this nonce and
    /// time of issue.
    fn seal(&self, role: &[u8], nonce: &[u8], issued_at: u64) -> (out: Vec<u8>)
        requires
            role@.len() <= 8,
            nonce@.len() == NONCE_LEN,
        ensures
            out@ == sealed(self.key(), role@, nonce@, issued_at).wire(),
            sealed(self.key(), role@, nonce@, issued_at).wf(),
            out@.len() == WIRE_LEN,
    {
        let message = role_message(role, nonce, issued_at);
        let mac = mac_sign(&self.secret, message.as_slice());
        proof {
            lemma_unwire_wire(sealed(self.key(), role@, nonce@, issued_at));
        }
        encode_wire(nonce, issued_at, mac.as_slice())
    }

    /// The encoded cookie and token of the pair with the given nonce, issued
    /// at the given time.
    pub fn build_pair(&self, nonce: &[u8; 16], issued_at: u64) -> (pair: (Vec<u8>, Vec<u8>))
        ensures
            pair.0@ == sealed(self.key(), COOKIE_ROLE@, nonce@, issued_at).wire(),
            pair.1@ == sealed(self.key(), TOKEN_ROLE@, nonce@, issued_at).wire(),
            sealed(self.key(), COOKIE_ROLE@, nonce@, issued_at).wf(),
            sealed(self.key(), TOKEN_ROLE@, nonce@, issued_at).wf(),
    {
        let cookie = self.seal(COOKIE_ROLE.as_slice(), nonce.as_slice(), issued_at);
        let token = self.seal(TOKEN_ROLE.as_slice(), nonce.as_slice(), issued_at);
        (cookie, token)
    }

    /// The encoded token that belongs to an existing cookie.
    pub fn token_for(&self, cookie: &Cookie) -> (out: Vec<u8>)
        ensures
            out@ == sealed(self.key(), TOKEN_ROLE@, cookie@.nonce, cookie@.issued_at).wire(),
            sealed(self.key(), TOKEN_ROLE@, cookie@.nonce, cookie@.issued_at).wf(),
    {
        proof {
            use_type_invariant(cookie);
        }
        self.seal(TOKEN_ROLE.as_slice(), cookie.nonce.as_slice(), cookie.issued_at)
    }

    /// The verdict on a parsed pair at the time `now`: `BindingMismatch`
    /// where the token does not belong to the cookie, else `Expired` where
    /// the pair has outlived the duration, else success.
    pub fn check_token_pair_at(&self, token: &Token, cookie: &Cookie, now: u64) -> (r: Result<
        (),
        CsrfError,
    >)
        ensures
            r == checked(self.key(), self.lifetime(), token@, cookie@, now),
    {
        proof {
            use_type_invariant(cookie);
        }
        if !same_bytes(token.nonce.as_slice(), cookie.nonce.as_slice()) {
            return Err(CsrfError::BindingMismatch);
        }
        if token.issued_at != cookie.issued_at {
            return Err(CsrfError::BindingMismatch);
        }
        let message = role_message(
            TOKEN_ROLE.as_slice(),
            cookie.nonce.as_slice(),
            cookie.issued_at,
        );
        match mac_verify(&self.secret, message.as_slice(), token.mac.as_slice()) {
            Ok(_) => {},
            Err(_) => {
                return Err(CsrfError::BindingMismatch);
            },
        }
        if now > cookie.issued_at && now - cookie.issued_at > self.duration {
            return Err(CsrfError::Expired);
        }
        Ok(())
    }

    /// Whether the parsed pair is accepted at the time `now`.
    pub fn verify_token_pair_at(&self, token: &Token, cookie: &Cookie, now: u64) -> (ok: bool)
        ensures
            ok == checked(self.key(), self.lifetime(), token@, cookie@, now).is_ok(),
    {
        self.check_token_pair_at(token, cookie, now).is_ok()
    }

    /// The verdict, at the time `now`, on a cookie and a token as they
    /// arrive: the first error of parsing the cookie, parsing the token and
    /// checking the pair.
    pub fn check_pair_bytes_at(&self, token: &[u8], cookie: &[u8], now: u64) -> (r: Result<
        (),
        CsrfError,
    >)
        ensures
            r == verdict(self.key(), self.lifetime(), cookie@, token@, now),
    {
        let cookie = match self.parse_cookie(cookie) {
            Ok(cookie) => cookie,
            Err(e) => {
                return Err(e);
            },
        };
        let token = match self.parse_token(token) {
            Ok(token) => token,
            Err(e) => {
                return Err(e);
            },
        };
        self.check_token_pair_at(&token, &cookie, now)
    }

    /// Whether the parsed pair is accepted at the current time, which is
    /// read from the system clock. Whatever the clock says, a token that
    /// does not belong to the cookie is refused.
    pub fn verify_token_pair(&self, token: &Token, cookie: &Cookie) -> (ok: bool)
        ensures
            ok ==> bound(self.key(), token@, cookie@),
            exists|now: u64|
                ok == #[trigger] checked(
                    self.key(),
                    self.lifetime(),
                    token@,
                    cookie@,
                    now,
                ).is_ok(),
    {
        let now = seconds_since_epoch(unix_timestamp_now());
        self.verify_token_pair_at(token, cookie, now)
    }

    /// A new pair: a nonce from the system's random generator, issued at the
    /// current time of the system clock. `None` where the generator fails.
    pub fn generate_pair(&self) -> (r: Option<(Vec<u8>, Vec<u8>)>)
        ensures
            r matches Some(pair) ==> is_pair(self.key(), pair.0@, pair.1@),
    {
        match random_array::<16>() {
            Ok(nonce) => {
                let issued_at = seconds_since_epoch(unix_timestamp_now());
                let pair = self.build_pair(&nonce, issued_at);
                proof {
                    lemma_unwire_wire(sealed(self.key(), COOKIE_ROLE@, nonce@, issued_at));
                }
                Some(pair)
            },
            Err(_) => None,
        }
    }
    /// The pair that a session keeps at the time `now`: the cookie it
    /// presents with the token that belongs to it, where the cookie is
    /// authentic and has not expired; else none.
    pub fn kept_pair_at(&self, presented: Option<&[u8]>, now: u64) -> (r: Option<(Vec<u8>, Vec<u8>)>)
        ensures
            match r {
                Some(pair) => kept_pair(self.key(), self.lifetime(), opt_bytes(presented), now)
                    == Some((pair.0@, pair.1@)) && is_pair(self.key(), pair.0@, pair.1@),
                None => kept_pair(self.key(), self.lifetime(), opt_bytes(presented), now) is None,
            },
    {
        if let Some(bytes) = presented {
            if let Ok(cookie) = self.parse_cookie(bytes) {
                if !(now > cookie.issued_at && now - cookie.issued_at > self.duration) {
                    let token = self.token_for(&cookie);
                    proof {
                        lemma_wire_unwire(bytes@);
                    }
                    return Some((slice_to_vec(bytes), token));
                }
            }
        }
        None
    }

    /// The pair that a session goes on with at the time `now`: the pair it
    /// keeps, where it keeps one; else a new pair with the given nonce,
    /// issued now.
    pub fn session_pair_at(&self, presented: Option<&[u8]>, nonce: &[u8; 16], now: u64) -> (pair: (
        Vec<u8>,
        Vec<u8>,
    ))
        ensures
            (pair.0@, pair.1@) == session_pair(
                self.key(),
                self.lifetime(),
                opt_bytes(presented),
                nonce@,
                now,
            ),
            is_pair(self.key(), pair.0@, pair.1@),
    {
        match self.kept_pair_at(presented, now) {
            Some(pair) => pair,
            None => {
                let pair = self.build_pair(nonce, now);
                proof {
                    lemma_unwire_wire(sealed(self.key(), COOKIE_ROLE@, nonce@, now));
                }
                pair
            },
        }
    }

    /// The pair that a session goes on with at the current time of the
    /// system clock. The pair that the session keeps is returned as it is;
    /// only where there is none is a nonce drawn from the system's random
    /// generator for a new pair, and only where the generator fails is the
    /// result `None`. So a cookie that is authentic and can never expire is
    /// always kept, whatever the clock and the generator do.
    pub fn session_pair(&self, presented: Option<&[u8]>) -> (r: Option<(Vec<u8>, Vec<u8>)>)
        ensures
            r matches Some(pair) ==> is_pair(self.key(), pair.0@, pair.1@),
            r matches Some(pair) ==> exists|nonce: Seq<u8>, now: u64|
                nonce.len() == NONCE_LEN && (pair.0@, pair.1@) == #[trigger] session_pair(
                    self.key(),
                    self.lifetime(),
                    opt_bytes(presented),
                    nonce,
                    now,
                ),
            kept_pair(self.key(), self.lifetime(), opt_bytes(presented), u64::MAX) matches Some(
                kept,
            ) ==> r matches Some(pair) && (pair.0@, pair.1@) == kept,
            r is None ==> exists|now: u64| #[trigger]
                kept_pair(self.key(), self.lifetime(), opt_bytes(presented), now) is None,
    {
        let now = seconds_since_epoch(unix_timestamp_now());
        proof {
            if kept_pair(self.key(), self.lifetime(), opt_bytes(presented), u64::MAX) is Some {
                lemma_kept_for_ever(self.key(), self.lifetime(), opt_bytes(presented), now);
            }
        }
        match self.kept_pair_at(presented, now) {
            Some(pair) => {
                proof {
                    let nonce = Seq::new(NONCE_LEN as nat, |i: int| 0u8);
                    assert((pair.0@, pair.1@) == session_pair(
                        self.key(),
                        self.lifetime(),
                        opt_bytes(presented),
                        nonce,
                        now,
                    ));
                }
                Some(pair)
            },
            None => match random_array::<16>() {
                Ok(nonce) => {
                    let pair = self.session_pair_at(presented, &nonce, now);
                    proof {
                        assert((pair.0@, pair.1@) == session_pair(
                            self.key(),
                            self.lifetime(),
                            opt_bytes(presented),
                            nonce@,
                            now,
                        ));
                    }
                    Some(pair)
                },
                Err(_) => None,
            },
        }
    }
}

/// The bytes of an optional byte string.
pub open spec fn opt_bytes(bytes: Option<&[u8]>) -> Option<Seq<u8>> {
    match bytes {
        Some(b) => Some(b@),
        None => None,
    }
}

/// The pair that a session keeps at the time `now`: the cookie it presents
/// with the token that belongs to it, where the cookie is authentic and has
/// not expired.
pub open spec fn kept_pair(key: Seq<u8>, duration: u64, presented: Option<Seq<u8>>, now: u64)
    -> Option<(Seq<u8>, Seq<u8>)> {
    match presented {
        Some(bytes) => match parsed(key, COOKIE_ROLE@, bytes) {
            Ok(cookie) => if fresh(cookie.issued_at, duration, now) {
                Some((bytes, sealed(key, TOKEN_ROLE@, cookie.nonce, cookie.issued_at).wire()))
            } else {
                None
            },
            Err(_) => None,
        },
        None => None,
    }
}

/// The pair that a session goes on with at the time `now`: the pair it
/// keeps, where it keeps one; else the new pair with the given nonce, issued
/// now.
pub open spec fn session_pair(
    key: Seq<u8>,
    duration: u64,
    presented: Option<Seq<u8>>,
    nonce: Seq<u8>,
    now: u64,
) -> (Seq<u8>, Seq<u8>) {
    match kept_pair(key, duration, presented, now) {
        Some(pair) => pair,
        None => (
            sealed(key, COOKIE_ROLE@, nonce, now).wire(),
            sealed(key, TOKEN_ROLE@, nonce, now).wire(),
        ),
    }
}

/// A pair that is kept at the end of time is kept, unchanged, at every time.
pub proof fn lemma_kept_for_ever(
    key: Seq<u8>,
    duration: u64,
    presented: Option<Seq<u8>>,
    now: u64,
)
    requires
        kept_pair(key, duration, presented, u64::MAX) is Some,
    ensures
        kept_pair(key, duration, presented, now) == kept_pair(key, duration, presented, u64::MAX),
{
}

/// A clock reading as seconds since the Unix epoch; a reading before the
/// epoch counts as the epoch.
pub fn seconds_since_epoch(timestamp: i64) -> (r: u64)
    ensures
        r == if timestamp < 0 {
            0
        } else {
            timestamp
        },
{
    if timestamp < 0 {
        0
    } else {
        timestamp as u64
    }
}

/// `cookie` and `token` are the two encoded halves of one pair made under
/// `key`.
pub open spec fn is_pair(key: Seq<u8>, cookie: Seq<u8>, token: Seq<u8>) -> bool {
    &&& unwire(cookie) matches Some(f)
    &&& sealed(key, COOKIE_ROLE@, f.nonce, f.issued_at).wf()
    &&& sealed(key, TOKEN_ROLE@, f.nonce, f.issued_at).wf()
    &&& cookie == sealed(key, COOKIE_ROLE@, f.nonce, f.issued_at).wire()
    &&& token == sealed(key, TOKEN_ROLE@, f.nonce, f.issued_at).wire()
}

/// The verdict on an encoded cookie and token at the time `now`.
pub open spec fn verdict(key: Seq<u8>, duration: u64, cookie: Seq<u8>, token: Seq<u8>, now: u64)
    -> Result<(), CsrfError> {
    match parsed(key, COOKIE_ROLE@, cookie) {
        Err(e) => Err(e),
        Ok(c) => match parsed(key, TOKEN_ROLE@, token) {
            Err(e) => Err(e),
            Ok(t) => checked(key, duration, t, c, now),
        },
    }
}

/// A pair is accepted from the moment it is issued until its duration has
/// elapsed, and refused as expired from then on.
pub proof fn lemma_pair_verifies_until_expiry(
    key: Seq<u8>,
    duration: u64,
    cookie: Seq<u8>,
    token: Seq<u8>,
    now: u64,
)
    requires
        is_pair(key, cookie, token),
    ensures
        verdict(key, duration, cookie, token, now) == if unwire(cookie).unwrap().issued_at
            + duration >= now {
            Ok::<(), CsrfError>(())
        } else {
            Err::<(), CsrfError>(CsrfError::Expired)
        },
        verdict(key, duration, cookie, token, unwire(cookie).unwrap().issued_at) is Ok,
{
    let f = unwire(cookie).unwrap();
    lemma_unwire_wire(sealed(key, COOKIE_ROLE@, f.nonce, f.issued_at));
    lemma_unwire_wire(sealed(key, TOKEN_ROLE@, f.nonce, f.issued_at));
}

/// A pair made by one engine is accepted by every engine that holds the
/// same secret, for as long as that engine's duration allows.
pub proof fn lemma_same_secret_accepts(
    issuer: CsrfProtection,
    verifier: CsrfProtection,
    cookie: Seq<u8>,
    token: Seq<u8>,
    now: u64,
)
    requires
        issuer.key() == verifier.key(),
        is_pair(issuer.key(), cookie, token),
        fresh(unwire(cookie).unwrap().issued_at, verifier.lifetime(), now),
    ensures
        verdict(verifier.key(), verifier.lifetime(), cookie, token, now) is Ok,
{
    lemma_pair_verifies_until_expiry(verifier.key(), verifier.lifetime(), cookie, token, now);
}

/// The two secrets give the same tag to some nonce and time in one of the
/// two roles of `cookie` and `token`.
pub open spec fn tags_collide(key_a: Seq<u8>, key_b: Seq<u8>, cookie: Seq<u8>, token: Seq<u8>)
    -> bool {
    ||| unwire(cookie) matches Some(c) && role_mac(key_a, COOKIE_ROLE@, c.nonce, c.issued_at)
        == role_mac(key_b, COOKIE_ROLE@, c.nonce, c.issued_at)
    ||| unwire(token) matches Some(t) && role_mac(key_a, TOKEN_ROLE@, t.nonce, t.issued_at)
        == role_mac(key_b, TOKEN_ROLE@, t.nonce, t.issued_at)
}

/// The token of a pair made under one secret is refused with the cookie of
/// a pair made under another, whichever of the two secrets verifies, unless
/// the two secrets give the same tag to the same content.
pub proof fn lemma_cross_secret_refused(
    key_a: Seq<u8>,
    key_b: Seq<u8>,
    duration: u64,
    cookie_a: Seq<u8>,
    token_a: Seq<u8>,
    cookie_b: Seq<u8>,
    token_b: Seq<u8>,
    now: u64,
)
    requires
        is_pair(key_a, cookie_a, token_a),
        is_pair(key_b, cookie_b, token_b),
        !tags_collide(key_a, key_b, cookie_b, token_a),
    ensures
        verdict(key_a, duration, cookie_b, token_a, now) is Err,
        verdict(key_b, duration, cookie_b, token_a, now) is Err,
{
    let a = unwire(cookie_a).unwrap();
    let b = unwire(cookie_b).unwrap();
    lemma_unwire_wire(sealed(key_a, TOKEN_ROLE@, a.nonce, a.issued_at));
    lemma_unwire_wire(sealed(key_b, COOKIE_ROLE@, b.nonce, b.issued_at));
}

/// The token of one pair is refused with the cookie of a pair that has
/// another nonce or another time of issue, whatever the secrets are.
pub proof fn lemma_other_pair_refused(
    key: Seq<u8>,
    duration: u64,
    cookie: Seq<u8>,
    token: Seq<u8>,
    now: u64,
)
    requires
        unwire(cookie) matches Some(c) && unwire(token) matches Some(t) && (c.nonce != t.nonce
            || c.issued_at != t.issued_at),
    ensures
        verdict(key, duration, cookie, token, now) is Err,
{
}

/// Two different encodings of the full length hold different contents.
pub proof fn lemma_unwire_injective(a: Seq<u8>, b: Seq<u8>)
    requires
        a.len() == WIRE_LEN,
        b.len() == WIRE_LEN,
        a != b,
    ensures
        unwire(a) != unwire(b),
{
    lemma_wire_unwire(a);
    lemma_wire_unwire(b);
}

/// Tampering is detected: where a cookie and a token are accepted together,
/// any other bytes in place of the cookie, or in place of the token, are
/// refused. A single flipped byte is one such change.
pub proof fn lemma_tampering_refused(
    key: Seq<u8>,
    duration: u64,
    cookie: Seq<u8>,
    token: Seq<u8>,
    forged: Seq<u8>,
    now: u64,
)
    requires
        verdict(key, duration, cookie, token, now) is Ok,
    ensures
        forged != cookie ==> verdict(key, duration, forged, token, now) is Err,
        forged != token ==> verdict(key, duration, cookie, forged, now) is Err,
{
    if forged.len() == WIRE_LEN {
        if forged != cookie {
            lemma_unwire_injective(forged, cookie);
        }
        if forged != token {
            lemma_unwire_injective(forged, token);
        }
    }
}

} // verus!
