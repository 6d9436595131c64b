//! The configuration of the protection and the decisions that it takes on
//! every request and on every response.
//!
//! The host hands in what it read from a request or a response as plain
//! values and carries out the action that comes back.

use vstd::prelude::*;
use vstd::string::StringSliceAdditionalSpecFns;
use vstd::utf8::{encode_utf8, valid_utf8};
use crate::bytes::{is_utf8, starts_with};
use crate::crypto::{
    is_pair, opt_bytes, random_array, seconds_since_epoch, session_pair, unix_timestamp_now, verdict,
    CsrfProtection,
};
use crate::encoding::{decode_secret, decode_transport, secret_decoded, transport_decoded};
use crate::error::CsrfError;
use crate::form::{body_token, extract_token};
use crate::path::{
    captures_only_uri, compiled, matched, rendered, uri_name, CaptureMap, Part, PathPattern,
};

verus! {

/// The method of a request.
#[derive(Clone, Copy, PartialEq, Eq, Debug, Structural)]
pub enum Method {
    Get,
    Put,
    Post,
    Delete,
    Options,
    Head,
    Trace,
    Connect,
    Patch,
}

impl Method {
    /// Requests with this method must present a valid pair. The methods
    /// that only read are exempt.
    pub open spec fn is_protected(self) -> bool {
        !(self == Method::Get || self == Method::Head || self == Method::Connect || self
            == Method::Options)
    }

    /// Whether requests with this method must present a valid pair.
    pub fn protected(self) -> (r: bool)
        ensures
            r == self.is_protected(),
    {
        match self {
            Method::Get | Method::Head | Method::Connect | Method::Options => false,
            _ => true,
        }
    }
}

/// What a builder holds.
pub struct BuilderModel {
    pub duration: u64,
    pub default_target: (Seq<char>, Method),
    pub exceptions: Seq<(Seq<char>, Seq<char>, Method)>,
    pub secret: Option<Seq<u8>>,
    pub auto_insert: bool,
    pub auto_insert_disable_prefix: Seq<Seq<char>>,
    pub auto_insert_max_size: u64,
}

/// The texts and methods of a list of exceptions.
pub open spec fn exception_texts(list: Seq<(String, String, Method)>) -> Seq<
    (Seq<char>, Seq<char>, Method),
> {
    Seq::new(list.len(), |i: int| (list[i].0@, list[i].1@, list[i].2))
}

/// The texts of a list of strings.
pub open spec fn texts(list: Seq<String>) -> Seq<Seq<char>> {
    Seq::new(list.len(), |i: int| list[i]@)
}

/// Collects the configuration of a [`CsrfFairing`].
pub struct CsrfFairingBuilder {
    duration: u64,
    default_target: (String, Method),
    exceptions: Vec<(String, String, Method)>,
    secret: Option<[u8; 32]>,
    auto_insert: bool,
    auto_insert_disable_prefix: Vec<String>,
    auto_insert_max_size: u64,
}

impl View for CsrfFairingBuilder {
    type V = BuilderModel;

    closed spec fn view(&self) -> BuilderModel {
        BuilderModel {
            duration: self.duration,
            default_target: (self.default_target.0@, self.default_target.1),
            exceptions: exception_texts(self.exceptions@),
            secret: match self.secret {
                Some(key) => Some(key@),
                None => None,
            },
            auto_insert: self.auto_insert,
            auto_insert_disable_prefix: texts(self.auto_insert_disable_prefix@),
            auto_insert_max_size: self.auto_insert_max_size,
        }
    }
}

/// The configuration that a new builder starts from: pairs live for twelve
/// hours, violations go to `/` as `GET`, there are no exceptions and no
/// secret, and tokens are inserted into every HTML response, at once where
/// the body has at most 16 KiB.
pub open spec fn default_model() -> BuilderModel {
    BuilderModel {
        duration: 43200,
        default_target: ("/"@, Method::Get),
        exceptions: Seq::empty(),
        secret: None,
        auto_insert: true,
        auto_insert_disable_prefix: Seq::empty(),
        auto_insert_max_size: 16384,
    }
}

impl CsrfFairingBuilder {
    /// A builder with the default configuration.
    pub fn new() -> (r: Self)
        ensures
            r@ == default_model(),
    {
        let r = CsrfFairingBuilder {
            duration: 60 * 60 * 12,
            default_target: ("/".to_owned(), Method::Get),
            exceptions: Vec::new(),
            secret: None,
            auto_insert: true,
            auto_insert_disable_prefix: Vec::new(),
            auto_insert_max_size: 16 * 1024,
        };
        assert(r@.exceptions =~= Seq::empty());
        assert(r@.auto_insert_disable_prefix =~= Seq::empty());
        r
    }

    /// Sets the number of seconds for which a pair stays valid.
    pub fn set_timeout(self, timeout: u64) -> (r: Self)
        ensures
            r@ == (BuilderModel { duration: timeout, ..self@ }),
    {
        let mut r = self;
        r.duration = timeout;
        r
    }

    /// Sets the route, and its method, to which a request is sent that
    /// violates the protection and matches no exception. The route may hold
    /// `<uri>`, which is replaced by the percent-encoded target of the request.
    pub fn set_default_target(self, default_target: String, method: Method) -> (r: Self)
        ensures
            r@ == (BuilderModel { default_target: (default_target@, method), ..self@ }),
    {
        let mut r = self;
        r.default_target = (default_target, method);
        r
    }

    /// Replaces the list of exceptions. An exception is a source template,
    /// a target template and the method of the target: a violating request
    /// whose path matches the source is sent to the target, rendered with
    /// what the source captured. The first exception that applies wins.
    pub fn set_exceptions(self, exceptions: Vec<(String, String, Method)>) -> (r: Self)
        ensures
            r@ == (BuilderModel { exceptions: exception_texts(exceptions@), ..self@ }),
    {
        let mut r = self;
        r.exceptions = exceptions;
        r
    }

    /// Adds exceptions after those already set.
    pub fn add_exceptions(self, exceptions: Vec<(String, String, Method)>) -> (r: Self)
        ensures
            r@ == (BuilderModel {
                exceptions: self@.exceptions + exception_texts(exceptions@),
                ..self@
            }),
    {
        let mut r = self;
        let mut more = exceptions;
        let ghost before = r.exceptions@;
        r.exceptions.append(&mut more);
        assert(exception_texts(before + exceptions@) =~= exception_texts(before) + exception_texts(
            exceptions@,
        ));
        r
    }

    /// Sets the secret key under which pairs are made.
    pub fn set_secret(self, secret: [u8; 32]) -> (r: Self)
        ensures
            r@ == (BuilderModel { secret: Some(secret@), ..self@ }),
    {
        let mut r = self;
        r.secret = Some(secret);
        r
    }

    /// Sets whether tokens are inserted into the forms of responses.
    pub fn set_auto_insert(self, auto_insert: bool) -> (r: Self)
        ensures
            r@ == (BuilderModel { auto_insert, ..self@ }),
    {
        let mut r = self;
        r.auto_insert = auto_insert;
        r
    }

    /// Sets the prefixes of request targets whose responses are left alone.
    pub fn set_auto_insert_disable_prefix(self, auto_insert_prefix: Vec<String>) -> (r: Self)
        ensures
            r@ == (BuilderModel {
                auto_insert_disable_prefix: texts(auto_insert_prefix@),
                ..self@
            }),
    {
        let mut r = self;
        r.auto_insert_disable_prefix = auto_insert_prefix;
        r
    }

    /// Sets the largest size of a body that is rewritten at once; a larger
    /// one is rewritten as a stream.
    pub fn set_auto_insert_max_chunk_size(self, chunk_size: u64) -> (r: Self)
        ensures
            r@ == (BuilderModel { auto_insert_max_size: chunk_size, ..self@ }),
    {
        let mut r = self;
        r.auto_insert_max_size = chunk_size;
        r
    }
}

impl Default for CsrfFairingBuilder {
    fn default() -> (r: Self)
        ensures
            r@ == default_model(),
    {
        Self::new()
    }
}

/// Where the secret of a fairing came from.
#[derive(Clone, Copy, PartialEq, Eq, Debug, Structural)]
pub enum SecretSource {
    /// It was set on the builder.
    Configured,
    /// It was read from the text that the environment provides.
    Environment,
    /// It was drawn at random, so pairs do not outlive the process.
    Random,
}

/// What a fairing holds.
pub struct FairingModel {
    pub duration: u64,
    pub default_target: (Seq<Part>, Method),
    pub exceptions: Seq<(Seq<Part>, Seq<Part>, Method)>,
    pub secret: Seq<u8>,
    pub auto_insert: bool,
    pub auto_insert_disable_prefix: Seq<Seq<u8>>,
    pub auto_insert_max_size: u64,
}

/// The compiled form of a list of exceptions.
pub open spec fn compiled_exceptions(list: Seq<(Seq<char>, Seq<char>, Method)>) -> Seq<
    (Seq<Part>, Seq<Part>, Method),
> {
    Seq::new(
        list.len(),
        |i: int| (compiled(encode_utf8(list[i].0)), compiled(encode_utf8(list[i].1)), list[i].2),
    )
}

/// The bytes of a list of texts.
pub open spec fn encoded_texts(list: Seq<Seq<char>>) -> Seq<Seq<u8>> {
    Seq::new(list.len(), |i: int| encode_utf8(list[i]))
}

/// The secret that a fairing takes where it need not draw one: the one set
/// on the builder, else the one that the environment's text holds.
pub open spec fn provided_secret(configured: Option<Seq<u8>>, environment: Option<Seq<char>>)
    -> Option<Seq<u8>> {
    match configured {
        Some(key) => Some(key),
        None => match environment {
            Some(text) => secret_decoded(encode_utf8(text)),
            None => None,
        },
    }
}

/// Where the secret of a fairing comes from, given what the builder and the
/// environment provide.
pub open spec fn secret_origin(configured: Option<Seq<u8>>, environment: Option<Seq<char>>)
    -> SecretSource {
    if configured is Some {
        SecretSource::Configured
    } else if provided_secret(configured, environment) is Some {
        SecretSource::Environment
    } else {
        SecretSource::Random
    }
}

/// The fairing that a builder's configuration and a secret make.
pub open spec fn finalized(b: BuilderModel, secret: Seq<u8>) -> FairingModel {
    FairingModel {
        duration: b.duration,
        default_target: (compiled(encode_utf8(b.default_target.0)), b.default_target.1),
        exceptions: compiled_exceptions(b.exceptions),
        secret,
        auto_insert: b.auto_insert,
        auto_insert_disable_prefix: encoded_texts(b.auto_insert_disable_prefix),
        auto_insert_max_size: b.auto_insert_max_size,
    }
}

/// The compiled exceptions of a fairing, as values of the model.
pub open spec fn exception_parts(list: Seq<(PathPattern, PathPattern, Method)>) -> Seq<
    (Seq<Part>, Seq<Part>, Method),
> {
    Seq::new(list.len(), |i: int| (list[i].0@, list[i].1@, list[i].2))
}

/// What the fairing tells the host about itself.
pub struct FairingInfo {
    /// The name under which the fairing is listed.
    pub name: &'static str,
    /// The fairing wants to be called when it is attached.
    pub on_attach: bool,
    /// The fairing wants to be called on every request.
    pub on_request: bool,
    /// The fairing wants to be called on every response.
    pub on_response: bool,
}

/// What the host read from a request.
pub struct RequestFacts {
    /// The method of the request.
    pub method: Method,
    /// The number of cookies that the request carries.
    pub cookie_count: usize,
    /// The value of the cookie named [`crate::CSRF_COOKIE_NAME`], if there
    /// is one.
    pub csrf_cookie: Option<Vec<u8>>,
    /// The content type is `multipart/form-data`.
    pub multipart: bool,
    /// The beginning of the body, as far as the host looks ahead.
    pub body: Vec<u8>,
    /// The target of the request.
    pub uri: Vec<u8>,
}

/// A request, as a value of the model.
pub struct RequestModel {
    pub method: Method,
    pub cookie_count: nat,
    pub csrf_cookie: Option<Seq<u8>>,
    pub multipart: bool,
    pub body: Seq<u8>,
    pub uri: Seq<u8>,
}

impl View for RequestFacts {
    type V = RequestModel;

    open spec fn view(&self) -> RequestModel {
        RequestModel {
            method: self.method,
            cookie_count: self.cookie_count as nat,
            csrf_cookie: match self.csrf_cookie {
                Some(value) => Some(value@),
                None => None,
            },
            multipart: self.multipart,
            body: self.body@,
            uri: self.uri@,
        }
    }
}

/// What the host is to do with a request.
pub enum RequestAction {
    /// Let it through as it is.
    Pass,
    /// Send it to another target, with another method.
    Reroute { uri: Vec<u8>, method: Method },
}

/// What is done with a request, as a value of the model.
pub enum RequestVerdict {
    Pass,
    Reroute { uri: Seq<u8>, method: Method },
}

impl View for RequestAction {
    type V = RequestVerdict;

    open spec fn view(&self) -> RequestVerdict {
        match self {
            RequestAction::Pass => RequestVerdict::Pass,
            RequestAction::Reroute { uri, method } => RequestVerdict::Reroute {
                uri: uri@,
                method: *method,
            },
        }
    }
}

/// Whether `rocket::http::uri::Origin::parse_owned` accepts the text whose
/// UTF-8 bytes are `uri`.
pub uninterp spec fn is_origin(uri: Seq<u8>) -> bool;

/// Calls `rocket::http::uri::Origin::parse_owned` on the text that `uri`
/// holds and says whether it succeeded. Trusted: the answer is the named
/// one.
#[verifier::external_body]
fn parses_as_origin(uri: &[u8]) -> (r: bool)
    requires
        valid_utf8(uri@),
    ensures
        r == is_origin(uri@),
{
    let text = String::from_utf8_lossy(uri).into_owned();
    rocket::http::uri::Origin::parse_owned(text).is_ok()
}

/// A rendered target can be handed to the host: it is text, and the host
/// takes it as the target of a request.
pub open spec fn acceptable_target(uri: Seq<u8>) -> bool {
    valid_utf8(uri) && is_origin(uri)
}

/// Whether a rendered target can be handed to the host.
pub fn check_target(uri: &[u8]) -> (r: bool)
    ensures
        r == acceptable_target(uri@),
{
    is_utf8(uri) && parses_as_origin(uri)
}

/// Where one exception sends a violating request, if it applies: its
/// source matches the target of the request, its target can be rendered
/// with what was captured, and what is rendered is acceptable.
pub open spec fn exception_route(exception: (Seq<Part>, Seq<Part>, Method), uri: Seq<u8>)
    -> Option<(Seq<u8>, Method)> {
    match matched(exception.0, uri) {
        Some(captures) => match rendered(exception.1, captures, true) {
            Some(target) => if acceptable_target(target) {
                Some((target, exception.2))
            } else {
                None
            },
            None => None,
        },
        None => None,
    }
}

/// Where the first exception that applies sends a violating request.
pub open spec fn first_route(exceptions: Seq<(Seq<Part>, Seq<Part>, Method)>, uri: Seq<u8>)
    -> Option<(Seq<u8>, Method)>
    decreases exceptions.len(),
{
    if exceptions.len() == 0 {
        None
    } else {
        match exception_route(exceptions[0], uri) {
            Some(route) => Some(route),
            None => first_route(exceptions.skip(1), uri),
        }
    }
}

/// Where a violating request is sent: by the first exception that applies,
/// else to the default target, whose `<uri>` stands for the percent-encoded
/// target of the request.
pub open spec fn route(f: FairingModel, uri: Seq<u8>) -> (Seq<u8>, Method) {
    match first_route(f.exceptions, uri) {
        Some(route) => route,
        None => (
            rendered(
                f.default_target.0,
                Map::<Seq<u8>, Seq<u8>>::empty().insert(uri_name(), uri),
                true,
            ).unwrap(),
            f.default_target.1,
        ),
    }
}

/// The request presents a cookie and a token that are accepted together at
/// the time `now`.
pub open spec fn presents_valid_pair(f: FairingModel, request: RequestModel, now: u64) -> bool {
    &&& request.csrf_cookie matches Some(cookie_text)
    &&& transport_decoded(cookie_text) matches Some(cookie)
    &&& body_token(request.body, request.multipart) matches Some(token_text)
    &&& transport_decoded(token_text) matches Some(token)
    &&& verdict(f.secret, f.duration, cookie, token, now) is Ok
}

/// What is done with a request at the time `now`. A request passes if its
/// method only reads, if it carries no cookie at all, or if it presents a
/// valid pair; any other request is sent elsewhere.
pub open spec fn request_verdict(f: FairingModel, request: RequestModel, now: u64)
    -> RequestVerdict {
    if !request.method.is_protected() || request.cookie_count == 0 || presents_valid_pair(
        f,
        request,
        now,
    ) {
        RequestVerdict::Pass
    } else {
        RequestVerdict::Reroute { uri: route(f, request.uri).0, method: route(f, request.uri).1 }
    }
}

/// What the host read from a response and from the request that it answers.
pub struct ResponseFacts {
    /// Whether the content type is HTML, where the response has one.
    pub html: Option<bool>,
    /// The target of the request.
    pub uri: Vec<u8>,
    /// What became of the attempt to get a token for the session.
    pub token: TokenOutcome,
    /// The request carries a cookie named [`crate::CSRF_COOKIE_NAME`].
    pub has_csrf_cookie: bool,
    /// The body of the response.
    pub body: BodyKind,
}

/// What became of the attempt to get a token for a session.
#[derive(Clone, Copy, PartialEq, Eq, Debug, Structural)]
pub enum TokenOutcome {
    /// There is a token.
    Success,
    /// There is no session to give a token to.
    Forward,
    /// The attempt failed.
    Failure,
}

/// The kinds of body that a response can have.
#[derive(Clone, Copy, PartialEq, Eq, Debug, Structural)]
pub enum BodyKind {
    /// The response has no body.
    Absent,
    /// The body has a known size.
    Sized(u64),
    /// The body is a stream of unknown size.
    Chunked,
}

/// What the host is to do with the session's cookie on a response.
#[derive(Clone, Copy, PartialEq, Eq, Debug, Structural)]
pub enum CookieAction {
    /// Nothing.
    Keep,
    /// Send the cookie of the pair along.
    Attach,
    /// Tell the client to drop the cookie.
    Remove,
}

/// What the host is to do with the body of a response.
#[derive(Clone, Copy, PartialEq, Eq, Debug, Structural)]
pub enum BodyAction {
    /// Nothing.
    Leave,
    /// Read the whole body, rewrite it, and send it with its new size.
    InjectWhole,
    /// Rewrite the body as it streams.
    InjectStream,
}

/// What the host is to do with a response.
#[derive(Clone, Copy, PartialEq, Eq, Debug, Structural)]
pub struct ResponseAction {
    pub cookie: CookieAction,
    pub body: BodyAction,
}

/// Some prefix of the list begins `uri`.
pub open spec fn has_prefix_in(prefixes: Seq<Seq<u8>>, uri: Seq<u8>) -> bool {
    exists|i: int|
        0 <= i < prefixes.len() && uri.len() >= (#[trigger] prefixes[i]).len() && uri.take(
            prefixes[i].len() as int,
        ) == prefixes[i]
}

/// What is done with a response. Nothing, where the response is known not
/// to be HTML or the request's target begins with a disabled prefix. Else
/// the cookie follows the session: attached with a token, removed where
/// there is no session but the client holds a cookie. With a token the
/// body is rewritten: at once where its size is known and within the
/// limit, else as a stream.
pub open spec fn response_verdict(
    f: FairingModel,
    html: Option<bool>,
    uri: Seq<u8>,
    token: TokenOutcome,
    has_csrf_cookie: bool,
    body: BodyKind,
) -> ResponseAction {
    if html == Some(false) || has_prefix_in(f.auto_insert_disable_prefix, uri) {
        ResponseAction { cookie: CookieAction::Keep, body: BodyAction::Leave }
    } else {
        match token {
            TokenOutcome::Failure => ResponseAction {
                cookie: CookieAction::Keep,
                body: BodyAction::Leave,
            },
            TokenOutcome::Forward => ResponseAction {
                cookie: if has_csrf_cookie {
                    CookieAction::Remove
                } else {
                    CookieAction::Keep
                },
                body: BodyAction::Leave,
            },
            TokenOutcome::Success => ResponseAction {
                cookie: CookieAction::Attach,
                body: match body {
                    BodyKind::Absent => BodyAction::Leave,
                    BodyKind::Sized(len) => if len <= f.auto_insert_max_size {
                        BodyAction::InjectWhole
                    } else {
                        BodyAction::InjectStream
                    },
                    BodyKind::Chunked => BodyAction::InjectStream,
                },
            },
        }
    }
}

/// The request belongs to a session: it carries a cookie other than the
/// one of the protection itself.
pub open spec fn in_session(cookie_count: nat, has_csrf_cookie: bool) -> bool {
    cookie_count > 0 && !(cookie_count == 1 && has_csrf_cookie)
}

/// What an attempt to get a token for a session gives.
pub enum Issued {
    /// There is no session to give a token to.
    Forward,
    /// The pair could not be made.
    Failure,
    /// The encoded cookie and token that the session goes on with.
    Success { cookie: Vec<u8>, token: Vec<u8> },
}

/// What an attempt to get a token gives, as a value of the model.
pub enum IssuedModel {
    Forward,
    Failure,
    Success { cookie: Seq<u8>, token: Seq<u8> },
}

impl View for Issued {
    type V = IssuedModel;

    open spec fn view(&self) -> IssuedModel {
        match self {
            Issued::Forward => IssuedModel::Forward,
            Issued::Failure => IssuedModel::Failure,
            Issued::Success { cookie, token } => IssuedModel::Success {
                cookie: cookie@,
                token: token@,
            },
        }
    }
}

/// The pair for a request at the time `now`: none outside a session; else
/// the pair that the session goes on with, given the value of the cookie
/// that the request presents for it and a nonce for a new pair.
pub open spec fn issued(
    f: FairingModel,
    cookie_count: nat,
    csrf_cookie: Option<Seq<u8>>,
    nonce: Seq<u8>,
    now: u64,
) -> IssuedModel {
    if in_session(cookie_count, csrf_cookie is Some) {
        let presented = match csrf_cookie {
            Some(text) => transport_decoded(text),
            None => None,
        };
        let pair = session_pair(f.secret, f.duration, presented, nonce, now);
        IssuedModel::Success { cookie: pair.0, token: pair.1 }
    } else {
        IssuedModel::Forward
    }
}

/// Protects the routes of a host: decides on every request whether it
/// passes, and on every response whether a token is inserted.
pub struct CsrfFairing {
    duration: u64,
    default_target: (PathPattern, Method),
    exceptions: Vec<(PathPattern, PathPattern, Method)>,
    secret: [u8; 32],
    secret_source: SecretSource,
    auto_insert: bool,
    auto_insert_disable_prefix: Vec<Vec<u8>>,
    auto_insert_max_size: u64,
}

impl View for CsrfFairing {
    type V = FairingModel;

    closed spec fn view(&self) -> FairingModel {
        FairingModel {
            duration: self.duration,
            default_target: (self.default_target.0@, self.default_target.1),
            exceptions: exception_parts(self.exceptions@),
            secret: self.secret@,
            auto_insert: self.auto_insert,
            auto_insert_disable_prefix: crate::bytes::views(self.auto_insert_disable_prefix@),
            auto_insert_max_size: self.auto_insert_max_size,
        }
    }
}

impl CsrfFairingBuilder {
    /// Makes the fairing. The secret is the one set on the builder; else
    /// the one that `environment` holds in standard base64, if it holds one
    /// of 32 bytes; else one drawn at random. Fails with `ConfigError`
    /// where the default target captures anything but `uri`, and where a
    /// secret had to be drawn and the system's generator failed.
    pub fn finalize(self, environment: Option<&str>) -> (r: Result<CsrfFairing, CsrfError>)
        ensures
            !captures_only_uri(compiled(encode_utf8(self@.default_target.0))) ==> r == Err::<
                CsrfFairing,
                CsrfError,
            >(CsrfError::ConfigError),
            captures_only_uri(compiled(encode_utf8(self@.default_target.0))) && provided_secret(
                self@.secret,
                opt_text(environment),
            ) is Some ==> r is Ok,
            match r {
                Ok(fairing) => {
                    &&& captures_only_uri(fairing@.default_target.0)
                    &&& fairing@ == finalized(self@, fairing@.secret)
                    &&& provided_secret(self@.secret, opt_text(environment)) matches Some(key)
                        ==> fairing@.secret == key
                    &&& fairing.source() == secret_origin(self@.secret, opt_text(environment))
                },
                Err(e) => e == CsrfError::ConfigError,
            },
    {
        let default_target = match PathPattern::compile_default_target(
            self.default_target.0.as_str().as_bytes(),
        ) {
            Ok(pattern) => pattern,
            Err(e) => {
                return Err(e);
            },
        };
        let (secret, secret_source) = match self.secret {
            Some(key) => (key, SecretSource::Configured),
            None => {
                let from_environment = match environment {
                    Some(text) => decode_secret(text.as_bytes()),
                    None => None,
                };
                match from_environment {
                    Some(key) => (key, SecretSource::Environment),
                    None => match random_array::<32>() {
                        Ok(key) => (key, SecretSource::Random),
                        Err(_) => {
                            return Err(CsrfError::ConfigError);
                        },
                    },
                }
            },
        };
        let mut exceptions: Vec<(PathPattern, PathPattern, Method)> = Vec::new();
        let mut i: usize = 0;
        while i < self.exceptions.len()
            invariant
                i <= self.exceptions.len(),
                exceptions@.len() == i,
                forall|j: int|
                    0 <= j < i ==> {
                        &&& (#[trigger] exceptions@[j]).0@ == compiled(
                            encode_utf8(self.exceptions@[j].0@),
                        )
                        &&& exceptions@[j].1@ == compiled(encode_utf8(self.exceptions@[j].1@))
                        &&& exceptions@[j].2 == self.exceptions@[j].2
                    },
            decreases self.exceptions.len() - i,
        {
            let source = PathPattern::compile(self.exceptions[i].0.as_str().as_bytes());
            let target = PathPattern::compile(self.exceptions[i].1.as_str().as_bytes());
            exceptions.push((source, target, self.exceptions[i].2));
            i += 1;
        }
        let mut prefixes: Vec<Vec<u8>> = Vec::new();
        let mut k: usize = 0;
        while k < self.auto_insert_disable_prefix.len()
            invariant
                k <= self.auto_insert_disable_prefix.len(),
                prefixes@.len() == k,
                forall|j: int|
                    0 <= j < k ==> (#[trigger] prefixes@[j])@ == encode_utf8(
                        self.auto_insert_disable_prefix@[j]@,
                    ),
            decreases self.auto_insert_disable_prefix.len() - k,
        {
            prefixes.push(
                vstd::slice::slice_to_vec(self.auto_insert_disable_prefix[k].as_str().as_bytes()),
            );
            k += 1;
        }
        let fairing = CsrfFairing {
            duration: self.duration,
            default_target: (default_target, self.default_target.1),
            exceptions,
            secret,
            secret_source,
            auto_insert: self.auto_insert,
            auto_insert_disable_prefix: prefixes,
            auto_insert_max_size: self.auto_insert_max_size,
        };
        proof {
            let m = finalized(self@, fairing@.secret);
            assert(fairing@.exceptions =~= m.exceptions);
            assert(fairing@.auto_insert_disable_prefix =~= m.auto_insert_disable_prefix);
        }
        Ok(fairing)
    }
}

/// The text of an optional string.
pub open spec fn opt_text(text: Option<&str>) -> Option<Seq<char>> {
    match text {
        Some(t) => Some(t@),
        None => None,
    }
}

impl CsrfFairing {
    #[verifier::type_invariant]
    spec fn well_formed(self) -> bool {
        captures_only_uri(self.default_target.0@)
    }

    /// Where the secret came from.
    pub closed spec fn source(&self) -> SecretSource {
        self.secret_source
    }

    /// Where the secret came from.
    pub fn secret_source(&self) -> (r: SecretSource)
        ensures
            r == self.source(),
    {
        self.secret_source
    }

    /// What the fairing wants to be called for: always when it is attached
    /// and on requests, and on responses where tokens are inserted.
    pub fn info(&self) -> (r: FairingInfo)
        ensures
            r.name@ == "CSRF protection"@,
            r.on_attach,
            r.on_request,
            r.on_response == self@.auto_insert,
    {
        if self.auto_insert {
            FairingInfo {
                name: "CSRF protection",
                on_attach: true,
                on_request: true,
                on_response: true,
            }
        } else {
            FairingInfo {
                name: "CSRF protection",
                on_attach: true,
                on_request: true,
                on_response: false,
            }
        }
    }

    /// What the host keeps from the moment the fairing is attached: the
    /// engine that makes and verifies pairs under the fairing's secret and
    /// duration.
    pub fn on_attach(&self) -> (r: CsrfProtection)
        ensures
            r.key() == self@.secret,
            r.lifetime() == self@.duration,
    {
        CsrfProtection::from_key(self.secret, self.duration)
    }

    /// Whether the request presents a valid pair at the time `now`.
    fn presents_valid_pair(&self, request: &RequestFacts, now: u64) -> (r: bool)
        ensures
            r == presents_valid_pair(self@, request@, now),
    {
        let cookie = match &request.csrf_cookie {
            Some(text) => match decode_transport(text.as_slice()) {
                Some(cookie) => cookie,
                None => {
                    return false;
                },
            },
            None => {
                return false;
            },
        };
        let token = match extract_token(request.body.as_slice(), request.multipart) {
            Some(text) => match decode_transport(text.as_slice()) {
                Some(token) => token,
                None => {
                    return false;
                },
            },
            None => {
                return false;
            },
        };
        self.on_attach().check_pair_bytes_at(token.as_slice(), cookie.as_slice(), now).is_ok()
    }

    /// Where the first exception that applies sends a request.
    fn first_route(&self, uri: &[u8]) -> (r: Option<(Vec<u8>, Method)>)
        ensures
            match r {
                Some((target, method)) => first_route(self@.exceptions, uri@) == Some(
                    (target@, method),
                ),
                None => first_route(self@.exceptions, uri@) is None,
            },
    {
        let ghost all = self@.exceptions;
        let mut i: usize = 0;
        assert(all.skip(0) =~= all);
        while i < self.exceptions.len()
            invariant
                i <= self.exceptions.len(),
                all == self@.exceptions,
                first_route(all, uri@) == first_route(all.skip(i as int), uri@),
            decreases self.exceptions.len() - i,
        {
            proof {
                assert(all.skip(i as int).skip(1) =~= all.skip(i + 1));
                assert(all.skip(i as int)[0] == (
                    self.exceptions@[i as int].0@,
                    self.exceptions@[i as int].1@,
                    self.exceptions@[i as int].2,
                ));
            }
            if let Some(captures) = self.exceptions[i].0.match_path(uri) {
                if let Some(target) = self.exceptions[i].1.render(&captures) {
                    if check_target(target.as_slice()) {
                        return Some((target, self.exceptions[i].2));
                    }
                }
            }
            i += 1;
        }
        None
    }

    /// Decides on a request at the time `now`.
    pub fn on_request_at(&self, request: &RequestFacts, now: u64) -> (r: RequestAction)
        ensures
            r@ == request_verdict(self@, request@, now),
    {
        if !request.method.protected() {
            return RequestAction::Pass;
        }
        if request.cookie_count == 0 {
            return RequestAction::Pass;
        }
        if self.presents_valid_pair(request, now) {
            return RequestAction::Pass;
        }
        if let Some((uri, method)) = self.first_route(request.uri.as_slice()) {
            return RequestAction::Reroute { uri, method };
        }
        let mut values = CaptureMap::new();
        values.insert(uri_name_bytes(), vstd::slice::slice_to_vec(request.uri.as_slice()));
        proof {
            use_type_invariant(self);
        }
        match self.default_target.0.render(&values) {
            Some(uri) => RequestAction::Reroute { uri, method: self.default_target.1 },
            None => RequestAction::Pass,
        }
    }

    /// Decides on a request at the current time, which is read from the
    /// system clock.
    pub fn on_request(&self, request: &RequestFacts) -> (r: RequestAction)
        ensures
            exists|now: u64| r@ == #[trigger] request_verdict(self@, request@, now),
    {
        let now = seconds_since_epoch(unix_timestamp_now());
        self.on_request_at(request, now)
    }

    /// Gets the pair for a request at the time `now`, with `nonce` for a
    /// new pair.
    pub fn issue_token_at(
        &self,
        cookie_count: usize,
        csrf_cookie: Option<&[u8]>,
        nonce: &[u8; 16],
        now: u64,
    ) -> (r: Issued)
        ensures
            r@ == issued(self@, cookie_count as nat, opt_bytes(csrf_cookie), nonce@, now),
            r@ matches IssuedModel::Success { cookie, token } ==> is_pair(
                self@.secret,
                cookie,
                token,
            ),
    {
        if cookie_count == 0 || (cookie_count == 1 && csrf_cookie.is_some()) {
            return Issued::Forward;
        }
        let presented = match csrf_cookie {
            Some(text) => decode_transport(text),
            None => None,
        };
        let pair = match &presented {
            Some(bytes) => self.on_attach().session_pair_at(Some(bytes.as_slice()), nonce, now),
            None => self.on_attach().session_pair_at(None, nonce, now),
        };
        Issued::Success { cookie: pair.0, token: pair.1 }
    }

    /// Gets the pair for a request, with a nonce from the system's random
    /// generator and the current time of the system clock. Outside a
    /// session there is none, whatever they give.
    pub fn issue_token(&self, cookie_count: usize, csrf_cookie: Option<&[u8]>) -> (r: Issued)
        ensures
            !in_session(cookie_count as nat, csrf_cookie is Some) ==> r@ == IssuedModel::Forward,
            r@ is Forward ==> !in_session(cookie_count as nat, csrf_cookie is Some),
            r@ matches IssuedModel::Success { cookie, token } ==> is_pair(
                self@.secret,
                cookie,
                token,
            ),
    {
        if cookie_count == 0 || (cookie_count == 1 && csrf_cookie.is_some()) {
            return Issued::Forward;
        }
        match random_array::<16>() {
            Ok(nonce) => {
                let now = seconds_since_epoch(unix_timestamp_now());
                self.issue_token_at(cookie_count, csrf_cookie, &nonce, now)
            },
            Err(_) => Issued::Failure,
        }
    }

    /// Whether the target of a request begins with a disabled prefix.
    fn is_disabled_for(&self, uri: &[u8]) -> (r: bool)
        ensures
            r == has_prefix_in(self@.auto_insert_disable_prefix, uri@),
    {
        let mut i: usize = 0;
        while i < self.auto_insert_disable_prefix.len()
            invariant
                i <= self.auto_insert_disable_prefix.len(),
                forall|j: int|
                    0 <= j < i ==> !(uri@.len() >= (
                    #[trigger] self@.auto_insert_disable_prefix[j]).len() && uri@.take(
                        self@.auto_insert_disable_prefix[j].len() as int,
                    ) == self@.auto_insert_disable_prefix[j]),
            decreases self.auto_insert_disable_prefix.len() - i,
        {
            if starts_with(uri, self.auto_insert_disable_prefix[i].as_slice()) {
                assert(self@.auto_insert_disable_prefix[i as int]
                    == self.auto_insert_disable_prefix@[i as int]@);
                return true;
            }
            assert(self@.auto_insert_disable_prefix[i as int]
                == self.auto_insert_disable_prefix@[i as int]@);
            i += 1;
        }
        false
    }

    /// Decides on a response.
    pub fn on_response(&self, response: &ResponseFacts) -> (r: ResponseAction)
        ensures
            r == response_verdict(
                self@,
                response.html,
                response.uri@,
                response.token,
                response.has_csrf_cookie,
                response.body,
            ),
    {
        let nothing = ResponseAction { cookie: CookieAction::Keep, body: BodyAction::Leave };
        if let Some(html) = response.html {
            if !html {
                return nothing;
            }
        }
        if self.is_disabled_for(response.uri.as_slice()) {
            return nothing;
        }
        match response.token {
            TokenOutcome::Failure => nothing,
            TokenOutcome::Forward => {
                if response.has_csrf_cookie {
                    ResponseAction { cookie: CookieAction::Remove, body: BodyAction::Leave }
                } else {
                    nothing
                }
            },
            TokenOutcome::Success => {
                let body = match response.body {
                    BodyKind::Absent => BodyAction::Leave,
                    BodyKind::Sized(len) => {
                        if len <= self.auto_insert_max_size {
                            BodyAction::InjectWhole
                        } else {
                            BodyAction::InjectStream
                        }
                    },
                    BodyKind::Chunked => BodyAction::InjectStream,
                };
                ResponseAction { cookie: CookieAction::Attach, body }
            },
        }
    }
}

/// The name `uri` as bytes.
fn uri_name_bytes() -> (r: Vec<u8>)
    ensures
        r@ == uri_name(),
{
    let mut r: Vec<u8> = Vec::new();
    r.push(0x75);
    r.push(0x72);
    r.push(0x69);
    assert(r@ =~= uri_name());
    r
}

} // verus!
