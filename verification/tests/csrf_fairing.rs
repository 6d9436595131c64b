use std::cell::Cell;

use rocket_csrf::encoding::encode_transport;
use rocket_csrf::error::CsrfError;
use rocket_csrf::fairing::{
    check_target, BodyAction, BodyKind, CookieAction, Issued, RequestAction, RequestFacts,
    ResponseAction, ResponseFacts, SecretSource, TokenOutcome,
};
use rocket_csrf::injector::{inject_all, PullInjector};
use rocket_csrf::{CsrfFairing, CsrfFairingBuilder, Method, CSRF_COOKIE_NAME, CSRF_FORM_FIELD};

const PAGE: &str = "<div><form method='POST'></form></div>";
const START: u64 = 1_700_000_000;

fn default_builder() -> CsrfFairingBuilder {
    CsrfFairingBuilder::new()
        .set_default_target("/csrf".to_owned(), Method::Get)
        .set_exceptions(vec![(
            "/ex1".to_owned(),
            "/ex1-target".to_owned(),
            Method::Post,
        )])
        .add_exceptions(vec![(
            "/ex2/<dyn>".to_owned(),
            "/ex2-target/<dyn>".to_owned(),
            Method::Get,
        )])
}

/// A host with the routes that the tests call, which carries out what the
/// fairing decides.
struct Client {
    fairing: CsrfFairing,
    now: Cell<u64>,
    issued: Cell<u8>,
}

struct Response {
    body: Option<String>,
    set_cookie: Vec<String>,
}

impl Response {
    fn body_string(&self) -> Option<String> {
        self.body.clone()
    }
}

struct Reply {
    body: Vec<u8>,
    html: bool,
}

impl Client {
    fn new(fairing: CsrfFairing) -> Client {
        Client { fairing, now: Cell::new(START), issued: Cell::new(0) }
    }

    fn issue(&self, cookies: &[(&str, &str)]) -> Issued {
        let csrf = cookies.iter().find(|(name, _)| *name == CSRF_COOKIE_NAME).map(|(_, v)| v.as_bytes());
        let serial = self.issued.get();
        self.issued.set(serial + 1);
        self.fairing.issue_token_at(cookies.len(), csrf, &[serial; 16], self.now.get())
    }

    fn route(&self, method: Method, uri: &str, cookies: &[(&str, &str)], set_cookie: &mut Vec<String>) -> Option<Reply> {
        let plain = |text: &str| Some(Reply { body: text.as_bytes().to_vec(), html: false });
        let segments: Vec<&str> = uri.split('/').collect();
        match (method, uri) {
            (Method::Get, "/") | (Method::Get, "/static/something") => {
                Some(Reply { body: PAGE.as_bytes().to_vec(), html: true })
            }
            (Method::Post, "/") => plain("success"),
            (Method::Get, "/csrf") => plain("violation"),
            (Method::Get, "/ex1") => plain("get-ex1"),
            (Method::Post, "/ex1") => plain("post-ex1"),
            (Method::Post, "/ex1-target") => plain("target-ex1"),
            (Method::Get, "/token") => match self.issue(cookies) {
                Issued::Success { cookie, token } => {
                    let cookie = String::from_utf8(encode_transport(&cookie).unwrap()).unwrap();
                    set_cookie.push(format!("{}={}; Path=/", CSRF_COOKIE_NAME, cookie));
                    Some(Reply { body: encode_transport(&token).unwrap(), html: false })
                }
                _ => None,
            },
            _ if segments.len() == 3 && segments[1] == "ex2" && method == Method::Post => {
                plain("valid-dyn-req")
            }
            _ if segments.len() == 3 && segments[1] == "ex2-target" && method == Method::Get => {
                plain(segments[2])
            }
            _ => None,
        }
    }

    fn dispatch(
        &self,
        method: Method,
        uri: &str,
        cookies: &[(&str, &str)],
        content_type: Option<&str>,
        body: &[u8],
    ) -> Response {
        let csrf_cookie = cookies
            .iter()
            .find(|(name, _)| *name == CSRF_COOKIE_NAME)
            .map(|(_, value)| value.as_bytes().to_vec());
        let facts = RequestFacts {
            method,
            cookie_count: cookies.len(),
            csrf_cookie: csrf_cookie.clone(),
            multipart: content_type.map_or(false, |c| c.starts_with("multipart/form-data")),
            body: body.to_vec(),
            uri: uri.as_bytes().to_vec(),
        };
        let (method, target) = match self.fairing.on_request_at(&facts, self.now.get()) {
            RequestAction::Pass => (method, uri.to_owned()),
            RequestAction::Reroute { uri, method } => {
                assert!(check_target(&uri));
                (method, String::from_utf8(uri).unwrap())
            }
        };
        let mut set_cookie = Vec::new();
        let reply = match self.route(method, &target, cookies, &mut set_cookie) {
            Some(reply) => reply,
            None => return Response { body: None, set_cookie },
        };
        if !self.fairing.info().on_response {
            return Response { body: Some(String::from_utf8(reply.body).unwrap()), set_cookie };
        }
        let issued = self.issue(cookies);
        let response = ResponseFacts {
            html: Some(reply.html),
            uri: uri.as_bytes().to_vec(),
            token: match issued {
                Issued::Success { .. } => TokenOutcome::Success,
                Issued::Forward => TokenOutcome::Forward,
                Issued::Failure => TokenOutcome::Failure,
            },
            has_csrf_cookie: csrf_cookie.is_some(),
            body: BodyKind::Sized(reply.body.len() as u64),
        };
        let action = self.fairing.on_response(&response);
        match action.cookie {
            CookieAction::Keep => {}
            CookieAction::Remove => set_cookie.push(format!("{}=; Max-Age=0", CSRF_COOKIE_NAME)),
            CookieAction::Attach => {
                if let Issued::Success { cookie, .. } = &issued {
                    let cookie = String::from_utf8(encode_transport(cookie).unwrap()).unwrap();
                    set_cookie.push(format!("{}={}; Path=/", CSRF_COOKIE_NAME, cookie));
                }
            }
        }
        let body = match (action.body, &issued) {
            (BodyAction::InjectWhole, Issued::Success { token, .. }) => inject_all(token, &reply.body),
            (BodyAction::InjectStream, Issued::Success { token, .. }) => {
                let mut pull = PullInjector::new(token);
                let mut out = Vec::new();
                for chunk in reply.body.chunks(3) {
                    pull.supply(chunk);
                    while pull.queued_len() > 0 {
                        out.extend(pull.take(4));
                    }
                }
                pull.end();
                out.extend(pull.take(usize::MAX));
                out
            }
            _ => reply.body,
        };
        Response { body: Some(String::from_utf8(body).unwrap()), set_cookie }
    }

    fn get(&self, uri: &str, cookies: &[(&str, &str)]) -> Response {
        self.dispatch(Method::Get, uri, cookies, None, b"")
    }

    fn post(&self, uri: &str, cookies: &[(&str, &str)], body: &[u8]) -> Response {
        self.dispatch(Method::Post, uri, cookies, None, body)
    }
}

fn get_token(client: &Client) -> (String, String) {
    let response = client.get("/token", &[("some", "cookie")]);
    let token = response.body_string().unwrap();
    let cookie = response.set_cookie[0]
        .split(|c| c == '=' || c == ';')
        .nth(1)
        .unwrap()
        .to_owned();
    (token, cookie)
}

fn post_token(client: &Client, path: &str, token: &str, cookie: &str) -> Response {
    let body = if token.len() > 0 {
        let mut t = Vec::new();
        t.append(&mut CSRF_FORM_FIELD.as_bytes().to_vec());
        t.push(0x3D);
        t.append(&mut token.as_bytes().to_vec());
        t
    } else {
        Vec::new()
    };
    if !cookie.is_empty() {
        client.post(path, &[(CSRF_COOKIE_NAME, cookie), ("some", "cookie")], &body)
    } else {
        client.post(path, &[("some", "cookie")], &body)
    }
}

#[test]
fn test_redirection_on_failure() {
    let client = Client::new(default_builder().finalize(None).unwrap());

    let response = client.post("/", &[("some", "cookie")], b"");
    assert_eq!(response.body_string(), Some("violation".to_owned()));

    let response = client.post("/ex1", &[("some", "cookie")], b"");
    assert_eq!(response.body_string(), Some("target-ex1".to_owned()));

    let response = client.post("/ex2/abcd", &[("some", "cookie")], b"");
    assert_eq!(response.body_string(), Some("abcd".to_owned()));
}

#[test]
fn test_non_redirection() {
    let client = Client::new(default_builder().finalize(None).unwrap());

    let response = client.get("/ex1", &[("some", "cookie")]);
    assert_eq!(response.body_string(), Some("get-ex1".to_owned()));

    let (token, cookie) = get_token(&client);

    let response = post_token(&client, "/", &token, &cookie);
    assert_eq!(response.body_string(), Some("success".to_owned()));

    let response = post_token(&client, "/ex1", &token, &cookie);
    assert_eq!(response.body_string(), Some("post-ex1".to_owned()));

    let response = post_token(&client, "/ex2/some-url", &token, &cookie);
    assert_eq!(response.body_string(), Some("valid-dyn-req".to_owned()));
}

#[test]
fn test_token_timeout() {
    let client = Client::new(default_builder().set_timeout(5).finalize(None).unwrap());

    let (token, cookie) = get_token(&client);

    let response = post_token(&client, "/", &token, &cookie);
    assert_eq!(response.body_string(), Some("success".to_owned()));
    client.now.set(client.now.get() + 6);

    let response = post_token(&client, "/", &token, &cookie);
    assert_eq!(response.body_string(), Some("violation".to_owned()));
}

#[test]
fn test_invalid_token_pair() {
    let client1 = Client::new(default_builder().set_secret([0; 32]).finalize(None).unwrap());
    let client2 = Client::new(default_builder().set_secret([0; 32]).finalize(None).unwrap());
    client2.issued.set(100);

    let (token, cookie) = get_token(&client1);

    let response = post_token(&client2, "/", &token, "");
    assert_eq!(response.body_string(), Some("violation".to_owned()));

    let response = post_token(&client1, "/", "", &cookie);
    assert_eq!(response.body_string(), Some("violation".to_owned()));

    let (token2, _cookie2) = get_token(&client2);

    let response = post_token(&client1, "/", &token2, &cookie);
    assert_eq!(response.body_string(), Some("violation".to_owned()));
}

#[test]
fn test_multiple_parametters() {
    let client = Client::new(default_builder().finalize(None).unwrap());

    let (token, cookie) = get_token(&client);

    let mut body = Vec::new();
    body.append(&mut "key1=value1&".as_bytes().to_vec());
    body.append(&mut CSRF_FORM_FIELD.as_bytes().to_vec());
    body.push(0x3D);
    body.append(&mut token.as_bytes().to_vec());
    body.append(&mut "&key2=value2".as_bytes().to_vec());
    let response = client.post(
        "/",
        &[("something", "before"), (CSRF_COOKIE_NAME, &cookie), ("and", "after")],
        &body,
    );

    assert_eq!(response.body_string(), Some("success".to_owned()));
}

#[test]
fn test_multipart() {
    let body_before = "-----------------------------9051914041544843365972754266
Content-Disposition: form-data; name=\"something\"

value
-----------------------------9051914041544843365972754266
Content-Disposition: form-data; name=\"";
    let body_middle = "\"

";
    let body_after = "

-----------------------------9051914041544843365972754266
Content-Disposition: form-data; name=\"hey\"; filename=\"whatsup\"

How are you?

-----------------------------9051914041544843365972754266--";
    let client = Client::new(default_builder().finalize(None).unwrap());
    let content_type = "multipart/form-data; boundary=\
                 ---------------------------\
                 9051914041544843365972754266";

    let (token, cookie) = get_token(&client);

    let mut body = Vec::new();
    body.append(&mut body_before.as_bytes().to_vec());
    body.append(&mut CSRF_FORM_FIELD.as_bytes().to_vec());
    body.append(&mut body_middle.as_bytes().to_vec());
    body.append(&mut token.as_bytes().to_vec());
    body.append(&mut body_after.as_bytes().to_vec());
    let response = client.dispatch(
        Method::Post,
        "/",
        &[(CSRF_COOKIE_NAME, &cookie), ("some", "cookie")],
        Some(content_type),
        &body,
    );

    assert_eq!(response.body_string(), Some("success".to_owned()));
    let mut body = Vec::new();
    body.append(&mut body_before.as_bytes().to_vec());
    body.append(&mut CSRF_FORM_FIELD.as_bytes().to_vec());
    body.append(&mut body_middle.as_bytes().to_vec());
    body.append(&mut "not_a_token".as_bytes().to_vec());
    body.append(&mut body_after.as_bytes().to_vec());
    let response = client.dispatch(
        Method::Post,
        "/",
        &[(CSRF_COOKIE_NAME, &cookie), ("some", "cookie")],
        Some(content_type),
        &body,
    );

    assert_eq!(response.body_string(), Some("violation".to_owned()));
}

#[test]
fn test_token_insertion() {
    let client = Client::new(
        default_builder()
            .set_auto_insert_disable_prefix(vec!["/static".to_owned()])
            .finalize(None)
            .unwrap(),
    );

    let response = client.get("/", &[("some", "cookie")]);
    assert!(
        response.body_string().unwrap().len()
            > "<div><form method='POST'></form></div>".len()
                + "<input type=\"hidden\" name=\"csrf-token\" value=\"\"/>".len()
    );

    let response = client.get("/static/something", &[("some", "cookie")]);
    assert_eq!(
        response.body_string(),
        Some("<div><form method='POST'></form></div>".to_owned())
    );
}

#[test]
fn test_auto_insert_disabled() {
    let client = Client::new(default_builder().set_auto_insert(false).finalize(None).unwrap());

    let response = client.get("/", &[("some", "cookie")]);
    assert_eq!(
        response.body_string(),
        Some("<div><form method='POST'></form></div>".to_owned())
    );
}

#[test]
fn test_auto_insert_stream() {
    let client = Client::new(
        default_builder()
            .set_auto_insert_max_chunk_size(1)
            .finalize(None)
            .unwrap(),
    );

    let response = client.get("/", &[("some", "cookie")]);
    assert!(
        response.body_string().unwrap().len()
            > "<div><form method='POST'></form></div>".len()
                + "<input type=\"hidden\" name=\"csrf-token\" value=\"\"/>".len()
    );
}

#[test]
fn test_key_from_env() {
    let key = Some("BAAAAAAAAAAAAAAAAAAAAAAAAAAAAAAAAAAAAAAAAAA=");

    let client1 = Client::new(default_builder().finalize(key).unwrap());
    let client2 = Client::new(default_builder().finalize(key).unwrap());
    assert_eq!(client1.fairing.secret_source(), SecretSource::Environment);

    let (_token, _cookie) = get_token(&client1);
    let (token2, cookie2) = get_token(&client2);

    let response = post_token(&client1, "/", &token2, &cookie2);
    assert_eq!(response.body_string(), Some("success".to_owned()));
}

#[test]
fn test_invalid_default_target() {
    assert!(default_builder()
        .set_default_target("/<invalid>".to_owned(), Method::Get)
        .finalize(None)
        .is_err());
    assert!(default_builder()
        .set_default_target("/<uri>".to_owned(), Method::Get)
        .finalize(None)
        .is_ok());
}

#[test]
fn test_insert_only_on_session() {
    let client = Client::new(default_builder().finalize(None).unwrap());

    let response = client.get("/", &[]);
    assert_eq!(response.body_string().unwrap(), "<div><form method='POST'></form></div>");
    assert!(response.set_cookie.is_empty());

    let response = client.get("/", &[(CSRF_COOKIE_NAME, "")]);
    assert_eq!(response.body_string().unwrap(), "<div><form method='POST'></form></div>");
    assert!(response.set_cookie[0].contains("Max-Age=0"))
}

#[test]
fn test_allow_request_without_session() {
    let client = Client::new(default_builder().finalize(None).unwrap());

    let response = client.post("/", &[], b"");
    assert_eq!(response.body_string().unwrap(), "success");
}

fn facts(method: Method, uri: &str) -> RequestFacts {
    RequestFacts {
        method,
        cookie_count: 1,
        csrf_cookie: None,
        multipart: false,
        body: Vec::new(),
        uri: uri.as_bytes().to_vec(),
    }
}

#[test]
fn methods_that_only_read_pass() {
    let fairing = default_builder().finalize(None).unwrap();
    for method in [Method::Get, Method::Head, Method::Connect, Method::Options] {
        assert!(!method.protected());
        assert!(matches!(fairing.on_request_at(&facts(method, "/"), START), RequestAction::Pass));
    }
    for method in [Method::Post, Method::Put, Method::Delete, Method::Patch, Method::Trace] {
        assert!(method.protected());
        match fairing.on_request_at(&facts(method, "/"), START) {
            RequestAction::Reroute { uri, method } => {
                assert_eq!(uri, b"/csrf".to_vec());
                assert_eq!(method, Method::Get);
            }
            RequestAction::Pass => panic!("a violation passed"),
        }
    }
}

#[test]
fn default_target_receives_the_encoded_uri() {
    let fairing = CsrfFairingBuilder::new()
        .set_default_target("/violation/<uri>".to_owned(), Method::Put)
        .finalize(None)
        .unwrap();
    match fairing.on_request_at(&facts(Method::Post, "/some/path?a=b"), START) {
        RequestAction::Reroute { uri, method } => {
            assert_eq!(String::from_utf8(uri).unwrap(), "/violation/%2Fsome%2Fpath%3Fa%3Db");
            assert_eq!(method, Method::Put);
        }
        RequestAction::Pass => panic!("a violation passed"),
    }
}

#[test]
fn first_exception_that_applies_wins() {
    let fairing = CsrfFairingBuilder::new()
        .set_exceptions(vec![
            ("/a/static".to_owned(), "/first".to_owned(), Method::Get),
            ("/a/<x>".to_owned(), "/second/<x>".to_owned(), Method::Post),
            ("/a/<y>".to_owned(), "/third/<y>".to_owned(), Method::Post),
            ("/b/<x>".to_owned(), "no-slash/<x>".to_owned(), Method::Post),
            ("/b/<x>".to_owned(), "/needs/<z>".to_owned(), Method::Post),
            ("/b/<x>".to_owned(), "/fourth/<x>".to_owned(), Method::Delete),
        ])
        .finalize(None)
        .unwrap();
    let target = |uri: &str| match fairing.on_request_at(&facts(Method::Post, uri), START) {
        RequestAction::Reroute { uri, method } => (String::from_utf8(uri).unwrap(), method),
        RequestAction::Pass => panic!("a violation passed"),
    };
    assert_eq!(target("/a/static"), ("/first".to_owned(), Method::Get));
    assert_eq!(target("/a/dynamic"), ("/second/dynamic".to_owned(), Method::Post));
    assert_eq!(target("/b/v"), ("/fourth/v".to_owned(), Method::Delete));
    assert_eq!(target("/c"), ("/".to_owned(), Method::Get));
}

#[test]
fn clock_version_agrees_on_what_does_not_depend_on_time() {
    let fairing = default_builder().finalize(None).unwrap();
    assert!(matches!(fairing.on_request(&facts(Method::Get, "/")), RequestAction::Pass));
    assert!(matches!(
        fairing.on_request(&facts(Method::Post, "/ex1")),
        RequestAction::Reroute { method: Method::Post, .. }
    ));
    let mut none = facts(Method::Post, "/");
    none.cookie_count = 0;
    assert!(matches!(fairing.on_request(&none), RequestAction::Pass));
}

#[test]
fn targets_must_be_origin_form() {
    assert!(check_target(b"/ok/path?query=1"));
    assert!(check_target(b"/"));
    assert!(!check_target(b"no-slash"));
    assert!(!check_target(b""));
    assert!(!check_target(b"/\xff"));
}

#[test]
fn builder_defaults() {
    let fairing = CsrfFairingBuilder::new().set_secret([1; 32]).finalize(None).unwrap();
    assert_eq!(fairing.secret_source(), SecretSource::Configured);
    let engine = fairing.on_attach();
    assert_eq!(engine.duration(), 60 * 60 * 12);
    let info = fairing.info();
    assert_eq!(info.name, "CSRF protection");
    assert!(info.on_attach && info.on_request && info.on_response);
    let off = CsrfFairingBuilder::default().set_auto_insert(false).finalize(None).unwrap();
    assert_eq!(off.secret_source(), SecretSource::Random);
    assert!(!off.info().on_response);
    assert!(off.info().on_request);
    let sized = |len: u64| ResponseFacts {
        html: Some(true),
        uri: b"/".to_vec(),
        token: TokenOutcome::Success,
        has_csrf_cookie: false,
        body: BodyKind::Sized(len),
    };
    assert_eq!(fairing.on_response(&sized(16 * 1024)).body, BodyAction::InjectWhole);
    assert_eq!(fairing.on_response(&sized(16 * 1024 + 1)).body, BodyAction::InjectStream);
}

#[test]
fn configured_secret_comes_before_the_environment() {
    let key = Some("BAAAAAAAAAAAAAAAAAAAAAAAAAAAAAAAAAAAAAAAAAA=");
    let configured = CsrfFairingBuilder::new().set_secret([9; 32]).finalize(key).unwrap();
    assert_eq!(configured.secret_source(), SecretSource::Configured);
    let pair = configured.on_attach().build_pair(&[0; 16], START);
    let same = rocket_csrf::CsrfProtection::from_key([9; 32], 1).build_pair(&[0; 16], START);
    assert_eq!(pair, same);
    let bad_text = CsrfFairingBuilder::new().finalize(Some("not base64")).unwrap();
    assert_eq!(bad_text.secret_source(), SecretSource::Random);
    let mut expected = [0u8; 32];
    expected[0] = 4;
    let from_env = CsrfFairingBuilder::new().finalize(key).unwrap();
    assert_eq!(
        from_env.on_attach().build_pair(&[0; 16], START),
        rocket_csrf::CsrfProtection::from_key(expected, 1).build_pair(&[0; 16], START)
    );
}

#[test]
fn invalid_default_target_is_a_config_error() {
    let r = CsrfFairingBuilder::new()
        .set_default_target("/<uri>/<other>".to_owned(), Method::Get)
        .set_secret([0; 32])
        .finalize(None);
    assert!(matches!(r, Err(CsrfError::ConfigError)));
    assert_eq!(CsrfError::ConfigError.message(), "invalid path template");
    assert_eq!(CsrfError::MalformedInput.message(), "malformed input");
    assert_eq!(CsrfError::InvalidMac.message(), "invalid authentication tag");
    assert_eq!(CsrfError::Expired.message(), "expired");
    assert_eq!(CsrfError::BindingMismatch.message(), "token does not match cookie");
}

#[test]
fn response_decisions() {
    let fairing = default_builder()
        .set_auto_insert_disable_prefix(vec!["/static".to_owned(), "/img".to_owned()])
        .set_auto_insert_max_chunk_size(10)
        .finalize(None)
        .unwrap();
    let decide = |html, uri: &str, token, has_csrf_cookie, body| {
        fairing.on_response(&ResponseFacts {
            html,
            uri: uri.as_bytes().to_vec(),
            token,
            has_csrf_cookie,
            body,
        })
    };
    let nothing = ResponseAction { cookie: CookieAction::Keep, body: BodyAction::Leave };
    let ok = TokenOutcome::Success;
    assert_eq!(decide(Some(false), "/", ok, true, BodyKind::Sized(1)), nothing);
    assert_eq!(decide(Some(true), "/static/x", ok, true, BodyKind::Sized(1)), nothing);
    assert_eq!(decide(Some(true), "/img", ok, true, BodyKind::Sized(1)), nothing);
    assert_eq!(decide(Some(true), "/", TokenOutcome::Failure, true, BodyKind::Sized(1)), nothing);
    assert_eq!(decide(Some(true), "/", TokenOutcome::Forward, false, BodyKind::Sized(1)), nothing);
    assert_eq!(
        decide(None, "/", TokenOutcome::Forward, true, BodyKind::Sized(1)),
        ResponseAction { cookie: CookieAction::Remove, body: BodyAction::Leave }
    );
    assert_eq!(
        decide(None, "/stat", ok, false, BodyKind::Absent),
        ResponseAction { cookie: CookieAction::Attach, body: BodyAction::Leave }
    );
    assert_eq!(
        decide(Some(true), "/", ok, false, BodyKind::Sized(10)),
        ResponseAction { cookie: CookieAction::Attach, body: BodyAction::InjectWhole }
    );
    assert_eq!(
        decide(Some(true), "/", ok, false, BodyKind::Sized(11)),
        ResponseAction { cookie: CookieAction::Attach, body: BodyAction::InjectStream }
    );
    assert_eq!(
        decide(Some(true), "/", ok, false, BodyKind::Chunked),
        ResponseAction { cookie: CookieAction::Attach, body: BodyAction::InjectStream }
    );
}

#[test]
fn tokens_are_issued_only_in_a_session() {
    let fairing = default_builder().set_secret([5; 32]).finalize(None).unwrap();
    let engine = fairing.on_attach();
    assert!(matches!(fairing.issue_token_at(0, None, &[1; 16], START), Issued::Forward));
    assert!(matches!(fairing.issue_token_at(1, Some(b"x"), &[1; 16], START), Issued::Forward));
    assert!(matches!(fairing.issue_token(0, None), Issued::Forward));
    assert!(matches!(fairing.issue_token(3, None), Issued::Success { .. }));
    let (cookie, token) = engine.build_pair(&[1; 16], START);
    match fairing.issue_token_at(1, None, &[1; 16], START) {
        Issued::Success { cookie: c, token: t } => assert_eq!((c, t), (cookie.clone(), token.clone())),
        _ => panic!("no pair in a session"),
    }
    let text = encode_transport(&cookie).unwrap();
    match fairing.issue_token_at(2, Some(&text), &[2; 16], START + 10) {
        Issued::Success { cookie: c, token: t } => assert_eq!((c, t), (cookie, token)),
        _ => panic!("no pair in a session"),
    }
    match fairing.issue_token_at(2, Some(b"???"), &[2; 16], START + 10) {
        Issued::Success { cookie: c, token: t } => {
            assert_eq!((c, t), engine.build_pair(&[2; 16], START + 10))
        }
        _ => panic!("no pair in a session"),
    }
}

#[test]
fn flipping_any_character_of_a_travelling_value_is_a_violation() {
    let client = Client::new(default_builder().finalize(None).unwrap());
    let (token, cookie) = get_token(&client);
    let response = post_token(&client, "/", &token, &cookie);
    assert_eq!(response.body_string(), Some("success".to_owned()));
    for i in 0..token.len() {
        let mut forged = token.clone().into_bytes();
        forged[i] = if forged[i] == b'A' { b'B' } else { b'A' };
        let forged = String::from_utf8(forged).unwrap();
        let response = post_token(&client, "/", &forged, &cookie);
        assert_eq!(response.body_string(), Some("violation".to_owned()), "token character {}", i);
    }
    for i in 0..cookie.len() {
        let mut forged = cookie.clone().into_bytes();
        forged[i] = if forged[i] == b'A' { b'B' } else { b'A' };
        let forged = String::from_utf8(forged).unwrap();
        let response = post_token(&client, "/", &token, &forged);
        assert_eq!(response.body_string(), Some("violation".to_owned()), "cookie character {}", i);
    }
}
