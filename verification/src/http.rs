//! The HTTP/2 REST surface: its wire message shapes, the routing of
//! buffered requests onto the gateway's canonical operations, and the
//! building of replies.

use vstd::prelude::*;

verus! {

// ---------------------------------------------------------------------------
// Wire messages of the REST routes
// ---------------------------------------------------------------------------

#[derive(Debug, Clone, PartialEq, Eq)]
pub struct HttpLoginRequest {
    pub username: String,
    pub password: String,
}

#[derive(Debug, Clone, PartialEq, Eq)]
pub struct HttpRefreshRequest {
    pub refresh_token: String,
}

#[derive(Debug, Clone, PartialEq, Eq)]
pub struct HttpLoginResponse {
    pub access_token: String,
    pub refresh_token: String,
}

#[derive(Debug, Clone, PartialEq, Eq)]
pub struct HttpRefreshResponse {
    pub access_token: String,
}

pub ghost struct HttpLoginRequestV {
    pub username: Seq<char>,
    pub password: Seq<char>,
}

pub ghost struct HttpRefreshRequestV {
    pub refresh_token: Seq<char>,
}

pub ghost struct HttpLoginResponseV {
    pub access_token: Seq<char>,
    pub refresh_token: Seq<char>,
}

pub ghost struct HttpRefreshResponseV {
    pub access_token: Seq<char>,
}

impl View for HttpLoginRequest {
    type V = HttpLoginRequestV;

    open spec fn view(&self) -> HttpLoginRequestV {
        HttpLoginRequestV { username: self.username@, password: self.password@ }
    }
}

impl View for HttpRefreshRequest {
    type V = HttpRefreshRequestV;

    open spec fn view(&self) -> HttpRefreshRequestV {
        HttpRefreshRequestV { refresh_token: self.refresh_token@ }
    }
}

impl View for HttpLoginResponse {
    type V = HttpLoginResponseV;

    open spec fn view(&self) -> HttpLoginResponseV {
        HttpLoginResponseV { access_token: self.access_token@, refresh_token: self.refresh_token@ }
    }
}

impl View for HttpRefreshResponse {
    type V = HttpRefreshResponseV;

    open spec fn view(&self) -> HttpRefreshResponseV {
        HttpRefreshResponseV { access_token: self.access_token@ }
    }
}

// ---------------------------------------------------------------------------
// Replies and routing
// ---------------------------------------------------------------------------

use vstd::utf8::encode_utf8;
use crate::auth::{LoginRequest, LoginResponse, RefreshRequest, RefreshResponse, TokenGrantV,
    wf_token_grant};
use crate::codec::{
    parse_http_login_request, parse_http_refresh_request, parse_http_login_response,
    http_login_response_json, http_refresh_response_json, decode_http_login_request,
    decode_http_refresh_request, encode_http_login_response, encode_http_refresh_response,
    lemma_http_login_response_roundtrip,
};
use crate::errors::{GatewayError, error_text};
use crate::gateway::{login_request_of, refresh_request_of, http_login_response_of,
    http_refresh_response_of};
use crate::text::{push_bytes, str_eq};

#[derive(Debug, Clone, Copy, PartialEq, Eq)]
pub enum ReplyKind {
    Json,
    Text,
}

/// A fully materialized HTTP reply: status, content kind, whole body.
#[derive(Debug, Clone)]
pub struct HttpReply {
    pub status: u16,
    pub content_type: ReplyKind,
    pub body: Vec<u8>,
}

/// A canonical call to forward to the gateway core.
pub enum GatewayCall {
    Login(LoginRequest),
    Refresh(RefreshRequest),
}

/// What the adapter decides for one buffered request: forward a
/// canonical call upstream, or answer immediately.
pub enum HttpOutcome {
    Forward(GatewayCall),
    Respond(HttpReply),
}

pub open spec fn is_login_route(m: Seq<char>, p: Seq<char>) -> bool {
    m == "POST"@ && p == "/login"@
}

pub open spec fn is_refresh_route(m: Seq<char>, p: Seq<char>) -> bool {
    m == "POST"@ && p == "/refresh"@
}

/// A plain-text reply with the given status.
pub fn error_response(status: u16, message: &str) -> (r: HttpReply)
    ensures
        r.status == status,
        r.content_type == ReplyKind::Text,
        r.body@ == encode_utf8(message@),
{
    let mut body: Vec<u8> = Vec::new();
    push_bytes(&mut body, message.as_bytes());
    HttpReply { status, content_type: ReplyKind::Text, body }
}

/// A JSON reply carrying a REST login response, status 200.
pub fn json_response_login(value: &HttpLoginResponse) -> (r: HttpReply)
    ensures
        r.status == 200,
        r.content_type == ReplyKind::Json,
        r.body@ == http_login_response_json(value@),
{
    let body = encode_http_login_response(value);
    HttpReply { status: 200, content_type: ReplyKind::Json, body }
}

/// A JSON reply carrying a REST refresh response, status 200.
pub fn json_response_refresh(value: &HttpRefreshResponse) -> (r: HttpReply)
    ensures
        r.status == 200,
        r.content_type == ReplyKind::Json,
        r.body@ == http_refresh_response_json(value@),
{
    let body = encode_http_refresh_response(value);
    HttpReply { status: 200, content_type: ReplyKind::Json, body }
}

/// Routes one fully buffered request. A well-formed body on a mapped
/// route becomes a canonical call; a malformed body on a mapped route is
/// answered 400 without ever reaching the gateway core; every other
/// method/path combination is answered 404.
pub fn handle_request(method: &str, path: &str, body: &[u8]) -> (r: HttpOutcome)
    ensures
        is_login_route(method@, path@) && parse_http_login_request(body@) is Some ==> (r matches
            HttpOutcome::Forward(GatewayCall::Login(cr)) && cr.username@ == parse_http_login_request(
            body@,
        ).unwrap().username && cr.password@ == parse_http_login_request(body@).unwrap().password),
        is_login_route(method@, path@) && parse_http_login_request(body@) is None ==> (r matches
            HttpOutcome::Respond(rep) && rep.status == 400 && rep.content_type == ReplyKind::Text
            && rep.body@ == encode_utf8("Invalid JSON"@)),
        is_refresh_route(method@, path@) && parse_http_refresh_request(body@) is Some ==> (r matches
            HttpOutcome::Forward(GatewayCall::Refresh(cr)) && cr.refresh_token@
            == parse_http_refresh_request(body@).unwrap().refresh_token),
        is_refresh_route(method@, path@) && parse_http_refresh_request(body@) is None ==> (r matches
            HttpOutcome::Respond(rep) && rep.status == 400 && rep.content_type == ReplyKind::Text
            && rep.body@ == encode_utf8("Invalid JSON"@)),
        !is_login_route(method@, path@) && !is_refresh_route(method@, path@) ==> (r matches
            HttpOutcome::Respond(rep) && rep.status == 404 && rep.content_type == ReplyKind::Text
            && rep.body@ == encode_utf8("Not Found"@)),
        r matches HttpOutcome::Forward(GatewayCall::Login(cr)) ==> is_login_route(method@, path@)
            && parse_http_login_request(body@) is Some,
        r matches HttpOutcome::Forward(GatewayCall::Refresh(cr)) ==> is_refresh_route(
            method@,
            path@,
        ) && parse_http_refresh_request(body@) is Some,
{
    proof {
        reveal_strlit("/login");
        reveal_strlit("/refresh");
        assert("/login"@.len() != "/refresh"@.len());
    }
    if str_eq(method, "POST") && str_eq(path, "/login") {
        match decode_http_login_request(body) {
            Some(q) => HttpOutcome::Forward(GatewayCall::Login(login_request_of(q))),
            None => HttpOutcome::Respond(error_response(400, "Invalid JSON")),
        }
    } else if str_eq(method, "POST") && str_eq(path, "/refresh") {
        match decode_http_refresh_request(body) {
            Some(q) => HttpOutcome::Forward(GatewayCall::Refresh(refresh_request_of(q))),
            None => HttpOutcome::Respond(error_response(400, "Invalid JSON")),
        }
    } else {
        HttpOutcome::Respond(error_response(404, "Not Found"))
    }
}

/// Turns the upstream's answer to a forwarded login into the REST reply:
/// 200 with the narrowed JSON body on success, 500 with the error's
/// diagnostic line on upstream failure.
pub fn reply_login(result: Result<LoginResponse, GatewayError>) -> (r: HttpReply)
    ensures
        result matches Ok(res) ==> r.status == 200 && r.content_type == ReplyKind::Json && r.body@
            == http_login_response_json(
            (HttpLoginResponseV {
                access_token: res.access_token@,
                refresh_token: res.refresh_token@,
            }),
        ),
        result matches Err(e) ==> r.status == 500 && r.content_type == ReplyKind::Text && r.body@
            == encode_utf8(error_text(e)),
{
    match result {
        Ok(res) => {
            let value = http_login_response_of(res);
            json_response_login(&value)
        },
        Err(e) => {
            let msg = e.message();
            error_response(500, msg.as_str())
        },
    }
}

/// Turns the upstream's answer to a forwarded refresh into the REST
/// reply, as `reply_login` does for logins.
pub fn reply_refresh(result: Result<RefreshResponse, GatewayError>) -> (r: HttpReply)
    ensures
        result matches Ok(res) ==> r.status == 200 && r.content_type == ReplyKind::Json && r.body@
            == http_refresh_response_json((HttpRefreshResponseV { access_token: res.access_token@ })),
        result matches Err(e) ==> r.status == 500 && r.content_type == ReplyKind::Text && r.body@
            == encode_utf8(error_text(e)),
{
    match result {
        Ok(res) => {
            let value = http_refresh_response_of(res);
            json_response_refresh(&value)
        },
        Err(e) => {
            let msg = e.message();
            error_response(500, msg.as_str())
        },
    }
}

/// Law: when the upstream call succeeds with a well-formed token grant,
/// the 200 reply's body decodes to exactly the upstream's tokens, both
/// non-empty.
pub proof fn lemma_login_success_reply(v: TokenGrantV)
    requires
        wf_token_grant(v),
    ensures
        ({
            let body = http_login_response_json(
                (HttpLoginResponseV {
                    access_token: v.access_token,
                    refresh_token: v.refresh_token,
                }),
            );
            &&& parse_http_login_response(body) is Some
            &&& parse_http_login_response(body).unwrap().access_token == v.access_token
            &&& parse_http_login_response(body).unwrap().refresh_token == v.refresh_token
            &&& parse_http_login_response(body).unwrap().access_token.len() > 0
            &&& parse_http_login_response(body).unwrap().refresh_token.len() > 0
        }),
{
    lemma_http_login_response_roundtrip(
        HttpLoginResponseV { access_token: v.access_token, refresh_token: v.refresh_token },
    );
}

/// The ALPN protocol identifier the TCP listener advertises.
pub fn alpn_h2() -> (v: Vec<u8>)
    ensures
        v@ == encode_utf8("h2"@),
{
    let mut v: Vec<u8> = Vec::new();
    push_bytes(&mut v, "h2".as_bytes());
    v
}

} // verus!
