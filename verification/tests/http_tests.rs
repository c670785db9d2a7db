use auth_gateway::auth::{LoginResponse, RefreshResponse};
use auth_gateway::errors::{GatewayError, UpstreamError, UpstreamStatus};
use auth_gateway::http::{
    alpn_h2, error_response, handle_request, reply_login, reply_refresh, GatewayCall, HttpOutcome,
    ReplyKind,
};

fn body_text(reply: &auth_gateway::http::HttpReply) -> String {
    String::from_utf8(reply.body.clone()).unwrap()
}

#[test]
fn post_login_with_valid_body_forwards_canonical_call() {
    let outcome = handle_request("POST", "/login", b"{\"username\":\"alice\",\"password\":\"secret\"}");
    match outcome {
        HttpOutcome::Forward(GatewayCall::Login(call)) => {
            assert_eq!(call.username, "alice");
            assert_eq!(call.password, "secret");
        }
        _ => panic!("expected a forwarded login call"),
    }
}

#[test]
fn login_scenario_against_stub_upstream() {
    let outcome = handle_request("POST", "/login", b"{\"username\":\"alice\",\"password\":\"secret\"}");
    let call = match outcome {
        HttpOutcome::Forward(GatewayCall::Login(call)) => call,
        _ => panic!("expected a forwarded login call"),
    };
    assert_eq!(call.username, "alice");
    // A stub upstream that always grants the same tokens.
    let upstream = LoginResponse {
        access_token: String::from("AT"),
        refresh_token: String::from("RT"),
        expires_at: 1893456000,
    };
    let reply = reply_login(Ok(upstream));
    assert_eq!(reply.status, 200);
    assert_eq!(reply.content_type, ReplyKind::Json);
    assert_eq!(
        body_text(&reply),
        "{\"access_token\":\"AT\",\"refresh_token\":\"RT\"}"
    );
}

#[test]
fn refresh_with_empty_body_is_bad_request() {
    let outcome = handle_request("POST", "/refresh", b"");
    match outcome {
        HttpOutcome::Respond(reply) => {
            assert_eq!(reply.status, 400);
            assert_eq!(reply.content_type, ReplyKind::Text);
            assert_eq!(body_text(&reply), "Invalid JSON");
        }
        _ => panic!("an empty body must not be forwarded"),
    }
}

#[test]
fn get_login_is_not_found() {
    let outcome = handle_request("GET", "/login", b"{\"username\":\"a\",\"password\":\"b\"}");
    match outcome {
        HttpOutcome::Respond(reply) => {
            assert_eq!(reply.status, 404);
            assert_eq!(body_text(&reply), "Not Found");
        }
        _ => panic!("GET must not be forwarded"),
    }
}

#[test]
fn unknown_path_is_not_found() {
    let outcome = handle_request("POST", "/logout", b"{}");
    match outcome {
        HttpOutcome::Respond(reply) => assert_eq!(reply.status, 404),
        _ => panic!("an unmapped path must not be forwarded"),
    }
}

#[test]
fn malformed_login_body_is_bad_request() {
    let outcome = handle_request("POST", "/login", b"{\"username\":\"alice\"");
    match outcome {
        HttpOutcome::Respond(reply) => {
            assert_eq!(reply.status, 400);
            assert_eq!(body_text(&reply), "Invalid JSON");
        }
        _ => panic!("a malformed body must not be forwarded"),
    }
}

#[test]
fn refresh_with_valid_body_forwards_and_replies() {
    let outcome = handle_request("POST", "/refresh", b"{\"refresh_token\":\"rt-9\"}");
    let call = match outcome {
        HttpOutcome::Forward(GatewayCall::Refresh(call)) => call,
        _ => panic!("expected a forwarded refresh call"),
    };
    assert_eq!(call.refresh_token, "rt-9");
    let upstream = RefreshResponse {
        access_token: String::from("newAT"),
        refresh_token: String::from("newRT"),
        expires_at: 99,
    };
    let reply = reply_refresh(Ok(upstream));
    assert_eq!(reply.status, 200);
    assert_eq!(body_text(&reply), "{\"access_token\":\"newAT\"}");
}

#[test]
fn upstream_failure_maps_to_500_with_diagnostic() {
    let err = GatewayError::StatusError(UpstreamError {
        status: UpstreamStatus::Unauthenticated,
        message: String::from("bad credentials"),
    });
    let reply = reply_login(Err(err));
    assert_eq!(reply.status, 500);
    assert_eq!(reply.content_type, ReplyKind::Text);
    assert_eq!(body_text(&reply), "gRPC status error: bad credentials");
}

#[test]
fn transport_failure_maps_to_500() {
    let reply = reply_refresh(Err(GatewayError::TransportError(String::from("channel closed"))));
    assert_eq!(reply.status, 500);
    assert_eq!(body_text(&reply), "gRPC transport error: channel closed");
}

#[test]
fn error_response_keeps_status_and_message() {
    let reply = error_response(418, "teapot");
    assert_eq!(reply.status, 418);
    assert_eq!(body_text(&reply), "teapot");
}

#[test]
fn gateway_error_messages() {
    let e = GatewayError::ConfigError(String::from("missing file"));
    assert_eq!(e.message(), "Configuration error: missing file");
}

#[test]
fn h2_alpn_token() {
    assert_eq!(alpn_h2(), b"h2".to_vec());
}
