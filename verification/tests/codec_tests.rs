use auth_gateway::auth::{
    GenerateTokensResponse, LoginResponse, LogoutResponse, RefreshResponse, RegisterResponse,
    ValidateResponse,
};
use auth_gateway::codec::{
    decode_generate_tokens_response, decode_http_login_request, decode_http_login_response,
    decode_http_refresh_request, decode_http_refresh_response, decode_login_response,
    decode_logout_response, decode_refresh_response, decode_register_response,
    decode_validate_response, encode_generate_tokens_response, encode_http_login_response,
    encode_http_refresh_response, encode_login_response, encode_logout_response,
    encode_refresh_response, encode_register_response, encode_validate_response,
};
use auth_gateway::http::{HttpLoginRequest, HttpLoginResponse, HttpRefreshRequest, HttpRefreshResponse};

#[test]
fn login_response_round_trip() {
    let v = LoginResponse {
        access_token: String::from("AT"),
        refresh_token: String::from("RT"),
        expires_at: 1893456000,
    };
    let bytes = encode_login_response(&v);
    assert_eq!(
        String::from_utf8(bytes.clone()).unwrap(),
        "{\"access_token\":\"AT\",\"refresh_token\":\"RT\",\"expires_at\":1893456000}"
    );
    assert_eq!(decode_login_response(&bytes), Some(v));
}

#[test]
fn refresh_response_round_trip() {
    let v = RefreshResponse {
        access_token: String::from("new_access"),
        refresh_token: String::from("new_refresh"),
        expires_at: 0,
    };
    let bytes = encode_refresh_response(&v);
    assert_eq!(decode_refresh_response(&bytes), Some(v));
}

#[test]
fn register_response_round_trip() {
    let v = RegisterResponse {
        access_token: String::from("a"),
        refresh_token: String::from("b"),
        expires_at: -1,
    };
    let bytes = encode_register_response(&v);
    assert_eq!(
        String::from_utf8(bytes.clone()).unwrap(),
        "{\"access_token\":\"a\",\"refresh_token\":\"b\",\"expires_at\":-1}"
    );
    assert_eq!(decode_register_response(&bytes), Some(v));
}

#[test]
fn generate_tokens_response_round_trip() {
    let v = GenerateTokensResponse {
        access_token: String::from("x"),
        refresh_token: String::from("y"),
        expires_at: i64::MAX,
    };
    let bytes = encode_generate_tokens_response(&v);
    assert_eq!(decode_generate_tokens_response(&bytes), Some(v));
}

#[test]
fn token_round_trip_extreme_expiry() {
    let v = LoginResponse {
        access_token: String::from("t"),
        refresh_token: String::from("u"),
        expires_at: i64::MIN,
    };
    let bytes = encode_login_response(&v);
    assert_eq!(decode_login_response(&bytes), Some(v));
}

#[test]
fn string_escapes_round_trip() {
    let v = LoginResponse {
        access_token: String::from("a\"b\\c"),
        refresh_token: String::from("line\nbreak\ttab\u{1}ctl"),
        expires_at: 7,
    };
    let bytes = encode_login_response(&v);
    assert_eq!(decode_login_response(&bytes), Some(v));
}

#[test]
fn non_ascii_round_trip() {
    let v = LogoutResponse {
        success: true,
        message: String::from("abgemeldet \u{00e9}\u{4e16}\u{754c} \u{1f600}"),
    };
    let bytes = encode_logout_response(&v);
    assert_eq!(decode_logout_response(&bytes), Some(v));
}

#[test]
fn logout_response_exact_encoding() {
    let v = LogoutResponse {
        success: false,
        message: String::from("bye"),
    };
    let bytes = encode_logout_response(&v);
    assert_eq!(
        String::from_utf8(bytes.clone()).unwrap(),
        "{\"success\":false,\"message\":\"bye\"}"
    );
    assert_eq!(decode_logout_response(&bytes), Some(v));
}

#[test]
fn validate_response_round_trip() {
    let v = ValidateResponse {
        valid: true,
        user_id: String::from("user-1"),
        roles: vec![String::from("admin"), String::from("user")],
        expires_at: 123,
    };
    let bytes = encode_validate_response(&v);
    assert_eq!(
        String::from_utf8(bytes.clone()).unwrap(),
        "{\"valid\":true,\"user_id\":\"user-1\",\"roles\":[\"admin\",\"user\"],\"expires_at\":123}"
    );
    assert_eq!(decode_validate_response(&bytes), Some(v));
}

#[test]
fn validate_response_empty_roles_round_trip() {
    let v = ValidateResponse {
        valid: false,
        user_id: String::new(),
        roles: Vec::new(),
        expires_at: 0,
    };
    let bytes = encode_validate_response(&v);
    assert_eq!(
        String::from_utf8(bytes.clone()).unwrap(),
        "{\"valid\":false,\"user_id\":\"\",\"roles\":[],\"expires_at\":0}"
    );
    assert_eq!(decode_validate_response(&bytes), Some(v));
}

#[test]
fn http_login_response_round_trip() {
    let v = HttpLoginResponse {
        access_token: String::from("AT"),
        refresh_token: String::from("RT"),
    };
    let bytes = encode_http_login_response(&v);
    assert_eq!(
        String::from_utf8(bytes.clone()).unwrap(),
        "{\"access_token\":\"AT\",\"refresh_token\":\"RT\"}"
    );
    assert_eq!(decode_http_login_response(&bytes), Some(v));
}

#[test]
fn http_refresh_response_round_trip() {
    let v = HttpRefreshResponse {
        access_token: String::from("fresh"),
    };
    let bytes = encode_http_refresh_response(&v);
    assert_eq!(
        String::from_utf8(bytes.clone()).unwrap(),
        "{\"access_token\":\"fresh\"}"
    );
    assert_eq!(decode_http_refresh_response(&bytes), Some(v));
}

#[test]
fn login_request_decodes() {
    let body = b"{\"username\":\"alice\",\"password\":\"secret\"}";
    let parsed = decode_http_login_request(body).unwrap();
    assert_eq!(
        parsed,
        HttpLoginRequest {
            username: String::from("alice"),
            password: String::from("secret"),
        }
    );
}

#[test]
fn login_request_accepts_swapped_member_order() {
    let body = b"{\"password\":\"secret\",\"username\":\"alice\"}";
    let parsed = decode_http_login_request(body).unwrap();
    assert_eq!(parsed.username, "alice");
    assert_eq!(parsed.password, "secret");
}

#[test]
fn login_request_accepts_whitespace() {
    let body = b" {\n  \"username\" : \"alice\" ,\t\"password\" : \"secret\"\n} ";
    let parsed = decode_http_login_request(body).unwrap();
    assert_eq!(parsed.username, "alice");
    assert_eq!(parsed.password, "secret");
}

#[test]
fn login_request_accepts_short_escapes() {
    let body = b"{\"username\":\"a\\/b\\u0041\",\"password\":\"\\b\\f\\n\\r\\t\"}";
    let parsed = decode_http_login_request(body).unwrap();
    assert_eq!(parsed.username, "a/bA");
    assert_eq!(parsed.password, "\u{8}\u{c}\n\r\t");
}

#[test]
fn refresh_request_decodes() {
    let body = b"{\"refresh_token\":\"rt-1\"}";
    let parsed = decode_http_refresh_request(body).unwrap();
    assert_eq!(
        parsed,
        HttpRefreshRequest {
            refresh_token: String::from("rt-1"),
        }
    );
}

#[test]
fn malformed_bodies_are_rejected() {
    let cases: &[&[u8]] = &[
        b"",
        b"{",
        b"{}",
        b"null",
        b"{\"username\":\"a\"}",
        b"{\"password\":\"a\"}",
        b"{\"username\":\"a\",\"username\":\"b\"}",
        b"{\"username\":\"a\",\"password\":\"b\"} trailing",
        b"{\"username\":\"a\",\"password\":\"b\"",
        b"{\"username\":\"a\",\"password\":2}",
        b"{\"username\":\"a\",\"password\":\"\\x\"}",
        b"{\"username\":\"a\",\"password\":\"\\u0100\"}",
        b"{\"username\":\"a\",\"password\":\"b\xff\"}",
    ];
    for case in cases {
        assert_eq!(auth_gateway::codec::decode_http_login_request(case), None);
    }
}

#[test]
fn malformed_numbers_are_rejected() {
    let cases: &[&[u8]] = &[
        b"{\"access_token\":\"a\",\"refresh_token\":\"b\",\"expires_at\":01}",
        b"{\"access_token\":\"a\",\"refresh_token\":\"b\",\"expires_at\":-}",
        b"{\"access_token\":\"a\",\"refresh_token\":\"b\",\"expires_at\":9223372036854775808}",
        b"{\"access_token\":\"a\",\"refresh_token\":\"b\",\"expires_at\":99999999999999999999}",
        b"{\"access_token\":\"a\",\"refresh_token\":\"b\",\"expires_at\":\"7\"}",
    ];
    for case in cases {
        assert_eq!(auth_gateway::codec::decode_login_response(case), None);
    }
    let min = b"{\"access_token\":\"a\",\"refresh_token\":\"b\",\"expires_at\":-9223372036854775808}";
    assert!(auth_gateway::codec::decode_login_response(min).is_some());
}

#[test]
fn serde_json_reads_our_encodings() {
    let v = ValidateResponse {
        valid: true,
        user_id: String::from("u\"id"),
        roles: vec![String::from("r\u{5}1")],
        expires_at: -42,
    };
    let bytes = encode_validate_response(&v);
    let parsed: serde_json::Value = serde_json::from_slice(&bytes).unwrap();
    assert_eq!(parsed["valid"], serde_json::Value::Bool(true));
    assert_eq!(parsed["user_id"].as_str().unwrap(), "u\"id");
    assert_eq!(parsed["roles"][0].as_str().unwrap(), "r\u{5}1");
    assert_eq!(parsed["expires_at"].as_i64().unwrap(), -42);
}
