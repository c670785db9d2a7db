use auth_gateway::auth::{
    AuthHandler, GenerateTokensRequest, LoginRequest, LogoutRequest, RefreshRequest,
    RegisterRequest, ValidateRequest,
};
use auth_gateway::errors::UpstreamStatus;
use auth_gateway::hello::{str_contains, HelloRequest, MyHelloService};

fn handler() -> AuthHandler {
    AuthHandler::default()
}

#[test]
fn stub_login_grants_example_tokens() {
    let res = handler()
        .login(LoginRequest {
            username: String::from("alice"),
            password: String::from("secret"),
        })
        .unwrap();
    assert_eq!(res.access_token, "example_access_token");
    assert_eq!(res.refresh_token, "example_refresh_token");
    assert_eq!(res.expires_at, 1893456000);
}

#[test]
fn stub_refresh_grants_new_tokens() {
    let res = handler()
        .refresh(RefreshRequest {
            refresh_token: String::from("rt"),
        })
        .unwrap();
    assert_eq!(res.access_token, "example_new_access_token");
    assert_eq!(res.refresh_token, "example_new_refresh_token");
    assert_eq!(res.expires_at, 1893456000);
}

#[test]
fn stub_validate_reports_valid_user() {
    let res = handler()
        .validate(ValidateRequest {
            token: String::from("t"),
        })
        .unwrap();
    assert!(res.valid);
    assert_eq!(res.user_id, "example_user_id");
    assert_eq!(res.roles, vec![String::from("user")]);
    assert_eq!(res.expires_at, 1893456000);
}

#[test]
fn stub_logout_succeeds() {
    let res = handler()
        .logout(LogoutRequest {
            token: String::from("t"),
        })
        .unwrap();
    assert!(res.success);
    assert_eq!(res.message, "Successfully logged out");
}

#[test]
fn stub_register_grants_registration_tokens() {
    let res = handler()
        .register(RegisterRequest {
            username: String::from("bob"),
            password: String::from("pw"),
        })
        .unwrap();
    assert_eq!(res.access_token, "example_registration_token");
    assert_eq!(res.refresh_token, "example_registration_refresh_token");
    assert_eq!(res.expires_at, 1893456000);
}

#[test]
fn stub_generate_tokens_grants_generated_tokens() {
    let res = handler()
        .generate_tokens(GenerateTokensRequest {
            refresh_token: String::from("rt"),
        })
        .unwrap();
    assert_eq!(res.access_token, "example_generated_access_token");
    assert_eq!(res.refresh_token, "example_generated_refresh_token");
    assert_eq!(res.expires_at, 1893456000);
}

#[test]
fn say_hello_greets_when_name_contains_hello() {
    let res = MyHelloService::default()
        .say_hello(HelloRequest {
            name: String::from("Hello World"),
        })
        .unwrap();
    assert_eq!(res.message, "Hello, Hello World!");
}

#[test]
fn say_hello_is_case_insensitive() {
    let res = MyHelloService::default()
        .say_hello(HelloRequest {
            name: String::from("HELLO there"),
        })
        .unwrap();
    assert_eq!(res.message, "Hello, HELLO there!");
}

#[test]
fn say_hello_rejects_other_names() {
    let err = MyHelloService::default()
        .say_hello(HelloRequest {
            name: String::from("Goodbye"),
        })
        .unwrap_err();
    assert_eq!(err.status, UpstreamStatus::InvalidArgument);
    assert_eq!(err.message, "Message must contain 'hello'");
}

#[test]
fn substring_search() {
    assert!(str_contains("hello world", "hello"));
    assert!(str_contains("say hello", "hello"));
    assert!(str_contains("anything", ""));
    assert!(!str_contains("hell o", "hello"));
    assert!(!str_contains("", "hello"));
    assert!(str_contains("na\u{00ef}ve caf\u{00e9}", "caf\u{00e9}"));
}
