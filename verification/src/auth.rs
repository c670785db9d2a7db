//! Canonical request and response shapes of the six identity operations,
//! their mathematical views, and the built-in stub handler that answers
//! every operation with fixed example values.

use vstd::prelude::*;

verus! {

use crate::errors::UpstreamError;

// ---------------------------------------------------------------------------
// Canonical messages
// ---------------------------------------------------------------------------

#[derive(Debug, Clone, PartialEq, Eq)]
pub struct LoginRequest {
    pub username: String,
    pub password: String,
}

#[derive(Debug, Clone, PartialEq, Eq)]
pub struct LoginResponse {
    pub access_token: String,
    pub refresh_token: String,
    pub expires_at: i64,
}

#[derive(Debug, Clone, PartialEq, Eq)]
pub struct RefreshRequest {
    pub refresh_token: String,
}

#[derive(Debug, Clone, PartialEq, Eq)]
pub struct RefreshResponse {
    pub access_token: String,
    pub refresh_token: String,
    pub expires_at: i64,
}

#[derive(Debug, Clone, PartialEq, Eq)]
pub struct GenerateTokensRequest {
    pub refresh_token: String,
}

#[derive(Debug, Clone, PartialEq, Eq)]
pub struct GenerateTokensResponse {
    pub access_token: String,
    pub refresh_token: String,
    pub expires_at: i64,
}

#[derive(Debug, Clone, PartialEq, Eq)]
pub struct ValidateRequest {
    pub token: String,
}

#[derive(Debug, Clone, PartialEq, Eq)]
pub struct ValidateResponse {
    pub valid: bool,
    pub user_id: String,
    pub roles: Vec<String>,
    pub expires_at: i64,
}

#[derive(Debug, Clone, PartialEq, Eq)]
pub struct LogoutRequest {
    pub token: String,
}

#[derive(Debug, Clone, PartialEq, Eq)]
pub struct LogoutResponse {
    pub success: bool,
    pub message: String,
}

#[derive(Debug, Clone, PartialEq, Eq)]
pub struct RegisterRequest {
    pub username: String,
    pub password: String,
}

#[derive(Debug, Clone, PartialEq, Eq)]
pub struct RegisterResponse {
    pub access_token: String,
    pub refresh_token: String,
    pub expires_at: i64,
}

// ---------------------------------------------------------------------------
// Views
// ---------------------------------------------------------------------------

/// View of the three-field token responses (login, refresh, register,
/// generate-tokens all share this shape).
pub ghost struct TokenGrantV {
    pub access_token: Seq<char>,
    pub refresh_token: Seq<char>,
    pub expires_at: int,
}

pub ghost struct ValidateResponseV {
    pub valid: bool,
    pub user_id: Seq<char>,
    pub roles: Seq<Seq<char>>,
    pub expires_at: int,
}

pub ghost struct LogoutResponseV {
    pub success: bool,
    pub message: Seq<char>,
}

impl View for LoginResponse {
    type V = TokenGrantV;

    open spec fn view(&self) -> TokenGrantV {
        TokenGrantV {
            access_token: self.access_token@,
            refresh_token: self.refresh_token@,
            expires_at: self.expires_at as int,
        }
    }
}

impl View for RefreshResponse {
    type V = TokenGrantV;

    open spec fn view(&self) -> TokenGrantV {
        TokenGrantV {
            access_token: self.access_token@,
            refresh_token: self.refresh_token@,
            expires_at: self.expires_at as int,
        }
    }
}

impl View for GenerateTokensResponse {
    type V = TokenGrantV;

    open spec fn view(&self) -> TokenGrantV {
        TokenGrantV {
            access_token: self.access_token@,
            refresh_token: self.refresh_token@,
            expires_at: self.expires_at as int,
        }
    }
}

impl View for RegisterResponse {
    type V = TokenGrantV;

    open spec fn view(&self) -> TokenGrantV {
        TokenGrantV {
            access_token: self.access_token@,
            refresh_token: self.refresh_token@,
            expires_at: self.expires_at as int,
        }
    }
}

impl View for ValidateResponse {
    type V = ValidateResponseV;

    open spec fn view(&self) -> ValidateResponseV {
        ValidateResponseV {
            valid: self.valid,
            user_id: self.user_id@,
            roles: self.roles.deep_view(),
            expires_at: self.expires_at as int,
        }
    }
}

impl View for LogoutResponse {
    type V = LogoutResponseV;

    open spec fn view(&self) -> LogoutResponseV {
        LogoutResponseV { success: self.success, message: self.message@ }
    }
}

// ---------------------------------------------------------------------------
// Message invariants
// ---------------------------------------------------------------------------

/// A successful token grant carries opaque, non-empty tokens and a
/// non-negative expiry timestamp.
pub open spec fn wf_token_grant(v: TokenGrantV) -> bool {
    &&& v.access_token.len() > 0
    &&& v.refresh_token.len() > 0
    &&& v.expires_at >= 0
}

// ---------------------------------------------------------------------------
// The stub handler
// ---------------------------------------------------------------------------

/// An auth service double that answers every operation with fixed example
/// values; the gateway core stays agnostic to whether the upstream is this
/// stub or a real service.
#[derive(Debug, Default)]
pub struct AuthHandler;

impl AuthHandler {
    pub fn login(&self, request: LoginRequest) -> (r: Result<LoginResponse, UpstreamError>)
        ensures
            r is Ok,
            r.unwrap().access_token@ == "example_access_token"@,
            r.unwrap().refresh_token@ == "example_refresh_token"@,
            r.unwrap().expires_at == 1893456000,
            wf_token_grant(r.unwrap()@),
    {
        proof {
            reveal_strlit("example_access_token");
            reveal_strlit("example_refresh_token");
        }
        Ok(
            LoginResponse {
                access_token: String::from_str("example_access_token"),
                refresh_token: String::from_str("example_refresh_token"),
                expires_at: 1893456000,
            },
        )
    }

    pub fn refresh(&self, request: RefreshRequest) -> (r: Result<RefreshResponse, UpstreamError>)
        ensures
            r is Ok,
            r.unwrap().access_token@ == "example_new_access_token"@,
            r.unwrap().refresh_token@ == "example_new_refresh_token"@,
            r.unwrap().expires_at == 1893456000,
            wf_token_grant(r.unwrap()@),
    {
        proof {
            reveal_strlit("example_new_access_token");
            reveal_strlit("example_new_refresh_token");
        }
        Ok(
            RefreshResponse {
                access_token: String::from_str("example_new_access_token"),
                refresh_token: String::from_str("example_new_refresh_token"),
                expires_at: 1893456000,
            },
        )
    }

    pub fn validate(&self, request: ValidateRequest) -> (r: Result<
        ValidateResponse,
        UpstreamError,
    >)
        ensures
            r is Ok,
            r.unwrap().valid == true,
            r.unwrap().user_id@ == "example_user_id"@,
            r.unwrap().roles.deep_view() =~= seq!["user"@],
            r.unwrap().expires_at == 1893456000,
    {
        let mut roles: Vec<String> = Vec::new();
        roles.push(String::from_str("user"));
        Ok(
            ValidateResponse {
                valid: true,
                user_id: String::from_str("example_user_id"),
                roles,
                expires_at: 1893456000,
            },
        )
    }

    pub fn logout(&self, request: LogoutRequest) -> (r: Result<LogoutResponse, UpstreamError>)
        ensures
            r is Ok,
            r.unwrap().success == true,
            r.unwrap().message@ == "Successfully logged out"@,
    {
        Ok(
            LogoutResponse {
                success: true,
                message: String::from_str("Successfully logged out"),
            },
        )
    }

    pub fn register(&self, request: RegisterRequest) -> (r: Result<RegisterResponse, UpstreamError>)
        ensures
            r is Ok,
            r.unwrap().access_token@ == "example_registration_token"@,
            r.unwrap().refresh_token@ == "example_registration_refresh_token"@,
            r.unwrap().expires_at == 1893456000,
            wf_token_grant(r.unwrap()@),
    {
        proof {
            reveal_strlit("example_registration_token");
            reveal_strlit("example_registration_refresh_token");
        }
        Ok(
            RegisterResponse {
                access_token: String::from_str("example_registration_token"),
                refresh_token: String::from_str("example_registration_refresh_token"),
                expires_at: 1893456000,
            },
        )
    }

    pub fn generate_tokens(&self, request: GenerateTokensRequest) -> (r: Result<
        GenerateTokensResponse,
        UpstreamError,
    >)
        ensures
            r is Ok,
            r.unwrap().access_token@ == "example_generated_access_token"@,
            r.unwrap().refresh_token@ == "example_generated_refresh_token"@,
            r.unwrap().expires_at == 1893456000,
            wf_token_grant(r.unwrap()@),
    {
        proof {
            reveal_strlit("example_generated_access_token");
            reveal_strlit("example_generated_refresh_token");
        }
        Ok(
            GenerateTokensResponse {
                access_token: String::from_str("example_generated_access_token"),
                refresh_token: String::from_str("example_generated_refresh_token"),
                expires_at: 1893456000,
            },
        )
    }
}

} // verus!
