//! The gateway core's translation layer: every REST request becomes a
//! canonical call, and every canonical response is narrowed back to the
//! REST schema. The shared upstream channel itself lives outside this
//! crate; these functions are the pure halves of that dispatch.

use vstd::prelude::*;

verus! {

use crate::auth::{LoginRequest, LoginResponse, RefreshRequest, RefreshResponse};
use crate::http::{HttpLoginRequest, HttpLoginResponse, HttpRefreshRequest, HttpRefreshResponse};

/// The canonical login call carrying a REST login body's fields.
pub fn login_request_of(req: HttpLoginRequest) -> (r: LoginRequest)
    ensures
        r.username@ == req.username@,
        r.password@ == req.password@,
{
    LoginRequest { username: req.username, password: req.password }
}

/// The canonical refresh call carrying a REST refresh body's field.
pub fn refresh_request_of(req: HttpRefreshRequest) -> (r: RefreshRequest)
    ensures
        r.refresh_token@ == req.refresh_token@,
{
    RefreshRequest { refresh_token: req.refresh_token }
}

/// Narrows a canonical login response to the REST schema; the expiry is
/// deliberately not part of the HTTP-facing shape.
pub fn http_login_response_of(res: LoginResponse) -> (r: HttpLoginResponse)
    ensures
        r.access_token@ == res.access_token@,
        r.refresh_token@ == res.refresh_token@,
{
    HttpLoginResponse { access_token: res.access_token, refresh_token: res.refresh_token }
}

/// Narrows a canonical refresh response to the REST schema, which keeps
/// only the new access token.
pub fn http_refresh_response_of(res: RefreshResponse) -> (r: HttpRefreshResponse)
    ensures
        r.access_token@ == res.access_token@,
{
    HttpRefreshResponse { access_token: res.access_token }
}

} // verus!
