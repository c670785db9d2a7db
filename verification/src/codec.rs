//! Wire form of the gateway's message shapes: each shape has a canonical
//! JSON encoding, a decoder, and a proof that decoding the encoding gives
//! the same structured value back.

use vstd::prelude::*;

verus! {

use crate::json::{
    LBRACE, RBRACE, COLON, COMMA, jstr, jint, jbool, jstr_arr, key_quoted, expect, skip_ws,
    parse_jstr, parse_jint, parse_jbool, parse_jstr_arr, at, is_ws, is_digit, lemma_at_split,
    lemma_at_index, lemma_expect_nows, lemma_parse_jstr_of_encoding, lemma_parse_jint_of_encoding,
    lemma_parse_jbool_of_encoding, lemma_parse_arr_of_encoding, write_jstr, write_jint, write_jbool,
    write_jstr_arr, write_key, expect_byte, expect_key, skip_ws_at, parse_jstr_at, parse_jint_at,
    parse_jbool_at, parse_jstr_arr_at,
};
use crate::auth::{
    TokenGrantV, LoginResponse, RefreshResponse, RegisterResponse, GenerateTokensResponse,
    ValidateResponse, ValidateResponseV, LogoutResponse, LogoutResponseV,
};
use crate::http::{
    HttpLoginRequest, HttpRefreshRequest, HttpLoginResponse, HttpRefreshResponse,
    HttpLoginRequestV, HttpRefreshRequestV, HttpLoginResponseV, HttpRefreshResponseV,
};

// ---------------------------------------------------------------------------
// Token grants: {"access_token":A,"refresh_token":R,"expires_at":E}
// ---------------------------------------------------------------------------

/// Canonical encoding of the three-field token responses.
pub open spec fn token_grant_json(v: TokenGrantV) -> Seq<u8> {
    seq![LBRACE] + key_quoted("access_token"@) + seq![COLON] + jstr(v.access_token) + seq![COMMA]
        + key_quoted("refresh_token"@) + seq![COLON] + jstr(v.refresh_token) + seq![COMMA]
        + key_quoted("expires_at"@) + seq![COLON] + jint(v.expires_at) + seq![RBRACE]
}

/// Reads a whole token-grant document, surrounding whitespace allowed.
pub open spec fn parse_token_grant(s: Seq<u8>) -> Option<TokenGrantV> {
    match expect(s, 0, seq![LBRACE]) {
        None => None,
        Some(i1) => match expect(s, i1, key_quoted("access_token"@)) {
            None => None,
            Some(i2) => match expect(s, i2, seq![COLON]) {
                None => None,
                Some(i3) => match parse_jstr(s, skip_ws(s, i3)) {
                    None => None,
                    Some((a, i4)) => match expect(s, i4, seq![COMMA]) {
                        None => None,
                        Some(i5) => match expect(s, i5, key_quoted("refresh_token"@)) {
                            None => None,
                            Some(i6) => match expect(s, i6, seq![COLON]) {
                                None => None,
                                Some(i7) => match parse_jstr(s, skip_ws(s, i7)) {
                                    None => None,
                                    Some((r, i8)) => match expect(s, i8, seq![COMMA]) {
                                        None => None,
                                        Some(i9) => match expect(
                                            s,
                                            i9,
                                            key_quoted("expires_at"@),
                                        ) {
                                            None => None,
                                            Some(i10) => match expect(s, i10, seq![COLON]) {
                                                None => None,
                                                Some(i11) => match parse_jint(
                                                    s,
                                                    skip_ws(s, i11),
                                                ) {
                                                    None => None,
                                                    Some((e, i12)) => match expect(
                                                        s,
                                                        i12,
                                                        seq![RBRACE],
                                                    ) {
                                                        None => None,
                                                        Some(i13) => if skip_ws(s, i13)
                                                            == s.len() {
                                                            Some(
                                                                TokenGrantV {
                                                                    access_token: a,
                                                                    refresh_token: r,
                                                                    expires_at: e,
                                                                },
                                                            )
                                                        } else {
                                                            None
                                                        },
                                                    },
                                                },
                                            },
                                        },
                                    },
                                },
                            },
                        },
                    },
                },
            },
        },
    }
}

/// Encodes the three token fields in canonical form.
fn encode_token_grant(access_token: &str, refresh_token: &str, expires_at: i64) -> (out: Vec<u8>)
    ensures
        out@ == token_grant_json(
            TokenGrantV {
                access_token: access_token@,
                refresh_token: refresh_token@,
                expires_at: expires_at as int,
            },
        ),
{
    let mut out: Vec<u8> = Vec::new();
    out.push(LBRACE);
    write_key(&mut out, "access_token");
    write_jstr(&mut out, access_token);
    out.push(COMMA);
    write_key(&mut out, "refresh_token");
    write_jstr(&mut out, refresh_token);
    out.push(COMMA);
    write_key(&mut out, "expires_at");
    write_jint(&mut out, expires_at);
    out.push(RBRACE);
    proof {
        assert(out@ =~= token_grant_json(
            TokenGrantV {
                access_token: access_token@,
                refresh_token: refresh_token@,
                expires_at: expires_at as int,
            },
        ));
    }
    out
}

/// Decodes a token-grant document into its three fields.
fn decode_token_grant(s: &[u8]) -> (r: Option<(String, String, i64)>)
    ensures
        (r is Some) == (parse_token_grant(s@) is Some),
        r is Some ==> r.unwrap().0@ == parse_token_grant(s@).unwrap().access_token
            && r.unwrap().1@ == parse_token_grant(s@).unwrap().refresh_token && r.unwrap().2
            == parse_token_grant(s@).unwrap().expires_at,
{
    let i1 = match expect_byte(s, 0, LBRACE) {
        None => {
            return None;
        },
        Some(x) => x,
    };
    let i2 = match expect_key(s, i1, "access_token") {
        None => {
            return None;
        },
        Some(x) => x,
    };
    let i3 = match expect_byte(s, i2, COLON) {
        None => {
            return None;
        },
        Some(x) => x,
    };
    let j3 = skip_ws_at(s, i3);
    let (a, i4) = match parse_jstr_at(s, j3) {
        None => {
            return None;
        },
        Some(x) => x,
    };
    let i5 = match expect_byte(s, i4, COMMA) {
        None => {
            return None;
        },
        Some(x) => x,
    };
    let i6 = match expect_key(s, i5, "refresh_token") {
        None => {
            return None;
        },
        Some(x) => x,
    };
    let i7 = match expect_byte(s, i6, COLON) {
        None => {
            return None;
        },
        Some(x) => x,
    };
    let j7 = skip_ws_at(s, i7);
    let (t, i8) = match parse_jstr_at(s, j7) {
        None => {
            return None;
        },
        Some(x) => x,
    };
    let i9 = match expect_byte(s, i8, COMMA) {
        None => {
            return None;
        },
        Some(x) => x,
    };
    let i10 = match expect_key(s, i9, "expires_at") {
        None => {
            return None;
        },
        Some(x) => x,
    };
    let i11 = match expect_byte(s, i10, COLON) {
        None => {
            return None;
        },
        Some(x) => x,
    };
    let j11 = skip_ws_at(s, i11);
    let (e, i12) = match parse_jint_at(s, j11) {
        None => {
            return None;
        },
        Some(x) => x,
    };
    let i13 = match expect_byte(s, i12, RBRACE) {
        None => {
            return None;
        },
        Some(x) => x,
    };
    let end = skip_ws_at(s, i13);
    if end == s.len() {
        Some((a, t, e))
    } else {
        None
    }
}

/// The same bytes, grouped so that parsing proofs can peel one token at
/// a time from the left.
#[verifier::rlimit(50)]
proof fn lemma_tg_nested(v: TokenGrantV)
    ensures
        token_grant_json(v) == seq![LBRACE] + (key_quoted("access_token"@) + (seq![COLON] + (jstr(
            v.access_token,
        ) + (seq![COMMA] + (key_quoted("refresh_token"@) + (seq![COLON] + (jstr(v.refresh_token)
            + (seq![COMMA] + (key_quoted("expires_at"@) + (seq![COLON] + (jint(v.expires_at)
            + seq![RBRACE]))))))))))),
{
    assert(token_grant_json(v) =~= seq![LBRACE] + (key_quoted("access_token"@) + (seq![COLON] + (
    jstr(v.access_token) + (seq![COMMA] + (key_quoted("refresh_token"@) + (seq![COLON] + (jstr(
        v.refresh_token,
    ) + (seq![COMMA] + (key_quoted("expires_at"@) + (seq![COLON] + (jint(v.expires_at)
        + seq![RBRACE]))))))))))));
}

/// Where each token of a canonical token grant stands.
#[verifier::rlimit(100)]
proof fn lemma_tg_at_facts(v: TokenGrantV)
    ensures
        ({
            let s = token_grant_json(v);
            let k1 = key_quoted("access_token"@);
            let k2 = key_quoted("refresh_token"@);
            let k3 = key_quoted("expires_at"@);
            let a = jstr(v.access_token);
            let r = jstr(v.refresh_token);
            let e = jint(v.expires_at);
            &&& at(s, 0, seq![LBRACE])
            &&& at(s, 1, k1)
            &&& at(s, 1 + k1.len() as int, seq![COLON])
            &&& at(s, 2 + k1.len() as int, a)
            &&& at(s, 2 + k1.len() + a.len() as int, seq![COMMA])
            &&& at(s, 3 + k1.len() + a.len() as int, k2)
            &&& at(s, 3 + k1.len() + a.len() + k2.len() as int, seq![COLON])
            &&& at(s, 4 + k1.len() + a.len() + k2.len() as int, r)
            &&& at(s, 4 + k1.len() + a.len() + k2.len() + r.len() as int, seq![COMMA])
            &&& at(s, 5 + k1.len() + a.len() + k2.len() + r.len() as int, k3)
            &&& at(s, 5 + k1.len() + a.len() + k2.len() + r.len() + k3.len() as int, seq![COLON])
            &&& at(s, 6 + k1.len() + a.len() + k2.len() + r.len() + k3.len() as int, e)
            &&& at(s, 6 + k1.len() + a.len() + k2.len() + r.len() + k3.len() + e.len() as int,
                seq![RBRACE],
            )
            &&& s.len() == 7 + k1.len() + a.len() + k2.len() + r.len() + k3.len() + e.len()
        }),
{
    let s = token_grant_json(v);
    let k1 = key_quoted("access_token"@);
    let k2 = key_quoted("refresh_token"@);
    let k3 = key_quoted("expires_at"@);
    let a = jstr(v.access_token);
    let r = jstr(v.refresh_token);
    let e = jint(v.expires_at);
    lemma_tg_nested(v);
    assert(at(s, 0, s)) by {
        assert(s.subrange(0, s.len() as int) =~= s);
    }
    lemma_at_split(s, 0, seq![LBRACE], k1 + (seq![COLON] + (a + (seq![COMMA] + (k2 + (seq![COLON]
        + (r + (seq![COMMA] + (k3 + (seq![COLON] + (e + seq![RBRACE])))))))))));
    lemma_at_split(s, 1, k1, seq![COLON] + (a + (seq![COMMA] + (k2 + (seq![COLON] + (r + (
    seq![COMMA] + (k3 + (seq![COLON] + (e + seq![RBRACE]))))))))));
    let p2: int = 1 + k1.len() as int;
    lemma_at_split(s, p2, seq![COLON], a + (seq![COMMA] + (k2 + (seq![COLON] + (r + (seq![COMMA] + (
    k3 + (seq![COLON] + (e + seq![RBRACE])))))))));
    lemma_at_split(s, p2 + 1, a, seq![COMMA] + (k2 + (seq![COLON] + (r + (seq![COMMA] + (k3 + (
    seq![COLON] + (e + seq![RBRACE]))))))));
    let p4: int = p2 + 1 + a.len() as int;
    lemma_at_split(s, p4, seq![COMMA], k2 + (seq![COLON] + (r + (seq![COMMA] + (k3 + (seq![COLON]
        + (e + seq![RBRACE])))))));
    lemma_at_split(s, p4 + 1, k2, seq![COLON] + (r + (seq![COMMA] + (k3 + (seq![COLON] + (e
        + seq![RBRACE]))))));
    let p6: int = p4 + 1 + k2.len() as int;
    lemma_at_split(s, p6, seq![COLON], r + (seq![COMMA] + (k3 + (seq![COLON] + (e
        + seq![RBRACE])))));
    lemma_at_split(s, p6 + 1, r, seq![COMMA] + (k3 + (seq![COLON] + (e + seq![RBRACE]))));
    let p8: int = p6 + 1 + r.len() as int;
    lemma_at_split(s, p8, seq![COMMA], k3 + (seq![COLON] + (e + seq![RBRACE])));
    lemma_at_split(s, p8 + 1, k3, seq![COLON] + (e + seq![RBRACE]));
    let p10: int = p8 + 1 + k3.len() as int;
    lemma_at_split(s, p10, seq![COLON], e + seq![RBRACE]);
    lemma_at_split(s, p10 + 1, e, seq![RBRACE]);
}

/// Law: decoding the canonical encoding of a token grant yields the same
/// structured value, field for field.
#[verifier::rlimit(100)]
pub proof fn lemma_token_grant_roundtrip(v: TokenGrantV)
    requires
        -0x8000_0000_0000_0000 <= v.expires_at <= 0x7fff_ffff_ffff_ffff,
    ensures
        parse_token_grant(token_grant_json(v)) == Some(v),
{
    let s = token_grant_json(v);
    let k1 = key_quoted("access_token"@);
    let k2 = key_quoted("refresh_token"@);
    let k3 = key_quoted("expires_at"@);
    let a = jstr(v.access_token);
    let r = jstr(v.refresh_token);
    let e = jint(v.expires_at);
    lemma_tg_at_facts(v);
    let p2: int = 1 + k1.len() as int;
    let p3: int = p2 + 1;
    let p4: int = p3 + a.len() as int;
    let p6: int = p4 + 1 + k2.len() as int;
    let p7: int = p6 + 1;
    let p8: int = p7 + r.len() as int;
    let p10: int = p8 + 1 + k3.len() as int;
    let p11: int = p10 + 1;
    let p12: int = p11 + e.len() as int;
    lemma_expect_nows(s, 0, seq![LBRACE]);
    lemma_expect_nows(s, 1, k1);
    lemma_expect_nows(s, p2, seq![COLON]);
    lemma_at_index(s, p3, a, 0);
    assert(skip_ws(s, p3) == p3);
    lemma_parse_jstr_of_encoding(s, p3, v.access_token);
    lemma_expect_nows(s, p4, seq![COMMA]);
    lemma_expect_nows(s, p4 + 1, k2);
    lemma_expect_nows(s, p6, seq![COLON]);
    lemma_at_index(s, p7, r, 0);
    assert(skip_ws(s, p7) == p7);
    lemma_parse_jstr_of_encoding(s, p7, v.refresh_token);
    lemma_expect_nows(s, p8, seq![COMMA]);
    lemma_expect_nows(s, p8 + 1, k3);
    lemma_expect_nows(s, p10, seq![COLON]);
    lemma_at_index(s, p11, e, 0);
    assert(!is_ws(s[p11])) by {
        crate::json::lemma_jint_first_byte(v.expires_at);
    }
    assert(skip_ws(s, p11) == p11);
    lemma_at_index(s, p12, seq![RBRACE], 0);
    assert(!is_digit(s[p12]));
    lemma_parse_jint_of_encoding(s, p11, v.expires_at);
    lemma_expect_nows(s, p12, seq![RBRACE]);
    assert(skip_ws(s, p12 + 1) == s.len());
}

// ---------------------------------------------------------------------------
// The four token-grant response types
// ---------------------------------------------------------------------------

/// Encodes a login response in canonical form.
pub fn encode_login_response(r: &LoginResponse) -> (out: Vec<u8>)
    ensures
        out@ == token_grant_json(r@),
{
    encode_token_grant(r.access_token.as_str(), r.refresh_token.as_str(), r.expires_at)
}

/// Decodes a login response from its canonical document form.
pub fn decode_login_response(s: &[u8]) -> (r: Option<LoginResponse>)
    ensures
        (r is Some) == (parse_token_grant(s@) is Some),
        r is Some ==> r.unwrap()@ == parse_token_grant(s@).unwrap(),
{
    match decode_token_grant(s) {
        None => None,
        Some((a, t, e)) => Some(
            LoginResponse { access_token: a, refresh_token: t, expires_at: e },
        ),
    }
}

/// Encodes a refresh response in canonical form.
pub fn encode_refresh_response(r: &RefreshResponse) -> (out: Vec<u8>)
    ensures
        out@ == token_grant_json(r@),
{
    encode_token_grant(r.access_token.as_str(), r.refresh_token.as_str(), r.expires_at)
}

/// Decodes a refresh response from its canonical document form.
pub fn decode_refresh_response(s: &[u8]) -> (r: Option<RefreshResponse>)
    ensures
        (r is Some) == (parse_token_grant(s@) is Some),
        r is Some ==> r.unwrap()@ == parse_token_grant(s@).unwrap(),
{
    match decode_token_grant(s) {
        None => None,
        Some((a, t, e)) => Some(
            RefreshResponse { access_token: a, refresh_token: t, expires_at: e },
        ),
    }
}

/// Encodes a register response in canonical form.
pub fn encode_register_response(r: &RegisterResponse) -> (out: Vec<u8>)
    ensures
        out@ == token_grant_json(r@),
{
    encode_token_grant(r.access_token.as_str(), r.refresh_token.as_str(), r.expires_at)
}

/// Decodes a register response from its canonical document form.
pub fn decode_register_response(s: &[u8]) -> (r: Option<RegisterResponse>)
    ensures
        (r is Some) == (parse_token_grant(s@) is Some),
        r is Some ==> r.unwrap()@ == parse_token_grant(s@).unwrap(),
{
    match decode_token_grant(s) {
        None => None,
        Some((a, t, e)) => Some(
            RegisterResponse { access_token: a, refresh_token: t, expires_at: e },
        ),
    }
}

/// Encodes a generate-tokens response in canonical form.
pub fn encode_generate_tokens_response(r: &GenerateTokensResponse) -> (out: Vec<u8>)
    ensures
        out@ == token_grant_json(r@),
{
    encode_token_grant(r.access_token.as_str(), r.refresh_token.as_str(), r.expires_at)
}

/// Decodes a generate-tokens response from its canonical document form.
pub fn decode_generate_tokens_response(s: &[u8]) -> (r: Option<GenerateTokensResponse>)
    ensures
        (r is Some) == (parse_token_grant(s@) is Some),
        r is Some ==> r.unwrap()@ == parse_token_grant(s@).unwrap(),
{
    match decode_token_grant(s) {
        None => None,
        Some((a, t, e)) => Some(
            GenerateTokensResponse { access_token: a, refresh_token: t, expires_at: e },
        ),
    }
}

// ---------------------------------------------------------------------------
// Field boundaries: "{" or "," followed by a quoted key and a colon
// ---------------------------------------------------------------------------

/// The object opening together with its first key and colon.
pub open spec fn field_first(k: Seq<char>) -> Seq<u8> {
    seq![LBRACE] + key_quoted(k) + seq![COLON]
}

/// A member separator together with the following key and colon.
pub open spec fn field_sep(k: Seq<char>) -> Seq<u8> {
    seq![COMMA] + key_quoted(k) + seq![COLON]
}

proof fn lemma_field_first_expect(s: Seq<u8>, i: int, k: Seq<char>)
    requires
        at(s, i, field_first(k)),
    ensures
        expect(s, i, seq![LBRACE]) == Some(i + 1),
        expect(s, i + 1, key_quoted(k)) == Some(i + 1 + key_quoted(k).len() as int),
        expect(s, i + 1 + key_quoted(k).len() as int, seq![COLON]) == Some(i + field_first(
            k,
        ).len() as int),
{
    assert(field_first(k) =~= seq![LBRACE] + (key_quoted(k) + seq![COLON]));
    lemma_at_split(s, i, seq![LBRACE], key_quoted(k) + seq![COLON]);
    lemma_at_split(s, i + 1, key_quoted(k), seq![COLON]);
    lemma_expect_nows(s, i, seq![LBRACE]);
    lemma_expect_nows(s, i + 1, key_quoted(k));
    lemma_expect_nows(s, i + 1 + key_quoted(k).len() as int, seq![COLON]);
}

proof fn lemma_field_sep_expect(s: Seq<u8>, i: int, k: Seq<char>)
    requires
        at(s, i, field_sep(k)),
    ensures
        expect(s, i, seq![COMMA]) == Some(i + 1),
        expect(s, i + 1, key_quoted(k)) == Some(i + 1 + key_quoted(k).len() as int),
        expect(s, i + 1 + key_quoted(k).len() as int, seq![COLON]) == Some(i + field_sep(
            k,
        ).len() as int),
{
    assert(field_sep(k) =~= seq![COMMA] + (key_quoted(k) + seq![COLON]));
    lemma_at_split(s, i, seq![COMMA], key_quoted(k) + seq![COLON]);
    lemma_at_split(s, i + 1, key_quoted(k), seq![COLON]);
    lemma_expect_nows(s, i, seq![COMMA]);
    lemma_expect_nows(s, i + 1, key_quoted(k));
    lemma_expect_nows(s, i + 1 + key_quoted(k).len() as int, seq![COLON]);
}

/// Appends the object opening, the first key and its colon.
fn write_field_first(out: &mut Vec<u8>, k: &str)
    ensures
        final(out)@ == old(out)@ + field_first(k@),
{
    out.push(LBRACE);
    write_key(out, k);
    proof {
        assert(final(out)@ =~= old(out)@ + field_first(k@));
    }
}

/// Appends a member separator, the next key and its colon.
fn write_field_sep(out: &mut Vec<u8>, k: &str)
    ensures
        final(out)@ == old(out)@ + field_sep(k@),
{
    out.push(COMMA);
    write_key(out, k);
    proof {
        assert(final(out)@ =~= old(out)@ + field_sep(k@));
    }
}

// ---------------------------------------------------------------------------
// HTTP-facing responses: {"access_token":A,"refresh_token":R} and
// {"access_token":A}
// ---------------------------------------------------------------------------

/// Canonical encoding of the REST login reply; the expiry is deliberately
/// absent from the HTTP-facing schema.
pub open spec fn http_login_response_json(v: HttpLoginResponseV) -> Seq<u8> {
    field_first("access_token"@) + jstr(v.access_token) + field_sep("refresh_token"@) + jstr(
        v.refresh_token,
    ) + seq![RBRACE]
}

/// Reads a whole REST login reply document.
pub open spec fn parse_http_login_response(s: Seq<u8>) -> Option<HttpLoginResponseV> {
    match expect(s, 0, seq![LBRACE]) {
        None => None,
        Some(i1) => match expect(s, i1, key_quoted("access_token"@)) {
            None => None,
            Some(i2) => match expect(s, i2, seq![COLON]) {
                None => None,
                Some(i3) => match parse_jstr(s, skip_ws(s, i3)) {
                    None => None,
                    Some((a, i4)) => match expect(s, i4, seq![COMMA]) {
                        None => None,
                        Some(i5) => match expect(s, i5, key_quoted("refresh_token"@)) {
                            None => None,
                            Some(i6) => match expect(s, i6, seq![COLON]) {
                                None => None,
                                Some(i7) => match parse_jstr(s, skip_ws(s, i7)) {
                                    None => None,
                                    Some((r, i8)) => match expect(s, i8, seq![RBRACE]) {
                                        None => None,
                                        Some(i9) => if skip_ws(s, i9) == s.len() {
                                            Some(
                                                HttpLoginResponseV {
                                                    access_token: a,
                                                    refresh_token: r,
                                                },
                                            )
                                        } else {
                                            None
                                        },
                                    },
                                },
                            },
                        },
                    },
                },
            },
        },
    }
}

/// Encodes a REST login reply in canonical form.
pub fn encode_http_login_response(r: &HttpLoginResponse) -> (out: Vec<u8>)
    ensures
        out@ == http_login_response_json(r@),
{
    let mut out: Vec<u8> = Vec::new();
    write_field_first(&mut out, "access_token");
    write_jstr(&mut out, r.access_token.as_str());
    write_field_sep(&mut out, "refresh_token");
    write_jstr(&mut out, r.refresh_token.as_str());
    out.push(RBRACE);
    proof {
        assert(out@ =~= http_login_response_json(r@));
    }
    out
}

/// Decodes a REST login reply from its canonical document form.
pub fn decode_http_login_response(s: &[u8]) -> (r: Option<HttpLoginResponse>)
    ensures
        (r is Some) == (parse_http_login_response(s@) is Some),
        r is Some ==> r.unwrap()@ == parse_http_login_response(s@).unwrap(),
{
    let i1 = match expect_byte(s, 0, LBRACE) {
        None => {
            return None;
        },
        Some(x) => x,
    };
    let i2 = match expect_key(s, i1, "access_token") {
        None => {
            return None;
        },
        Some(x) => x,
    };
    let i3 = match expect_byte(s, i2, COLON) {
        None => {
            return None;
        },
        Some(x) => x,
    };
    let j3 = skip_ws_at(s, i3);
    let (a, i4) = match parse_jstr_at(s, j3) {
        None => {
            return None;
        },
        Some(x) => x,
    };
    let i5 = match expect_byte(s, i4, COMMA) {
        None => {
            return None;
        },
        Some(x) => x,
    };
    let i6 = match expect_key(s, i5, "refresh_token") {
        None => {
            return None;
        },
        Some(x) => x,
    };
    let i7 = match expect_byte(s, i6, COLON) {
        None => {
            return None;
        },
        Some(x) => x,
    };
    let j7 = skip_ws_at(s, i7);
    let (t, i8) = match parse_jstr_at(s, j7) {
        None => {
            return None;
        },
        Some(x) => x,
    };
    let i9 = match expect_byte(s, i8, RBRACE) {
        None => {
            return None;
        },
        Some(x) => x,
    };
    let end = skip_ws_at(s, i9);
    if end == s.len() {
        Some(HttpLoginResponse { access_token: a, refresh_token: t })
    } else {
        None
    }
}

/// Law: decoding the canonical encoding of a REST login reply yields the
/// same structured value, field for field.
#[verifier::rlimit(100)]
pub proof fn lemma_http_login_response_roundtrip(v: HttpLoginResponseV)
    ensures
        parse_http_login_response(http_login_response_json(v)) == Some(v),
{
    let s = http_login_response_json(v);
    let f1 = field_first("access_token"@);
    let a = jstr(v.access_token);
    let f2 = field_sep("refresh_token"@);
    let r = jstr(v.refresh_token);
    assert(s =~= f1 + (a + (f2 + (r + seq![RBRACE]))));
    assert(at(s, 0, s)) by {
        assert(s.subrange(0, s.len() as int) =~= s);
    }
    lemma_at_split(s, 0, f1, a + (f2 + (r + seq![RBRACE])));
    let pa: int = f1.len() as int;
    lemma_at_split(s, pa, a, f2 + (r + seq![RBRACE]));
    let pf2: int = pa + a.len() as int;
    lemma_at_split(s, pf2, f2, r + seq![RBRACE]);
    let pr: int = pf2 + f2.len() as int;
    lemma_at_split(s, pr, r, seq![RBRACE]);
    let pe: int = pr + r.len() as int;
    lemma_field_first_expect(s, 0, "access_token"@);
    lemma_at_index(s, pa, a, 0);
    assert(skip_ws(s, pa) == pa);
    lemma_parse_jstr_of_encoding(s, pa, v.access_token);
    lemma_field_sep_expect(s, pf2, "refresh_token"@);
    lemma_at_index(s, pr, r, 0);
    assert(skip_ws(s, pr) == pr);
    lemma_parse_jstr_of_encoding(s, pr, v.refresh_token);
    lemma_expect_nows(s, pe, seq![RBRACE]);
    assert(skip_ws(s, pe + 1) == s.len());
}

/// Canonical encoding of the REST refresh reply.
pub open spec fn http_refresh_response_json(v: HttpRefreshResponseV) -> Seq<u8> {
    field_first("access_token"@) + jstr(v.access_token) + seq![RBRACE]
}

/// Reads a whole REST refresh reply document.
pub open spec fn parse_http_refresh_response(s: Seq<u8>) -> Option<HttpRefreshResponseV> {
    match expect(s, 0, seq![LBRACE]) {
        None => None,
        Some(i1) => match expect(s, i1, key_quoted("access_token"@)) {
            None => None,
            Some(i2) => match expect(s, i2, seq![COLON]) {
                None => None,
                Some(i3) => match parse_jstr(s, skip_ws(s, i3)) {
                    None => None,
                    Some((a, i4)) => match expect(s, i4, seq![RBRACE]) {
                        None => None,
                        Some(i5) => if skip_ws(s, i5) == s.len() {
                            Some(HttpRefreshResponseV { access_token: a })
                        } else {
                            None
                        },
                    },
                },
            },
        },
    }
}

/// Encodes a REST refresh reply in canonical form.
pub fn encode_http_refresh_response(r: &HttpRefreshResponse) -> (out: Vec<u8>)
    ensures
        out@ == http_refresh_response_json(r@),
{
    let mut out: Vec<u8> = Vec::new();
    write_field_first(&mut out, "access_token");
    write_jstr(&mut out, r.access_token.as_str());
    out.push(RBRACE);
    proof {
        assert(out@ =~= http_refresh_response_json(r@));
    }
    out
}

/// Decodes a REST refresh reply from its canonical document form.
pub fn decode_http_refresh_response(s: &[u8]) -> (r: Option<HttpRefreshResponse>)
    ensures
        (r is Some) == (parse_http_refresh_response(s@) is Some),
        r is Some ==> r.unwrap()@ == parse_http_refresh_response(s@).unwrap(),
{
    let i1 = match expect_byte(s, 0, LBRACE) {
        None => {
            return None;
        },
        Some(x) => x,
    };
    let i2 = match expect_key(s, i1, "access_token") {
        None => {
            return None;
        },
        Some(x) => x,
    };
    let i3 = match expect_byte(s, i2, COLON) {
        None => {
            return None;
        },
        Some(x) => x,
    };
    let j3 = skip_ws_at(s, i3);
    let (a, i4) = match parse_jstr_at(s, j3) {
        None => {
            return None;
        },
        Some(x) => x,
    };
    let i5 = match expect_byte(s, i4, RBRACE) {
        None => {
            return None;
        },
        Some(x) => x,
    };
    let end = skip_ws_at(s, i5);
    if end == s.len() {
        Some(HttpRefreshResponse { access_token: a })
    } else {
        None
    }
}

// ---------------------------------------------------------------------------
// Logout responses: {"success":B,"message":M}
// ---------------------------------------------------------------------------

/// Canonical encoding of a logout response.
pub open spec fn logout_response_json(v: LogoutResponseV) -> Seq<u8> {
    field_first("success"@) + jbool(v.success) + field_sep("message"@) + jstr(v.message)
        + seq![RBRACE]
}

/// Reads a whole logout response document.
pub open spec fn parse_logout_response(s: Seq<u8>) -> Option<LogoutResponseV> {
    match expect(s, 0, seq![LBRACE]) {
        None => None,
        Some(i1) => match expect(s, i1, key_quoted("success"@)) {
            None => None,
            Some(i2) => match expect(s, i2, seq![COLON]) {
                None => None,
                Some(i3) => match parse_jbool(s, skip_ws(s, i3)) {
                    None => None,
                    Some((b, i4)) => match expect(s, i4, seq![COMMA]) {
                        None => None,
                        Some(i5) => match expect(s, i5, key_quoted("message"@)) {
                            None => None,
                            Some(i6) => match expect(s, i6, seq![COLON]) {
                                None => None,
                                Some(i7) => match parse_jstr(s, skip_ws(s, i7)) {
                                    None => None,
                                    Some((m, i8)) => match expect(s, i8, seq![RBRACE]) {
                                        None => None,
                                        Some(i9) => if skip_ws(s, i9) == s.len() {
                                            Some(LogoutResponseV { success: b, message: m })
                                        } else {
                                            None
                                        },
                                    },
                                },
                            },
                        },
                    },
                },
            },
        },
    }
}

/// Encodes a logout response in canonical form.
pub fn encode_logout_response(r: &LogoutResponse) -> (out: Vec<u8>)
    ensures
        out@ == logout_response_json(r@),
{
    let mut out: Vec<u8> = Vec::new();
    write_field_first(&mut out, "success");
    write_jbool(&mut out, r.success);
    write_field_sep(&mut out, "message");
    write_jstr(&mut out, r.message.as_str());
    out.push(RBRACE);
    proof {
        assert(out@ =~= logout_response_json(r@));
    }
    out
}

/// Decodes a logout response from its canonical document form.
pub fn decode_logout_response(s: &[u8]) -> (r: Option<LogoutResponse>)
    ensures
        (r is Some) == (parse_logout_response(s@) is Some),
        r is Some ==> r.unwrap()@ == parse_logout_response(s@).unwrap(),
{
    let i1 = match expect_byte(s, 0, LBRACE) {
        None => {
            return None;
        },
        Some(x) => x,
    };
    let i2 = match expect_key(s, i1, "success") {
        None => {
            return None;
        },
        Some(x) => x,
    };
    let i3 = match expect_byte(s, i2, COLON) {
        None => {
            return None;
        },
        Some(x) => x,
    };
    let j3 = skip_ws_at(s, i3);
    let (b, i4) = match parse_jbool_at(s, j3) {
        None => {
            return None;
        },
        Some(x) => x,
    };
    let i5 = match expect_byte(s, i4, COMMA) {
        None => {
            return None;
        },
        Some(x) => x,
    };
    let i6 = match expect_key(s, i5, "message") {
        None => {
            return None;
        },
        Some(x) => x,
    };
    let i7 = match expect_byte(s, i6, COLON) {
        None => {
            return None;
        },
        Some(x) => x,
    };
    let j7 = skip_ws_at(s, i7);
    let (m, i8) = match parse_jstr_at(s, j7) {
        None => {
            return None;
        },
        Some(x) => x,
    };
    let i9 = match expect_byte(s, i8, RBRACE) {
        None => {
            return None;
        },
        Some(x) => x,
    };
    let end = skip_ws_at(s, i9);
    if end == s.len() {
        Some(LogoutResponse { success: b, message: m })
    } else {
        None
    }
}

/// The same bytes, grouped for peeling from the left.
#[verifier::rlimit(50)]
proof fn lemma_logout_nested(v: LogoutResponseV)
    ensures
        logout_response_json(v) == field_first("success"@) + (jbool(v.success) + (field_sep(
            "message"@,
        ) + (jstr(v.message) + seq![RBRACE]))),
{
    assert(logout_response_json(v) =~= field_first("success"@) + (jbool(v.success) + (field_sep(
        "message"@,
    ) + (jstr(v.message) + seq![RBRACE]))));
}

/// What each parsing step of a canonical logout response returns.
#[verifier::rlimit(100)]
proof fn lemma_logout_steps(v: LogoutResponseV)
    ensures
        ({
            let s = logout_response_json(v);
            let f1 = field_first("success"@);
            let b = jbool(v.success);
            let f2 = field_sep("message"@);
            let m = jstr(v.message);
            let p1 = f1.len() as int;
            let p2 = p1 + b.len() as int;
            let p3 = p2 + f2.len() as int;
            let p4 = p3 + m.len() as int;
            &&& expect(s, 0, seq![LBRACE]) == Some(1int)
            &&& expect(s, 1, key_quoted("success"@)) == Some(
                1 + key_quoted("success"@).len() as int,
            )
            &&& expect(s, 1 + key_quoted("success"@).len() as int, seq![COLON]) == Some(p1)
            &&& skip_ws(s, p1) == p1
            &&& parse_jbool(s, p1) == Some((v.success, p2))
            &&& expect(s, p2, seq![COMMA]) == Some(p2 + 1)
            &&& expect(s, p2 + 1, key_quoted("message"@)) == Some(
                p2 + 1 + key_quoted("message"@).len() as int,
            )
            &&& expect(s, p2 + 1 + key_quoted("message"@).len() as int, seq![COLON]) == Some(p3)
            &&& skip_ws(s, p3) == p3
            &&& parse_jstr(s, p3) == Some((v.message, p4))
            &&& expect(s, p4, seq![RBRACE]) == Some(p4 + 1)
            &&& skip_ws(s, p4 + 1) == s.len()
        }),
{
    let s = logout_response_json(v);
    let f1 = field_first("success"@);
    let b = jbool(v.success);
    let f2 = field_sep("message"@);
    let m = jstr(v.message);
    lemma_logout_nested(v);
    assert(at(s, 0, s)) by {
        assert(s.subrange(0, s.len() as int) =~= s);
    }
    lemma_at_split(s, 0, f1, b + (f2 + (m + seq![RBRACE])));
    let pb: int = f1.len() as int;
    lemma_at_split(s, pb, b, f2 + (m + seq![RBRACE]));
    let pf2: int = pb + b.len() as int;
    lemma_at_split(s, pf2, f2, m + seq![RBRACE]);
    let pm: int = pf2 + f2.len() as int;
    lemma_at_split(s, pm, m, seq![RBRACE]);
    let pe: int = pm + m.len() as int;
    lemma_field_first_expect(s, 0, "success"@);
    lemma_at_index(s, pb, b, 0);
    assert(skip_ws(s, pb) == pb);
    lemma_parse_jbool_of_encoding(s, pb, v.success);
    lemma_field_sep_expect(s, pf2, "message"@);
    lemma_at_index(s, pm, m, 0);
    assert(skip_ws(s, pm) == pm);
    lemma_parse_jstr_of_encoding(s, pm, v.message);
    lemma_expect_nows(s, pe, seq![RBRACE]);
    assert(skip_ws(s, pe + 1) == s.len());
}

/// Law: decoding the canonical encoding of a logout response yields the
/// same structured value, field for field.
#[verifier::rlimit(100)]
pub proof fn lemma_logout_response_roundtrip(v: LogoutResponseV)
    ensures
        parse_logout_response(logout_response_json(v)) == Some(v),
{
    lemma_logout_steps(v);
}

// ---------------------------------------------------------------------------
// Validate responses:
// {"valid":B,"user_id":U,"roles":[..],"expires_at":E}
// ---------------------------------------------------------------------------

/// Canonical encoding of a validate response.
pub open spec fn validate_response_json(v: ValidateResponseV) -> Seq<u8> {
    field_first("valid"@) + jbool(v.valid) + field_sep("user_id"@) + jstr(v.user_id) + field_sep(
        "roles"@,
    ) + jstr_arr(v.roles) + field_sep("expires_at"@) + jint(v.expires_at) + seq![RBRACE]
}

/// Reads a whole validate response document.
pub open spec fn parse_validate_response(s: Seq<u8>) -> Option<ValidateResponseV> {
    match expect(s, 0, seq![LBRACE]) {
        None => None,
        Some(i1) => match expect(s, i1, key_quoted("valid"@)) {
            None => None,
            Some(i2) => match expect(s, i2, seq![COLON]) {
                None => None,
                Some(i3) => match parse_jbool(s, skip_ws(s, i3)) {
                    None => None,
                    Some((b, i4)) => match expect(s, i4, seq![COMMA]) {
                        None => None,
                        Some(i5) => match expect(s, i5, key_quoted("user_id"@)) {
                            None => None,
                            Some(i6) => match expect(s, i6, seq![COLON]) {
                                None => None,
                                Some(i7) => match parse_jstr(s, skip_ws(s, i7)) {
                                    None => None,
                                    Some((u, i8)) => match expect(s, i8, seq![COMMA]) {
                                        None => None,
                                        Some(i9) => match expect(s, i9, key_quoted("roles"@)) {
                                            None => None,
                                            Some(i10) => match expect(s, i10, seq![COLON]) {
                                                None => None,
                                                Some(i11) => match parse_jstr_arr(
                                                    s,
                                                    skip_ws(s, i11),
                                                ) {
                                                    None => None,
                                                    Some((roles, i12)) => match expect(
                                                        s,
                                                        i12,
                                                        seq![COMMA],
                                                    ) {
                                                        None => None,
                                                        Some(i13) => match expect(
                                                            s,
                                                            i13,
                                                            key_quoted("expires_at"@),
                                                        ) {
                                                            None => None,
                                                            Some(i14) => match expect(
                                                                s,
                                                                i14,
                                                                seq![COLON],
                                                            ) {
                                                                None => None,
                                                                Some(i15) => match parse_jint(
                                                                    s,
                                                                    skip_ws(s, i15),
                                                                ) {
                                                                    None => None,
                                                                    Some((e, i16)) => match expect(
                                                                        s,
                                                                        i16,
                                                                        seq![RBRACE],
                                                                    ) {
                                                                        None => None,
                                                                        Some(i17) => if skip_ws(
                                                                            s,
                                                                            i17,
                                                                        ) == s.len() {
                                                                            Some(
                                                                                ValidateResponseV {
                                                                                    valid: b,
                                                                                    user_id: u,
                                                                                    roles: roles,
                                                                                    expires_at: e,
                                                                                },
                                                                            )
                                                                        } else {
                                                                            None
                                                                        },
                                                                    },
                                                                },
                                                            },
                                                        },
                                                    },
                                                },
                                            },
                                        },
                                    },
                                },
                            },
                        },
                    },
                },
            },
        },
    }
}

/// Encodes a validate response in canonical form.
pub fn encode_validate_response(r: &ValidateResponse) -> (out: Vec<u8>)
    ensures
        out@ == validate_response_json(r@),
{
    let mut out: Vec<u8> = Vec::new();
    write_field_first(&mut out, "valid");
    write_jbool(&mut out, r.valid);
    write_field_sep(&mut out, "user_id");
    write_jstr(&mut out, r.user_id.as_str());
    write_field_sep(&mut out, "roles");
    write_jstr_arr(&mut out, &r.roles);
    write_field_sep(&mut out, "expires_at");
    write_jint(&mut out, r.expires_at);
    out.push(RBRACE);
    proof {
        assert(out@ =~= validate_response_json(r@));
    }
    out
}

/// Decodes a validate response from its canonical document form.
pub fn decode_validate_response(s: &[u8]) -> (r: Option<ValidateResponse>)
    ensures
        (r is Some) == (parse_validate_response(s@) is Some),
        r is Some ==> r.unwrap()@ == parse_validate_response(s@).unwrap(),
{
    let i1 = match expect_byte(s, 0, LBRACE) {
        None => {
            return None;
        },
        Some(x) => x,
    };
    let i2 = match expect_key(s, i1, "valid") {
        None => {
            return None;
        },
        Some(x) => x,
    };
    let i3 = match expect_byte(s, i2, COLON) {
        None => {
            return None;
        },
        Some(x) => x,
    };
    let j3 = skip_ws_at(s, i3);
    let (b, i4) = match parse_jbool_at(s, j3) {
        None => {
            return None;
        },
        Some(x) => x,
    };
    let i5 = match expect_byte(s, i4, COMMA) {
        None => {
            return None;
        },
        Some(x) => x,
    };
    let i6 = match expect_key(s, i5, "user_id") {
        None => {
            return None;
        },
        Some(x) => x,
    };
    let i7 = match expect_byte(s, i6, COLON) {
        None => {
            return None;
        },
        Some(x) => x,
    };
    let j7 = skip_ws_at(s, i7);
    let (u, i8) = match parse_jstr_at(s, j7) {
        None => {
            return None;
        },
        Some(x) => x,
    };
    let i9 = match expect_byte(s, i8, COMMA) {
        None => {
            return None;
        },
        Some(x) => x,
    };
    let i10 = match expect_key(s, i9, "roles") {
        None => {
            return None;
        },
        Some(x) => x,
    };
    let i11 = match expect_byte(s, i10, COLON) {
        None => {
            return None;
        },
        Some(x) => x,
    };
    let j11 = skip_ws_at(s, i11);
    let (roles, i12) = match parse_jstr_arr_at(s, j11) {
        None => {
            return None;
        },
        Some(x) => x,
    };
    let i13 = match expect_byte(s, i12, COMMA) {
        None => {
            return None;
        },
        Some(x) => x,
    };
    let i14 = match expect_key(s, i13, "expires_at") {
        None => {
            return None;
        },
        Some(x) => x,
    };
    let i15 = match expect_byte(s, i14, COLON) {
        None => {
            return None;
        },
        Some(x) => x,
    };
    let j15 = skip_ws_at(s, i15);
    let (e, i16) = match parse_jint_at(s, j15) {
        None => {
            return None;
        },
        Some(x) => x,
    };
    let i17 = match expect_byte(s, i16, RBRACE) {
        None => {
            return None;
        },
        Some(x) => x,
    };
    let end = skip_ws_at(s, i17);
    if end == s.len() {
        Some(ValidateResponse { valid: b, user_id: u, roles, expires_at: e })
    } else {
        None
    }
}

/// The same bytes, grouped for peeling from the left.
#[verifier::rlimit(50)]
proof fn lemma_validate_nested(v: ValidateResponseV)
    ensures
        validate_response_json(v) == field_first("valid"@) + (jbool(v.valid) + (field_sep(
            "user_id"@,
        ) + (jstr(v.user_id) + (field_sep("roles"@) + (jstr_arr(v.roles) + (field_sep(
            "expires_at"@,
        ) + (jint(v.expires_at) + seq![RBRACE]))))))),
{
    assert(validate_response_json(v) =~= field_first("valid"@) + (jbool(v.valid) + (field_sep(
        "user_id"@,
    ) + (jstr(v.user_id) + (field_sep("roles"@) + (jstr_arr(v.roles) + (field_sep("expires_at"@)
        + (jint(v.expires_at) + seq![RBRACE]))))))));
}

/// Where each token of a canonical validate response stands.
#[verifier::rlimit(100)]
proof fn lemma_validate_at_facts(v: ValidateResponseV)
    ensures
        ({
            let s = validate_response_json(v);
            let f1 = field_first("valid"@);
            let b = jbool(v.valid);
            let f2 = field_sep("user_id"@);
            let u = jstr(v.user_id);
            let f3 = field_sep("roles"@);
            let a = jstr_arr(v.roles);
            let f4 = field_sep("expires_at"@);
            let e = jint(v.expires_at);
            &&& at(s, 0, f1)
            &&& at(s, f1.len() as int, b)
            &&& at(s, f1.len() + b.len() as int, f2)
            &&& at(s, f1.len() + b.len() + f2.len() as int, u)
            &&& at(s, f1.len() + b.len() + f2.len() + u.len() as int, f3)
            &&& at(s, f1.len() + b.len() + f2.len() + u.len() + f3.len() as int, a)
            &&& at(s, f1.len() + b.len() + f2.len() + u.len() + f3.len() + a.len() as int, f4)
            &&& at(s,
                f1.len() + b.len() + f2.len() + u.len() + f3.len() + a.len() + f4.len() as int,
                e,
            )
            &&& at(s,
                f1.len() + b.len() + f2.len() + u.len() + f3.len() + a.len() + f4.len()
                    + e.len() as int,
                seq![RBRACE],
            )
            &&& s.len() == f1.len() + b.len() + f2.len() + u.len() + f3.len() + a.len() + f4.len()
                + e.len() + 1
        }),
{
    let s = validate_response_json(v);
    let f1 = field_first("valid"@);
    let b = jbool(v.valid);
    let f2 = field_sep("user_id"@);
    let u = jstr(v.user_id);
    let f3 = field_sep("roles"@);
    let a = jstr_arr(v.roles);
    let f4 = field_sep("expires_at"@);
    let e = jint(v.expires_at);
    lemma_validate_nested(v);
    assert(at(s, 0, s)) by {
        assert(s.subrange(0, s.len() as int) =~= s);
    }
    lemma_at_split(s, 0, f1, b + (f2 + (u + (f3 + (a + (f4 + (e + seq![RBRACE])))))));
    let p1: int = f1.len() as int;
    lemma_at_split(s, p1, b, f2 + (u + (f3 + (a + (f4 + (e + seq![RBRACE]))))));
    let p2: int = p1 + b.len() as int;
    lemma_at_split(s, p2, f2, u + (f3 + (a + (f4 + (e + seq![RBRACE])))));
    let p3: int = p2 + f2.len() as int;
    lemma_at_split(s, p3, u, f3 + (a + (f4 + (e + seq![RBRACE]))));
    let p4: int = p3 + u.len() as int;
    lemma_at_split(s, p4, f3, a + (f4 + (e + seq![RBRACE])));
    let p5: int = p4 + f3.len() as int;
    lemma_at_split(s, p5, a, f4 + (e + seq![RBRACE]));
    let p6: int = p5 + a.len() as int;
    lemma_at_split(s, p6, f4, e + seq![RBRACE]);
    let p7: int = p6 + f4.len() as int;
    lemma_at_split(s, p7, e, seq![RBRACE]);
}

/// What each parsing step of a canonical validate response returns.
#[verifier::rlimit(100)]
proof fn lemma_validate_steps(v: ValidateResponseV)
    requires
        -0x8000_0000_0000_0000 <= v.expires_at <= 0x7fff_ffff_ffff_ffff,
    ensures
        ({
            let s = validate_response_json(v);
            let f1 = field_first("valid"@);
            let b = jbool(v.valid);
            let f2 = field_sep("user_id"@);
            let u = jstr(v.user_id);
            let f3 = field_sep("roles"@);
            let a = jstr_arr(v.roles);
            let f4 = field_sep("expires_at"@);
            let e = jint(v.expires_at);
            let p1 = f1.len() as int;
            let p2 = p1 + b.len() as int;
            let p3 = p2 + f2.len() as int;
            let p4 = p3 + u.len() as int;
            let p5 = p4 + f3.len() as int;
            let p6 = p5 + a.len() as int;
            let p7 = p6 + f4.len() as int;
            let p8 = p7 + e.len() as int;
            &&& expect(s, 0, seq![LBRACE]) == Some(1int)
            &&& expect(s, 1, key_quoted("valid"@)) == Some(1 + key_quoted("valid"@).len() as int)
            &&& expect(s, 1 + key_quoted("valid"@).len() as int, seq![COLON]) == Some(p1)
            &&& skip_ws(s, p1) == p1
            &&& parse_jbool(s, p1) == Some((v.valid, p2))
            &&& expect(s, p2, seq![COMMA]) == Some(p2 + 1)
            &&& expect(s, p2 + 1, key_quoted("user_id"@)) == Some(
                p2 + 1 + key_quoted("user_id"@).len() as int,
            )
            &&& expect(s, p2 + 1 + key_quoted("user_id"@).len() as int, seq![COLON]) == Some(p3)
            &&& skip_ws(s, p3) == p3
            &&& parse_jstr(s, p3) == Some((v.user_id, p4))
            &&& expect(s, p4, seq![COMMA]) == Some(p4 + 1)
            &&& expect(s, p4 + 1, key_quoted("roles"@)) == Some(
                p4 + 1 + key_quoted("roles"@).len() as int,
            )
            &&& expect(s, p4 + 1 + key_quoted("roles"@).len() as int, seq![COLON]) == Some(p5)
            &&& skip_ws(s, p5) == p5
            &&& parse_jstr_arr(s, p5) == Some((v.roles, p6))
            &&& expect(s, p6, seq![COMMA]) == Some(p6 + 1)
            &&& expect(s, p6 + 1, key_quoted("expires_at"@)) == Some(
                p6 + 1 + key_quoted("expires_at"@).len() as int,
            )
            &&& expect(s, p6 + 1 + key_quoted("expires_at"@).len() as int, seq![COLON]) == Some(
                p7,
            )
            &&& skip_ws(s, p7) == p7
            &&& parse_jint(s, p7) == Some((v.expires_at, p8))
            &&& expect(s, p8, seq![RBRACE]) == Some(p8 + 1)
            &&& skip_ws(s, p8 + 1) == s.len()
        }),
{
    let s = validate_response_json(v);
    let f1 = field_first("valid"@);
    let b = jbool(v.valid);
    let f2 = field_sep("user_id"@);
    let u = jstr(v.user_id);
    let f3 = field_sep("roles"@);
    let a = jstr_arr(v.roles);
    let f4 = field_sep("expires_at"@);
    let e = jint(v.expires_at);
    lemma_validate_at_facts(v);
    let p1: int = f1.len() as int;
    let p2: int = p1 + b.len() as int;
    let p3: int = p2 + f2.len() as int;
    let p4: int = p3 + u.len() as int;
    let p5: int = p4 + f3.len() as int;
    let p6: int = p5 + a.len() as int;
    let p7: int = p6 + f4.len() as int;
    let p8: int = p7 + e.len() as int;
    lemma_field_first_expect(s, 0, "valid"@);
    lemma_at_index(s, p1, b, 0);
    assert(skip_ws(s, p1) == p1);
    lemma_parse_jbool_of_encoding(s, p1, v.valid);
    lemma_field_sep_expect(s, p2, "user_id"@);
    lemma_at_index(s, p3, u, 0);
    assert(skip_ws(s, p3) == p3);
    lemma_parse_jstr_of_encoding(s, p3, v.user_id);
    lemma_field_sep_expect(s, p4, "roles"@);
    lemma_at_index(s, p5, a, 0);
    assert(skip_ws(s, p5) == p5);
    lemma_parse_arr_of_encoding(s, p5, v.roles);
    lemma_field_sep_expect(s, p6, "expires_at"@);
    lemma_at_index(s, p7, e, 0);
    assert(!is_ws(s[p7])) by {
        crate::json::lemma_jint_first_byte(v.expires_at);
    }
    assert(skip_ws(s, p7) == p7);
    lemma_at_index(s, p8, seq![RBRACE], 0);
    assert(!is_digit(s[p8]));
    lemma_parse_jint_of_encoding(s, p7, v.expires_at);
    lemma_expect_nows(s, p8, seq![RBRACE]);
    assert(skip_ws(s, p8 + 1) == s.len());
}

/// Law: decoding the canonical encoding of a validate response yields
/// the same structured value, field for field.
#[verifier::rlimit(100)]
pub proof fn lemma_validate_response_roundtrip(v: ValidateResponseV)
    requires
        -0x8000_0000_0000_0000 <= v.expires_at <= 0x7fff_ffff_ffff_ffff,
    ensures
        parse_validate_response(validate_response_json(v)) == Some(v),
{
    lemma_validate_steps(v);
}

// ---------------------------------------------------------------------------
// REST request bodies
// ---------------------------------------------------------------------------

/// Reads the two members of a login request behind the opening brace:
/// the key `first`, a string, a comma, the key `second`, a string, the
/// closing brace, and nothing but whitespace after it.
pub open spec fn parse_login_fields(s: Seq<u8>, i1: int, first: Seq<char>, second: Seq<char>)
    -> Option<(Seq<char>, Seq<char>)> {
    match expect(s, i1, key_quoted(first)) {
        None => None,
        Some(i2) => match expect(s, i2, seq![COLON]) {
            None => None,
            Some(i3) => match parse_jstr(s, skip_ws(s, i3)) {
                None => None,
                Some((a, i4)) => match expect(s, i4, seq![COMMA]) {
                    None => None,
                    Some(i5) => match expect(s, i5, key_quoted(second)) {
                        None => None,
                        Some(i6) => match expect(s, i6, seq![COLON]) {
                            None => None,
                            Some(i7) => match parse_jstr(s, skip_ws(s, i7)) {
                                None => None,
                                Some((b, i8)) => match expect(s, i8, seq![RBRACE]) {
                                    None => None,
                                    Some(i9) => if skip_ws(s, i9) == s.len() {
                                        Some((a, b))
                                    } else {
                                        None
                                    },
                                },
                            },
                        },
                    },
                },
            },
        },
    }
}

/// Reads a whole REST login request document: an object holding exactly
/// the members "username" and "password", in either order.
pub open spec fn parse_http_login_request(s: Seq<u8>) -> Option<HttpLoginRequestV> {
    match expect(s, 0, seq![LBRACE]) {
        None => None,
        Some(i1) => if expect(s, i1, key_quoted("username"@)) is Some {
            match parse_login_fields(s, i1, "username"@, "password"@) {
                None => None,
                Some((un, pw)) => Some(HttpLoginRequestV { username: un, password: pw }),
            }
        } else {
            match parse_login_fields(s, i1, "password"@, "username"@) {
                None => None,
                Some((pw, un)) => Some(HttpLoginRequestV { username: un, password: pw }),
            }
        },
    }
}

/// Reads two string members behind the opening brace, as
/// `parse_login_fields` says.
fn decode_login_fields(s: &[u8], i1: usize, first: &str, second: &str) -> (r: Option<
    (String, String),
>)
    requires
        i1 <= s.len(),
    ensures
        (r is Some) == (parse_login_fields(s@, i1 as int, first@, second@) is Some),
        r is Some ==> r.unwrap().0@ == parse_login_fields(s@, i1 as int, first@, second@).unwrap().0
            && r.unwrap().1@ == parse_login_fields(s@, i1 as int, first@, second@).unwrap().1,
{
    let i2 = match expect_key(s, i1, first) {
        None => {
            return None;
        },
        Some(x) => x,
    };
    let i3 = match expect_byte(s, i2, COLON) {
        None => {
            return None;
        },
        Some(x) => x,
    };
    let j3 = skip_ws_at(s, i3);
    let (a, i4) = match parse_jstr_at(s, j3) {
        None => {
            return None;
        },
        Some(x) => x,
    };
    let i5 = match expect_byte(s, i4, COMMA) {
        None => {
            return None;
        },
        Some(x) => x,
    };
    let i6 = match expect_key(s, i5, second) {
        None => {
            return None;
        },
        Some(x) => x,
    };
    let i7 = match expect_byte(s, i6, COLON) {
        None => {
            return None;
        },
        Some(x) => x,
    };
    let j7 = skip_ws_at(s, i7);
    let (b, i8) = match parse_jstr_at(s, j7) {
        None => {
            return None;
        },
        Some(x) => x,
    };
    let i9 = match expect_byte(s, i8, RBRACE) {
        None => {
            return None;
        },
        Some(x) => x,
    };
    let end = skip_ws_at(s, i9);
    if end == s.len() {
        Some((a, b))
    } else {
        None
    }
}

/// Decodes a REST login request body, accepting its two members in
/// either order.
pub fn decode_http_login_request(s: &[u8]) -> (r: Option<HttpLoginRequest>)
    ensures
        (r is Some) == (parse_http_login_request(s@) is Some),
        r is Some ==> r.unwrap()@ == parse_http_login_request(s@).unwrap(),
{
    let i1 = match expect_byte(s, 0, LBRACE) {
        None => {
            return None;
        },
        Some(x) => x,
    };
    if expect_key(s, i1, "username").is_some() {
        match decode_login_fields(s, i1, "username", "password") {
            None => None,
            Some((un, pw)) => Some(HttpLoginRequest { username: un, password: pw }),
        }
    } else {
        match decode_login_fields(s, i1, "password", "username") {
            None => None,
            Some((pw, un)) => Some(HttpLoginRequest { username: un, password: pw }),
        }
    }
}

/// Reads a whole REST refresh request document: {"refresh_token":R}.
pub open spec fn parse_http_refresh_request(s: Seq<u8>) -> Option<HttpRefreshRequestV> {
    match expect(s, 0, seq![LBRACE]) {
        None => None,
        Some(i1) => match expect(s, i1, key_quoted("refresh_token"@)) {
            None => None,
            Some(i2) => match expect(s, i2, seq![COLON]) {
                None => None,
                Some(i3) => match parse_jstr(s, skip_ws(s, i3)) {
                    None => None,
                    Some((t, i4)) => match expect(s, i4, seq![RBRACE]) {
                        None => None,
                        Some(i5) => if skip_ws(s, i5) == s.len() {
                            Some(HttpRefreshRequestV { refresh_token: t })
                        } else {
                            None
                        },
                    },
                },
            },
        },
    }
}

/// Decodes a REST refresh request body.
pub fn decode_http_refresh_request(s: &[u8]) -> (r: Option<HttpRefreshRequest>)
    ensures
        (r is Some) == (parse_http_refresh_request(s@) is Some),
        r is Some ==> r.unwrap()@ == parse_http_refresh_request(s@).unwrap(),
{
    let i1 = match expect_byte(s, 0, LBRACE) {
        None => {
            return None;
        },
        Some(x) => x,
    };
    let i2 = match expect_key(s, i1, "refresh_token") {
        None => {
            return None;
        },
        Some(x) => x,
    };
    let i3 = match expect_byte(s, i2, COLON) {
        None => {
            return None;
        },
        Some(x) => x,
    };
    let j3 = skip_ws_at(s, i3);
    let (t, i4) = match parse_jstr_at(s, j3) {
        None => {
            return None;
        },
        Some(x) => x,
    };
    let i5 = match expect_byte(s, i4, RBRACE) {
        None => {
            return None;
        },
        Some(x) => x,
    };
    let end = skip_ws_at(s, i5);
    if end == s.len() {
        Some(HttpRefreshRequest { refresh_token: t })
    } else {
        None
    }
}

/// Law: decoding the canonical encoding of a REST refresh reply yields
/// the same structured value.
#[verifier::rlimit(100)]
pub proof fn lemma_http_refresh_response_roundtrip(v: HttpRefreshResponseV)
    ensures
        parse_http_refresh_response(http_refresh_response_json(v)) == Some(v),
{
    let s = http_refresh_response_json(v);
    let f1 = field_first("access_token"@);
    let a = jstr(v.access_token);
    assert(s =~= f1 + (a + seq![RBRACE]));
    assert(at(s, 0, s)) by {
        assert(s.subrange(0, s.len() as int) =~= s);
    }
    lemma_at_split(s, 0, f1, a + seq![RBRACE]);
    let pa: int = f1.len() as int;
    lemma_at_split(s, pa, a, seq![RBRACE]);
    let pe: int = pa + a.len() as int;
    lemma_field_first_expect(s, 0, "access_token"@);
    lemma_at_index(s, pa, a, 0);
    assert(skip_ws(s, pa) == pa);
    lemma_parse_jstr_of_encoding(s, pa, v.access_token);
    lemma_expect_nows(s, pe, seq![RBRACE]);
    assert(skip_ws(s, pe + 1) == s.len());
}

} // verus!
