//! Log-level selection: the mapping from a configured level name to the
//! level filter, ASCII case-insensitive, defaulting to `Info`.

use vstd::prelude::*;

verus! {

use vstd::utf8::encode_utf8;
use crate::text::bytes_eq;

#[derive(Debug, Clone, Copy, PartialEq, Eq)]
pub enum LogLevel {
    Debug,
    Info,
    Warn,
    Error,
}

/// ASCII lower-casing of one byte.
pub open spec fn lower_byte(b: u8) -> u8 {
    if 65 <= b <= 90 {
        (b + 32) as u8
    } else {
        b
    }
}

pub open spec fn ascii_lower(s: Seq<u8>) -> Seq<u8> {
    s.map_values(|b: u8| lower_byte(b))
}

/// The level named by `s`, compared ASCII case-insensitively; anything
/// unrecognized selects `Info`.
pub open spec fn level_of(s: Seq<char>) -> LogLevel {
    let l = ascii_lower(encode_utf8(s));
    if l == encode_utf8("debug"@) {
        LogLevel::Debug
    } else if l == encode_utf8("info"@) {
        LogLevel::Info
    } else if l == encode_utf8("warn"@) {
        LogLevel::Warn
    } else if l == encode_utf8("error"@) {
        LogLevel::Error
    } else {
        LogLevel::Info
    }
}

fn ascii_lower_bytes(s: &[u8]) -> (r: Vec<u8>)
    ensures
        r@ == ascii_lower(s@),
{
    let mut r: Vec<u8> = Vec::new();
    let mut i: usize = 0;
    while i < s.len()
        invariant
            i <= s@.len(),
            r@ == ascii_lower(s@.subrange(0, i as int)),
        decreases s@.len() - i,
    {
        let b = s[i];
        let l: u8 = if 65 <= b && b <= 90 {
            b + 32
        } else {
            b
        };
        r.push(l);
        proof {
            assert(r@ =~= ascii_lower(s@.subrange(0, i + 1)));
        }
        i = i + 1;
    }
    proof {
        assert(s@.subrange(0, s@.len() as int) =~= s@);
    }
    r
}

/// The level filter for a configured level name, as `level_of` says.
pub fn level_filter_of(log_level: &str) -> (r: LogLevel)
    ensures
        r == level_of(log_level@),
{
    let lowered = ascii_lower_bytes(log_level.as_bytes());
    if bytes_eq(lowered.as_slice(), "debug".as_bytes()) {
        LogLevel::Debug
    } else if bytes_eq(lowered.as_slice(), "info".as_bytes()) {
        LogLevel::Info
    } else if bytes_eq(lowered.as_slice(), "warn".as_bytes()) {
        LogLevel::Warn
    } else if bytes_eq(lowered.as_slice(), "error".as_bytes()) {
        LogLevel::Error
    } else {
        LogLevel::Info
    }
}

} // verus!
