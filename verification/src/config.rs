//! Typed configuration of the gateway process: the raw shape read from a
//! settings file, the resolved application configuration, and the
//! validated socket-address form that resolution enforces.

use vstd::prelude::*;

verus! {

use vstd::utf8::encode_utf8;
use crate::errors::GatewayError;
use crate::json::{is_digit, digits_end, digits_val, hex_val, hex_val_byte, ZERO, COLON, LBRACK,
    RBRACK, pow10, lemma_digits_end_bounds, lemma_pow10_mono};

pub const DOT: u8 = 46;

pub const PERCENT: u8 = 37;

// ---------------------------------------------------------------------------
// Raw and resolved shapes
// ---------------------------------------------------------------------------

/// The server table of the settings file, as read.
#[derive(Debug, Clone, PartialEq, Eq)]
pub struct RawServerConfig {
    pub name: String,
    /// Absent means the default level, `info`.
    pub log_level: Option<String>,
    /// A socket address string, validated at resolution.
    pub address: String,
}

/// The auth-service table of the settings file.
#[derive(Debug, Clone, PartialEq, Eq)]
pub struct RawAuthServiceConfig {
    pub address: String,
}

/// The TLS table of the settings file; absent paths mean a development
/// certificate is generated in-process.
#[derive(Debug, Clone, PartialEq, Eq)]
pub struct RawTlsConfig {
    pub cert_path: Option<String>,
    pub key_path: Option<String>,
}

/// The whole settings file, as read.
#[derive(Debug, Clone, PartialEq, Eq)]
pub struct RawConfig {
    pub server: RawServerConfig,
    pub tls: Option<RawTlsConfig>,
    pub auth_service: Option<RawAuthServiceConfig>,
}

/// A validated IP address: a dotted quad, or the eight groups of an
/// IPv6 address (always exactly eight) with its scope identifier.
#[derive(Debug, Clone, PartialEq, Eq)]
pub enum IpAddress {
    V4([u8; 4]),
    V6 { segments: Vec<u16>, scope_id: u32 },
}

/// A validated socket address.
#[derive(Debug, Clone, PartialEq, Eq)]
pub struct ServerAddress {
    pub ip: IpAddress,
    pub port: u16,
}

pub ghost enum IpAddressV {
    V4(Seq<u8>),
    V6 { segments: Seq<u16>, scope_id: u32 },
}

pub ghost struct ServerAddressV {
    pub ip: IpAddressV,
    pub port: u16,
}

impl View for IpAddress {
    type V = IpAddressV;

    open spec fn view(&self) -> IpAddressV {
        match self {
            IpAddress::V4(octets) => IpAddressV::V4(octets@),
            IpAddress::V6 { segments, scope_id } => IpAddressV::V6 {
                segments: segments@,
                scope_id: *scope_id,
            },
        }
    }
}

impl View for ServerAddress {
    type V = ServerAddressV;

    open spec fn view(&self) -> ServerAddressV {
        ServerAddressV { ip: self.ip@, port: self.port }
    }
}

/// The resolved configuration the supervisor runs on.
#[derive(Debug, Clone, PartialEq, Eq)]
pub struct AppConfig {
    pub address: ServerAddress,
    pub service_name: String,
    pub log_level: String,
    pub tls_cert_path: Option<String>,
    pub tls_key_path: Option<String>,
    pub auth_service_address: Option<String>,
}

// ---------------------------------------------------------------------------
// Address grammar. Dotted quads have four octets of one to three digits
// without leading zeros, up to 255 each. IPv6 hosts stand in brackets:
// hexadecimal groups of up to four digits, a `::` shorthand for the
// missing zero groups, an optional trailing dotted quad worth two
// groups, and an optional decimal `%scope`. Ports have up to five
// digits; ports and scopes allow leading zeros.
// ---------------------------------------------------------------------------

/// Reads one decimal component at `i`: no leading zero, at most
/// `max_len` digits, value at most `max_val`.
pub open spec fn parse_dec_component(s: Seq<u8>, i: int, max_len: int, max_val: nat) -> Option<
    (nat, int),
> {
    if 0 <= i < s.len() && is_digit(s[i]) {
        let j = digits_end(s, i);
        if s[i] == ZERO && j != i + 1 {
            None
        } else if j - i > max_len {
            None
        } else if digits_val(s, i, j) > max_val {
            None
        } else {
            Some((digits_val(s, i, j), j))
        }
    } else {
        None
    }
}

/// Reads a dotted quad at `i`: four octets separated by dots.
pub open spec fn parse_quad(s: Seq<u8>, i: int) -> Option<((u8, u8, u8, u8), int)> {
    match parse_dec_component(s, i, 3, 255) {
        None => None,
        Some((o0, i1)) => if i1 < s.len() && s[i1] == DOT {
            match parse_dec_component(s, i1 + 1, 3, 255) {
                None => None,
                Some((o1, i2)) => if i2 < s.len() && s[i2] == DOT {
                    match parse_dec_component(s, i2 + 1, 3, 255) {
                        None => None,
                        Some((o2, i3)) => if i3 < s.len() && s[i3] == DOT {
                            match parse_dec_component(s, i3 + 1, 3, 255) {
                                None => None,
                                Some((o3, i4)) => Some(
                                    ((o0 as u8, o1 as u8, o2 as u8, o3 as u8), i4),
                                ),
                            }
                        } else {
                            None
                        },
                    }
                } else {
                    None
                },
            }
        } else {
            None
        },
    }
}

/// Reads a port number at `i`: one to five digits, leading zeros
/// allowed, value at most 65535.
pub open spec fn parse_port_num(s: Seq<u8>, i: int) -> Option<(nat, int)> {
    if 0 <= i < s.len() && is_digit(s[i]) {
        let j = digits_end(s, i);
        if j - i > 5 {
            None
        } else if digits_val(s, i, j) > 65535 {
            None
        } else {
            Some((digits_val(s, i, j), j))
        }
    } else {
        None
    }
}

/// Reads a scope identifier at `i`: decimal digits of any count whose
/// value fits in 32 bits.
pub open spec fn parse_scope_num(s: Seq<u8>, i: int) -> Option<(nat, int)> {
    if 0 <= i < s.len() && is_digit(s[i]) {
        let j = digits_end(s, i);
        if digits_val(s, i, j) > 0xffff_ffff {
            None
        } else {
            Some((digits_val(s, i, j), j))
        }
    } else {
        None
    }
}

pub open spec fn is_hex_digit(b: u8) -> bool {
    hex_val(b) is Some
}

/// Index of the first non-hex-digit byte at or after `i`.
pub open spec fn hex_end(s: Seq<u8>, i: int) -> int
    decreases s.len() - i,
{
    if 0 <= i < s.len() && is_hex_digit(s[i]) {
        hex_end(s, i + 1)
    } else {
        i
    }
}

/// Value of the hexadecimal run `s[i..j]`.
pub open spec fn hex_run_val(s: Seq<u8>, i: int, j: int) -> nat
    decreases j - i,
{
    if i >= j {
        0
    } else {
        hex_run_val(s, i, j - 1) * 16 + hex_val(s[j - 1]).unwrap() as nat
    }
}

pub open spec fn pow16(k: nat) -> nat
    decreases k,
{
    if k == 0 {
        1
    } else {
        16 * pow16((k - 1) as nat)
    }
}

/// Reads one group of an IPv6 address at `i`: up to four hexadecimal
/// digits are taken, leading zeros allowed.
pub open spec fn parse_hex_group(s: Seq<u8>, i: int) -> Option<(nat, int)> {
    if 0 <= i < s.len() && is_hex_digit(s[i]) {
        let e = hex_end(s, i);
        let j = if e > i + 4 {
            i + 4
        } else {
            e
        };
        Some((hex_run_val(s, i, j), j))
    } else {
        None
    }
}

/// Reads as many colon-separated groups as stand at `i` (no separator
/// before the first when `acc` is empty), at most `limit` in all; a
/// dotted quad counts as two groups and ends the run. Returns the
/// groups, the next index, and whether a quad ended the run.
pub open spec fn parse_groups(s: Seq<u8>, i: int, acc: Seq<u16>, limit: int) -> (
    Seq<u16>,
    int,
    bool,
)
    decreases limit - acc.len(),
{
    if acc.len() >= limit {
        (acc, i, false)
    } else if acc.len() > 0 && !(0 <= i < s.len() && s[i] == COLON) {
        (acc, i, false)
    } else {
        let g = if acc.len() == 0 {
            i
        } else {
            i + 1
        };
        if limit - acc.len() >= 2 && parse_quad(s, g) is Some {
            let ((o0, o1, o2, o3), j) = parse_quad(s, g).unwrap();
            (
                acc + seq![
                    ((o0 as nat) * 256 + o1 as nat) as u16,
                    ((o2 as nat) * 256 + o3 as nat) as u16,
                ],
                j,
                true,
            )
        } else {
            match parse_hex_group(s, g) {
                None => (acc, i, false),
                Some((v, j)) => parse_groups(s, j, acc.push(v as u16), limit),
            }
        }
    }
}

/// Reads the eight groups of an IPv6 address at `i`: either eight in
/// full, or a `::` shorthand standing for at least one zero group. A
/// quad may only end the run.
pub open spec fn parse_ipv6(s: Seq<u8>, i: int) -> Option<(Seq<u16>, int)> {
    let (head, j, head_quad) = parse_groups(s, i, Seq::empty(), 8);
    if head.len() == 8 {
        Some((head, j))
    } else if head_quad {
        None
    } else if 0 <= j && j + 2 <= s.len() && s[j] == COLON && s[j + 1] == COLON {
        let (tail, k, _tail_quad) = parse_groups(s, j + 2, Seq::empty(), 8 - head.len() - 1);
        Some((head + Seq::new((8 - head.len() - tail.len()) as nat, |q: int| 0u16) + tail, k))
    } else {
        None
    }
}

/// Reads the closing bracket, the colon and the port behind an IPv6
/// host, and requires the input to end there.
pub open spec fn finish_v6(s: Seq<u8>, segments: Seq<u16>, scope_id: nat, i: int) -> Option<
    ServerAddressV,
> {
    if 0 <= i < s.len() && s[i] == RBRACK && i + 1 < s.len() && s[i + 1] == COLON {
        match parse_port_num(s, i + 2) {
            None => None,
            Some((p, j)) => if j == s.len() {
                Some(
                    ServerAddressV {
                        ip: IpAddressV::V6 { segments, scope_id: scope_id as u32 },
                        port: p as u16,
                    },
                )
            } else {
                None
            },
        }
    } else {
        None
    }
}

/// Reads a whole socket address: `o.o.o.o:port`, or `[ipv6]:port` with
/// an optional `%scope` before the closing bracket.
pub open spec fn parse_server_address(s: Seq<u8>) -> Option<ServerAddressV> {
    if s.len() > 0 && s[0] == LBRACK {
        match parse_ipv6(s, 1) {
            None => None,
            Some((segments, i)) => if 0 <= i < s.len() && s[i] == PERCENT {
                match parse_scope_num(s, i + 1) {
                    None => None,
                    Some((sc, i2)) => finish_v6(s, segments, sc, i2),
                }
            } else {
                finish_v6(s, segments, 0, i)
            },
        }
    } else {
        match parse_quad(s, 0) {
            None => None,
            Some(((o0, o1, o2, o3), i)) => if i < s.len() && s[i] == COLON {
                match parse_port_num(s, i + 1) {
                    None => None,
                    Some((p, j)) => if j == s.len() {
                        Some(
                            ServerAddressV {
                                ip: IpAddressV::V4(seq![o0, o1, o2, o3]),
                                port: p as u16,
                            },
                        )
                    } else {
                        None
                    },
                }
            } else {
                None
            },
        }
    }
}

// ---------------------------------------------------------------------------
// Grammar lemmas
// ---------------------------------------------------------------------------

pub proof fn lemma_pow16_mono(a: nat, b: nat)
    requires
        a <= b,
    ensures
        pow16(a) <= pow16(b),
    decreases b,
{
    if a < b {
        lemma_pow16_mono(a, (b - 1) as nat);
    }
}

pub proof fn lemma_hex_end_bounds(s: Seq<u8>, i: int)
    requires
        0 <= i <= s.len(),
    ensures
        i <= hex_end(s, i) <= s.len(),
        forall|k: int| i <= k < hex_end(s, i) ==> is_hex_digit(#[trigger] s[k]),
        hex_end(s, i) == s.len() || !is_hex_digit(s[hex_end(s, i)]),
    decreases s.len() - i,
{
    if i < s.len() && is_hex_digit(s[i]) {
        lemma_hex_end_bounds(s, i + 1);
    }
}

/// A run of `0` digits denotes zero.
pub proof fn lemma_digits_val_zeros(s: Seq<u8>, i: int, j: int)
    requires
        i <= j,
        forall|k: int| i <= k < j ==> #[trigger] s[k] == ZERO,
    ensures
        digits_val(s, i, j) == 0,
    decreases j - i,
{
    if i < j {
        lemma_digits_val_zeros(s, i, j - 1);
    }
}

/// Leading `0` digits do not change a run's value.
pub proof fn lemma_digits_val_strip_zeros(s: Seq<u8>, i: int, z: int, j: int)
    requires
        i <= z <= j,
        forall|k: int| i <= k < z ==> #[trigger] s[k] == ZERO,
    ensures
        digits_val(s, i, j) == digits_val(s, z, j),
    decreases j - z,
{
    if j == z {
        lemma_digits_val_zeros(s, i, z);
    } else {
        lemma_digits_val_strip_zeros(s, i, z, j - 1);
    }
}

/// A run led by a non-zero digit is at least the power of ten of its
/// remaining length.
pub proof fn lemma_digits_val_lower(s: Seq<u8>, z: int, j: int)
    requires
        0 <= z < j <= s.len(),
        forall|k: int| z <= k < j ==> is_digit(#[trigger] s[k]),
        s[z] != ZERO,
    ensures
        digits_val(s, z, j) >= pow10((j - z - 1) as nat),
    decreases j - z,
{
    if j == z + 1 {
    } else {
        lemma_digits_val_lower(s, z, j - 1);
    }
}

// ---------------------------------------------------------------------------
// The address parser
// ---------------------------------------------------------------------------

/// Reads one decimal component, as `parse_dec_component` says.
fn dec_component_at(s: &[u8], i: usize, max_len: usize, max_val: u32) -> (r: Option<(u32, usize)>)
    requires
        i <= s.len(),
        max_len <= 5,
    ensures
        (r is Some) == (parse_dec_component(s@, i as int, max_len as int, max_val as nat)
            is Some),
        r is Some ==> r.unwrap().0 == parse_dec_component(
            s@,
            i as int,
            max_len as int,
            max_val as nat,
        ).unwrap().0 && r.unwrap().1 == parse_dec_component(
            s@,
            i as int,
            max_len as int,
            max_val as nat,
        ).unwrap().1 && i < r.unwrap().1 <= s@.len(),
{
    if i >= s.len() {
        return None;
    }
    if !(48 <= s[i] && s[i] <= 57) {
        return None;
    }
    proof {
        lemma_digits_end_bounds(s@, i as int);
    }
    let mut j = i;
    while j < s.len() && 48 <= s[j] && s[j] <= 57
        invariant
            i <= j <= s@.len(),
            digits_end(s@, i as int) == digits_end(s@, j as int),
        decreases s@.len() - j,
    {
        j = j + 1;
    }
    proof {
        assert(j == digits_end(s@, i as int));
    }
    if s[i] == ZERO && j != i + 1 {
        return None;
    }
    if j - i > max_len {
        return None;
    }
    proof {
        reveal_with_fuel(pow10, 7);
    }
    let mut acc: u32 = 0;
    let mut k = i;
    while k < j
        invariant
            i <= k <= j <= s@.len(),
            j - i <= 5,
            forall|m: int| i <= m < j ==> is_digit(s@[m]),
            acc == digits_val(s@, i as int, k as int),
            acc < pow10((k - i) as nat),
            pow10(5) == 100_000,
        decreases j - k,
    {
        proof {
            lemma_pow10_mono((k - i + 1) as nat, 5);
        }
        acc = acc * 10 + (s[k] - 48) as u32;
        k = k + 1;
    }
    if acc > max_val {
        return None;
    }
    Some((acc, j))
}

/// Reads a dotted quad, as `parse_quad` says.
fn quad_at(s: &[u8], i: usize) -> (r: Option<((u8, u8, u8, u8), usize)>)
    requires
        i <= s.len(),
    ensures
        (r is Some) == (parse_quad(s@, i as int) is Some),
        r is Some ==> r.unwrap().0 == parse_quad(s@, i as int).unwrap().0 && r.unwrap().1
            == parse_quad(s@, i as int).unwrap().1 && i < r.unwrap().1 <= s@.len(),
{
    let (o0, i1) = match dec_component_at(s, i, 3, 255) {
        None => {
            return None;
        },
        Some(x) => x,
    };
    if !(i1 < s.len() && s[i1] == DOT) {
        return None;
    }
    let (o1, i2) = match dec_component_at(s, i1 + 1, 3, 255) {
        None => {
            return None;
        },
        Some(x) => x,
    };
    if !(i2 < s.len() && s[i2] == DOT) {
        return None;
    }
    let (o2, i3) = match dec_component_at(s, i2 + 1, 3, 255) {
        None => {
            return None;
        },
        Some(x) => x,
    };
    if !(i3 < s.len() && s[i3] == DOT) {
        return None;
    }
    let (o3, i4) = match dec_component_at(s, i3 + 1, 3, 255) {
        None => {
            return None;
        },
        Some(x) => x,
    };
    Some(((o0 as u8, o1 as u8, o2 as u8, o3 as u8), i4))
}

/// Reads a port number, as `parse_port_num` says.
fn port_at(s: &[u8], i: usize) -> (r: Option<(u16, usize)>)
    requires
        i <= s.len(),
    ensures
        (r is Some) == (parse_port_num(s@, i as int) is Some),
        r is Some ==> r.unwrap().0 == parse_port_num(s@, i as int).unwrap().0 && r.unwrap().1
            == parse_port_num(s@, i as int).unwrap().1 && i < r.unwrap().1 <= s@.len(),
{
    if i >= s.len() {
        return None;
    }
    if !(48 <= s[i] && s[i] <= 57) {
        return None;
    }
    proof {
        lemma_digits_end_bounds(s@, i as int);
    }
    let mut j = i;
    while j < s.len() && 48 <= s[j] && s[j] <= 57
        invariant
            i <= j <= s@.len(),
            digits_end(s@, i as int) == digits_end(s@, j as int),
        decreases s@.len() - j,
    {
        j = j + 1;
    }
    proof {
        assert(j == digits_end(s@, i as int));
    }
    if j - i > 5 {
        return None;
    }
    proof {
        reveal_with_fuel(pow10, 7);
    }
    let mut acc: u32 = 0;
    let mut k = i;
    while k < j
        invariant
            i <= k <= j <= s@.len(),
            j - i <= 5,
            forall|m: int| i <= m < j ==> is_digit(s@[m]),
            acc == digits_val(s@, i as int, k as int),
            acc < pow10((k - i) as nat),
            pow10(5) == 100_000,
        decreases j - k,
    {
        proof {
            lemma_pow10_mono((k - i + 1) as nat, 5);
        }
        acc = acc * 10 + (s[k] - 48) as u32;
        k = k + 1;
    }
    if acc > 65535 {
        return None;
    }
    Some((acc as u16, j))
}

/// Reads a scope identifier, as `parse_scope_num` says.
fn scope_at(s: &[u8], i: usize) -> (r: Option<(u32, usize)>)
    requires
        i <= s.len(),
    ensures
        (r is Some) == (parse_scope_num(s@, i as int) is Some),
        r is Some ==> r.unwrap().0 == parse_scope_num(s@, i as int).unwrap().0 && r.unwrap().1
            == parse_scope_num(s@, i as int).unwrap().1 && i < r.unwrap().1 <= s@.len(),
{
    if i >= s.len() {
        return None;
    }
    if !(48 <= s[i] && s[i] <= 57) {
        return None;
    }
    proof {
        lemma_digits_end_bounds(s@, i as int);
    }
    let mut j = i;
    while j < s.len() && 48 <= s[j] && s[j] <= 57
        invariant
            i <= j <= s@.len(),
            digits_end(s@, i as int) == digits_end(s@, j as int),
        decreases s@.len() - j,
    {
        j = j + 1;
    }
    proof {
        assert(j == digits_end(s@, i as int));
    }
    // Skip leading zeros; they do not change the value.
    let mut z = i;
    while z < j && s[z] == 48
        invariant
            i <= z <= j <= s@.len(),
            forall|m: int| i <= m < z ==> #[trigger] s@[m] == ZERO,
        decreases j - z,
    {
        z = z + 1;
    }
    proof {
        lemma_digits_val_strip_zeros(s@, i as int, z as int, j as int);
        reveal_with_fuel(pow10, 12);
    }
    if j - z > 10 {
        proof {
            lemma_digits_val_lower(s@, z as int, j as int);
            lemma_pow10_mono(10, (j - z - 1) as nat);
        }
        return None;
    }
    let mut acc: u64 = 0;
    let mut k = z;
    while k < j
        invariant
            z <= k <= j <= s@.len(),
            j - z <= 10,
            forall|m: int| z <= m < j ==> is_digit(s@[m]),
            acc == digits_val(s@, z as int, k as int),
            acc < pow10((k - z) as nat),
            pow10(10) == 10_000_000_000,
        decreases j - k,
    {
        proof {
            lemma_pow10_mono((k - z + 1) as nat, 10);
        }
        acc = acc * 10 + (s[k] - 48) as u64;
        k = k + 1;
    }
    if acc > 0xffff_ffff {
        return None;
    }
    Some((acc as u32, j))
}

/// Reads one IPv6 group, as `parse_hex_group` says.
fn hex_group_at(s: &[u8], i: usize) -> (r: Option<(u16, usize)>)
    requires
        i <= s.len(),
    ensures
        (r is Some) == (parse_hex_group(s@, i as int) is Some),
        r is Some ==> r.unwrap().0 == parse_hex_group(s@, i as int).unwrap().0 && r.unwrap().1
            == parse_hex_group(s@, i as int).unwrap().1 && i < r.unwrap().1 <= s@.len(),
{
    if i >= s.len() {
        return None;
    }
    if hex_val_byte(s[i]).is_none() {
        return None;
    }
    proof {
        lemma_hex_end_bounds(s@, i as int);
        reveal_with_fuel(pow16, 6);
    }
    let mut j = i;
    let mut acc: u32 = 0;
    while j < s.len() && j - i < 4 && hex_val_byte(s[j]).is_some()
        invariant
            i <= j <= s@.len(),
            j - i <= 4,
            hex_end(s@, i as int) == hex_end(s@, j as int),
            forall|m: int| i <= m < j ==> is_hex_digit(s@[m]),
            acc == hex_run_val(s@, i as int, j as int),
            acc < pow16((j - i) as nat),
            pow16(4) == 65536,
        decreases s@.len() - j,
    {
        let d = match hex_val_byte(s[j]) {
            Some(d) => d,
            None => {
                return None;
            },
        };
        proof {
            lemma_pow16_mono((j - i + 1) as nat, 4);
        }
        acc = acc * 16 + d as u32;
        j = j + 1;
    }
    proof {
        let e = hex_end(s@, i as int);
        if j - i == 4 {
            assert(e >= j);
        } else {
            assert(e == j);
        }
    }
    Some((acc as u16, j))
}

/// Reads a run of groups, as `parse_groups` says.
fn groups_at(s: &[u8], i: usize, acc: Vec<u16>, limit: usize) -> (r: (Vec<u16>, usize, bool))
    requires
        i <= s.len(),
        acc@.len() <= limit,
        limit <= 8,
    ensures
        ({
            let (gs, j, quad) = parse_groups(s@, i as int, acc@, limit as int);
            &&& r.0@ == gs
            &&& r.1 == j
            &&& r.2 == quad
            &&& r.1 <= s@.len()
            &&& acc@.len() <= r.0@.len() <= limit
        }),
    decreases limit - acc@.len(),
{
    if acc.len() >= limit {
        return (acc, i, false);
    }
    if acc.len() > 0 && !(i < s.len() && s[i] == COLON) {
        return (acc, i, false);
    }
    let g = if acc.len() == 0 {
        i
    } else {
        i + 1
    };
    if limit - acc.len() >= 2 {
        if let Some(((o0, o1, o2, o3), j)) = quad_at(s, g) {
            let ghost acc0 = acc@;
            let mut acc2 = acc;
            acc2.push((o0 as u16) * 256 + (o1 as u16));
            acc2.push((o2 as u16) * 256 + (o3 as u16));
            proof {
                assert(acc2@ =~= acc0 + seq![
                    ((o0 as nat) * 256 + o1 as nat) as u16,
                    ((o2 as nat) * 256 + o3 as nat) as u16,
                ]);
            }
            return (acc2, j, true);
        }
    }
    match hex_group_at(s, g) {
        None => (acc, i, false),
        Some((v, j)) => {
            let mut acc2 = acc;
            acc2.push(v);
            groups_at(s, j, acc2, limit)
        },
    }
}

/// Reads an IPv6 host, as `parse_ipv6` says; the result always holds
/// exactly eight groups.
fn ipv6_at(s: &[u8], i: usize) -> (r: Option<(Vec<u16>, usize)>)
    requires
        i <= s.len(),
    ensures
        (r is Some) == (parse_ipv6(s@, i as int) is Some),
        r is Some ==> r.unwrap().0@ == parse_ipv6(s@, i as int).unwrap().0 && r.unwrap().1
            == parse_ipv6(s@, i as int).unwrap().1 && r.unwrap().1 <= s@.len()
            && r.unwrap().0@.len() == 8,
{
    let empty_head: Vec<u16> = Vec::new();
    let (head, j, head_quad) = groups_at(s, i, empty_head, 8);
    let ghost head0 = head@;
    if head.len() == 8 {
        return Some((head, j));
    }
    if head_quad {
        return None;
    }
    if !(s.len() - j >= 2 && s[j] == COLON && s[j + 1] == COLON) {
        return None;
    }
    let limit2 = 8 - head.len() - 1;
    let empty_tail: Vec<u16> = Vec::new();
    let (tail, k, _tail_quad) = groups_at(s, j + 2, empty_tail, limit2);
    let ghost tail0 = tail@;
    let zeros = 8 - head.len() - tail.len();
    let mut segments = head;
    let mut z: usize = 0;
    while z < zeros
        invariant
            z <= zeros,
            segments@ == head0 + Seq::new(z as nat, |q: int| 0u16),
        decreases zeros - z,
    {
        segments.push(0);
        proof {
            assert(segments@ =~= head0 + Seq::new((z + 1) as nat, |q: int| 0u16));
        }
        z = z + 1;
    }
    let mut t: usize = 0;
    while t < tail.len()
        invariant
            t <= tail0.len(),
            tail@ == tail0,
            segments@ == head0 + Seq::new(zeros as nat, |q: int| 0u16) + tail0.subrange(
                0,
                t as int,
            ),
        decreases tail0.len() - t,
    {
        let v = tail[t];
        segments.push(v);
        proof {
            assert(segments@ =~= head0 + Seq::new(zeros as nat, |q: int| 0u16) + tail0.subrange(
                0,
                t + 1,
            ));
        }
        t = t + 1;
    }
    proof {
        assert(tail0.subrange(0, tail0.len() as int) =~= tail0);
    }
    Some((segments, k))
}

/// Parses and validates a socket address, as the address grammar says:
/// a dotted quad or a bracketed IPv6 host, a colon, and the port.
pub fn parse_address(s: &str) -> (r: Option<ServerAddress>)
    ensures
        (r is Some) == (parse_server_address(encode_utf8(s@)) is Some),
        r is Some ==> r.unwrap()@ == parse_server_address(encode_utf8(s@)).unwrap(),
{
    let b = s.as_bytes();
    if b.len() > 0 && b[0] == LBRACK {
        let (segments, i) = match ipv6_at(b, 1) {
            None => {
                return None;
            },
            Some(x) => x,
        };
        let (scope_id, i2) = if i < b.len() && b[i] == PERCENT {
            match scope_at(b, i + 1) {
                None => {
                    return None;
                },
                Some(x) => x,
            }
        } else {
            (0u32, i)
        };
        if !(i2 < b.len() && b[i2] == RBRACK) {
            return None;
        }
        if !(i2 + 1 < b.len() && b[i2 + 1] == COLON) {
            return None;
        }
        let (port, j) = match port_at(b, i2 + 2) {
            None => {
                return None;
            },
            Some(x) => x,
        };
        if j != b.len() {
            return None;
        }
        Some(ServerAddress { ip: IpAddress::V6 { segments, scope_id }, port })
    } else {
        let ((o0, o1, o2, o3), i) = match quad_at(b, 0) {
            None => {
                return None;
            },
            Some(x) => x,
        };
        if !(i < b.len() && b[i] == COLON) {
            return None;
        }
        let (port, j) = match port_at(b, i + 1) {
            None => {
                return None;
            },
            Some(x) => x,
        };
        if j != b.len() {
            return None;
        }
        let ip: [u8; 4] = [o0, o1, o2, o3];
        proof {
            assert(ip@ =~= seq![o0, o1, o2, o3]);
        }
        Some(ServerAddress { ip: IpAddress::V4(ip), port })
    }
}

// ---------------------------------------------------------------------------
// Resolution
// ---------------------------------------------------------------------------

/// The upstream address used when the settings file names none.
pub fn default_auth_address() -> (r: String)
    ensures
        r@ == "http://127.0.0.1:50056"@,
{
    String::from_str("http://127.0.0.1:50056")
}

/// Resolves a raw settings file into the application configuration: the
/// server address must parse, an absent log level defaults to `info`,
/// every other field is carried over, and a malformed address fails
/// resolution.
pub fn resolve_config(raw: RawConfig) -> (r: Result<AppConfig, GatewayError>)
    ensures
        (r is Ok) == (parse_server_address(encode_utf8(raw.server.address@)) is Some),
        r matches Ok(c) ==> c.address@ == parse_server_address(
            encode_utf8(raw.server.address@),
        ).unwrap() && c.service_name@ == raw.server.name@ && (match raw.server.log_level {
            Some(l) => c.log_level@ == l@,
            None => c.log_level@ == "info"@,
        }) && c.tls_cert_path == (match raw.tls {
            Some(t) => t.cert_path,
            None => None::<String>,
        }) && c.tls_key_path == (match raw.tls {
            Some(t) => t.key_path,
            None => None::<String>,
        }) && c.auth_service_address == (match raw.auth_service {
            Some(a) => Some(a.address),
            None => None::<String>,
        }),
        r matches Err(e) ==> e matches GatewayError::ConfigError(m) && m@ == "invalid server address: "@
            + raw.server.address@,
{
    let address = match parse_address(raw.server.address.as_str()) {
        Some(a) => a,
        None => {
            let mut m = String::from_str("invalid server address: ");
            m.append(raw.server.address.as_str());
            return Err(GatewayError::ConfigError(m));
        },
    };
    let log_level = match raw.server.log_level {
        Some(l) => l,
        None => String::from_str("info"),
    };
    let (tls_cert_path, tls_key_path) = match raw.tls {
        Some(t) => (t.cert_path, t.key_path),
        None => (None, None),
    };
    let auth_service_address = match raw.auth_service {
        Some(a) => Some(a.address),
        None => None,
    };
    Ok(
        AppConfig {
            address,
            service_name: raw.server.name,
            log_level,
            tls_cert_path,
            tls_key_path,
            auth_service_address,
        },
    )
}

} // verus!
