//! A JSON subset codec over bytes, sufficient for the gateway's wire
//! shapes: objects with a fixed member order whose values are strings,
//! 64-bit integers, booleans and arrays of strings.
//!
//! The encoder produces the canonical compact form (no interstitial
//! whitespace, members in schema order, minimal escapes). The decoder
//! additionally accepts whitespace between tokens and the standard
//! short escapes, and rejects everything else.

use vstd::prelude::*;

verus! {

use vstd::utf8::{valid_utf8, decode_utf8, encode_utf8};

pub const QUOTE: u8 = 34;

pub const BSLASH: u8 = 92;

pub const SLASH: u8 = 47;

pub const LBRACE: u8 = 123;

pub const RBRACE: u8 = 125;

pub const LBRACK: u8 = 91;

pub const RBRACK: u8 = 93;

pub const COLON: u8 = 58;

pub const COMMA: u8 = 44;

pub const MINUS: u8 = 45;

pub const ZERO: u8 = 48;

pub const LOWER_U: u8 = 117;

// ---------------------------------------------------------------------------
// Printer: the canonical byte form of each kind of value
// ---------------------------------------------------------------------------

/// Lower-case hexadecimal digit for `n < 16`.
pub open spec fn hex_digit(n: u8) -> u8 {
    if n < 10 {
        (48 + n) as u8
    } else {
        (87 + n) as u8
    }
}

/// The escape of one content byte inside a JSON string literal: quote and
/// backslash get a two-byte escape, control bytes a `\u00XX` escape, and
/// every other byte stands for itself.
pub open spec fn esc_byte(b: u8) -> Seq<u8> {
    if b == QUOTE {
        seq![BSLASH, QUOTE]
    } else if b == BSLASH {
        seq![BSLASH, BSLASH]
    } else if b < 32 {
        seq![BSLASH, LOWER_U, ZERO, ZERO, hex_digit(b / 16), hex_digit(b % 16)]
    } else {
        seq![b]
    }
}

pub open spec fn esc_bytes(s: Seq<u8>) -> Seq<u8>
    decreases s.len(),
{
    if s.len() == 0 {
        Seq::empty()
    } else {
        esc_byte(s[0]) + esc_bytes(s.drop_first())
    }
}

/// A JSON string literal holding the UTF-8 encoding of `s`.
pub open spec fn jstr(s: Seq<char>) -> Seq<u8> {
    seq![QUOTE] + esc_bytes(encode_utf8(s)) + seq![QUOTE]
}

/// An object key, quoted verbatim; keys of the gateway's schemas never
/// need escaping.
pub open spec fn key_quoted(k: Seq<char>) -> Seq<u8> {
    seq![QUOTE] + encode_utf8(k) + seq![QUOTE]
}

/// Canonical decimal digits of `n`, most significant first.
pub open spec fn dec_digits(n: nat) -> Seq<u8>
    decreases n,
{
    if n < 10 {
        seq![(48 + n) as u8]
    } else {
        dec_digits(n / 10) + seq![(48 + n % 10) as u8]
    }
}

/// Canonical decimal form of a (possibly negative) integer.
pub open spec fn jint(v: int) -> Seq<u8> {
    if v < 0 {
        seq![MINUS] + dec_digits((-v) as nat)
    } else {
        dec_digits(v as nat)
    }
}

pub open spec fn jbool(b: bool) -> Seq<u8> {
    if b {
        seq![116u8, 114u8, 117u8, 101u8]
    } else {
        seq![102u8, 97u8, 108u8, 115u8, 101u8]
    }
}

/// The members of a string array, head first, comma separated.
pub open spec fn arr_items(es: Seq<Seq<char>>) -> Seq<u8>
    decreases es.len(),
{
    if es.len() == 0 {
        Seq::empty()
    } else if es.len() == 1 {
        jstr(es[0])
    } else {
        jstr(es[0]) + seq![COMMA] + arr_items(es.drop_first())
    }
}

/// A JSON array of string literals.
pub open spec fn jstr_arr(es: Seq<Seq<char>>) -> Seq<u8> {
    seq![LBRACK] + arr_items(es) + seq![RBRACK]
}

// ---------------------------------------------------------------------------
// Parser: a recursive-descent reading of the same forms
// ---------------------------------------------------------------------------

pub open spec fn is_ws(b: u8) -> bool {
    b == 32 || b == 9 || b == 10 || b == 13
}

pub open spec fn is_digit(b: u8) -> bool {
    48 <= b <= 57
}

/// Index of the first non-whitespace byte at or after `i`.
pub open spec fn skip_ws(s: Seq<u8>, i: int) -> int
    decreases s.len() - i,
{
    if 0 <= i < s.len() && is_ws(s[i]) {
        skip_ws(s, i + 1)
    } else {
        i
    }
}

/// True when `tok` stands verbatim at index `i` of `s`.
pub open spec fn at(s: Seq<u8>, i: int, tok: Seq<u8>) -> bool {
    0 <= i && i + tok.len() <= s.len() && s.subrange(i, i + tok.len()) == tok
}

/// Consumes `tok` at `i`, after optional whitespace.
pub open spec fn expect(s: Seq<u8>, i: int, tok: Seq<u8>) -> Option<int> {
    let j = skip_ws(s, i);
    if at(s, j, tok) {
        Some(j + tok.len() as int)
    } else {
        None
    }
}

/// The byte denoted by a single-character escape, if the character is one.
pub open spec fn unescape_short(b: u8) -> Option<u8> {
    if b == QUOTE {
        Some(QUOTE)
    } else if b == BSLASH {
        Some(BSLASH)
    } else if b == SLASH {
        Some(SLASH)
    } else if b == 98 {
        Some(8u8)
    } else if b == 102 {
        Some(12u8)
    } else if b == 110 {
        Some(10u8)
    } else if b == 114 {
        Some(13u8)
    } else if b == 116 {
        Some(9u8)
    } else {
        None
    }
}

pub open spec fn hex_val(b: u8) -> Option<u8> {
    if 48 <= b <= 57 {
        Some((b - 48) as u8)
    } else if 97 <= b <= 102 {
        Some((b - 87) as u8)
    } else if 65 <= b <= 70 {
        Some((b - 55) as u8)
    } else {
        None
    }
}

/// Reads one escape sequence whose backslash stands at `i`; yields the
/// denoted byte and the index behind the escape. Escapes denoting values
/// outside the single-byte ASCII range are not accepted.
pub open spec fn parse_escape(s: Seq<u8>, i: int) -> Option<(u8, int)> {
    if i + 2 <= s.len() && unescape_short(s[i + 1]) is Some {
        Some((unescape_short(s[i + 1]).unwrap(), i + 2))
    } else if i + 6 <= s.len() && s[i + 1] == LOWER_U && hex_val(s[i + 2]) is Some && hex_val(
        s[i + 3],
    ) is Some && hex_val(s[i + 4]) is Some && hex_val(s[i + 5]) is Some {
        let v = hex_val(s[i + 2]).unwrap() * 4096 + hex_val(s[i + 3]).unwrap() * 256 + hex_val(
            s[i + 4],
        ).unwrap() * 16 + hex_val(s[i + 5]).unwrap();
        if v < 128 {
            Some((v as u8, i + 6))
        } else {
            None
        }
    } else {
        None
    }
}

/// Reads string content up to and including the closing quote, starting
/// behind the opening quote; yields the denoted bytes.
pub open spec fn parse_jstr_content(s: Seq<u8>, i: int) -> Option<(Seq<u8>, int)>
    decreases s.len() - i,
{
    if !(0 <= i < s.len()) {
        None
    } else if s[i] == QUOTE {
        Some((Seq::empty(), i + 1))
    } else if s[i] == BSLASH {
        match parse_escape(s, i) {
            None => None,
            Some((b, j)) => match parse_jstr_content(s, j) {
                None => None,
                Some((rest, k)) => Some((seq![b] + rest, k)),
            },
        }
    } else if s[i] >= 32 {
        match parse_jstr_content(s, i + 1) {
            None => None,
            Some((rest, k)) => Some((seq![s[i]] + rest, k)),
        }
    } else {
        None
    }
}

/// Reads a whole string literal at `i`; yields its content bytes.
pub open spec fn parse_jstr_bytes(s: Seq<u8>, i: int) -> Option<(Seq<u8>, int)> {
    if 0 <= i < s.len() && s[i] == QUOTE {
        parse_jstr_content(s, i + 1)
    } else {
        None
    }
}

/// Reads a string literal and decodes its content as UTF-8.
pub open spec fn parse_jstr(s: Seq<u8>, i: int) -> Option<(Seq<char>, int)> {
    match parse_jstr_bytes(s, i) {
        None => None,
        Some((b, j)) => if valid_utf8(b) {
            Some((decode_utf8(b), j))
        } else {
            None
        },
    }
}

/// Index of the first non-digit byte at or after `i`.
pub open spec fn digits_end(s: Seq<u8>, i: int) -> int
    decreases s.len() - i,
{
    if 0 <= i < s.len() && is_digit(s[i]) {
        digits_end(s, i + 1)
    } else {
        i
    }
}

/// Value of the digit run `s[i..j]`.
pub open spec fn digits_val(s: Seq<u8>, i: int, j: int) -> nat
    decreases j - i,
{
    if i >= j {
        0
    } else {
        digits_val(s, i, j - 1) * 10 + (s[j - 1] - 48) as nat
    }
}

/// Reads an unsigned decimal at `i`: no leading zero, at most 19 digits
/// (every 64-bit value fits in 19 digits, and the bound keeps the value
/// well under the overflow range before the range checks of
/// `parse_jint`).
pub open spec fn parse_junsigned(s: Seq<u8>, i: int) -> Option<(nat, int)> {
    if 0 <= i < s.len() && is_digit(s[i]) {
        let j = digits_end(s, i);
        if s[i] == ZERO && j != i + 1 {
            None
        } else if j - i > 19 {
            None
        } else {
            Some((digits_val(s, i, j), j))
        }
    } else {
        None
    }
}

/// Reads a decimal integer within the signed 64-bit range.
pub open spec fn parse_jint(s: Seq<u8>, i: int) -> Option<(int, int)> {
    if 0 <= i < s.len() && s[i] == MINUS {
        match parse_junsigned(s, i + 1) {
            None => None,
            Some((n, j)) => if n <= 0x8000_0000_0000_0000 {
                Some((-(n as int), j))
            } else {
                None
            },
        }
    } else {
        match parse_junsigned(s, i) {
            None => None,
            Some((n, j)) => if n <= 0x7fff_ffff_ffff_ffff {
                Some((n as int, j))
            } else {
                None
            },
        }
    }
}

/// Reads a `true` or `false` literal at `i`.
pub open spec fn parse_jbool(s: Seq<u8>, i: int) -> Option<(bool, int)> {
    if at(s, i, jbool(true)) {
        Some((true, i + jbool(true).len() as int))
    } else if at(s, i, jbool(false)) {
        Some((false, i + jbool(false).len() as int))
    } else {
        None
    }
}

/// Reads the members of a string array after the first one, `acc` holding
/// what was read so far; consumes the closing bracket.
pub open spec fn parse_arr_tail(s: Seq<u8>, i: int, acc: Seq<Seq<char>>) -> Option<
    (Seq<Seq<char>>, int),
>
    decreases s.len() - i,
{
    let j = skip_ws(s, i);
    // The index guards (`j < i`, `m <= i`, `m > s.len()`) never hold of
    // what `skip_ws` and `parse_jstr` return; they keep the recursion
    // visibly well-founded.
    if j < i || j >= s.len() {
        None
    } else if s[j] == RBRACK {
        Some((acc, j + 1))
    } else if s[j] == COMMA {
        match parse_jstr(s, skip_ws(s, j + 1)) {
            None => None,
            Some((e, m)) => if m <= i || m > s.len() {
                None
            } else {
                parse_arr_tail(s, m, acc.push(e))
            },
        }
    } else {
        None
    }
}

/// Reads a whole array of string literals at `i`.
pub open spec fn parse_jstr_arr(s: Seq<u8>, i: int) -> Option<(Seq<Seq<char>>, int)> {
    if 0 <= i < s.len() && s[i] == LBRACK {
        let j = skip_ws(s, i + 1);
        if j < s.len() && s[j] == RBRACK {
            Some((Seq::empty(), j + 1))
        } else {
            match parse_jstr(s, j) {
                None => None,
                Some((e, m)) => parse_arr_tail(s, m, seq![e]),
            }
        }
    } else {
        None
    }
}

// ---------------------------------------------------------------------------
// Parser bounds
// ---------------------------------------------------------------------------

pub open spec fn pow10(k: nat) -> nat
    decreases k,
{
    if k == 0 {
        1
    } else {
        10 * pow10((k - 1) as nat)
    }
}

pub proof fn lemma_skip_ws_bounds(s: Seq<u8>, i: int)
    requires
        0 <= i <= s.len(),
    ensures
        i <= skip_ws(s, i) <= s.len(),
    decreases s.len() - i,
{
    if i < s.len() && is_ws(s[i]) {
        lemma_skip_ws_bounds(s, i + 1);
    }
}

pub proof fn lemma_parse_jstr_content_bounds(s: Seq<u8>, i: int)
    requires
        0 <= i <= s.len(),
        parse_jstr_content(s, i) is Some,
    ensures
        i < parse_jstr_content(s, i).unwrap().1 <= s.len(),
    decreases s.len() - i,
{
    if s[i] == QUOTE {
    } else if s[i] == BSLASH {
        let (b, j) = parse_escape(s, i).unwrap();
        lemma_parse_jstr_content_bounds(s, j);
    } else {
        lemma_parse_jstr_content_bounds(s, i + 1);
    }
}

pub proof fn lemma_parse_jstr_bounds(s: Seq<u8>, i: int)
    requires
        0 <= i <= s.len(),
        parse_jstr(s, i) is Some,
    ensures
        i + 2 <= parse_jstr(s, i).unwrap().1 <= s.len(),
{
    lemma_parse_jstr_content_bounds(s, i + 1);
}

pub proof fn lemma_digits_end_bounds(s: Seq<u8>, i: int)
    requires
        0 <= i <= s.len(),
    ensures
        i <= digits_end(s, i) <= s.len(),
        forall|k: int| i <= k < digits_end(s, i) ==> is_digit(s[k]),
        digits_end(s, i) == s.len() || !is_digit(s[digits_end(s, i)]),
    decreases s.len() - i,
{
    if i < s.len() && is_digit(s[i]) {
        lemma_digits_end_bounds(s, i + 1);
    }
}


// ---------------------------------------------------------------------------
// Printer lemmas
// ---------------------------------------------------------------------------

pub proof fn lemma_esc_bytes_concat(a: Seq<u8>, b: Seq<u8>)
    ensures
        esc_bytes(a + b) == esc_bytes(a) + esc_bytes(b),
    decreases a.len(),
{
    if a.len() == 0 {
        assert(a + b =~= b);
        assert(esc_bytes(a) + esc_bytes(b) =~= esc_bytes(b));
    } else {
        assert((a + b).drop_first() =~= a.drop_first() + b);
        lemma_esc_bytes_concat(a.drop_first(), b);
        assert(esc_byte(a[0]) + (esc_bytes(a.drop_first()) + esc_bytes(b)) =~= (esc_byte(a[0])
            + esc_bytes(a.drop_first())) + esc_bytes(b));
    }
}

pub proof fn lemma_esc_bytes_snoc(a: Seq<u8>, c: u8)
    ensures
        esc_bytes(a.push(c)) == esc_bytes(a) + esc_byte(c),
{
    assert(a.push(c) =~= a + seq![c]);
    lemma_esc_bytes_concat(a, seq![c]);
    let s1 = seq![c];
    assert(s1.drop_first() =~= Seq::<u8>::empty());
    assert(esc_bytes(Seq::<u8>::empty()) == Seq::<u8>::empty());
    assert(esc_bytes(s1) == esc_byte(c) + esc_bytes(s1.drop_first()));
    assert(esc_byte(c) + Seq::<u8>::empty() =~= esc_byte(c));
    assert(esc_bytes(s1) =~= esc_byte(c));
}

pub proof fn lemma_arr_items_snoc(es: Seq<Seq<char>>, e: Seq<char>)
    requires
        es.len() >= 1,
    ensures
        arr_items(es.push(e)) == arr_items(es) + seq![COMMA] + jstr(e),
    decreases es.len(),
{
    if es.len() == 1 {
        let two = es.push(e);
        assert(two.drop_first() =~= seq![e]);
        assert(arr_items(seq![e]) == jstr(e));
        assert(arr_items(two) =~= jstr(es[0]) + seq![COMMA] + jstr(e));
    } else {
        lemma_arr_items_snoc(es.drop_first(), e);
        assert(es.push(e).drop_first() =~= es.drop_first().push(e));
        assert(jstr(es[0]) + seq![COMMA] + (arr_items(es.drop_first()) + seq![COMMA] + jstr(e))
            =~= (jstr(es[0]) + seq![COMMA] + arr_items(es.drop_first())) + seq![COMMA] + jstr(e));
    }
}

// ---------------------------------------------------------------------------
// Encoders
// ---------------------------------------------------------------------------

/// Lower-case hexadecimal digit of `n < 16`.
pub fn hex_digit_byte(n: u8) -> (r: u8)
    requires
        n < 16,
    ensures
        r == hex_digit(n),
{
    if n < 10 {
        48 + n
    } else {
        87 + n
    }
}

/// Appends the JSON string literal holding `s`.
pub fn write_jstr(out: &mut Vec<u8>, s: &str)
    ensures
        final(out)@ == old(out)@ + jstr(s@),
{
    let b = s.as_bytes();
    out.push(QUOTE);
    let mut i: usize = 0;
    while i < b.len()
        invariant
            i <= b.len(),
            b@ == encode_utf8(s@),
            out@ == old(out)@ + seq![QUOTE] + esc_bytes(b@.subrange(0, i as int)),
        decreases b@.len() - i,
    {
        let c = b[i];
        proof {
            assert(b@.subrange(0, i + 1) =~= b@.subrange(0, i as int).push(c));
            lemma_esc_bytes_snoc(b@.subrange(0, i as int), c);
        }
        if c == QUOTE {
            out.push(BSLASH);
            out.push(QUOTE);
        } else if c == BSLASH {
            out.push(BSLASH);
            out.push(BSLASH);
        } else if c < 32 {
            out.push(BSLASH);
            out.push(LOWER_U);
            out.push(ZERO);
            out.push(ZERO);
            out.push(hex_digit_byte(c / 16));
            out.push(hex_digit_byte(c % 16));
        } else {
            out.push(c);
        }
        proof {
            assert(out@ =~= old(out)@ + seq![QUOTE] + esc_bytes(b@.subrange(0, i + 1)));
        }
        i = i + 1;
    }
    out.push(QUOTE);
    proof {
        assert(b@.subrange(0, b@.len() as int) =~= b@);
        assert(final(out)@ =~= old(out)@ + jstr(s@));
    }
}

/// Appends the quoted key `k` and the following colon.
pub fn write_key(out: &mut Vec<u8>, k: &str)
    ensures
        final(out)@ == old(out)@ + key_quoted(k@) + seq![COLON],
{
    out.push(QUOTE);
    crate::text::push_bytes(out, k.as_bytes());
    out.push(QUOTE);
    out.push(COLON);
    proof {
        assert(final(out)@ =~= old(out)@ + key_quoted(k@) + seq![COLON]);
    }
}

/// Appends the canonical decimal digits of `n`.
pub fn write_junsigned(out: &mut Vec<u8>, n: u64)
    ensures
        final(out)@ == old(out)@ + dec_digits(n as nat),
    decreases n,
{
    if n < 10 {
        out.push(48 + n as u8);
        proof {
            assert(final(out)@ =~= old(out)@ + dec_digits(n as nat));
        }
    } else {
        write_junsigned(out, n / 10);
        out.push(48 + (n % 10) as u8);
        proof {
            assert(final(out)@ =~= old(out)@ + dec_digits(n as nat));
        }
    }
}

/// Appends the canonical decimal form of `v`.
pub fn write_jint(out: &mut Vec<u8>, v: i64)
    ensures
        final(out)@ == old(out)@ + jint(v as int),
{
    if v < 0 {
        out.push(MINUS);
        let mag: u64 = (-(v as i128)) as u64;
        proof {
            assert(mag == -(v as int));
        }
        write_junsigned(out, mag);
        proof {
            assert(final(out)@ =~= old(out)@ + jint(v as int));
        }
    } else {
        write_junsigned(out, v as u64);
    }
}

/// Appends a `true` or `false` literal.
pub fn write_jbool(out: &mut Vec<u8>, b: bool)
    ensures
        final(out)@ == old(out)@ + jbool(b),
{
    if b {
        out.push(116);
        out.push(114);
        out.push(117);
        out.push(101);
    } else {
        out.push(102);
        out.push(97);
        out.push(108);
        out.push(115);
        out.push(101);
    }
    proof {
        assert(final(out)@ =~= old(out)@ + jbool(b));
    }
}

/// Appends a JSON array holding every string of `v`, in order.
pub fn write_jstr_arr(out: &mut Vec<u8>, v: &Vec<String>)
    ensures
        final(out)@ == old(out)@ + jstr_arr(v.deep_view()),
{
    out.push(LBRACK);
    let mut i: usize = 0;
    while i < v.len()
        invariant
            i <= v.len(),
            v.deep_view().len() == v@.len(),
            out@ == old(out)@ + seq![LBRACK] + arr_items(v.deep_view().subrange(0, i as int)),
        decreases v@.len() - i,
    {
        proof {
            assert(v.deep_view().subrange(0, i + 1) =~= v.deep_view().subrange(
                0,
                i as int,
            ).push(v@[i as int]@));
        }
        if i > 0 {
            out.push(COMMA);
            write_jstr(out, v[i].as_str());
            proof {
                lemma_arr_items_snoc(v.deep_view().subrange(0, i as int), v@[i as int]@);
                assert(out@ =~= old(out)@ + seq![LBRACK] + arr_items(
                    v.deep_view().subrange(0, i + 1),
                ));
            }
        } else {
            write_jstr(out, v[i].as_str());
            proof {
                assert(v.deep_view().subrange(0, 1) =~= seq![v@[0]@]);
                assert(out@ =~= old(out)@ + seq![LBRACK] + arr_items(
                    v.deep_view().subrange(0, i + 1),
                ));
            }
        }
        i = i + 1;
    }
    out.push(RBRACK);
    proof {
        assert(v.deep_view().subrange(0, v.deep_view().len() as int) =~= v.deep_view());
        assert(final(out)@ =~= old(out)@ + jstr_arr(v.deep_view()));
    }
}

// ---------------------------------------------------------------------------
// Decoders
// ---------------------------------------------------------------------------

/// First non-whitespace position at or after `i`.
pub fn skip_ws_at(s: &[u8], i: usize) -> (r: usize)
    requires
        i <= s.len(),
    ensures
        r == skip_ws(s@, i as int),
        i <= r <= s@.len(),
{
    let mut k = i;
    while k < s.len() && (s[k] == 32 || s[k] == 9 || s[k] == 10 || s[k] == 13)
        invariant
            i <= k <= s@.len(),
            skip_ws(s@, i as int) == skip_ws(s@, k as int),
        decreases s@.len() - k,
    {
        k = k + 1;
    }
    proof {
        lemma_skip_ws_bounds(s@, i as int);
    }
    k
}

/// True when `tok` stands verbatim at position `i`.
pub fn token_at(s: &[u8], i: usize, tok: &[u8]) -> (r: bool)
    requires
        i <= s.len(),
    ensures
        r == at(s@, i as int, tok@),
{
    if s.len() - i < tok.len() {
        return false;
    }
    let mut k: usize = 0;
    while k < tok.len()
        invariant
            k <= tok@.len(),
            i + tok@.len() <= s@.len(),
            s@.len() <= usize::MAX,
            forall|m: int| 0 <= m < k ==> s@[i + m] == tok@[m],
        decreases tok@.len() - k,
    {
        if s[i + k] != tok[k] {
            proof {
                assert(s@.subrange(i as int, i + tok@.len()) != tok@) by {
                    assert(s@.subrange(i as int, i + tok@.len())[k as int] != tok@[k as int]);
                }
            }
            return false;
        }
        k = k + 1;
    }
    proof {
        assert(s@.subrange(i as int, i + tok@.len()) =~= tok@);
    }
    true
}

/// Consumes `tok` after optional whitespace.
pub fn expect_at(s: &[u8], i: usize, tok: &[u8]) -> (r: Option<usize>)
    requires
        i <= s.len(),
    ensures
        (r is Some) == (expect(s@, i as int, tok@) is Some),
        r is Some ==> r.unwrap() == expect(s@, i as int, tok@).unwrap() && r.unwrap() <= s@.len(),
{
    let j = skip_ws_at(s, i);
    if token_at(s, j, tok) {
        Some(j + tok.len())
    } else {
        None
    }
}

/// Consumes the single byte `b` after optional whitespace.
pub fn expect_byte(s: &[u8], i: usize, b: u8) -> (r: Option<usize>)
    requires
        i <= s.len(),
    ensures
        (r is Some) == (expect(s@, i as int, seq![b]) is Some),
        r is Some ==> r.unwrap() == expect(s@, i as int, seq![b]).unwrap() && r.unwrap()
            <= s@.len(),
{
    let j = skip_ws_at(s, i);
    if j < s.len() && s[j] == b {
        proof {
            assert(s@.subrange(j as int, j + 1) =~= seq![b]);
        }
        Some(j + 1)
    } else {
        proof {
            if at(s@, j as int, seq![b]) {
                assert(s@.subrange(j as int, j + 1)[0] == b);
            }
        }
        None
    }
}

/// Consumes the quoted key `k` after optional whitespace.
pub fn expect_key(s: &[u8], i: usize, k: &str) -> (r: Option<usize>)
    requires
        i <= s.len(),
    ensures
        (r is Some) == (expect(s@, i as int, key_quoted(k@)) is Some),
        r is Some ==> r.unwrap() == expect(s@, i as int, key_quoted(k@)).unwrap() && r.unwrap()
            <= s@.len(),
{
    let mut tok: Vec<u8> = Vec::new();
    tok.push(QUOTE);
    crate::text::push_bytes(&mut tok, k.as_bytes());
    tok.push(QUOTE);
    proof {
        assert(tok@ =~= key_quoted(k@));
    }
    expect_at(s, i, tok.as_slice())
}

fn unescape_short_byte(b: u8) -> (r: Option<u8>)
    ensures
        r == unescape_short(b),
{
    if b == QUOTE {
        Some(QUOTE)
    } else if b == BSLASH {
        Some(BSLASH)
    } else if b == SLASH {
        Some(SLASH)
    } else if b == 98 {
        Some(8)
    } else if b == 102 {
        Some(12)
    } else if b == 110 {
        Some(10)
    } else if b == 114 {
        Some(13)
    } else if b == 116 {
        Some(9)
    } else {
        None
    }
}

pub fn hex_val_byte(b: u8) -> (r: Option<u8>)
    ensures
        r == hex_val(b),
{
    if 48 <= b && b <= 57 {
        Some(b - 48)
    } else if 97 <= b && b <= 102 {
        Some(b - 87)
    } else if 65 <= b && b <= 70 {
        Some(b - 55)
    } else {
        None
    }
}

/// Reads one escape sequence whose backslash stands at `i`.
fn parse_escape_at(s: &[u8], i: usize) -> (r: Option<(u8, usize)>)
    requires
        i <= s.len(),
    ensures
        (r is Some) == (parse_escape(s@, i as int) is Some),
        r is Some ==> r.unwrap().0 == parse_escape(s@, i as int).unwrap().0 && r.unwrap().1
            == parse_escape(s@, i as int).unwrap().1 && i < r.unwrap().1 <= s@.len(),
{
    if s.len() - i >= 2 {
        if let Some(b) = unescape_short_byte(s[i + 1]) {
            return Some((b, i + 2));
        }
    }
    if s.len() - i >= 6 && s[i + 1] == LOWER_U {
        let h0 = hex_val_byte(s[i + 2]);
        let h1 = hex_val_byte(s[i + 3]);
        let h2 = hex_val_byte(s[i + 4]);
        let h3 = hex_val_byte(s[i + 5]);
        if h0.is_some() && h1.is_some() && h2.is_some() && h3.is_some() {
            let v: u32 = h0.unwrap() as u32 * 4096 + h1.unwrap() as u32 * 256 + h2.unwrap() as u32
                * 16 + h3.unwrap() as u32;
            if v < 128 {
                return Some((v as u8, i + 6));
            }
        }
        return None;
    }
    None
}

/// Reads string content up to and including the closing quote, appending
/// the denoted bytes to `acc`.
fn parse_jstr_content_at(s: &[u8], i: usize, acc: &mut Vec<u8>) -> (r: Option<usize>)
    requires
        i <= s.len(),
    ensures
        (r is Some) == (parse_jstr_content(s@, i as int) is Some),
        r is Some ==> r.unwrap() == parse_jstr_content(s@, i as int).unwrap().1 && r.unwrap()
            <= s@.len() && final(acc)@ == old(acc)@ + parse_jstr_content(s@, i as int).unwrap().0,
    decreases s@.len() - i,
{
    if i >= s.len() {
        return None;
    }
    let c = s[i];
    if c == QUOTE {
        proof {
            assert(final(acc)@ =~= old(acc)@ + parse_jstr_content(s@, i as int).unwrap().0);
        }
        return Some(i + 1);
    }
    if c == BSLASH {
        match parse_escape_at(s, i) {
            None => None,
            Some((b, j)) => {
                acc.push(b);
                let r = parse_jstr_content_at(s, j, acc);
                proof {
                    if r is Some {
                        let (rest, k) = parse_jstr_content(s@, j as int).unwrap();
                        assert(old(acc)@.push(b) + rest =~= old(acc)@ + (seq![b] + rest));
                    }
                }
                r
            },
        }
    } else if c >= 32 {
        acc.push(c);
        let r = parse_jstr_content_at(s, i + 1, acc);
        proof {
            if r is Some {
                let (rest, k) = parse_jstr_content(s@, i + 1).unwrap();
                assert(old(acc)@.push(c) + rest =~= old(acc)@ + (seq![c] + rest));
            }
        }
        r
    } else {
        None
    }
}

/// Reads a string literal at `i` and decodes its content as UTF-8.
pub fn parse_jstr_at(s: &[u8], i: usize) -> (r: Option<(String, usize)>)
    requires
        i <= s.len(),
    ensures
        (r is Some) == (parse_jstr(s@, i as int) is Some),
        r is Some ==> r.unwrap().0@ == parse_jstr(s@, i as int).unwrap().0 && r.unwrap().1
            == parse_jstr(s@, i as int).unwrap().1 && r.unwrap().1 <= s@.len(),
{
    if i >= s.len() {
        return None;
    }
    if s[i] != QUOTE {
        return None;
    }
    let mut acc: Vec<u8> = Vec::new();
    match parse_jstr_content_at(s, i + 1, &mut acc) {
        None => None,
        Some(j) => {
            proof {
                assert(acc@ =~= parse_jstr_content(s@, i + 1).unwrap().0);
            }
            match crate::text::string_from_bytes(acc) {
                None => None,
                Some(st) => Some((st, j)),
            }
        },
    }
}

/// Reads an unsigned decimal at `i`.
fn parse_junsigned_at(s: &[u8], i: usize) -> (r: Option<(u64, usize)>)
    requires
        i <= s.len(),
    ensures
        (r is Some) == (parse_junsigned(s@, i as int) is Some),
        r is Some ==> r.unwrap().0 == parse_junsigned(s@, i as int).unwrap().0 && r.unwrap().1
            == parse_junsigned(s@, i as int).unwrap().1 && i < r.unwrap().1 <= s@.len(),
{
    if i >= s.len() {
        return None;
    }
    if !(48 <= s[i] && s[i] <= 57) {
        return None;
    }
    proof {
        lemma_digits_end_bounds(s@, i as int);
    }
    let mut j = i;
    while j < s.len() && 48 <= s[j] && s[j] <= 57
        invariant
            i <= j <= s@.len(),
            digits_end(s@, i as int) == digits_end(s@, j as int),
        decreases s@.len() - j,
    {
        j = j + 1;
    }
    proof {
        assert(j == digits_end(s@, i as int));
    }
    if s[i] == ZERO && j != i + 1 {
        return None;
    }
    if j - i > 19 {
        return None;
    }
    proof {
        reveal_with_fuel(pow10, 21);
        assert(pow10(19) == 10_000_000_000_000_000_000);
    }
    let mut acc: u64 = 0;
    let mut k = i;
    while k < j
        invariant
            i <= k <= j <= s@.len(),
            j - i <= 19,
            forall|m: int| i <= m < j ==> is_digit(s@[m]),
            acc == digits_val(s@, i as int, k as int),
            acc < pow10((k - i) as nat),
            pow10(19) == 10_000_000_000_000_000_000,
        decreases j - k,
    {
        proof {
            lemma_pow10_mono((k - i + 1) as nat, 19);
        }
        acc = acc * 10 + (s[k] - 48) as u64;
        k = k + 1;
    }
    Some((acc, j))
}

pub proof fn lemma_pow10_mono(a: nat, b: nat)
    requires
        a <= b,
    ensures
        pow10(a) <= pow10(b),
    decreases b,
{
    if a < b {
        lemma_pow10_mono(a, (b - 1) as nat);
    }
}

/// Reads a decimal integer within the signed 64-bit range.
pub fn parse_jint_at(s: &[u8], i: usize) -> (r: Option<(i64, usize)>)
    requires
        i <= s.len(),
    ensures
        (r is Some) == (parse_jint(s@, i as int) is Some),
        r is Some ==> r.unwrap().0 == parse_jint(s@, i as int).unwrap().0 && r.unwrap().1
            == parse_jint(s@, i as int).unwrap().1 && r.unwrap().1 <= s@.len(),
{
    if i < s.len() && s[i] == MINUS {
        match parse_junsigned_at(s, i + 1) {
            None => None,
            Some((n, j)) => {
                if n <= 0x8000_0000_0000_0000 {
                    let v: i64 = if n == 0x8000_0000_0000_0000 {
                        i64::MIN
                    } else {
                        -(n as i64)
                    };
                    Some((v, j))
                } else {
                    None
                }
            },
        }
    } else {
        match parse_junsigned_at(s, i) {
            None => None,
            Some((n, j)) => {
                if n <= 0x7fff_ffff_ffff_ffff {
                    Some((n as i64, j))
                } else {
                    None
                }
            },
        }
    }
}

/// Reads a `true` or `false` literal at `i`.
pub fn parse_jbool_at(s: &[u8], i: usize) -> (r: Option<(bool, usize)>)
    requires
        i <= s.len(),
    ensures
        (r is Some) == (parse_jbool(s@, i as int) is Some),
        r is Some ==> r.unwrap().0 == parse_jbool(s@, i as int).unwrap().0 && r.unwrap().1
            == parse_jbool(s@, i as int).unwrap().1 && r.unwrap().1 <= s@.len(),
{
    let t: [u8; 4] = [116, 114, 117, 101];
    let f: [u8; 5] = [102, 97, 108, 115, 101];
    proof {
        assert(t@ =~= jbool(true));
        assert(f@ =~= jbool(false));
    }
    if token_at(s, i, t.as_slice()) {
        Some((true, i + 4))
    } else if token_at(s, i, f.as_slice()) {
        Some((false, i + 5))
    } else {
        None
    }
}

/// Reads the members of a string array after the first one, pushing them
/// onto `acc`; consumes the closing bracket.
fn parse_arr_tail_at(s: &[u8], i: usize, acc: &mut Vec<String>) -> (r: Option<usize>)
    requires
        i <= s.len(),
    ensures
        (r is Some) == (parse_arr_tail(s@, i as int, old(acc).deep_view()) is Some),
        r is Some ==> final(acc).deep_view() == parse_arr_tail(
            s@,
            i as int,
            old(acc).deep_view(),
        ).unwrap().0 && r.unwrap() == parse_arr_tail(s@, i as int, old(acc).deep_view()).unwrap().1
            && r.unwrap() <= s@.len(),
    decreases s@.len() - i,
{
    let j = skip_ws_at(s, i);
    if j >= s.len() {
        return None;
    }
    if s[j] == RBRACK {
        return Some(j + 1);
    }
    if s[j] != COMMA {
        return None;
    }
    let k = skip_ws_at(s, j + 1);
    match parse_jstr_at(s, k) {
        None => None,
        Some((e, m)) => {
            proof {
                lemma_parse_jstr_bounds(s@, k as int);
            }
            let ghost acc0 = acc.deep_view();
            let ghost ev = e@;
            acc.push(e);
            proof {
                assert(acc.deep_view() =~= acc0.push(ev));
            }
            let r = parse_arr_tail_at(s, m, acc);
            r
        },
    }
}

/// Reads a whole array of string literals at `i`.
pub fn parse_jstr_arr_at(s: &[u8], i: usize) -> (r: Option<(Vec<String>, usize)>)
    requires
        i <= s.len(),
    ensures
        (r is Some) == (parse_jstr_arr(s@, i as int) is Some),
        r is Some ==> r.unwrap().0.deep_view() == parse_jstr_arr(s@, i as int).unwrap().0
            && r.unwrap().1 == parse_jstr_arr(s@, i as int).unwrap().1 && r.unwrap().1 <= s@.len(),
{
    if i >= s.len() {
        return None;
    }
    if s[i] != LBRACK {
        return None;
    }
    let j = skip_ws_at(s, i + 1);
    if j < s.len() && s[j] == RBRACK {
        let v: Vec<String> = Vec::new();
        proof {
            assert(v.deep_view() =~= Seq::<Seq<char>>::empty());
        }
        return Some((v, j + 1));
    }
    match parse_jstr_at(s, j) {
        None => None,
        Some((e, m)) => {
            let ghost ev = e@;
            let mut acc: Vec<String> = Vec::new();
            acc.push(e);
            proof {
                assert(acc.deep_view() =~= seq![ev]);
            }
            match parse_arr_tail_at(s, m, &mut acc) {
                None => None,
                Some(end) => Some((acc, end)),
            }
        },
    }
}

// ---------------------------------------------------------------------------
// The parser inverts the printer
// ---------------------------------------------------------------------------

pub proof fn lemma_at_index(s: Seq<u8>, i: int, x: Seq<u8>, k: int)
    requires
        at(s, i, x),
        0 <= k < x.len(),
    ensures
        s[i + k] == x[k],
{
    assert(s.subrange(i, i + x.len())[k] == s[i + k]);
}

pub proof fn lemma_at_split(s: Seq<u8>, i: int, x: Seq<u8>, y: Seq<u8>)
    requires
        at(s, i, x + y),
    ensures
        at(s, i, x),
        at(s, i + x.len(), y),
{
    let w = s.subrange(i, i + x.len() + y.len());
    assert(s.subrange(i, i + x.len()) =~= x) by {
        assert forall|k: int| 0 <= k < x.len() implies s.subrange(i, i + x.len())[k] == x[k] by {
            assert(w[k] == s[i + k]);
            assert((x + y)[k] == x[k]);
        }
    }
    assert(s.subrange(i + x.len(), i + x.len() + y.len()) =~= y) by {
        assert forall|k: int|
            0 <= k < y.len() implies s.subrange(i + x.len(), i + x.len() + y.len())[k] == y[k] by {
            assert(w[x.len() + k] == s[i + x.len() + k]);
            assert((x + y)[x.len() + k] == y[k]);
        }
    }
}

/// An expected token standing verbatim at `i`, beginning with a
/// non-whitespace byte, is consumed in place.
pub proof fn lemma_expect_nows(s: Seq<u8>, i: int, tok: Seq<u8>)
    requires
        at(s, i, tok),
        tok.len() >= 1,
        !is_ws(tok[0]),
    ensures
        expect(s, i, tok) == Some(i + tok.len()),
{
    lemma_at_index(s, i, tok, 0);
    assert(skip_ws(s, i) == i);
}

/// A canonical integer starts with a minus sign or a digit, never with
/// whitespace.
pub proof fn lemma_jint_first_byte(v: int)
    ensures
        jint(v).len() >= 1,
        !is_ws(jint(v)[0]),
        jint(v)[0] == MINUS || is_digit(jint(v)[0]),
{
    if v < 0 {
    } else {
        lemma_dec_digits_props(v as nat);
        assert(is_digit(dec_digits(v as nat)[0]));
    }
}

/// Parsing an escaped content run followed by the closing quote yields
/// exactly the raw bytes back.
pub proof fn lemma_parse_content_of_escaped(s: Seq<u8>, i: int, b: Seq<u8>)
    requires
        0 <= i,
        at(s, i, esc_bytes(b) + seq![QUOTE]),
    ensures
        parse_jstr_content(s, i) == Some((b, i + esc_bytes(b).len() + 1)),
    decreases b.len(),
{
    if b.len() == 0 {
        assert(esc_bytes(b) + seq![QUOTE] =~= seq![QUOTE]);
        lemma_at_index(s, i, seq![QUOTE], 0);
        assert(parse_jstr_content(s, i) == Some((Seq::<u8>::empty(), i + 1)));
        assert(b =~= Seq::<u8>::empty());
    } else {
        let c0 = b[0];
        let rest = b.drop_first();
        assert(esc_bytes(b) == esc_byte(c0) + esc_bytes(rest));
        assert(esc_bytes(b) + seq![QUOTE] =~= esc_byte(c0) + (esc_bytes(rest) + seq![QUOTE]));
        lemma_at_split(s, i, esc_byte(c0), esc_bytes(rest) + seq![QUOTE]);
        let n0 = esc_byte(c0).len();
        lemma_parse_content_of_escaped(s, i + n0, rest);
        if c0 == QUOTE || c0 == BSLASH {
            lemma_at_index(s, i, esc_byte(c0), 0);
            lemma_at_index(s, i, esc_byte(c0), 1);
            assert(s[i] == BSLASH);
            assert(unescape_short(s[i + 1]) == Some(c0));
            assert(parse_escape(s, i) == Some((c0, i + 2)));
            assert(seq![c0] + rest =~= b);
        } else if c0 < 32 {
            lemma_at_index(s, i, esc_byte(c0), 0);
            lemma_at_index(s, i, esc_byte(c0), 1);
            lemma_at_index(s, i, esc_byte(c0), 2);
            lemma_at_index(s, i, esc_byte(c0), 3);
            lemma_at_index(s, i, esc_byte(c0), 4);
            lemma_at_index(s, i, esc_byte(c0), 5);
            assert(s[i] == BSLASH && s[i + 1] == LOWER_U && s[i + 2] == ZERO && s[i + 3] == ZERO
                && s[i + 4] == hex_digit(c0 / 16) && s[i + 5] == hex_digit(c0 % 16));
            assert(unescape_short(LOWER_U) is None);
            assert(hex_val(ZERO) == Some(0u8));
            assert(hex_val(hex_digit(c0 / 16)) == Some((c0 / 16) as u8));
            assert(hex_val(hex_digit(c0 % 16)) == Some((c0 % 16) as u8));
            assert((c0 / 16) * 16 + (c0 % 16) == c0);
            assert(parse_escape(s, i) == Some((c0, i + 6)));
            assert(seq![c0] + rest =~= b);
        } else {
            lemma_at_index(s, i, esc_byte(c0), 0);
            assert(s[i] == c0);
            assert(seq![c0] + rest =~= b);
        }
    }
}

/// Parsing a canonical string literal yields the encoded characters back.
pub proof fn lemma_parse_jstr_of_encoding(s: Seq<u8>, i: int, c: Seq<char>)
    requires
        0 <= i,
        at(s, i, jstr(c)),
    ensures
        parse_jstr(s, i) == Some((c, i + jstr(c).len())),
{
    let body = encode_utf8(c);
    assert(jstr(c) =~= seq![QUOTE] + (esc_bytes(body) + seq![QUOTE]));
    lemma_at_split(s, i, seq![QUOTE], esc_bytes(body) + seq![QUOTE]);
    lemma_at_index(s, i, seq![QUOTE], 0);
    assert(s[i] == QUOTE);
    lemma_parse_content_of_escaped(s, i + 1, body);
    vstd::utf8::encode_utf8_valid_utf8(c);
    vstd::utf8::encode_utf8_decode_utf8(c);
}

/// Every byte of a canonical decimal is a digit; the first is `0` only
/// for zero itself; and the digit count bounds the value by powers of
/// ten.
pub proof fn lemma_dec_digits_props(n: nat)
    ensures
        dec_digits(n).len() >= 1,
        forall|k: int| 0 <= k < dec_digits(n).len() ==> is_digit(#[trigger] dec_digits(n)[k]),
        n > 0 ==> dec_digits(n)[0] != ZERO,
        n < pow10(dec_digits(n).len() as nat),
        dec_digits(n).len() > 1 ==> n >= pow10((dec_digits(n).len() - 1) as nat),
    decreases n,
{
    reveal_with_fuel(pow10, 3);
    if n < 10 {
    } else {
        lemma_dec_digits_props(n / 10);
        let d = dec_digits(n);
        let h = dec_digits(n / 10);
        assert(d == h + seq![(48 + n % 10) as u8]);
        assert(d[0] == h[0]);
        assert(forall|k: int| 0 <= k < h.len() ==> #[trigger] d[k] == h[k]);
        assert(is_digit(d[d.len() - 1]));
        assert(n / 10 < pow10(h.len() as nat));
        assert(n < 10 * pow10(h.len() as nat));
        assert(pow10(d.len() as nat) == 10 * pow10(h.len() as nat));
        assert(n / 10 >= 1);
        if h.len() > 1 {
            assert(n / 10 >= pow10((h.len() - 1) as nat));
            assert(n >= 10 * pow10((h.len() - 1) as nat));
        } else {
            assert(n >= 10 * (n / 10));
            assert(pow10((d.len() - 1) as nat) == 10 * pow10(0));
        }
    }
}

/// The digit-run value of a canonical decimal is the encoded number.
pub proof fn lemma_digits_val_of_dec(s: Seq<u8>, i: int, n: nat)
    requires
        at(s, i, dec_digits(n)),
    ensures
        digits_val(s, i, i + dec_digits(n).len()) == n,
    decreases n,
{
    if n < 10 {
        lemma_at_index(s, i, dec_digits(n), 0);
        assert(digits_val(s, i, i) == 0);
    } else {
        let h = dec_digits(n / 10);
        assert(dec_digits(n) == h + seq![(48 + n % 10) as u8]);
        lemma_at_split(s, i, h, seq![(48 + n % 10) as u8]);
        lemma_at_index(s, i + h.len(), seq![(48 + n % 10) as u8], 0);
        lemma_digits_val_of_dec(s, i, n / 10);
        assert(s[i + dec_digits(n).len() - 1] == (48 + n % 10) as u8);
        assert(digits_val(s, i, i + h.len() + 1) == digits_val(s, i, i + h.len()) * 10 + (s[i
            + h.len()] - 48) as nat);
    }
}

pub proof fn lemma_digits_end_run(s: Seq<u8>, i: int, j: int)
    requires
        0 <= i <= j <= s.len(),
        forall|k: int| i <= k < j ==> is_digit(#[trigger] s[k]),
        j == s.len() || !is_digit(s[j]),
    ensures
        digits_end(s, i) == j,
    decreases j - i,
{
    if i < j {
        lemma_digits_end_run(s, i + 1, j);
    }
}

/// Parsing a canonical unsigned decimal, delimited on the right by a
/// non-digit or the end of input, yields the number back.
pub proof fn lemma_parse_junsigned_of_encoding(s: Seq<u8>, i: int, n: nat)
    requires
        at(s, i, dec_digits(n)),
        n <= 0x8000_0000_0000_0000,
        i + dec_digits(n).len() == s.len() || !is_digit(s[i + dec_digits(n).len()]),
    ensures
        parse_junsigned(s, i) == Some((n, i + dec_digits(n).len())),
{
    let d = dec_digits(n);
    lemma_dec_digits_props(n);
    assert(forall|k: int| i <= k < i + d.len() ==> is_digit(#[trigger] s[k])) by {
        assert forall|k: int| i <= k < i + d.len() implies is_digit(#[trigger] s[k]) by {
            lemma_at_index(s, i, d, k - i);
        }
    }
    lemma_at_index(s, i, d, 0);
    lemma_digits_end_run(s, i, i + d.len());
    if s[i] == ZERO {
        assert(n == 0 || n < 10);
        assert(d.len() == 1);
    }
    assert(d.len() <= 19) by {
        if d.len() > 19 {
            lemma_pow10_mono(19, (d.len() - 1) as nat);
            reveal_with_fuel(pow10, 21);
            assert(n >= pow10(19));
        }
    }
    lemma_digits_val_of_dec(s, i, n);
}

/// Parsing a canonical signed decimal, delimited on the right, yields the
/// value back.
pub proof fn lemma_parse_jint_of_encoding(s: Seq<u8>, i: int, v: int)
    requires
        -0x8000_0000_0000_0000 <= v <= 0x7fff_ffff_ffff_ffff,
        at(s, i, jint(v)),
        i + jint(v).len() == s.len() || !is_digit(s[i + jint(v).len()]),
    ensures
        parse_jint(s, i) == Some((v, i + jint(v).len())),
{
    if v < 0 {
        let d = dec_digits((-v) as nat);
        assert(jint(v) == seq![MINUS] + d);
        lemma_at_split(s, i, seq![MINUS], d);
        lemma_at_index(s, i, seq![MINUS], 0);
        lemma_parse_junsigned_of_encoding(s, i + 1, (-v) as nat);
    } else {
        lemma_dec_digits_props(v as nat);
        lemma_at_index(s, i, jint(v), 0);
        assert(is_digit(s[i]));
        assert(s[i] != MINUS);
        lemma_parse_junsigned_of_encoding(s, i, v as nat);
    }
}

/// Parsing a boolean literal yields the value back.
pub proof fn lemma_parse_jbool_of_encoding(s: Seq<u8>, i: int, b: bool)
    requires
        at(s, i, jbool(b)),
    ensures
        parse_jbool(s, i) == Some((b, i + jbool(b).len())),
{
    if b {
    } else {
        lemma_at_index(s, i, jbool(false), 0);
        if at(s, i, jbool(true)) {
            lemma_at_index(s, i, jbool(true), 0);
        }
    }
}

/// The remaining bytes of a non-empty array after its first member: a
/// comma-separated run of string literals, then the closing bracket.
pub open spec fn arr_tail_bytes(es: Seq<Seq<char>>) -> Seq<u8>
    decreases es.len(),
{
    if es.len() == 0 {
        seq![RBRACK]
    } else {
        seq![COMMA] + jstr(es[0]) + arr_tail_bytes(es.drop_first())
    }
}

pub proof fn lemma_arr_items_decomp(es: Seq<Seq<char>>)
    requires
        es.len() >= 1,
    ensures
        arr_items(es) + seq![RBRACK] == jstr(es[0]) + arr_tail_bytes(es.drop_first()),
    decreases es.len(),
{
    if es.len() == 1 {
        assert(arr_tail_bytes(es.drop_first()) == seq![RBRACK]);
    } else {
        lemma_arr_items_decomp(es.drop_first());
        assert(arr_items(es) + seq![RBRACK] =~= jstr(es[0]) + seq![COMMA] + (arr_items(
            es.drop_first(),
        ) + seq![RBRACK]));
        assert(jstr(es[0]) + seq![COMMA] + (jstr(es.drop_first()[0]) + arr_tail_bytes(
            es.drop_first().drop_first(),
        )) =~= jstr(es[0]) + (seq![COMMA] + jstr(es.drop_first()[0]) + arr_tail_bytes(
            es.drop_first().drop_first(),
        )));
    }
}

pub proof fn lemma_parse_arr_tail_of_encoding(s: Seq<u8>, i: int, acc: Seq<Seq<char>>, rest: Seq<
    Seq<char>,
>)
    requires
        0 <= i,
        at(s, i, arr_tail_bytes(rest)),
    ensures
        parse_arr_tail(s, i, acc) == Some((acc + rest, i + arr_tail_bytes(rest).len())),
    decreases rest.len(),
{
    if rest.len() == 0 {
        lemma_at_index(s, i, seq![RBRACK], 0);
        assert(!is_ws(s[i]));
        assert(skip_ws(s, i) == i);
        assert(acc + rest =~= acc);
    } else {
        let e0 = rest[0];
        assert(arr_tail_bytes(rest) =~= seq![COMMA] + (jstr(e0) + arr_tail_bytes(
            rest.drop_first(),
        )));
        lemma_at_split(s, i, seq![COMMA], jstr(e0) + arr_tail_bytes(rest.drop_first()));
        lemma_at_split(s, i + 1, jstr(e0), arr_tail_bytes(rest.drop_first()));
        lemma_at_index(s, i, seq![COMMA], 0);
        assert(!is_ws(s[i]));
        assert(skip_ws(s, i) == i);
        lemma_at_index(s, i + 1, jstr(e0), 0);
        assert(s[i + 1] == QUOTE);
        assert(!is_ws(s[i + 1]));
        assert(skip_ws(s, i + 1) == i + 1);
        lemma_parse_jstr_of_encoding(s, i + 1, e0);
        let m = i + 1 + jstr(e0).len();
        lemma_parse_arr_tail_of_encoding(s, m, acc.push(e0), rest.drop_first());
        assert(acc.push(e0) + rest.drop_first() =~= acc + rest);
    }
}

/// Parsing a canonical array of string literals yields the members back.
pub proof fn lemma_parse_arr_of_encoding(s: Seq<u8>, i: int, es: Seq<Seq<char>>)
    requires
        0 <= i,
        at(s, i, jstr_arr(es)),
    ensures
        parse_jstr_arr(s, i) == Some((es, i + jstr_arr(es).len())),
{
    assert(jstr_arr(es) =~= seq![LBRACK] + (arr_items(es) + seq![RBRACK]));
    lemma_at_split(s, i, seq![LBRACK], arr_items(es) + seq![RBRACK]);
    lemma_at_index(s, i, seq![LBRACK], 0);
    assert(s[i] == LBRACK);
    if es.len() == 0 {
        assert(arr_items(es) + seq![RBRACK] =~= seq![RBRACK]);
        lemma_at_index(s, i + 1, seq![RBRACK], 0);
        assert(!is_ws(s[i + 1]));
        assert(skip_ws(s, i + 1) == i + 1);
        assert(parse_jstr_arr(s, i) == Some((Seq::<Seq<char>>::empty(), i + 2)));
        assert(es =~= Seq::<Seq<char>>::empty());
    } else {
        lemma_arr_items_decomp(es);
        assert(arr_items(es) + seq![RBRACK] == jstr(es[0]) + arr_tail_bytes(es.drop_first()));
        lemma_at_split(s, i + 1, jstr(es[0]), arr_tail_bytes(es.drop_first()));
        lemma_at_index(s, i + 1, jstr(es[0]), 0);
        assert(s[i + 1] == QUOTE);
        assert(!is_ws(s[i + 1]));
        assert(skip_ws(s, i + 1) == i + 1);
        lemma_parse_jstr_of_encoding(s, i + 1, es[0]);
        let m = i + 1 + jstr(es[0]).len();
        lemma_parse_arr_tail_of_encoding(s, m, seq![es[0]], es.drop_first());
        assert(seq![es[0]] + es.drop_first() =~= es);
    }
}

} // verus!
