//! Tokens: secrets made of random bytes.

use rand::RngCore;
use vstd::prelude::*;

use crate::text::{chars_of, joined, text_of};

verus! {

/// The number of random bytes in a token.
pub const TOKEN_BYTES: usize = 32;

/// The hexadecimal digit, in small letters, for a number below sixteen.
pub open spec fn hex_digit(n: u8) -> char {
    if n < 10 {
        (48 + n) as char
    } else {
        (87 + n) as char
    }
}

/// Bytes in hexadecimal notation, two digits for each.
pub open spec fn hex_text(bytes: Seq<u8>) -> Seq<char> {
    Seq::new(
        2 * bytes.len(),
        |i: int|
            if i % 2 == 0 {
                hex_digit(bytes[i / 2] / 16)
            } else {
                hex_digit(bytes[i / 2] % 16)
            },
    )
}

/// A digit of hexadecimal notation in small letters.
pub open spec fn is_hex_digit(c: char) -> bool {
    '0' <= c <= '9' || 'a' <= c <= 'f'
}

/// A token: two hexadecimal digits for each of its bytes.
pub open spec fn is_token(s: Seq<char>) -> bool {
    &&& s.len() == 2 * TOKEN_BYTES
    &&& forall|i: int| 0 <= i < s.len() ==> is_hex_digit(#[trigger] s[i])
}

/// The identifier of a connection: a prefix that says what it is for, and the
/// first half of a token.
pub open spec fn connection_id(token: Seq<char>) -> Seq<char> {
    "relay-host-"@ + token.take(TOKEN_BYTES as int)
}

/// Calls `rand::rngs::OsRng` to fill bytes with random ones. Nothing is claimed of
/// the bytes: they are the operating system's choice. Where the system has no
/// randomness to give, the call panics.
#[verifier::external_body]
fn random_bytes() -> (r: [u8; 32]) {
    let mut bytes = [0u8; 32];
    rand::rngs::OsRng.fill_bytes(&mut bytes);
    bytes
}

/// The hexadecimal digit, in small letters, for a number below sixteen.
fn hex_char(n: u8) -> (r: char)
    requires
        n < 16,
    ensures
        r == hex_digit(n),
{
    if n < 10 {
        (48 + n) as char
    } else {
        (87 + n) as char
    }
}

/// Bytes in hexadecimal notation.
pub fn hex_from_bytes(bytes: &[u8]) -> (r: String)
    ensures
        r@ == hex_text(bytes@),
{
    let mut out = String::new();
    let mut i: usize = 0;
    while i < bytes.len()
        invariant
            i <= bytes.len(),
            out@ == hex_text(bytes@.take(i as int)),
        decreases bytes.len() - i,
    {
        out.push(hex_char(bytes[i] / 16));
        out.push(hex_char(bytes[i] % 16));
        i = i + 1;
        proof {
            assert(out@ =~= hex_text(bytes@.take(i as int)));
        }
    }
    proof {
        assert(bytes@.take(i as int) =~= bytes@);
    }
    out
}

/// A new token.
pub fn make_token() -> (r: String)
    ensures
        is_token(r@),
{
    let bytes = random_bytes();
    proof {
        law_token_of_bytes(bytes@);
    }
    hex_from_bytes(bytes.as_slice())
}

/// The identifier of a connection, made of a token.
pub fn relay_connection_id(token: &str) -> (r: String)
    requires
        is_token(token@),
    ensures
        r@ == connection_id(token@),
{
    let chars = chars_of(token);
    let start = text_of(&chars, 0, TOKEN_BYTES);
    joined("relay-host-", start.as_str())
}

/// The identifier of a new connection.
pub fn make_relay_connection_id() -> (r: String)
    ensures
        exists|token: Seq<char>| is_token(token) && r@ == #[trigger] connection_id(token),
{
    let token = make_token();
    relay_connection_id(token.as_str())
}

/// Bytes of the right number make a token.
pub proof fn law_token_of_bytes(bytes: Seq<u8>)
    requires
        bytes.len() == TOKEN_BYTES,
    ensures
        is_token(hex_text(bytes)),
{
}

/// Different bytes make different tokens: nothing of their randomness is lost.
pub proof fn law_tokens_keep_their_bytes(a: Seq<u8>, b: Seq<u8>)
    requires
        hex_text(a) == hex_text(b),
    ensures
        a == b,
{
    assert(hex_text(a).len() == 2 * a.len() && hex_text(b).len() == 2 * b.len());
    assert forall|i: int| 0 <= i < a.len() implies a[i] == b[i] by {
        assert((2 * i) % 2 == 0 && (2 * i) / 2 == i);
        assert((2 * i + 1) % 2 == 1 && (2 * i + 1) / 2 == i);
        assert(hex_text(a)[2 * i] == hex_digit(a[i] / 16));
        assert(hex_text(b)[2 * i] == hex_digit(b[i] / 16));
        assert(hex_text(a)[2 * i + 1] == hex_digit(a[i] % 16));
        assert(hex_text(b)[2 * i + 1] == hex_digit(b[i] % 16));
        assert(a[i] == a[i] / 16 * 16 + a[i] % 16);
        assert(b[i] == b[i] / 16 * 16 + b[i] % 16);
        lemma_hex_digit(a[i] / 16, b[i] / 16);
        lemma_hex_digit(a[i] % 16, b[i] % 16);
    }
    assert(a =~= b);
}

proof fn lemma_hex_digit(m: u8, n: u8)
    requires
        m < 16,
        n < 16,
        hex_digit(m) == hex_digit(n),
    ensures
        m == n,
{
}

/// Every connection identifier has the prefix, and as many digits as a token has
/// bytes behind it.
pub proof fn law_connection_id_shape(token: Seq<char>)
    requires
        is_token(token),
    ensures
        "relay-host-"@.is_prefix_of(connection_id(token)),
        connection_id(token).len() == "relay-host-"@.len() + TOKEN_BYTES,
        forall|i: int|
            "relay-host-"@.len() <= i < connection_id(token).len() ==> is_hex_digit(
                #[trigger] connection_id(token)[i],
            ),
{
    let prefix = "relay-host-"@;
    let id = connection_id(token);
    assert(id.take(prefix.len() as int) =~= prefix);
    assert forall|i: int| prefix.len() <= i < id.len() implies is_hex_digit(#[trigger] id[i]) by {
        assert(id[i] == token[i - prefix.len()]);
    }
}

/// The digits of each byte, read as a number of base sixteen, give the byte.
pub proof fn law_hex_text(bytes: Seq<u8>, i: int)
    requires
        0 <= i < bytes.len(),
    ensures
        hex_text(bytes).len() == 2 * bytes.len(),
        ({
            let high = hex_text(bytes)[2 * i];
            let low = hex_text(bytes)[2 * i + 1];
            &&& is_hex_digit(high) && is_hex_digit(low)
            &&& bytes[i] == 16 * (if high <= '9' {
                high as int - '0' as int
            } else {
                high as int - 'a' as int + 10
            }) + (if low <= '9' {
                low as int - '0' as int
            } else {
                low as int - 'a' as int + 10
            })
        }),
{
    assert((2 * i) % 2 == 0 && (2 * i) / 2 == i);
    assert((2 * i + 1) % 2 == 1 && (2 * i + 1) / 2 == i);
    assert(hex_text(bytes)[2 * i] == hex_digit(bytes[i] / 16));
    assert(hex_text(bytes)[2 * i + 1] == hex_digit(bytes[i] % 16));
}

/// A token has sixty-four digits, each a small hexadecimal one.
pub proof fn law_token_shape(s: Seq<char>)
    ensures
        is_token(s) <==> s.len() == 64 && forall|i: int|
            0 <= i < s.len() ==> '0' <= #[trigger] s[i] <= '9' || 'a' <= s[i] <= 'f',
{
    if s.len() == 64 && forall|i: int|
        0 <= i < s.len() ==> '0' <= #[trigger] s[i] <= '9' || 'a' <= s[i] <= 'f' {
        assert forall|i: int| 0 <= i < s.len() implies is_hex_digit(#[trigger] s[i]) by {}
    }
    if is_token(s) {
        assert forall|i: int| 0 <= i < s.len() implies '0' <= #[trigger] s[i] <= '9' || 'a' <= s[i]
            <= 'f' by {
            assert(is_hex_digit(s[i]));
        }
    }
}

/// The identifier of a connection ends with the first half of the token.
pub proof fn law_connection_id(half: Seq<char>, rest: Seq<char>)
    requires
        half.len() == 32,
        rest.len() == 32,
    ensures
        connection_id(half + rest) == "relay-host-"@ + half,
{
    assert((half + rest).take(32) =~= half);
}

} // verus!
