//! Query strings, and the comparison of secrets.

use vstd::prelude::*;

use crate::remote::token;
use crate::text;
use crate::text::{chars_of, split, text_eq, text_of};

verus! {

/// The text that `String::from_utf8_lossy` makes of bytes that are not UTF-8.
pub uninterp spec fn utf8_repaired(bytes: Seq<u8>) -> Seq<char>;

/// The text that bytes stand for. Bytes that are not UTF-8 are repaired.
pub open spec fn lossy_text(bytes: Seq<u8>) -> Seq<char> {
    if vstd::utf8::valid_utf8(bytes) {
        vstd::utf8::decode_utf8(bytes)
    } else {
        utf8_repaired(bytes)
    }
}

/// The number that a hexadecimal digit stands for.
pub open spec fn hex_digit_value(byte: u8) -> Option<u8> {
    if 48 <= byte <= 57 {
        Some((byte - 48) as u8)
    } else if 97 <= byte <= 102 {
        Some((byte - 97 + 10) as u8)
    } else if 65 <= byte <= 70 {
        Some((byte - 65 + 10) as u8)
    } else {
        None
    }
}

/// The bytes that a query value stands for: a plus sign is a space, and a percent
/// sign with two hexadecimal digits is the byte with that number. A percent sign
/// that is not followed by two such digits stands for itself, as do the two bytes
/// behind it.
pub open spec fn percent_decoded(bytes: Seq<u8>) -> Seq<u8>
    decreases bytes.len(),
{
    if bytes.len() == 0 {
        Seq::empty()
    } else if bytes[0] == 43 {
        seq![32u8] + percent_decoded(bytes.skip(1))
    } else if bytes[0] == 37 {
        if bytes.len() < 3 {
            bytes
        } else {
            match (hex_digit_value(bytes[1]), hex_digit_value(bytes[2])) {
                (Some(high), Some(low)) => seq![(high * 16 + low) as u8] + percent_decoded(
                    bytes.skip(3),
                ),
                _ => bytes.take(3) + percent_decoded(bytes.skip(3)),
            }
        }
    } else {
        bytes.take(1) + percent_decoded(bytes.skip(1))
    }
}

/// The text that a query value stands for.
pub open spec fn decoded_value(value: Seq<char>) -> Seq<char> {
    lossy_text(percent_decoded(vstd::utf8::encode_utf8(value)))
}

/// The part of a pair before its first equals sign.
pub open spec fn pair_key(pair: Seq<char>) -> Seq<char> {
    pair.take(text::position(pair, '='))
}

/// The part of a pair behind its first equals sign; empty where there is none.
pub open spec fn pair_value(pair: Seq<char>) -> Seq<char> {
    if text::position(pair, '=') < pair.len() {
        pair.skip(text::position(pair, '=') + 1)
    } else {
        Seq::empty()
    }
}

/// The undecoded value of the first pair whose key is `name`.
pub open spec fn first_value(pairs: Seq<Seq<char>>, name: Seq<char>) -> Option<Seq<char>>
    decreases pairs.len(),
{
    if pairs.len() == 0 {
        None
    } else if pair_key(pairs[0]) == name {
        Some(pair_value(pairs[0]))
    } else {
        first_value(pairs.drop_first(), name)
    }
}

/// The value of the parameter `name` in a query string.
pub open spec fn query_value(query: Seq<char>, name: Seq<char>) -> Option<Seq<char>> {
    match first_value(text::split_on(query, '&'), name) {
        Some(value) => Some(decoded_value(value)),
        None => None,
    }
}

/// Calls `String::from_utf8_lossy`: valid UTF-8 is decoded. What stands for bytes
/// that are not UTF-8 is only named here.
#[verifier::external_body]
fn text_from_bytes(bytes: &Vec<u8>) -> (r: String)
    ensures
        !vstd::utf8::valid_utf8(bytes@) ==> r@ == utf8_repaired(bytes@),
        vstd::utf8::valid_utf8(bytes@) ==> r@ == vstd::utf8::decode_utf8(bytes@),
{
    String::from_utf8_lossy(bytes).into_owned()
}

/// The number that a hexadecimal digit stands for.
pub fn hex_value(byte: u8) -> (r: Option<u8>)
    ensures
        r == hex_digit_value(byte),
{
    if 48 <= byte && byte <= 57 {
        Some(byte - 48)
    } else if 97 <= byte && byte <= 102 {
        Some(byte - 97 + 10)
    } else if 65 <= byte && byte <= 70 {
        Some(byte - 65 + 10)
    } else {
        None
    }
}

/// The bytes that a query value stands for.
pub fn percent_decode_bytes(value: &[u8]) -> (r: Vec<u8>)
    ensures
        r@ == percent_decoded(value@),
{
    let mut bytes: Vec<u8> = Vec::new();
    let mut i: usize = 0;
    proof {
        assert(value@.skip(0) =~= value@);
        assert(bytes@ + percent_decoded(value@) =~= percent_decoded(value@));
    }
    while i < value.len()
        invariant
            i <= value.len(),
            percent_decoded(value@) == bytes@ + percent_decoded(value@.skip(i as int)),
        decreases value.len() - i,
    {
        let byte = value[i];
        let ghost rest = value@.skip(i as int);
        let ghost done = bytes@;
        if byte == 43 {
            bytes.push(32);
            proof {
                assert(rest.skip(1) =~= value@.skip(i + 1));
                assert(done + (seq![32u8] + percent_decoded(rest.skip(1))) =~= bytes@
                    + percent_decoded(value@.skip(i + 1)));
            }
            i = i + 1;
        } else if byte == 37 {
            if value.len() - i < 3 {
                while i < value.len()
                    invariant
                        i <= value.len(),
                        percent_decoded(value@) == bytes@ + value@.skip(i as int),
                    decreases value.len() - i,
                {
                    let ghost done = bytes@;
                    bytes.push(value[i]);
                    proof {
                        assert(done + value@.skip(i as int) =~= bytes@ + value@.skip(i + 1));
                    }
                    i = i + 1;
                }
                proof {
                    assert(value@.skip(i as int) =~= Seq::<u8>::empty());
                }
            } else {
                let first = value[i + 1];
                let second = value[i + 2];
                proof {
                    assert(rest.skip(3) =~= value@.skip(i + 3));
                }
                match (hex_value(first), hex_value(second)) {
                    (Some(high), Some(low)) => {
                        proof {
                            assert(((high << 4) | low) == high * 16 + low) by (bit_vector)
                                requires
                                    high < 16,
                                    low < 16,
                            ;
                        }
                        bytes.push((high << 4) | low);
                        proof {
                            assert(done + (seq![(high * 16 + low) as u8] + percent_decoded(
                                rest.skip(3),
                            )) =~= bytes@ + percent_decoded(value@.skip(i + 3)));
                        }
                    },
                    _ => {
                        bytes.push(byte);
                        bytes.push(first);
                        bytes.push(second);
                        proof {
                            assert(done + (rest.take(3) + percent_decoded(rest.skip(3))) =~= bytes@
                                + percent_decoded(value@.skip(i + 3)));
                        }
                    },
                }
                i = i + 3;
            }
        } else {
            bytes.push(byte);
            proof {
                assert(rest.skip(1) =~= value@.skip(i + 1));
                assert(done + (rest.take(1) + percent_decoded(rest.skip(1))) =~= bytes@
                    + percent_decoded(value@.skip(i + 1)));
            }
            i = i + 1;
        }
    }
    proof {
        assert(value@.skip(i as int) =~= Seq::<u8>::empty());
        assert(bytes@ + Seq::<u8>::empty() =~= bytes@);
    }
    bytes
}

/// The text that a query value stands for.
pub fn percent_decode_query_value(value: &str) -> (r: String)
    ensures
        r@ == decoded_value(value@),
{
    let bytes = percent_decode_bytes(value.as_bytes());
    text_from_bytes(&bytes)
}

/// The value of the parameter `name` in a query string.
pub fn query_param(query: &str, name: &str) -> (r: Option<String>)
    ensures
        text::opt_string(r) == query_value(query@, name@),
{
    let parts = split(query, '&');
    let mut i: usize = 0;
    proof {
        assert(text::texts(parts@).skip(0) =~= text::texts(parts@));
    }
    while i < parts.len()
        invariant
            i <= parts.len(),
            text::texts(parts@) == text::split_on(query@, '&'),
            first_value(text::split_on(query@, '&'), name@) == first_value(
                text::texts(parts@).skip(i as int),
                name@,
            ),
        decreases parts.len() - i,
    {
        proof {
            let rest = text::texts(parts@).skip(i as int);
            assert(rest[0] == parts@[i as int]@);
            assert(rest.drop_first() =~= text::texts(parts@).skip(i + 1));
        }
        let part = chars_of(parts[i].as_str());
        let mut at: usize = 0;
        while at < part.len() && part[at] != '='
            invariant
                at <= part.len(),
                forall|j: int| 0 <= j < at ==> part@[j] != '=',
            ensures
                at <= part.len(),
                forall|j: int| 0 <= j < at ==> part@[j] != '=',
                at < part.len() ==> part@[at as int] == '=',
            decreases part.len() - at,
        {
            at = at + 1;
        }
        proof {
            text::lemma_position_is(part@, '=', at as int);
        }
        let key = text_of(&part, 0, at);
        if text_eq(key.as_str(), name) {
            let value = if at < part.len() {
                text_of(&part, at + 1, part.len())
            } else {
                String::new()
            };
            proof {
                assert(value@ =~= pair_value(part@));
            }
            return Some(percent_decode_query_value(value.as_str()));
        }
        i = i + 1;
    }
    None
}

/// Whether two secrets are the same. Every byte is looked at, whatever the
/// earlier ones were.
pub fn constant_time_eq(left: &[u8], right: &[u8]) -> (r: bool)
    ensures
        r == (left@ == right@),
{
    let mut diff: usize = left.len() ^ right.len();
    let max_len: usize = if left.len() < right.len() {
        right.len()
    } else {
        left.len()
    };
    let mut index: usize = 0;
    proof {
        let a = left@.len() as usize;
        let b = right@.len() as usize;
        assert((a ^ b) == 0 <==> a == b) by (bit_vector);
    }
    while index < max_len
        invariant
            index <= max_len,
            left.len() <= max_len,
            right.len() <= max_len,
            max_len == left.len() || max_len == right.len(),
            diff == 0 <==> left.len() == right.len() && (forall|i: int|
                0 <= i < index ==> left@[i] == right@[i]),
        decreases max_len - index,
    {
        let left_byte: u8 = if index < left.len() {
            left[index]
        } else {
            0
        };
        let right_byte: u8 = if index < right.len() {
            right[index]
        } else {
            0
        };
        let change: usize = (left_byte ^ right_byte) as usize;
        proof {
            assert((left_byte ^ right_byte) == 0 <==> left_byte == right_byte) by (bit_vector);
            assert((diff | change) == 0 <==> diff == 0 && change == 0) by (bit_vector);
        }
        diff = diff | change;
        index = index + 1;
    }
    proof {
        if diff == 0 {
            assert(left@ =~= right@);
        }
    }
    diff == 0
}

/// A hexadecimal digit stands for its number, whether its letter is small or capital,
/// and no other character stands for one.
pub proof fn law_hex_digits(byte: u8, n: u8)
    ensures
        hex_digit_value(byte) == Some(n) <==> {
            ||| n < 10 && byte == '0' as int + n
            ||| 10 <= n < 16 && byte == 'a' as int + n - 10
            ||| 10 <= n < 16 && byte == 'A' as int + n - 10
        },
        n < 16 ==> hex_digit_value(token::hex_digit(n) as u8) == Some(n),
{
}

/// What a query value stands for, byte by byte: a plus sign for a space, a percent sign
/// with the two digits of a number for the byte with that number, and any other byte for
/// itself.
pub proof fn law_percent_decoding(byte: u8, high: u8, low: u8, rest: Seq<u8>)
    ensures
        percent_decoded(Seq::empty()) == Seq::<u8>::empty(),
        byte != '+' as u8 && byte != '%' as u8 ==> percent_decoded(seq![byte] + rest) == seq![byte]
            + percent_decoded(rest),
        percent_decoded(seq!['+' as u8] + rest) == seq![' ' as u8] + percent_decoded(rest),
        hex_digit_value(high) is Some && hex_digit_value(low) is Some ==> percent_decoded(
            seq!['%' as u8, high, low] + rest,
        ) == seq![(hex_digit_value(high)->Some_0 * 16 + hex_digit_value(low)->Some_0) as u8]
            + percent_decoded(rest),
        hex_digit_value(high) is None || hex_digit_value(low) is None ==> percent_decoded(
            seq!['%' as u8, high, low] + rest,
        ) == seq!['%' as u8, high, low] + percent_decoded(rest),
        rest.len() < 2 ==> percent_decoded(seq!['%' as u8] + rest) == seq!['%' as u8] + rest,
{
    let one = seq![byte] + rest;
    assert(one.skip(1) =~= rest);
    assert(one.take(1) =~= seq![byte]);
    let plus = seq!['+' as u8] + rest;
    assert(plus.skip(1) =~= rest);
    let three = seq!['%' as u8, high, low] + rest;
    assert(three.skip(3) =~= rest);
    assert(three.take(3) =~= seq!['%' as u8, high, low]);
    assert(three[1] == high && three[2] == low);
}

/// Every byte, written as a percent sign and its two digits, is read back.
pub proof fn law_escaped_byte_reads_back(byte: u8, rest: Seq<u8>)
    ensures
        percent_decoded(
            seq![
                '%' as u8,
                token::hex_digit(byte / 16) as u8,
                token::hex_digit(byte % 16) as u8,
            ] + rest,
        ) == seq![byte] + percent_decoded(rest),
{
    law_hex_digits(0, byte / 16);
    law_hex_digits(0, byte % 16);
    assert(byte == byte / 16 * 16 + byte % 16);
    law_percent_decoding(
        0,
        token::hex_digit(byte / 16) as u8,
        token::hex_digit(byte % 16) as u8,
        rest,
    );
}

/// A pair is its key, an equals sign and its value, and the key holds no equals sign; a
/// pair without one is a key alone.
pub proof fn law_pair(pair: Seq<char>)
    ensures
        !pair_key(pair).contains('='),
        pair.contains('=') ==> pair == pair_key(pair) + seq!['='] + pair_value(pair),
        !pair.contains('=') ==> pair_key(pair) == pair && pair_value(pair).len() == 0,
{
    let at = text::position(pair, '=');
    text::lemma_position(pair, '=');
    assert forall|j: int| 0 <= j < at implies pair[j] != '=' by {}
    if at < pair.len() {
        assert(pair[at] == '=');
        assert(pair =~= pair_key(pair) + seq!['='] + pair_value(pair));
    } else {
        assert(pair_key(pair) =~= pair);
        if pair.contains('=') {
            let j = choose|j: int| 0 <= j < pair.len() && pair[j] == '=';
            assert(pair[j] != '=');
        }
    }
}

/// The value of a parameter is that of the first pair with its name: no pair before
/// that one has the name. A query without such a pair has no value for it.
pub proof fn law_query_value(query: Seq<char>, name: Seq<char>, k: int)
    ensures
        ({
            let pairs = text::split_on(query, '&');
            &&& 0 <= k < pairs.len() && pair_key(pairs[k]) == name && (forall|j: int|
                0 <= j < k ==> pair_key(#[trigger] pairs[j]) != name) ==> query_value(query, name)
                == Some(decoded_value(pair_value(pairs[k])))
            &&& (forall|j: int| 0 <= j < pairs.len() ==> pair_key(#[trigger] pairs[j]) != name)
                ==> query_value(query, name) is None
        }),
{
    lemma_first_value(text::split_on(query, '&'), name, k);
}

proof fn lemma_first_value(pairs: Seq<Seq<char>>, name: Seq<char>, k: int)
    ensures
        0 <= k < pairs.len() && pair_key(pairs[k]) == name && (forall|j: int|
            0 <= j < k ==> pair_key(#[trigger] pairs[j]) != name) ==> first_value(pairs, name)
            == Some(pair_value(pairs[k])),
        (forall|j: int| 0 <= j < pairs.len() ==> pair_key(#[trigger] pairs[j]) != name)
            ==> first_value(pairs, name) is None,
    decreases pairs.len(),
{
    if pairs.len() > 0 {
        let rest = pairs.drop_first();
        lemma_first_value(rest, name, k - 1);
        assert forall|j: int| 0 <= j < rest.len() implies rest[j] == #[trigger] pairs[j + 1] by {}
        if 0 < k < pairs.len() && (forall|j: int|
            0 <= j < k ==> pair_key(#[trigger] pairs[j]) != name) {
            assert(pair_key(pairs[0]) != name);
            assert forall|j: int| 0 <= j < k - 1 implies pair_key(#[trigger] rest[j]) != name by {
                assert(rest[j] == pairs[j + 1]);
            }
            assert(rest[k - 1] == pairs[k]);
        }
        if forall|j: int| 0 <= j < pairs.len() ==> pair_key(#[trigger] pairs[j]) != name {
            assert(pair_key(pairs[0]) != name);
            assert forall|j: int| 0 <= j < rest.len() implies pair_key(#[trigger] rest[j]) != name by {
                assert(rest[j] == pairs[j + 1]);
            }
        }
    }
}

/// Bytes that are UTF-8 stand for the text that they encode.
pub proof fn law_lossy_text(s: Seq<char>)
    ensures
        lossy_text(vstd::utf8::encode_utf8(s)) == s,
{
    vstd::utf8::encode_utf8_valid_utf8(s);
    vstd::utf8::encode_utf8_decode_utf8(s);
}

} // verus!
