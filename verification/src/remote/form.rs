//! The `application/x-www-form-urlencoded` writing of query strings, and the
//! laws that tie it to the reading of query parameters.

use vstd::prelude::*;

use crate::remote::query;
use crate::text;

verus! {

/// The bytes that stand for themselves.
pub open spec fn stands_for_itself(byte: u8) -> bool {
    ||| 48 <= byte <= 57
    ||| 65 <= byte <= 90
    ||| 97 <= byte <= 122
    ||| byte == 42
    ||| byte == 45
    ||| byte == 46
    ||| byte == 95
}

/// The hexadecimal digit, in capitals, for a number below sixteen.
pub open spec fn hex_capital(n: u8) -> char {
    if n < 10 {
        (48 + n) as char
    } else {
        (55 + n) as char
    }
}

/// How a byte is written: a space as a plus sign, another byte that does not stand
/// for itself as a percent sign and two hexadecimal digits.
pub open spec fn form_byte(byte: u8) -> Seq<char> {
    if stands_for_itself(byte) {
        seq![byte as char]
    } else if byte == 32 {
        seq!['+']
    } else {
        seq!['%'].push(hex_capital(byte / 16)).push(hex_capital(byte % 16))
    }
}

/// How bytes are written.
pub open spec fn form_bytes(bytes: Seq<u8>) -> Seq<char>
    decreases bytes.len(),
{
    if bytes.len() == 0 {
        Seq::empty()
    } else {
        form_byte(bytes[0]) + form_bytes(bytes.skip(1))
    }
}

/// How a name or a value is written.
pub open spec fn form_encoded(s: Seq<char>) -> Seq<char> {
    form_bytes(vstd::utf8::encode_utf8(s))
}

/// How a name and its value are written.
pub open spec fn form_pair(name: Seq<char>, value: Seq<char>) -> Seq<char> {
    form_encoded(name) + seq!['='] + form_encoded(value)
}

/// How pairs of names and values are written.
pub open spec fn form_query(pairs: Seq<(Seq<char>, Seq<char>)>) -> Seq<char>
    decreases pairs.len(),
{
    if pairs.len() == 0 {
        Seq::empty()
    } else if pairs.len() == 1 {
        form_pair(pairs[0].0, pairs[0].1)
    } else {
        form_pair(pairs[0].0, pairs[0].1) + seq!['&'] + form_query(pairs.skip(1))
    }
}

/// A query with one more pair.
pub open spec fn query_with_pair(
    query: Option<Seq<char>>,
    name: Seq<char>,
    value: Seq<char>,
) -> Seq<char> {
    match query {
        Some(before) => if before.len() == 0 {
            form_pair(name, value)
        } else {
            before + seq!['&'] + form_pair(name, value)
        },
        None => form_pair(name, value),
    }
}

/// The value of the first pair with a name.
pub open spec fn first_with_name(
    pairs: Seq<(Seq<char>, Seq<char>)>,
    name: Seq<char>,
) -> Option<Seq<char>>
    decreases pairs.len(),
{
    if pairs.len() == 0 {
        None
    } else if pairs[0].0 == name {
        Some(pairs[0].1)
    } else {
        first_with_name(pairs.skip(1), name)
    }
}

/// The characters that stand for themselves.
pub open spec fn is_plain_char(c: char) -> bool {
    ||| '0' <= c <= '9'
    ||| 'A' <= c <= 'Z'
    ||| 'a' <= c <= 'z'
    ||| c == '*'
    ||| c == '-'
    ||| c == '.'
    ||| c == '_'
}

/// `s` is made of characters that stand for themselves, and there is at least one.
pub open spec fn is_plain_name(s: Seq<char>) -> bool {
    &&& s.len() > 0
    &&& forall|i: int| 0 <= i < s.len() ==> is_plain_char(#[trigger] s[i])
}

/// The byte of each character of an ASCII text.
spec fn ascii_bytes(s: Seq<char>) -> Seq<u8> {
    s.map_values(|c: char| c as u8)
}

proof fn lemma_form_byte(byte: u8)
    ensures
        form_byte(byte).len() > 0,
        vstd::utf8::is_ascii_chars(form_byte(byte)),
        !form_byte(byte).contains('&'),
        !form_byte(byte).contains('='),
        !form_byte(byte).contains('#'),
{
    let chars = form_byte(byte);
    assert forall|i: int| 0 <= i < chars.len() implies 0 <= #[trigger] chars[i] as u32 && (
    chars[i] as u32) < 128 && chars[i] != '&' && chars[i] != '=' && chars[i] != '#' by {}
}

/// Writing a byte and reading it back gives the byte.
proof fn lemma_byte_reads_back(byte: u8, rest: Seq<u8>)
    ensures
        query::percent_decoded(ascii_bytes(form_byte(byte)) + rest) == seq![byte]
            + query::percent_decoded(rest),
{
    let bytes = ascii_bytes(form_byte(byte)) + rest;
    if stands_for_itself(byte) {
        assert(bytes[0] == byte);
        assert(bytes.skip(1) =~= rest);
        assert(bytes.take(1) =~= seq![byte]);
    } else if byte == 32 {
        assert(bytes[0] == 43);
        assert(bytes.skip(1) =~= rest);
    } else {
        assert(bytes[0] == 37);
        assert(bytes[1] == hex_capital(byte / 16) as u8);
        assert(bytes[2] == hex_capital(byte % 16) as u8);
        assert(bytes.skip(3) =~= rest);
        assert(byte / 16 < 16 && byte % 16 < 16 && byte / 16 * 16 + byte % 16 == byte)
            by (nonlinear_arith);
    }
}

proof fn lemma_form_bytes(bytes: Seq<u8>)
    ensures
        vstd::utf8::is_ascii_chars(form_bytes(bytes)),
        !form_bytes(bytes).contains('&'),
        !form_bytes(bytes).contains('='),
        !form_bytes(bytes).contains('#'),
        query::percent_decoded(ascii_bytes(form_bytes(bytes))) == bytes,
    decreases bytes.len(),
{
    if bytes.len() == 0 {
        assert(ascii_bytes(form_bytes(bytes)) =~= bytes);
    } else {
        let first = form_byte(bytes[0]);
        let rest = form_bytes(bytes.skip(1));
        lemma_form_byte(bytes[0]);
        lemma_form_bytes(bytes.skip(1));
        let all = form_bytes(bytes);
        assert forall|i: int| 0 <= i < all.len() implies 0 <= #[trigger] all[i] as u32 && (
        all[i] as u32) < 128 && all[i] != '&' && all[i] != '=' && all[i] != '#' by {
            if i < first.len() {
                assert(all[i] == first[i]);
                assert(first.contains(first[i]));
            } else {
                assert(all[i] == rest[i - first.len()]);
                assert(rest.contains(rest[i - first.len()]));
            }
        }
        assert(ascii_bytes(all) =~= ascii_bytes(first) + ascii_bytes(rest));
        lemma_byte_reads_back(bytes[0], ascii_bytes(rest));
        assert(seq![bytes[0]] + bytes.skip(1) =~= bytes);
    }
}

proof fn lemma_ascii_encoding(s: Seq<char>)
    requires
        vstd::utf8::is_ascii_chars(s),
    ensures
        vstd::utf8::encode_utf8(s) == ascii_bytes(s),
{
    vstd::utf8::is_ascii_chars_encode_utf8(s);
    assert(vstd::utf8::encode_utf8(s) =~= ascii_bytes(s));
}

/// Reading what was written of a value gives the value.
pub proof fn law_value_reads_back(value: Seq<char>)
    ensures
        query::decoded_value(form_encoded(value)) == value,
{
    let bytes = vstd::utf8::encode_utf8(value);
    lemma_form_bytes(bytes);
    lemma_ascii_encoding(form_bytes(bytes));
    vstd::utf8::encode_utf8_valid_utf8(value);
    vstd::utf8::encode_utf8_decode_utf8(value);
}

/// A plain name is written as it is.
pub proof fn lemma_plain_name(name: Seq<char>)
    requires
        is_plain_name(name),
    ensures
        form_encoded(name) == name,
{
    assert(vstd::utf8::is_ascii_chars(name));
    lemma_ascii_encoding(name);
    lemma_plain_bytes(name);
}

proof fn lemma_plain_bytes(s: Seq<char>)
    requires
        forall|i: int| 0 <= i < s.len() ==> is_plain_char(#[trigger] s[i]),
    ensures
        form_bytes(ascii_bytes(s)) == s,
    decreases s.len(),
{
    if s.len() > 0 {
        let rest = s.skip(1);
        assert forall|i: int| 0 <= i < rest.len() implies is_plain_char(#[trigger] rest[i]) by {
            assert(rest[i] == s[i + 1]);
        }
        lemma_plain_bytes(rest);
        assert(ascii_bytes(s).skip(1) =~= ascii_bytes(rest));
        assert(ascii_bytes(s)[0] == s[0] as u8);
        assert(stands_for_itself(s[0] as u8));
        assert((s[0] as u8) as char == s[0]);
        assert(seq![s[0]] + rest =~= s);
    }
}

proof fn lemma_form_pair(name: Seq<char>, value: Seq<char>)
    ensures
        !form_pair(name, value).contains('&'),
        !form_pair(name, value).contains('#'),
        query::pair_key(form_pair(name, value)) == form_encoded(name),
        query::pair_value(form_pair(name, value)) == form_encoded(value),
{
    let pair = form_pair(name, value);
    let key = form_encoded(name);
    lemma_form_bytes(vstd::utf8::encode_utf8(name));
    lemma_form_bytes(vstd::utf8::encode_utf8(value));
    assert forall|j: int| 0 <= j < pair.len() implies pair[j] != '&' && pair[j] != '#' by {
        if j < key.len() {
            assert(key.contains(key[j]));
        } else if j > key.len() {
            assert(form_encoded(value).contains(form_encoded(value)[j - key.len() - 1]));
        }
    }
    assert forall|j: int| 0 <= j < key.len() implies pair[j] != '=' by {
        assert(key.contains(key[j]));
    }
    text::lemma_position_is(pair, '=', key.len() as int);
    assert(pair.take(key.len() as int) =~= key);
    assert(pair.skip(key.len() as int + 1) =~= form_encoded(value));
}

/// Reading a parameter of a query that was written gives the value of the first
/// pair with that name. The names are plain: a name that is not would be written
/// in another form, and is looked up by the form in which it stands.
pub proof fn law_query_reads_back(pairs: Seq<(Seq<char>, Seq<char>)>, name: Seq<char>)
    requires
        is_plain_name(name),
        forall|i: int| 0 <= i < pairs.len() ==> is_plain_name(#[trigger] pairs[i].0),
    ensures
        query::query_value(form_query(pairs), name) == first_with_name(pairs, name),
    decreases pairs.len(),
{
    if pairs.len() == 0 {
        text::lemma_split_one(form_query(pairs), '&');
        let pieces = text::split_on(form_query(pairs), '&');
        assert(pieces.drop_first() =~= Seq::empty());
        assert(query::pair_key(pieces[0]).len() == 0);
        assert(query::first_value(pieces.drop_first(), name) is None);
    } else {
        let (first, value) = pairs[0];
        let rest = pairs.skip(1);
        lemma_form_pair(first, value);
        lemma_plain_name(first);
        law_value_reads_back(value);
        let pieces = text::split_on(form_query(pairs), '&');
        if pairs.len() == 1 {
            text::lemma_split_one(form_query(pairs), '&');
            assert(pieces.drop_first() =~= Seq::empty());
            assert(query::first_value(pieces.drop_first(), name) is None);
            assert(first_with_name(rest, name) is None);
        } else {
            assert forall|i: int| 0 <= i < rest.len() implies is_plain_name(
                #[trigger] rest[i].0,
            ) by {
                assert(rest[i] == pairs[i + 1]);
            }
            text::lemma_split_first(form_pair(first, value), form_query(rest), '&');
            assert(pieces.drop_first() =~= text::split_on(form_query(rest), '&'));
            law_query_reads_back(rest, name);
        }
    }
}

/// The pairs that a query holds, with their names and values decoded.
pub open spec fn decoded_pairs(query: Seq<char>) -> Seq<(Seq<char>, Seq<char>)> {
    text::split_on(query, '&').map_values(
        |pair: Seq<char>|
            (
                query::decoded_value(query::pair_key(pair)),
                query::decoded_value(query::pair_value(pair)),
            ),
    )
}

/// A query that was written holds the pairs that it was written of, and no others.
/// An empty query holds one pair of empty texts.
pub proof fn law_query_holds_its_pairs(pairs: Seq<(Seq<char>, Seq<char>)>)
    requires
        pairs.len() > 0,
    ensures
        decoded_pairs(form_query(pairs)) == pairs,
    decreases pairs.len(),
{
    let (name, value) = pairs[0];
    let rest = pairs.skip(1);
    let written = form_query(pairs);
    lemma_form_pair(name, value);
    law_value_reads_back(name);
    law_value_reads_back(value);
    if pairs.len() == 1 {
        text::lemma_split_one(written, '&');
        assert(decoded_pairs(written) =~= pairs);
    } else {
        text::lemma_split_first(form_pair(name, value), form_query(rest), '&');
        law_query_holds_its_pairs(rest);
        assert(decoded_pairs(written) =~= seq![(name, value)] + decoded_pairs(form_query(rest)));
        assert(seq![(name, value)] + rest =~= pairs);
    }
}

/// A query that was written holds no number sign.
pub proof fn lemma_form_query_without_number_sign(pairs: Seq<(Seq<char>, Seq<char>)>)
    ensures
        !form_query(pairs).contains('#'),
    decreases pairs.len(),
{
    if pairs.len() > 0 {
        let first = form_pair(pairs[0].0, pairs[0].1);
        let rest = form_query(pairs.skip(1));
        let written = form_query(pairs);
        lemma_form_pair(pairs[0].0, pairs[0].1);
        lemma_form_query_without_number_sign(pairs.skip(1));
        if pairs.len() > 1 {
            assert forall|j: int| 0 <= j < written.len() implies written[j] != '#' by {
                if j < first.len() {
                    assert(first.contains(first[j]));
                } else if j > first.len() {
                    assert(rest.contains(rest[j - first.len() - 1]));
                }
            }
        }
    }
}

/// Appending a pair to the query of some pairs gives the query of all of them.
pub proof fn lemma_form_query_push(
    pairs: Seq<(Seq<char>, Seq<char>)>,
    name: Seq<char>,
    value: Seq<char>,
)
    ensures
        form_query(pairs.push((name, value))) == query_with_pair(
            Some(form_query(pairs)),
            name,
            value,
        ),
        pairs.len() > 0 ==> form_query(pairs).len() > 0,
    decreases pairs.len(),
{
    let more = pairs.push((name, value));
    if pairs.len() > 0 {
        let rest = pairs.skip(1);
        lemma_form_query_push(rest, name, value);
        assert(more.skip(1) =~= rest.push((name, value)));
        if pairs.len() == 1 {
            assert(form_query(more.skip(1)) == form_pair(name, value));
        } else {
            let first = form_pair(pairs[0].0, pairs[0].1);
            assert(form_query(more) =~= first + seq!['&'] + form_query(more.skip(1)));
            assert(first + seq!['&'] + (form_query(rest) + seq!['&'] + form_pair(name, value))
                =~= form_query(pairs) + seq!['&'] + form_pair(name, value));
        }
    }
}

/// How a byte is written: letters, digits and four signs as they are, a space as a plus
/// sign, and any other byte as a percent sign and its two hexadecimal digits, in
/// capitals.
pub proof fn law_form_byte(byte: u8)
    ensures
        ({
            let c = byte as char;
            let plain = '0' <= c <= '9' || 'A' <= c <= 'Z' || 'a' <= c <= 'z' || c == '*' || c
                == '-' || c == '.' || c == '_';
            let written = form_byte(byte);
            &&& plain ==> written.len() == 1 && written[0] == c
            &&& c == ' ' ==> written.len() == 1 && written[0] == '+'
            &&& !plain && c != ' ' ==> written.len() == 3 && written[0] == '%'
                && query::hex_digit_value(written[1] as u8) == Some(byte / 16)
                && query::hex_digit_value(written[2] as u8) == Some(byte % 16) && !('a'
                <= written[1] <= 'f') && !('a' <= written[2] <= 'f')
        }),
{
}

/// A text is written byte by byte, one behind the other.
pub proof fn law_form_bytes(a: Seq<u8>, b: Seq<u8>)
    ensures
        form_bytes(a + b) == form_bytes(a) + form_bytes(b),
        a.len() == 1 ==> form_bytes(a) == form_byte(a[0]),
    decreases a.len(),
{
    if a.len() == 0 {
        assert(a + b =~= b);
        assert(form_bytes(a) + form_bytes(b) =~= form_bytes(b));
    } else {
        law_form_bytes(a.skip(1), b);
        assert((a + b).skip(1) =~= a.skip(1) + b);
        assert(form_bytes(a + b) =~= form_bytes(a) + form_bytes(b));
        if a.len() == 1 {
            assert(a.skip(1).len() == 0);
            assert(form_bytes(a) =~= form_byte(a[0]));
        }
    }
}

} // verus!
