//! Base64 text.

use vstd::prelude::*;

use crate::selection;
use crate::text;
use crate::text::chars_of;

verus! {

/// The six bits that a character of the base64 alphabet stands for.
pub open spec fn digit_value(c: char) -> Option<u8> {
    if 'A' <= c <= 'Z' {
        Some((c as u8 - 65) as u8)
    } else if 'a' <= c <= 'z' {
        Some((c as u8 - 97 + 26) as u8)
    } else if '0' <= c <= '9' {
        Some((c as u8 - 48 + 52) as u8)
    } else if c == '+' {
        Some(62u8)
    } else if c == '/' {
        Some(63u8)
    } else {
        None
    }
}

/// The characters that may stand anywhere in base64 text and mean nothing.
pub open spec fn is_blank(c: char) -> bool {
    c == '\r' || c == '\n' || c == '\t' || c == ' '
}

/// The groups of six bits that a text stands for, up to its first equals sign;
/// none where another character stands before that.
pub open spec fn sextets(s: Seq<char>) -> Option<Seq<u8>>
    decreases s.len(),
{
    if s.len() == 0 || s[0] == '=' {
        Some(Seq::empty())
    } else if is_blank(s[0]) {
        sextets(s.skip(1))
    } else {
        match (digit_value(s[0]), sextets(s.skip(1))) {
            (Some(value), Some(rest)) => Some(seq![value] + rest),
            _ => None,
        }
    }
}

/// The byte at `i` where groups of six bits are written one behind the other.
pub open spec fn byte_at(values: Seq<u8>, i: int) -> u8 {
    let g = i / 3 * 4;
    if i % 3 == 0 {
        (values[g] * 4 + values[g + 1] / 16) as u8
    } else if i % 3 == 1 {
        (values[g + 1] % 16 * 16 + values[g + 2] / 4) as u8
    } else {
        (values[g + 2] % 4 * 64 + values[g + 3]) as u8
    }
}

/// Groups of six bits written one behind the other, as far as they fill bytes.
pub open spec fn packed(values: Seq<u8>) -> Seq<u8> {
    Seq::new((values.len() * 3 / 4) as nat, |i: int| byte_at(values, i))
}

/// The bytes that a base64 text stands for.
pub open spec fn decoded(s: Seq<char>) -> Option<Seq<u8>> {
    match sextets(s) {
        Some(values) => Some(packed(values)),
        None => None,
    }
}

/// The bytes of a vector that may be missing.
pub open spec fn opt_bytes(bytes: Option<Vec<u8>>) -> Option<Seq<u8>> {
    match bytes {
        Some(v) => Some(v@),
        None => None,
    }
}

/// The six bits that a character of the base64 alphabet stands for.
fn base64_value(c: char) -> (r: Option<u8>)
    ensures
        r == digit_value(c),
        r matches Some(value) ==> value < 64,
{
    if 'A' <= c && c <= 'Z' {
        Some(c as u8 - 65)
    } else if 'a' <= c && c <= 'z' {
        Some(c as u8 - 97 + 26)
    } else if '0' <= c && c <= '9' {
        Some(c as u8 - 48 + 52)
    } else if c == '+' {
        Some(62)
    } else if c == '/' {
        Some(63)
    } else {
        None
    }
}

proof fn lemma_shift_in(buffer: u32, value: u32)
    requires
        value < 64,
    ensures
        ((buffer << 6) | value) & 63 == value,
        (((buffer << 6) | value) >> 4) & 0xff == (buffer & 63) * 4 + value / 16,
        (((buffer << 6) | value) >> 2) & 0xff == (buffer & 63) % 16 * 16 + value / 4,
        (((buffer << 6) | value) >> 0) & 0xff == (buffer & 63) % 4 * 64 + value,
{
    assert(((buffer << 6) | value) & 63 == value) by (bit_vector)
        requires
            value < 64,
    ;
    assert((((buffer << 6) | value) >> 4) & 0xff == (buffer & 63) * 4 + value / 16) by (bit_vector)
        requires
            value < 64,
    ;
    assert((((buffer << 6) | value) >> 2) & 0xff == (buffer & 63) % 16 * 16 + value / 4)
        by (bit_vector)
        requires
            value < 64,
    ;
    assert((((buffer << 6) | value) >> 0) & 0xff == (buffer & 63) % 4 * 64 + value) by (bit_vector)
        requires
            value < 64,
    ;
}

/// One more group of six bits fills one more byte, unless it is the first of four.
proof fn lemma_packed_push(values: Seq<u8>, value: u8)
    ensures
        values.len() % 4 == 0 ==> packed(values.push(value)) == packed(values),
        values.len() % 4 != 0 ==> packed(values.push(value)) == packed(values).push(
            byte_at(values.push(value), values.len() as int * 3 / 4),
        ),
{
    let more = values.push(value);
    assert forall|i: int| 0 <= i < packed(values).len() implies byte_at(more, i) == byte_at(
        values,
        i,
    ) by {
        let g = i / 3 * 4;
        assert(i < values.len() * 3 / 4);
        assert(g + i % 3 + 1 < values.len());
    }
    if values.len() % 4 == 0 {
        assert(packed(more) =~= packed(values));
    } else {
        assert(packed(more) =~= packed(values).push(byte_at(more, values.len() as int * 3 / 4)));
    }
}

/// The byte that a group of six bits completes, where the group before it stands
/// in the buffer's lowest bits.
proof fn lemma_next_byte(values: Seq<u8>, value: u8, buffer: u32, bits: u32)
    requires
        values.len() % 4 != 0,
        values.last() < 64,
        value < 64,
        buffer & 63 == values.last(),
        bits == (values.len() * 6) % 8 - 2,
    ensures
        (((buffer << 6) | value as u32) >> bits) & 0xff == byte_at(
            values.push(value),
            values.len() as int * 3 / 4,
        ),
{
    let more = values.push(value);
    let n = values.len() as int;
    lemma_shift_in(buffer, value as u32);
    assert(more[n] == value);
    assert(more[n - 1] == values.last());
    let at = n * 3 / 4;
    if n % 4 == 1 {
        assert(bits == 4);
        assert(at % 3 == 0 && at / 3 * 4 == n - 1);
    } else if n % 4 == 2 {
        assert(bits == 2);
        assert(at % 3 == 1 && at / 3 * 4 == n - 2);
    } else {
        assert(bits == 0);
        assert(at % 3 == 2 && at / 3 * 4 == n - 3);
    }
}

/// The bytes that a base64 text stands for, up to its first equals sign. White
/// space in the text means nothing; any other character that is not of the base64
/// alphabet spoils it.
pub fn decode_base64(input: &str) -> (r: Option<Vec<u8>>)
    ensures
        opt_bytes(r) == decoded(input@),
{
    let chars = chars_of(input);
    let mut output: Vec<u8> = Vec::new();
    let mut buffer: u32 = 0;
    let mut bits: u32 = 0;
    let mut i: usize = 0;
    let ghost mut values = Seq::<u8>::empty();
    proof {
        assert(chars@.skip(0) =~= chars@);
        assert(output@ =~= packed(values));
    }
    while i < chars.len() && chars[i] != '='
        invariant
            chars@ == input@,
            i <= chars.len(),
            output@ == packed(values),
            bits < 8,
            bits == (values.len() * 6) % 8,
            values.len() > 0 ==> buffer & 63 == values.last(),
            forall|j: int| 0 <= j < values.len() ==> #[trigger] values[j] < 64,
            sextets(input@) == match sextets(chars@.skip(i as int)) {
                Some(rest) => Some(values + rest),
                None => None,
            },
        ensures
            i == chars.len() || chars@[i as int] == '=',
        decreases chars.len() - i,
    {
        let c = chars[i];
        let ghost rest = chars@.skip(i as int);
        proof {
            assert(rest.skip(1) =~= chars@.skip(i + 1));
            assert(rest[0] == c);
        }
        i = i + 1;
        if c == '\r' || c == '\n' || c == '\t' || c == ' ' {
            continue;
        }
        let value: u32 = match base64_value(c) {
            Some(value) => value as u32,
            None => return None,
        };
        proof {
            let more = values.push(value as u8);
            lemma_shift_in(buffer, value);
            lemma_packed_push(values, value as u8);
            if sextets(rest.skip(1)) is Some {
                assert(values + (seq![value as u8] + sextets(rest.skip(1))->0) =~= more + sextets(
                    rest.skip(1),
                )->0);
            }
            if values.len() % 4 != 0 {
                lemma_next_byte(values, value as u8, buffer, (bits - 2) as u32);
            }
            values = more;
        }
        buffer = (buffer << 6) | value;
        bits = bits + 6;
        if bits >= 8 {
            bits = bits - 8;
            output.push(((buffer >> bits) & 0xff) as u8);
        }
    }
    proof {
        assert(values + Seq::<u8>::empty() =~= values);
    }
    Some(output)
}

/// The character of the base64 alphabet for six bits.
pub open spec fn digit(value: u8) -> char {
    if value < 26 {
        (value + 65) as char
    } else if value < 52 {
        (value - 26 + 97) as char
    } else if value < 62 {
        (value - 52 + 48) as char
    } else if value == 62 {
        '+'
    } else {
        '/'
    }
}

/// The byte at `i`, or zero behind the last one.
pub open spec fn byte_or_zero(bytes: Seq<u8>, i: int) -> u8 {
    if i < bytes.len() {
        bytes[i]
    } else {
        0
    }
}

/// The group of six bits at `j` where bytes are written one behind the other.
pub open spec fn sextet_at(bytes: Seq<u8>, j: int) -> u8 {
    let g = j / 4 * 3;
    if j % 4 == 0 {
        byte_or_zero(bytes, g) / 4
    } else if j % 4 == 1 {
        (byte_or_zero(bytes, g) % 4 * 16 + byte_or_zero(bytes, g + 1) / 16) as u8
    } else if j % 4 == 2 {
        (byte_or_zero(bytes, g + 1) % 16 * 4 + byte_or_zero(bytes, g + 2) / 64) as u8
    } else {
        byte_or_zero(bytes, g + 2) % 64
    }
}

/// The groups of six bits that hold the bytes.
pub open spec fn split_bytes(bytes: Seq<u8>) -> Seq<u8> {
    Seq::new((bytes.len() * 8 + 5) / 6, |j: int| sextet_at(bytes, j))
}

/// The base64 text of some bytes, with equals signs that fill it up to a multiple
/// of four characters.
pub open spec fn encoded(bytes: Seq<u8>) -> Seq<char> {
    split_bytes(bytes).map_values(|value: u8| digit(value)) + Seq::new(
        ((3 - bytes.len() % 3) % 3) as nat,
        |i: int| '=',
    )
}

proof fn lemma_sextets_of_digits(values: Seq<u8>, tail: Seq<char>)
    requires
        forall|j: int| 0 <= j < values.len() ==> #[trigger] values[j] < 64,
        tail.len() > 0 ==> tail[0] == '=',
    ensures
        sextets(values.map_values(|value: u8| digit(value)) + tail) == Some(values),
    decreases values.len(),
{
    let all = values.map_values(|value: u8| digit(value)) + tail;
    if values.len() == 0 {
        assert(all =~= tail);
        assert(Seq::<u8>::empty() =~= values);
    } else {
        let rest = values.skip(1);
        assert forall|j: int| 0 <= j < rest.len() implies #[trigger] rest[j] < 64 by {
            assert(rest[j] == values[j + 1]);
        }
        lemma_sextets_of_digits(rest, tail);
        assert(all.skip(1) =~= rest.map_values(|value: u8| digit(value)) + tail);
        assert(values[0] < 64);
        assert(all[0] == digit(values[0]));
        assert(digit_value(all[0]) == Some(values[0]));
        assert(seq![values[0]] + rest =~= values);
    }
}

/// Three bytes cut into four groups of six bits, and the groups put together again.
proof fn lemma_bytes_back(x: int, y: int, z: int)
    requires
        0 <= x < 256,
        0 <= y < 256,
        0 <= z < 256,
    ensures
        0 <= x % 4 * 16 + y / 16 < 64,
        0 <= y % 16 * 4 + z / 64 < 64,
        x / 4 * 4 + (x % 4 * 16 + y / 16) / 16 == x,
        (x % 4 * 16 + y / 16) % 16 * 16 + (y % 16 * 4 + z / 64) / 4 == y,
        (y % 16 * 4 + z / 64) % 4 * 64 + z % 64 == z,
{
    assert((x % 4 * 16 + y / 16) / 16 == x % 4 && (x % 4 * 16 + y / 16) % 16 == y / 16);
    assert((y % 16 * 4 + z / 64) / 4 == y % 16 && (y % 16 * 4 + z / 64) % 4 == z / 64);
}

proof fn lemma_packed_split(bytes: Seq<u8>)
    ensures
        packed(split_bytes(bytes)) == bytes,
{
    let values = split_bytes(bytes);
    assert(values.len() * 3 / 4 == bytes.len());
    assert forall|i: int| 0 <= i < bytes.len() implies #[trigger] byte_at(values, i)
        == bytes[i] by {
        lemma_byte_back(bytes, i);
    }
    assert(packed(values) =~= bytes);
}

proof fn lemma_byte_back(bytes: Seq<u8>, i: int)
    requires
        0 <= i < bytes.len(),
    ensures
        byte_at(split_bytes(bytes), i) == bytes[i],
{
    let values = split_bytes(bytes);
    let g = i / 3;
    let x = byte_or_zero(bytes, 3 * g);
    let y = byte_or_zero(bytes, 3 * g + 1);
    let z = byte_or_zero(bytes, 3 * g + 2);
    lemma_bytes_back(x as int, y as int, z as int);
    assert(4 * g + i % 3 + 1 < values.len());
    assert((4 * g) / 4 == g && (4 * g) % 4 == 0);
    assert((4 * g + 1) / 4 == g && (4 * g + 1) % 4 == 1);
    assert((4 * g + 2) / 4 == g && (4 * g + 2) % 4 == 2);
    assert((4 * g + 3) / 4 == g && (4 * g + 3) % 4 == 3);
    assert(g * 3 == 3 * g && i / 3 * 4 == 4 * g);
    if i % 3 == 0 {
        assert(values[4 * g] == x / 4);
        assert(values[4 * g + 1] == x % 4 * 16 + y / 16);
    } else if i % 3 == 1 {
        assert(values[4 * g + 1] == x % 4 * 16 + y / 16);
        assert(values[4 * g + 2] == y % 16 * 4 + z / 64);
    } else {
        assert(values[4 * g + 2] == y % 16 * 4 + z / 64);
        assert(values[4 * g + 3] == z % 64);
    }
}

/// Reading the base64 text of some bytes gives the bytes.
pub proof fn law_encoded_reads_back(bytes: Seq<u8>)
    ensures
        decoded(encoded(bytes)) == Some(bytes),
{
    let tail = Seq::new(((3 - bytes.len() % 3) % 3) as nat, |i: int| '=');
    lemma_sextets_of_digits(split_bytes(bytes), tail);
    lemma_packed_split(bytes);
}

/// White space put anywhere into a text does not change what it stands for.
pub proof fn law_blanks_mean_nothing(before: Seq<char>, blank: char, after: Seq<char>)
    requires
        is_blank(blank),
    ensures
        decoded(before + seq![blank] + after) == decoded(before + after),
{
    lemma_blank_in_sextets(before, blank, after);
}

proof fn lemma_blank_in_sextets(before: Seq<char>, blank: char, after: Seq<char>)
    requires
        is_blank(blank),
    ensures
        sextets(before + seq![blank] + after) == sextets(before + after),
    decreases before.len(),
{
    let with_blank = before + seq![blank] + after;
    let without = before + after;
    if before.len() == 0 {
        assert(with_blank.skip(1) =~= after);
        assert(without =~= after);
    } else {
        lemma_blank_in_sextets(before.skip(1), blank, after);
        assert(with_blank.skip(1) =~= before.skip(1) + seq![blank] + after);
        assert(without.skip(1) =~= before.skip(1) + after);
    }
}

/// The alphabet: capital letters stand for the numbers from 0 on, small letters for
/// those from 26 on, digits for those from 52 on, and the plus sign and the slash for
/// the last two. No other character stands for a number.
pub proof fn law_alphabet(c: char, value: u8)
    ensures
        digit_value(c) == Some(value) <==> {
            ||| value < 26 && c as int == 'A' as int + value
            ||| 26 <= value < 52 && c as int - 'a' as int == value - 26
            ||| 52 <= value < 62 && c as int - '0' as int == value - 52
            ||| value == 62 && c == '+'
            ||| value == 63 && c == '/'
        },
        digit_value(c) is None <==> !('A' <= c <= 'Z') && !('a' <= c <= 'z') && !('0' <= c <= '9')
            && c != '+' && c != '/',
        is_blank(c) <==> c == ' ' || c as int == 9 || c as int == 10 || c as int == 13,
{
}

/// What each character of a text stands for: blanks stand for nothing.
pub open spec fn digit_values(s: Seq<char>) -> Seq<Option<u8>> {
    s.map_values(
        |c: char|
            if is_blank(c) {
                None
            } else {
                digit_value(c)
            },
    )
}

/// Nothing from the first equals sign on counts. Before it, a character that is neither
/// a blank nor of the alphabet spoils the text; where there is none, the text stands for
/// the numbers of its other characters, in their order.
pub proof fn law_sextets(s: Seq<char>)
    ensures
        ({
            let start = s.take(text::position(s, '='));
            &&& decoded(s) is Some <==> forall|i: int|
                0 <= i < start.len() ==> is_blank(#[trigger] start[i]) || digit_value(start[i])
                    is Some
            &&& decoded(s) matches Some(bytes) ==> exists|values: Seq<u8>|
                selection::selects(digit_values(start), values) && bytes == #[trigger] packed(
                    values,
                )
        }),
{
    lemma_sextets(s);
    if let Some(values) = sextets(s) {
        assert(packed(values) == decoded(s)->Some_0);
    }
}

proof fn lemma_sextets(s: Seq<char>)
    ensures
        ({
            let start = s.take(text::position(s, '='));
            &&& sextets(s) is Some <==> forall|i: int|
                0 <= i < start.len() ==> is_blank(#[trigger] start[i]) || digit_value(start[i])
                    is Some
            &&& sextets(s) matches Some(values) ==> selection::selects(digit_values(start), values)
        }),
    decreases s.len(),
{
    let start = s.take(text::position(s, '='));
    text::lemma_position(s, '=');
    if s.len() == 0 || s[0] == '=' {
        selection::lemma_selects_empty::<u8>();
        assert(digit_values(start) =~= Seq::empty());
    } else {
        let rest = s.skip(1);
        let rest_start = rest.take(text::position(rest, '='));
        lemma_sextets(rest);
        text::lemma_position(rest, '=');
        assert(s.drop_first() =~= rest);
        assert(start.skip(1) =~= rest_start);
        assert(start[0] == s[0]);
        assert forall|i: int| 0 < i < start.len() implies start[i] == #[trigger] rest_start[i - 1] by {}
        if forall|i: int|
            0 <= i < start.len() ==> is_blank(#[trigger] start[i]) || digit_value(start[i]) is Some {
            assert forall|i: int| 0 <= i < rest_start.len() implies is_blank(
                #[trigger] rest_start[i],
            ) || digit_value(rest_start[i]) is Some by {
                assert(rest_start[i] == start[i + 1]);
            }
        }
        if sextets(s) is Some {
            assert forall|i: int| 0 <= i < start.len() implies is_blank(#[trigger] start[i])
                || digit_value(start[i]) is Some by {
                if i > 0 {
                    assert(start[i] == rest_start[i - 1]);
                }
            }
            let first = if is_blank(s[0]) {
                None
            } else {
                digit_value(s[0])
            };
            selection::lemma_selects_front(digit_values(rest_start), sextets(rest)->Some_0, first);
            assert(digit_values(start) =~= seq![first] + digit_values(rest_start));
        }
    }
}

/// The number at `k`, or zero behind the last one.
pub open spec fn value_or_zero(values: Seq<u8>, k: int) -> int {
    if k < values.len() {
        values[k] as int
    } else {
        0
    }
}

/// Four numbers of six bits each, taken together as one number, give the three bytes of
/// that number, the highest first. What is left of a byte at the end is dropped.
pub proof fn law_packed(values: Seq<u8>, g: int)
    requires
        forall|j: int| 0 <= j < values.len() ==> #[trigger] values[j] < 64,
        0 <= g,
    ensures
        ({
            let bytes = packed(values);
            let n = value_or_zero(values, 4 * g) * 0x40000 + value_or_zero(values, 4 * g + 1)
                * 0x1000 + value_or_zero(values, 4 * g + 2) * 0x40 + value_or_zero(
                values,
                4 * g + 3,
            );
            &&& 8 * bytes.len() <= 6 * values.len() < 8 * bytes.len() + 8
            &&& 3 * g < bytes.len() ==> bytes[3 * g] == n / 0x10000
            &&& 3 * g + 1 < bytes.len() ==> bytes[3 * g + 1] == n / 0x100 % 0x100
            &&& 3 * g + 2 < bytes.len() ==> bytes[3 * g + 2] == n % 0x100
        }),
{
    let bytes = packed(values);
    let (a, b) = (value_or_zero(values, 4 * g), value_or_zero(values, 4 * g + 1));
    let (c, d) = (value_or_zero(values, 4 * g + 2), value_or_zero(values, 4 * g + 3));
    lemma_three_bytes(a, b, c, d);
    assert((3 * g) / 3 == g && (3 * g) % 3 == 0);
    assert((3 * g + 1) / 3 == g && (3 * g + 1) % 3 == 1);
    assert((3 * g + 2) / 3 == g && (3 * g + 2) % 3 == 2);
    assert(g * 4 == 4 * g);
    if 3 * g < bytes.len() {
        assert(bytes[3 * g] == byte_at(values, 3 * g));
        assert(byte_at(values, 3 * g) == (values[4 * g] * 4 + values[4 * g + 1] / 16) as u8);
    }
    if 3 * g + 1 < bytes.len() {
        assert(bytes[3 * g + 1] == byte_at(values, 3 * g + 1));
        assert(byte_at(values, 3 * g + 1) == (values[4 * g + 1] % 16 * 16 + values[4 * g + 2]
            / 4) as u8);
    }
    if 3 * g + 2 < bytes.len() {
        assert(bytes[3 * g + 2] == byte_at(values, 3 * g + 2));
        assert(byte_at(values, 3 * g + 2) == (values[4 * g + 2] % 4 * 64 + values[4 * g + 3]) as u8);
    }
}

proof fn lemma_three_bytes(a: int, b: int, c: int, d: int)
    requires
        0 <= a < 64,
        0 <= b < 64,
        0 <= c < 64,
        0 <= d < 64,
    ensures
        ({
            let n = a * 0x40000 + b * 0x1000 + c * 0x40 + d;
            &&& n / 0x10000 == a * 4 + b / 16
            &&& n / 0x100 % 0x100 == b % 16 * 16 + c / 4
            &&& n % 0x100 == c % 4 * 64 + d
        }),
{
    let n = a * 0x40000 + b * 0x1000 + c * 0x40 + d;
    let (b1, b0) = (b / 16, b % 16);
    let (c1, c0) = (c / 4, c % 4);
    assert(b == b1 * 16 + b0);
    assert(c == c1 * 4 + c0);
    let low = c0 * 64 + d;
    let middle = b0 * 16 + c1;
    let high = a * 4 + b1;
    assert(n == high * 0x10000 + middle * 0x100 + low);
    assert(0 <= low < 0x100 && 0 <= middle < 0x100);
    assert(n / 0x100 == high * 0x100 + middle);
}

} // verus!
