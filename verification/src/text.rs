//! Text as sequences of characters: the vocabulary that the other modules'
//! contracts are written in, and the executable functions that go with it.

use vstd::prelude::*;

verus! {

/// The characters with the Unicode property White_Space.
pub open spec fn is_white_space(c: char) -> bool {
    ||| '\u{9}' <= c <= '\u{d}'
    ||| c == '\u{20}'
    ||| c == '\u{85}'
    ||| c == '\u{a0}'
    ||| c == '\u{1680}'
    ||| '\u{2000}' <= c <= '\u{200a}'
    ||| c == '\u{2028}'
    ||| c == '\u{2029}'
    ||| c == '\u{202f}'
    ||| c == '\u{205f}'
    ||| c == '\u{3000}'
}

/// `s` without its leading white space.
pub open spec fn trim_start(s: Seq<char>) -> Seq<char>
    decreases s.len(),
{
    if s.len() > 0 && is_white_space(s[0]) {
        trim_start(s.drop_first())
    } else {
        s
    }
}

/// `s` without its trailing white space.
pub open spec fn trim_end(s: Seq<char>) -> Seq<char>
    decreases s.len(),
{
    if s.len() > 0 && is_white_space(s.last()) {
        trim_end(s.drop_last())
    } else {
        s
    }
}

/// `s` without leading and trailing white space.
pub open spec fn trimmed(s: Seq<char>) -> Seq<char> {
    trim_end(trim_start(s))
}

/// `s` without the copies of `c` that it starts with.
pub open spec fn trim_start_of(s: Seq<char>, c: char) -> Seq<char>
    decreases s.len(),
{
    if s.len() > 0 && s[0] == c {
        trim_start_of(s.drop_first(), c)
    } else {
        s
    }
}

/// `s` without the copies of `c` that it ends with.
pub open spec fn trim_end_of(s: Seq<char>, c: char) -> Seq<char>
    decreases s.len(),
{
    if s.len() > 0 && s.last() == c {
        trim_end_of(s.drop_last(), c)
    } else {
        s
    }
}

/// The index of the first `c` in `s`, or the length of `s` where there is none.
pub open spec fn position(s: Seq<char>, c: char) -> int
    decreases s.len(),
{
    if s.len() == 0 || s[0] == c {
        0
    } else {
        1 + position(s.drop_first(), c)
    }
}

/// The pieces of `s` between the occurrences of `separator`: always one more
/// than there are separators.
pub open spec fn split_on(s: Seq<char>, separator: char) -> Seq<Seq<char>>
    decreases s.len(),
{
    let i = position(s, separator);
    if i < s.len() {
        proof {
            lemma_position(s, separator);
        }
        seq![s.take(i)] + split_on(s.skip(i + 1), separator)
    } else {
        seq![s]
    }
}

/// The characters of each text of a list.
pub open spec fn texts(list: Seq<String>) -> Seq<Seq<char>> {
    list.map_values(|text: String| text@)
}

/// The characters of a text that may be missing.
pub open spec fn opt_text(text: Option<&str>) -> Option<Seq<char>> {
    match text {
        Some(s) => Some(s@),
        None => None,
    }
}

/// The characters of an owned text that may be missing.
pub open spec fn opt_string(text: Option<String>) -> Option<Seq<char>> {
    match text {
        Some(s) => Some(s@),
        None => None,
    }
}

/// A text that is blank counts as none; another one counts without the white
/// space around it.
pub open spec fn filled(text: Option<Seq<char>>) -> Option<Seq<char>> {
    match text {
        Some(s) => if trimmed(s).len() > 0 {
            Some(trimmed(s))
        } else {
            None
        },
        None => None,
    }
}

/// The characters of a text, or of the message that stands in its place.
pub open spec fn result_text(text: Result<String, String>) -> Result<Seq<char>, Seq<char>> {
    match text {
        Ok(s) => Ok(s@),
        Err(message) => Err(message@),
    }
}

/// `needle` is a contiguous part of `s`.
pub open spec fn occurs_in(needle: Seq<char>, s: Seq<char>) -> bool {
    exists|i: int| #[trigger] occurs_at(needle, s, i)
}

/// `needle` stands in `s` from index `i` on.
pub open spec fn occurs_at(needle: Seq<char>, s: Seq<char>, i: int) -> bool {
    &&& 0 <= i <= s.len() - needle.len()
    &&& s.subrange(i, i + needle.len()) == needle
}

/// `c` with an ASCII capital letter replaced by the small one.
pub open spec fn ascii_lowered_char(c: char) -> char {
    if 'A' <= c <= 'Z' {
        (c as u32 + 32) as char
    } else {
        c
    }
}

/// `s` with its ASCII capital letters replaced by the small ones.
pub open spec fn ascii_lowered(s: Seq<char>) -> Seq<char> {
    s.map_values(|c: char| ascii_lowered_char(c))
}

/// `a` comes before `b` where texts are ordered by code points, from the left.
pub open spec fn text_before(a: Seq<char>, b: Seq<char>) -> bool
    decreases a.len(),
{
    if b.len() == 0 {
        false
    } else if a.len() == 0 {
        true
    } else if a[0] == b[0] {
        text_before(a.drop_first(), b.drop_first())
    } else {
        a[0] < b[0]
    }
}

/// The decimal digit for a number below ten.
pub open spec fn decimal_digit(d: nat) -> char {
    (48 + d) as char
}

/// `n` in decimal notation, without leading zeros.
pub open spec fn decimal_text(n: nat) -> Seq<char>
    decreases n,
{
    if n < 10 {
        seq![decimal_digit(n)]
    } else {
        decimal_text(n / 10).push(decimal_digit(n % 10))
    }
}

pub proof fn lemma_position(s: Seq<char>, c: char)
    ensures
        0 <= position(s, c) <= s.len(),
        position(s, c) < s.len() ==> s[position(s, c)] == c,
        forall|i: int| 0 <= i < position(s, c) ==> s[i] != c,
    decreases s.len(),
{
    if s.len() > 0 && s[0] != c {
        lemma_position(s.drop_first(), c);
        assert forall|i: int| 0 <= i < position(s, c) implies s[i] != c by {
            if i > 0 {
                assert(s[i] == s.drop_first()[i - 1]);
            }
        }
    }
}

/// The first `c` of `s` stands at `i` where nothing before `i` is `c`.
pub proof fn lemma_position_is(s: Seq<char>, c: char, i: int)
    requires
        0 <= i <= s.len(),
        i < s.len() ==> s[i] == c,
        forall|j: int| 0 <= j < i ==> s[j] != c,
    ensures
        position(s, c) == i,
{
    lemma_position(s, c);
    let p = position(s, c);
    if p < i {
        assert(s[p] != c);
    } else if i < p {
        assert(s[i] == c);
    }
}

/// Trimming keeps one contiguous part, which starts and ends with no white space.
pub proof fn lemma_trimmed(s: Seq<char>)
    ensures
        trimmed(s).len() <= s.len(),
        trimmed(s).len() > 0 ==> !is_white_space(trimmed(s)[0]) && !is_white_space(
            trimmed(s).last(),
        ),
        trimmed(trimmed(s)) == trimmed(s),
{
    lemma_trim_start(s);
    lemma_trim_end(trim_start(s));
}

proof fn lemma_trim_start(s: Seq<char>)
    ensures
        trim_start(s).len() <= s.len(),
        trim_start(s).len() > 0 ==> !is_white_space(trim_start(s)[0]),
    decreases s.len(),
{
    if s.len() > 0 && is_white_space(s[0]) {
        lemma_trim_start(s.drop_first());
    }
}

proof fn lemma_trim_end(s: Seq<char>)
    ensures
        trim_end(s).len() <= s.len(),
        trim_end(s).len() > 0 ==> !is_white_space(trim_end(s).last()) && trim_end(s)[0] == s[0],
    decreases s.len(),
{
    if s.len() > 0 && is_white_space(s.last()) {
        lemma_trim_end(s.drop_last());
    }
}

/// Nothing is cut off where the last character is another one.
pub proof fn lemma_trim_end_of_other(s: Seq<char>, c: char)
    requires
        s.len() > 0,
        s.last() != c,
    ensures
        trim_end_of(s, c) == s,
{
}

/// Cutting characters off the end leaves the start of a text.
pub proof fn lemma_trim_end_of_start(s: Seq<char>, c: char)
    ensures
        trim_end_of(s, c).len() <= s.len(),
        trim_end_of(s, c) == s.take(trim_end_of(s, c).len() as int),
    decreases s.len(),
{
    if s.len() > 0 && s.last() == c {
        lemma_trim_end_of_start(s.drop_last(), c);
        assert(s.drop_last().take(trim_end_of(s, c).len() as int) =~= s.take(
            trim_end_of(s, c).len() as int,
        ));
    } else {
        assert(s.take(s.len() as int) =~= s);
    }
}

/// Whether `c` is white space.
pub fn white_space(c: char) -> (r: bool)
    ensures
        r == is_white_space(c),
{
    ('\u{9}' <= c && c <= '\u{d}') || c == '\u{20}' || c == '\u{85}' || c == '\u{a0}' || c
        == '\u{1680}' || ('\u{2000}' <= c && c <= '\u{200a}') || c == '\u{2028}' || c == '\u{2029}'
        || c == '\u{202f}' || c == '\u{205f}' || c == '\u{3000}'
}

/// The specification of `String::push`: the character is appended.
pub assume_specification[ std::string::String::push ](s: &mut std::string::String, c: char)
    ensures
        final(s)@ == old(s)@.push(c),
;

/// The characters of a text.
pub fn chars_of(s: &str) -> (r: Vec<char>)
    ensures
        r@ == s@,
{
    let mut out: Vec<char> = Vec::new();
    for c in it: s.chars()
        invariant
            it.seq() == s@,
            out@ == s@.take(it.index() as int),
    {
        out.push(c);
    }
    proof {
        assert(s@.take(s@.len() as int) == s@);
    }
    out
}

/// The text made of the characters from `from` up to `to`.
pub fn text_of(chars: &Vec<char>, from: usize, to: usize) -> (r: String)
    requires
        from <= to <= chars.len(),
    ensures
        r@ == chars@.subrange(from as int, to as int),
{
    let mut out = String::new();
    let mut i: usize = from;
    while i < to
        invariant
            from <= i <= to <= chars.len(),
            out@ == chars@.subrange(from as int, i as int),
        decreases to - i,
    {
        out.push(chars[i]);
        i = i + 1;
    }
    out
}

/// Whether two texts are the same.
pub fn text_eq(a: &str, b: &str) -> (r: bool)
    ensures
        r == (a@ == b@),
{
    a.to_owned() == b.to_owned()
}

/// The text without leading and trailing white space.
pub fn trim(s: &str) -> (r: &str)
    ensures
        r@ == trimmed(s@),
{
    let chars = chars_of(s);
    let mut start: usize = 0;
    proof {
        assert(s@.skip(0) == s@);
    }
    while start < chars.len() && white_space(chars[start])
        invariant
            start <= chars.len(),
            chars@ == s@,
            trim_start(s@) == trim_start(s@.skip(start as int)),
        ensures
            start <= chars.len(),
            trim_start(s@) == s@.skip(start as int),
        decreases chars.len() - start,
    {
        proof {
            assert(s@.skip(start as int).drop_first() == s@.skip(start + 1));
        }
        start = start + 1;
    }
    let mut end: usize = chars.len();
    proof {
        assert(s@.skip(start as int) == s@.subrange(start as int, end as int));
    }
    while start < end && white_space(chars[end - 1])
        invariant
            start <= end <= chars.len(),
            chars@ == s@,
            trimmed(s@) == trim_end(s@.subrange(start as int, end as int)),
        ensures
            start <= end <= chars.len(),
            trimmed(s@) == s@.subrange(start as int, end as int),
        decreases end,
    {
        proof {
            assert(s@.subrange(start as int, end as int).drop_last() == s@.subrange(
                start as int,
                end - 1,
            ));
        }
        end = end - 1;
    }
    s.substring_char(start, end)
}

/// The text without the copies of `c` that it starts with.
pub fn trim_start_matches(s: &str, c: char) -> (r: &str)
    ensures
        r@ == trim_start_of(s@, c),
{
    let chars = chars_of(s);
    let mut start: usize = 0;
    proof {
        assert(s@.skip(0) == s@);
    }
    while start < chars.len() && chars[start] == c
        invariant
            start <= chars.len(),
            chars@ == s@,
            trim_start_of(s@, c) == trim_start_of(s@.skip(start as int), c),
        ensures
            start <= chars.len(),
            trim_start_of(s@, c) == s@.skip(start as int),
        decreases chars.len() - start,
    {
        proof {
            assert(s@.skip(start as int).drop_first() == s@.skip(start + 1));
        }
        start = start + 1;
    }
    s.substring_char(start, chars.len())
}

/// The text without the copies of `c` that it ends with.
pub fn trim_end_matches(s: &str, c: char) -> (r: &str)
    ensures
        r@ == trim_end_of(s@, c),
{
    let chars = chars_of(s);
    let mut end: usize = chars.len();
    proof {
        assert(s@.take(end as int) == s@);
    }
    while 0 < end && chars[end - 1] == c
        invariant
            end <= chars.len(),
            chars@ == s@,
            trim_end_of(s@, c) == trim_end_of(s@.take(end as int), c),
        ensures
            end <= chars.len(),
            trim_end_of(s@, c) == s@.take(end as int),
        decreases end,
    {
        proof {
            assert(s@.take(end as int).drop_last() == s@.take(end - 1));
        }
        end = end - 1;
    }
    s.substring_char(0, end)
}

/// Whether `s` starts with `prefix`.
pub fn starts_with(s: &str, prefix: &str) -> (r: bool)
    ensures
        r == prefix@.is_prefix_of(s@),
{
    let chars = chars_of(s);
    let start = chars_of(prefix);
    stands_at(&start, &chars, 0)
}

/// Whether `needle` stands in `chars` from index `at` on.
fn stands_at(needle: &Vec<char>, chars: &Vec<char>, at: usize) -> (r: bool)
    requires
        at <= chars.len(),
    ensures
        r == occurs_at(needle@, chars@, at as int),
{
    if needle.len() > chars.len() - at {
        return false;
    }
    let mut i: usize = 0;
    while i < needle.len()
        invariant
            i <= needle.len() <= chars.len() - at,
            at <= chars.len(),
            forall|j: int| 0 <= j < i ==> chars@[at + j] == needle@[j],
        decreases needle.len() - i,
    {
        if chars[at + i] != needle[i] {
            proof {
                assert(chars@.subrange(at as int, at + needle@.len())[i as int] != needle@[i as int]);
            }
            return false;
        }
        i = i + 1;
    }
    proof {
        assert(chars@.subrange(at as int, at + needle@.len()) == needle@);
    }
    true
}

/// Whether `needle` is a contiguous part of `s`.
pub fn contains_text(s: &str, needle: &str) -> (r: bool)
    ensures
        r == occurs_in(needle@, s@),
{
    let chars = chars_of(s);
    let wanted = chars_of(needle);
    let mut at: usize = 0;
    while at < chars.len()
        invariant
            at <= chars.len(),
            chars@ == s@,
            wanted@ == needle@,
            forall|j: int| 0 <= j < at ==> !#[trigger] occurs_at(needle@, s@, j),
        decreases chars.len() - at,
    {
        if stands_at(&wanted, &chars, at) {
            return true;
        }
        at = at + 1;
    }
    stands_at(&wanted, &chars, at)
}

/// Whether the character `c` is in `s`.
pub fn contains_char(s: &str, c: char) -> (r: bool)
    ensures
        r == s@.contains(c),
{
    let chars = chars_of(s);
    let mut i: usize = 0;
    while i < chars.len()
        invariant
            i <= chars.len(),
            chars@ == s@,
            forall|j: int| 0 <= j < i ==> chars@[j] != c,
        decreases chars.len() - i,
    {
        if chars[i] == c {
            return true;
        }
        i = i + 1;
    }
    false
}

/// The pieces of a text between the occurrences of `separator`.
pub fn split(s: &str, separator: char) -> (r: Vec<String>)
    ensures
        texts(r@) == split_on(s@, separator),
{
    let chars = chars_of(s);
    let mut pieces: Vec<String> = Vec::new();
    let mut start: usize = 0;
    let mut i: usize = 0;
    proof {
        assert(s@.skip(0) == s@);
        assert(split_on(s@, separator) == Seq::<Seq<char>>::empty() + split_on(s@, separator));
    }
    while i < chars.len()
        invariant
            start <= i <= chars.len(),
            chars@ == s@,
            forall|j: int| start <= j < i ==> chars@[j] != separator,
            split_on(s@, separator) == texts(pieces@) + split_on(
                s@.skip(start as int),
                separator,
            ),
        decreases chars.len() - i,
    {
        if chars[i] == separator {
            let ghost before = texts(pieces@);
            let piece = text_of(&chars, start, i);
            proof {
                let rest = s@.skip(start as int);
                lemma_position_is(rest, separator, i - start);
                assert(rest.take(i - start) == piece@);
                assert(rest.skip(i - start + 1) == s@.skip(i + 1));
                assert(before + (seq![piece@] + split_on(s@.skip(i + 1), separator)) == before.push(
                    piece@,
                ) + split_on(s@.skip(i + 1), separator));
            }
            pieces.push(piece);
            proof {
                assert(texts(pieces@) == before.push(piece@));
            }
            start = i + 1;
        }
        i = i + 1;
    }
    let ghost before = texts(pieces@);
    let piece = text_of(&chars, start, chars.len());
    proof {
        let rest = s@.skip(start as int);
        lemma_position_is(rest, separator, rest.len() as int);
        assert(rest == piece@);
        assert(before + seq![piece@] == before.push(piece@));
    }
    pieces.push(piece);
    proof {
        assert(texts(pieces@) == before.push(piece@));
    }
    pieces
}

/// The text with its ASCII capital letters replaced by the small ones.
pub fn to_ascii_lowercase(s: &str) -> (r: String)
    ensures
        r@ == ascii_lowered(s@),
{
    let chars = chars_of(s);
    let mut out = String::new();
    let mut i: usize = 0;
    while i < chars.len()
        invariant
            i <= chars.len(),
            chars@ == s@,
            out@ == ascii_lowered(s@.take(i as int)),
        decreases chars.len() - i,
    {
        let c = chars[i];
        let lowered = if 'A' <= c && c <= 'Z' {
            (c as u8 + 32) as char
        } else {
            c
        };
        out.push(lowered);
        proof {
            assert(s@.take(i + 1) == s@.take(i as int).push(c));
            assert(ascii_lowered(s@.take(i + 1)) == ascii_lowered(s@.take(i as int)).push(lowered));
        }
        i = i + 1;
    }
    proof {
        assert(s@.take(i as int) == s@);
    }
    out
}

/// Whether `a` comes before `b` by code points.
pub fn comes_before(a: &str, b: &str) -> (r: bool)
    ensures
        r == text_before(a@, b@),
{
    let left = chars_of(a);
    let right = chars_of(b);
    let mut i: usize = 0;
    proof {
        assert(a@.skip(0) == a@);
        assert(b@.skip(0) == b@);
    }
    while i < left.len() && i < right.len()
        invariant
            i <= left.len(),
            i <= right.len(),
            left@ == a@,
            right@ == b@,
            text_before(a@, b@) == text_before(a@.skip(i as int), b@.skip(i as int)),
        decreases left.len() - i,
    {
        if left[i] != right[i] {
            return left[i] < right[i];
        }
        proof {
            assert(a@.skip(i as int).drop_first() == a@.skip(i + 1));
            assert(b@.skip(i as int).drop_first() == b@.skip(i + 1));
        }
        i = i + 1;
    }
    i < right.len()
}

/// A number in decimal notation.
pub fn decimal(n: u64) -> (r: String)
    ensures
        r@ == decimal_text(n as nat),
    decreases n,
{
    let digit: u8 = 48 + (n % 10) as u8;
    if n < 10 {
        let mut out = String::new();
        out.push(digit as char);
        proof {
            assert(out@ == seq![decimal_digit(n as nat)]);
        }
        out
    } else {
        let mut out = decimal(n / 10);
        out.push(digit as char);
        out
    }
}

/// Appends a text to a list.
pub fn push_text(list: &mut Vec<String>, text: String)
    ensures
        texts(final(list)@) == texts(old(list)@).push(text@),
{
    list.push(text);
    proof {
        assert(texts(list@) =~= texts(old(list)@).push(text@));
    }
}

/// Whether a list holds a text.
pub fn holds_text(list: &Vec<String>, text: &str) -> (r: bool)
    ensures
        r == texts(list@).contains(text@),
{
    let mut i: usize = 0;
    while i < list.len()
        invariant
            i <= list.len(),
            forall|j: int| 0 <= j < i ==> texts(list@)[j] != text@,
        decreases list.len() - i,
    {
        if text_eq(list[i].as_str(), text) {
            proof {
                assert(texts(list@)[i as int] == text@);
            }
            return true;
        }
        i = i + 1;
    }
    false
}

/// The two texts one after the other.
pub fn joined(a: &str, b: &str) -> (r: String)
    ensures
        r@ == a@ + b@,
{
    let mut out = a.to_owned();
    out.append(b);
    out
}

/// The white space characters: the control characters from tab to carriage return,
/// the space, the next-line character, and those of the space separators and the
/// two other separators of Unicode.
pub proof fn law_white_space(c: char)
    ensures
        (c as u32) < 128 ==> (is_white_space(c) <==> c == ' ' || c == '\t' || c == '\n' || c == '\r'
            || c == '\u{b}' || c == '\u{c}'),
        (c as u32) >= 128 ==> (is_white_space(c) <==> c == '\u{85}' || c == '\u{a0}' || c
            == '\u{1680}' || c == '\u{2000}' || c == '\u{2001}' || c == '\u{2002}' || c
            == '\u{2003}' || c == '\u{2004}' || c == '\u{2005}' || c == '\u{2006}' || c
            == '\u{2007}' || c == '\u{2008}' || c == '\u{2009}' || c == '\u{200a}' || c
            == '\u{2028}' || c == '\u{2029}' || c == '\u{202f}' || c == '\u{205f}' || c
            == '\u{3000}'),
{
}

/// `part` is what lies from `i` up to `j` in `s`, and all the rest is white space.
pub open spec fn is_core(s: Seq<char>, part: Seq<char>, i: int, j: int) -> bool {
    &&& 0 <= i <= j <= s.len()
    &&& part == s.subrange(i, j)
    &&& forall|k: int| 0 <= k < i ==> is_white_space(#[trigger] s[k])
    &&& forall|k: int| j <= k < s.len() ==> is_white_space(#[trigger] s[k])
}

/// Trimming cuts white space off both ends and nothing else: what is left neither
/// starts nor ends with white space, and nothing is left exactly where there is
/// nothing but white space.
pub proof fn law_trimmed(s: Seq<char>)
    ensures
        exists|i: int, j: int| #[trigger] is_core(s, trimmed(s), i, j),
        trimmed(s).len() > 0 ==> !is_white_space(trimmed(s)[0]) && !is_white_space(
            trimmed(s).last(),
        ),
        trimmed(s).len() == 0 <==> forall|k: int|
            0 <= k < s.len() ==> is_white_space(#[trigger] s[k]),
{
    lemma_trimmed(s);
    let i = lemma_trim_start_at(s);
    let rest = trim_start(s);
    let n = lemma_trim_end_at(rest);
    assert(trimmed(s) =~= s.subrange(i, i + n));
    assert forall|k: int| i + n <= k < s.len() implies is_white_space(#[trigger] s[k]) by {
        assert(rest[k - i] == s[k]);
    }
    assert(is_core(s, trimmed(s), i, i + n));
    if forall|k: int| 0 <= k < s.len() ==> is_white_space(#[trigger] s[k]) {
        if trimmed(s).len() > 0 {
            assert(trimmed(s)[0] == s[i]);
        }
    }
}

proof fn lemma_trim_start_at(s: Seq<char>) -> (i: int)
    ensures
        0 <= i <= s.len(),
        trim_start(s) == s.skip(i),
        forall|k: int| 0 <= k < i ==> is_white_space(#[trigger] s[k]),
    decreases s.len(),
{
    if s.len() > 0 && is_white_space(s[0]) {
        let rest = s.drop_first();
        let n = lemma_trim_start_at(rest);
        assert(rest.skip(n) =~= s.skip(n + 1));
        assert forall|k: int| 0 <= k < n + 1 implies is_white_space(#[trigger] s[k]) by {
            if k > 0 {
                assert(rest[k - 1] == s[k]);
            }
        }
        n + 1
    } else {
        assert(s.skip(0) =~= s);
        0
    }
}

proof fn lemma_trim_end_at(s: Seq<char>) -> (n: int)
    ensures
        0 <= n <= s.len(),
        trim_end(s) == s.take(n),
        forall|k: int| n <= k < s.len() ==> is_white_space(#[trigger] s[k]),
    decreases s.len(),
{
    if s.len() > 0 && is_white_space(s.last()) {
        let rest = s.drop_last();
        let n = lemma_trim_end_at(rest);
        assert(rest.take(n) =~= s.take(n));
        assert forall|k: int| n <= k < s.len() implies is_white_space(#[trigger] s[k]) by {
            if k < rest.len() {
                assert(rest[k] == s[k]);
            }
        }
        n
    } else {
        assert(s.take(s.len() as int) =~= s);
        s.len() as int
    }
}

/// A text counts as filled exactly where it has a character that is not white
/// space, and then it counts without the white space around it.
pub proof fn law_filled(s: Seq<char>)
    ensures
        filled(None) is None,
        (exists|k: int| 0 <= k < s.len() && !is_white_space(#[trigger] s[k])) ==> filled(Some(s))
            == Some(trimmed(s)),
        (forall|k: int| 0 <= k < s.len() ==> is_white_space(#[trigger] s[k])) ==> filled(Some(s))
            is None,
{
    law_trimmed(s);
}

/// Cutting a character off the end cuts off all its copies there and nothing else.
pub proof fn law_trim_end_of(s: Seq<char>, c: char)
    ensures
        ({
            let n = trim_end_of(s, c).len() as int;
            &&& 0 <= n <= s.len()
            &&& trim_end_of(s, c) == s.take(n)
            &&& forall|k: int| n <= k < s.len() ==> #[trigger] s[k] == c
            &&& n > 0 ==> s[n - 1] != c
        }),
    decreases s.len(),
{
    lemma_trim_end_of_start(s, c);
    if s.len() > 0 && s.last() == c {
        let rest = s.drop_last();
        law_trim_end_of(rest, c);
        let n = trim_end_of(s, c).len() as int;
        assert forall|k: int| n <= k < s.len() implies #[trigger] s[k] == c by {
            if k < rest.len() {
                assert(rest[k] == s[k]);
            }
        }
    }
}

/// Cutting a character off the start cuts off all its copies there and nothing else.
pub proof fn law_trim_start_of(s: Seq<char>, c: char)
    ensures
        ({
            let n = s.len() - trim_start_of(s, c).len();
            &&& 0 <= n <= s.len()
            &&& trim_start_of(s, c) == s.skip(n)
            &&& forall|k: int| 0 <= k < n ==> #[trigger] s[k] == c
            &&& n < s.len() ==> s[n] != c
        }),
    decreases s.len(),
{
    if s.len() > 0 && s[0] == c {
        let rest = s.drop_first();
        law_trim_start_of(rest, c);
        let m = rest.len() - trim_start_of(rest, c).len();
        assert(rest.skip(m) =~= s.skip(m + 1));
        assert forall|k: int| 0 <= k < m + 1 implies #[trigger] s[k] == c by {
            if k > 0 {
                assert(rest[k - 1] == s[k]);
            }
        }
    } else {
        assert(s.skip(0) =~= s);
    }
}

/// Pieces with a character between each two.
pub open spec fn put_together(pieces: Seq<Seq<char>>, separator: char) -> Seq<char>
    decreases pieces.len(),
{
    if pieces.len() == 0 {
        Seq::empty()
    } else if pieces.len() == 1 {
        pieces[0]
    } else {
        pieces[0] + seq![separator] + put_together(pieces.skip(1), separator)
    }
}

/// A text that does not hold the separator is one piece.
pub proof fn lemma_split_one(s: Seq<char>, separator: char)
    requires
        !s.contains(separator),
    ensures
        split_on(s, separator) == seq![s],
{
    assert forall|j: int| 0 <= j < s.len() implies s[j] != separator by {
        assert(s.contains(s[j]));
    }
    lemma_position_is(s, separator, s.len() as int);
}

/// What stands before the first separator is the first piece.
pub proof fn lemma_split_first(first: Seq<char>, rest: Seq<char>, separator: char)
    requires
        !first.contains(separator),
    ensures
        split_on(first + seq![separator] + rest, separator) == seq![first] + split_on(
            rest,
            separator,
        ),
{
    let all = first + seq![separator] + rest;
    assert forall|j: int| 0 <= j < first.len() implies all[j] != separator by {
        assert(first.contains(first[j]));
    }
    lemma_position_is(all, separator, first.len() as int);
    assert(all.take(first.len() as int) =~= first);
    assert(all.skip(first.len() as int + 1) =~= rest);
}

/// What stands behind the last separator is the last piece.
pub proof fn lemma_split_last(front: Seq<char>, last: Seq<char>, separator: char)
    requires
        !last.contains(separator),
    ensures
        split_on(front + seq![separator] + last, separator) == split_on(front, separator) + seq![
            last,
        ],
    decreases front.len(),
{
    let all = front + seq![separator] + last;
    let at = position(front, separator);
    lemma_position(front, separator);
    if at < front.len() {
        let first = front.take(at);
        let rest = front.skip(at + 1);
        lemma_split_last(rest, last, separator);
        assert(!first.contains(separator)) by {
            assert forall|j: int| 0 <= j < first.len() implies first[j] != separator by {
                assert(front[j] != separator);
            }
        }
        assert(all =~= first + seq![separator] + (rest + seq![separator] + last));
        lemma_split_first(first, rest + seq![separator] + last, separator);
        assert(split_on(all, separator) =~= split_on(front, separator) + seq![last]);
    } else {
        assert(!front.contains(separator));
        lemma_split_first(front, last, separator);
        lemma_split_one(last, separator);
    }
}

/// A text occurs in another one exactly where that one is something, the text, and
/// something more.
pub proof fn law_occurs(needle: Seq<char>, s: Seq<char>, front: Seq<char>, back: Seq<char>)
    ensures
        s == front + needle + back ==> occurs_in(needle, s),
        occurs_in(needle, s) ==> exists|f: Seq<char>, b: Seq<char>|
            s == #[trigger] (f + needle + b),
{
    if s == front + needle + back {
        assert(s.subrange(front.len() as int, (front.len() + needle.len()) as int) =~= needle);
        assert(occurs_at(needle, s, front.len() as int));
    }
    if occurs_in(needle, s) {
        let i = choose|i: int| #[trigger] occurs_at(needle, s, i);
        let f = s.take(i);
        let b = s.skip(i + needle.len());
        assert(s =~= f + needle + b);
    }
}

/// Where a text occurs, the part of it from `n` on occurs too.
pub proof fn lemma_part_occurs(needle: Seq<char>, s: Seq<char>, n: int)
    requires
        0 <= n <= needle.len(),
    ensures
        occurs_in(needle, s) ==> occurs_in(needle.skip(n), s),
{
    if occurs_in(needle, s) {
        let i = choose|i: int| #[trigger] occurs_at(needle, s, i);
        assert(s.subrange(i + n, i + needle.len()) =~= s.subrange(i, i + needle.len()).skip(n));
        assert(occurs_at(needle.skip(n), s, i + n));
    }
}

/// Splitting gives pieces without the separator, and at least one; put together
/// with the separator between them they are the text.
pub proof fn law_split(s: Seq<char>, separator: char)
    ensures
        split_on(s, separator).len() > 0,
        put_together(split_on(s, separator), separator) == s,
        forall|i: int|
            0 <= i < split_on(s, separator).len() ==> !(#[trigger] split_on(
                s,
                separator,
            )[i]).contains(separator),
    decreases s.len(),
{
    let pieces = split_on(s, separator);
    let at = position(s, separator);
    lemma_position(s, separator);
    if at < s.len() {
        let rest = s.skip(at + 1);
        law_split(rest, separator);
        assert(pieces.skip(1) =~= split_on(rest, separator));
        assert(s =~= s.take(at) + seq![separator] + rest);
        assert forall|i: int| 0 <= i < pieces.len() implies !(#[trigger] pieces[i]).contains(
            separator,
        ) by {
            if i > 0 {
                assert(pieces[i] == split_on(rest, separator)[i - 1]);
            }
        }
    } else {
        assert(pieces[0] == s);
        assert forall|j: int| 0 <= j < s.len() implies s[j] != separator by {}
    }
}

/// The number that decimal digits stand for.
pub open spec fn decimal_value(digits: Seq<char>) -> nat
    decreases digits.len(),
{
    if digits.len() == 0 {
        0
    } else {
        10 * decimal_value(digits.drop_last()) + (digits.last() as nat - '0' as nat) as nat
    }
}

/// Decimal notation stands for the number, is made of digits, and has no zero in
/// front of another digit.
pub proof fn law_decimal(n: nat)
    ensures
        decimal_value(decimal_text(n)) == n,
        decimal_text(n).len() > 0,
        forall|i: int|
            0 <= i < decimal_text(n).len() ==> '0' <= #[trigger] decimal_text(n)[i] <= '9',
        decimal_text(n).len() > 1 ==> decimal_text(n)[0] != '0',
        n > 0 ==> decimal_text(n)[0] != '0',
    decreases n,
{
    reveal_with_fuel(decimal_value, 2);
    if n < 10 {
        assert(decimal_text(n).drop_last() =~= Seq::empty());
    } else {
        law_decimal(n / 10);
        assert(decimal_text(n).drop_last() =~= decimal_text(n / 10));
        assert(decimal_text(n)[0] == decimal_text(n / 10)[0]);
        assert forall|i: int| 0 <= i < decimal_text(n).len() implies '0'
            <= #[trigger] decimal_text(n)[i] <= '9' by {
            if i < decimal_text(n / 10).len() {
                assert(decimal_text(n)[i] == decimal_text(n / 10)[i]);
            }
        }
    }
}

/// Small letters in place of the capital ones of ASCII, and no other change.
pub proof fn law_ascii_lowered(s: Seq<char>, i: int)
    requires
        0 <= i < s.len(),
    ensures
        ascii_lowered(s).len() == s.len(),
        'A' <= s[i] <= 'Z' ==> 'a' <= ascii_lowered(s)[i] <= 'z' && ascii_lowered(s)[i] as int
            - 'a' as int == s[i] as int - 'A' as int,
        !('A' <= s[i] <= 'Z') ==> ascii_lowered(s)[i] == s[i],
{
}

/// A text comes before another one exactly where it is the start of a longer one,
/// or has the smaller character at the first place where they differ.
pub proof fn law_text_before(a: Seq<char>, b: Seq<char>)
    ensures
        text_before(a, b) <==> exists|n: int| #[trigger] differs_first_at(a, b, n) && n < b.len()
            && (n == a.len() || a[n] < b[n]),
    decreases a.len(),
{
    if text_before(a, b) {
        let n = lemma_first_difference(a, b);
    }
    if exists|n: int| #[trigger] differs_first_at(a, b, n) && n < b.len() && (n == a.len() || a[n]
        < b[n]) {
        let n = choose|n: int| #[trigger]
            differs_first_at(a, b, n) && n < b.len() && (n == a.len() || a[n] < b[n]);
        lemma_before_at(a, b, n);
    }
}

/// Two texts are the same before `n`, and not at `n`, where one may end.
pub open spec fn differs_first_at(a: Seq<char>, b: Seq<char>, n: int) -> bool {
    &&& 0 <= n <= a.len()
    &&& n <= b.len()
    &&& a.take(n) == b.take(n)
    &&& n < a.len() && n < b.len() ==> a[n] != b[n]
}

proof fn lemma_first_difference(a: Seq<char>, b: Seq<char>) -> (n: int)
    requires
        text_before(a, b),
    ensures
        differs_first_at(a, b, n),
        n < b.len(),
        n == a.len() || a[n] < b[n],
    decreases a.len(),
{
    if a.len() > 0 && a[0] == b[0] {
        let m = lemma_first_difference(a.drop_first(), b.drop_first());
        assert(a.take(m + 1) =~= seq![a[0]] + a.drop_first().take(m));
        assert(b.take(m + 1) =~= seq![b[0]] + b.drop_first().take(m));
        m + 1
    } else {
        assert(a.take(0) =~= b.take(0));
        0
    }
}

proof fn lemma_before_at(a: Seq<char>, b: Seq<char>, n: int)
    requires
        differs_first_at(a, b, n),
        n < b.len(),
        n == a.len() || a[n] < b[n],
    ensures
        text_before(a, b),
    decreases a.len(),
{
    if n > 0 {
        assert(a.take(n)[0] == b.take(n)[0]);
        assert(a.drop_first().take(n - 1) =~= a.take(n).skip(1));
        assert(b.drop_first().take(n - 1) =~= b.take(n).skip(1));
        lemma_before_at(a.drop_first(), b.drop_first(), n - 1);
    }
}

/// The characters of what is there are the characters of what is there: nothing is
/// added, dropped or moved.
pub proof fn law_views(
    list: Seq<String>,
    i: int,
    known: String,
    other: Result<String, String>,
)
    ensures
        texts(list).len() == list.len(),
        0 <= i < list.len() ==> texts(list)[i] == list[i]@,
        opt_string(Some(known)) == Some(known@),
        opt_string(None) is None,
        opt_text(None) is None,
        other matches Ok(s) ==> result_text(other) == Ok::<Seq<char>, Seq<char>>(s@),
        other matches Err(s) ==> result_text(other) == Err::<Seq<char>, Seq<char>>(s@),
{
}

/// The first place of a character: it stands there and nowhere before, and the place is
/// the length where it stands nowhere.
pub proof fn law_position(s: Seq<char>, c: char)
    ensures
        0 <= position(s, c) <= s.len(),
        forall|j: int| 0 <= j < position(s, c) ==> #[trigger] s[j] != c,
        position(s, c) < s.len() <==> s.contains(c),
        position(s, c) < s.len() ==> s[position(s, c)] == c,
{
    lemma_position(s, c);
    if s.contains(c) {
        let j = choose|j: int| 0 <= j < s.len() && s[j] == c;
        assert(s[j] == c);
    }
}

} // verus!
