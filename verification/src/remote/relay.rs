//! The URLs of a remote relay: the one that a user opens, and the one to which a
//! host connects.

use vstd::prelude::*;

use crate::remote::form;
use crate::remote::query;
use crate::text;
use crate::text::{joined, text_eq, trim, trim_end_matches};

verus! {

#[verifier::external_type_specification]
#[verifier::external_body]
pub struct ExUrl(reqwest::Url);

/// The parts of a URL. Between the scheme with its colon and the path stands what
/// is called the authority here: `//`, the user, the host and the port, as far as
/// the URL has them.
#[verifier::ext_equal]
pub struct UrlParts {
    pub scheme: Seq<char>,
    pub authority: Seq<char>,
    pub path: Seq<char>,
    pub query: Option<Seq<char>>,
    pub fragment: Option<Seq<char>>,
}

/// The parts of a `reqwest::Url`.
pub uninterp spec fn url_parts(url: reqwest::Url) -> UrlParts;

/// What `Url::parse` makes of a text: the parts of the URL, or the message of the
/// error.
pub uninterp spec fn url_parsed(text: Seq<char>) -> Result<UrlParts, Seq<char>>;

/// The path that a URL with these parts has after `Url::set_path`.
pub uninterp spec fn url_path_set(parts: UrlParts, path: Seq<char>) -> Seq<char>;

/// A URL as text.
pub open spec fn url_text(parts: UrlParts) -> Seq<char> {
    let start = parts.scheme + seq![':'] + parts.authority + parts.path;
    let middle = match parts.query {
        Some(query) => seq!['?'] + query,
        None => Seq::empty(),
    };
    let end = match parts.fragment {
        Some(fragment) => seq!['#'] + fragment,
        None => Seq::empty(),
    };
    start + middle + end
}

/// A URL whose text does not go on with a slash behind the scheme's colon.
pub open spec fn has_opaque_path(parts: UrlParts) -> bool {
    !seq!['/'].is_prefix_of(parts.authority + parts.path)
}

/// An opaque path loses the spaces at its end when nothing stands behind it any more.
pub open spec fn closed_path(parts: UrlParts) -> UrlParts {
    if has_opaque_path(parts) && parts.query is None && parts.fragment is None {
        UrlParts { path: text::trim_end_of(parts.path, ' '), ..parts }
    } else {
        parts
    }
}

/// A URL without its query.
pub open spec fn without_query(parts: UrlParts) -> UrlParts {
    closed_path(UrlParts { query: None, ..parts })
}

/// A URL without its fragment.
pub open spec fn without_fragment(parts: UrlParts) -> UrlParts {
    closed_path(UrlParts { fragment: None, ..parts })
}

/// The schemes of plain web traffic.
pub open spec fn is_plain_scheme(scheme: Seq<char>) -> bool {
    scheme == "http"@ || scheme == "ws"@
}

/// The schemes of encrypted web traffic.
pub open spec fn is_secure_scheme(scheme: Seq<char>) -> bool {
    scheme == "https"@ || scheme == "wss"@
}

/// The schemes that a relay URL can have.
pub open spec fn is_web_scheme(scheme: Seq<char>) -> bool {
    is_plain_scheme(scheme) || is_secure_scheme(scheme)
}

/// A path that starts with a slash and is made of slashes and small letters.
pub open spec fn is_simple_path(path: Seq<char>) -> bool {
    &&& path.len() > 0
    &&& path[0] == '/'
    &&& forall|i: int| 0 <= i < path.len() ==> #[trigger] path[i] == '/' || 'a' <= path[i] <= 'z'
}

/// `path` is `own`, without the slashes at its end, and a simple path.
pub open spec fn lengthens(path: Seq<char>, own: Seq<char>) -> bool {
    let base = text::trim_end_of(own, '/');
    base.is_prefix_of(path) && is_simple_path(path.skip(base.len() as int))
}

/// How many bytes a text has.
pub open spec fn byte_len(s: Seq<char>) -> nat {
    vstd::utf8::encode_utf8(s).len()
}

/// Positions in a URL are 32-bit numbers. With this much room every position in
/// the URL is one, also after `more` bytes were added to it.
pub open spec fn has_room(parts: UrlParts, more: nat) -> bool {
    byte_len(url_text(parts)) + more + 16 <= u32::MAX
}

/// A text without the characters behind which a query or a fragment stands.
pub open spec fn has_no_marks(s: Seq<char>) -> bool {
    !s.contains('?') && !s.contains('#')
}

/// The scheme of a text that starts with one that a relay URL can have, a colon
/// and two slashes.
pub open spec fn web_scheme_of(text: Seq<char>) -> Option<Seq<char>> {
    if "http://"@.is_prefix_of(text) {
        Some("http"@)
    } else if "https://"@.is_prefix_of(text) {
        Some("https"@)
    } else if "ws://"@.is_prefix_of(text) {
        Some("ws"@)
    } else if "wss://"@.is_prefix_of(text) {
        Some("wss"@)
    } else {
        None
    }
}

/// The other scheme of plain, or of encrypted, web traffic.
pub open spec fn twin_scheme(scheme: Seq<char>) -> Seq<char> {
    if scheme == "http"@ {
        "ws"@
    } else if scheme == "ws"@ {
        "http"@
    } else if scheme == "https"@ {
        "wss"@
    } else {
        "https"@
    }
}

/// The text with the other scheme in place of its own.
pub open spec fn twin_text(text: Seq<char>) -> Option<Seq<char>> {
    match web_scheme_of(text) {
        Some(scheme) => Some(twin_scheme(scheme) + text.skip(scheme.len() as int)),
        None => None,
    }
}

/// A text that is short enough for every position in its URL to be a 32-bit number:
/// a character of the text becomes fewer than 1024 bytes of the URL.
pub open spec fn is_short(text: Seq<char>) -> bool {
    1024 * text.len() <= u32::MAX
}

/// What a text and the URL that is read from it have to do with each other. The
/// characters behind which query and fragment stand occur nowhere before these; a
/// URL of the web has two slashes behind its scheme's colon, and the scheme that
/// its text has. The other scheme in its place makes no other difference to a URL
/// that leaves room for it, nor to the error of a short text.
pub open spec fn reads_as_written(text: Seq<char>, parsed: Result<UrlParts, Seq<char>>) -> bool {
    &&& parsed matches Ok(parts) ==> {
        &&& has_no_marks(parts.authority)
        &&& has_no_marks(parts.path)
        &&& is_web_scheme(parts.scheme) ==> "//"@.is_prefix_of(parts.authority)
        &&& web_scheme_of(text) matches Some(scheme) ==> parts.scheme == scheme
    }
    &&& twin_text(text) matches Some(other) ==> match parsed {
        Ok(parts) => has_room(parts, 8) ==> url_parsed(other) == Ok::<UrlParts, Seq<char>>(
            UrlParts { scheme: twin_scheme(parts.scheme), ..parts },
        ),
        Err(message) => is_short(text) ==> url_parsed(other) == Err::<UrlParts, Seq<char>>(message),
    }
}

/// The parts of a URL that was read, or the message that stands in their place.
pub open spec fn parsed_parts(parsed: Result<reqwest::Url, String>) -> Result<
    UrlParts,
    Seq<char>,
> {
    match parsed {
        Ok(url) => Ok(url_parts(url)),
        Err(message) => Err(message@),
    }
}

/// Calls `Url::parse`: the URL has the parts that are named for the text, and the
/// error the message. The parser ends authority and path at a question mark or a
/// number sign, and encodes these characters or refuses them inside. It treats the
/// schemes `http` and `ws` alike, and so `https` and `wss`, but for their lengths:
/// these can matter only where a position in the URL does not fit into 32 bits.
#[verifier::external_body]
fn parse_url(text: &str) -> (r: Result<reqwest::Url, String>)
    ensures
        parsed_parts(r) == url_parsed(text@),
        reads_as_written(text@, parsed_parts(r)),
{
    reqwest::Url::parse(text).map_err(|e| e.to_string())
}

/// Calls `Url::scheme`: the scheme, without its colon.
#[verifier::external_body]
fn url_scheme(url: &reqwest::Url) -> (r: String)
    ensures
        r@ == url_parts(*url).scheme,
{
    url.scheme().to_owned()
}

/// Calls `Url::path`: the path, as it stands in the URL's text.
#[verifier::external_body]
fn url_path(url: &reqwest::Url) -> (r: String)
    ensures
        r@ == url_parts(*url).path,
{
    url.path().to_owned()
}

/// Calls `Url::set_path`, which writes the path in its normal form and leaves the
/// other parts. The path of an `http`, `https`, `ws` or `wss` URL is in that form
/// already, and stays in it when it is cut off behind its last segment and simple
/// segments are added: such a path is taken over letter for letter. In another
/// path each byte becomes at most three characters and a slash.
#[verifier::external_body]
fn set_url_path(url: &mut reqwest::Url, path: &str)
    requires
        has_room(url_parts(*old(url)), 0),
        if is_web_scheme(url_parts(*old(url)).scheme) && lengthens(
            path@,
            url_parts(*old(url)).path,
        ) {
            has_room((UrlParts { path: path@, ..url_parts(*old(url)) }), 0)
        } else {
            has_room(url_parts(*old(url)), 4 * byte_len(path@))
        },
    ensures
        url_parts(*final(url)) == (UrlParts {
            path: url_path_set(url_parts(*old(url)), path@),
            ..url_parts(*old(url))
        }),
        is_web_scheme(url_parts(*old(url)).scheme) && lengthens(path@, url_parts(*old(url)).path)
            ==> url_parts(*final(url)).path == path@,
{
    url.set_path(path)
}

/// Calls `Url::set_query` without a query: the query is removed. Where an opaque
/// path then ends the URL, it loses the spaces at its end.
#[verifier::external_body]
fn remove_url_query(url: &mut reqwest::Url)
    requires
        url_parts(*old(url)).fragment is None,
    ensures
        url_parts(*final(url)) == without_query(url_parts(*old(url))),
{
    url.set_query(None)
}

/// Calls `Url::set_fragment` without a fragment: the fragment is removed. Where an
/// opaque path then ends the URL, it loses the spaces at its end.
#[verifier::external_body]
fn remove_url_fragment(url: &mut reqwest::Url)
    ensures
        url_parts(*final(url)) == without_fragment(url_parts(*old(url))),
{
    url.set_fragment(None)
}

/// Calls `Url::set_scheme`. The schemes `http` and `ws` have one default port, as
/// have `https` and `wss`, and a URL with one of these schemes has a host: between
/// the two the change succeeds, and no other part changes.
#[verifier::external_body]
fn set_url_scheme(url: &mut reqwest::Url, scheme: &str) -> (r: Result<(), ()>)
    requires
        has_room(url_parts(*old(url)), 0),
        is_plain_scheme(url_parts(*old(url)).scheme) && is_plain_scheme(scheme@)
            || is_secure_scheme(url_parts(*old(url)).scheme) && is_secure_scheme(scheme@),
    ensures
        r is Ok,
        url_parts(*final(url)) == (UrlParts { scheme: scheme@, ..url_parts(*old(url)) }),
{
    url.set_scheme(scheme)
}

/// Calls `Url::query_pairs_mut` and `append_pair`: the pair is written behind the
/// query, with an ampersand before it where the query is not empty.
#[verifier::external_body]
fn append_url_pair(url: &mut reqwest::Url, name: &str, value: &str)
    requires
        url_parts(*old(url)).fragment is None,
        url_parts(*old(url)).query is None ==> has_room(url_parts(*old(url)), 0),
    ensures
        url_parts(*final(url)) == (UrlParts {
            query: Some(form::query_with_pair(url_parts(*old(url)).query, name@, value@)),
            ..url_parts(*old(url))
        }),
{
    url.query_pairs_mut().append_pair(name, value);
}

/// Calls `Url::as_str`: the URL's text.
#[verifier::external_body]
fn url_string(url: &reqwest::Url) -> (r: String)
    ensures
        r@ == url_text(url_parts(*url)),
{
    url.as_str().to_owned()
}

/// The scheme of the URL that a user opens.
pub open spec fn public_scheme(scheme: Seq<char>) -> Option<Seq<char>> {
    if is_plain_scheme(scheme) {
        Some("http"@)
    } else if is_secure_scheme(scheme) {
        Some("https"@)
    } else {
        None
    }
}

/// The scheme of the URL to which a host connects.
pub open spec fn host_scheme(scheme: Seq<char>) -> Option<Seq<char>> {
    if is_plain_scheme(scheme) {
        Some("ws"@)
    } else if is_secure_scheme(scheme) {
        Some("wss"@)
    } else {
        None
    }
}

/// The message for a scheme that a relay URL cannot have.
pub open spec fn scheme_message(scheme: Seq<char>) -> Seq<char> {
    "unsupported remote relay URL scheme: "@ + scheme
}

/// The parameters of the URL that a user opens. A user whose name is blank is not
/// named.
pub open spec fn public_pairs(token: Seq<char>, user_id: Option<Seq<char>>) -> Seq<
    (Seq<char>, Seq<char>),
> {
    let pairs = seq![("auth"@, "cloud"@)].push(("token"@, token));
    match text::filled(user_id) {
        Some(user) => pairs.push(("cloudUser"@, user)),
        None => pairs,
    }
}

/// The parameters of the URL to which a host connects.
pub open spec fn host_pairs(token: Seq<char>, cloud: bool) -> Seq<(Seq<char>, Seq<char>)> {
    if cloud {
        seq![("auth"@, "cloud"@)].push(("token"@, token))
    } else {
        seq![("token"@, token)]
    }
}

/// The URL of a relay with the parts `relay`, with another scheme, the path
/// lengthened, and a query of its own.
pub open spec fn relay_parts(
    relay: UrlParts,
    scheme: Seq<char>,
    pathname: Seq<char>,
    pairs: Seq<(Seq<char>, Seq<char>)>,
) -> UrlParts {
    UrlParts {
        scheme,
        authority: relay.authority,
        path: text::trim_end_of(relay.path, '/') + pathname,
        query: Some(form::form_query(pairs)),
        fragment: None,
    }
}

/// The URL that a user opens.
pub open spec fn public_url(
    relay_url: Seq<char>,
    token: Seq<char>,
    user_id: Option<Seq<char>>,
) -> Result<Seq<char>, Seq<char>> {
    match url_parsed(relay_url) {
        Ok(relay) => match public_scheme(relay.scheme) {
            Some(scheme) => Ok(
                url_text(relay_parts(relay, scheme, "/"@, public_pairs(token, user_id))),
            ),
            None => Err(scheme_message(relay.scheme)),
        },
        Err(message) => Err(message),
    }
}

/// The URL to which a host connects.
pub open spec fn host_url(relay_url: Seq<char>, token: Seq<char>, cloud: bool) -> Result<
    Seq<char>,
    Seq<char>,
> {
    match url_parsed(relay_url) {
        Ok(relay) => match host_scheme(relay.scheme) {
            Some(scheme) => Ok(
                url_text(relay_parts(relay, scheme, "/ws/host"@, host_pairs(token, cloud))),
            ),
            None => Err(scheme_message(relay.scheme)),
        },
        Err(message) => Err(message),
    }
}

/// What stands behind the first question mark of a text.
pub open spec fn behind_question_mark(s: Seq<char>) -> Seq<char> {
    s.skip(text::position(s, '?') + 1)
}

/// `url` starts with a scheme, a colon and two slashes; what stands before its first
/// question mark ends with a pathname, and what stands behind it is the query of
/// some pairs; and it has no fragment.
pub open spec fn is_url_with(
    url: Seq<char>,
    scheme: Seq<char>,
    pathname: Seq<char>,
    pairs: Seq<(Seq<char>, Seq<char>)>,
) -> bool {
    let at = text::position(url, '?');
    &&& (scheme + "://"@).is_prefix_of(url)
    &&& pathname.len() <= at < url.len()
    &&& url.subrange(at - pathname.len(), at) == pathname
    &&& behind_question_mark(url) == form::form_query(pairs)
    &&& form::decoded_pairs(behind_question_mark(url)) == pairs
    &&& !url.contains('#')
}

/// What holds of the URL that a user opens, or of the message in its place: the
/// URL's text is made of a scheme of the relay URL's security, the pathname and the
/// parameters; what stands behind its question mark reads back the token; and it is
/// the same with the other scheme of the relay URL's security, as is the message for
/// a short text.
pub open spec fn is_public_result(
    result: Result<Seq<char>, Seq<char>>,
    relay_url: Seq<char>,
    token: Seq<char>,
    user_id: Option<Seq<char>>,
) -> bool {
    &&& result == public_url(relay_url, token, user_id)
    &&& result matches Ok(url) ==> {
        &&& exists|scheme: Seq<char>| #[trigger]
            is_url_with(url, scheme, "/"@, public_pairs(token, user_id)) && (scheme == "http"@
                || scheme == "https"@)
        &&& web_scheme_of(relay_url) matches Some(own) ==> is_url_with(
            url,
            public_scheme(own)->0,
            "/"@,
            public_pairs(token, user_id),
        )
        &&& query::query_value(behind_question_mark(url), "token"@) == Some(token)
    }
    &&& result is Ok || is_short(relay_url) ==> (twin_text(relay_url) matches Some(other)
        ==> result == public_url(other, token, user_id))
}

/// What holds of the URL to which a host connects, or of the message in its place.
pub open spec fn is_host_result(
    result: Result<Seq<char>, Seq<char>>,
    relay_url: Seq<char>,
    token: Seq<char>,
    cloud: bool,
) -> bool {
    &&& result == host_url(relay_url, token, cloud)
    &&& result matches Ok(url) ==> {
        &&& exists|scheme: Seq<char>| #[trigger]
            is_url_with(url, scheme, "/ws/host"@, host_pairs(token, cloud)) && (scheme == "ws"@
                || scheme == "wss"@)
        &&& web_scheme_of(relay_url) matches Some(own) ==> is_url_with(
            url,
            host_scheme(own)->0,
            "/ws/host"@,
            host_pairs(token, cloud),
        )
        &&& query::query_value(behind_question_mark(url), "token"@) == Some(token)
    }
    &&& result is Ok || is_short(relay_url) ==> (twin_text(relay_url) matches Some(other)
        ==> result == host_url(other, token, cloud))
}

/// A relay URL with room for a path that is lengthened by a pathname of the
/// library, and for a longer scheme.
pub open spec fn relay_url_fits(relay_url: Seq<char>) -> bool {
    match url_parsed(relay_url) {
        Ok(relay) => has_room(
            relay,
            if is_web_scheme(relay.scheme) {
                16
            } else {
                4 * (byte_len(relay.path) + 8)
            },
        ),
        Err(_) => true,
    }
}

/// The scheme of the URL that a user opens, for a relay URL with `scheme`.
pub fn public_relay_scheme(scheme: &str) -> (r: Result<String, String>)
    ensures
        text::result_text(r) == match public_scheme(scheme@) {
            Some(s) => Ok::<Seq<char>, Seq<char>>(s),
            None => Err(scheme_message(scheme@)),
        },
{
    if text_eq(scheme, "http") || text_eq(scheme, "ws") {
        Ok("http".to_owned())
    } else if text_eq(scheme, "https") || text_eq(scheme, "wss") {
        Ok("https".to_owned())
    } else {
        Err(joined("unsupported remote relay URL scheme: ", scheme))
    }
}

/// The scheme of the URL to which a host connects, for a relay URL with `scheme`.
pub fn host_relay_scheme(scheme: &str) -> (r: Result<String, String>)
    ensures
        text::result_text(r) == match host_scheme(scheme@) {
            Some(s) => Ok::<Seq<char>, Seq<char>>(s),
            None => Err(scheme_message(scheme@)),
        },
{
    if text_eq(scheme, "http") || text_eq(scheme, "ws") {
        Ok("ws".to_owned())
    } else if text_eq(scheme, "https") || text_eq(scheme, "wss") {
        Ok("wss".to_owned())
    } else {
        Err(joined("unsupported remote relay URL scheme: ", scheme))
    }
}

/// The path of a relay URL, lengthened.
pub fn relay_path(path: &str, pathname: &str) -> (r: String)
    ensures
        r@ == text::trim_end_of(path@, '/') + pathname@,
{
    joined(trim_end_matches(path, '/'), pathname)
}

proof fn lemma_bytes_of_sum(a: Seq<char>, b: Seq<char>)
    ensures
        byte_len(a + b) == byte_len(a) + byte_len(b),
    decreases a.len(),
{
    if a.len() == 0 {
        assert(a + b =~= b);
    } else {
        lemma_bytes_of_sum(a.drop_first(), b);
        assert((a + b).drop_first() =~= a.drop_first() + b);
    }
}

proof fn lemma_ascii_bytes(s: Seq<char>)
    requires
        vstd::utf8::is_ascii_chars(s),
    ensures
        byte_len(s) == s.len(),
{
    vstd::utf8::is_ascii_chars_encode_utf8(s);
}

proof fn lemma_url_bytes(parts: UrlParts)
    ensures
        byte_len(url_text(parts)) == byte_len(parts.scheme) + 1 + byte_len(parts.authority)
            + byte_len(parts.path) + (match parts.query {
            Some(query) => 1 + byte_len(query),
            None => 0,
        }) + (match parts.fragment {
            Some(fragment) => 1 + byte_len(fragment),
            None => 0,
        }),
{
    let scheme = parts.scheme + seq![':'];
    let start = scheme + parts.authority;
    let middle = match parts.query {
        Some(query) => seq!['?'] + query,
        None => Seq::empty(),
    };
    let end = match parts.fragment {
        Some(fragment) => seq!['#'] + fragment,
        None => Seq::empty(),
    };
    lemma_bytes_of_sum(parts.scheme, seq![':']);
    lemma_bytes_of_sum(scheme, parts.authority);
    lemma_bytes_of_sum(start, parts.path);
    lemma_bytes_of_sum(start + parts.path, middle);
    lemma_bytes_of_sum(start + parts.path + middle, end);
    lemma_ascii_bytes(seq![':']);
    lemma_ascii_bytes(seq!['?']);
    lemma_ascii_bytes(seq!['#']);
    lemma_ascii_bytes(Seq::empty());
    if let Some(query) = parts.query {
        lemma_bytes_of_sum(seq!['?'], query);
    }
    if let Some(fragment) = parts.fragment {
        lemma_bytes_of_sum(seq!['#'], fragment);
    }
}

/// A lengthened path has at most the bytes of the path and of what was added.
proof fn lemma_lengthened_bytes(relay: UrlParts, pathname: Seq<char>)
    requires
        is_simple_path(pathname),
    ensures
        byte_len(text::trim_end_of(relay.path, '/') + pathname) <= byte_len(relay.path)
            + pathname.len(),
        byte_len(
            url_text(
                UrlParts { path: text::trim_end_of(relay.path, '/') + pathname, ..relay },
            ),
        ) <= byte_len(url_text(relay)) + pathname.len(),
{
    let base = text::trim_end_of(relay.path, '/');
    text::lemma_trim_end_of_start(relay.path, '/');
    lemma_bytes_of_sum(base, pathname);
    lemma_bytes_of_sum(base, relay.path.skip(base.len() as int));
    assert(base + relay.path.skip(base.len() as int) =~= relay.path);
    lemma_ascii_bytes(pathname);
    lemma_url_bytes(relay);
    lemma_url_bytes(UrlParts { path: base + pathname, ..relay });
}

/// With another scheme the URL still has room.
proof fn lemma_scheme_room(parts: UrlParts, scheme: Seq<char>)
    requires
        has_room(parts, 8),
        is_web_scheme(scheme),
    ensures
        has_room(UrlParts { scheme, ..parts }, 0),
{
    lemma_schemes();
    lemma_ascii_bytes(scheme);
    lemma_url_bytes(parts);
    lemma_url_bytes(UrlParts { scheme, ..parts });
}

/// The relay URL with its path lengthened, and without query and fragment.
fn relay_url_with_path(relay_url: &str, pathname: &str) -> (r: Result<reqwest::Url, String>)
    requires
        is_simple_path(pathname@),
        pathname@.len() <= 8,
        relay_url_fits(relay_url@),
    ensures
        match r {
            Ok(url) => url_parsed(relay_url@) matches Ok(relay) && {
                &&& url_parts(url).scheme == relay.scheme
                &&& is_web_scheme(relay.scheme) ==> {
                    &&& has_room(url_parts(url), 8)
                    &&& url_parts(url) == (UrlParts {
                        path: text::trim_end_of(relay.path, '/') + pathname@,
                        query: None,
                        fragment: None,
                        ..relay
                    })
                }
            },
            Err(message) => url_parsed(relay_url@) == Err::<UrlParts, Seq<char>>(message@),
        },
        reads_as_written(relay_url@, url_parsed(relay_url@)),
{
    let mut url = match parse_url(relay_url) {
        Ok(url) => url,
        Err(message) => return Err(message),
    };
    let ghost relay = url_parts(url);
    let base_path = url_path(&url);
    let path = relay_path(base_path.as_str(), pathname);
    proof {
        let base = text::trim_end_of(relay.path, '/');
        text::lemma_trim_end_of_start(relay.path, '/');
        assert(path@.take(base.len() as int) =~= base);
        assert(path@.skip(base.len() as int) =~= pathname@);
        assert(base.is_prefix_of(path@));
        lemma_lengthened_bytes(relay, pathname@);
    }
    set_url_path(&mut url, path.as_str());
    remove_url_fragment(&mut url);
    remove_url_query(&mut url);
    proof {
        if is_web_scheme(relay.scheme) {
            assert(path@.last() == pathname@.last());
            text::lemma_trim_end_of_other(path@, ' ');
            lemma_url_bytes(relay);
            lemma_url_bytes(url_parts(url));
        }
    }
    Ok(url)
}

/// Whether a relay URL leaves room for a path that is lengthened.
pub fn relay_url_room(relay_url: &str) -> (r: bool)
    ensures
        r == relay_url_fits(relay_url@),
{
    match parse_url(relay_url) {
        Ok(url) => {
            let len: u128 = url_string(&url).as_str().as_bytes().len() as u128;
            let path_len: u128 = url_path(&url).as_str().as_bytes().len() as u128;
            let more: u128 = match public_relay_scheme(url_scheme(&url).as_str()) {
                Ok(_) => 16,
                Err(_) => 4 * (path_len + 8),
            };
            len + more + 16 <= u32::MAX as u128
        },
        Err(_) => true,
    }
}

/// The URL that a user opens to reach a host through a relay.
pub fn remote_relay_url(relay_url: &str, token: &str, cloud_user_id: Option<&str>) -> (r: Result<
    String,
    String,
>)
    requires
        relay_url_fits(relay_url@),
    ensures
        is_public_result(
            text::result_text(r),
            relay_url@,
            token@,
            text::opt_text(cloud_user_id),
        ),
{
    proof {
        reveal_strlit("/");
        lemma_schemes();
    }
    let parsed = relay_url_with_path(relay_url, "/");
    proof {
        lemma_public_result(relay_url@, token@, text::opt_text(cloud_user_id));
    }
    let mut url = match parsed {
        Ok(url) => url,
        Err(message) => return Err(message),
    };
    let scheme = match public_relay_scheme(url_scheme(&url).as_str()) {
        Ok(scheme) => scheme,
        Err(message) => return Err(message),
    };
    proof {
        lemma_scheme_room(url_parts(url), scheme@);
    }
    if set_url_scheme(&mut url, scheme.as_str()).is_err() {
        return Err(joined("failed to set remote relay scheme: ", scheme.as_str()));
    }
    append_url_pair(&mut url, "auth", "cloud");
    append_url_pair(&mut url, "token", token);
    let user_id = match cloud_user_id {
        Some(user_id) => trim(user_id),
        None => "",
    };
    proof {
        reveal_strlit("");
        let one = seq![("auth"@, "cloud"@)];
        let two = one.push(("token"@, token@));
        form::lemma_form_query_push(one, "token"@, token@);
        form::lemma_form_query_push(two, "cloudUser"@, user_id@);
    }
    if !user_id.is_empty() {
        append_url_pair(&mut url, "cloudUser", user_id);
    }
    Ok(url_string(&url))
}

/// The URL that a user opens, where the relay URL leaves room for it.
pub fn try_remote_relay_url(relay_url: &str, token: &str, cloud_user_id: Option<&str>) -> (r: Option<
    Result<String, String>,
>)
    ensures
        match r {
            Some(result) => relay_url_fits(relay_url@) && is_public_result(
                text::result_text(result),
                relay_url@,
                token@,
                text::opt_text(cloud_user_id),
            ),
            None => !relay_url_fits(relay_url@),
        },
{
    if relay_url_room(relay_url) {
        Some(remote_relay_url(relay_url, token, cloud_user_id))
    } else {
        None
    }
}

/// The URL to which a host connects to be reached through a relay.
pub fn relay_host_ws_url(relay_url: &str, token: &str, cloud: bool) -> (r: Result<String, String>)
    requires
        relay_url_fits(relay_url@),
    ensures
        is_host_result(text::result_text(r), relay_url@, token@, cloud),
{
    proof {
        reveal_strlit("/ws/host");
        lemma_schemes();
    }
    let parsed = relay_url_with_path(relay_url, "/ws/host");
    proof {
        lemma_host_result(relay_url@, token@, cloud);
    }
    let mut url = match parsed {
        Ok(url) => url,
        Err(message) => return Err(message),
    };
    let scheme = match host_relay_scheme(url_scheme(&url).as_str()) {
        Ok(scheme) => scheme,
        Err(message) => return Err(message),
    };
    proof {
        lemma_scheme_room(url_parts(url), scheme@);
    }
    if set_url_scheme(&mut url, scheme.as_str()).is_err() {
        return Err(joined("failed to set remote relay scheme: ", scheme.as_str()));
    }
    if cloud {
        append_url_pair(&mut url, "auth", "cloud");
        proof {
            form::lemma_form_query_push(seq![("auth"@, "cloud"@)], "token"@, token@);
        }
    }
    append_url_pair(&mut url, "token", token);
    Ok(url_string(&url))
}

/// The URL to which a host connects, where the relay URL leaves room for it.
pub fn try_relay_host_ws_url(relay_url: &str, token: &str, cloud: bool) -> (r: Option<
    Result<String, String>,
>)
    ensures
        match r {
            Some(result) => relay_url_fits(relay_url@) && is_host_result(
                text::result_text(result),
                relay_url@,
                token@,
                cloud,
            ),
            None => !relay_url_fits(relay_url@),
        },
{
    if relay_url_room(relay_url) {
        Some(relay_host_ws_url(relay_url, token, cloud))
    } else {
        None
    }
}

/// The URL that a user opens says that the cloud decides who may enter, carries
/// the token as it was given, and names the user exactly where one is given.
pub proof fn law_public_url_parameters(token: Seq<char>, user_id: Option<Seq<char>>)
    ensures
        ({
            let written = form::form_query(public_pairs(token, user_id));
            &&& query::query_value(written, "auth"@) == Some("cloud"@)
            &&& query::query_value(written, "token"@) == Some(token)
            &&& query::query_value(written, "cloudUser"@) == text::filled(user_id)
        }),
{
    let pairs = public_pairs(token, user_id);
    lemma_names();
    form::law_query_reads_back(pairs, "auth"@);
    form::law_query_reads_back(pairs, "token"@);
    form::law_query_reads_back(pairs, "cloudUser"@);
    reveal_with_fuel(form::first_with_name, 4);
}

/// The URL to which a host connects carries the token as it was given, and says
/// that the cloud decides exactly where it does.
pub proof fn law_host_url_parameters(token: Seq<char>, cloud: bool)
    ensures
        ({
            let written = form::form_query(host_pairs(token, cloud));
            &&& query::query_value(written, "auth"@) == if cloud {
                Some("cloud"@)
            } else {
                None
            }
            &&& query::query_value(written, "token"@) == Some(token)
            &&& query::query_value(written, "cloudUser"@) is None
        }),
{
    let pairs = host_pairs(token, cloud);
    lemma_names();
    form::law_query_reads_back(pairs, "auth"@);
    form::law_query_reads_back(pairs, "token"@);
    form::law_query_reads_back(pairs, "cloudUser"@);
    reveal_with_fuel(form::first_with_name, 4);
}

/// The text of a URL that is made of a relay URL is what it is made of: behind the
/// first question mark stands the query and nothing else.
pub proof fn law_relay_text(
    relay: UrlParts,
    scheme: Seq<char>,
    pathname: Seq<char>,
    pairs: Seq<(Seq<char>, Seq<char>)>,
)
    requires
        has_no_marks(scheme),
        has_no_marks(relay.authority),
        has_no_marks(relay.path),
        has_no_marks(pathname),
        "//"@.is_prefix_of(relay.authority),
        pairs.len() > 0,
    ensures
        is_url_with(
            url_text(relay_parts(relay, scheme, pathname, pairs)),
            scheme,
            pathname,
            pairs,
        ),
{
    let base = text::trim_end_of(relay.path, '/');
    let front = scheme + seq![':'] + relay.authority + (base + pathname);
    let written = form::form_query(pairs);
    let url = url_text(relay_parts(relay, scheme, pathname, pairs));
    text::lemma_trim_end_of_start(relay.path, '/');
    form::lemma_form_query_without_number_sign(pairs);
    form::law_query_holds_its_pairs(pairs);
    assert(url =~= front + seq!['?'] + written);
    let before_path = scheme.len() + 1 + relay.authority.len();
    assert forall|j: int| 0 <= j < front.len() implies front[j] != '?' && front[j] != '#' by {
        if j < scheme.len() {
            assert(scheme.contains(scheme[j]));
        } else if j == scheme.len() {
        } else if j < before_path {
            assert(relay.authority.contains(relay.authority[j - scheme.len() - 1]));
        } else if j < before_path + base.len() {
            assert(relay.path.contains(relay.path[j - before_path]));
        } else {
            assert(pathname.contains(pathname[j - before_path - base.len()]));
        }
    }
    text::lemma_position_is(url, '?', front.len() as int);
    assert(behind_question_mark(url) =~= written);
    assert(url.subrange(front.len() - pathname.len(), front.len() as int) =~= pathname);
    assert forall|j: int| 0 <= j < url.len() implies url[j] != '#' by {
        if j > front.len() {
            assert(written.contains(written[j - front.len() - 1]));
        }
    }
    reveal_strlit("//");
    reveal_strlit("://");
    assert(relay.authority[0] == '/' && relay.authority[1] == '/') by {
        assert("//"@ =~= relay.authority.subrange(0, 2));
        assert(relay.authority.subrange(0, 2)[0] == '/' && relay.authority.subrange(0, 2)[1]
            == '/');
    }
    let start = scheme + "://"@;
    assert(url.subrange(0, start.len() as int) =~= start);
}

/// The plain schemes are each other's twins, and so are the secure ones: a text
/// with one of them in front has the text with the other one for its twin.
pub proof fn law_twin_texts(rest: Seq<char>)
    ensures
        twin_text("http://"@ + rest) == Some("ws://"@ + rest),
        twin_text("ws://"@ + rest) == Some("http://"@ + rest),
        twin_text("https://"@ + rest) == Some("wss://"@ + rest),
        twin_text("wss://"@ + rest) == Some("https://"@ + rest),
{
    lemma_schemes();
    reveal_strlit("http");
    reveal_strlit("https");
    reveal_strlit("ws");
    reveal_strlit("wss");
    reveal_strlit("http://");
    reveal_strlit("https://");
    reveal_strlit("ws://");
    reveal_strlit("wss://");
    let http = "http://"@ + rest;
    let https = "https://"@ + rest;
    let ws = "ws://"@ + rest;
    let wss = "wss://"@ + rest;
    assert(http.subrange(0, 7) =~= "http://"@);
    assert(https.subrange(0, 8) =~= "https://"@);
    assert(ws.subrange(0, 5) =~= "ws://"@);
    assert(wss.subrange(0, 6) =~= "wss://"@);
    assert(https.subrange(0, 7)[4] == 's' && "http://"@[4] == ':');
    assert(ws[0] == 'w' && wss[0] == 'w' && "http://"@[0] == 'h' && "https://"@[0] == 'h');
    assert(ws.len() >= 7 ==> ws.subrange(0, 7)[0] == 'w');
    assert(ws.len() >= 8 ==> ws.subrange(0, 8)[0] == 'w');
    assert(wss.len() >= 7 ==> wss.subrange(0, 7)[0] == 'w');
    assert(wss.len() >= 8 ==> wss.subrange(0, 8)[0] == 'w');
    assert(wss.subrange(0, 5)[2] == 's' && "ws://"@[2] == ':');
    assert("ws"@ + http.skip(4) =~= ws);
    assert("http"@ + ws.skip(2) =~= http);
    assert("wss"@ + https.skip(5) =~= wss);
    assert("https"@ + wss.skip(3) =~= https);
}

proof fn lemma_public_result(relay_url: Seq<char>, token: Seq<char>, user_id: Option<Seq<char>>)
    requires
        relay_url_fits(relay_url),
        reads_as_written(relay_url, url_parsed(relay_url)),
    ensures
        is_public_result(public_url(relay_url, token, user_id), relay_url, token, user_id),
{
    lemma_schemes();
    reveal_strlit("/");
    law_public_url_parameters(token, user_id);
    if let Ok(relay) = url_parsed(relay_url) {
        law_schemes_keep_security(relay.scheme);
        if let Some(scheme) = public_scheme(relay.scheme) {
            assert(is_web_scheme(scheme));
            law_relay_text(relay, scheme, "/"@, public_pairs(token, user_id));
        }
    }
}

proof fn lemma_host_result(relay_url: Seq<char>, token: Seq<char>, cloud: bool)
    requires
        relay_url_fits(relay_url),
        reads_as_written(relay_url, url_parsed(relay_url)),
    ensures
        is_host_result(host_url(relay_url, token, cloud), relay_url, token, cloud),
{
    lemma_schemes();
    reveal_strlit("/ws/host");
    law_host_url_parameters(token, cloud);
    if let Ok(relay) = url_parsed(relay_url) {
        law_schemes_keep_security(relay.scheme);
        if let Some(scheme) = host_scheme(relay.scheme) {
            assert(is_web_scheme(scheme));
            law_relay_text(relay, scheme, "/ws/host"@, host_pairs(token, cloud));
        }
    }
}

/// What a relay URL has in its query and its fragment does not reach the URLs that
/// are made of it.
pub proof fn law_own_query_is_dropped(
    relay: UrlParts,
    other: UrlParts,
    scheme: Seq<char>,
    pathname: Seq<char>,
    pairs: Seq<(Seq<char>, Seq<char>)>,
)
    requires
        other == (UrlParts { query: other.query, fragment: other.fragment, ..relay }),
    ensures
        relay_parts(relay, scheme, pathname, pairs) == relay_parts(other, scheme, pathname, pairs),
        relay_parts(relay, scheme, pathname, pairs).query == Some(form::form_query(pairs)),
        relay_parts(relay, scheme, pathname, pairs).fragment is None,
{
}

/// A relay URL is accepted for both purposes or for none; a plain one stays
/// plain, and a secure one stays secure.
pub proof fn law_schemes_keep_security(scheme: Seq<char>)
    ensures
        public_scheme(scheme) is Some <==> is_web_scheme(scheme),
        host_scheme(scheme) is Some <==> is_web_scheme(scheme),
        public_scheme(scheme) matches Some(s) ==> is_secure_scheme(s) == is_secure_scheme(scheme)
            && public_scheme(s) == Some(s) && host_scheme(s) == host_scheme(scheme),
        host_scheme(scheme) matches Some(s) ==> is_secure_scheme(s) == is_secure_scheme(scheme)
            && host_scheme(s) == Some(s) && public_scheme(s) == public_scheme(scheme),
{
    lemma_schemes();
}

proof fn lemma_schemes()
    ensures
        "http"@.len() == 4,
        "https"@.len() == 5,
        "ws"@.len() == 2,
        "wss"@.len() == 3,
        forall|scheme: Seq<char>| #[trigger]
            is_web_scheme(scheme) ==> has_no_marks(scheme) && vstd::utf8::is_ascii_chars(scheme),
{
    reveal_strlit("http");
    reveal_strlit("https");
    reveal_strlit("ws");
    reveal_strlit("wss");
}

proof fn lemma_names()
    ensures
        form::is_plain_name("auth"@),
        form::is_plain_name("token"@),
        form::is_plain_name("cloudUser"@),
        "auth"@ != "token"@,
        "auth"@ != "cloudUser"@,
        "token"@ != "cloudUser"@,
{
    reveal_strlit("auth");
    reveal_strlit("token");
    reveal_strlit("cloudUser");
    assert("auth"@.len() == 4 && "token"@.len() == 5 && "cloudUser"@.len() == 9);
}

proof fn lemma_written_pairs(token: Seq<char>, user: Seq<char>)
    ensures
        form::form_query(seq![("token"@, token)]) == "token="@ + form::form_encoded(token),
        form::form_query(seq![("auth"@, "cloud"@)].push(("token"@, token))) == "auth=cloud&token="@
            + form::form_encoded(token),
        form::form_query(
            seq![("auth"@, "cloud"@)].push(("token"@, token)).push(("cloudUser"@, user)),
        ) == "auth=cloud&token="@ + form::form_encoded(token) + "&cloudUser="@ + form::form_encoded(
            user,
        ),
{
    lemma_names();
    reveal_strlit("cloud");
    assert(form::is_plain_name("cloud"@));
    form::lemma_plain_name("auth"@);
    form::lemma_plain_name("cloud"@);
    form::lemma_plain_name("token"@);
    form::lemma_plain_name("cloudUser"@);
    reveal_strlit("auth");
    reveal_strlit("token");
    reveal_strlit("token=");
    reveal_strlit("cloudUser");
    reveal_strlit("auth=cloud&token=");
    reveal_strlit("&cloudUser=");
    let value = form::form_encoded(token);
    let name = form::form_encoded(user);
    assert(form::form_pair("token"@, token) =~= "token="@ + value);
    let one = seq![("auth"@, "cloud"@)];
    let two = one.push(("token"@, token));
    form::lemma_form_query_push(one, "token"@, token);
    form::lemma_form_query_push(two, "cloudUser"@, user);
    let start = form::form_pair("auth"@, "cloud"@);
    assert(start.len() > 0);
    assert(start + seq!['&'] + form::form_pair("token"@, token) =~= "auth=cloud&token="@ + value);
    assert(form::form_query(two) == "auth=cloud&token="@ + value);
    assert(form::form_query(two) + seq!['&'] + form::form_pair("cloudUser"@, user)
        =~= "auth=cloud&token="@ + value + "&cloudUser="@ + name);
}

/// The URL that a user opens, letter by letter: the scheme for a browser, plain where
/// the relay's is; the relay's authority and its path, with one slash at the end; and
/// the parameters, in their order. A relay URL that is none, or has another scheme, is
/// refused with the reason.
pub proof fn law_public_url(
    relay_url: Seq<char>,
    token: Seq<char>,
    user_id: Option<Seq<char>>,
    relay: UrlParts,
    message: Seq<char>,
)
    ensures
        url_parsed(relay_url) == Ok::<UrlParts, Seq<char>>(relay) ==> {
            let middle = relay.authority + text::trim_end_of(relay.path, '/');
            let start = "/?auth=cloud&token="@ + form::form_encoded(token);
            let end = match text::filled(user_id) {
                Some(user) => start + "&cloudUser="@ + form::form_encoded(user),
                None => start,
            };
            let plain = relay.scheme == "http"@ || relay.scheme == "ws"@;
            let secure = relay.scheme == "https"@ || relay.scheme == "wss"@;
            let result = public_url(relay_url, token, user_id);
            &&& plain ==> result == Ok::<Seq<char>, Seq<char>>("http:"@ + middle + end)
            &&& secure ==> result == Ok::<Seq<char>, Seq<char>>("https:"@ + middle + end)
            &&& !plain && !secure ==> result == Err::<Seq<char>, Seq<char>>(
                "unsupported remote relay URL scheme: "@ + relay.scheme,
            )
        },
        url_parsed(relay_url) == Err::<UrlParts, Seq<char>>(message) ==> public_url(
            relay_url,
            token,
            user_id,
        ) == Err::<Seq<char>, Seq<char>>(message),
{
    if url_parsed(relay_url) == Ok::<UrlParts, Seq<char>>(relay) {
        let user = match text::filled(user_id) {
            Some(known) => known,
            None => Seq::empty(),
        };
        lemma_written_pairs(token, user);
        lemma_schemes();
        let pairs = public_pairs(token, user_id);
        let query = form::form_query(pairs);
        let middle = relay.authority + text::trim_end_of(relay.path, '/');
        let start = "/?auth=cloud&token="@ + form::form_encoded(token);
        let end = match text::filled(user_id) {
            Some(known) => start + "&cloudUser="@ + form::form_encoded(known),
            None => start,
        };
        reveal_strlit("/");
        reveal_strlit("/?auth=cloud&token=");
        reveal_strlit("auth=cloud&token=");
        reveal_strlit("http");
        reveal_strlit("https");
        reveal_strlit("http:");
        reveal_strlit("https:");
        assert("/"@ + seq!['?'] + query =~= end);
        let plain = relay_parts(relay, "http"@, "/"@, pairs);
        let secure = relay_parts(relay, "https"@, "/"@, pairs);
        assert(url_text(plain) =~= "http:"@ + middle + end);
        assert(url_text(secure) =~= "https:"@ + middle + end);
    }
}

/// The URL to which a host connects, letter by letter: the scheme of web sockets, plain
/// where the relay's is; the relay's authority and its path, followed by `/ws/host`; and
/// the parameters, in their order.
pub proof fn law_host_url(
    relay_url: Seq<char>,
    token: Seq<char>,
    cloud: bool,
    relay: UrlParts,
    message: Seq<char>,
)
    ensures
        url_parsed(relay_url) == Ok::<UrlParts, Seq<char>>(relay) ==> {
            let middle = relay.authority + text::trim_end_of(relay.path, '/');
            let end = if cloud {
                "/ws/host?auth=cloud&token="@ + form::form_encoded(token)
            } else {
                "/ws/host?token="@ + form::form_encoded(token)
            };
            let plain = relay.scheme == "http"@ || relay.scheme == "ws"@;
            let secure = relay.scheme == "https"@ || relay.scheme == "wss"@;
            let result = host_url(relay_url, token, cloud);
            &&& plain ==> result == Ok::<Seq<char>, Seq<char>>("ws:"@ + middle + end)
            &&& secure ==> result == Ok::<Seq<char>, Seq<char>>("wss:"@ + middle + end)
            &&& !plain && !secure ==> result == Err::<Seq<char>, Seq<char>>(
                "unsupported remote relay URL scheme: "@ + relay.scheme,
            )
        },
        url_parsed(relay_url) == Err::<UrlParts, Seq<char>>(message) ==> host_url(
            relay_url,
            token,
            cloud,
        ) == Err::<Seq<char>, Seq<char>>(message),
{
    if url_parsed(relay_url) == Ok::<UrlParts, Seq<char>>(relay) {
        lemma_written_pairs(token, Seq::empty());
        lemma_schemes();
        let pairs = host_pairs(token, cloud);
        let query = form::form_query(pairs);
        let middle = relay.authority + text::trim_end_of(relay.path, '/');
        let end = if cloud {
            "/ws/host?auth=cloud&token="@ + form::form_encoded(token)
        } else {
            "/ws/host?token="@ + form::form_encoded(token)
        };
        reveal_strlit("/ws/host");
        reveal_strlit("/ws/host?auth=cloud&token=");
        reveal_strlit("/ws/host?token=");
        reveal_strlit("auth=cloud&token=");
        reveal_strlit("token=");
        reveal_strlit("ws");
        reveal_strlit("wss");
        reveal_strlit("ws:");
        reveal_strlit("wss:");
        assert("/ws/host"@ + seq!['?'] + query =~= end);
        let plain = relay_parts(relay, "ws"@, "/ws/host"@, pairs);
        let secure = relay_parts(relay, "wss"@, "/ws/host"@, pairs);
        assert(url_text(plain) =~= "ws:"@ + middle + end);
        assert(url_text(secure) =~= "wss:"@ + middle + end);
    }
}

/// Different tokens give different URLs, for a user and for a host.
pub proof fn law_relay_urls_tell_tokens_apart(
    relay_url: Seq<char>,
    token: Seq<char>,
    other: Seq<char>,
    user_id: Option<Seq<char>>,
    cloud: bool,
)
    requires
        token != other,
    ensures
        public_url(relay_url, token, user_id) is Ok ==> public_url(relay_url, token, user_id)
            != public_url(relay_url, other, user_id),
        host_url(relay_url, token, cloud) is Ok ==> host_url(relay_url, token, cloud) != host_url(
            relay_url,
            other,
            cloud,
        ),
{
    law_public_url_parameters(token, user_id);
    law_public_url_parameters(other, user_id);
    law_host_url_parameters(token, cloud);
    law_host_url_parameters(other, cloud);
    if let Ok(relay) = url_parsed(relay_url) {
        if let Some(scheme) = public_scheme(relay.scheme) {
            let a = form::form_query(public_pairs(token, user_id));
            let b = form::form_query(public_pairs(other, user_id));
            let front = scheme + seq![':'] + relay.authority + (text::trim_end_of(relay.path, '/')
                + "/"@) + seq!['?'];
            let one = url_text(relay_parts(relay, scheme, "/"@, public_pairs(token, user_id)));
            let two = url_text(relay_parts(relay, scheme, "/"@, public_pairs(other, user_id)));
            assert(one =~= front + a);
            assert(two =~= front + b);
            if one == two {
                assert(a =~= one.skip(front.len() as int));
                assert(b =~= two.skip(front.len() as int));
            }
        }
        if let Some(scheme) = host_scheme(relay.scheme) {
            let a = form::form_query(host_pairs(token, cloud));
            let b = form::form_query(host_pairs(other, cloud));
            let front = scheme + seq![':'] + relay.authority + (text::trim_end_of(relay.path, '/')
                + "/ws/host"@) + seq!['?'];
            let one = url_text(relay_parts(relay, scheme, "/ws/host"@, host_pairs(token, cloud)));
            let two = url_text(relay_parts(relay, scheme, "/ws/host"@, host_pairs(other, cloud)));
            assert(one =~= front + a);
            assert(two =~= front + b);
            if one == two {
                assert(a =~= one.skip(front.len() as int));
                assert(b =~= two.skip(front.len() as int));
            }
        }
    }
}

/// A relay URL of the web is refused for want of room only where it has nearly as many
/// bytes as a 32-bit number counts. One that cannot be read needs no room.
pub proof fn law_room(relay_url: Seq<char>, relay: UrlParts)
    ensures
        url_parsed(relay_url) == Ok::<UrlParts, Seq<char>>(relay) ==> {
            let len = vstd::utf8::encode_utf8(url_text(relay)).len();
            let path_len = vstd::utf8::encode_utf8(relay.path).len();
            let web = relay.scheme == "http"@ || relay.scheme == "https"@ || relay.scheme == "ws"@
                || relay.scheme == "wss"@;
            &&& web ==> (relay_url_fits(relay_url) <==> len + 32 <= 0xffff_ffff)
            &&& !web ==> (relay_url_fits(relay_url) <==> len + 4 * path_len + 48 <= 0xffff_ffff)
        },
        url_parsed(relay_url) is Err ==> relay_url_fits(relay_url),
{
}

/// What is said of a result fixes it, for a user and for a host: the URL or the message
/// is the one for the relay URL and the token, and a URL reads back the token.
pub proof fn law_results(
    result: Result<Seq<char>, Seq<char>>,
    relay_url: Seq<char>,
    token: Seq<char>,
    user_id: Option<Seq<char>>,
    cloud: bool,
)
    ensures
        is_public_result(result, relay_url, token, user_id) ==> result == public_url(
            relay_url,
            token,
            user_id,
        ) && (result matches Ok(url) ==> query::query_value(
            url.skip(text::position(url, '?') + 1),
            "token"@,
        ) == Some(token)),
        is_host_result(result, relay_url, token, cloud) ==> result == host_url(
            relay_url,
            token,
            cloud,
        ) && (result matches Ok(url) ==> query::query_value(
            url.skip(text::position(url, '?') + 1),
            "token"@,
        ) == Some(token)),
{
}

} // verus!
