//! HTTP origins: the address under which a local server is reached.

use vstd::prelude::*;

use crate::text;
use crate::text::{contains_char, decimal, starts_with, text_eq};

verus! {

/// The host to connect to where a server listens on `host`: one that listens on
/// every address is reached on the loopback address.
pub open spec fn connect_host(host: Seq<char>) -> Seq<char> {
    if host == "0.0.0.0"@ || host == "::"@ || host == "[::]"@ {
        "127.0.0.1"@
    } else {
        host
    }
}

/// `host` as it stands in a URL: an address with colons is put in brackets,
/// unless it is in brackets already.
pub open spec fn host_part(host: Seq<char>) -> Seq<char> {
    if host.contains(':') && !"["@.is_prefix_of(host) {
        "["@ + host + "]"@
    } else {
        host
    }
}

/// The origin of the HTTP server at `host` and `port`.
pub open spec fn http_origin(host: Seq<char>, port: nat) -> Seq<char> {
    "http://"@ + host_part(host) + ":"@ + text::decimal_text(port)
}

/// The host to connect to where a server listens on `host`.
pub fn reachable_host(host: &str) -> (r: &str)
    ensures
        r@ == connect_host(host@),
{
    if text_eq(host, "0.0.0.0") || text_eq(host, "::") || text_eq(host, "[::]") {
        "127.0.0.1"
    } else {
        host
    }
}

/// The text of the origin of the HTTP server at `host` and `port`.
pub fn origin_text(host: &str, port: u64) -> (r: String)
    ensures
        r@ == http_origin(host@, port as nat),
{
    let mut out = "http://".to_owned();
    if contains_char(host, ':') && !starts_with(host, "[") {
        let mut part = "[".to_owned();
        part.append(host);
        part.append("]");
        out.append(part.as_str());
    } else {
        out.append(host);
    }
    out.append(":");
    out.append(decimal(port).as_str());
    out
}

/// An origin is the scheme, the host and the port. A host with a colon that does not
/// start with a bracket stands in brackets, and another one as it is.
pub proof fn law_http_origin(host: Seq<char>, port: nat)
    ensures
        host.contains(':') && host[0] != '[' ==> http_origin(host, port) == "http://["@ + host
            + "]:"@ + text::decimal_text(port),
        !host.contains(':') || host[0] == '[' && host.len() > 0 ==> http_origin(host, port)
            == "http://"@ + host + ":"@ + text::decimal_text(port),
{
    reveal_strlit("[");
    reveal_strlit("]");
    reveal_strlit(":");
    reveal_strlit("]:");
    reveal_strlit("http://");
    reveal_strlit("http://[");
    if host.len() > 0 {
        assert(host.subrange(0, 1)[0] == host[0]);
        if host[0] == '[' {
            assert("["@ =~= host.subrange(0, 1));
        } else {
            assert("["@[0] == '[');
        }
    }
    assert("http://"@ + ("["@ + host + "]"@) + ":"@ + text::decimal_text(port) =~= "http://["@
        + host + "]:"@ + text::decimal_text(port));
}

/// Each address that stands for every address becomes the loopback address, and no
/// other host changes.
pub proof fn law_connect_host(host: Seq<char>)
    ensures
        host == "0.0.0.0"@ || host == "::"@ || host == "[::]"@ ==> connect_host(host)
            == "127.0.0.1"@,
        host != "0.0.0.0"@ && host != "::"@ && host != "[::]"@ ==> connect_host(host) == host,
{
}

/// What is connected to is never one of the addresses that stand for every
/// address, and what is no such address is left as it is.
pub proof fn law_host_can_be_connected_to(host: Seq<char>)
    ensures
        connect_host(host) != "0.0.0.0"@,
        connect_host(host) != "::"@,
        connect_host(host) != "[::]"@,
        connect_host(connect_host(host)) == connect_host(host),
{
    reveal_strlit("127.0.0.1");
    reveal_strlit("0.0.0.0");
    reveal_strlit("::");
    reveal_strlit("[::]");
    assert("127.0.0.1"@.len() == 9 && "0.0.0.0"@.len() == 7 && "::"@.len() == 2 && "[::]"@.len()
        == 4);
}

} // verus!
