//! The address under which this machine is found in its local network.

use vstd::prelude::*;

use crate::remote::form;
use crate::remote::query;
use crate::remote::relay;
use crate::text;
use crate::text::{
    contains_char, contains_text, decimal, starts_with, text_eq, to_ascii_lowercase, trim,
};

verus! {

/// An IPv4 address, by its four octets.
#[derive(Debug, Clone, Copy, PartialEq, Eq, Structural)]
pub struct Ipv4Addr {
    pub a: u8,
    pub b: u8,
    pub c: u8,
    pub d: u8,
}

impl Ipv4Addr {
    /// The address with these octets.
    pub fn new(a: u8, b: u8, c: u8, d: u8) -> (r: Ipv4Addr)
        ensures
            r == (Ipv4Addr { a, b, c, d }),
    {
        Ipv4Addr { a, b, c, d }
    }

    /// The address in dotted decimal notation.
    pub fn to_text(&self) -> (r: String)
        ensures
            r@ == dotted(*self),
    {
        let mut out = decimal(self.a as u64);
        out.append(".");
        out.append(decimal(self.b as u64).as_str());
        out.append(".");
        out.append(decimal(self.c as u64).as_str());
        out.append(".");
        out.append(decimal(self.d as u64).as_str());
        out
    }
}

/// An address in dotted decimal notation.
pub open spec fn dotted(ip: Ipv4Addr) -> Seq<char> {
    text::decimal_text(ip.a as nat) + "."@ + text::decimal_text(ip.b as nat) + "."@
        + text::decimal_text(ip.c as nat) + "."@ + text::decimal_text(ip.d as nat)
}

/// An address of a private network.
pub open spec fn is_private(ip: Ipv4Addr) -> bool {
    ||| ip.a == 10
    ||| ip.a == 172 && 16 <= ip.b <= 31
    ||| ip.a == 192 && ip.b == 168
}

/// An address set aside for measurements, as virtual adapters use them.
pub open spec fn is_benchmark(ip: Ipv4Addr) -> bool {
    ip.a == 198 && 18 <= ip.b <= 19
}

/// An address under which another machine can reach this one: not a loopback,
/// multicast, broadcast, unspecified, link-local or benchmark address.
pub open spec fn is_useful(ip: Ipv4Addr) -> bool {
    &&& ip.a != 127
    &&& !(224 <= ip.a <= 239)
    &&& !(ip.a == 255 && ip.b == 255 && ip.c == 255 && ip.d == 255)
    &&& !(ip.a == 0 && ip.b == 0 && ip.c == 0 && ip.d == 0)
    &&& !(ip.a == 169 && ip.b == 254)
    &&& !is_benchmark(ip)
}

/// An interface's name without white space around it and in small letters.
pub open spec fn normal_name(name: Seq<char>) -> Seq<char> {
    text::ascii_lowered(text::trimmed(name))
}

/// A name, in its normal form, that speaks of a local network.
pub open spec fn names_lan(name: Seq<char>) -> bool {
    ||| text::occurs_in("wlan"@, name)
    ||| text::occurs_in("wi-fi"@, name)
    ||| text::occurs_in("wifi"@, name)
    ||| text::occurs_in("ethernet"@, name)
    ||| text::occurs_in("以太网"@, name)
    ||| text::occurs_in("无线"@, name)
    ||| text::occurs_in("lan"@, name)
}

/// A name, in its normal form, that speaks of a virtual adapter.
pub open spec fn names_virtual(name: Seq<char>) -> bool {
    ||| text::occurs_in("mihomo"@, name)
    ||| text::occurs_in("wintun"@, name)
    ||| text::occurs_in("tun"@, name)
    ||| text::occurs_in("tap"@, name)
    ||| text::occurs_in("vmware"@, name)
    ||| text::occurs_in("virtual"@, name)
    ||| text::occurs_in("virtualbox"@, name)
    ||| text::occurs_in("hyper-v"@, name)
    ||| text::occurs_in("tailscale"@, name)
    ||| text::occurs_in("wireguard"@, name)
    ||| text::occurs_in("zerotier"@, name)
    ||| text::occurs_in("loopback"@, name)
    ||| "本地连接*"@.is_prefix_of(name)
    ||| name.contains('*')
}

/// `n` where something holds, else zero.
pub open spec fn points(holds: bool, n: int) -> int {
    if holds {
        n
    } else {
        0
    }
}

/// How well an interface with this name and address serves.
pub open spec fn interface_score(name: Seq<char>, ip: Ipv4Addr) -> int {
    points(is_private(ip), 100) + points(names_lan(normal_name(name)), 40) - points(
        names_virtual(normal_name(name)),
        40,
    )
}

/// An address that may be chosen. A higher score is better; between equal scores,
/// a lower metric is.
pub struct Candidate {
    pub ip: Ipv4Addr,
    pub score: i32,
    pub metric: u32,
}

/// `a` is to be chosen rather than `b`.
pub open spec fn outranks(a: Candidate, b: Candidate) -> bool {
    a.score > b.score || a.score == b.score && a.metric < b.metric
}

/// The choice among candidates: the best one, and the first of several best.
pub open spec fn choice(candidates: Seq<Candidate>) -> Option<Candidate>
    decreases candidates.len(),
{
    if candidates.len() == 0 {
        None
    } else {
        match choice(candidates.drop_last()) {
            Some(best) => if outranks(candidates.last(), best) {
                Some(candidates.last())
            } else {
                Some(best)
            },
            None => Some(candidates.last()),
        }
    }
}

/// The address of a choice, as text.
pub open spec fn chosen_text(candidates: Seq<Candidate>) -> Option<Seq<char>> {
    match choice(candidates) {
        Some(best) => Some(dotted(best.ip)),
        None => None,
    }
}

/// A network interface. One that has an address of another kind has none here.
pub struct Interface {
    pub name: String,
    pub addr: Option<Ipv4Addr>,
}

/// What an interface has to offer.
pub open spec fn interface_candidates(interface: Interface) -> Seq<Candidate> {
    match interface.addr {
        Some(ip) => if is_useful(ip) {
            seq![
                Candidate { ip, score: interface_score(interface.name@, ip) as i32, metric: 0 },
            ]
        } else {
            Seq::empty()
        },
        None => Seq::empty(),
    }
}

/// What interfaces have to offer.
pub open spec fn lan_candidates(interfaces: Seq<Interface>) -> Seq<Candidate>
    decreases interfaces.len(),
{
    if interfaces.len() == 0 {
        Seq::empty()
    } else {
        lan_candidates(interfaces.drop_last()) + interface_candidates(interfaces.last())
    }
}

/// Whether an address belongs to a private network.
pub fn is_rfc1918_ipv4(ip: Ipv4Addr) -> (r: bool)
    ensures
        r == is_private(ip),
{
    ip.a == 10 || (ip.a == 172 && 16 <= ip.b && ip.b <= 31) || (ip.a == 192 && ip.b == 168)
}

/// Whether an address is set aside for measurements.
pub fn is_benchmark_ipv4(ip: Ipv4Addr) -> (r: bool)
    ensures
        r == is_benchmark(ip),
{
    ip.a == 198 && 18 <= ip.b && ip.b <= 19
}

/// Whether another machine can reach this one under an address.
pub fn is_useful_lan_ipv4(ip: Ipv4Addr) -> (r: bool)
    ensures
        r == is_useful(ip),
{
    let loopback = ip.a == 127;
    let multicast = 224 <= ip.a && ip.a <= 239;
    let broadcast = ip.a == 255 && ip.b == 255 && ip.c == 255 && ip.d == 255;
    let unspecified = ip.a == 0 && ip.b == 0 && ip.c == 0 && ip.d == 0;
    let link_local = ip.a == 169 && ip.b == 254;
    !loopback && !multicast && !broadcast && !unspecified && !link_local && !is_benchmark_ipv4(ip)
}

/// An interface's name in its normal form.
pub fn normalize_interface_name(name: &str) -> (r: String)
    ensures
        r@ == normal_name(name@),
{
    to_ascii_lowercase(trim(name))
}

/// Whether a name speaks of a local network.
pub fn is_preferred_lan_interface_name(name: &str) -> (r: bool)
    ensures
        r == names_lan(name@),
{
    contains_text(name, "wlan") || contains_text(name, "wi-fi") || contains_text(name, "wifi")
        || contains_text(name, "ethernet") || contains_text(name, "以太网") || contains_text(
        name,
        "无线",
    ) || contains_text(name, "lan")
}

/// Whether a name speaks of a virtual adapter.
pub fn is_virtual_interface_name(name: &str) -> (r: bool)
    ensures
        r == names_virtual(name@),
{
    contains_text(name, "mihomo") || contains_text(name, "wintun") || contains_text(name, "tun")
        || contains_text(name, "tap") || contains_text(name, "vmware") || contains_text(
        name,
        "virtual",
    ) || contains_text(name, "virtualbox") || contains_text(name, "hyper-v") || contains_text(
        name,
        "tailscale",
    ) || contains_text(name, "wireguard") || contains_text(name, "zerotier") || contains_text(
        name,
        "loopback",
    ) || starts_with(name, "本地连接*") || contains_char(name, '*')
}

/// How well an interface with this name and address serves.
pub fn interface_lan_score(name: &str, ip: Ipv4Addr) -> (r: i32)
    ensures
        r == interface_score(name@, ip),
{
    let normalized = normalize_interface_name(name);
    let mut score: i32 = 0;
    if is_rfc1918_ipv4(ip) {
        score = score + 100;
    }
    if is_preferred_lan_interface_name(normalized.as_str()) {
        score = score + 40;
    }
    if is_virtual_interface_name(normalized.as_str()) {
        score = score - 40;
    }
    score
}

/// The better of the best so far and a new candidate.
pub fn better(best: Option<Candidate>, candidate: Candidate) -> (r: Option<Candidate>)
    ensures
        r == match best {
            Some(current) => if outranks(candidate, current) {
                Some(candidate)
            } else {
                Some(current)
            },
            None => Some(candidate),
        },
{
    match best {
        Some(current) => {
            if current.score > candidate.score || (current.score == candidate.score
                && current.metric <= candidate.metric) {
                Some(current)
            } else {
                Some(candidate)
            }
        },
        None => Some(candidate),
    }
}

/// The address of the interface that serves best.
pub fn preferred_lan_ip_from_interfaces(interfaces: &Vec<Interface>) -> (r: Option<String>)
    ensures
        text::opt_string(r) == chosen_text(lan_candidates(interfaces@)),
        r is None <==> forall|i: int| !#[trigger] has_useful(interfaces@, i),
        r matches Some(ip) ==> exists|i: int| #[trigger]
            serves_best(interfaces@, i) && ip@ == dotted(interfaces@[i].addr->Some_0),
        (exists|i: int|
            0 <= i < interfaces@.len() && (#[trigger] interfaces@[i].addr matches Some(ip)
                && is_private(ip))) ==> exists|i: int|
            0 <= i < interfaces@.len() && (#[trigger] interfaces@[i].addr matches Some(ip)
                && is_private(ip) && text::opt_string(r) == Some(dotted(ip))),
{
    let mut best: Option<Candidate> = None;
    let mut i: usize = 0;
    while i < interfaces.len()
        invariant
            i <= interfaces.len(),
            best == choice(lan_candidates(interfaces@.take(i as int))),
        decreases interfaces.len() - i,
    {
        let interface = &interfaces[i];
        let ghost before = lan_candidates(interfaces@.take(i as int));
        proof {
            assert(interfaces@.take(i + 1).drop_last() =~= interfaces@.take(i as int));
            assert(interfaces@.take(i + 1).last() == *interface);
        }
        match interface.addr {
            Some(ip) => {
                if is_useful_lan_ipv4(ip) {
                    let score = interface_lan_score(interface.name.as_str(), ip);
                    let candidate = Candidate { ip, score, metric: 0 };
                    proof {
                        let after = lan_candidates(interfaces@.take(i + 1));
                        assert(after =~= before.push(candidate));
                        assert(after.drop_last() =~= before);
                    }
                    best = better(best, candidate);
                } else {
                    proof {
                        assert(lan_candidates(interfaces@.take(i + 1)) =~= before);
                    }
                }
            },
            None => {
                proof {
                    assert(lan_candidates(interfaces@.take(i + 1)) =~= before);
                }
            },
        }
        i = i + 1;
    }
    proof {
        assert(interfaces@.take(i as int) =~= interfaces@);
        law_best_interface_is_chosen(interfaces@);
        let k = lemma_best_interface(interfaces@);
        if exists|i: int|
            0 <= i < interfaces@.len() && (#[trigger] interfaces@[i].addr matches Some(ip)
                && is_private(ip)) {
            let i = choose|i: int|
                0 <= i < interfaces@.len() && (#[trigger] interfaces@[i].addr matches Some(ip)
                    && is_private(ip));
            law_private_interface_is_chosen(interfaces@, i);
        }
    }
    match best {
        Some(candidate) => Some(candidate.ip.to_text()),
        None => None,
    }
}

/// The address from which a socket would send, where it belongs to a private
/// network.
pub fn preferred_lan_ip_from_socket(local: Option<Ipv4Addr>) -> (r: Option<String>)
    ensures
        text::opt_string(r) == match local {
            Some(ip) => if is_private(ip) {
                Some(dotted(ip))
            } else {
                None
            },
            None => None::<Seq<char>>,
        },
{
    match local {
        Some(ip) => if is_rfc1918_ipv4(ip) {
            Some(ip.to_text())
        } else {
            None
        },
        None => None,
    }
}

/// The address under which this machine is found: the first that a way of looking
/// for it gave, and the loopback address where none did.
pub open spec fn lan_ip(
    from_windows: Option<Seq<char>>,
    from_interfaces: Option<Seq<char>>,
    from_socket: Option<Seq<char>>,
) -> Seq<char> {
    match from_windows {
        Some(ip) => ip,
        None => match from_interfaces {
            Some(ip) => ip,
            None => match from_socket {
                Some(ip) => ip,
                None => "127.0.0.1"@,
            },
        },
    }
}

/// The address under which this machine is found.
pub fn lan_ip_address(
    from_windows: Option<String>,
    from_interfaces: Option<String>,
    from_socket: Option<String>,
) -> (r: Option<String>)
    ensures
        text::opt_string(r) == Some(
            lan_ip(
                text::opt_string(from_windows),
                text::opt_string(from_interfaces),
                text::opt_string(from_socket),
            ),
        ),
{
    match from_windows {
        Some(ip) => Some(ip),
        None => match from_interfaces {
            Some(ip) => Some(ip),
            None => match from_socket {
                Some(ip) => Some(ip),
                None => Some("127.0.0.1".to_owned()),
            },
        },
    }
}

/// The URL of the remote control of this machine. `lan_ip` is asked for where the
/// server listens on every address.
pub open spec fn remote_text(
    host: Seq<char>,
    port: nat,
    token: Seq<char>,
    lan_ip: Option<Seq<char>>,
) -> Seq<char> {
    let url_host = if host == "0.0.0.0"@ {
        match lan_ip {
            Some(ip) => ip,
            None => "127.0.0.1"@,
        }
    } else {
        host
    };
    "http://"@ + url_host + ":"@ + text::decimal_text(port) + "/?token="@ + token
}

/// Whether the URL of the remote control needs this machine's address.
pub fn needs_lan_ip(host: &str) -> (r: bool)
    ensures
        r == (host@ == "0.0.0.0"@),
{
    text_eq(host, "0.0.0.0")
}

/// The URL of the remote control of this machine.
pub fn remote_url(host: &str, port: u16, token: &str, lan_ip: Option<String>) -> (r: String)
    ensures
        r@ == remote_text(host@, port as nat, token@, text::opt_string(lan_ip)),
{
    let mut out = "http://".to_owned();
    if needs_lan_ip(host) {
        match lan_ip {
            Some(ip) => out.append(ip.as_str()),
            None => out.append("127.0.0.1"),
        }
    } else {
        out.append(host);
    }
    out.append(":");
    out.append(decimal(port as u64).as_str());
    out.append("/?token=");
    out.append(token);
    out
}

/// Every address of a private network is useful, and no benchmark address is.
pub proof fn law_private_is_useful(ip: Ipv4Addr)
    ensures
        is_private(ip) ==> is_useful(ip),
        is_benchmark(ip) ==> !is_useful(ip) && !is_private(ip),
{
}

/// An address of a private network is preferred to any other one, whatever the
/// interfaces are called.
pub proof fn law_private_first(name: Seq<char>, ip: Ipv4Addr, other: Seq<char>, other_ip: Ipv4Addr)
    requires
        is_private(ip),
        !is_private(other_ip),
    ensures
        interface_score(name, ip) > interface_score(other, other_ip),
{
}

/// Between addresses that are alike, an interface whose name speaks of a local
/// network and not of a virtual adapter is preferred to one whose name speaks of a
/// virtual adapter.
pub proof fn law_physical_first(name: Seq<char>, ip: Ipv4Addr, other: Seq<char>, other_ip: Ipv4Addr)
    requires
        is_private(ip) == is_private(other_ip),
        names_lan(normal_name(name)),
        !names_virtual(normal_name(name)),
        names_virtual(normal_name(other)),
    ensures
        interface_score(name, ip) > interface_score(other, other_ip),
{
}

/// The choice is one of the candidates, no candidate outranks it, it outranks
/// every one before it, and there is one wherever there are candidates.
pub proof fn law_choice_is_best(candidates: Seq<Candidate>)
    ensures
        choice(candidates) is None <==> candidates.len() == 0,
        choice(candidates) matches Some(best) ==> exists|i: int|
            {
                &&& 0 <= i < candidates.len()
                &&& #[trigger] candidates[i] == best
                &&& forall|j: int|
                    0 <= j < candidates.len() ==> !outranks(#[trigger] candidates[j], best)
                &&& forall|j: int| 0 <= j < i ==> outranks(best, #[trigger] candidates[j])
            },
    decreases candidates.len(),
{
    if candidates.len() > 0 {
        let before = candidates.drop_last();
        let last = candidates.last();
        law_choice_is_best(before);
        match choice(before) {
            Some(best) => {
                let i = choose|i: int|
                    {
                        &&& 0 <= i < before.len()
                        &&& #[trigger] before[i] == best
                        &&& forall|j: int|
                            0 <= j < before.len() ==> !outranks(#[trigger] before[j], best)
                        &&& forall|j: int| 0 <= j < i ==> outranks(best, #[trigger] before[j])
                    };
                if outranks(last, best) {
                    assert(candidates[candidates.len() - 1] == last);
                    assert forall|j: int| 0 <= j < candidates.len() implies !outranks(
                        #[trigger] candidates[j],
                        last,
                    ) by {
                        if j < before.len() {
                            assert(before[j] == candidates[j]);
                        }
                    }
                    assert forall|j: int| 0 <= j < candidates.len() - 1 implies outranks(
                        last,
                        #[trigger] candidates[j],
                    ) by {
                        assert(before[j] == candidates[j]);
                    }
                } else {
                    assert(candidates[i] == best);
                    assert forall|j: int| 0 <= j < candidates.len() implies !outranks(
                        #[trigger] candidates[j],
                        best,
                    ) by {
                        if j < before.len() {
                            assert(before[j] == candidates[j]);
                        }
                    }
                    assert forall|j: int| 0 <= j < i implies outranks(
                        best,
                        #[trigger] candidates[j],
                    ) by {
                        assert(before[j] == candidates[j]);
                    }
                }
            },
            None => {
                assert(candidates[0] == last);
            },
        }
    }
}

/// The private addresses are exactly those of three blocks, taken as numbers of four
/// octets: 10.0.0.0 to 10.255.255.255, 172.16.0.0 to 172.31.255.255, and 192.168.0.0
/// to 192.168.255.255.
pub proof fn law_private_blocks(ip: Ipv4Addr)
    ensures
        ({
            let n = ip.a * 0x1000000 + ip.b * 0x10000 + ip.c * 0x100 + ip.d;
            is_private(ip) <==> 0x0A000000 <= n <= 0x0AFFFFFF || 0xAC100000 <= n <= 0xAC1FFFFF
                || 0xC0A80000 <= n <= 0xC0A8FFFF
        }),
{
}

/// The useful addresses are exactly those outside six blocks, taken as numbers of
/// four octets: 0.0.0.0, 127.0.0.0 to 127.255.255.255, 169.254.0.0 to
/// 169.254.255.255, 198.18.0.0 to 198.19.255.255, 224.0.0.0 to 239.255.255.255, and
/// 255.255.255.255.
pub proof fn law_useful_blocks(ip: Ipv4Addr)
    ensures
        ({
            let n = ip.a * 0x1000000 + ip.b * 0x10000 + ip.c * 0x100 + ip.d;
            &&& is_benchmark(ip) <==> 0xC6120000 <= n <= 0xC613FFFF
            &&& !is_useful(ip) <==> n == 0 || 0x7F000000 <= n <= 0x7FFFFFFF || 0xA9FE0000 <= n
                <= 0xA9FEFFFF || 0xC6120000 <= n <= 0xC613FFFF || 0xE0000000 <= n <= 0xEFFFFFFF
                || n == 0xFFFFFFFF
        }),
{
}

/// An address is written as its four octets with dots between them.
pub proof fn law_dotted(ip: Ipv4Addr)
    ensures
        text::split_on(dotted(ip), '.') == seq![
            text::decimal_text(ip.a as nat),
            text::decimal_text(ip.b as nat),
            text::decimal_text(ip.c as nat),
            text::decimal_text(ip.d as nat),
        ],
{
    let a = text::decimal_text(ip.a as nat);
    let b = text::decimal_text(ip.b as nat);
    let c = text::decimal_text(ip.c as nat);
    let d = text::decimal_text(ip.d as nat);
    text::law_decimal(ip.a as nat);
    text::law_decimal(ip.b as nat);
    text::law_decimal(ip.c as nat);
    text::law_decimal(ip.d as nat);
    reveal_strlit(".");
    assert("."@ =~= seq!['.']);
    let cd = c + seq!['.'] + d;
    let bcd = b + seq!['.'] + cd;
    assert(dotted(ip) =~= a + seq!['.'] + bcd);
    text::lemma_split_first(a, bcd, '.');
    text::lemma_split_first(b, cd, '.');
    text::lemma_split_first(c, d, '.');
    text::lemma_split_one(d, '.');
    assert(text::split_on(dotted(ip), '.') =~= seq![a, b, c, d]);
}

/// Different addresses are written differently.
pub proof fn law_dotted_tells_addresses_apart(ip: Ipv4Addr, other: Ipv4Addr)
    requires
        dotted(ip) == dotted(other),
    ensures
        ip == other,
{
    law_dotted(ip);
    law_dotted(other);
    let pieces = text::split_on(dotted(ip), '.');
    assert(pieces[0] == text::decimal_text(ip.a as nat) && pieces[0] == text::decimal_text(
        other.a as nat,
    ));
    assert(pieces[1] == text::decimal_text(ip.b as nat) && pieces[1] == text::decimal_text(
        other.b as nat,
    ));
    assert(pieces[2] == text::decimal_text(ip.c as nat) && pieces[2] == text::decimal_text(
        other.c as nat,
    ));
    assert(pieces[3] == text::decimal_text(ip.d as nat) && pieces[3] == text::decimal_text(
        other.d as nat,
    ));
    text::law_decimal(ip.a as nat);
    text::law_decimal(ip.b as nat);
    text::law_decimal(ip.c as nat);
    text::law_decimal(ip.d as nat);
    text::law_decimal(other.a as nat);
    text::law_decimal(other.b as nat);
    text::law_decimal(other.c as nat);
    text::law_decimal(other.d as nat);
}

/// A name speaks of a local network where one of six words occurs in it, and only
/// there.
pub proof fn law_lan_names(name: Seq<char>)
    ensures
        names_lan(name) <==> text::occurs_in("lan"@, name) || text::occurs_in("wifi"@, name)
            || text::occurs_in("wi-fi"@, name) || text::occurs_in("ethernet"@, name)
            || text::occurs_in("以太网"@, name) || text::occurs_in("无线"@, name),
{
    reveal_strlit("wlan");
    reveal_strlit("lan");
    assert("wlan"@.skip(1) =~= "lan"@);
    text::lemma_part_occurs("wlan"@, name, 1);
}

/// A name speaks of a virtual adapter where an asterisk or one of ten words occurs in
/// it, and only there.
pub proof fn law_virtual_names(name: Seq<char>)
    ensures
        names_virtual(name) <==> name.contains('*') || text::occurs_in("tun"@, name)
            || text::occurs_in("tap"@, name) || text::occurs_in("virtual"@, name)
            || text::occurs_in("mihomo"@, name) || text::occurs_in("vmware"@, name)
            || text::occurs_in("hyper-v"@, name) || text::occurs_in("tailscale"@, name)
            || text::occurs_in("wireguard"@, name) || text::occurs_in("zerotier"@, name)
            || text::occurs_in("loopback"@, name),
{
    reveal_strlit("wintun");
    reveal_strlit("tun");
    assert("wintun"@.skip(3) =~= "tun"@);
    text::lemma_part_occurs("wintun"@, name, 3);
    reveal_strlit("virtualbox");
    reveal_strlit("virtual");
    if text::occurs_in("virtualbox"@, name) {
        let i = choose|i: int| #[trigger] text::occurs_at("virtualbox"@, name, i);
        let word = name.subrange(i, i + 10);
        assert(name.subrange(i, i + 7) =~= word.take(7));
        assert("virtualbox"@.take(7) =~= "virtual"@);
        assert(text::occurs_at("virtual"@, name, i));
    }
    reveal_strlit("本地连接*");
    if "本地连接*"@.is_prefix_of(name) {
        assert("本地连接*"@[4] == '*');
        assert(name.subrange(0, 5)[4] == name[4]);
    }
}

/// A private address counts a hundred points; a name that speaks of a local network
/// counts forty, and one that speaks of a virtual adapter takes forty off. Names are
/// compared without white space around them and in small letters.
pub proof fn law_interface_score(name: Seq<char>, ip: Ipv4Addr)
    ensures
        ({
            let plain = text::ascii_lowered(text::trimmed(name));
            let physical = names_lan(plain) && !names_virtual(plain);
            let virtual_only = names_virtual(plain) && !names_lan(plain);
            let score = interface_score(name, ip);
            &&& is_private(ip) && physical ==> score == 140
            &&& is_private(ip) && virtual_only ==> score == 60
            &&& is_private(ip) && !physical && !virtual_only ==> score == 100
            &&& !is_private(ip) && physical ==> score == 40
            &&& !is_private(ip) && virtual_only ==> score == -40
            &&& !is_private(ip) && !physical && !virtual_only ==> score == 0
        }),
{
}

/// Another machine can reach this one at the address of the interface at `i`.
pub open spec fn has_useful(interfaces: Seq<Interface>, i: int) -> bool {
    &&& 0 <= i < interfaces.len()
    &&& interfaces[i].addr matches Some(ip)
    &&& is_useful(ip)
}

/// How well the interface at `i` serves.
pub open spec fn score_at(interfaces: Seq<Interface>, i: int) -> int {
    interface_score(interfaces[i].name@, interfaces[i].addr->Some_0)
}

/// The interface at `i` serves best: no interface with a useful address has a higher
/// score, and those before it have lower ones.
pub open spec fn serves_best(interfaces: Seq<Interface>, i: int) -> bool {
    &&& has_useful(interfaces, i)
    &&& forall|j: int| #[trigger]
        has_useful(interfaces, j) ==> score_at(interfaces, j) <= score_at(interfaces, i)
    &&& forall|j: int| #[trigger]
        has_useful(interfaces, j) && j < i ==> score_at(interfaces, j) < score_at(interfaces, i)
}

proof fn lemma_best_interface(interfaces: Seq<Interface>) -> (i: int)
    ensures
        choice(lan_candidates(interfaces)) is None ==> forall|j: int|
            !#[trigger] has_useful(interfaces, j),
        choice(lan_candidates(interfaces)) matches Some(best) ==> serves_best(interfaces, i)
            && interfaces[i].addr == Some(best.ip) && best.score == score_at(interfaces, i)
            && best.metric == 0,
    decreases interfaces.len(),
{
    if interfaces.len() == 0 {
        0
    } else {
        let before = interfaces.drop_last();
        let n = interfaces.len() - 1;
        let i = lemma_best_interface(before);
        let candidates = lan_candidates(before);
        let more = interface_candidates(interfaces.last());
        let all = lan_candidates(interfaces);
        assert forall|j: int| j != n implies #[trigger] has_useful(interfaces, j) == has_useful(
            before,
            j,
        ) by {
            if 0 <= j < n {
                assert(before[j] == interfaces[j]);
            }
        }
        assert forall|j: int| 0 <= j < n implies #[trigger] score_at(interfaces, j) == score_at(
            before,
            j,
        ) by {
            assert(before[j] == interfaces[j]);
        }
        assert(more.len() == 1 <==> has_useful(interfaces, n));
        if more.len() == 1 {
            assert(all.drop_last() =~= candidates);
            assert(all.last() == more[0]);
            assert(more[0].score == score_at(interfaces, n));
            match choice(candidates) {
                Some(best) => {
                    assert(interfaces[i] == before[i]);
                    assert(has_useful(before, i));
                    if outranks(more[0], best) {
                        assert forall|j: int| #[trigger] has_useful(interfaces, j) implies score_at(
                            interfaces,
                            j,
                        ) <= score_at(interfaces, n) && (j < n ==> score_at(interfaces, j)
                            < score_at(interfaces, n)) by {
                            if j < n {
                                assert(has_useful(before, j));
                            }
                        }
                        n
                    } else {
                        assert forall|j: int| #[trigger] has_useful(interfaces, j) implies score_at(
                            interfaces,
                            j,
                        ) <= score_at(interfaces, i) && (j < i ==> score_at(interfaces, j)
                            < score_at(interfaces, i)) by {
                            if j < n {
                                assert(has_useful(before, j));
                            }
                        }
                        i
                    }
                },
                None => {
                    assert forall|j: int| #[trigger] has_useful(interfaces, j) implies j == n by {
                        if j != n {
                            assert(has_useful(before, j));
                        }
                    }
                    n
                },
            }
        } else {
            assert(all =~= candidates);
            assert forall|j: int| #[trigger] has_useful(interfaces, j) implies has_useful(
                before,
                j,
            ) && j < n by {}
            if let Some(best) = choice(candidates) {
                assert(interfaces[i] == before[i]);
                assert(has_useful(before, i));
                assert(has_useful(interfaces, i));
            }
            i
        }
    }
}

/// The address that is chosen among interfaces is that of the first of those that
/// serve best. None is chosen only where none is useful.
pub proof fn law_best_interface_is_chosen(interfaces: Seq<Interface>)
    ensures
        chosen_text(lan_candidates(interfaces)) is None <==> forall|i: int|
            0 <= i < interfaces.len() ==> !(#[trigger] interfaces[i].addr matches Some(ip)
                && is_useful(ip)),
        forall|i: int| #[trigger]
            serves_best(interfaces, i) ==> chosen_text(lan_candidates(interfaces)) == Some(
                dotted(interfaces[i].addr->Some_0),
            ),
        chosen_text(lan_candidates(interfaces)) is Some ==> exists|i: int| #[trigger]
            serves_best(interfaces, i),
{
    let k = lemma_best_interface(interfaces);
    assert forall|i: int| #[trigger] serves_best(interfaces, i) implies chosen_text(
        lan_candidates(interfaces),
    ) == Some(dotted(interfaces[i].addr->Some_0)) by {
        assert(has_useful(interfaces, i));
        assert(has_useful(interfaces, k));
        assert(i == k);
    }
    if chosen_text(lan_candidates(interfaces)) is None {
        assert forall|i: int| 0 <= i < interfaces.len() implies !(
        #[trigger] interfaces[i].addr matches Some(ip) && is_useful(ip)) by {
            assert(!has_useful(interfaces, i));
        }
    } else {
        assert(interfaces[k].addr is Some);
    }
}

/// Where an interface has a private address, a private address is chosen, that of
/// one of the interfaces.
pub proof fn law_private_interface_is_chosen(interfaces: Seq<Interface>, k: int)
    requires
        0 <= k < interfaces.len(),
        interfaces[k].addr matches Some(ip) && is_private(ip),
    ensures
        exists|i: int|
            0 <= i < interfaces.len() && (#[trigger] interfaces[i].addr matches Some(ip)
                && is_private(ip) && chosen_text(lan_candidates(interfaces)) == Some(dotted(ip))),
{
    law_best_interface_is_chosen(interfaces);
    law_private_is_useful(interfaces[k].addr->Some_0);
    let i = lemma_best_interface(interfaces);
    assert(has_useful(interfaces, k));
    assert(serves_best(interfaces, i));
    let ip = interfaces[i].addr->Some_0;
    if !is_private(ip) {
        law_private_first(
            interfaces[k].name@,
            interfaces[k].addr->Some_0,
            interfaces[i].name@,
            ip,
        );
    }
    assert(interfaces[i].addr == Some(ip));
}

/// Where no name speaks of a local network or of a virtual adapter, the first private
/// address is chosen.
pub proof fn law_first_private_interface_is_chosen(interfaces: Seq<Interface>, k: int)
    requires
        0 <= k < interfaces.len(),
        interfaces[k].addr matches Some(ip) && is_private(ip),
        forall|j: int|
            0 <= j < k ==> !(#[trigger] interfaces[j].addr matches Some(ip) && is_private(ip)),
        forall|j: int|
            0 <= j < interfaces.len() ==> !names_lan(normal_name((#[trigger] interfaces[j]).name@))
                && !names_virtual(normal_name(interfaces[j].name@)),
    ensures
        chosen_text(lan_candidates(interfaces)) == Some(dotted(interfaces[k].addr->Some_0)),
{
    law_best_interface_is_chosen(interfaces);
    law_private_is_useful(interfaces[k].addr->Some_0);
    assert(score_at(interfaces, k) == 100);
    assert forall|j: int| #[trigger] has_useful(interfaces, j) implies score_at(interfaces, j)
        <= score_at(interfaces, k) && (j < k ==> score_at(interfaces, j) < score_at(
        interfaces,
        k,
    )) by {
        if j < k {
            assert(!(interfaces[j].addr matches Some(ip) && is_private(ip)));
        }
    }
    assert(serves_best(interfaces, k));
}

/// Of the ways of looking for the address, the adapters come first, then the
/// interfaces, then the socket, and last the loopback address.
pub proof fn law_lan_ip(
    from_windows: Option<Seq<char>>,
    from_interfaces: Option<Seq<char>>,
    from_socket: Option<Seq<char>>,
)
    ensures
        ({
            let ip = Some(lan_ip(from_windows, from_interfaces, from_socket));
            &&& from_windows is Some ==> ip == from_windows
            &&& from_windows is None && from_interfaces is Some ==> ip == from_interfaces
            &&& from_windows is None && from_interfaces is None && from_socket is Some ==> ip
                == from_socket
            &&& from_windows is None && from_interfaces is None && from_socket is None ==> ip
                == Some("127.0.0.1"@)
        }),
{
}

/// The URL of the remote control is plain HTTP, leads to the host and the port, and
/// ends with the whole token. A host that stands for every address is replaced by
/// this machine's address, or by the loopback address where that is not known.
pub proof fn law_remote_text(
    host: Seq<char>,
    port: nat,
    token: Seq<char>,
    lan_ip: Option<Seq<char>>,
)
    ensures
        ({
            let url = remote_text(host, port, token, lan_ip);
            let rest = ":"@ + text::decimal_text(port) + "/?token="@ + token;
            &&& host != "0.0.0.0"@ ==> url == "http://"@ + host + rest
            &&& host == "0.0.0.0"@ && lan_ip is Some ==> url == "http://"@ + lan_ip->Some_0 + rest
            &&& host == "0.0.0.0"@ && lan_ip is None ==> url == "http://127.0.0.1"@ + rest
            &&& url.len() >= token.len()
            &&& url.skip(url.len() - token.len()) == token
        }),
{
    let url = remote_text(host, port, token, lan_ip);
    let rest = ":"@ + text::decimal_text(port) + "/?token="@ + token;
    let url_host = if host == "0.0.0.0"@ {
        match lan_ip {
            Some(ip) => ip,
            None => "127.0.0.1"@,
        }
    } else {
        host
    };
    assert(url =~= "http://"@ + url_host + rest);
    reveal_strlit("http://");
    reveal_strlit("127.0.0.1");
    reveal_strlit("http://127.0.0.1");
    assert("http://"@ + "127.0.0.1"@ =~= "http://127.0.0.1"@);
    assert(url.skip(url.len() - token.len()) =~= token);
}

/// Different tokens give different URLs.
pub proof fn law_token_tells_urls_apart(
    host: Seq<char>,
    port: nat,
    lan_ip: Option<Seq<char>>,
    token: Seq<char>,
    other: Seq<char>,
)
    requires
        remote_text(host, port, token, lan_ip) == remote_text(host, port, other, lan_ip),
    ensures
        token == other,
{
    let url = remote_text(host, port, token, lan_ip);
    assert(url.len() - token.len() == remote_text(host, port, other, lan_ip).len() - other.len());
    law_remote_text(host, port, token, lan_ip);
    law_remote_text(host, port, other, lan_ip);
}

/// What stands behind the first question mark of the URL is a query from which the
/// token is read back whole, where the token is made of letters, digits, hyphens,
/// underscores and dots, and the host holds no question mark.
pub proof fn law_token_reads_back(
    host: Seq<char>,
    port: nat,
    token: Seq<char>,
    lan_ip: Option<Seq<char>>,
)
    requires
        token.len() > 0,
        forall|i: int|
            0 <= i < token.len() ==> '0' <= #[trigger] token[i] <= '9' || 'a' <= token[i] <= 'z'
                || 'A' <= token[i] <= 'Z' || token[i] == '-' || token[i] == '_' || token[i] == '.',
        !host.contains('?'),
        lan_ip matches Some(ip) ==> !ip.contains('?'),
    ensures
        query::query_value(
            relay::behind_question_mark(remote_text(host, port, token, lan_ip)),
            "token"@,
        ) == Some(token),
{
    let url = remote_text(host, port, token, lan_ip);
    let url_host = if host == "0.0.0.0"@ {
        match lan_ip {
            Some(ip) => ip,
            None => "127.0.0.1"@,
        }
    } else {
        host
    };
    let number = text::decimal_text(port);
    text::law_decimal(port);
    reveal_strlit("http://");
    reveal_strlit("127.0.0.1");
    reveal_strlit(":");
    reveal_strlit("/?token=");
    reveal_strlit("token");
    let front = "http://"@ + url_host + ":"@ + number + "/"@;
    reveal_strlit("/");
    let query = "token="@ + token;
    reveal_strlit("token=");
    assert("/?token="@ =~= "/"@ + seq!['?'] + "token="@);
    assert(url =~= front + seq!['?'] + query);
    assert forall|i: int| 0 <= i < front.len() implies url[i] != '?' by {
        if 7 <= i < 7 + url_host.len() {
            assert(url[i] == url_host[i - 7]);
            assert(url_host.contains(url_host[i - 7]));
        } else if 8 + url_host.len() <= i < 8 + url_host.len() + number.len() {
            assert(url[i] == number[i - 8 - url_host.len()]);
        } else if i < 7 {
            assert(url[i] == "http://"@[i]);
        }
    }
    text::lemma_position_is(url, '?', front.len() as int);
    assert(relay::behind_question_mark(url) =~= query);
    assert forall|i: int| 0 <= i < query.len() implies query[i] != '&' && (query[i] == '=' ==> i
        == 5) by {
        if i >= 6 {
            assert(query[i] == token[i - 6]);
        } else {
            assert(query[i] == "token="@[i]);
        }
    }
    text::lemma_split_one(query, '&');
    text::lemma_position_is(query, '=', 5);
    assert(query::pair_key(query) =~= "token"@);
    assert(query::pair_value(query) =~= token);
    assert(text::split_on(query, '&')[0] == query);
    form::lemma_plain_name(token);
    form::law_value_reads_back(token);
}

/// The address that is chosen among interfaces is useful, and some interface has it.
pub proof fn law_chosen_interface(interfaces: Seq<Interface>)
    ensures
        choice(lan_candidates(interfaces)) matches Some(best) ==> is_useful(best.ip) && exists|i: int|
            0 <= i < interfaces.len() && #[trigger] interfaces[i].addr == Some(best.ip),
        choice(lan_candidates(interfaces)) is None ==> forall|i: int|
            0 <= i < interfaces.len() ==> !(#[trigger] interfaces[i].addr matches Some(ip)
                && is_useful(ip)),
    decreases interfaces.len(),
{
    if interfaces.len() > 0 {
        let before = interfaces.drop_last();
        let candidates = lan_candidates(before);
        law_chosen_interface(before);
        let more = interface_candidates(interfaces.last());
        let all = lan_candidates(interfaces);
        if let Some(best) = choice(candidates) {
            let i = choose|i: int|
                0 <= i < before.len() && #[trigger] before[i].addr == Some(best.ip);
            assert(interfaces[i].addr == Some(best.ip));
        }
        if more.len() == 1 {
            assert(all.drop_last() =~= candidates);
            assert(all.last() == more[0]);
            assert(interfaces[interfaces.len() - 1].addr == Some(more[0].ip));
        } else {
            assert(all =~= candidates);
            assert forall|i: int|
                choice(all) is None && 0 <= i < interfaces.len() implies !(
            #[trigger] interfaces[i].addr matches Some(ip) && is_useful(ip)) by {
                if i < before.len() {
                    assert(before[i] == interfaces[i]);
                }
            }
        }
    }
}

} // verus!
