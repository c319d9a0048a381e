//! The choice among the network adapters that Windows reports.

use vstd::prelude::*;

use crate::remote::lan;
use crate::remote::lan::{
    better, is_preferred_lan_interface_name, is_rfc1918_ipv4, is_useful_lan_ipv4,
    is_virtual_interface_name, normalize_interface_name, Candidate, Ipv4Addr,
};
use crate::text;
use crate::text::joined;

verus! {

/// The status of a call that succeeded.
pub const ERROR_SUCCESS: u32 = 0;

/// The status of a call that was given too small a buffer.
pub const ERROR_BUFFER_OVERFLOW: u32 = 111;

/// The interface type of Ethernet.
pub const MIB_IF_TYPE_ETHERNET: u32 = 6;

/// The interface type of wireless networks.
pub const IF_TYPE_IEEE80211: u32 = 71;

/// The interface type of the loopback interface.
pub const MIB_IF_TYPE_LOOPBACK: u32 = 24;

/// The interface type of tunnels.
pub const IF_TYPE_TUNNEL: u32 = 131;

/// The interface type of point-to-point links.
pub const MIB_IF_TYPE_PPP: u32 = 23;

/// The interface type of serial links.
pub const MIB_IF_TYPE_SLIP: u32 = 28;

/// The status of an interface that is up.
pub const IF_OPER_STATUS_UP: i32 = 1;

/// The state of an address that may be used.
pub const NLDS_PREFERRED: i32 = 4;

/// The lowest score with which an adapter's addresses are considered.
pub const LOWEST_SCORE: i32 = 1500;

/// How often Windows is asked for its adapters.
pub const QUERY_TRIES: usize = 3;

/// An address of an adapter, where it is an IPv4 address, with its state.
pub struct Unicast {
    pub dad_state: i32,
    pub address: Option<Ipv4Addr>,
}

/// A network adapter.
pub struct Adapter {
    pub friendly_name: String,
    pub description: String,
    pub if_type: u32,
    pub oper_status: i32,
    pub ipv4_metric: u32,
    pub unicast: Vec<Unicast>,
}

/// What came of asking Windows for its adapters.
pub enum Answer {
    BufferOverflow,
    Failed,
    Adapters(Vec<Adapter>),
}

/// The interface types of local networks.
pub open spec fn is_lan_type(if_type: u32) -> bool {
    if_type == MIB_IF_TYPE_ETHERNET || if_type == IF_TYPE_IEEE80211
}

/// The interface types of virtual adapters.
pub open spec fn is_virtual_type(if_type: u32) -> bool {
    if_type == MIB_IF_TYPE_LOOPBACK || if_type == IF_TYPE_TUNNEL || if_type == MIB_IF_TYPE_PPP
        || if_type == MIB_IF_TYPE_SLIP
}

/// The interface types and names of virtual adapters.
pub open spec fn is_virtual(label: Seq<char>, if_type: u32) -> bool {
    is_virtual_type(if_type) || lan::names_virtual(lan::normal_name(label))
}

/// How well an adapter serves.
pub open spec fn adapter_score(label: Seq<char>, if_type: u32, oper_status: i32) -> int {
    lan::points(oper_status == IF_OPER_STATUS_UP, 1000) + lan::points(is_lan_type(if_type), 500)
        + lan::points(lan::names_lan(lan::normal_name(label)), 200) - lan::points(
        is_virtual(label, if_type),
        800,
    )
}

/// The label of an adapter: its two names.
pub open spec fn adapter_label(adapter: Adapter) -> Seq<char> {
    adapter.friendly_name@ + " "@ + adapter.description@
}

/// What an address has to offer, on an adapter with a score and a metric.
pub open spec fn address_candidates(unicast: Unicast, score: int, metric: u32) -> Seq<Candidate> {
    match unicast.address {
        Some(ip) => if unicast.dad_state == NLDS_PREFERRED && lan::is_useful(ip) && lan::is_private(
            ip,
        ) && score >= LOWEST_SCORE {
            seq![Candidate { ip, score: score as i32, metric }]
        } else {
            Seq::empty()
        },
        None => Seq::empty(),
    }
}

/// What the addresses of an adapter have to offer.
pub open spec fn unicast_candidates(unicast: Seq<Unicast>, score: int, metric: u32) -> Seq<
    Candidate,
>
    decreases unicast.len(),
{
    if unicast.len() == 0 {
        Seq::empty()
    } else {
        unicast_candidates(unicast.drop_last(), score, metric) + address_candidates(
            unicast.last(),
            score,
            metric,
        )
    }
}

/// What an adapter has to offer.
pub open spec fn adapter_candidates(adapter: Adapter) -> Seq<Candidate> {
    unicast_candidates(
        adapter.unicast@,
        adapter_score(adapter_label(adapter), adapter.if_type, adapter.oper_status),
        adapter.ipv4_metric,
    )
}

/// What adapters have to offer.
pub open spec fn windows_candidates(adapters: Seq<Adapter>) -> Seq<Candidate>
    decreases adapters.len(),
{
    if adapters.len() == 0 {
        Seq::empty()
    } else {
        windows_candidates(adapters.drop_last()) + adapter_candidates(adapters.last())
    }
}

/// The address that the first answer gives that does not ask for a larger buffer.
/// Only the first `tries` answers count.
pub open spec fn first_answer(answers: Seq<Answer>, tries: nat) -> Option<Seq<char>>
    decreases tries,
{
    if answers.len() == 0 || tries == 0 {
        None
    } else {
        match answers[0] {
            Answer::BufferOverflow => first_answer(answers.skip(1), (tries - 1) as nat),
            Answer::Failed => None,
            Answer::Adapters(adapters) => lan::chosen_text(windows_candidates(adapters@)),
        }
    }
}

/// Whether an interface type is one of local networks.
pub fn is_windows_lan_if_type(if_type: u32) -> (r: bool)
    ensures
        r == is_lan_type(if_type),
{
    if_type == MIB_IF_TYPE_ETHERNET || if_type == IF_TYPE_IEEE80211
}

/// Whether an interface type is one of virtual adapters.
pub fn is_windows_virtual_if_type(if_type: u32) -> (r: bool)
    ensures
        r == is_virtual_type(if_type),
{
    if_type == MIB_IF_TYPE_LOOPBACK || if_type == IF_TYPE_TUNNEL || if_type == MIB_IF_TYPE_PPP
        || if_type == MIB_IF_TYPE_SLIP
}

/// How well an adapter serves.
pub fn windows_adapter_lan_score(label: &str, if_type: u32, oper_status: i32) -> (r: i32)
    ensures
        r == adapter_score(label@, if_type, oper_status),
{
    let normalized = normalize_interface_name(label);
    let mut score: i32 = 0;
    if oper_status == IF_OPER_STATUS_UP {
        score = score + 1000;
    }
    if is_windows_lan_if_type(if_type) {
        score = score + 500;
    }
    if is_preferred_lan_interface_name(normalized.as_str()) {
        score = score + 200;
    }
    if is_windows_virtual_if_type(if_type) || is_virtual_interface_name(normalized.as_str()) {
        score = score - 800;
    }
    score
}

/// The best of the best so far and what the addresses of an adapter have to offer.
fn better_of_adapter(
    best: Option<Candidate>,
    adapter: &Adapter,
    Ghost(before): Ghost<Seq<Candidate>>,
) -> (r: Option<Candidate>)
    requires
        best == lan::choice(before),
    ensures
        r == lan::choice(before + adapter_candidates(*adapter)),
{
    let label = joined(
        joined(adapter.friendly_name.as_str(), " ").as_str(),
        adapter.description.as_str(),
    );
    let score = windows_adapter_lan_score(label.as_str(), adapter.if_type, adapter.oper_status);
    let mut best = best;
    let mut i: usize = 0;
    proof {
        assert(before + unicast_candidates(adapter.unicast@.take(0), score as int,
            adapter.ipv4_metric) =~= before);
    }
    while i < adapter.unicast.len()
        invariant
            i <= adapter.unicast.len(),
            best == lan::choice(
                before + unicast_candidates(
                    adapter.unicast@.take(i as int),
                    score as int,
                    adapter.ipv4_metric,
                ),
            ),
        decreases adapter.unicast.len() - i,
    {
        let unicast = &adapter.unicast[i];
        let ghost done = before + unicast_candidates(
            adapter.unicast@.take(i as int),
            score as int,
            adapter.ipv4_metric,
        );
        let ghost all = before + unicast_candidates(
            adapter.unicast@.take(i + 1),
            score as int,
            adapter.ipv4_metric,
        );
        let ghost more = address_candidates(*unicast, score as int, adapter.ipv4_metric);
        proof {
            assert(adapter.unicast@.take(i + 1).drop_last() =~= adapter.unicast@.take(i as int));
            assert(adapter.unicast@.take(i + 1).last() == *unicast);
            assert(all =~= done + more);
        }
        if unicast.dad_state == NLDS_PREFERRED {
            if let Some(ip) = unicast.address {
                if is_useful_lan_ipv4(ip) && is_rfc1918_ipv4(ip) && score >= LOWEST_SCORE {
                    let candidate = Candidate { ip, score, metric: adapter.ipv4_metric };
                    proof {
                        assert(all =~= done.push(candidate));
                        assert(all.drop_last() =~= done);
                    }
                    best = better(best, candidate);
                }
            }
        }
        proof {
            if more.len() == 0 {
                assert(all =~= done);
            }
        }
        i = i + 1;
    }
    proof {
        assert(adapter.unicast@.take(i as int) =~= adapter.unicast@);
    }
    best
}

/// The address of the adapter that serves best.
pub fn preferred_lan_ip_from_windows_adapters(adapters: &Vec<Adapter>) -> (r: Option<Ipv4Addr>)
    ensures
        r == match lan::choice(windows_candidates(adapters@)) {
            Some(best) => Some(best.ip),
            None => None,
        },
{
    let mut best: Option<Candidate> = None;
    let mut i: usize = 0;
    while i < adapters.len()
        invariant
            i <= adapters.len(),
            best == lan::choice(windows_candidates(adapters@.take(i as int))),
        decreases adapters.len() - i,
    {
        proof {
            assert(adapters@.take(i + 1).drop_last() =~= adapters@.take(i as int));
        }
        best =
        better_of_adapter(
            best,
            &adapters[i],
            Ghost(windows_candidates(adapters@.take(i as int))),
        );
        i = i + 1;
    }
    proof {
        assert(adapters@.take(i as int) =~= adapters@);
    }
    match best {
        Some(candidate) => Some(candidate.ip),
        None => None,
    }
}

/// What a call with this status has to say, where it filled in `adapters`.
pub fn windows_answer(status: u32, adapters: Vec<Adapter>) -> (r: Answer)
    ensures
        r == if status == ERROR_BUFFER_OVERFLOW {
            Answer::BufferOverflow
        } else if status != ERROR_SUCCESS {
            Answer::Failed
        } else {
            Answer::Adapters(adapters)
        },
{
    if status == ERROR_BUFFER_OVERFLOW {
        Answer::BufferOverflow
    } else if status != ERROR_SUCCESS {
        Answer::Failed
    } else {
        Answer::Adapters(adapters)
    }
}

/// Whether Windows is to be asked once more, after these answers.
pub fn asks_again(answers: &Vec<Answer>) -> (r: bool)
    ensures
        r == (answers@.len() < QUERY_TRIES && forall|i: int|
            0 <= i < answers@.len() ==> #[trigger] answers@[i] is BufferOverflow),
{
    if answers.len() >= QUERY_TRIES {
        return false;
    }
    let mut i: usize = 0;
    while i < answers.len()
        invariant
            i <= answers.len(),
            forall|j: int| 0 <= j < i ==> #[trigger] answers@[j] is BufferOverflow,
        decreases answers.len() - i,
    {
        match &answers[i] {
            Answer::BufferOverflow => {},
            _ => return false,
        }
        i = i + 1;
    }
    true
}

/// The address of the adapter that serves best, from the answers that Windows gave.
pub fn preferred_lan_ip_from_windows(answers: &Vec<Answer>) -> (r: Option<String>)
    ensures
        text::opt_string(r) == first_answer(answers@, QUERY_TRIES as nat),
{
    let mut i: usize = 0;
    proof {
        assert(answers@.skip(0) =~= answers@);
    }
    while i < answers.len() && i < QUERY_TRIES
        invariant
            i <= answers.len(),
            i <= QUERY_TRIES,
            first_answer(answers@, QUERY_TRIES as nat) == first_answer(
                answers@.skip(i as int),
                (QUERY_TRIES - i) as nat,
            ),
        decreases answers.len() - i,
    {
        proof {
            assert(answers@.skip(i as int).skip(1) =~= answers@.skip(i + 1));
            assert(answers@.skip(i as int)[0] == answers@[i as int]);
        }
        match &answers[i] {
            Answer::BufferOverflow => {
                i = i + 1;
            },
            Answer::Failed => {
                return None;
            },
            Answer::Adapters(adapters) => {
                return match preferred_lan_ip_from_windows_adapters(adapters) {
                    Some(ip) => Some(ip.to_text()),
                    None => None,
                };
            },
        }
    }
    None
}

/// An adapter is considered exactly where it is up, has the type of a local
/// network, and is not a virtual adapter.
pub proof fn law_only_physical_adapters(label: Seq<char>, if_type: u32, oper_status: i32)
    ensures
        adapter_score(label, if_type, oper_status) >= LOWEST_SCORE <==> oper_status
            == IF_OPER_STATUS_UP && is_lan_type(if_type) && !is_virtual(label, if_type),
{
}

proof fn lemma_candidates_are_private(adapters: Seq<Adapter>)
    ensures
        forall|i: int|
            0 <= i < windows_candidates(adapters).len() ==> lan::is_private(
                #[trigger] windows_candidates(adapters)[i].ip,
            ),
    decreases adapters.len(),
{
    if adapters.len() > 0 {
        let before = windows_candidates(adapters.drop_last());
        let last = adapters.last();
        let score = adapter_score(adapter_label(last), last.if_type, last.oper_status);
        lemma_candidates_are_private(adapters.drop_last());
        lemma_addresses_are_private(last.unicast@, score, last.ipv4_metric);
        assert forall|i: int| 0 <= i < windows_candidates(adapters).len() implies lan::is_private(
            #[trigger] windows_candidates(adapters)[i].ip,
        ) by {
            if i < before.len() {
                assert(windows_candidates(adapters)[i] == before[i]);
            } else {
                assert(windows_candidates(adapters)[i] == adapter_candidates(last)[i
                    - before.len()]);
            }
        }
    }
}

proof fn lemma_addresses_are_private(unicast: Seq<Unicast>, score: int, metric: u32)
    ensures
        forall|i: int|
            0 <= i < unicast_candidates(unicast, score, metric).len() ==> lan::is_private(
                #[trigger] unicast_candidates(unicast, score, metric)[i].ip,
            ),
    decreases unicast.len(),
{
    if unicast.len() > 0 {
        let before = unicast_candidates(unicast.drop_last(), score, metric);
        let more = address_candidates(unicast.last(), score, metric);
        let all = unicast_candidates(unicast, score, metric);
        lemma_addresses_are_private(unicast.drop_last(), score, metric);
        assert forall|i: int| 0 <= i < all.len() implies lan::is_private(
            #[trigger] all[i].ip,
        ) by {
            if i < before.len() {
                assert(all[i] == before[i]);
            } else {
                assert(all[i] == more[i - before.len()]);
            }
        }
    }
}

/// The address that is chosen belongs to a private network.
pub proof fn law_chosen_address_is_private(adapters: Seq<Adapter>)
    ensures
        lan::choice(windows_candidates(adapters)) matches Some(best) ==> lan::is_private(best.ip),
{
    lemma_candidates_are_private(adapters);
    lan::law_choice_is_best(windows_candidates(adapters));
}

/// The codes by which Windows names the interface types of local networks and of
/// virtual adapters, an interface that is up, an address that may be used, and what
/// came of a call. It is asked three times at most.
pub proof fn law_windows_codes(if_type: u32)
    ensures
        is_lan_type(if_type) <==> if_type == 6 || if_type == 71,
        is_virtual_type(if_type) <==> if_type == 23 || if_type == 24 || if_type == 28 || if_type
            == 131,
        IF_OPER_STATUS_UP == 1,
        NLDS_PREFERRED == 4,
        ERROR_SUCCESS == 0,
        ERROR_BUFFER_OVERFLOW == 111,
        QUERY_TRIES == 3,
{
}

/// How each property of an adapter counts, whatever the others are: being up counts
/// a thousand points, the type of a local network five hundred, a name that speaks of
/// one two hundred; being virtual, by its type or its name, takes eight hundred off.
pub proof fn law_adapter_score(label: Seq<char>, if_type: u32, oper_status: i32)
    ensures
        ({
            let plain = text::ascii_lowered(text::trimmed(label));
            let score = adapter_score(label, if_type, oper_status);
            let up = adapter_score(label, if_type, 1);
            let down = adapter_score(label, if_type, 2);
            let unvirtual = !is_virtual_type(if_type) && !lan::names_virtual(plain);
            &&& up == down + 1000
            &&& oper_status != 1 ==> score == down
            &&& lan::names_lan(plain) && is_lan_type(if_type) ==> down == if unvirtual {
                700int
            } else {
                -100
            }
            &&& lan::names_lan(plain) && !is_lan_type(if_type) ==> down == if unvirtual {
                200int
            } else {
                -600
            }
            &&& !lan::names_lan(plain) && is_lan_type(if_type) ==> down == if unvirtual {
                500int
            } else {
                -300
            }
            &&& !lan::names_lan(plain) && !is_lan_type(if_type) ==> down == if unvirtual {
                0int
            } else {
                -800
            }
        }),
{
}

/// An adapter whose addresses are considered: it is up, has the type of a local
/// network, and is not virtual.
pub open spec fn is_considered(adapter: Adapter) -> bool {
    let plain = text::ascii_lowered(
        text::trimmed(adapter.friendly_name@ + " "@ + adapter.description@),
    );
    &&& adapter.oper_status == 1
    &&& adapter.if_type == 6 || adapter.if_type == 71
    &&& !lan::names_virtual(plain)
}

/// An adapter whose names speak of a local network.
pub open spec fn is_named_lan(adapter: Adapter) -> bool {
    lan::names_lan(
        text::ascii_lowered(text::trimmed(adapter.friendly_name@ + " "@ + adapter.description@)),
    )
}

/// The address at `m` of the adapter at `p` can be chosen: it is private and may be
/// used, and the adapter is considered.
pub open spec fn can_be_chosen(adapters: Seq<Adapter>, p: int, m: int) -> bool {
    &&& 0 <= p < adapters.len()
    &&& is_considered(adapters[p])
    &&& 0 <= m < adapters[p].unicast@.len()
    &&& adapters[p].unicast@[m].dad_state == 4
    &&& adapters[p].unicast@[m].address matches Some(ip)
    &&& lan::is_private(ip)
}

/// One adapter is better than another one: its names speak of a local network and the
/// other's do not, or they are alike in this and its metric is lower.
pub open spec fn is_better(a: Adapter, b: Adapter) -> bool {
    ||| is_named_lan(a) && !is_named_lan(b)
    ||| is_named_lan(a) == is_named_lan(b) && a.ipv4_metric < b.ipv4_metric
}

/// The address at `m` of the adapter at `p` is the best choice: no address that can be
/// chosen is on a better adapter, and those before it are on worse ones.
pub open spec fn is_best_choice(adapters: Seq<Adapter>, p: int, m: int) -> bool {
    &&& can_be_chosen(adapters, p, m)
    &&& forall|q: int, n: int| #[trigger]
        can_be_chosen(adapters, q, n) ==> !is_better(adapters[q], adapters[p])
    &&& forall|q: int, n: int| #[trigger]
        can_be_chosen(adapters, q, n) && (q < p || q == p && n < m) ==> is_better(
            adapters[p],
            adapters[q],
        )
}

/// An address that may be used.
spec fn is_usable(unicast: Unicast) -> bool {
    unicast.dad_state == 4 && (unicast.address matches Some(ip) && lan::is_private(ip))
}

proof fn lemma_unicast_places(unicast: Seq<Unicast>, score: int, metric: u32) -> (places: Seq<int>)
    requires
        -1000 <= score <= 2000,
    ensures
        ({
            let all = unicast_candidates(unicast, score, metric);
            &&& places.len() == all.len()
            &&& forall|k: int|
                0 <= k < places.len() ==> 0 <= #[trigger] places[k] < unicast.len() && is_usable(
                    unicast[places[k]],
                ) && score >= 1500 && all[k] == (Candidate {
                    ip: unicast[places[k]].address->Some_0,
                    score: score as i32,
                    metric,
                })
            &&& forall|k: int, l: int|
                0 <= k < l < places.len() ==> #[trigger] places[k] < #[trigger] places[l]
            &&& forall|i: int|
                0 <= i < unicast.len() && is_usable(#[trigger] unicast[i]) && score >= 1500
                    ==> places.contains(i)
        }),
    decreases unicast.len(),
{
    if unicast.len() == 0 {
        Seq::empty()
    } else {
        let before = unicast.drop_last();
        let n = unicast.len() - 1;
        let known = lemma_unicast_places(before, score, metric);
        let last = unicast.last();
        let all = unicast_candidates(unicast, score, metric);
        let more = address_candidates(last, score, metric);
        if let Some(ip) = last.address {
            lan::law_private_is_useful(ip);
        }
        let places = if more.len() == 1 {
            known.push(n)
        } else {
            known
        };
        assert forall|k: int| 0 <= k < places.len() implies 0 <= #[trigger] places[k]
            < unicast.len() && is_usable(unicast[places[k]]) && score >= 1500 && all[k] == (
        Candidate { ip: unicast[places[k]].address->Some_0, score: score as i32, metric }) by {
            if k < known.len() {
                assert(places[k] == known[k]);
                assert(before[known[k]] == unicast[known[k]]);
            } else {
                assert(all[k] == more[0]);
            }
        }
        assert forall|i: int|
            0 <= i < unicast.len() && is_usable(#[trigger] unicast[i]) && score >= 1500 implies places.contains(
        i) by {
            if i < n {
                assert(before[i] == unicast[i]);
                assert(known.contains(i));
                let k = choose|k: int| 0 <= k < known.len() && known[k] == i;
                assert(places[k] == i);
            } else {
                assert(more.len() == 1);
                assert(places[known.len() as int] == n);
            }
        }
        places
    }
}

/// The candidate for the address at `m` of the adapter at `p`.
spec fn candidate_at(adapters: Seq<Adapter>, p: int, m: int) -> Candidate {
    Candidate {
        ip: adapters[p].unicast@[m].address->Some_0,
        score: if is_named_lan(adapters[p]) {
            1700
        } else {
            1500
        },
        metric: adapters[p].ipv4_metric,
    }
}

proof fn lemma_considered(adapter: Adapter)
    ensures
        ({
            let score = adapter_score(
                adapter_label(adapter),
                adapter.if_type,
                adapter.oper_status,
            );
            &&& -1000 <= score <= 2000
            &&& score >= 1500 <==> is_considered(adapter)
            &&& is_considered(adapter) ==> score == if is_named_lan(adapter) {
                1700int
            } else {
                1500
            }
        }),
{
}

proof fn lemma_adapter_places(adapters: Seq<Adapter>) -> (places: Seq<(int, int)>)
    ensures
        ({
            let all = windows_candidates(adapters);
            &&& places.len() == all.len()
            &&& forall|k: int|
                0 <= k < places.len() ==> can_be_chosen(
                    adapters,
                    (#[trigger] places[k]).0,
                    places[k].1,
                ) && all[k] == candidate_at(adapters, places[k].0, places[k].1)
            &&& forall|k: int, l: int|
                0 <= k < l < places.len() ==> (#[trigger] places[k]).0 < (#[trigger] places[l]).0
                    || places[k].0 == places[l].0 && places[k].1 < places[l].1
            &&& forall|p: int, m: int| #[trigger]
                can_be_chosen(adapters, p, m) ==> places.contains((p, m))
        }),
    decreases adapters.len(),
{
    if adapters.len() == 0 {
        Seq::empty()
    } else {
        let before = adapters.drop_last();
        let n = adapters.len() - 1;
        let last = adapters.last();
        let known = lemma_adapter_places(before);
        let score = adapter_score(adapter_label(last), last.if_type, last.oper_status);
        lemma_considered(last);
        let inner = lemma_unicast_places(last.unicast@, score, last.ipv4_metric);
        let places = known + Seq::new(inner.len(), |k: int| (n, inner[k]));
        let all = windows_candidates(adapters);
        let more = adapter_candidates(last);
        assert forall|k: int| 0 <= k < places.len() implies can_be_chosen(
            adapters,
            (#[trigger] places[k]).0,
            places[k].1,
        ) && all[k] == candidate_at(adapters, places[k].0, places[k].1) by {
            if k < known.len() {
                assert(places[k] == known[k]);
                assert(before[known[k].0] == adapters[known[k].0]);
            } else {
                let j = k - known.len();
                assert(places[k] == (n, inner[j]));
                assert(is_usable(last.unicast@[inner[j]]));
                assert(all[k] == more[j]);
            }
        }
        assert forall|k: int, l: int| 0 <= k < l < places.len() implies (#[trigger] places[k]).0 < (
        #[trigger] places[l]).0 || places[k].0 == places[l].0 && places[k].1 < places[l].1 by {
            if l < known.len() {
                assert(places[k] == known[k] && places[l] == known[l]);
            } else if k < known.len() {
                assert(places[k] == known[k]);
                assert(can_be_chosen(before, known[k].0, known[k].1));
            } else {
                assert(inner[k - known.len()] < inner[l - known.len()]);
            }
        }
        assert forall|p: int, m: int| #[trigger]
            can_be_chosen(adapters, p, m) implies places.contains((p, m)) by {
            if p < n {
                assert(before[p] == adapters[p]);
                assert(can_be_chosen(before, p, m));
                let k = choose|k: int| 0 <= k < known.len() && known[k] == (p, m);
                assert(places[k] == (p, m));
            } else {
                assert(is_usable(last.unicast@[m]));
                assert(inner.contains(m));
                let k = choose|k: int| 0 <= k < inner.len() && inner[k] == m;
                assert(places[known.len() + k] == (n, m));
            }
        }
        places
    }
}

/// Among the adapters, the best choice is chosen; none is chosen only where no address
/// can be.
pub proof fn law_best_adapter_is_chosen(adapters: Seq<Adapter>, p: int, m: int)
    ensures
        is_best_choice(adapters, p, m) ==> (lan::choice(
            windows_candidates(adapters),
        ) matches Some(best) && Some(best.ip) == adapters[p].unicast@[m].address),
        can_be_chosen(adapters, p, m) ==> exists|q: int, n: int| #[trigger]
            is_best_choice(adapters, q, n),
        lan::choice(windows_candidates(adapters)) matches Some(best) ==> exists|q: int, n: int| #[trigger]
            is_best_choice(adapters, q, n) && adapters[q].unicast@[n].address == Some(best.ip),
{
    let all = windows_candidates(adapters);
    let places = lemma_adapter_places(adapters);
    lan::law_choice_is_best(all);
    if let Some(best) = lan::choice(all) {
        let i = choose|i: int|
            {
                &&& 0 <= i < all.len()
                &&& #[trigger] all[i] == best
                &&& forall|j: int| 0 <= j < all.len() ==> !lan::outranks(#[trigger] all[j], best)
                &&& forall|j: int| 0 <= j < i ==> lan::outranks(best, #[trigger] all[j])
            };
        let (q, n) = places[i];
        assert(can_be_chosen(adapters, q, n));
        assert forall|q2: int, n2: int| #[trigger] can_be_chosen(adapters, q2, n2) implies !is_better(
            adapters[q2],
            adapters[q],
        ) && (q2 < q || q2 == q && n2 < n ==> is_better(adapters[q], adapters[q2])) by {
            assert(places.contains((q2, n2)));
            let j = choose|j: int| 0 <= j < places.len() && places[j] == (q2, n2);
            assert(all[j] == candidate_at(adapters, q2, n2));
            if q2 < q || q2 == q && n2 < n {
                assert(j < i) by {
                    if i < j {
                        assert(places[i].0 <= places[j].0);
                    }
                }
            }
        }
        assert(is_best_choice(adapters, q, n));
        if is_best_choice(adapters, p, m) {
            assert(can_be_chosen(adapters, p, m));
            assert(p == q && m == n);
        }
    } else if can_be_chosen(adapters, p, m) {
        assert(places.contains((p, m)));
    }
}

/// The first answer that does not ask for a larger buffer counts, where it is among the
/// first three; a failure gives nothing, and neither do three answers that ask for a
/// larger buffer.
pub proof fn law_first_answer(answers: Seq<Answer>, k: int)
    ensures
        ({
            let found = first_answer(answers, QUERY_TRIES as nat);
            let first = 0 <= k < answers.len() && k < 3 && !(answers[k] is BufferOverflow) && (
            forall|j: int| 0 <= j < k ==> #[trigger] answers[j] is BufferOverflow);
            &&& first && answers[k] is Failed ==> found is None
            &&& first ==> (answers[k] matches Answer::Adapters(adapters) ==> found
                == lan::chosen_text(windows_candidates(adapters@)))
            &&& (forall|j: int|
                0 <= j < answers.len() && j < 3 ==> #[trigger] answers[j] is BufferOverflow)
                ==> found is None
        }),
{
    reveal_with_fuel(first_answer, 4);
    if answers.len() > 0 {
        assert(answers.skip(1).len() == answers.len() - 1);
        if answers.len() > 1 {
            assert(answers.skip(1)[0] == answers[1]);
            if answers.len() > 2 {
                assert(answers.skip(1).skip(1)[0] == answers[2]);
            }
        }
    }
}

/// An address that can be chosen is private and may be used, and its adapter is up, is
/// for Ethernet or wireless networks and has no name of a virtual adapter.
pub proof fn law_considered_adapters(adapters: Seq<Adapter>, p: int, m: int)
    requires
        0 <= p < adapters.len(),
        0 <= m < adapters[p].unicast@.len(),
    ensures
        ({
            let adapter = adapters[p];
            let label = adapter.friendly_name@ + " "@ + adapter.description@;
            let address = adapter.unicast@[m];
            can_be_chosen(adapters, p, m) <==> {
                &&& adapter.oper_status == 1
                &&& adapter.if_type == 6 || adapter.if_type == 71
                &&& !lan::names_virtual(text::ascii_lowered(text::trimmed(label)))
                &&& address.dad_state == 4
                &&& address.address is Some
                &&& lan::is_private(address.address->Some_0)
            }
        }),
{
}

/// Where an address can be chosen, one is. It is on an adapter whose names speak of a
/// local network where the adapter of the other address has such names; and where both
/// have them, or none has, it is on one with no higher metric.
pub proof fn law_chosen_adapter(adapters: Seq<Adapter>, p: int, m: int)
    requires
        can_be_chosen(adapters, p, m),
    ensures
        exists|q: int, n: int| #[trigger]
            can_be_chosen(adapters, q, n) && (lan::choice(
                windows_candidates(adapters),
            ) matches Some(best) && adapters[q].unicast@[n].address == Some(best.ip)) && ({
                let chosen = adapters[q];
                let other = adapters[p];
                let chosen_lan = lan::names_lan(
                    text::ascii_lowered(
                        text::trimmed(chosen.friendly_name@ + " "@ + chosen.description@),
                    ),
                );
                let other_lan = lan::names_lan(
                    text::ascii_lowered(
                        text::trimmed(other.friendly_name@ + " "@ + other.description@),
                    ),
                );
                &&& other_lan ==> chosen_lan
                &&& other_lan == chosen_lan ==> chosen.ipv4_metric <= other.ipv4_metric
                &&& other_lan == chosen_lan && chosen.ipv4_metric == other.ipv4_metric ==> q < p
                    || q == p && n <= m
            }),
{
    law_best_adapter_is_chosen(adapters, p, m);
    let (q, n) = choose|q: int, n: int| #[trigger] is_best_choice(adapters, q, n);
    law_best_adapter_is_chosen(adapters, q, n);
    assert(can_be_chosen(adapters, q, n));
}

} // verus!
