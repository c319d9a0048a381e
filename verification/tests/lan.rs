//! The choice of this machine's address.

use codexl::remote::lan::{
    better, interface_lan_score, is_benchmark_ipv4, is_preferred_lan_interface_name,
    is_rfc1918_ipv4, is_useful_lan_ipv4, is_virtual_interface_name, lan_ip_address, needs_lan_ip,
    normalize_interface_name, preferred_lan_ip_from_interfaces, preferred_lan_ip_from_socket,
    remote_url, Candidate, Interface, Ipv4Addr,
};
use codexl::remote::windows::{
    asks_again, is_windows_lan_if_type, is_windows_virtual_if_type, preferred_lan_ip_from_windows,
    preferred_lan_ip_from_windows_adapters, windows_adapter_lan_score, windows_answer, Adapter,
    Answer, Unicast, ERROR_BUFFER_OVERFLOW, ERROR_SUCCESS, IF_OPER_STATUS_UP, IF_TYPE_IEEE80211,
    IF_TYPE_TUNNEL, MIB_IF_TYPE_ETHERNET, MIB_IF_TYPE_LOOPBACK, MIB_IF_TYPE_PPP, MIB_IF_TYPE_SLIP,
    NLDS_PREFERRED,
};
use windows_sys::Win32::Foundation;
use windows_sys::Win32::NetworkManagement::{IpHelper, Ndis};
use windows_sys::Win32::Networking::WinSock;

fn interface(name: &str, addr: Option<Ipv4Addr>) -> Interface {
    Interface { name: name.to_string(), addr }
}

fn adapter(name: &str, if_type: u32, metric: u32, addresses: &[Ipv4Addr]) -> Adapter {
    Adapter {
        friendly_name: name.to_string(),
        description: "Adapter".to_string(),
        if_type,
        oper_status: IF_OPER_STATUS_UP,
        ipv4_metric: metric,
        unicast: addresses
            .iter()
            .map(|ip| Unicast { dad_state: NLDS_PREFERRED, address: Some(*ip) })
            .collect(),
    }
}

#[test]
fn lan_ipv4_classification_filters_tun_benchmark_addresses() {
    assert!(is_rfc1918_ipv4(Ipv4Addr::new(192, 168, 1, 1)));
    assert!(is_rfc1918_ipv4(Ipv4Addr::new(10, 0, 0, 8)));
    assert!(!is_rfc1918_ipv4(Ipv4Addr::new(198, 18, 0, 1)));
    assert!(is_benchmark_ipv4(Ipv4Addr::new(198, 18, 0, 1)));
    assert!(is_useful_lan_ipv4(Ipv4Addr::new(192, 168, 1, 1)));
    assert!(!is_useful_lan_ipv4(Ipv4Addr::new(198, 18, 0, 1)));
}

#[test]
fn addresses_are_classified_at_the_edges_of_their_ranges() {
    assert!(!is_rfc1918_ipv4(Ipv4Addr::new(172, 15, 255, 255)));
    assert!(is_rfc1918_ipv4(Ipv4Addr::new(172, 16, 0, 0)));
    assert!(is_rfc1918_ipv4(Ipv4Addr::new(172, 31, 255, 255)));
    assert!(!is_rfc1918_ipv4(Ipv4Addr::new(172, 32, 0, 0)));
    assert!(!is_rfc1918_ipv4(Ipv4Addr::new(192, 167, 0, 0)));
    assert!(!is_benchmark_ipv4(Ipv4Addr::new(198, 17, 0, 0)));
    assert!(is_benchmark_ipv4(Ipv4Addr::new(198, 19, 255, 255)));
    assert!(!is_benchmark_ipv4(Ipv4Addr::new(198, 20, 0, 0)));
    for (ip, useful) in [
        (Ipv4Addr::new(127, 0, 0, 1), false),
        (Ipv4Addr::new(224, 0, 0, 1), false),
        (Ipv4Addr::new(239, 255, 255, 255), false),
        (Ipv4Addr::new(240, 0, 0, 1), true),
        (Ipv4Addr::new(255, 255, 255, 255), false),
        (Ipv4Addr::new(255, 255, 255, 254), true),
        (Ipv4Addr::new(0, 0, 0, 0), false),
        (Ipv4Addr::new(0, 0, 0, 1), true),
        (Ipv4Addr::new(169, 254, 1, 1), false),
        (Ipv4Addr::new(169, 253, 1, 1), true),
        (Ipv4Addr::new(8, 8, 8, 8), true),
    ] {
        assert_eq!(is_useful_lan_ipv4(ip), useful);
    }
    assert_eq!(Ipv4Addr::new(192, 168, 0, 10).to_text(), "192.168.0.10");
}

#[test]
fn lan_interface_scoring_prefers_physical_lan_over_virtual_adapters() {
    let wlan = interface_lan_score("WLAN", Ipv4Addr::new(192, 168, 0, 8));
    let local = interface_lan_score("本地连接* 11", Ipv4Addr::new(192, 168, 137, 1));
    let tun = interface_lan_score("Mihomo", Ipv4Addr::new(198, 18, 0, 1));
    assert!(wlan > local);
    assert!(local > tun);
}

#[test]
fn interface_scores_add_up() {
    let private = Ipv4Addr::new(10, 0, 0, 1);
    let public = Ipv4Addr::new(8, 8, 8, 8);
    assert_eq!(interface_lan_score("eth0", private), 100);
    assert_eq!(interface_lan_score(" WLAN0 ", private), 140);
    assert_eq!(interface_lan_score("tun0", private), 60);
    assert_eq!(interface_lan_score("vlan virtual", private), 100);
    assert_eq!(interface_lan_score("以太网", public), 40);
    assert_eq!(interface_lan_score("eth0", public), 0);
    assert_eq!(interface_lan_score("tap", public), -40);
    assert_eq!(normalize_interface_name("  Wi-Fi 2 "), "wi-fi 2");
    for name in ["wlan", "wi-fi", "my wifi", "ethernet 2", "以太网", "无线网络", "vlan"] {
        assert!(is_preferred_lan_interface_name(name));
    }
    assert!(!is_preferred_lan_interface_name("eth0"));
    for name in [
        "mihomo", "wintun", "tun1", "tap0", "vmware", "virtual", "virtualbox", "hyper-v",
        "tailscale0", "wireguard", "zerotier", "loopback", "本地连接* 1", "a*b",
    ] {
        assert!(is_virtual_interface_name(name));
    }
    assert!(!is_virtual_interface_name("本地连接"));
}

#[test]
fn the_first_of_the_best_interfaces_is_chosen() {
    let a = Ipv4Addr::new(192, 168, 0, 1);
    let b = Ipv4Addr::new(192, 168, 0, 2);
    let public = Ipv4Addr::new(8, 8, 8, 8);
    let choose = |list: Vec<Interface>| preferred_lan_ip_from_interfaces(&list);
    assert_eq!(choose(vec![]), None);
    assert_eq!(choose(vec![interface("lo", Some(Ipv4Addr::new(127, 0, 0, 1)))]), None);
    assert_eq!(choose(vec![interface("eth0", None)]), None);
    assert_eq!(
        choose(vec![interface("eth0", Some(a)), interface("eth1", Some(b))]).as_deref(),
        Some("192.168.0.1")
    );
    assert_eq!(
        choose(vec![
            interface("eth0", None),
            interface("wlan9", Some(public)),
            interface("tun0", Some(a)),
            interface("eth1", Some(b)),
        ])
        .as_deref(),
        Some("192.168.0.2")
    );
    assert_eq!(
        choose(vec![interface("tun0", Some(a)), interface("wlan", Some(public))]).as_deref(),
        Some("192.168.0.1")
    );
}

#[test]
fn a_better_candidate_has_a_higher_score_or_a_lower_metric() {
    let candidate = |d: u8, score: i32, metric: u32| Candidate {
        ip: Ipv4Addr::new(10, 0, 0, d),
        score,
        metric,
    };
    let chosen = |first: Candidate, second: Candidate| {
        better(Some(first), second).map(|best| best.ip.d)
    };
    assert_eq!(better(None, candidate(1, 0, 0)).map(|best| best.ip.d), Some(1));
    assert_eq!(chosen(candidate(1, 5, 9), candidate(2, 4, 0)), Some(1));
    assert_eq!(chosen(candidate(1, 5, 9), candidate(2, 6, 9)), Some(2));
    assert_eq!(chosen(candidate(1, 5, 9), candidate(2, 5, 8)), Some(2));
    assert_eq!(chosen(candidate(1, 5, 9), candidate(2, 5, 9)), Some(1));
}

#[test]
fn a_socket_address_counts_where_it_is_private() {
    assert_eq!(
        preferred_lan_ip_from_socket(Some(Ipv4Addr::new(10, 1, 2, 3))).as_deref(),
        Some("10.1.2.3")
    );
    assert_eq!(preferred_lan_ip_from_socket(Some(Ipv4Addr::new(8, 8, 8, 8))), None);
    assert_eq!(preferred_lan_ip_from_socket(None), None);
}

#[test]
fn the_first_way_that_finds_an_address_counts() {
    let some = |text: &str| Some(text.to_string());
    assert_eq!(lan_ip_address(some("a"), some("b"), some("c")).as_deref(), Some("a"));
    assert_eq!(lan_ip_address(None, some("b"), some("c")).as_deref(), Some("b"));
    assert_eq!(lan_ip_address(None, None, some("c")).as_deref(), Some("c"));
    assert_eq!(lan_ip_address(None, None, None).as_deref(), Some("127.0.0.1"));
}

#[test]
fn remote_urls_name_an_address_that_others_can_reach() {
    assert_eq!(
        remote_url("0.0.0.0", 8080, "t", Some("10.0.0.1".to_string())),
        "http://10.0.0.1:8080/?token=t"
    );
    assert_eq!(remote_url("0.0.0.0", 80, "t", None), "http://127.0.0.1:80/?token=t");
    assert_eq!(
        remote_url("localhost", 65535, "", Some("10.0.0.1".to_string())),
        "http://localhost:65535/?token="
    );
    assert!(needs_lan_ip("0.0.0.0"));
    assert!(!needs_lan_ip("127.0.0.1"));
}

#[test]
fn windows_adapter_scoring_prefers_physical_lan_over_virtual_adapters() {
    let wlan = windows_adapter_lan_score(
        "WLAN Intel(R) Wireless-AC 9462",
        IF_TYPE_IEEE80211,
        IF_OPER_STATUS_UP,
    );
    let local = windows_adapter_lan_score(
        "本地连接* 11 Microsoft Wi-Fi Direct Virtual Adapter",
        IF_TYPE_IEEE80211,
        IF_OPER_STATUS_UP,
    );
    let tun = windows_adapter_lan_score("Mihomo Wintun", IF_TYPE_TUNNEL, IF_OPER_STATUS_UP);

    assert!(wlan >= 1500);
    assert!(local < 1500);
    assert!(tun < 1500);
}

#[test]
fn windows_native_lan_ip_selector_runs() {
    let _ = preferred_lan_ip_from_windows(&Vec::new());
}

#[test]
fn windows_scores_add_up() {
    assert_eq!(windows_adapter_lan_score("x", MIB_IF_TYPE_ETHERNET, IF_OPER_STATUS_UP), 1500);
    assert_eq!(windows_adapter_lan_score("wlan", IF_TYPE_IEEE80211, IF_OPER_STATUS_UP), 1700);
    assert_eq!(windows_adapter_lan_score("wlan", IF_TYPE_IEEE80211, 2), 700);
    assert_eq!(windows_adapter_lan_score("x", MIB_IF_TYPE_PPP, IF_OPER_STATUS_UP), 200);
    assert_eq!(windows_adapter_lan_score("tun", MIB_IF_TYPE_LOOPBACK, 2), -800);
    assert!(is_windows_lan_if_type(MIB_IF_TYPE_ETHERNET));
    assert!(!is_windows_lan_if_type(MIB_IF_TYPE_SLIP));
    assert!(is_windows_virtual_if_type(MIB_IF_TYPE_SLIP));
    assert!(!is_windows_virtual_if_type(1));
}

#[test]
fn windows_adapters_with_lower_metrics_win_between_equal_scores() {
    let a = Ipv4Addr::new(10, 0, 0, 1);
    let b = Ipv4Addr::new(10, 0, 0, 2);
    let c = Ipv4Addr::new(10, 0, 0, 3);
    let public = Ipv4Addr::new(8, 8, 8, 8);
    let adapters = vec![
        adapter("Uplink", MIB_IF_TYPE_ETHERNET, 50, &[public, a]),
        adapter("Other", MIB_IF_TYPE_ETHERNET, 20, &[b, c]),
        adapter("VMware", MIB_IF_TYPE_ETHERNET, 1, &[c]),
        adapter("Third", MIB_IF_TYPE_ETHERNET, 20, &[c]),
    ];
    assert_eq!(preferred_lan_ip_from_windows_adapters(&adapters), Some(b));
    let wireless = vec![
        adapter("Uplink", MIB_IF_TYPE_ETHERNET, 1, &[a]),
        adapter("WLAN", IF_TYPE_IEEE80211, 90, &[b]),
    ];
    assert_eq!(preferred_lan_ip_from_windows_adapters(&wireless), Some(b));
    assert_eq!(preferred_lan_ip_from_windows_adapters(&Vec::new()), None);
    let mut tentative = vec![adapter("Uplink", MIB_IF_TYPE_ETHERNET, 1, &[a])];
    tentative[0].unicast[0].dad_state = 1;
    assert_eq!(preferred_lan_ip_from_windows_adapters(&tentative), None);
}

#[test]
fn windows_is_asked_again_only_for_want_of_a_larger_buffer() {
    let a = Ipv4Addr::new(10, 0, 0, 1);
    let found = || Answer::Adapters(vec![adapter("LAN", MIB_IF_TYPE_ETHERNET, 1, &[a])]);
    let ip = |answers: Vec<Answer>| preferred_lan_ip_from_windows(&answers);
    assert_eq!(ip(vec![found()]).as_deref(), Some("10.0.0.1"));
    assert_eq!(
        ip(vec![Answer::BufferOverflow, Answer::BufferOverflow, found()]).as_deref(),
        Some("10.0.0.1")
    );
    assert_eq!(
        ip(vec![
            Answer::BufferOverflow,
            Answer::BufferOverflow,
            Answer::BufferOverflow,
            found(),
        ]),
        None
    );
    assert_eq!(ip(vec![Answer::Failed, found()]), None);
    assert!(asks_again(&vec![]));
    assert!(asks_again(&vec![Answer::BufferOverflow, Answer::BufferOverflow]));
    assert!(!asks_again(&vec![
        Answer::BufferOverflow,
        Answer::BufferOverflow,
        Answer::BufferOverflow,
    ]));
    assert!(!asks_again(&vec![Answer::Failed]));
    assert!(!asks_again(&vec![found()]));
    assert!(matches!(
        windows_answer(ERROR_BUFFER_OVERFLOW, Vec::new()),
        Answer::BufferOverflow
    ));
    assert!(matches!(windows_answer(5, Vec::new()), Answer::Failed));
    assert!(matches!(windows_answer(ERROR_SUCCESS, Vec::new()), Answer::Adapters(_)));
}

#[test]
fn windows_constants_are_those_of_the_system() {
    assert_eq!(ERROR_SUCCESS, Foundation::ERROR_SUCCESS);
    assert_eq!(ERROR_BUFFER_OVERFLOW, Foundation::ERROR_BUFFER_OVERFLOW);
    assert_eq!(MIB_IF_TYPE_ETHERNET, IpHelper::MIB_IF_TYPE_ETHERNET);
    assert_eq!(IF_TYPE_IEEE80211, IpHelper::IF_TYPE_IEEE80211);
    assert_eq!(MIB_IF_TYPE_LOOPBACK, IpHelper::MIB_IF_TYPE_LOOPBACK);
    assert_eq!(IF_TYPE_TUNNEL, IpHelper::IF_TYPE_TUNNEL);
    assert_eq!(MIB_IF_TYPE_PPP, IpHelper::MIB_IF_TYPE_PPP);
    assert_eq!(MIB_IF_TYPE_SLIP, IpHelper::MIB_IF_TYPE_SLIP);
    assert_eq!(IF_OPER_STATUS_UP, Ndis::IfOperStatusUp);
    assert_eq!(NLDS_PREFERRED, WinSock::NldsPreferred);
}
