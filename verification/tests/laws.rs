//! What holds of the library as a whole, on values of its own.

use nipart::addr::{canonical_ip_network, is_ipv6_addr, sanitize_ip_network};
use nipart::dns::{doh_url_host, host_in_hosts_file, parse_dns_server};
use nipart::ip::{merge_ipv4, merge_ipv6};
use nipart::merged_route::{IfaceFlag, keep_names, list_flagged};
use nipart::merged_route_rule::has_priority_room;
use nipart::no_daemon::{
    KernelRule, KernelRuleAction, KernelRuleFamily, KernelRuleProtocol, RuleAttribute,
    get_route_rules, nipart_rule_to_netlink_rule, parse_ip_network,
};
use nipart::plugin::no_support;
use nipart::route_rule::set_auto_priority;
use nipart::wifi::{find_connected_wifi_phy_for_cfg, wifi_cfg_matches_phy};
use nipart::{
    AddressFamily, AltNameEntry, AltNameState, BaseInterface, DnsCacheConfig, DnsResolver,
    DnsResolverClient, DnsUpstreamServer, ErrorKind, IfaceSearch, Interface, InterfaceIdentifier,
    InterfaceIpAddr, InterfaceIpv4, InterfaceIpv6, InterfaceLinkState, InterfaceState,
    InterfaceType, Interfaces, IpAddr, KeyMap, MergedDnsResolver, MergedInterface,
    MergedInterfaces, MergedNetworkState, MergedRouteRules, MergedRoutes, NetworkState,
    NipartApplyOption, NipartDnsDoh, NipartDnsFallback, NipartDnsUpstreamGroup, NipartNoDaemon,
    NipartPluginCmd, NipartQueryOption, NipartWaitOnline, NipartWaitOnlineCondition,
    NipartWifiControl, RouteEntry, RouteRuleAction, RouteRuleEntry, RouteRuleState, RouteRules,
    RouteState, RouteType, Routes, SocketAddr, VethConfig, WifiConfig, parse_ip_addr,
    parse_socket_addr,
};

fn iface(name: &str, iface_type: InterfaceType) -> Interface {
    Interface::from_base(BaseInterface::new(name.to_string(), iface_type))
}

fn eth(name: &str) -> Interface {
    iface(name, InterfaceType::Ethernet)
}

fn with_state(mut iface: Interface, state: InterfaceState) -> Interface {
    iface.base.state = state;
    iface
}

fn with_mtu(mut iface: Interface, mtu: u64) -> Interface {
    iface.base.mtu = Some(mtu);
    iface
}

fn with_ipv4(mut iface: Interface) -> Interface {
    iface.base.ipv4 = Some(InterfaceIpv4 { enabled: Some(true), ..Default::default() });
    iface
}

fn bond(name: &str, ports: &[&str]) -> Interface {
    let mut iface = iface(name, InterfaceType::Bond);
    iface.ports = Some(ports.iter().map(|port| port.to_string()).collect());
    iface
}

fn ifaces(list: Vec<Interface>) -> Interfaces {
    Interfaces::new(list)
}

fn merged(desired: Vec<Interface>, current: Vec<Interface>) -> MergedInterfaces {
    MergedInterfaces::new(ifaces(desired), ifaces(current), None).unwrap()
}

fn names(list: &Interfaces) -> Vec<String> {
    list.to_list().iter().map(|iface| iface.base.name.clone()).collect()
}

fn route(destination: &str, hop: &str) -> RouteEntry {
    RouteEntry {
        state: None,
        destination: Some(destination.to_string()),
        next_hop_iface: Some(hop.to_string()),
        next_hop_addr: None,
        metric: None,
        table_id: None,
        vrf_name: None,
        route_type: None,
        onlink: None,
    }
}

fn absent_route(destination: &str, hop: &str) -> RouteEntry {
    let mut rt = route(destination, hop);
    rt.state = Some(RouteState::Absent);
    rt
}

fn routes(config: Vec<RouteEntry>) -> Routes {
    Routes { running: None, config: Some(config) }
}

fn rule(ip_from: &str, table_id: u32) -> RouteRuleEntry {
    let mut rule = RouteRuleEntry::new();
    rule.ip_from = Some(ip_from.to_string());
    rule.table_id = Some(table_id);
    rule
}

fn rules(config: Vec<RouteRuleEntry>) -> RouteRules {
    RouteRules { config: Some(config) }
}

fn group(name: &str, domains: &[&str]) -> NipartDnsUpstreamGroup {
    NipartDnsUpstreamGroup {
        name: name.to_string(),
        domains: domains.iter().map(|domain| domain.to_string()).collect(),
        nameservers: vec!["192.0.2.53".to_string()],
        disable_ipv6: false,
    }
}

fn cache(groups: Vec<NipartDnsUpstreamGroup>) -> DnsCacheConfig {
    let mut cache = DnsCacheConfig::default();
    cache.groups = groups;
    cache
}

fn texts(list: &[&str]) -> Vec<String> {
    list.iter().map(|item| item.to_string()).collect()
}

#[test]
fn maps_keep_one_entry_for_each_key() {
    let mut map: KeyMap<String, u32> = KeyMap::new();
    assert!(map.is_empty());
    map.insert("a".to_string(), 1);
    map.insert("b".to_string(), 2);
    map.insert("a".to_string(), 3);
    assert_eq!(map.len(), 2);
    assert_eq!(map.get(&"a".to_string()), Some(&3));
    assert_eq!(map.key_at(0), "a");
    assert_eq!(map.remove(&"a".to_string()), Some(3));
    assert_eq!(map.remove(&"a".to_string()), None);
    assert_eq!(map.get(&"b".to_string()), Some(&2));
}

#[test]
fn interfaces_are_kept_once_and_in_order() {
    let list = ifaces(vec![eth("eth1"), eth("eth0"), with_mtu(eth("eth1"), 9000)]);
    assert_eq!(names(&list), texts(&["eth1", "eth0"]));
    assert_eq!(list.to_list()[0].base.mtu, Some(9000));
    assert_eq!(list.to_list()[0].base.kernel_iface_name, "eth1");
}

#[test]
fn merging_interfaces_loses_none() {
    let mut list = ifaces(vec![with_mtu(eth("eth0"), 1500), eth("eth1")]);
    let mut new = eth("eth0");
    new.base.description = Some("uplink".to_string());
    list.merge(&ifaces(vec![new, eth("eth2")])).unwrap();
    assert_eq!(names(&list), texts(&["eth0", "eth1", "eth2"]));
    assert_eq!(list.to_list()[0].base.mtu, Some(1500));
    assert_eq!(list.to_list()[0].base.description.as_deref(), Some("uplink"));
}

#[test]
fn interfaces_do_not_differ_from_themselves() {
    let list = ifaces(vec![with_mtu(eth("eth0"), 1500), bond("bond0", &["eth0"])]);
    assert!(list.gen_diff(&list).unwrap().is_empty());
    let changed = ifaces(vec![with_mtu(eth("eth0"), 9000), bond("bond0", &["eth0"])]);
    let diff = changed.gen_diff(&list).unwrap();
    assert_eq!(names(&diff), texts(&["eth0"]));
    assert_eq!(diff.to_list()[0].base.mtu, Some(9000));
}

#[test]
fn virtual_cables_become_ethernet_interfaces_once() {
    let mut cable = iface("veth0", InterfaceType::Veth);
    cable.veth = Some(VethConfig { peer: "veth1".to_string() });
    let mut list = ifaces(vec![cable]);
    list.unify_veth_and_ethernet();
    let once = list.clone();
    list.unify_veth_and_ethernet();
    assert_eq!(list, once);
    assert_eq!(list.to_list()[0].iface_type(), InterfaceType::Ethernet);
    assert!(list.to_list()[0].is_virtual());
}

#[test]
fn mac_addresses_are_found_in_any_case() {
    let mut nic = eth("eth0");
    nic.base.mac_address = Some("aa:bb:cc:00:00:01".to_string());
    nic.base.kernel_iface_name = "eth0".to_string();
    let search = IfaceSearch::new(&vec![nic]);
    assert_eq!(search.search_mac("AA:bb:CC:00:00:01"), texts(&["eth0"]));
    assert_eq!(search.search_mac("aa:bb:cc:00:00:01"), texts(&["eth0"]));
    assert!(search.search_mac("aa:bb:cc:00:00:02").is_empty());
}

#[test]
fn an_interface_that_is_only_saved_is_not_applied() {
    let des = with_state(with_mtu(eth("eth0"), 9000), InterfaceState::Saved);
    let merged = MergedInterface::new(Some(des), Some(eth("eth0")), None, true).unwrap();
    assert!(merged.for_apply.is_none());
    assert!(merged.for_verify.is_none());
    assert!(merged.for_revert.is_none());
    assert_eq!(merged.for_save.unwrap().base.mtu, Some(9000));
}

#[test]
fn an_interface_that_is_not_desired_stays() {
    let saved = with_mtu(eth("eth0"), 9000);
    let merged =
        MergedInterface::new(None, Some(eth("eth0")), Some(saved.clone()), true).unwrap();
    assert!(merged.for_apply.is_none());
    assert_eq!(merged.merged, eth("eth0"));
    assert_eq!(merged.for_save, Some(saved));
}

#[test]
fn whatever_is_applied_can_be_undone() {
    let merged = MergedInterface::new(
        Some(with_mtu(eth("eth0"), 9000)),
        Some(with_mtu(eth("eth0"), 1500)),
        None,
        false,
    )
    .unwrap();
    assert!(merged.for_apply.is_some());
    assert_eq!(merged.for_revert, Some(with_mtu(eth("eth0"), 1500)));
    let created =
        MergedInterface::new(Some(iface("d0", InterfaceType::Dummy)), None, None, false).unwrap();
    assert!(created.for_revert.unwrap().is_absent());
}

#[test]
fn what_is_shown_already_is_applied_by_force_only() {
    let shown = with_mtu(eth("eth0"), 1500);
    let lazy =
        MergedInterface::new(Some(shown.clone()), Some(shown.clone()), None, false).unwrap();
    assert!(lazy.for_apply.is_none());
    let forced = MergedInterface::new(Some(shown.clone()), Some(shown), None, true).unwrap();
    assert_eq!(forced.for_apply.unwrap().base.mtu, Some(1500));
}

#[test]
fn an_apply_that_took_effect_is_not_repeated() {
    let des = with_mtu(eth("eth0"), 9000);
    let first =
        MergedInterface::new(Some(des.clone()), Some(with_mtu(eth("eth0"), 1500)), None, false)
            .unwrap();
    assert!(first.for_apply.is_some());
    let second = MergedInterface::new(Some(des), Some(first.merged), None, false).unwrap();
    assert!(second.for_apply.is_none());
}

#[test]
fn hardware_is_brought_down_rather_than_deleted() {
    let des = with_state(eth("eth0"), InterfaceState::Absent);
    let merged = MergedInterface::new(Some(des), Some(eth("eth0")), None, false).unwrap();
    assert_eq!(merged.for_apply.unwrap().base.state, InterfaceState::Down);
    let des = with_state(iface("d0", InterfaceType::Dummy), InterfaceState::Absent);
    let cur = iface("d0", InterfaceType::Dummy);
    let merged = MergedInterface::new(Some(des), Some(cur), None, false).unwrap();
    assert_eq!(merged.for_apply.unwrap().base.state, InterfaceState::Absent);
}

#[test]
fn secrets_are_saved() {
    let mut des = iface("wg0", InterfaceType::Wireguard);
    des.private_key = Some("key".to_string());
    let merged = MergedInterface::new(Some(des), None, None, false).unwrap();
    assert_eq!(merged.for_save.unwrap().private_key.as_deref(), Some("key"));
}

#[test]
fn an_interface_matched_by_its_mac_address_is_saved_under_its_profile() {
    let mut des = eth("eth0");
    des.base.identifier = Some(InterfaceIdentifier::MacAddress);
    des.base.mac_address = Some("00:00:5e:00:53:01".to_string());
    des.base.profile_name = Some("wan".to_string());
    let merged = MergedInterface::new(Some(des), Some(eth("eth0")), None, false).unwrap();
    assert_eq!(merged.for_save.unwrap().name(), "wan");
}

#[test]
fn hiding_secrets_twice_is_the_same_as_once() {
    let mut nic = iface("wlan0", InterfaceType::WifiPhy);
    nic.wifi = Some(WifiConfig {
        ssid: "Home".to_string(),
        password: Some("12345678".to_string()),
        ..Default::default()
    });
    let mut all = merged(vec![nic.clone()], vec![]);
    all.hide_secrets();
    let once = all.clone();
    all.hide_secrets();
    assert_eq!(all, once);
    let mut hidden = nic.clone();
    hidden.hide_secrets();
    let shown = hidden.wifi.clone().unwrap().password;
    assert_eq!(shown.as_deref(), Some(NetworkState::HIDE_SECRET_STR));
    let restored = nic.clone_secret_part().merge_over(&hidden, &hidden);
    assert_eq!(restored, nic);
}

#[test]
fn where_nothing_is_desired_nothing_is_applied() {
    let current = ifaces(vec![eth("eth0"), bond("bond0", &["eth1"]), eth("eth1")]);
    let saved = ifaces(vec![with_mtu(eth("eth0"), 9000), iface("d0", InterfaceType::Dummy)]);
    let all = MergedInterfaces::new_with_force(
        Interfaces::default(),
        current,
        Some(saved.clone()),
        true,
    )
    .unwrap();
    assert!(all.gen_state_for_apply().is_empty());
    assert!(all.generate_revert().unwrap().is_empty());
    assert!(all.verify(&Interfaces::default()).is_ok());
    for iface in saved.to_list() {
        assert_eq!(
            all.gen_state_for_save().find(&iface.base.name, iface.iface_type()),
            Some(&iface)
        );
    }
}

#[test]
fn saved_interfaces_overwrite_nothing() {
    let mut all = merged(vec![with_mtu(eth("eth0"), 9000)], vec![eth("eth0")]);
    let before = all.clone();
    let saved = MergedInterface::new(None, None, Some(with_mtu(eth("eth0"), 1)), false).unwrap();
    let mut registered = saved.clone();
    registered.for_save = Some(ifaces(vec![with_mtu(eth("eth0"), 1)]).to_list()[0].clone());
    all.push(registered);
    assert_eq!(all, before);
}

#[test]
fn an_empty_state_changes_nothing() {
    let mut saved = NetworkState::default();
    saved.description = Some("office".to_string());
    saved.wait_online = Some(NipartWaitOnline::default());
    saved.ifaces = ifaces(vec![with_mtu(eth("eth0"), 9000)]);
    saved.routes = routes(vec![route("198.51.100.0/24", "eth0")]);
    saved.route_rules = rules(vec![rule("192.0.2.0/24", 100)]);
    let mut current = NetworkState::default();
    current.ifaces = ifaces(vec![eth("eth0")]);
    let all = MergedNetworkState::new(
        NetworkState::default(),
        current.clone(),
        Some(saved.clone()),
        NipartApplyOption::default(),
    )
    .unwrap();
    let for_apply = all.gen_state_for_apply();
    assert!(for_apply.ifaces.is_empty());
    assert_eq!(for_apply.routes.config, Some(vec![]));
    assert!(for_apply.route_rules.is_empty());
    assert!(all.verify(&current).is_ok());
    let for_save = all.gen_state_for_save();
    assert_eq!(for_save.description, saved.description);
    assert_eq!(for_save.wait_online, saved.wait_online);
    assert_eq!(for_save.ifaces, saved.ifaces);
    assert_eq!(for_save.routes, saved.routes);
    let revert = all.generate_revert().unwrap();
    assert!(revert.ifaces.is_empty());
    assert_eq!(revert.routes.config, Some(vec![]));
}

#[test]
fn ports_are_brought_up_after_their_controller() {
    let all = merged(
        vec![eth("eth1"), bond("bond0", &["eth1", "bond1"]), bond("bond1", &["eth2"]), eth("eth2")],
        vec![eth("eth1"), eth("eth2")],
    );
    let priority = |name: &str| {
        all.kernel_ifaces.get(&name.to_string()).unwrap().up_priority.unwrap_or(0)
    };
    assert!(priority("eth1") > priority("bond0"));
    assert!(priority("bond1") > priority("bond0"));
    assert!(priority("eth2") > priority("bond1"));
    assert_eq!(
        names(&all.gen_state_for_apply()),
        texts(&["bond0", "eth1", "bond1", "eth2"])
    );
}

#[test]
fn deletions_are_applied_first() {
    let gone = with_state(iface("d0", InterfaceType::Dummy), InterfaceState::Absent);
    let all = merged(
        vec![iface("d1", InterfaceType::Dummy), gone],
        vec![iface("d0", InterfaceType::Dummy)],
    );
    assert_eq!(names(&all.gen_state_for_apply()), texts(&["d0", "d1"]));
}

#[test]
fn nesting_is_limited() {
    let desired = vec![
        eth("eth0"),
        bond("b5", &["eth0"]),
        bond("b4", &["b5"]),
        bond("b3", &["b4"]),
        bond("b2", &["b3"]),
        bond("b1", &["b2"]),
    ];
    let error =
        MergedInterfaces::new(ifaces(desired), ifaces(vec![eth("eth0")]), None).unwrap_err();
    assert_eq!(error.kind(), ErrorKind::InvalidArgument);
    assert!(error.msg().contains("4 levels"));
}

fn alt_name(name: &str) -> AltNameEntry {
    AltNameEntry { name: name.to_string(), state: None }
}

fn with_alt_names(mut iface: Interface, names: Vec<AltNameEntry>) -> Interface {
    iface.base.alt_names = Some(names);
    iface
}

fn alt_name_error(desired: Vec<Interface>, current: Vec<Interface>) -> String {
    let error = MergedInterfaces::new(ifaces(desired), ifaces(current), None).unwrap_err();
    assert_eq!(error.kind(), ErrorKind::InvalidArgument);
    error.msg().to_string()
}

#[test]
fn alternative_names_belong_to_one_interface() {
    let current = vec![eth("eth0"), eth("eth1")];
    let twice = vec![with_alt_names(eth("eth0"), vec![alt_name("a"), alt_name("a")])];
    assert_eq!(
        alt_name_error(twice, current.clone()),
        "Duplicate alt-name a on interface eth0"
    );
    let own = vec![with_alt_names(eth("eth0"), vec![alt_name("eth0")])];
    assert!(alt_name_error(own, current.clone()).contains("cannot be the same"));
    let other = vec![with_alt_names(eth("eth0"), vec![alt_name("eth1")])];
    assert!(alt_name_error(other, current.clone()).contains("interface name of other NIC"));
    let both = vec![
        with_alt_names(eth("eth0"), vec![alt_name("a")]),
        with_alt_names(eth("eth1"), vec![alt_name("a")]),
    ];
    assert_eq!(
        alt_name_error(both, current.clone()),
        "Desired alt-name a for interface eth1 is already used by interface eth0"
    );
    let mut gone = alt_name("a");
    gone.state = Some(AltNameState::Absent);
    let moved = vec![
        with_alt_names(eth("eth0"), vec![gone]),
        with_alt_names(eth("eth1"), vec![alt_name("a")]),
    ];
    let current = vec![with_alt_names(eth("eth0"), vec![alt_name("a")]), eth("eth1")];
    assert!(MergedInterfaces::new(ifaces(moved), ifaces(current), None).is_ok());
}

#[test]
fn a_port_has_no_ip_stack_of_its_own() {
    let error = MergedInterfaces::new(
        ifaces(vec![bond("bond0", &["eth1"]), with_ipv4(eth("eth1"))]),
        ifaces(vec![eth("eth1")]),
        None,
    )
    .unwrap_err();
    assert!(error.msg().contains("cannot have IP enabled as it is attached to controller"));
    let missing = MergedInterfaces::new(
        ifaces(vec![bond("bond0", &["eth9"])]),
        Interfaces::default(),
        None,
    )
    .unwrap_err();
    assert!(missing.msg().contains("Failed to find port eth9"));
    let all = merged(vec![bond("bond0", &["eth1"])], vec![eth("eth1")]);
    let port = all.kernel_ifaces.get(&"eth1".to_string()).unwrap();
    assert_eq!(port.merged.base.controller.as_deref(), Some("bond0"));
    assert_eq!(port.for_apply.as_ref().unwrap().base.controller.as_deref(), Some("bond0"));
}

#[test]
fn a_former_port_is_detached() {
    let mut port = eth("eth1");
    port.base.controller = Some("bond0".to_string());
    port.base.controller_type = Some(InterfaceType::Bond);
    let all = merged(
        vec![bond("bond0", &["eth2"])],
        vec![bond("bond0", &["eth1"]), port, eth("eth2")],
    );
    let port = all.kernel_ifaces.get(&"eth1".to_string()).unwrap();
    assert_eq!(port.for_apply.as_ref().unwrap().base.controller.as_deref(), Some(""));
    assert!(port.merged.base.controller.is_none());
}

#[test]
fn verification_names_what_is_not_shown() {
    let all = merged(vec![with_mtu(eth("eth0"), 9000)], vec![with_mtu(eth("eth0"), 1500)]);
    let error = all.verify(&ifaces(vec![with_mtu(eth("eth0"), 1500)])).unwrap_err();
    assert_eq!(error.kind(), ErrorKind::VerificationError);
    assert_eq!(error.msg(), "Interface eth0/ethernet does not show the desired mtu");
    assert!(all.verify(&ifaces(vec![with_mtu(eth("eth0"), 9000)])).is_ok());
    let missing = all.verify(&Interfaces::default()).unwrap_err();
    assert_eq!(missing.msg(), "Failed to find desired interface eth0 Ethernet");
    let gone = with_state(iface("d0", InterfaceType::Dummy), InterfaceState::Absent);
    let cur = ifaces(vec![iface("d0", InterfaceType::Dummy)]);
    let all = MergedInterfaces::new(ifaces(vec![gone]), cur.clone(), None).unwrap();
    assert_eq!(
        all.verify(&cur).unwrap_err().msg(),
        "Absent/Down interface d0/dummy still found as Dummy"
    );
    assert!(all.verify(&Interfaces::default()).is_ok());
}

#[test]
fn userspace_interfaces_are_verified_before_those_of_the_kernel() {
    let mut cfg = iface("home", InterfaceType::WifiCfg);
    cfg.wifi = Some(WifiConfig {
        ssid: "home".to_string(),
        password: None,
        base_iface: None,
        hidden: false,
    });
    let all = merged(vec![with_mtu(eth("eth0"), 9000), cfg], vec![eth("eth0")]);
    let error = all.verify(&Interfaces::default()).unwrap_err();
    assert_eq!(error.msg(), "Failed to find desired interface home WifiCfg");
}

#[test]
fn sanitizing_an_ip_configuration_twice_is_the_same_as_once() {
    let mut ipv6 = InterfaceIpv6 {
        enabled: Some(false),
        addresses: Some(vec![InterfaceIpAddr {
            ip: parse_ip_addr("2001:db8::1").unwrap(),
            prefix_length: 64,
        }]),
        ..Default::default()
    };
    ipv6.sanitize();
    let once = ipv6.clone();
    ipv6.sanitize();
    assert_eq!(ipv6, once);
    assert_eq!(ipv6, InterfaceIpv6::new_disabled());
    let mut ipv4 = InterfaceIpv4 {
        dhcp: Some(true),
        auto_route_metric: Some(-2),
        ..Default::default()
    };
    let error = ipv4.sanitize().unwrap_err();
    assert_eq!(error.kind(), ErrorKind::InvalidArgument);
    assert!(error.msg().contains("Invalid auto-route-metric -2"));
}

#[test]
fn static_addresses_go_when_addresses_are_learned() {
    let old = InterfaceIpv4 {
        enabled: Some(true),
        addresses: Some(vec![InterfaceIpAddr {
            ip: parse_ip_addr("192.0.2.1").unwrap(),
            prefix_length: 24,
        }]),
        ..Default::default()
    };
    let des = InterfaceIpv4 { enabled: Some(true), dhcp: Some(true), ..Default::default() };
    let merged =
        merge_ipv4(&Some(des.clone()), &Some(old.clone()), &Some(old.clone())).unwrap();
    assert_eq!(merged.dhcp, Some(true));
    assert!(merged.addresses.is_none());
    assert_eq!(merge_ipv4(&None, &Some(old.clone()), &None), Some(old));
    assert_eq!(merge_ipv6(&None, &None, &None), None);
}

#[test]
fn saved_routes_survive_unless_they_are_removed() {
    let ifaces = merged(vec![], vec![with_ipv4(eth("eth0"))]);
    let saved = routes(vec![route("198.51.100.0/24", "eth0"), route("203.0.113.0/24", "eth0")]);
    let desired =
        routes(vec![route("192.0.2.0/24", "eth0"), absent_route("203.0.113.0/24", "eth0")]);
    let all = MergedRoutes::new(desired, Routes::new(), Some(saved), &ifaces).unwrap();
    assert_eq!(
        all.gen_state_for_save().config.unwrap(),
        vec![route("192.0.2.0/24", "eth0"), route("198.51.100.0/24", "eth0")]
    );
}

#[test]
fn routes_are_added_and_removed_and_back() {
    let ifaces = merged(vec![], vec![with_ipv4(eth("eth0"))]);
    let current = routes(vec![route("203.0.113.0/24", "eth0")]);
    let desired =
        routes(vec![route("192.0.2.0/24", "eth0"), absent_route("203.0.113.0/24", "eth0")]);
    let all = MergedRoutes::new(desired, current, None, &ifaces).unwrap();
    assert!(all.is_changed());
    assert_eq!(
        all.changed_routes,
        vec![absent_route("203.0.113.0/24", "eth0"), route("192.0.2.0/24", "eth0")]
    );
    assert_eq!(
        all.generate_revert().unwrap().config.unwrap(),
        vec![route("203.0.113.0/24", "eth0"), absent_route("192.0.2.0/24", "eth0")]
    );
    assert_eq!(all.route_changed_ifaces, texts(&["eth0"]));
}

#[test]
fn routes_need_a_usable_next_hop() {
    let ifaces = merged(vec![], vec![eth("eth0")]);
    let new = |desired: RouteEntry| {
        MergedRoutes::new(routes(vec![desired]), Routes::new(), None, &ifaces).unwrap_err()
    };
    let off = new(route("192.0.2.0/24", "eth0"));
    assert!(off.msg().contains("has been marked as IPv4 disabled"));
    let unknown = new(route("192.0.2.0/24", "eth9"));
    assert_eq!(unknown.kind(), ErrorKind::InvalidArgument);
    assert!(unknown.msg().contains("Failed to find kernel interface name"));
    let mut nowhere = route("192.0.2.0/24", "eth0");
    nowhere.next_hop_iface = None;
    assert!(new(nowhere.clone()).msg().contains("empty next hop interface"));
    nowhere.route_type = Some(RouteType::Blackhole);
    nowhere.next_hop_addr = Some("192.0.2.1".to_string());
    assert!(new(nowhere).msg().contains("cannot have a next hop"));
    let mut vrf = route("192.0.2.0/24", "eth0");
    vrf.vrf_name = Some("vrf0".to_string());
    assert!(new(vrf).msg().contains("Failed to find the route table of VRF vrf0"));
}

#[test]
fn routes_match_what_they_leave_open() {
    let mut any = route("192.0.2.0/24", "eth0");
    assert!(any.is_match(&any));
    any.destination = None;
    any.next_hop_iface = None;
    assert!(any.is_match(&route("198.51.100.0/24", "eth7")));
    assert!(!route("192.0.2.0/24", "eth0").is_match(&route("192.0.2.0/24", "eth1")));
}

#[test]
fn sanitizing_routes_and_rules_twice_is_the_same_as_once() {
    let mut rt = route("192.0.2.9/24", "eth0");
    rt.next_hop_addr = Some("2001:DB8:0::1".to_string());
    rt.sanitize().unwrap();
    assert_eq!(rt.destination.as_deref(), Some("192.0.2.0/24"));
    assert_eq!(rt.next_hop_addr.as_deref(), Some("2001:db8::1"));
    let once = rt.clone();
    rt.sanitize().unwrap();
    assert_eq!(rt, once);
    let mut bad = route("192.0.2.0/33", "eth0");
    assert_eq!(bad.sanitize().unwrap_err().msg(), "Invalid IP network 192.0.2.0/33");
    let mut entry = rule("2001:db8::ff/64", 0);
    entry.table_id = None;
    entry.sanitize().unwrap();
    assert_eq!(entry.ip_from.as_deref(), Some("2001:db8::/64"));
    assert_eq!(entry.family, Some(AddressFamily::Ipv6));
    assert_eq!(entry.table_id, Some(254));
    let once = entry.clone();
    entry.sanitize().unwrap();
    assert_eq!(entry, once);
    assert!(entry.is_match(&entry));
}

#[test]
fn routes_do_not_differ_from_themselves() {
    let list = routes(vec![route("192.0.2.0/24", "eth0"), route("::/0", "eth0")]);
    assert_eq!(list.gen_diff(&list).config, Some(vec![]));
}

#[test]
fn rules_get_priorities_after_existing_ones() {
    let mut existing = rule("192.0.2.0/24", 100);
    existing.priority = Some(31000);
    let mut known = rule("192.0.2.0/24", 100);
    let mut fixed = rule("198.51.100.0/24", 100);
    fixed.priority = Some(7);
    known.family = None;
    let mut list = vec![known, fixed, rule("203.0.113.0/24", 100)];
    set_auto_priority(&mut list, &vec![existing]);
    let priorities: Vec<Option<i64>> = list.iter().map(|rule| rule.priority).collect();
    assert_eq!(priorities, vec![Some(31000), Some(7), Some(31001)]);
}

#[test]
fn rules_are_saved_changed_and_reverted() {
    let mut gone = rule("198.51.100.0/24", 100);
    gone.state = Some(RouteRuleState::Absent);
    let mut old = rule("198.51.100.0/24", 100);
    old.family = Some(AddressFamily::Ipv4);
    old.priority = Some(30500);
    let all = MergedRouteRules::new(
        rules(vec![rule("192.0.2.0/24", 100), gone]),
        rules(vec![old.clone()]),
        Some(rules(vec![rule("203.0.113.0/24", 100), old.clone()])),
    )
    .unwrap();
    assert_eq!(all.changed_rules.len(), 2);
    assert!(all.changed_rules[0].is_absent());
    assert_eq!(all.changed_rules[1].priority, Some(30501));
    let saved: Vec<String> = all
        .gen_state_for_save()
        .config
        .unwrap()
        .iter()
        .map(|rule| rule.ip_from.clone().unwrap())
        .collect();
    assert_eq!(saved, texts(&["192.0.2.0/24", "203.0.113.0/24"]));
    let undo = all.generate_revert().unwrap().config.unwrap();
    assert_eq!(undo.len(), 2);
    assert!(undo[0].is_absent());
    assert_eq!(undo[0].ip_from.as_deref(), Some("192.0.2.0/24"));
    assert_eq!(undo[1], old);
    let changes = all.list_changes();
    assert!(changes[0].is_absent());
    assert!(!changes[1].is_absent());
    let error = all.verify(&rules(vec![old.clone()])).unwrap_err();
    assert_eq!(error.kind(), ErrorKind::VerificationError);
    assert!(error.msg().contains("not found after apply"));
    let mut shown = all.changed_rules[1].clone();
    assert!(all.verify(&rules(vec![shown.clone()])).is_ok());
    shown.state = None;
    let error = all.verify(&rules(vec![shown, old])).unwrap_err();
    assert!(error.msg().contains("still found after apply"));
}

#[test]
fn rules_that_are_not_mentioned_stay() {
    let current = rules(vec![rule("192.0.2.0/24", 100)]);
    let all = MergedRouteRules::new(RouteRules::new(), current.clone(), Some(current)).unwrap();
    assert!(!all.is_changed());
    assert!(all.generate_revert().unwrap().is_empty());
    assert_eq!(all.gen_state_for_save().config.unwrap().len(), 1);
}

#[test]
fn merging_rules_replaces_what_an_absent_one_matches() {
    let mut gone = rule("192.0.2.0/24", 100);
    gone.state = Some(RouteRuleState::Absent);
    let old = rules(vec![rule("192.0.2.0/24", 100), rule("198.51.100.0/24", 100)]);
    let all = old.merge(&rules(vec![gone, rule("203.0.113.0/24", 100)])).unwrap();
    let left: Vec<String> =
        all.config.unwrap().iter().map(|rule| rule.ip_from.clone().unwrap()).collect();
    assert_eq!(left, texts(&["198.51.100.0/24", "203.0.113.0/24"]));
}

#[test]
fn cache_groups_have_names_and_domains_of_their_own() {
    let error = |groups| cache(groups).validate("").unwrap_err().msg().to_string();
    assert_eq!(error(vec![group("", &[])]), "DNS cache group name cannot be empty");
    assert_eq!(
        error(vec![group("a", &[]), group("a", &[])]),
        "Duplicate DNS cache group name: a"
    );
    assert_eq!(
        error(vec![group("a", &["Example.org"]), group("b", &["example.ORG"])]),
        "DNS cache domain 'Example.org' of group 'a' overlaps with domain 'example.ORG' of \
         group 'b'"
    );
    assert!(cache(vec![group("a", &["x"]), group("b", &["y"])]).validate("").is_ok());
}

#[test]
fn an_enabled_cache_is_asked_first() {
    let mut enabled = cache(vec![]);
    enabled.enabled = true;
    let mut state = DnsResolver { running: None, config: None, cache: Some(enabled) };
    let error = state.validate("").unwrap_err();
    assert!(error.msg().contains("dns-resolver.config.server is not defined"));
    let config = |server: &str| DnsResolverClient {
        server: Some(vec![server.to_string()]),
        search: None,
        options: None,
    };
    state.config = Some(config("192.0.2.53"));
    let error = state.validate("").unwrap_err();
    assert!(error.msg().contains("127.0.0.1:53 must be the first entry"));
    state.config = Some(config("127.0.0.1"));
    assert!(state.validate("").is_ok());
}

#[test]
fn hostnames_of_doh_servers_have_to_be_resolvable() {
    let mut wanting = cache(vec![]);
    wanting.fallback = NipartDnsFallback {
        auto_dns: true,
        nameservers: vec!["https://DNS.Example.org/dns-query".to_string()],
        disable_ipv6: false,
    };
    assert_eq!(wanting.doh_hostnames(), texts(&["dns.example.org"]));
    let error = wanting.validate("").unwrap_err();
    assert!(error.msg().contains("[\"dns.example.org\"]"), "{}", error.msg());
    assert!(wanting.validate("192.0.2.1 dns.EXAMPLE.org # home\n").is_ok());
    assert!(wanting.validate("# 192.0.2.1 dns.example.org\n").is_err());
    wanting.doh = Some(NipartDnsDoh { nameservers: vec![], disable_ipv6: false });
    assert!(wanting.validate("").is_err());
    wanting.doh = Some(NipartDnsDoh {
        nameservers: vec![parse_ip_addr("192.0.2.53").unwrap()],
        disable_ipv6: false,
    });
    assert!(wanting.validate("").is_ok());
    assert!(host_in_hosts_file("b", "192.0.2.1 a b\n"));
    assert!(!host_in_hosts_file("192.0.2.1", "192.0.2.1 a b\n"));
    assert_eq!(
        doh_url_host("https://user@[2001:db8::1]:8443/q").as_deref(),
        Some("2001:db8::1")
    );
}

#[test]
fn merging_dns_states_goes_from_left_to_right() {
    let client = |server: &str| {
        Some(DnsResolverClient {
            server: Some(vec![server.to_string()]),
            search: None,
            options: None,
        })
    };
    let a = DnsResolver { running: None, config: client("192.0.2.1"), cache: None };
    let b = DnsResolver { running: None, config: None, cache: Some(cache(vec![])) };
    let mut ab = a.clone();
    ab.merge(&b).unwrap();
    assert_eq!(ab.config, a.config);
    assert_eq!(ab.cache, b.cache);
    let mut same = ab.clone();
    same.merge(&DnsResolver::default()).unwrap();
    assert_eq!(same, ab);
}

#[test]
fn static_nameservers_replace_and_dynamic_ones_stay() {
    let client = |servers: &[&str]| {
        Some(DnsResolverClient { server: Some(texts(servers)), search: None, options: None })
    };
    let current = DnsResolver {
        running: client(&["192.0.2.1", "198.51.100.1"]),
        config: client(&["192.0.2.1"]),
        cache: None,
    };
    let desired = DnsResolver { running: None, config: client(&["203.0.113.1"]), cache: None };
    let all = MergedDnsResolver::new(desired, current.clone(), None).unwrap();
    assert_eq!(all.config().server, Some(texts(&["203.0.113.1"])));
    assert_eq!(all.apply_dynamic_servers(), texts(&["198.51.100.1"]));
    let purge = DnsResolver {
        running: None,
        config: Some(DnsResolverClient::default()),
        cache: None,
    };
    let all = MergedDnsResolver::new(purge, current.clone(), None).unwrap();
    assert_eq!(all.config().server, Some(vec![]));
    let keep = MergedDnsResolver::new(DnsResolver::default(), current, None).unwrap();
    assert!(keep.is_unchanged());
    assert_eq!(keep.config().server, Some(texts(&["192.0.2.1"])));
}

#[test]
fn addresses_are_read_back_as_they_are_written() {
    for text in [
        "0.0.0.0",
        "192.0.2.1",
        "255.255.255.255",
        "::",
        "::1",
        "1::",
        "2001:db8::1",
        "2001:db8:0:1::",
        "1:2:3:4:5:6:7:8",
        "1:0:3:0:5:0:7:0",
        "fe80::1:0:0:1",
        "::ffff:192.0.2.1",
        "::1.2.3.4",
    ] {
        let ip = parse_ip_addr(text).unwrap();
        assert_eq!(parse_ip_addr(&ip.to_text()), Some(ip), "{text}");
    }
    assert_eq!(parse_ip_addr("2001:DB8:0:0:0:0:0:1").unwrap().to_text(), "2001:db8::1");
    assert_eq!(parse_ip_addr("1:0:0:4:0:0:0:8").unwrap().to_text(), "1:0:0:4::8");
    assert_eq!(parse_ip_addr("192.0.2.1"), Some(IpAddr::V4(0xc000_0201)));
    for text in ["", "1.2.3", "1.2.3.04", "256.1.1.1", ":::", "1::2::3", "12345::", "g::"] {
        assert_eq!(parse_ip_addr(text), None, "{text}");
    }
}

#[test]
fn socket_addresses_are_read_back_as_they_are_written() {
    for text in ["192.0.2.1:53", "[2001:db8::1]:853", "[fe80::1%7]:53"] {
        let address = parse_socket_addr(text).unwrap();
        assert_eq!(address.to_text(), text);
        assert_eq!(parse_socket_addr(&address.to_text()), Some(address));
    }
    let scoped = parse_socket_addr("[fe80::1%7]:53").unwrap();
    assert_eq!(
        scoped,
        SocketAddr { ip: parse_ip_addr("fe80::1").unwrap(), port: 53, scope_id: 7 }
    );
    for text in ["192.0.2.1", "192.0.2.1:65536", "2001:db8::1:53", "[2001:db8::1]53"] {
        assert_eq!(parse_socket_addr(text), None, "{text}");
    }
}

#[test]
fn nameservers_are_read_back_as_they_are_written() {
    for text in ["192.0.2.1", "192.0.2.1:5353", "2001:db8::1", "https://dns.example.org/q"] {
        let server = DnsUpstreamServer::parse(text).unwrap();
        assert_eq!(server.to_text(), text);
        assert_eq!(DnsUpstreamServer::parse(&server.to_text()), Ok(server));
    }
    let error = DnsUpstreamServer::parse("fe80::1%eth0").unwrap_err();
    assert!(error.msg().contains("interface name is not supported"));
    assert_eq!(
        DnsUpstreamServer::parse("example.org").unwrap_err().msg(),
        "Invalid DNS server string example.org"
    );
    assert!(parse_dns_server("fe80::1%eth0").is_ok());
    assert!(parse_dns_server("2001:db8::1%eth0").is_err());
}

#[test]
fn networks_are_written_in_one_form() {
    for (text, canonical) in [
        ("192.0.2.77/24", "192.0.2.0/24"),
        ("192.0.2.77", "192.0.2.77/32"),
        ("2001:db8::ff/64", "2001:db8::/64"),
        ("::/0", "::/0"),
        ("255.255.255.255/0", "0.0.0.0/0"),
    ] {
        assert_eq!(canonical_ip_network(text).as_deref(), Some(canonical));
        assert_eq!(canonical_ip_network(canonical).as_deref(), Some(canonical));
    }
    assert_eq!(canonical_ip_network("192.0.2.0/33"), None);
    assert_eq!(
        sanitize_ip_network("nowhere").unwrap_err().msg(),
        "Invalid IP network nowhere"
    );
    assert!(is_ipv6_addr("::/0"));
    assert!(!is_ipv6_addr("0.0.0.0/0"));
}

#[test]
fn extracted_secrets_hold_nothing_else() {
    let mut vpn = iface("wg0", InterfaceType::Wireguard);
    vpn.private_key = Some("key".to_string());
    vpn.base.mtu = Some(1420);
    let mut state = NetworkState::default();
    state.description = Some("office".to_string());
    state.ifaces = ifaces(vec![vpn, eth("eth0")]);
    let original = state.clone();
    let secrets = state.extract_secrets().unwrap();
    assert_eq!(names(&secrets.ifaces), texts(&["wg0"]));
    let part = secrets.ifaces.to_list()[0].clone();
    assert_eq!(part.private_key.as_deref(), Some("key"));
    assert_eq!(part.base.mtu, None);
    assert!(secrets.description.is_none());
    assert_ne!(state, original);
    state.merge(&secrets).unwrap();
    assert_eq!(state, original);
    let mut plain = NetworkState::default();
    assert_eq!(plain.extract_secrets(), None);
}

#[test]
fn a_refused_merge_stops_where_it_fails() {
    let mut before = NetworkState::default();
    before.description = Some("old".to_string());
    before.ifaces = ifaces(vec![eth("eth0")]);
    let mut new = NetworkState::default();
    new.description = Some("new".to_string());
    new.ifaces = ifaces(vec![eth("eth1")]);
    new.routes = routes(vec![route("192.0.2.0/24", "eth0")]);
    new.route_rules = rules(vec![rule("nowhere", 100)]);
    new.wait_online = Some(NipartWaitOnline::default());
    let mut state = before.clone();
    assert_eq!(state.merge(&new).unwrap_err().kind(), ErrorKind::InvalidArgument);
    let mut left = before.clone();
    left.description = Some("new".to_string());
    left.routes = new.routes.clone();
    assert_eq!(state, left);
    new.routes.config.as_mut().unwrap()[0].next_hop_iface = None;
    let mut state = before.clone();
    assert!(state.merge(&new).is_err());
    left.routes = before.routes;
    assert_eq!(state, left);
}

#[test]
fn a_state_does_not_differ_from_itself() {
    let mut state = NetworkState::default();
    state.ifaces = ifaces(vec![eth("eth0")]);
    state.routes = routes(vec![route("192.0.2.0/24", "eth0")]);
    let diff = state.gen_diff(&state).unwrap();
    assert!(diff.ifaces.is_empty());
    assert_eq!(diff.routes.config, Some(vec![]));
}

#[test]
fn interfaces_that_are_not_ready_are_held_back() {
    let nic = with_ipv4(with_mtu(eth("eth0"), 9000));
    let mut desired = NetworkState::default();
    desired.ifaces = ifaces(vec![nic, with_mtu(eth("eth1"), 9000)]);
    desired.routes = routes(vec![route("192.0.2.0/24", "eth0")]);
    let mut current = NetworkState::default();
    current.ifaces = ifaces(vec![eth("eth0"), eth("eth1")]);
    let mut all =
        MergedNetworkState::new(desired, current, None, NipartApplyOption::default()).unwrap();
    assert_eq!(all.routes.changed_routes.len(), 1);
    let mut held = all.ifaces.kernel_ifaces.get(&"eth0".to_string()).unwrap().clone();
    held.ready = false;
    all.ifaces.kernel_ifaces.insert("eth0".to_string(), held);
    all.remove_conditional_activation();
    assert_eq!(names(&all.gen_state_for_apply().ifaces), texts(&["eth1"]));
    assert!(all.routes.changed_routes.is_empty());
}

#[test]
fn any_gateway_is_one_of_ipv4_or_of_ipv6() {
    let mut nic = eth("eth0");
    nic.base.link_state = Some(InterfaceLinkState::Up);
    let mut state = NetworkState::default();
    state.ifaces = ifaces(vec![nic]);
    let met = |state: &NetworkState| {
        [
            NipartWaitOnlineCondition::Gateway.is_met(state),
            NipartWaitOnlineCondition::Gateway4.is_met(state),
            NipartWaitOnlineCondition::Gateway6.is_met(state),
        ]
    };
    assert_eq!(met(&state), [false, false, false]);
    state.routes.running = Some(vec![route("0.0.0.0/0", "eth0")]);
    assert_eq!(met(&state), [true, true, false]);
    state.routes.running = Some(vec![route("::/0", "eth0")]);
    assert_eq!(met(&state), [true, false, true]);
    state.routes.running = Some(vec![route("::/0", "eth9")]);
    assert_eq!(met(&state), [false, false, false]);
}

#[test]
fn wifi_devices_stand_for_their_configurations() {
    let wifi = |ssid: &str, base_iface: Option<&str>| {
        Some(WifiConfig {
            ssid: ssid.to_string(),
            password: None,
            base_iface: base_iface.map(str::to_string),
            hidden: false,
        })
    };
    let mut phy = iface("wlan0", InterfaceType::WifiPhy);
    phy.base.link_state = Some(InterfaceLinkState::Up);
    phy.wifi = wifi("Home", None);
    let mut cfg = iface("home", InterfaceType::WifiCfg);
    cfg.wifi = wifi("Home", None);
    let current = ifaces(vec![phy.clone()]);
    assert!(wifi_cfg_matches_phy(&cfg, &current.to_list()[0]));
    assert_eq!(
        find_connected_wifi_phy_for_cfg(&current, &cfg),
        Some(current.to_list()[0].clone())
    );
    cfg.wifi = wifi("Home", Some("wlan1"));
    assert_eq!(find_connected_wifi_phy_for_cfg(&current, &cfg), None);
    cfg.wifi = wifi("Office", None);
    assert!(!wifi_cfg_matches_phy(&cfg, &current.to_list()[0]));
}

fn kernel_rule() -> KernelRule {
    KernelRule {
        action: KernelRuleAction::Table,
        address_family: KernelRuleFamily::Ipv4,
        protocol: Some(KernelRuleProtocol::Static),
        table: Some(100),
        dst: None,
        src: Some("192.0.2.0/24".to_string()),
        iif: None,
        priority: Some(30000),
        fw_mark: None,
        fw_mask: None,
        suppress_prefix_len: None,
    }
}

#[test]
fn rules_of_other_programs_are_not_shown() {
    let mut other = kernel_rule();
    other.protocol = Some(KernelRuleProtocol::Other);
    let mut hole = kernel_rule();
    hole.action = KernelRuleAction::Blackhole;
    hole.table = None;
    let shown = get_route_rules(&vec![kernel_rule(), other, hole, kernel_rule()]);
    let list = shown.config.unwrap();
    assert_eq!(list.len(), 2);
    assert!(list.iter().all(|rule| !rule.is_absent()));
    assert!(list.iter().any(|rule| rule.action == Some(RouteRuleAction::Blackhole)));
    assert!(list.iter().any(|rule| rule.table_id == Some(100)));
}

#[test]
fn rules_are_written_for_the_kernel() {
    let mut entry = rule("192.0.2.0/24", 1000);
    entry.priority = Some(30001);
    entry.iif = Some("eth0".to_string());
    let message = nipart_rule_to_netlink_rule(&entry).unwrap();
    assert_eq!(message.family, AddressFamily::Ipv4);
    assert_eq!(message.src_len, 24);
    assert_eq!(message.dst_len, 0);
    assert_eq!(
        message.attributes,
        vec![
            RuleAttribute::Table(1000),
            RuleAttribute::Source(parse_ip_addr("192.0.2.0").unwrap()),
            RuleAttribute::Priority(30001),
            RuleAttribute::Iifname("eth0".to_string()),
        ]
    );
    assert_eq!(
        parse_ip_network("2001:db8::/32", true).unwrap(),
        (parse_ip_addr("2001:db8::").unwrap(), 32)
    );
    assert!(parse_ip_network("192.0.2.0", false).is_err());
    assert!(parse_ip_network("192.0.2.0/x", false).unwrap_err().msg().contains("invalid digit"));
    assert!(parse_ip_network("192.0.2.0/256", false).unwrap_err().msg().contains("too large"));
    assert!(parse_ip_network("192.0.2.0/24", true).is_err());
}

#[test]
fn the_kernel_applies_what_it_knows() {
    let types = NipartNoDaemon::supported_iface_types();
    assert_eq!(types.len(), 11);
    assert!(types.contains(&InterfaceType::Bond));
    assert!(!types.contains(&InterfaceType::WifiCfg));
    assert!(!types.contains(&InterfaceType::OvsBridge));
}

#[test]
fn commands_name_their_kind_and_hide_secrets() {
    assert_eq!(NipartPluginCmd::QueryPluginInfo.ipc_kind(), "query-plugin-info");
    assert_eq!(NipartPluginCmd::SystemResume.ipc_kind(), "system-resume");
    assert_eq!(
        NipartPluginCmd::WifiControl(NipartWifiControl::Off).ipc_kind(),
        "wifi-control"
    );
    let query =
        NipartPluginCmd::QueryNetworkState(Box::new((NipartQueryOption {}, NetworkState::default())));
    assert_eq!(query.ipc_kind(), "query-network-state");
    let mut vpn = iface("wg0", InterfaceType::Wireguard);
    vpn.private_key = Some("key".to_string());
    let mut state = NetworkState::default();
    state.ifaces = ifaces(vec![vpn]);
    let mut command =
        NipartPluginCmd::ApplyNetworkState(Box::new((state.clone(), NipartApplyOption::default())));
    command.hide_secrets();
    state.hide_secrets();
    assert_eq!(
        command,
        NipartPluginCmd::ApplyNetworkState(Box::new((state, NipartApplyOption::default())))
    );
    let error = no_support("sim", "wifi_scan");
    assert_eq!(error.kind(), ErrorKind::NoSupport);
    assert_eq!(error.msg(), "Plugin sim has not implemented wifi_scan()");
}

#[test]
fn interfaces_are_listed_by_what_holds_of_them() {
    let all = merged(vec![with_mtu(eth("eth0"), 9000)], vec![eth("eth0"), eth("eth1")]);
    assert_eq!(list_flagged(&all, IfaceFlag::Desired), texts(&["eth0"]));
    assert_eq!(list_flagged(&all, IfaceFlag::Ipv4Disabled), texts(&["eth0", "eth1"]));
    assert_eq!(keep_names(&texts(&["a", "b", "c"]), &texts(&["b"])), texts(&["a", "c"]));
}

#[test]
fn saved_interfaces_are_not_lost_when_others_are_desired() {
    let mut port = with_ipv4(eth("eth0"));
    port.base.kernel_iface_name = "eth0".to_string();
    let mut other = with_mtu(eth("eth9"), 1400);
    other.base.kernel_iface_name = "eth9".to_string();
    let merged = MergedInterfaces::new(
        ifaces(vec![bond("bond0", &["eth0"])]),
        ifaces(vec![eth("eth0")]),
        Some(ifaces(vec![port, other])),
    )
    .unwrap();
    let saved = merged.gen_state_for_save();
    let eth0 = saved.find(&"eth0".to_string(), InterfaceType::Ethernet).unwrap();
    assert!(eth0.base.ipv4.is_none());
    let eth9 = saved.find(&"eth9".to_string(), InterfaceType::Ethernet).unwrap();
    assert_eq!(eth9.base.mtu, Some(1400));
    assert!(saved.find(&"bond0".to_string(), InterfaceType::Bond).is_some());
}

#[test]
fn an_apply_that_took_effect_passes_verification() {
    let desired = vec![
        with_mtu(eth("eth0"), 9000),
        with_state(iface("dummy0", InterfaceType::Dummy), InterfaceState::Absent),
    ];
    let current = vec![eth("eth0"), iface("dummy0", InterfaceType::Dummy)];
    let merged = merged(desired, current.clone());
    assert_eq!(
        merged.verify(&ifaces(current)).unwrap_err().kind(),
        ErrorKind::VerificationError
    );
    assert!(merged.verify(&ifaces(vec![with_mtu(eth("eth0"), 9000)])).is_ok());
}

#[test]
fn rules_differ_by_what_no_old_rule_matches() {
    let old = rules(vec![rule("192.0.2.0/24", 100)]);
    let new = rules(vec![rule("192.0.2.0/24", 100), rule("198.51.100.0/24", 200)]);
    assert_eq!(new.gen_diff(&old), rules(vec![rule("198.51.100.0/24", 200)]));
    assert_eq!(new.gen_diff(&new), rules(vec![]));
}

#[test]
fn rules_are_verified_one_by_one() {
    let mut absent = rule("198.51.100.0/24", 200);
    absent.state = Some(RouteRuleState::Absent);
    let mut present = rule("198.51.100.0/24", 200);
    present.priority = Some(300);
    let merged = MergedRouteRules::new(
        rules(vec![rule("192.0.2.0/24", 100), absent]),
        rules(vec![present.clone()]),
        None,
    )
    .unwrap();
    let added = rule("192.0.2.0/24", 100);
    assert!(merged.verify(&rules(vec![added.clone()])).is_ok());
    assert!(merged.verify(&rules(vec![])).unwrap_err().msg().contains("not found"));
    assert!(
        merged
            .verify(&rules(vec![added, present]))
            .unwrap_err()
            .msg()
            .contains("still found")
    );
}

#[test]
fn four_nested_levels_are_brought_up_in_any_order() {
    let desired = vec![
        eth("eth0"),
        bond("b4", &["eth0"]),
        bond("b3", &["b4"]),
        bond("b2", &["b3"]),
        bond("b1", &["b2"]),
    ];
    let merged =
        MergedInterfaces::new(ifaces(desired), ifaces(vec![eth("eth0")]), None).unwrap();
    assert_eq!(
        names(&merged.gen_state_for_apply()),
        texts(&["b1", "b2", "b3", "b4", "eth0"])
    );
}

#[test]
fn a_renamed_interface_keeps_its_former_name() {
    let mut current = eth("eth0");
    current.base.mac_address = Some("02:00:00:00:00:01".to_string());
    let mut desired = eth("uplink");
    desired.base.identifier = Some(InterfaceIdentifier::MacAddress);
    desired.base.mac_address = Some("02:00:00:00:00:01".to_string());
    desired.base.kernel_iface_name = "wan0".to_string();
    let merged = merged(vec![desired], vec![current]);
    let applied = merged.gen_state_for_apply();
    let wan0 = applied.find(&"wan0".to_string(), InterfaceType::Ethernet).unwrap();
    assert_eq!(wan0.base.alt_names, Some(vec![alt_name("eth0")]));
    assert_eq!(wan0.base.profile_name.as_deref(), Some("uplink"));
}

fn blackhole(destination: &str) -> RouteEntry {
    let mut rt = route(destination, "");
    rt.next_hop_iface = None;
    rt.route_type = Some(RouteType::Blackhole);
    rt
}

#[test]
fn routes_without_a_next_hop_go_by_an_absent_one() {
    let mut gone = blackhole("192.0.2.0/24");
    gone.state = Some(RouteState::Absent);
    let current = routes(vec![blackhole("192.0.2.0/24"), blackhole("198.51.100.0/24")]);
    let ifaces = merged(vec![], vec![]);
    let all = MergedRoutes::new(routes(vec![gone.clone()]), current, None, &ifaces).unwrap();
    assert!(all.is_changed());
    assert_eq!(all.changed_routes, vec![gone]);
    assert!(all.merged.is_empty());
    assert_eq!(
        all.generate_revert().unwrap().config.unwrap(),
        vec![blackhole("192.0.2.0/24")]
    );
    let new = routes(vec![blackhole("203.0.113.0/24")]);
    let all = MergedRoutes::new(new, Routes::new(), None, &ifaces).unwrap();
    assert_eq!(
        all.merged.get(&"lo".to_string()),
        Some(&vec![blackhole("203.0.113.0/24")])
    );
}

#[test]
fn what_is_undefined_is_no_difference() {
    let mut old = NetworkState::default();
    old.description = Some("old".to_string());
    old.wait_online = Some(NipartWaitOnline::default());
    old.route_rules = rules(vec![rule("192.0.2.0/24", 100)]);
    let diff = NetworkState::default().gen_diff(&old).unwrap();
    assert_eq!(diff.description, None);
    assert_eq!(diff.wait_online, None);
    assert_eq!(diff.route_rules, rules(vec![]));
    let same = old.gen_diff(&old).unwrap();
    assert_eq!(same.description, None);
    assert_eq!(same.wait_online, None);
    assert_eq!(same.route_rules, rules(vec![]));
    let mut new = old.clone();
    new.description = Some("new".to_string());
    new.route_rules = rules(vec![rule("192.0.2.0/24", 100), rule("198.51.100.0/24", 100)]);
    let diff = new.gen_diff(&old).unwrap();
    assert_eq!(diff.description.as_deref(), Some("new"));
    assert_eq!(diff.wait_online, None);
    assert_eq!(diff.route_rules, rules(vec![rule("198.51.100.0/24", 100)]));
}

#[test]
fn a_mask_without_a_mark_is_named_with_its_rule() {
    let mut masked = rule("203.0.113.0/24", 500);
    masked.fwmask = Some(16);
    masked.action = Some(RouteRuleAction::Prohibit);
    masked.iif = Some("eth\"0".to_string());
    let error = masked.validate().unwrap_err();
    assert_eq!(error.kind(), ErrorKind::InvalidArgument);
    assert_eq!(
        error.msg(),
        format!("fwmask is present but fwmark is not defined or is zero {masked:?}")
    );
    masked.family = Some(AddressFamily::Ipv6);
    masked.ip_from = None;
    masked.ip_to = Some("2001:db8::/32".to_string());
    masked.priority = Some(-5);
    masked.suppress_prefix_length = Some(0);
    assert!(masked.validate().unwrap_err().msg().ends_with(&format!(" {masked:?}")));
}

#[test]
fn the_address_of_a_saved_cache_is_not_a_dynamic_nameserver() {
    let client = |servers: &[&str]| {
        Some(DnsResolverClient { server: Some(texts(servers)), search: None, options: None })
    };
    let mut saved_cache = cache(vec![]);
    saved_cache.bind = "127.0.0.53:53".to_string();
    let current = DnsResolver {
        running: client(&["127.0.0.53", "198.51.100.1"]),
        config: client(&["192.0.2.1"]),
        cache: None,
    };
    let saved =
        DnsResolver { running: None, config: client(&["192.0.2.1"]), cache: Some(saved_cache) };
    let desired = DnsResolver { running: None, config: client(&["203.0.113.1"]), cache: None };
    let all = MergedDnsResolver::new(desired.clone(), current.clone(), Some(saved)).unwrap();
    assert_eq!(all.previous_static_servers, texts(&["192.0.2.1", "127.0.0.53"]));
    assert_eq!(all.apply_dynamic_servers(), texts(&["198.51.100.1"]));
    let all = MergedDnsResolver::new(desired, current, None).unwrap();
    assert_eq!(all.apply_dynamic_servers(), texts(&["127.0.0.53", "198.51.100.1"]));
}

#[test]
fn only_new_rules_need_room_for_a_priority() {
    let mut top = rule("192.0.2.0/24", 100);
    top.family = Some(AddressFamily::Ipv4);
    top.priority = Some(i64::MAX);
    let current = rules(vec![top]);
    let known = rules(vec![rule("192.0.2.0/24", 100)]);
    assert!(has_priority_room(&known, &current));
    let all = MergedRouteRules::new(known, current.clone(), None).unwrap();
    assert!(!all.is_changed());
    let mut fixed = rule("198.51.100.0/24", 100);
    fixed.priority = Some(7);
    let fixed = rules(vec![fixed]);
    assert!(has_priority_room(&fixed, &current));
    let all = MergedRouteRules::new(fixed, current.clone(), None).unwrap();
    assert_eq!(all.changed_rules[0].priority, Some(7));
    assert!(!has_priority_room(&rules(vec![rule("203.0.113.0/24", 100)]), &current));
}

#[test]
fn a_plain_merge_is_one_without_force() {
    let desired = vec![with_mtu(eth("eth0"), 9000), eth("eth1"), bond("bond0", &["eth1"])];
    let current = vec![with_mtu(eth("eth0"), 1500), eth("eth1")];
    let saved = vec![with_mtu(eth("eth1"), 1400), eth("eth2")];
    let plain = MergedInterfaces::new(
        ifaces(desired.clone()),
        ifaces(current.clone()),
        Some(ifaces(saved.clone())),
    );
    let unforced = MergedInterfaces::new_with_force(
        ifaces(desired),
        ifaces(current),
        Some(ifaces(saved)),
        false,
    );
    assert_eq!(plain.unwrap(), unforced.unwrap());
}

#[test]
fn force_changes_what_is_applied_only() {
    let shown = with_mtu(eth("eth0"), 1500);
    let saved = with_mtu(eth("eth0"), 1400);
    let new = |force| {
        MergedInterface::new(Some(shown.clone()), Some(shown.clone()), Some(saved.clone()), force)
            .unwrap()
    };
    let (plain, forced) = (new(false), new(true));
    assert!(plain.for_apply.is_none());
    assert!(forced.for_apply.is_some());
    assert_eq!(forced.merged, plain.merged);
    assert_eq!(forced.for_save, plain.for_save);
    let mut kept = shown.clone();
    kept.base.state = InterfaceState::Saved;
    let kept = MergedInterface::new(Some(kept), Some(shown.clone()), None, true).unwrap();
    assert!(kept.for_apply.is_none());
}
