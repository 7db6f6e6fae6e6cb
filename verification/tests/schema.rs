//! Scenarios of states that are written as YAML.

use std::str::FromStr;

use nipart::dns::{DnsCacheConfig, NipartDnsDoh, NipartDnsFallback, NipartDnsUpstreamGroup};
use nipart::wifi::expand_wifi_cfg_to_connected_phy;
use nipart::{
    AddressFamily, BaseInterface, DhcpState, DnsResolver, DnsResolverClient, DnsUpstreamServer,
    ErrorKind, Interface, InterfaceIdentifier, InterfaceIpAddr, InterfaceIpv4, InterfaceIpv6,
    InterfaceLinkState, InterfaceState, InterfaceType, Interfaces, MergedInterfaces,
    MergedNetworkState, MergedRouteRules, NetworkState, NipartApplyOption, NipartError,
    NipartWaitOnline, NipartWaitOnlineCondition, RouteEntry, RouteRuleAction, RouteRuleEntry,
    RouteRuleState, RouteRules, RouteState, RouteType, Routes, VethConfig, WifiConfig,
    doh_url_hostname, parse_ip_addr, parse_socket_addr,
};
use rmsd_yaml::Value;

fn document(yaml: &str) -> Value {
    Value::from_str(yaml).unwrap()
}

/// Every key of the mapping is a known one.
fn check_keys(value: &Value, known: &[&str]) {
    if let Some(map) = value.as_mapping() {
        for (key, _) in map.iter() {
            let key = key.as_str().unwrap();
            assert!(known.contains(&key), "unknown field {key}");
        }
    }
}

fn text(value: &Value, key: &str) -> Option<String> {
    value.get(key).map(|v| v.as_str().unwrap().to_string())
}

fn boolean(value: &Value, key: &str) -> Option<bool> {
    value.get(key).map(|v| v.as_bool().unwrap())
}

fn number(value: &Value, key: &str) -> Option<u32> {
    value.get(key).map(|v| v.as_u32().unwrap())
}

fn integer(value: &Value, key: &str) -> Option<i64> {
    value.get(key).map(|v| v.as_i64().unwrap())
}

fn list(value: &Value, key: &str) -> Option<Vec<Value>> {
    value.get(key).map(|v| match v.as_sequence() {
        Some(items) => items.clone(),
        None => Vec::new(),
    })
}

fn texts(value: &Value, key: &str) -> Option<Vec<String>> {
    list(value, key).map(|items| {
        items
            .iter()
            .map(|item| item.as_str().unwrap().to_string())
            .collect()
    })
}

fn to_iface_type(name: &str) -> InterfaceType {
    match name {
        "bond" => InterfaceType::Bond,
        "dummy" => InterfaceType::Dummy,
        "ethernet" => InterfaceType::Ethernet,
        "linux-bridge" => InterfaceType::LinuxBridge,
        "loopback" => InterfaceType::Loopback,
        "ovs-bridge" => InterfaceType::OvsBridge,
        "ovs-interface" => InterfaceType::OvsInterface,
        "veth" => InterfaceType::Veth,
        "vlan" => InterfaceType::Vlan,
        "vrf" => InterfaceType::Vrf,
        "vxlan" => InterfaceType::Vxlan,
        "wifi-cfg" => InterfaceType::WifiCfg,
        "wifi-phy" => InterfaceType::WifiPhy,
        "wireguard" => InterfaceType::Wireguard,
        "unknown" => InterfaceType::Unknown,
        _ => panic!("unknown interface type {name}"),
    }
}

fn to_iface_state(name: &str) -> InterfaceState {
    match name {
        "up" => InterfaceState::Up,
        "down" => InterfaceState::Down,
        "absent" => InterfaceState::Absent,
        "ignore" => InterfaceState::Ignore,
        "saved" => InterfaceState::Saved,
        _ => panic!("unknown interface state {name}"),
    }
}

fn to_link_state(name: &str) -> InterfaceLinkState {
    match name {
        "up" => InterfaceLinkState::Up,
        "down" => InterfaceLinkState::Down,
        "dormant" => InterfaceLinkState::Dormant,
        "lower-layer-down" => InterfaceLinkState::LowerLayerDown,
        "unknown" => InterfaceLinkState::Unknown,
        _ => panic!("unknown link state {name}"),
    }
}

fn to_addresses(value: &Value) -> Option<Vec<InterfaceIpAddr>> {
    list(value, "address").map(|items| {
        items
            .iter()
            .map(|item| {
                check_keys(item, &["ip", "prefix-length"]);
                InterfaceIpAddr {
                    ip: parse_ip_addr(&text(item, "ip").unwrap()).unwrap(),
                    prefix_length: number(item, "prefix-length").unwrap() as u8,
                }
            })
            .collect()
    })
}

fn to_ipv4(value: &Value) -> InterfaceIpv4 {
    check_keys(
        value,
        &["enabled", "dhcp", "address", "auto-gateway", "auto-route-metric"],
    );
    InterfaceIpv4 {
        enabled: boolean(value, "enabled"),
        dhcp: boolean(value, "dhcp"),
        dhcp_state: None,
        addresses: to_addresses(value),
        auto_gateway: boolean(value, "auto-gateway"),
        auto_route_metric: integer(value, "auto-route-metric"),
    }
}

fn to_ipv6(value: &Value) -> InterfaceIpv6 {
    check_keys(value, &["enabled", "dhcp", "autoconf", "address"]);
    InterfaceIpv6 {
        enabled: boolean(value, "enabled"),
        dhcp: boolean(value, "dhcp"),
        dhcp_state: None,
        autoconf: boolean(value, "autoconf"),
        addresses: to_addresses(value),
    }
}

/// The ports of the section of a controller, which are names or mappings with
/// a name.
fn to_ports(section: &Value) -> Option<Vec<String>> {
    let ports = list(section, "ports").or_else(|| list(section, "port"))?;
    Some(
        ports
            .iter()
            .map(|port| match port.as_mapping() {
                Some(_) => text(port, "name").unwrap(),
                None => port.as_str().unwrap().to_string(),
            })
            .collect(),
    )
}

fn to_iface(value: &Value) -> Interface {
    check_keys(
        value,
        &[
            "name", "type", "state", "description", "profile-name", "kernel-iface-name",
            "identifier", "mac-address", "permanent-mac-address", "mtu", "controller",
            "link-state", "ipv4", "ipv6", "wifi", "veth", "ethernet", "bond", "bridge", "vrf",
            "wireguard",
        ],
    );
    let iface_type = match text(value, "type") {
        Some(name) => to_iface_type(&name),
        None => InterfaceType::Unknown,
    };
    let mut base = BaseInterface::new(text(value, "name").unwrap(), iface_type);
    base.state = match text(value, "state") {
        Some(name) => to_iface_state(&name),
        None => InterfaceState::Up,
    };
    base.description = text(value, "description");
    base.profile_name = text(value, "profile-name");
    base.kernel_iface_name = text(value, "kernel-iface-name").unwrap_or_default();
    base.identifier = text(value, "identifier").map(|name| match name.as_str() {
        "name" => InterfaceIdentifier::Name,
        "mac-address" => InterfaceIdentifier::MacAddress,
        _ => panic!("unknown identifier {name}"),
    });
    base.mac_address = text(value, "mac-address");
    base.permanent_mac_address = text(value, "permanent-mac-address");
    base.mtu = number(value, "mtu").map(u64::from);
    base.controller = text(value, "controller");
    base.link_state = text(value, "link-state").map(|name| to_link_state(&name));
    base.ipv4 = value.get("ipv4").map(to_ipv4);
    base.ipv6 = value.get("ipv6").map(to_ipv6);
    let mut iface = Interface::from_base(base);
    iface.veth = value.get("veth").map(|veth| VethConfig {
        peer: text(veth, "peer").unwrap(),
    });
    iface.wifi = value.get("wifi").map(|wifi| {
        check_keys(wifi, &["ssid", "password", "base-iface", "hidden"]);
        WifiConfig {
            ssid: text(wifi, "ssid").unwrap(),
            password: text(wifi, "password"),
            base_iface: text(wifi, "base-iface"),
            hidden: boolean(wifi, "hidden").unwrap_or(false),
        }
    });
    for section in ["bond", "bridge", "vrf"] {
        if let Some(section) = value.get(section) {
            iface.ports = to_ports(section);
            iface.vrf_table_id = number(section, "route-table-id");
        }
    }
    if let Some(wireguard) = value.get("wireguard") {
        iface.private_key = text(wireguard, "private-key");
    }
    iface
}

fn to_ifaces(value: &Value) -> Interfaces {
    let items = match value.as_sequence() {
        Some(items) => items.clone(),
        None => Vec::new(),
    };
    Interfaces::new(items.iter().map(to_iface).collect())
}

fn to_route(value: &Value) -> RouteEntry {
    check_keys(
        value,
        &[
            "state", "destination", "next-hop-interface", "next-hop-address", "metric",
            "table-id", "vrf-name", "route-type",
        ],
    );
    RouteEntry {
        state: text(value, "state").map(|name| match name.as_str() {
            "absent" => RouteState::Absent,
            "saved" => RouteState::Saved,
            "ignore" => RouteState::Ignore,
            _ => panic!("unknown route state {name}"),
        }),
        destination: text(value, "destination"),
        next_hop_iface: text(value, "next-hop-interface"),
        next_hop_addr: text(value, "next-hop-address"),
        metric: integer(value, "metric"),
        table_id: number(value, "table-id"),
        vrf_name: text(value, "vrf-name"),
        route_type: text(value, "route-type").map(|name| match name.as_str() {
            "blackhole" => RouteType::Blackhole,
            "unreachable" => RouteType::Unreachable,
            "prohibit" => RouteType::Prohibit,
            _ => panic!("unknown route type {name}"),
        }),
        onlink: None,
    }
}

fn to_routes(value: &Value) -> Routes {
    check_keys(value, &["running", "config"]);
    Routes {
        running: list(value, "running").map(|items| items.iter().map(to_route).collect()),
        config: list(value, "config").map(|items| items.iter().map(to_route).collect()),
    }
}

fn to_rule(value: &Value) -> RouteRuleEntry {
    check_keys(
        value,
        &[
            "family", "state", "ip-from", "ip-to", "priority", "route-table", "fwmark", "fwmask",
            "action", "iif", "suppress-prefix-length",
        ],
    );
    RouteRuleEntry {
        family: text(value, "family").map(|name| match name.as_str() {
            "ipv4" => AddressFamily::Ipv4,
            "ipv6" => AddressFamily::Ipv6,
            _ => panic!("unknown family {name}"),
        }),
        state: text(value, "state").map(|name| match name.as_str() {
            "absent" => RouteRuleState::Absent,
            _ => panic!("unknown rule state {name}"),
        }),
        ip_from: text(value, "ip-from"),
        ip_to: text(value, "ip-to"),
        priority: integer(value, "priority"),
        table_id: number(value, "route-table"),
        fwmark: number(value, "fwmark"),
        fwmask: number(value, "fwmask"),
        action: text(value, "action").map(|name| match name.as_str() {
            "blackhole" => RouteRuleAction::Blackhole,
            "unreachable" => RouteRuleAction::Unreachable,
            "prohibit" => RouteRuleAction::Prohibit,
            _ => panic!("unknown rule action {name}"),
        }),
        iif: text(value, "iif"),
        suppress_prefix_length: number(value, "suppress-prefix-length"),
    }
}

fn to_rules(value: &Value) -> RouteRules {
    check_keys(value, &["config"]);
    RouteRules {
        config: list(value, "config").map(|items| items.iter().map(to_rule).collect()),
    }
}

fn to_dns_client(value: &Value) -> DnsResolverClient {
    check_keys(value, &["server", "search", "options"]);
    DnsResolverClient {
        server: texts(value, "server"),
        search: texts(value, "search"),
        options: texts(value, "options"),
    }
}

fn to_dns_cache(value: &Value) -> DnsCacheConfig {
    check_keys(
        value,
        &["enabled", "bind", "max-cache-size", "load-etc-hosts", "fallback", "doh", "groups"],
    );
    let mut cache = DnsCacheConfig::default();
    if let Some(enabled) = boolean(value, "enabled") {
        cache.enabled = enabled;
    }
    if let Some(bind) = text(value, "bind") {
        cache.bind = bind;
    }
    if let Some(size) = number(value, "max-cache-size") {
        cache.max_cache_size = size as usize;
    }
    if let Some(load) = boolean(value, "load-etc-hosts") {
        cache.load_etc_hosts = load;
    }
    if let Some(fallback) = value.get("fallback") {
        check_keys(fallback, &["auto-dns", "nameservers", "disable-ipv6"]);
        cache.fallback = NipartDnsFallback {
            auto_dns: boolean(fallback, "auto-dns").unwrap_or(true),
            nameservers: texts(fallback, "nameservers").unwrap_or_default(),
            disable_ipv6: boolean(fallback, "disable-ipv6").unwrap_or(false),
        };
    }
    cache.doh = value.get("doh").map(|doh| {
        check_keys(doh, &["nameservers", "disable-ipv6"]);
        NipartDnsDoh {
            nameservers: texts(doh, "nameservers")
                .unwrap_or_default()
                .iter()
                .map(|ip| parse_ip_addr(ip).unwrap())
                .collect(),
            disable_ipv6: boolean(doh, "disable-ipv6").unwrap_or(false),
        }
    });
    cache.groups = list(value, "groups")
        .unwrap_or_default()
        .iter()
        .map(|group| {
            check_keys(group, &["name", "domains", "nameservers", "disable-ipv6"]);
            NipartDnsUpstreamGroup {
                name: text(group, "name").unwrap(),
                domains: texts(group, "domains").unwrap_or_default(),
                nameservers: texts(group, "nameservers").unwrap_or_default(),
                disable_ipv6: boolean(group, "disable-ipv6").unwrap_or(false),
            }
        })
        .collect();
    cache
}

fn to_dns(value: &Value) -> DnsResolver {
    check_keys(value, &["running", "config", "cache"]);
    DnsResolver {
        running: value.get("running").map(to_dns_client),
        config: value.get("config").map(to_dns_client),
        cache: value.get("cache").map(to_dns_cache),
    }
}

fn to_wait_online(value: &Value) -> NipartWaitOnline {
    check_keys(value, &["timeout-sec", "conditions"]);
    let mut wait_online = NipartWaitOnline::default();
    if let Some(timeout_sec) = number(value, "timeout-sec") {
        wait_online.timeout_sec = timeout_sec;
    }
    if let Some(conditions) = texts(value, "conditions") {
        wait_online.conditions = conditions
            .iter()
            .map(|name| match name.as_str() {
                "gateway" => NipartWaitOnlineCondition::Gateway,
                "gateway4" => NipartWaitOnlineCondition::Gateway4,
                "gateway6" => NipartWaitOnlineCondition::Gateway6,
                _ => panic!("unknown condition {name}"),
            })
            .collect();
    }
    wait_online
}

fn to_state(value: &Value) -> NetworkState {
    check_keys(
        value,
        &[
            "version", "description", "interfaces", "routes", "route-rules", "dns-resolver",
            "wait-online",
        ],
    );
    NetworkState {
        version: number(value, "version"),
        description: text(value, "description"),
        ifaces: value.get("interfaces").map(to_ifaces).unwrap_or_default(),
        routes: value.get("routes").map(to_routes).unwrap_or_default(),
        route_rules: value.get("route-rules").map(to_rules).unwrap_or_default(),
        dns_resolver: value.get("dns-resolver").map(to_dns).unwrap_or_default(),
        wait_online: value.get("wait-online").map(to_wait_online),
    }
}

fn ifaces_of(yaml: &str) -> Interfaces {
    to_ifaces(&document(yaml))
}

fn rules_of(yaml: &str) -> RouteRules {
    to_rules(&document(yaml))
}

fn state_of(yaml: &str) -> NetworkState {
    to_state(&document(yaml))
}

fn name(text: &str) -> String {
    text.to_string()
}

/// Desired `state: saved` must persist the profile without applying or
/// verifying anything in the kernel.
#[test]
fn test_desired_state_saved_only_persists_without_apply() {
    let desired = ifaces_of(
        r#"---
        - name: cunet
          type: ethernet
          state: saved
          ipv4:
            enabled: true
            dhcp: false
            address:
            - ip: 192.0.2.1
              prefix-length: 24
        "#,
    );

    let merged =
        MergedInterfaces::new(desired, Interfaces::default(), None).unwrap();

    let merged_iface = merged.kernel_ifaces.get(&name("cunet")).unwrap();
    assert!(merged_iface.for_apply.is_none());
    assert!(merged_iface.for_verify.is_none());
    assert!(merged_iface.for_revert.is_none());
    assert!(merged_iface.merged.base_iface().state.is_saved());

    let for_save = merged_iface.for_save.as_ref().unwrap();
    assert_eq!(for_save.base_iface().state, InterfaceState::Up);
    assert_eq!(for_save.name(), "cunet");
}

/// Desired `state: saved` keeps the previous saved state when updating an
/// existing profile.
#[test]
fn test_desired_state_saved_keeps_previous_saved_state() {
    let desired = ifaces_of(
        r#"---
        - name: cunet
          type: ethernet
          state: saved
          mtu: 1280
        "#,
    );
    let saved = ifaces_of(
        r#"---
        - name: cunet
          type: ethernet
          state: down
        "#,
    );

    let merged =
        MergedInterfaces::new(desired, Interfaces::default(), Some(saved))
            .unwrap();

    let merged_iface = merged.kernel_ifaces.get(&name("cunet")).unwrap();
    assert!(merged_iface.for_apply.is_none());
    let for_save = merged_iface.for_save.as_ref().unwrap();
    assert_eq!(for_save.base_iface().state, InterfaceState::Down);
    assert_eq!(for_save.base_iface().mtu, Some(1280));
}

/// Desired `state: saved` on an existing running interface must not change
/// the kernel, only the persisted config.
#[test]
fn test_desired_state_saved_does_not_change_current() {
    let desired = ifaces_of(
        r#"---
        - name: cunet
          type: ethernet
          state: saved
          mtu: 1280
        "#,
    );
    let current = ifaces_of(
        r#"---
        - name: cunet
          type: ethernet
          state: up
          mtu: 1500
        "#,
    );

    let merged = MergedInterfaces::new(desired, current, None).unwrap();

    let merged_iface = merged.kernel_ifaces.get(&name("cunet")).unwrap();
    assert!(merged_iface.for_apply.is_none());
    assert!(merged_iface.for_verify.is_none());
    let for_save = merged_iface.for_save.as_ref().unwrap();
    assert_eq!(for_save.base_iface().mtu, Some(1280));
}

/// Test basic MAC address matching with MAC provided.
#[test]
fn test_resolve_mac_identifier_basic_with_mac() {
    let desired = ifaces_of(
        r#"---
        - name: wan0
          type: ethernet
          identifier: mac-address
          mac-address: 02:00:00:00:00:01
        "#,
    );

    let current = ifaces_of(
        r#"---
        - name: eth0
          type: ethernet
          mac-address: 02:00:00:00:00:01
        "#,
    );

    let merged = MergedInterfaces::new(desired, current, None).unwrap();

    // Interface should be keyed by kernel name
    assert!(merged.kernel_ifaces.contains_key(&name("eth0")));
    let merged_iface = merged.kernel_ifaces.get(&name("eth0")).unwrap();
    let for_apply = merged_iface.for_apply.as_ref().unwrap();
    assert_eq!(for_apply.base_iface().kernel_iface_name.as_str(), "eth0");
}

/// Test MAC address matching for `wifi-phy` interfaces.
#[test]
fn test_resolve_mac_identifier_wifi_phy() {
    let desired = ifaces_of(
        r#"---
        - name: HomeWiFi
          type: wifi-phy
          identifier: mac-address
          mac-address: 02:00:00:00:00:01
        "#,
    );

    let current = ifaces_of(
        r#"---
        - name: wlan0
          type: wifi-phy
          mac-address: 02:00:00:00:00:01
        "#,
    );

    let merged = MergedInterfaces::new(desired, current, None).unwrap();

    assert!(merged.kernel_ifaces.contains_key(&name("wlan0")));
    let merged_iface = merged.kernel_ifaces.get(&name("wlan0")).unwrap();
    let for_apply = merged_iface.for_apply.as_ref().unwrap();
    assert_eq!(for_apply.base_iface().kernel_iface_name.as_str(), "wlan0");
}

/// Test that the force apply option keeps the full desired config even when
/// the current kernel state already matches it, so explicit up/down actions
/// can restart DHCP/WIFI instead of being treated as a no-op.
#[test]
fn test_force_apply_keeps_full_desired_when_unchanged() {
    let desired = ifaces_of(
        r#"---
        - name: eth0
          type: ethernet
          state: up
          ipv4:
            enabled: true
            dhcp: true
        "#,
    );
    let current = ifaces_of(
        r#"---
        - name: eth0
          type: ethernet
          state: up
          ipv4:
            enabled: true
            dhcp: true
        "#,
    );

    let normal =
        MergedInterfaces::new(desired.clone(), current.clone(), None).unwrap();
    assert!(
        normal
            .kernel_ifaces
            .get(&name("eth0"))
            .unwrap()
            .for_apply
            .is_none()
    );

    let forced =
        MergedInterfaces::new_with_force(desired, current, None, true).unwrap();
    let forced_apply = forced
        .kernel_ifaces
        .get(&name("eth0"))
        .unwrap()
        .for_apply
        .as_ref()
        .unwrap();
    assert_eq!(
        forced_apply
            .base_iface()
            .ipv4
            .as_ref()
            .map(|ipv4| ipv4.dhcp),
        Some(Some(true))
    );
}

/// Test MAC address matching with `permanent-mac-address`.
#[test]
fn test_resolve_mac_identifier_perm_mac() {
    let desired = ifaces_of(
        r#"---
        - name: wan0
          type: ethernet
          identifier: mac-address
          mac-address: 02:00:00:00:00:01
        "#,
    );

    let current = ifaces_of(
        r#"---
        - name: eth0
          type: ethernet
          mac-address: 00:00:00:00:00:00
          permanent-mac-address: 02:00:00:00:00:01
        "#,
    );

    let merged = MergedInterfaces::new(desired, current, None).unwrap();

    let merged_iface = merged.kernel_ifaces.get(&name("eth0")).unwrap();
    let for_apply = merged_iface.for_apply.as_ref().unwrap();
    assert_eq!(for_apply.base_iface().kernel_iface_name.as_str(), "eth0");
}

/// Test error when MAC does not match any current interface.
#[test]
fn test_resolve_mac_identifier_no_match() {
    let desired = ifaces_of(
        r#"---
        - name: wan0
          type: ethernet
          identifier: mac-address
          mac-address: 02:00:00:00:00:01
        "#,
    );

    let current = ifaces_of(
        r#"---
        - name: eth0
          type: ethernet
          mac-address: 00:00:00:00:00:00
        "#,
    );

    let result = MergedInterfaces::new(desired, current, None);
    assert!(result.is_err());
}

/// Test re-resolution when profile_name already set and NIC name changed.
#[test]
fn test_resolve_mac_identifier_re_resolve() {
    let desired = ifaces_of(
        r#"---
        - name: eth0
          type: ethernet
          identifier: mac-address
          mac-address: 02:00:00:00:00:01
          profile-name: wan0
        "#,
    );

    let current = ifaces_of(
        r#"---
        - name: enp0s3
          type: ethernet
          mac-address: 02:00:00:00:00:01
        "#,
    );

    let merged = MergedInterfaces::new(desired, current, None).unwrap();

    // Should be keyed by new kernel name
    assert!(merged.kernel_ifaces.contains_key(&name("enp0s3")));
    let merged_iface = merged.kernel_ifaces.get(&name("enp0s3")).unwrap();
    let for_apply = merged_iface.for_apply.as_ref().unwrap();
    assert_eq!(for_apply.base_iface().kernel_iface_name.as_str(), "enp0s3");
}

/// Test that absent interfaces with MAC identifier still merge correctly.
#[test]
fn test_resolve_mac_identifier_absent_skipped() {
    let desired = ifaces_of(
        r#"---
        - name: wan0
          type: ethernet
          identifier: mac-address
          mac-address: 02:00:00:00:00:01
          state: absent
        "#,
    );

    let current = ifaces_of(
        r#"---
        - name: eth0
          type: ethernet
          mac-address: 02:00:00:00:00:01
        "#,
    );

    let merged = MergedInterfaces::new(desired, current, None).unwrap();

    // Absent interface should still be matched by MAC and keyed by
    // kernel name
    assert!(merged.kernel_ifaces.contains_key(&name("eth0")));
    let merged_iface = merged.kernel_ifaces.get(&name("eth0")).unwrap();
    // Non-virtual interface should have state: down in for_apply
    assert_eq!(
        merged_iface.for_apply.as_ref().unwrap().base_iface().state,
        InterfaceState::Down
    );
    // for_save should preserve the absent intent
    assert_eq!(
        merged_iface.for_save.as_ref().unwrap().base_iface().state,
        InterfaceState::Absent
    );
}

/// Test resolving interface with MAC identifier matches by MAC
/// regardless of interface type in desired state.
#[test]
fn test_resolve_mac_identifier_unknown_type() {
    let desired = ifaces_of(
        r#"---
        - name: wan0
          type: ethernet
          identifier: mac-address
          mac-address: 02:00:00:00:00:01
        "#,
    );

    let current = ifaces_of(
        r#"---
        - name: eth0
          type: ethernet
          mac-address: 02:00:00:00:00:01
        "#,
    );

    let merged = MergedInterfaces::new(desired, current, None).unwrap();

    let merged_iface = merged.kernel_ifaces.get(&name("eth0")).unwrap();
    // Merged type should be Ethernet
    assert_eq!(merged_iface.merged.iface_type(), InterfaceType::Ethernet);
}

/// Test error when mac_address is not provided.
#[test]
fn test_resolve_mac_identifier_missing_mac() {
    let desired = ifaces_of(
        r#"---
        - name: wan0
          type: ethernet
          identifier: mac-address
        "#,
    );

    let current = ifaces_of(
        r#"---
        - name: eth0
          type: ethernet
          mac-address: 02:00:00:00:00:01
        "#,
    );

    let result = MergedInterfaces::new(desired, current, None);
    assert!(result.is_err());
}

/// Test that already-resolved interface (name matches kernel name) works.
#[test]
fn test_resolve_mac_identifier_already_resolved() {
    let desired = ifaces_of(
        r#"---
        - name: eth0
          type: ethernet
          identifier: mac-address
          mac-address: 02:00:00:00:00:01
          profile-name: wan0
          kernel-iface-name: eth0
        "#,
    );

    let current = ifaces_of(
        r#"---
        - name: eth0
          type: ethernet
          mac-address: 02:00:00:00:00:01
        "#,
    );

    let merged = MergedInterfaces::new(desired, current, None).unwrap();

    // Should still have eth0
    assert!(merged.kernel_ifaces.contains_key(&name("eth0")));
    let merged_iface = merged.kernel_ifaces.get(&name("eth0")).unwrap();
    let for_apply = merged_iface.for_apply.as_ref().unwrap();
    assert_eq!(for_apply.base_iface().kernel_iface_name.as_str(), "eth0");
}

/// Test case-insensitive MAC address matching.
#[test]
fn test_resolve_mac_identifier_case_insensitive() {
    let desired = ifaces_of(
        r#"---
        - name: wan0
          type: ethernet
          identifier: mac-address
          mac-address: 02:00:00:00:00:01
        "#,
    );

    let current = ifaces_of(
        r#"---
        - name: eth0
          type: ethernet
          mac-address: 02:00:00:00:00:01
        "#,
    );

    let merged = MergedInterfaces::new(desired, current, None).unwrap();

    assert!(merged.kernel_ifaces.contains_key(&name("eth0")));
    let merged_iface = merged.kernel_ifaces.get(&name("eth0")).unwrap();
    let for_apply = merged_iface.for_apply.as_ref().unwrap();
    assert_eq!(for_apply.base_iface().kernel_iface_name.as_str(), "eth0");
}

/// Test resolving multiple interfaces with MAC identifiers.
#[test]
fn test_resolve_mac_identifier_multiple_ifaces() {
    let desired = ifaces_of(
        r#"---
        - name: wan0
          type: ethernet
          identifier: mac-address
          mac-address: 02:00:00:00:00:03
        - name: wan1
          type: ethernet
          identifier: mac-address
          mac-address: 02:00:00:00:00:0c
        "#,
    );

    let current = ifaces_of(
        r#"---
        - name: eth0
          type: ethernet
          mac-address: 02:00:00:00:00:03
        - name: eth1
          type: ethernet
          mac-address: 02:00:00:00:00:0c
        "#,
    );

    let merged = MergedInterfaces::new(desired, current, None).unwrap();

    assert!(merged.kernel_ifaces.contains_key(&name("eth0")));
    assert!(merged.kernel_ifaces.contains_key(&name("eth1")));
    let merged1 = merged.kernel_ifaces.get(&name("eth0")).unwrap();
    let for_apply1 = merged1.for_apply.as_ref().unwrap();
    assert_eq!(for_apply1.base_iface().kernel_iface_name.as_str(), "eth0");
    let merged2 = merged.kernel_ifaces.get(&name("eth1")).unwrap();
    let for_apply2 = merged2.for_apply.as_ref().unwrap();
    assert_eq!(for_apply2.base_iface().kernel_iface_name.as_str(), "eth1");
}

/// Test that permanent_mac_address is preferred over mac_address when
/// matching.
#[test]
fn test_resolve_mac_identifier_perm_mac_preferred() {
    let desired = ifaces_of(
        r#"---
        - name: wan0
          type: ethernet
          identifier: mac-address
          mac-address: 02:00:00:00:00:03
        "#,
    );

    let current = ifaces_of(
        r#"---
        - name: eth0
          type: ethernet
          mac-address: ff:ff:ff:ff:ff:ff
          permanent-mac-address: 02:00:00:00:00:03
        - name: eth1
          type: ethernet
          mac-address: 02:00:00:00:00:03
        "#,
    );

    let merged = MergedInterfaces::new(desired, current, None).unwrap();

    // Should match eth0 (permanent_mac_address match)
    assert!(merged.kernel_ifaces.contains_key(&name("eth0")));
    let merged_iface = merged.kernel_ifaces.get(&name("eth0")).unwrap();
    assert!(merged_iface.is_desired());
}

/// Test that matching against multiple NICs with the same MAC picks the
/// first match.
#[test]
fn test_resolve_mac_identifier_duplicate_mac_across_nics() {
    let desired = ifaces_of(
        r#"---
        - name: wan0
          type: ethernet
          identifier: mac-address
          mac-address: 02:00:00:00:00:03
        "#,
    );

    let current = ifaces_of(
        r#"---
        - name: eth0
          type: ethernet
          mac-address: 02:00:00:00:00:03
        - name: eth1
          type: ethernet
          mac-address: 02:00:00:00:00:03
        "#,
    );

    // Should succeed, picking the first MAC match
    let merged = MergedInterfaces::new(desired, current, None).unwrap();
    // One of eth0/eth1 should be the desired matched interface
    let desired_count = merged
        .kernel_ifaces
        .entries
        .iter()
        .filter(|(_, i)| i.is_desired())
        .count();
    assert_eq!(desired_count, 1);
}

/// Test re-resolution when NIC renamed (eth0 -> eth1).
#[test]
fn test_resolve_mac_identifier_re_resolve_type_change() {
    let desired = ifaces_of(
        r#"---
        - name: eth0
          type: ethernet
          identifier: mac-address
          mac-address: 02:00:00:00:00:01
          profile-name: wan0
        "#,
    );

    let current = ifaces_of(
        r#"---
        - name: eth1
          type: ethernet
          mac-address: 02:00:00:00:00:01
        "#,
    );

    let merged = MergedInterfaces::new(desired, current, None).unwrap();

    assert!(merged.kernel_ifaces.contains_key(&name("eth1")));
    let merged_iface = merged.kernel_ifaces.get(&name("eth1")).unwrap();
    let for_apply = merged_iface.for_apply.as_ref().unwrap();
    assert_eq!(for_apply.base_iface().kernel_iface_name.as_str(), "eth1");
}

/// Test full merge flow with MAC identifier via MergedNetworkState.
#[test]
fn test_merge_flow_with_mac_identifier() {
    let desired = state_of(
        r#"
        interfaces:
          - name: wan0
            type: ethernet
            state: up
            identifier: mac-address
            mac-address: 02:00:00:00:00:01
            ipv4:
              enabled: true
              address:
                - ip: 192.168.1.100
                  prefix-length: 24
        "#,
    );

    let current = state_of(
        r#"
        interfaces:
          - name: eth0
            type: ethernet
            mac-address: 02:00:00:00:00:01
            state: up
        "#,
    );

    let merged =
        MergedNetworkState::new(desired, current, None, Default::default())
            .unwrap();
    let apply_state = merged.gen_state_for_apply();

    // After merge, the interface should be keyed by kernel name
    let apply_iface = apply_state.ifaces.kernel_ifaces.get(&name("eth0")).unwrap();
    assert_eq!(apply_iface.base_iface().name, "eth0");
    assert_eq!(apply_iface.base_iface().kernel_iface_name.as_str(), "eth0");
    assert_eq!(
        apply_iface.base_iface().profile_name.as_deref(),
        Some("wan0")
    );
    // IP config should have been merged
    assert!(apply_iface.base_iface().ipv4.is_some());
}

/// Test that sanitize converts MAC addresses to uppercase.
#[test]
fn test_sanitize_mac_address_to_uppercase() {
    let mut base =
        BaseInterface::new("eth0".to_string(), InterfaceType::Ethernet);
    base.identifier = Some(InterfaceIdentifier::MacAddress);
    base.mac_address = Some("02:00:00:00:00:02".to_string());
    base.permanent_mac_address = Some("02:00:00:00:00:0c".to_string());

    let mut for_save = base.clone();
    let mut for_apply = base.clone();
    let mut for_verify = base.clone();
    let mut merged = base.clone();

    base.sanitize(
        None,
        None,
        &mut for_save,
        &mut for_apply,
        &mut for_verify,
        &mut merged,
    )
    .unwrap();

    assert_eq!(for_apply.mac_address.as_deref(), Some("02:00:00:00:00:02"));
    assert_eq!(for_verify.mac_address.as_deref(), Some("02:00:00:00:00:02"));
    assert_eq!(for_save.mac_address.as_deref(), Some("02:00:00:00:00:02"));
    assert_eq!(merged.mac_address.as_deref(), Some("02:00:00:00:00:02"));
    // permanent_mac_address is query-only, only merged should hold it
    assert_eq!(for_apply.permanent_mac_address.as_deref(), None);
    assert_eq!(for_save.permanent_mac_address.as_deref(), None);
    assert_eq!(for_verify.permanent_mac_address.as_deref(), None);
    assert_eq!(
        merged.permanent_mac_address.as_deref(),
        Some("02:00:00:00:00:0C")
    );
}

/// Test that sanitize does NOT override kernel_iface_name for MacAddress
/// identifier.
#[test]
fn test_sanitize_does_not_override_mac_kernel_iface_name() {
    let base = BaseInterface::new("wan0".to_string(), InterfaceType::Ethernet);
    let mut for_save = base.clone();
    let mut for_apply = base.clone();
    let mut for_verify = base.clone();
    let mut merged = base.clone();
    for_apply.identifier = Some(InterfaceIdentifier::MacAddress);
    for_apply.kernel_iface_name = "eth0".to_string();
    base.sanitize(
        None,
        None,
        &mut for_save,
        &mut for_apply,
        &mut for_verify,
        &mut merged,
    )
    .unwrap();
    // kernel_iface_name should be preserved (not overwritten by sanitize)
    assert_eq!(for_apply.kernel_iface_name.as_str(), "eth0");
}

/// A MAC-identifier desired interface with a route referencing its logical
/// name must resolve the next-hop-interface to the kernel name even when the
/// saved state holds both the MAC-identifier config and a plain saved config
/// of the same kernel interface (which must not overwrite the merged
/// interface).
#[test]
fn test_route_next_hop_iface_with_plain_saved_config_not_overwritten() {
    let desired = state_of(
        r#"
        interfaces:
          - name: my-gw-iface
            type: ethernet
            state: up
            identifier: mac-address
            mac-address: 86:FC:DF:CF:66:E1
            ipv4:
              enabled: true
              dhcp: false
              address:
                - ip: 192.0.2.99
                  prefix-length: 24
        routes:
          config:
            - destination: 0.0.0.0/0
              next-hop-interface: my-gw-iface
              next-hop-address: 192.0.2.1
              table-id: 254
              metric: 199
        "#,
    );

    let current = state_of(
        r#"
        interfaces:
          - name: veth-mac0
            kernel-iface-name: veth-mac0
            type: ethernet
            mac-address: 86:FC:DF:CF:66:E1
            state: up
            ipv4:
              enabled: false
            ipv6:
              enabled: true
              dhcp: false
              autoconf: false
              address:
                - ip: fe80::38ce:43ff:fea8:fcc5
                  prefix-length: 64
            ethernet:
              auto-negotiation: false
              speed: 10000
              duplex: full
            veth:
              peer: veth-mac1
        "#,
    );

    // Saved config of the previous apply (keyed by profile name), plus the
    // plain saved config of the same kernel interface from its creation.
    let saved = state_of(
        r#"
        interfaces:
          - name: my-veth
            profile-name: my-veth
            type: ethernet
            identifier: mac-address
            state: up
            mac-address: 86:FC:DF:CF:66:E1
            ipv4:
              enabled: true
              dhcp: false
              address:
                - ip: 192.0.2.99
                  prefix-length: 24
            veth:
              peer: veth-mac1
          - name: veth-mac0
            kernel-iface-name: veth-mac0
            type: ethernet
            state: up
            veth:
              peer: veth-mac1
        "#,
    );

    let merged = MergedNetworkState::new(
        desired,
        current,
        Some(saved),
        Default::default(),
    )
    .unwrap();
    let changed: Vec<&str> = merged
        .routes
        .changed_routes
        .iter()
        .filter_map(|r| r.next_hop_iface.as_deref())
        .collect();
    assert_eq!(changed, vec!["veth-mac0"]);
}

/// Test that route next-hop-interface with MAC identifier resolves from
/// logical name (profile_name) to kernel name.
#[test]
fn test_route_next_hop_iface_resolves_by_profile_name() {
    let desired = state_of(
        r#"
        interfaces:
          - name: wan0
            type: ethernet
            state: up
            identifier: mac-address
            mac-address: 02:00:00:00:00:01
        routes:
          config:
            - destination: 0.0.0.0/0
              next-hop-interface: wan0
              next-hop-address: 192.168.1.1
              table-id: 254
        "#,
    );

    let current = state_of(
        r#"
        interfaces:
          - name: eth0
            type: ethernet
            mac-address: 02:00:00:00:00:01
            state: up
            ipv4:
              enabled: true
              dhcp: false
        "#,
    );

    let merged =
        MergedNetworkState::new(desired, current, None, Default::default())
            .unwrap();

    let changed: Vec<&str> = merged
        .routes
        .changed_routes
        .iter()
        .filter_map(|r| r.next_hop_iface.as_deref())
        .collect();
    assert_eq!(changed, vec!["eth0"]);
}

/// Test that route next-hop-interface with direct kernel name succeeds
/// without profile_name lookup.
#[test]
fn test_route_next_hop_iface_direct_kernel_name() {
    let desired = state_of(
        r#"
        interfaces:
          - name: wan0
            type: ethernet
            state: up
            identifier: mac-address
            mac-address: 02:00:00:00:00:01
        routes:
          config:
            - destination: 0.0.0.0/0
              next-hop-interface: eth0
              next-hop-address: 192.168.1.1
              table-id: 254
        "#,
    );

    let current = state_of(
        r#"
        interfaces:
          - name: eth0
            type: ethernet
            mac-address: 02:00:00:00:00:01
            state: up
            ipv4:
              enabled: true
              dhcp: false
        "#,
    );

    let merged =
        MergedNetworkState::new(desired, current, None, Default::default())
            .unwrap();

    let changed: Vec<&str> = merged
        .routes
        .changed_routes
        .iter()
        .filter_map(|r| r.next_hop_iface.as_deref())
        .collect();
    assert_eq!(changed, vec!["eth0"]);
}

/// Test that route next-hop-interface pointing to absent interface
/// via logical name raises error.
#[test]
fn test_route_next_hop_iface_absent_by_logical_name() {
    let desired = state_of(
        r#"
        interfaces:
          - name: wan0
            type: ethernet
            state: absent
            identifier: mac-address
            mac-address: 02:00:00:00:00:01
        routes:
          config:
            - destination: 0.0.0.0/0
              next-hop-interface: wan0
              next-hop-address: 192.168.1.1
              table-id: 254
        "#,
    );

    let current = state_of(
        r#"
        interfaces:
          - name: eth0
            type: ethernet
            mac-address: 02:00:00:00:00:01
            state: up
        "#,
    );

    let result =
        MergedNetworkState::new(desired, current, None, Default::default());
    assert!(result.is_err());
    assert!(result.unwrap_err().msg.contains("marked as absent"));
}

/// Test that resolve_route_next_hop_iface with duplicate profile_name
/// resolves to one of the matches via MergedInterfaces::new().
#[test]
fn test_route_next_hop_iface_duplicate_logical_name() {
    let desired = ifaces_of(
        r#"---
        - name: eth0
          type: ethernet
          state: up
          profile-name: eth1
        - name: eth1
          type: ethernet
          state: up
          profile-name: eth1
        "#,
    );

    let current = ifaces_of(
        r#"---
        - name: eth0
          type: ethernet
        - name: eth1
          type: ethernet
        "#,
    );

    let merged_ifaces = MergedInterfaces::new(desired, current, None).unwrap();

    // IfaceSearch stores last inserted profile mapping
    let result = merged_ifaces.resolve_route_next_hop_iface(&name("eth1"));
    assert!(result.is_some());
}

/// Test that resolve_route_next_hop_iface returns None
/// when no match is found (neither kernel name nor profile_name).
#[test]
fn test_route_next_hop_iface_no_match_returns_none() {
    let merged_ifaces = MergedInterfaces::default();

    let result = merged_ifaces.resolve_route_next_hop_iface(&name("nonexistent"));
    assert!(result.is_none());
}

/// Test that resolve_route_next_hop_iface returns kernel name when
/// a single profile_name match is found via MergedInterfaces::new().
#[test]
fn test_route_next_hop_iface_single_profile_match() {
    let desired = ifaces_of(
        r#"---
        - name: eth0
          type: ethernet
          state: up
          profile-name: eth1
        "#,
    );

    let current = ifaces_of(
        r#"---
        - name: eth0
          type: ethernet
        "#,
    );

    let merged_ifaces = MergedInterfaces::new(desired, current, None).unwrap();

    let result = merged_ifaces.resolve_route_next_hop_iface(&name("eth1"));
    assert_eq!(result, Some("eth0".to_string()));
}

/// Test that route with next-hop-interface pointing to a non-existent
/// interface raises error.
#[test]
fn test_route_next_hop_iface_unmatched_logical_name_adds_route() {
    let desired = state_of(
        r#"
        routes:
          config:
            - destination: 0.0.0.0/0
              next-hop-interface: nonexistent
              next-hop-address: 192.168.1.1
              table-id: 254
        "#,
    );

    let current = NetworkState::default();

    let result =
        MergedNetworkState::new(desired, current, None, Default::default());
    assert!(result.is_err());
}

/// A route whose `next-hop-interface` names an up `wifi-cfg` profile must
/// resolve to the kernel `wifi-phy` currently connected to that profile,
/// not be left pointing at the userspace profile name.
#[test]
fn test_wifi_cfg_route_next_hop_resolves_to_connected_phy() {
    let desired = state_of(
        r#"
        interfaces:
          - name: HomeWiFi
            type: wifi-cfg
            state: up
            ipv4:
              enabled: true
              dhcp: false
              address:
                - ip: 192.0.2.99
                  prefix-length: 24
            wifi:
              ssid: HomeWiFi
              base-iface: wlan0
        routes:
          config:
            - destination: 198.51.100.0/24
              next-hop-interface: HomeWiFi
              next-hop-address: 192.0.2.1
              table-id: 254
        "#,
    );

    let current = state_of(
        r#"
        interfaces:
          - name: wlan0
            type: wifi-phy
            state: up
            link-state: up
            mac-address: 02:00:00:00:00:01
            wifi:
              ssid: HomeWiFi
        "#,
    );

    let merged =
        MergedNetworkState::new(desired, current, None, Default::default())
            .unwrap();
    let changed: Vec<&str> = merged
        .routes
        .changed_routes
        .iter()
        .filter_map(|rt| rt.next_hop_iface.as_deref())
        .collect();
    assert_eq!(changed, vec!["wlan0"]);
}

/// A route to an up `wifi-cfg` whose wifi-phy is not connected yet must not
/// be sent to the kernel. It is persisted so the link-up event can apply it
/// after the profile associates.
#[test]
fn test_wifi_cfg_route_deferred_when_phy_not_connected() {
    let desired = state_of(
        r#"
        interfaces:
          - name: HomeWiFi
            type: wifi-cfg
            state: up
            wifi:
              ssid: HomeWiFi
        routes:
          config:
            - destination: 198.51.100.0/24
              next-hop-interface: HomeWiFi
              next-hop-address: 192.0.2.1
              table-id: 254
        "#,
    );

    let merged = MergedNetworkState::new(
        desired,
        NetworkState::default(),
        None,
        Default::default(),
    )
    .unwrap();

    assert!(merged.routes.changed_routes.is_empty());
    assert!(merged.routes.route_changed_ifaces.is_empty());

    let saved_routes = merged.gen_state_for_save().routes.config.unwrap();
    assert_eq!(saved_routes.len(), 1);
    assert_eq!(saved_routes[0].next_hop_iface.as_deref(), Some("HomeWiFi"));
}

/// The route resolver must not treat userspace-only profiles (e.g.
/// `wifi-cfg`) as kernel interface names.
#[test]
fn test_resolve_route_next_hop_ignores_userspace_wifi_cfg() {
    let desired = ifaces_of(
        r#"---
        - name: HomeWiFi
          type: wifi-cfg
          state: up
          wifi:
            ssid: HomeWiFi
        "#,
    );

    let merged =
        MergedInterfaces::new(desired, Interfaces::default(), None).unwrap();
    assert_eq!(merged.resolve_route_next_hop_iface(&name("HomeWiFi")), None);
}

/// Test parsing `auto-gateway` in IPv4 DHCP config.
#[test]
fn test_ipv4_auto_gateway_false() {
    let net_state = state_of(
        r#"
        interfaces:
          - name: eth1
            type: ethernet
            state: up
            ipv4:
              enabled: true
              dhcp: true
              auto-gateway: false
        "#,
    );

    let iface = net_state
        .ifaces
        .kernel_ifaces
        .get(&name("eth1"))
        .map(|i| i.base_iface().ipv4.as_ref().unwrap().clone())
        .unwrap();

    assert_eq!(iface.auto_gateway, Some(false));
}

/// Test that default value for `auto-gateway` is `None` when not specified.
#[test]
fn test_ipv4_auto_gateway_defaults() {
    let net_state = state_of(
        r#"
        interfaces:
          - name: eth1
            type: ethernet
            state: up
            ipv4:
              enabled: true
              dhcp: true
        "#,
    );

    let iface = net_state
        .ifaces
        .kernel_ifaces
        .get(&name("eth1"))
        .map(|i| i.base_iface().ipv4.as_ref().unwrap().clone())
        .unwrap();

    assert_eq!(iface.auto_gateway, None);
}

/// Test `auto-gateway: true`.
#[test]
fn test_ipv4_auto_gateway_true() {
    let net_state = state_of(
        r#"
        interfaces:
          - name: eth1
            type: ethernet
            state: up
            ipv4:
              enabled: true
              dhcp: true
              auto-gateway: true
        "#,
    );

    let iface = net_state
        .ifaces
        .kernel_ifaces
        .get(&name("eth1"))
        .map(|i| i.base_iface().ipv4.as_ref().unwrap().clone())
        .unwrap();

    assert_eq!(iface.auto_gateway, Some(true));
}

/// Test parsing `auto-route-metric` in IPv4 DHCP config.
#[test]
fn test_ipv4_auto_route_metric() {
    let net_state = state_of(
        r#"
        interfaces:
          - name: eth1
            type: ethernet
            state: up
            ipv4:
              enabled: true
              dhcp: true
              auto-route-metric: 321
        "#,
    );

    let iface = net_state
        .ifaces
        .kernel_ifaces
        .get(&name("eth1"))
        .map(|i| i.base_iface().ipv4.as_ref().unwrap().clone())
        .unwrap();

    assert_eq!(iface.auto_route_metric, Some(321));
}

/// Test that the default value for `auto-route-metric` is `None` when not
/// specified.
#[test]
fn test_ipv4_auto_route_metric_defaults() {
    let net_state = state_of(
        r#"
        interfaces:
          - name: eth1
            type: ethernet
            state: up
            ipv4:
              enabled: true
              dhcp: true
        "#,
    );

    let iface = net_state
        .ifaces
        .kernel_ifaces
        .get(&name("eth1"))
        .map(|i| i.base_iface().ipv4.as_ref().unwrap().clone())
        .unwrap();

    assert_eq!(iface.auto_route_metric, None);
}

/// Test that `auto-route-metric` survives the merge into both `merged` and
/// `for_apply` when DHCP is already running in the kernel.
///
/// The DHCPv4 lease paths decide the gateway route metric from the merged
/// IPv4 config, so losing it during the merge would make
/// `auto-route-metric` ineffective.
#[test]
fn test_ipv4_auto_route_metric_survives_merge() {
    let current = ifaces_of(
        r#"---
        - name: eth1
          type: ethernet
          state: up
          ipv4:
            enabled: true
            dhcp: true
        "#,
    );

    let desired = ifaces_of(
        r#"---
        - name: eth1
          type: ethernet
          state: up
          ipv4:
            enabled: true
            dhcp: true
            auto-route-metric: 321
        "#,
    );

    let merged = MergedInterfaces::new(desired, current, None).unwrap();
    let merged_iface = merged.kernel_ifaces.get(&name("eth1")).unwrap();

    let merged_ipv4 = merged_iface.merged.base_iface().ipv4.as_ref().unwrap();
    assert_eq!(merged_ipv4.auto_route_metric, Some(321));

    let for_apply = merged_iface.for_apply.as_ref().unwrap();
    let apply_ipv4 = for_apply.base_iface().ipv4.as_ref().unwrap();
    assert_eq!(apply_ipv4.auto_route_metric, Some(321));
}

/// Test DHCP route metric selection with `auto-route-metric` defined.
#[test]
fn test_ipv4_dhcp_route_metric_uses_auto_route_metric() {
    let ipv4 = InterfaceIpv4 {
        enabled: Some(true),
        dhcp: Some(true),
        auto_route_metric: Some(321),
        ..Default::default()
    };
    assert_eq!(ipv4.dhcp_route_metric(Some(9), 0), Some(321));
    assert_eq!(ipv4.dhcp_route_metric(Some(9), 1), Some(321));
}

/// Test DHCP route metric fallback to `iface-index * 100`.
#[test]
fn test_ipv4_dhcp_route_metric_falls_back_to_iface_index() {
    let ipv4 = InterfaceIpv4 {
        enabled: Some(true),
        dhcp: Some(true),
        ..Default::default()
    };
    assert_eq!(ipv4.dhcp_route_metric(Some(9), 0), Some(900));
    assert_eq!(ipv4.dhcp_route_metric(Some(9), 1), Some(901));
    assert_eq!(ipv4.dhcp_route_metric(None, 0), None);
}

/// Test DHCP route metric treats `-1` as "use the default metric".
#[test]
fn test_ipv4_dhcp_route_metric_default_metric_value() {
    let ipv4 = InterfaceIpv4 {
        enabled: Some(true),
        dhcp: Some(true),
        auto_route_metric: Some(-1),
        ..Default::default()
    };
    assert_eq!(ipv4.dhcp_route_metric(Some(9), 0), Some(900));
}

/// Test that `auto-gateway: false` survives the merge into both `merged`
/// and `for_apply` when DHCP is already running in the kernel.
///
/// The no-daemon DHCPv4 lease path decides whether to add the gateway routes
/// from `merged_iface.merged.base_iface().ipv4.auto_gateway`, so losing it
/// during the merge would make `auto-gateway: false` ineffective there.
#[test]
fn test_ipv4_auto_gateway_false_survives_merge() {
    let current = ifaces_of(
        r#"---
        - name: eth1
          type: ethernet
          state: up
          ipv4:
            enabled: true
            dhcp: true
        "#,
    );

    let desired = ifaces_of(
        r#"---
        - name: eth1
          type: ethernet
          state: up
          ipv4:
            enabled: true
            dhcp: true
            auto-gateway: false
        "#,
    );

    let merged = MergedInterfaces::new(desired, current, None).unwrap();
    let merged_iface = merged.kernel_ifaces.get(&name("eth1")).unwrap();

    let merged_ipv4 = merged_iface.merged.base_iface().ipv4.as_ref().unwrap();
    assert_eq!(merged_ipv4.auto_gateway, Some(false));

    let for_apply = merged_iface.for_apply.as_ref().unwrap();
    let apply_ipv4 = for_apply.base_iface().ipv4.as_ref().unwrap();
    assert_eq!(apply_ipv4.auto_gateway, Some(false));
}

/// Test that `InterfaceIpv4::new_disabled()` sets new fields to None.
#[test]
fn test_ipv4_new_disabled() {
    let ipv4 = InterfaceIpv4::new_disabled();
    assert_eq!(ipv4.auto_gateway, None);
    assert_eq!(ipv4.auto_route_metric, None);
}

/// Test that sanitize clears auto_gateway when DHCP is off.
#[test]
fn test_ipv4_sanitize_clears_when_dhcp_off() {
    let mut ipv4 = InterfaceIpv4 {
        enabled: Some(true),
        dhcp: Some(false),
        dhcp_state: None,
        addresses: None,
        auto_gateway: Some(false),
        auto_route_metric: Some(321),
    };
    ipv4.sanitize();
    assert_eq!(ipv4.auto_gateway, None);
    assert_eq!(ipv4.auto_route_metric, None);
}

/// Test that sanitize clears auto_gateway when IP disabled.
#[test]
fn test_ipv4_sanitize_clears_when_ip_disabled() {
    let mut ipv4 = InterfaceIpv4 {
        enabled: Some(false),
        dhcp: Some(true),
        dhcp_state: None,
        addresses: None,
        auto_gateway: Some(false),
        auto_route_metric: Some(321),
    };
    ipv4.sanitize();
    assert_eq!(ipv4.auto_gateway, None);
    assert_eq!(ipv4.auto_route_metric, None);
}

/// Test that sanitize rejects out-of-range `auto-route-metric`.
#[test]
fn test_ipv4_sanitize_rejects_out_of_range_auto_route_metric() {
    let mut ipv4 = InterfaceIpv4 {
        enabled: Some(true),
        dhcp: Some(true),
        dhcp_state: None,
        addresses: None,
        auto_gateway: None,
        auto_route_metric: Some(u32::MAX as i64 + 1),
    };
    assert!(ipv4.sanitize().is_err());
}

/// Test that ipv6 sanitize clears dhcp_state (query only field).
#[test]
fn test_ipv6_sanitize_clears_dhcp_state() {
    let mut ipv6 = InterfaceIpv6 {
        enabled: Some(true),
        dhcp: Some(true),
        dhcp_state: Some(DhcpState::Done),
        autoconf: Some(false),
        addresses: None,
    };
    ipv6.sanitize();
    assert_eq!(ipv6.dhcp_state, None);
    assert_eq!(ipv6.dhcp, Some(true));
}

/// Test that bond port names are resolved from profile names to kernel
/// interface names when ports use MAC address identifier.
#[test]
fn test_bond_resolve_port_ref_by_mac_identifier() {
    let desired = ifaces_of(
        r#"---
        - name: bond1
          type: bond
          state: up
          bond:
            mode: active-backup
            ports:
            - name: port1
            - name: port2
        - name: port1
          type: ethernet
          mac-address: 02:00:00:00:00:01
          identifier: mac-address
        - name: port2
          type: ethernet
          mac-address: 02:00:00:00:00:02
          identifier: mac-address"#,
    );

    let current = ifaces_of(
        r#"---
        - name: eth0
          type: ethernet
          mac-address: 02:00:00:00:00:01
        - name: eth1
          type: ethernet
          mac-address: 02:00:00:00:00:02"#,
    );

    let merged = MergedInterfaces::new(desired, current, None).unwrap();

    let bond = merged.kernel_ifaces.get(&name("bond1")).unwrap();

    assert_eq!(
        bond.for_apply.as_ref().unwrap().ports.clone().unwrap(),
        vec!["eth0", "eth1"]
    );
    assert_eq!(
        bond.for_verify.as_ref().unwrap().ports.clone().unwrap(),
        vec!["eth0", "eth1"]
    );
    assert_eq!(
        bond.for_save.as_ref().unwrap().ports.clone().unwrap(),
        vec!["port1", "port2"]
    );
    assert_eq!(bond.merged.ports.clone().unwrap(), vec!["eth0", "eth1"]);
}

/// Test that linux bridge port names are resolved from profile names to
/// kernel interface names when ports use MAC address identifier.
#[test]
fn test_linux_bridge_resolve_port_ref_by_mac_identifier() {
    let desired = ifaces_of(
        r#"---
        - name: br0
          type: linux-bridge
          state: up
          bridge:
            port:
            - name: port1
        - name: port1
          type: ethernet
          mac-address: 02:00:00:00:00:01
          identifier: mac-address"#,
    );

    let current = ifaces_of(
        r#"---
        - name: eth0
          type: ethernet
          mac-address: 02:00:00:00:00:01"#,
    );

    let merged = MergedInterfaces::new(desired, current, None).unwrap();

    let br = merged.kernel_ifaces.get(&name("br0")).unwrap();

    assert_eq!(
        br.for_apply.as_ref().unwrap().ports.clone().unwrap(),
        vec!["eth0"]
    );
    assert_eq!(
        br.for_verify.as_ref().unwrap().ports.clone().unwrap(),
        vec!["eth0"]
    );
    assert_eq!(
        br.for_save.as_ref().unwrap().ports.clone().unwrap(),
        vec!["port1"]
    );
    assert_eq!(br.merged.ports.clone().unwrap(), vec!["eth0"]);
}

/// Test that OVS bridge port names are resolved from profile names to
/// kernel interface names when ports use MAC address identifier.
#[test]
fn test_ovs_bridge_resolve_port_ref_by_mac_identifier() {
    let desired = ifaces_of(
        r#"---
        - name: ovs-br0
          type: ovs-bridge
          state: up
          bridge:
            ports:
            - name: port1
        - name: port1
          type: ethernet
          mac-address: 02:00:00:00:00:01
          identifier: mac-address"#,
    );

    let current = ifaces_of(
        r#"---
        - name: eth0
          type: ethernet
          mac-address: 02:00:00:00:00:01
        "#,
    );

    let merged = MergedInterfaces::new(desired, current, None).unwrap();

    let br = merged
        .user_ifaces
        .get(&("ovs-br0".to_string(), InterfaceType::OvsBridge))
        .unwrap();

    assert_eq!(
        br.for_apply.as_ref().unwrap().ports.clone().unwrap(),
        vec!["eth0"]
    );
    assert_eq!(
        br.for_verify.as_ref().unwrap().ports.clone().unwrap(),
        vec!["eth0"]
    );
    assert_eq!(
        br.for_save.as_ref().unwrap().ports.clone().unwrap(),
        vec!["port1"]
    );
    assert_eq!(br.merged.ports.clone().unwrap(), vec!["eth0"]);
}

/// Test gen_state_for_apply() and gen_state_for_save() with bond ports
/// resolved by MAC identifier matching uppercase MACs in current state.
#[test]
fn test_bond_gen_state_for_apply_and_save() {
    let desired = ifaces_of(
        r#"---
        - name: port1
          type: ethernet
          identifier: mac-address
          mac-address: 02:00:00:00:00:01
        - name: port2
          type: ethernet
          identifier: mac-address
          mac-address: 02:00:00:00:00:02
        - name: bond0
          kernel-iface-name: bond0
          type: bond
          state: up
          bond:
            mode: balance-rr
            ports:
            - name: port1
            - name: port2"#,
    );

    let current = ifaces_of(
        r#"---
        - name: eth1
          kernel-iface-name: eth1
          type: ethernet
          state: down
          mac-address: 02:00:00:00:00:01
        - name: eth2
          kernel-iface-name: eth2
          type: ethernet
          state: down
          mac-address: 02:00:00:00:00:02"#,
    );

    let merged = MergedInterfaces::new(desired, current, None).unwrap();

    let apply_state = merged.gen_state_for_apply();
    let save_state = merged.gen_state_for_save();

    let eth1_apply = apply_state.kernel_ifaces.get(&name("eth1")).unwrap();
    let eth1_saved = save_state.kernel_ifaces.get(&name("port1")).unwrap();

    let eth2_apply = apply_state.kernel_ifaces.get(&name("eth2")).unwrap();
    let eth2_saved = save_state.kernel_ifaces.get(&name("port2")).unwrap();
    assert_eq!(eth1_apply.name(), "eth1");
    assert_eq!(eth1_saved.name(), "port1");
    assert_eq!(
        eth1_apply.base_iface().profile_name.as_deref(),
        Some("port1")
    );
    assert_eq!(
        eth1_saved.base_iface().profile_name.as_deref(),
        Some("port1")
    );
    assert_eq!(eth2_apply.name(), "eth2");
    assert_eq!(eth2_saved.name(), "port2");
    assert_eq!(
        eth2_apply.base_iface().profile_name.as_deref(),
        Some("port2")
    );
    assert_eq!(
        eth2_saved.base_iface().profile_name.as_deref(),
        Some("port2")
    );
}

/// Test that BaseInterface::sanitize preserves for_save IP config when
/// for_apply has no IP changes (the diff omitted ipv4/ipv6 because the
/// current kernel state already matches).
#[test]
fn test_sanitize_preserves_ip_when_for_apply_has_no_ip() {
    let mut base =
        BaseInterface::new("eth0".to_string(), InterfaceType::Ethernet);
    base.ipv4 = Some(InterfaceIpv4 {
        enabled: Some(true),
        dhcp: Some(true),
        auto_gateway: Some(false),
        ..Default::default()
    });
    base.ipv6 = Some(InterfaceIpv6 {
        enabled: Some(true),
        dhcp: Some(true),
        autoconf: Some(false),
        ..Default::default()
    });

    // for_save has the full desired IP config
    let mut for_save = base.clone();
    let mut for_verify = base.clone();
    let mut merged = base.clone();

    // for_apply has NO ipv4/ipv6 (diff produced no IP changes)
    let mut for_apply = base.clone();
    for_apply.ipv4 = None;
    for_apply.ipv6 = None;

    base.sanitize(
        None,
        None,
        &mut for_save,
        &mut for_apply,
        &mut for_verify,
        &mut merged,
    )
    .unwrap();

    // for_save should still have the original IP config
    let ipv4 = for_save.ipv4.as_ref().expect("ipv4 should be preserved");
    assert_eq!(ipv4.enabled, Some(true));
    assert_eq!(ipv4.dhcp, Some(true));
    assert_eq!(ipv4.auto_gateway, Some(false));

    let ipv6 = for_save.ipv6.as_ref().expect("ipv6 should be preserved");
    assert_eq!(ipv6.enabled, Some(true));
    assert_eq!(ipv6.dhcp, Some(true));
    assert_eq!(ipv6.autoconf, Some(false));
}

/// Test that BaseInterface::sanitize fills `for_apply` with the full merged
/// IP config (derived from `for_save`) instead of the partial diff, then
/// propagates the sanitized config to `for_verify`, while `for_save` keeps
/// its full config.
#[test]
fn test_sanitize_fills_for_apply_ip_with_full_config() {
    let mut base =
        BaseInterface::new("eth0".to_string(), InterfaceType::Ethernet);
    base.ipv4 = Some(InterfaceIpv4 {
        enabled: Some(true),
        dhcp: Some(true),
        auto_gateway: Some(false),
        ..Default::default()
    });

    let mut for_save = base.clone();
    let mut for_verify = base.clone();
    let mut merged = base.clone();
    // for_apply holds only a partial IPv4 diff (e.g. dhcp toggled)
    let mut for_apply = base.clone();
    for_apply.ipv4 = Some(InterfaceIpv4 {
        dhcp: Some(false),
        ..Default::default()
    });

    base.sanitize(
        None,
        None,
        &mut for_save,
        &mut for_apply,
        &mut for_verify,
        &mut merged,
    )
    .unwrap();

    // for_apply must carry the full merged config from for_save, sanitized.
    let apply_ipv4 = for_apply.ipv4.as_ref().expect("ipv4 should be present");
    assert_eq!(apply_ipv4.enabled, Some(true));
    assert_eq!(apply_ipv4.dhcp, Some(true));
    assert_eq!(apply_ipv4.auto_gateway, Some(false));

    // for_verify receives the same sanitized full config.
    let verify_ipv4 = for_verify.ipv4.as_ref().expect("ipv4 should be present");
    assert_eq!(verify_ipv4.enabled, Some(true));
    assert_eq!(verify_ipv4.dhcp, Some(true));
    assert_eq!(verify_ipv4.auto_gateway, Some(false));

    // for_save keeps its full config.
    let save_ipv4 = for_save.ipv4.as_ref().expect("ipv4 should be present");
    assert_eq!(save_ipv4.enabled, Some(true));
    assert_eq!(save_ipv4.dhcp, Some(true));
    assert_eq!(save_ipv4.auto_gateway, Some(false));
}

/// Test that `for_apply` carries the full merged IPv4 config (desired +
/// saved), not just the diff against the current kernel state, so `for_save`
/// never loses the untouched properties.
///
/// Previously `for_apply` only held the *changed* IPv4 properties (e.g. a
/// new address without `enabled`/`dhcp`), and sanitize() copied that partial
/// diff onto `for_save`, purging the rest of the saved IP config.
#[test]
fn test_for_apply_ipv4_uses_full_merged_config_not_diff() {
    let saved = ifaces_of(
        r#"---
        - name: eth0
          type: ethernet
          state: up
          ipv4:
            enabled: true
            dhcp: false
            address:
            - ip: 192.0.2.1
              prefix-length: 24
        "#,
    );

    // Kernel state matches the saved config, so the diff would only contain
    // the newly added address, omitting `enabled` and `dhcp`.
    let current: Interfaces = saved.clone();

    let desired = ifaces_of(
        r#"---
        - name: eth0
          type: ethernet
          state: up
          ipv4:
            dhcp: false
            address:
            - ip: 192.0.2.1
              prefix-length: 24
            - ip: 192.0.2.2
              prefix-length: 24
        "#,
    );

    let merged = MergedInterfaces::new(desired, current, Some(saved)).unwrap();
    let merged_iface = merged.kernel_ifaces.get(&name("eth0")).unwrap();

    // for_apply must hold the full merged IPv4 config, including the
    // untouched `enabled` and `dhcp` properties.
    let for_apply = merged_iface.for_apply.as_ref().unwrap();
    let apply_ipv4 = for_apply.base_iface().ipv4.as_ref().unwrap();
    assert_eq!(apply_ipv4.enabled, Some(true));
    assert_eq!(apply_ipv4.dhcp, Some(false));
    let apply_addrs = apply_ipv4.addresses.as_ref().unwrap();
    assert_eq!(apply_addrs.len(), 2);
    assert_eq!(apply_addrs[0].ip.to_text(), "192.0.2.1");
    assert_eq!(apply_addrs[1].ip.to_text(), "192.0.2.2");

    // for_save keeps the same full config.
    let for_save = merged_iface.for_save.as_ref().unwrap();
    let save_ipv4 = for_save.base_iface().ipv4.as_ref().unwrap();
    assert_eq!(save_ipv4.enabled, Some(true));
    assert_eq!(save_ipv4.dhcp, Some(false));
    assert_eq!(save_ipv4.addresses.as_ref().unwrap().len(), 2);

    // gen_state_for_save() must persist the full IPv4 config.
    let save_state = merged.gen_state_for_save();
    let saved_iface = save_state.kernel_ifaces.get(&name("eth0")).unwrap();
    let saved_ipv4 = saved_iface.base_iface().ipv4.as_ref().unwrap();
    assert_eq!(saved_ipv4.enabled, Some(true));
    assert_eq!(saved_ipv4.dhcp, Some(false));
    let saved_addrs = saved_ipv4.addresses.as_ref().unwrap();
    assert_eq!(saved_addrs.len(), 2);
    assert_eq!(saved_addrs[0].ip.to_text(), "192.0.2.1");
    assert_eq!(saved_addrs[1].ip.to_text(), "192.0.2.2");
}

/// When the previous state is static IPv4 and the desired state enables
/// DHCP, the stale static addresses must be discarded from both `for_apply`
/// and `for_save`.
#[test]
fn test_for_apply_ipv4_discards_static_addr_when_switch_to_dhcp() {
    let saved = ifaces_of(
        r#"---
        - name: eth0
          type: ethernet
          state: up
          ipv4:
            enabled: true
            dhcp: false
            address:
            - ip: 192.0.2.1
              prefix-length: 24
        "#,
    );

    let current: Interfaces = saved.clone();

    let desired = ifaces_of(
        r#"---
        - name: eth0
          type: ethernet
          state: up
          ipv4:
            dhcp: true
        "#,
    );

    let merged = MergedInterfaces::new(desired, current, Some(saved)).unwrap();
    let merged_iface = merged.kernel_ifaces.get(&name("eth0")).unwrap();

    let for_apply = merged_iface.for_apply.as_ref().unwrap();
    let apply_ipv4 = for_apply.base_iface().ipv4.as_ref().unwrap();
    assert_eq!(apply_ipv4.enabled, Some(true));
    assert_eq!(apply_ipv4.dhcp, Some(true));
    assert!(
        apply_ipv4.addresses.is_none(),
        "static addresses must be discarded when switching to DHCP"
    );

    let for_save = merged_iface.for_save.as_ref().unwrap();
    let save_ipv4 = for_save.base_iface().ipv4.as_ref().unwrap();
    assert_eq!(save_ipv4.dhcp, Some(true));
    assert!(
        save_ipv4.addresses.is_none(),
        "saved state must not keep stale static addresses"
    );
}

/// When the previous state is auto IPv4 (DHCP) and the desired state
/// disables DHCP, the dynamic addresses must be replaced with the desired
/// ones; when the desired state does not specify addresses, IPv4 gets no IP.
#[test]
fn test_for_apply_ipv4_discards_dynamic_addr_when_disable_auto() {
    let saved = ifaces_of(
        r#"---
        - name: eth0
          type: ethernet
          state: up
          ipv4:
            enabled: true
            dhcp: true
        "#,
    );

    let current = ifaces_of(
        r#"---
        - name: eth0
          type: ethernet
          state: up
          ipv4:
            enabled: true
            dhcp: true
            address:
            - ip: 192.0.2.55
              prefix-length: 24
        "#,
    );

    // Desired disables DHCP without specifying addresses: no IP at all.
    let desired = ifaces_of(
        r#"---
        - name: eth0
          type: ethernet
          state: up
          ipv4:
            dhcp: false
        "#,
    );

    let merged =
        MergedInterfaces::new(desired, current.clone(), Some(saved)).unwrap();
    let merged_iface = merged.kernel_ifaces.get(&name("eth0")).unwrap();
    let for_apply = merged_iface.for_apply.as_ref().unwrap();
    let apply_ipv4 = for_apply.base_iface().ipv4.as_ref().unwrap();
    assert_eq!(apply_ipv4.enabled, Some(true));
    assert_eq!(apply_ipv4.dhcp, Some(false));
    assert!(
        apply_ipv4.addresses.is_none(),
        "dynamic addresses must be discarded when DHCP is disabled"
    );

    // Desired disables DHCP with static addresses specified: use them.
    let desired = ifaces_of(
        r#"---
        - name: eth0
          type: ethernet
          state: up
          ipv4:
            dhcp: false
            address:
            - ip: 10.0.0.1
              prefix-length: 24
        "#,
    );

    let merged = MergedInterfaces::new(desired, current, None).unwrap();
    let merged_iface = merged.kernel_ifaces.get(&name("eth0")).unwrap();
    let for_apply = merged_iface.for_apply.as_ref().unwrap();
    let apply_ipv4 = for_apply.base_iface().ipv4.as_ref().unwrap();
    assert_eq!(apply_ipv4.dhcp, Some(false));
    let apply_addrs = apply_ipv4.addresses.as_ref().unwrap();
    assert_eq!(apply_addrs.len(), 1);
    assert_eq!(apply_addrs[0].ip.to_text(), "10.0.0.1");
    assert_eq!(apply_addrs[0].prefix_length, 24);
}

/// When the previous state is static IPv6 and the desired state enables
/// autoconf, the stale static addresses must be discarded.
#[test]
fn test_for_apply_ipv6_discards_static_addr_when_switch_to_autoconf() {
    let saved = ifaces_of(
        r#"---
        - name: eth0
          type: ethernet
          state: up
          ipv6:
            enabled: true
            address:
            - ip: 2001:db8::1
              prefix-length: 64
        "#,
    );

    let current: Interfaces = saved.clone();

    let desired = ifaces_of(
        r#"---
        - name: eth0
          type: ethernet
          state: up
          ipv6:
            autoconf: true
        "#,
    );

    let merged = MergedInterfaces::new(desired, current, Some(saved)).unwrap();
    let merged_iface = merged.kernel_ifaces.get(&name("eth0")).unwrap();

    let for_apply = merged_iface.for_apply.as_ref().unwrap();
    let apply_ipv6 = for_apply.base_iface().ipv6.as_ref().unwrap();
    assert_eq!(apply_ipv6.enabled, Some(true));
    assert_eq!(apply_ipv6.autoconf, Some(true));
    assert!(
        apply_ipv6.addresses.is_none(),
        "static addresses must be discarded when switching to autoconf"
    );

    let for_save = merged_iface.for_save.as_ref().unwrap();
    let save_ipv6 = for_save.base_iface().ipv6.as_ref().unwrap();
    assert_eq!(save_ipv6.autoconf, Some(true));
    assert!(
        save_ipv6.addresses.is_none(),
        "saved state must not keep stale static addresses"
    );
}

/// When the previous state is auto IPv6 (DHCPv6) and the desired state
/// disables both DHCP and autoconf, the dynamic addresses must be replaced
/// with the desired ones; when the desired state does not specify addresses,
/// IPv6 keeps only the kernel-generated link-local address.
#[test]
fn test_for_apply_ipv6_discards_dynamic_addr_when_disable_auto() {
    let saved = ifaces_of(
        r#"---
        - name: eth0
          type: ethernet
          state: up
          ipv6:
            enabled: true
            dhcp: true
        "#,
    );

    let current = ifaces_of(
        r#"---
        - name: eth0
          type: ethernet
          state: up
          ipv6:
            enabled: true
            dhcp: true
            address:
            - ip: 2001:db8::55
              prefix-length: 64
        "#,
    );

    let desired = ifaces_of(
        r#"---
        - name: eth0
          type: ethernet
          state: up
          ipv6:
            dhcp: false
            autoconf: false
        "#,
    );

    let merged = MergedInterfaces::new(desired, current, Some(saved)).unwrap();
    let merged_iface = merged.kernel_ifaces.get(&name("eth0")).unwrap();

    let for_apply = merged_iface.for_apply.as_ref().unwrap();
    let apply_ipv6 = for_apply.base_iface().ipv6.as_ref().unwrap();
    assert_eq!(apply_ipv6.enabled, Some(true));
    assert_eq!(apply_ipv6.dhcp, Some(false));
    assert_eq!(apply_ipv6.autoconf, Some(false));
    assert!(
        apply_ipv6.addresses.is_none(),
        "dynamic addresses must be discarded, only link-local remains"
    );

    let for_save = merged_iface.for_save.as_ref().unwrap();
    let save_ipv6 = for_save.base_iface().ipv6.as_ref().unwrap();
    assert_eq!(save_ipv6.dhcp, Some(false));
    assert_eq!(save_ipv6.autoconf, Some(false));
    assert!(save_ipv6.addresses.is_none());
}

/// When there is no saved config, the current kernel state must not leak
/// `enabled`/`dhcp`/`autoconf` into `for_apply` — the kernel reports
/// `enabled: false` when no IP is assigned, which would otherwise strip the
/// desired addresses (via sanitize) or spuriously start DHCP.
#[test]
fn test_for_apply_ipv4_no_saved_does_not_inherit_kernel_state() {
    // Current IPv4 is disabled (kernel query format when no IP assigned).
    let current = ifaces_of(
        r#"---
        - name: eth0
          type: ethernet
          state: up
          ipv4:
            enabled: false
        "#,
    );

    // First-time static IPv4 without explicit `enabled` must be applied.
    let desired = ifaces_of(
        r#"---
        - name: eth0
          type: ethernet
          state: up
          ipv4:
            address:
            - ip: 192.0.2.1
              prefix-length: 24
        "#,
    );

    let merged = MergedInterfaces::new(desired, current, None).unwrap();
    let merged_iface = merged.kernel_ifaces.get(&name("eth0")).unwrap();
    let for_apply = merged_iface.for_apply.as_ref().unwrap();
    let apply_ipv4 = for_apply.base_iface().ipv4.as_ref().unwrap();
    assert_ne!(apply_ipv4.enabled, Some(false));
    let apply_addrs = apply_ipv4.addresses.as_ref().unwrap();
    assert_eq!(apply_addrs.len(), 1);
    assert_eq!(apply_addrs[0].ip.to_text(), "192.0.2.1");
    assert_eq!(apply_addrs[0].prefix_length, 24);

    // First-time DHCP on a disabled interface must keep `dhcp: true`.
    let current = ifaces_of(
        r#"---
        - name: eth0
          type: ethernet
          state: up
          ipv4:
            enabled: false
        "#,
    );
    let desired = ifaces_of(
        r#"---
        - name: eth0
          type: ethernet
          state: up
          ipv4:
            dhcp: true
        "#,
    );
    let merged = MergedInterfaces::new(desired, current, None).unwrap();
    let merged_iface = merged.kernel_ifaces.get(&name("eth0")).unwrap();
    let for_apply = merged_iface.for_apply.as_ref().unwrap();
    let apply_ipv4 = for_apply.base_iface().ipv4.as_ref().unwrap();
    assert_eq!(apply_ipv4.dhcp, Some(true));
    assert_ne!(apply_ipv4.enabled, Some(false));

    // Switching an interface currently on DHCP to static must not inherit
    // `dhcp: true` from the current state (which would restart DHCP on top
    // of the static config).
    let current = ifaces_of(
        r#"---
        - name: eth0
          type: ethernet
          state: up
          ipv4:
            enabled: true
            dhcp: true
            address:
            - ip: 192.0.2.55
              prefix-length: 24
        "#,
    );
    let desired = ifaces_of(
        r#"---
        - name: eth0
          type: ethernet
          state: up
          ipv4:
            address:
            - ip: 10.0.0.1
              prefix-length: 24
        "#,
    );
    let merged = MergedInterfaces::new(desired, current, None).unwrap();
    let merged_iface = merged.kernel_ifaces.get(&name("eth0")).unwrap();
    let for_apply = merged_iface.for_apply.as_ref().unwrap();
    let apply_ipv4 = for_apply.base_iface().ipv4.as_ref().unwrap();
    assert_ne!(apply_ipv4.dhcp, Some(true));
    let apply_addrs = apply_ipv4.addresses.as_ref().unwrap();
    assert_eq!(apply_addrs.len(), 1);
    assert_eq!(apply_addrs[0].ip.to_text(), "10.0.0.1");
    assert_eq!(apply_addrs[0].prefix_length, 24);
}

/// The DHCP worker applies a lease as the desired state (`dhcp: true` plus
/// the lease address) against a current state with IPv4 disabled. The
/// previous state holds no static addresses, so the static→auto transition
/// rule must NOT discard the lease address.
#[test]
fn test_for_apply_ipv4_keeps_lease_addr_when_prev_ipv4_disabled() {
    let current = ifaces_of(
        r#"---
        - name: eth0
          type: ethernet
          state: up
          ipv4:
            enabled: false
        "#,
    );

    let desired = ifaces_of(
        r#"---
        - name: eth0
          type: ethernet
          state: up
          ipv4:
            enabled: true
            dhcp: true
            address:
            - ip: 192.0.2.225
              prefix-length: 24
        "#,
    );

    let merged = MergedInterfaces::new(desired, current, None).unwrap();
    let merged_iface = merged.kernel_ifaces.get(&name("eth0")).unwrap();
    let for_apply = merged_iface.for_apply.as_ref().unwrap();
    let apply_ipv4 = for_apply.base_iface().ipv4.as_ref().unwrap();
    assert_eq!(apply_ipv4.dhcp, Some(true));
    let apply_addrs = apply_ipv4.addresses.as_ref().unwrap();
    assert_eq!(apply_addrs.len(), 1);
    assert_eq!(apply_addrs[0].ip.to_text(), "192.0.2.225");
    assert_eq!(apply_addrs[0].prefix_length, 24);
}

/// A MAC-identifier desired interface matching a current interface whose
/// saved config is a plain one (no `identifier`/`mac-address`, e.g. the
/// veth was created before being referenced by MAC) must keep its IPv4
/// config in `for_apply`/`for_save`. The saved config must be consumed
/// (merged into `for_save`) instead of being pushed as a saved-only
/// interface which would overwrite the merged interface.
#[test]
fn test_mac_identifier_desired_keeps_ipv4_with_plain_saved_config() {
    let desired = ifaces_of(
        r#"---
        - name: my-veth
          type: ethernet
          identifier: mac-address
          mac-address: 86:FC:DF:CF:66:E1
          state: up
          ipv4:
            enabled: true
            dhcp: false
            address:
            - ip: 192.0.2.99
              prefix-length: 24
        "#,
    );

    let current = ifaces_of(
        r#"---
        - name: veth-mac0
          type: ethernet
          mac-address: 86:FC:DF:CF:66:E1
          state: up
          ipv4:
            enabled: false
        "#,
    );

    // The saved config of the veth does not carry the identifier or the
    // MAC address, so the MAC-based saved matching fails.
    let saved = ifaces_of(
        r#"---
        - name: veth-mac0
          type: ethernet
          state: up
          veth:
            peer: veth-mac1
        "#,
    );

    let merged = MergedInterfaces::new(desired, current, Some(saved)).unwrap();
    let merged_iface = merged.kernel_ifaces.get(&name("veth-mac0")).unwrap();
    assert!(
        merged_iface
            .for_apply
            .as_ref()
            .unwrap()
            .base_iface()
            .ipv4
            .is_some(),
        "for_apply must keep ipv4"
    );
    let for_save = merged_iface.for_save.as_ref().unwrap().base_iface();
    let save_ipv4 = for_save.ipv4.as_ref().expect("for_save must keep ipv4");
    assert_eq!(save_ipv4.enabled, Some(true));
    assert_eq!(save_ipv4.dhcp, Some(false));
    assert_eq!(save_ipv4.addresses.as_ref().unwrap().len(), 1);

    // The saved veth config must be merged into for_save, not dropped.
    // MAC-identifier ifaces are saved keyed by `profile-name`.
    let save_state = merged.gen_state_for_save();
    let saved_iface = save_state.kernel_ifaces.get(&name("my-veth")).unwrap();
    assert!(
        saved_iface.iface_type() == InterfaceType::Ethernet
            && saved_iface.veth.is_some(),
        "saved veth config must be retained: {saved_iface:?}"
    );
}

/// Saved MAC-identifier ifaces must all be retained in for_save when
/// they are not part of the desired state.
#[test]
fn test_saved_mac_identifier_ifaces_kept_when_not_desired() {
    let desired = ifaces_of(
        r#"---
        - name: vpn0
          type: wireguard
          state: up
          wireguard:
            private-key: "AAAAAAAAAAAAAAAAAAAAAAAAAAAAAAAAAAAAAAAAAAA="
            peers:
            - endpoint: 192.0.2.1:51820
              public-key: "BBBBBBBBBBBBBBBBBBBBBBBBBBBBBBBBBBBBBBBBBBB="
              allowed-ips:
              - ip: 0.0.0.0
                prefix-length: 0
              protocol-version: 1
        "#,
    );

    let current = ifaces_of(
        r#"---
        - name: eth0
          type: ethernet
          mac-address: 02:00:00:00:00:03
        - name: eth1
          type: ethernet
          mac-address: 02:00:00:00:00:06
        - name: eth2
          type: ethernet
          mac-address: 02:00:00:00:00:07
        "#,
    );

    let saved = ifaces_of(
        r#"---
        - name: nic1
          profile-name: nic1
          type: ethernet
          identifier: mac-address
          state: up
          mac-address: 02:00:00:00:00:03
        - name: nic2
          profile-name: nic2
          type: ethernet
          identifier: mac-address
          state: up
          mac-address: 02:00:00:00:00:06
        - name: nic3
          profile-name: nic3
          type: ethernet
          identifier: mac-address
          state: up
          mac-address: 02:00:00:00:00:07
        - name: TEST-WIFI
          type: wifi-cfg
          state: up
          ipv4:
            enabled: true
            dhcp: true
          wifi:
            ssid: TEST-WIFI
        "#,
    );

    let merged = MergedInterfaces::new(desired, current, Some(saved)).unwrap();
    let for_save = merged.gen_state_for_save();

    let names: Vec<String> =
        for_save.to_list().iter().map(|i| i.name().to_string()).collect();
    for expected in ["vpn0", "nic1", "nic2", "nic3", "TEST-WIFI"] {
        assert!(
            names.contains(&expected.to_string()),
            "for_save {names:?} is missing {expected}"
        );
    }
}

/// A partial apply (e.g. a link event) must not remove the routes of
/// interfaces it does not touch, even when those interfaces are currently
/// IP-disabled (e.g. a DHCP interface whose lease has not been re-acquired
/// after daemon restart). Regression test for routes dropped on boot.
#[test]
fn test_partial_apply_keeps_routes_of_untouched_iface() {
    let desired = state_of(
        r#"---
        interfaces:
          - name: eth0
            type: ethernet
            state: up
            ipv4:
              enabled: true
              address:
                - ip: 192.0.2.2
                  prefix-length: 24
        "#,
    );

    let current = state_of(
        r#"---
        interfaces:
          - name: eth0
            type: ethernet
            state: up
            ipv4:
              enabled: true
              address:
                - ip: 192.0.2.2
                  prefix-length: 24
          - name: eth1
            type: ethernet
            state: up
            ipv4:
              enabled: false
        routes:
          config:
            - destination: 198.51.100.0/24
              next-hop-interface: eth1
              next-hop-address: 198.51.100.254
              table-id: 254
        "#,
    );

    let merged =
        MergedNetworkState::new(desired, current, None, Default::default())
            .unwrap();

    assert!(
        merged
            .routes
            .changed_routes
            .iter()
            .filter(|rt| rt.is_absent())
            .all(|rt| rt.next_hop_iface.as_deref() != Some("eth1")),
        "Partial apply must not mark routes of untouched interface eth1 \
         absent, got changed routes: {:?}",
        merged.routes.changed_routes
    );
}

/// When the apply itself disables IP on a desired interface, its current
/// routes must still be removed (intended behavior kept).
#[test]
fn test_apply_ip_disabled_iface_removes_its_routes() {
    let desired = state_of(
        r#"---
        interfaces:
          - name: eth1
            type: ethernet
            state: up
            ipv4:
              enabled: false
        "#,
    );

    let current = state_of(
        r#"---
        interfaces:
          - name: eth1
            type: ethernet
            state: up
            ipv4:
              enabled: true
              address:
                - ip: 198.51.100.2
                  prefix-length: 24
        routes:
          config:
            - destination: 198.51.100.0/24
              next-hop-interface: eth1
              next-hop-address: 198.51.100.254
              table-id: 254
        "#,
    );

    let merged =
        MergedNetworkState::new(desired, current, None, Default::default())
            .unwrap();

    assert!(
        merged
            .routes
            .changed_routes
            .iter()
            .filter(|rt| rt.is_absent())
            .any(|rt| rt.next_hop_iface.as_deref() == Some("eth1")),
        "Apply disabling IP on eth1 must remove eth1 routes, got changed \
         routes: {:?}",
        merged.routes.changed_routes
    );
}

/// The desired `routes.config` is additive: applying a desired state with
/// static routes must not drop the previously saved routes of interfaces not
/// mentioned in the desired state. `gen_state_for_save()` must persist both
/// the new routes and the surviving saved ones.
#[test]
fn test_gen_state_for_save_keeps_saved_routes_of_untouched_iface() {
    let saved = state_of(
        r#"---
        interfaces:
          - name: eth0
            type: ethernet
            state: up
            ipv4:
              enabled: true
              address:
                - ip: 192.0.2.3
                  prefix-length: 24
        routes:
          config:
            - destination: 198.51.100.0/24
              next-hop-interface: eth0
              next-hop-address: 192.0.2.1
              metric: 100
              table-id: 254
            - destination: 203.0.113.0/24
              next-hop-interface: eth0
              metric: 100
              table-id: 254
        "#,
    );

    let current = state_of(
        r#"---
        interfaces:
          - name: eth0
            type: ethernet
            state: up
            ipv4:
              enabled: true
              address:
                - ip: 192.0.2.3
                  prefix-length: 24
          - name: eth1
            type: ethernet
            state: up
            ipv4:
              enabled: true
              address:
                - ip: 192.0.2.10
                  prefix-length: 24
        routes:
          config:
            - destination: 198.51.100.0/24
              next-hop-interface: eth0
              next-hop-address: 192.0.2.1
              metric: 100
              table-id: 254
            - destination: 203.0.113.0/24
              next-hop-interface: eth0
              metric: 100
              table-id: 254
        "#,
    );

    let desired = state_of(
        r#"---
        interfaces:
          - name: eth1
            type: ethernet
            state: up
            ipv4:
              enabled: true
              address:
                - ip: 192.0.2.10
                  prefix-length: 24
        routes:
          config:
            - destination: 0.0.0.0/0
              next-hop-interface: eth1
              next-hop-address: 192.0.2.254
              metric: 100
              table-id: 254
        "#,
    );

    let merged = MergedNetworkState::new(
        desired,
        current,
        Some(saved),
        Default::default(),
    )
    .unwrap();

    let saved_routes = merged.gen_state_for_save().routes.config.unwrap();
    // The new default route plus the two saved routes of the untouched
    // interface `eth0` must all be persisted.
    let mut destinations: Vec<&str> = saved_routes
        .iter()
        .filter_map(|r| r.destination.as_deref())
        .collect();
    destinations.sort_unstable();
    assert_eq!(
        destinations,
        vec!["0.0.0.0/0", "198.51.100.0/24", "203.0.113.0/24"]
    );
}

/// A saved route explicitly matched by an `absent` route in the desired
/// state is dropped from the persisted state.
#[test]
fn test_gen_state_for_save_drops_explicitly_absent_route() {
    let saved = state_of(
        r#"---
        interfaces:
          - name: eth0
            type: ethernet
            state: up
        routes:
          config:
            - destination: 198.51.100.0/24
              next-hop-interface: eth0
              next-hop-address: 192.0.2.1
              metric: 100
              table-id: 254
            - destination: 203.0.113.0/24
              next-hop-interface: eth0
              metric: 100
              table-id: 254
        "#,
    );

    let current = state_of(
        r#"---
        interfaces:
          - name: eth0
            type: ethernet
            state: up
        routes:
          config:
            - destination: 198.51.100.0/24
              next-hop-interface: eth0
              next-hop-address: 192.0.2.1
              metric: 100
              table-id: 254
            - destination: 203.0.113.0/24
              next-hop-interface: eth0
              metric: 100
              table-id: 254
        "#,
    );

    let desired = state_of(
        r#"---
        routes:
          config:
            - destination: 198.51.100.0/24
              next-hop-interface: eth0
              state: absent
        "#,
    );

    let merged = MergedNetworkState::new(
        desired,
        current,
        Some(saved),
        Default::default(),
    )
    .unwrap();

    let saved_routes = merged.gen_state_for_save().routes.config.unwrap();
    assert_eq!(saved_routes.len(), 1);
    assert_eq!(
        saved_routes[0].destination.as_deref(),
        Some("203.0.113.0/24")
    );
}

/// Saved routes whose next hop interface is marked `absent` in the desired
/// state are dropped from the persisted state.
#[test]
fn test_gen_state_for_save_drops_routes_of_absent_iface() {
    let saved = state_of(
        r#"---
        interfaces:
          - name: eth0
            type: ethernet
            state: up
        routes:
          config:
            - destination: 198.51.100.0/24
              next-hop-interface: eth0
              next-hop-address: 192.0.2.1
              metric: 100
              table-id: 254
        "#,
    );

    let current = state_of(
        r#"---
        interfaces:
          - name: eth0
            type: ethernet
            state: up
        routes:
          config:
            - destination: 198.51.100.0/24
              next-hop-interface: eth0
              next-hop-address: 192.0.2.1
              metric: 100
              table-id: 254
        "#,
    );

    let desired = state_of(
        r#"---
        interfaces:
          - name: eth0
            type: ethernet
            state: absent
        "#,
    );

    let merged = MergedNetworkState::new(
        desired,
        current,
        Some(saved),
        Default::default(),
    )
    .unwrap();

    let saved_routes = merged.gen_state_for_save().routes.config.unwrap();
    assert!(
        saved_routes.is_empty(),
        "Routes of the deleted interface eth0 must not be persisted, got \
         {saved_routes:?}"
    );
}

/// Saved routes of an interface whose IPv4 is disabled by the desired state
/// are dropped, while its IPv6 routes are kept.
#[test]
fn test_gen_state_for_save_drops_routes_of_ip_disabled_iface() {
    let saved = state_of(
        r#"---
        interfaces:
          - name: eth0
            type: ethernet
            state: up
            ipv6:
              enabled: true
              autoconf: false
        routes:
          config:
            - destination: 198.51.100.0/24
              next-hop-interface: eth0
              next-hop-address: 192.0.2.1
              metric: 100
              table-id: 254
            - destination: 2001:db8::/64
              next-hop-interface: eth0
              next-hop-address: 2001:db8::1
              metric: 100
              table-id: 254
        "#,
    );

    let current = state_of(
        r#"---
        interfaces:
          - name: eth0
            type: ethernet
            state: up
            ipv6:
              enabled: true
              autoconf: false
        routes:
          config:
            - destination: 198.51.100.0/24
              next-hop-interface: eth0
              next-hop-address: 192.0.2.1
              metric: 100
              table-id: 254
            - destination: 2001:db8::/64
              next-hop-interface: eth0
              next-hop-address: 2001:db8::1
              metric: 100
              table-id: 254
        "#,
    );

    let desired = state_of(
        r#"---
        interfaces:
          - name: eth0
            type: ethernet
            state: up
            ipv4:
              enabled: false
        "#,
    );

    let merged = MergedNetworkState::new(
        desired,
        current,
        Some(saved),
        Default::default(),
    )
    .unwrap();

    let saved_routes = merged.gen_state_for_save().routes.config.unwrap();
    assert_eq!(saved_routes.len(), 1);
    assert_eq!(
        saved_routes[0].destination.as_deref(),
        Some("2001:db8::/64")
    );
}

/// When the desired state does not mention routes at all, the saved routes
/// are preserved as-is.
#[test]
fn test_gen_state_for_save_preserves_saved_routes_without_route_section() {
    let saved = state_of(
        r#"---
        interfaces:
          - name: eth0
            type: ethernet
            state: up
        routes:
          config:
            - destination: 198.51.100.0/24
              next-hop-interface: eth0
              next-hop-address: 192.0.2.1
              metric: 100
              table-id: 254
        "#,
    );

    let current = state_of(
        r#"---
        interfaces:
          - name: eth0
            type: ethernet
            state: up
        routes:
          config:
            - destination: 198.51.100.0/24
              next-hop-interface: eth0
              next-hop-address: 192.0.2.1
              metric: 100
              table-id: 254
        "#,
    );

    let desired = state_of(
        r#"---
        routes: {}
        "#,
    );

    let merged = MergedNetworkState::new(
        desired,
        current,
        Some(saved),
        Default::default(),
    )
    .unwrap();

    let saved_routes = merged.gen_state_for_save().routes.config.unwrap();
    assert_eq!(saved_routes.len(), 1);
    assert_eq!(
        saved_routes[0].destination.as_deref(),
        Some("198.51.100.0/24")
    );
}

/// The saved routes of an interface whose NIC is not present in the kernel
/// (e.g. unplugged) must be kept when the desired state merely mentions the
/// interface without an `ipv4` section: the merged state defaults to
/// IPv4-disabled for an absent interface, but the user did not ask to
/// disable its IP, and the interface's IPv4 config is still preserved in
/// the saved state.
#[test]
fn test_gen_state_for_save_keeps_routes_of_absent_nic_iface() {
    let saved = state_of(
        r#"---
        interfaces:
          - name: br0
            type: linux-bridge
            state: up
            ipv4:
              enabled: true
              dhcp: false
              address:
                - ip: 192.0.2.10
                  prefix-length: 24
        routes:
          config:
            - destination: 198.51.100.0/24
              next-hop-interface: br0
              next-hop-address: 192.0.2.1
              metric: 100
              table-id: 254
        "#,
    );

    // The NIC has been removed: no interface in the current state.
    let current = state_of(
        r#"---
        "#,
    );

    let desired = state_of(
        r#"---
        interfaces:
          - name: br0
            type: linux-bridge
            state: up
        "#,
    );

    let merged = MergedNetworkState::new(
        desired,
        current,
        Some(saved),
        Default::default(),
    )
    .unwrap();

    let saved_routes = merged.gen_state_for_save().routes.config.unwrap();
    assert_eq!(saved_routes.len(), 1);
    assert_eq!(
        saved_routes[0].destination.as_deref(),
        Some("198.51.100.0/24")
    );
    // The interface IPv4 config is preserved alongside its routes.
    let saved_state = merged.gen_state_for_save();
    let saved_iface = saved_state.ifaces.kernel_ifaces.get(&name("br0")).unwrap();
    assert!(saved_iface.base_iface().is_ipv4_enabled());
}

/// The saved routes of an interface whose IP is already disabled in the
/// kernel (e.g. left over by a link-down event) must be kept when the
/// desired state mentions the interface without re-enabling the IP.
#[test]
fn test_gen_state_for_save_keeps_routes_of_ip_disabled_current_iface() {
    let saved = state_of(
        r#"---
        interfaces:
          - name: eth0
            type: ethernet
            state: up
            ipv4:
              enabled: true
              dhcp: false
              address:
                - ip: 192.0.2.10
                  prefix-length: 24
        routes:
          config:
            - destination: 198.51.100.0/24
              next-hop-interface: eth0
              next-hop-address: 192.0.2.1
              metric: 100
              table-id: 254
        "#,
    );

    let current = state_of(
        r#"---
        interfaces:
          - name: eth0
            type: ethernet
            state: up
            ipv4:
              enabled: false
        "#,
    );

    let desired = state_of(
        r#"---
        interfaces:
          - name: eth0
            type: ethernet
            state: up
        "#,
    );

    let merged = MergedNetworkState::new(
        desired,
        current,
        Some(saved),
        Default::default(),
    )
    .unwrap();

    let saved_routes = merged.gen_state_for_save().routes.config.unwrap();
    assert_eq!(saved_routes.len(), 1);
    assert_eq!(
        saved_routes[0].destination.as_deref(),
        Some("198.51.100.0/24")
    );
}
#[test]
fn test_gen_state_for_save_preserves_saved_routes_with_empty_config() {
    let saved = state_of(
        r#"---
        interfaces:
          - name: eth0
            type: ethernet
            state: up
        routes:
          config:
            - destination: 198.51.100.0/24
              next-hop-interface: eth0
              next-hop-address: 192.0.2.1
              metric: 100
              table-id: 254
        "#,
    );

    let current = state_of(
        r#"---
        interfaces:
          - name: eth0
            type: ethernet
            state: up
        routes:
          config:
            - destination: 198.51.100.0/24
              next-hop-interface: eth0
              next-hop-address: 192.0.2.1
              metric: 100
              table-id: 254
        "#,
    );

    let desired = state_of(
        r#"---
        routes:
          config: []
        "#,
    );

    let merged = MergedNetworkState::new(
        desired,
        current,
        Some(saved),
        Default::default(),
    )
    .unwrap();

    let saved_routes = merged.gen_state_for_save().routes.config.unwrap();
    assert_eq!(saved_routes.len(), 1);
    assert_eq!(
        saved_routes[0].destination.as_deref(),
        Some("198.51.100.0/24")
    );
}

/// Saved routes reference a MAC-identified interface by its logical (profile)
/// name, but the interface-change lists are keyed by kernel interface name.
/// Marking that interface `absent` in the desired state must still drop its
/// saved routes from the persisted state.
#[test]
fn test_gen_state_for_save_drops_routes_of_absent_mac_identified_iface() {
    let saved = state_of(
        r#"---
        interfaces:
          - name: wan0
            type: ethernet
            state: up
            identifier: mac-address
            mac-address: 02:00:00:00:00:0A
        routes:
          config:
            - destination: 198.51.100.0/24
              next-hop-interface: wan0
              next-hop-address: 192.0.2.1
              metric: 100
              table-id: 254
        "#,
    );

    let current = state_of(
        r#"---
        interfaces:
          - name: eth0
            type: ethernet
            state: up
            mac-address: 02:00:00:00:00:0A
        routes:
          config:
            - destination: 198.51.100.0/24
              next-hop-interface: eth0
              next-hop-address: 192.0.2.1
              metric: 100
              table-id: 254
        "#,
    );

    let desired = state_of(
        r#"---
        interfaces:
          - name: wan0
            type: ethernet
            state: absent
            identifier: mac-address
            mac-address: 02:00:00:00:00:0A
        "#,
    );

    let merged = MergedNetworkState::new(
        desired,
        current,
        Some(saved),
        Default::default(),
    )
    .unwrap();

    let saved_routes = merged.gen_state_for_save().routes.config.unwrap();
    assert!(
        saved_routes.is_empty(),
        "Routes of the deleted MAC-identified interface wan0 must not be \
         persisted, got {saved_routes:?}"
    );
}

/// An `absent` route in the desired state referencing a MAC-identified
/// interface by its profile name must also drop the saved route persisted
/// with the same profile name (the absent desired route is resolved to the
/// kernel interface name before matching).
#[test]
fn test_gen_state_for_save_drops_explicitly_absent_profile_named_route() {
    let saved = state_of(
        r#"---
        interfaces:
          - name: wan0
            type: ethernet
            state: up
            identifier: mac-address
            mac-address: 02:00:00:00:00:0B
        routes:
          config:
            - destination: 198.51.100.0/24
              next-hop-interface: wan0
              next-hop-address: 192.0.2.1
              metric: 100
              table-id: 254
        "#,
    );

    let current = state_of(
        r#"---
        interfaces:
          - name: eth0
            type: ethernet
            state: up
            mac-address: 02:00:00:00:00:0B
        routes:
          config:
            - destination: 198.51.100.0/24
              next-hop-interface: eth0
              next-hop-address: 192.0.2.1
              metric: 100
              table-id: 254
        "#,
    );

    let desired = state_of(
        r#"---
        interfaces:
          - name: wan0
            type: ethernet
            state: up
            identifier: mac-address
            mac-address: 02:00:00:00:00:0B
        routes:
          config:
            - destination: 198.51.100.0/24
              next-hop-interface: wan0
              state: absent
        "#,
    );

    let merged = MergedNetworkState::new(
        desired,
        current,
        Some(saved),
        Default::default(),
    )
    .unwrap();

    let saved_routes = merged.gen_state_for_save().routes.config.unwrap();
    assert!(
        saved_routes.is_empty(),
        "The explicitly absent route must not be persisted, got \
         {saved_routes:?}"
    );
}

/// The MAC address of a `identifier: mac-address` config is only an
/// identifier used to locate the interface. When the matched interface is
/// already a bond port (its MAC is controlled by the bond kernel driver,
/// e.g. active-backup mode assigns the bond's MAC to every slave), the MAC
/// must not be applied nor verified — otherwise apply of an already-settled
/// state fails verification forever.
#[test]
fn test_mac_identifier_bond_port_mac_not_applied_or_verified() {
    let desired = ifaces_of(
        r#"---
        - name: bond1
          type: bond
          state: up
          bond:
            mode: active-backup
            ports:
            - name: port1
            - name: port2
        - name: port1
          type: ethernet
          identifier: mac-address
          mac-address: 02:00:00:00:00:0a
        - name: port2
          type: ethernet
          identifier: mac-address
          mac-address: 02:00:00:00:00:09
        "#,
    );

    // The current MAC of the bond port differs from its permanent MAC (the
    // identifier) because the bond reassigned the port's MAC on enslave.
    // `controller-type` is not reported by the kernel query, only resolved
    // during merge.
    let current = ifaces_of(
        r#"---
        - name: bond1
          type: bond
          state: up
          bond:
            mode: active-backup
            ports:
            - name: enp1s0
            - name: enp2s0
        - name: enp1s0
          type: ethernet
          mac-address: 02:00:00:00:00:09
          permanent-mac-address: 02:00:00:00:00:0a
          state: up
          controller: bond1
        - name: enp2s0
          type: ethernet
          mac-address: 02:00:00:00:00:09
          permanent-mac-address: 02:00:00:00:00:09
          state: up
          controller: bond1
        "#,
    );

    let merged = MergedInterfaces::new(desired, current, None).unwrap();
    for (name, merged_iface) in &merged.kernel_ifaces.entries {
        if merged_iface.merged.base_iface().identifier
            != Some(InterfaceIdentifier::MacAddress)
        {
            continue;
        }
        assert!(
            merged_iface
                .for_verify
                .as_ref()
                .and_then(|i| i.base_iface().mac_address.as_ref())
                .is_none(),
            "{name}: for_verify must not carry mac-address for a bond port"
        );
        assert!(
            merged_iface
                .for_apply
                .as_ref()
                .and_then(|i| i.base_iface().mac_address.as_ref())
                .is_none(),
            "{name}: for_apply must not carry mac-address for a bond port"
        );
    }

    // And verification must pass against the post-apply current state where
    // the bond port MAC differs from the identifier MAC.
    let post_apply_current = ifaces_of(
        r#"---
        - name: bond1
          type: bond
          state: up
          bond:
            mode: active-backup
            ports:
            - name: enp1s0
            - name: enp2s0
        - name: enp1s0
          type: ethernet
          mac-address: 02:00:00:00:00:09
          permanent-mac-address: 02:00:00:00:00:0a
          state: up
          controller: bond1
        - name: enp2s0
          type: ethernet
          mac-address: 02:00:00:00:00:09
          permanent-mac-address: 02:00:00:00:00:09
          state: up
          controller: bond1
        "#,
    );
    merged
        .verify(&post_apply_current)
        .expect("verification must pass for settled bond port state");
}

/// The same as `test_mac_identifier_bond_port_mac_not_applied_or_verified`,
/// but for the transition case where the bond does not exist yet and the
/// MAC-identified interfaces are attached as bond ports in this apply.
#[test]
fn test_mac_identifier_bond_port_mac_not_applied_or_verified_transition() {
    let desired = ifaces_of(
        r#"---
        - name: bond1
          type: bond
          state: up
          bond:
            mode: active-backup
            ports:
            - name: port1
            - name: port2
        - name: port1
          type: ethernet
          identifier: mac-address
          mac-address: 02:00:00:00:00:0a
        - name: port2
          type: ethernet
          identifier: mac-address
          mac-address: 02:00:00:00:00:09
        "#,
    );

    let current = ifaces_of(
        r#"---
        - name: enp1s0
          type: ethernet
          mac-address: 02:00:00:00:00:0a
          permanent-mac-address: 02:00:00:00:00:0a
          state: up
        - name: enp2s0
          type: ethernet
          mac-address: 02:00:00:00:00:09
          permanent-mac-address: 02:00:00:00:00:09
          state: up
        "#,
    );

    let merged = MergedInterfaces::new(desired, current, None).unwrap();
    for (name, merged_iface) in &merged.kernel_ifaces.entries {
        if merged_iface.merged.base_iface().identifier
            != Some(InterfaceIdentifier::MacAddress)
        {
            continue;
        }
        assert!(
            merged_iface
                .for_apply
                .as_ref()
                .and_then(|i| i.base_iface().mac_address.as_ref())
                .is_none(),
            "{name}: for_apply must not carry mac-address for a bond port"
        );
    }
}

/// When the `identifier: mac-address` ports of a bond resolve to a
/// different kernel port order than the current bond (e.g. the user
/// swapped the MAC addresses of port1/port2 while the port set is
/// unchanged), verification must not fail on the port order: the bond
/// ports are sorted before comparison.
#[test]
fn test_mac_identifier_bond_port_order_swapped_passes_verify() {
    let desired = ifaces_of(
        r#"---
        - name: bond1
          type: bond
          state: up
          bond:
            mode: active-backup
            ports:
            - name: port1
            - name: port2
        - name: port1
          type: ethernet
          identifier: mac-address
          mac-address: 02:00:00:00:00:09
        - name: port2
          type: ethernet
          identifier: mac-address
          mac-address: 02:00:00:00:00:0a
        "#,
    );

    // port1 now matches enp2s0 and port2 matches enp1s0, so the desired
    // bond port order resolves to [enp2s0, enp1s0] while the current
    // bond holds [enp1s0, enp2s0].
    let current = ifaces_of(
        r#"---
        - name: bond1
          type: bond
          state: up
          bond:
            mode: active-backup
            ports:
            - name: enp1s0
            - name: enp2s0
        - name: enp1s0
          type: ethernet
          mac-address: 02:00:00:00:00:09
          permanent-mac-address: 02:00:00:00:00:0a
          state: up
          controller: bond1
        - name: enp2s0
          type: ethernet
          mac-address: 02:00:00:00:00:09
          permanent-mac-address: 02:00:00:00:00:09
          state: up
          controller: bond1
        "#,
    );

    let merged = MergedInterfaces::new(desired, current.clone(), None).unwrap();
    // The post-apply current state still holds the ports in the original
    // kernel order: verification must pass.
    merged
        .verify(&current)
        .expect("verification must pass when bond port order differs");
}

/// Sorting the bond ports before verification must not mask a real port
/// set change: when the apply failed to change the port set, verification
/// must still fail.
#[test]
fn test_bond_port_set_change_still_fails_verify() {
    let desired = ifaces_of(
        r#"---
        - name: bond1
          type: bond
          state: up
          bond:
            mode: active-backup
            ports:
            - name: enp1s0
            - name: enp2s0
        "#,
    );

    // Current bond holds enp1s0 + enp3s0 while enp2s0 exists standalone:
    // the desired port set differs from the current one.
    let current = ifaces_of(
        r#"---
        - name: bond1
          type: bond
          state: up
          bond:
            mode: active-backup
            ports:
            - name: enp3s0
            - name: enp1s0
        - name: enp1s0
          type: ethernet
          state: up
          controller: bond1
        - name: enp2s0
          type: ethernet
          state: up
        - name: enp3s0
          type: ethernet
          state: up
          controller: bond1
        "#,
    );

    let merged = MergedInterfaces::new(desired, current.clone(), None).unwrap();
    // The post-apply state still holds the old port set (the apply did not
    // manage to change it): sorting must not hide the difference.
    let result = merged.verify(&current);
    assert!(
        result.is_err(),
        "verification must fail when the bond port set differs: {result:?}"
    );
}

#[test]
fn test_bond_port_with_ip_rejected() {
    let desired = ifaces_of(
        r#"---
        - name: bond0
          type: bond
          state: up
          bond:
            mode: active-backup
            ports:
            - name: dummy1
        - name: dummy1
          type: dummy
          state: up
          ipv4:
            enabled: true
            dhcp: false
            address:
            - ip: 192.0.2.1
              prefix-length: 24
        "#,
    );

    let result = MergedInterfaces::new(desired, Interfaces::default(), None);
    assert!(result.is_err());
    if let Err(e) = result {
        assert_eq!(e.kind(), ErrorKind::InvalidArgument);
        assert!(
            e.msg().contains("cannot have IP enabled"),
            "Unexpected error: {}",
            e.msg()
        );
        assert!(
            e.msg().contains("controller bond0"),
            "Unexpected error: {}",
            e.msg()
        );
    }
}

#[test]
fn test_bridge_port_with_ip_rejected() {
    let desired = ifaces_of(
        r#"---
        - name: br0
          type: linux-bridge
          state: up
          bridge:
            port:
            - name: dummy1
        - name: dummy1
          type: dummy
          state: up
          ipv6:
            enabled: true
        "#,
    );

    let result = MergedInterfaces::new(desired, Interfaces::default(), None);
    assert!(result.is_err());
    if let Err(e) = result {
        assert_eq!(e.kind(), ErrorKind::InvalidArgument);
        assert!(
            e.msg().contains("cannot have IP enabled"),
            "Unexpected error: {}",
            e.msg()
        );
    }
}

#[test]
fn test_vrf_port_with_ip_allowed() {
    let desired = ifaces_of(
        r#"---
        - name: vrf0
          type: vrf
          state: up
          vrf:
            route-table-id: 100
            ports:
            - dummy1
        - name: dummy1
          type: dummy
          state: up
          ipv4:
            enabled: true
            dhcp: false
            address:
            - ip: 192.0.2.1
              prefix-length: 24
        "#,
    );

    let merged =
        MergedInterfaces::new(desired, Interfaces::default(), None).unwrap();
    let dummy1 = merged.kernel_ifaces.get(&name("dummy1")).unwrap();
    // VRF port keeps its IP in the merged state.
    assert!(dummy1.merged.base_iface().can_have_ip());
    assert_eq!(
        dummy1
            .merged
            .base_iface()
            .ipv4
            .as_ref()
            .and_then(|ipv4| ipv4.enabled),
        Some(true),
    );
}

#[test]
fn test_vrf_with_ip_allowed() {
    let desired = ifaces_of(
        r#"---
        - name: vrf0
          type: vrf
          state: up
          vrf:
            route-table-id: 100
          ipv4:
            enabled: true
            dhcp: false
            address:
            - ip: 192.0.2.1
              prefix-length: 24
        "#,
    );

    let merged =
        MergedInterfaces::new(desired, Interfaces::default(), None).unwrap();
    let vrf0 = merged.kernel_ifaces.get(&name("vrf0")).unwrap();
    assert!(vrf0.merged.base_iface().can_have_ip());
}

#[test]
fn test_bond_port_with_explicit_controller_and_ip_rejected() {
    let desired = ifaces_of(
        r#"---
        - name: bond0
          type: bond
          state: up
          bond:
            mode: active-backup
            ports:
            - name: dummy1
        - name: dummy1
          type: dummy
          state: up
          controller: bond0
          ipv4:
            enabled: true
        "#,
    );

    let result = MergedInterfaces::new(desired, Interfaces::default(), None);
    assert!(result.is_err());
    if let Err(e) = result {
        assert_eq!(e.kind(), ErrorKind::InvalidArgument);
        assert!(
            e.msg().contains("cannot have IP enabled"),
            "Unexpected error: {}",
            e.msg()
        );
    }
}

#[test]
fn test_bond_port_ip_purged_from_save_when_attached() {
    // Saved config has IP on dummy1, desired state moves dummy1 to bond0:
    // the apply must not fail and the IP must be purged from the saved
    // config (and disabled in for_apply so the running address is removed).
    let desired = ifaces_of(
        r#"---
        - name: bond0
          type: bond
          state: up
          bond:
            mode: active-backup
            ports:
            - name: dummy1
        "#,
    );
    let current = ifaces_of(
        r#"---
        - name: dummy1
          type: dummy
          state: up
          ipv4:
            enabled: true
            dhcp: false
            address:
            - ip: 192.0.2.1
              prefix-length: 24
        "#,
    );
    let saved = current.clone();

    let merged = MergedInterfaces::new(desired, current, Some(saved)).unwrap();

    let dummy1 = merged.kernel_ifaces.get(&name("dummy1")).unwrap();
    // Saved config must be purged.
    assert_eq!(dummy1.for_save.as_ref().unwrap().base_iface().ipv4, None,);
    assert_eq!(dummy1.for_save.as_ref().unwrap().base_iface().ipv6, None,);
    // for_apply must disable IPv4 so the running address is removed.
    assert_eq!(
        dummy1
            .for_apply
            .as_ref()
            .unwrap()
            .base_iface()
            .ipv4
            .as_ref()
            .and_then(|ipv4| ipv4.enabled),
        Some(false),
    );
    // merged must not hold IP.
    assert_eq!(dummy1.merged.base_iface().ipv4, None);
}

#[test]
fn test_vrf_port_ip_kept_in_save_when_attached() {
    // VRF ports can hold IP: attaching dummy1 to a VRF must NOT purge the
    // IP from the saved config.
    let desired = ifaces_of(
        r#"---
        - name: vrf0
          type: vrf
          state: up
          vrf:
            route-table-id: 100
            ports:
            - dummy1
        "#,
    );
    let current = ifaces_of(
        r#"---
        - name: dummy1
          type: dummy
          state: up
          ipv4:
            enabled: true
            dhcp: false
            address:
            - ip: 192.0.2.1
              prefix-length: 24
        "#,
    );
    let saved = current.clone();

    let merged = MergedInterfaces::new(desired, current, Some(saved)).unwrap();

    let dummy1 = merged.kernel_ifaces.get(&name("dummy1")).unwrap();
    assert!(dummy1.merged.base_iface().can_have_ip());
    assert_eq!(
        dummy1
            .for_save
            .as_ref()
            .unwrap()
            .base_iface()
            .ipv4
            .as_ref()
            .and_then(|ipv4| ipv4.enabled),
        Some(true),
    );
}

#[test]
fn test_description_not_applied_or_verified() {
    let desired = ifaces_of(
        r#"---
        - name: eth0
          type: ethernet
          state: up
          description: "Main interface connected to switch S1"
        "#,
    );
    let current = ifaces_of(
        r#"---
        - name: eth0
          type: ethernet
          state: up
        "#,
    );

    let merged = MergedInterfaces::new(desired, current, None).unwrap();

    let merged_iface = merged.kernel_ifaces.get(&name("eth0")).unwrap();
    // A description-only change must not trigger a kernel apply.
    assert!(merged_iface.for_apply.is_none());
    assert_eq!(merged_iface.for_revert, None);
    // The description is kept for persistence.
    assert_eq!(
        merged_iface
            .for_save
            .as_ref()
            .unwrap()
            .base_iface()
            .description
            .as_deref(),
        Some("Main interface connected to switch S1")
    );
    // The description is not verified.
    assert_eq!(
        merged_iface
            .for_verify
            .as_ref()
            .unwrap()
            .base_iface()
            .description,
        None
    );
}

#[test]
fn test_description_kept_in_save_with_real_change() {
    let desired = ifaces_of(
        r#"---
        - name: eth0
          type: ethernet
          state: up
          description: "Main interface connected to switch S1"
          mtu: 9000
        "#,
    );
    let current = ifaces_of(
        r#"---
        - name: eth0
          type: ethernet
          state: up
        "#,
    );

    let merged = MergedInterfaces::new(desired, current, None).unwrap();

    let merged_iface = merged.kernel_ifaces.get(&name("eth0")).unwrap();
    let for_apply = merged_iface.for_apply.as_ref().unwrap();
    assert_eq!(for_apply.base_iface().mtu, Some(9000));
    assert_eq!(for_apply.base_iface().description, None);
    assert_eq!(
        merged_iface
            .for_save
            .as_ref()
            .unwrap()
            .base_iface()
            .description
            .as_deref(),
        Some("Main interface connected to switch S1")
    );
}

#[test]
fn test_description_survives_merge_with_saved_state() {
    let desired = ifaces_of(
        r#"---
        - name: eth0
          type: ethernet
          state: up
          mtu: 9000
        "#,
    );
    let current = ifaces_of(
        r#"---
        - name: eth0
          type: ethernet
          state: up
        "#,
    );
    let saved = ifaces_of(
        r#"---
        - name: eth0
          type: ethernet
          state: up
          description: "Main interface connected to switch S1"
        "#,
    );

    let merged = MergedInterfaces::new(desired, current, Some(saved)).unwrap();

    let merged_iface = merged.kernel_ifaces.get(&name("eth0")).unwrap();
    assert_eq!(
        merged_iface
            .for_save
            .as_ref()
            .unwrap()
            .base_iface()
            .description
            .as_deref(),
        Some("Main interface connected to switch S1")
    );
}

fn wifi_cfg_desired() -> Interfaces {
    ifaces_of(
        r#"---
        - name: HomeWiFi
          type: wifi-cfg
          state: up
          ipv4:
            enabled: true
            dhcp: true
          ipv6:
            enabled: true
            dhcp: true
            autoconf: true
          wifi:
            ssid: HomeWiFi
        "#,
    )
}

fn connected_wifi_phy() -> Interfaces {
    ifaces_of(
        r#"---
        - name: wlan0
          type: wifi-phy
          state: up
          link-state: up
          mac-address: 02:00:00:00:00:01
          permanent-mac-address: 02:00:00:00:00:01
          profile-name: wlan0
          wifi:
            ssid: HomeWiFi
        "#,
    )
}

#[test]
fn test_expand_wifi_cfg_ip_to_connected_phy() {
    let mut desired = wifi_cfg_desired();
    expand_wifi_cfg_to_connected_phy(&mut desired, &connected_wifi_phy());

    let phy = desired.kernel_ifaces.get(&name("wlan0")).unwrap();
        assert_eq!(phy.iface_type(), InterfaceType::WifiPhy);
    assert_eq!(
        phy.base_iface().ipv6.as_ref().and_then(|ipv6| ipv6.dhcp),
        Some(true)
    );
    assert!(
        desired.user_ifaces.contains_key(&(
            "HomeWiFi".to_string(),
            InterfaceType::WifiCfg
        ))
    );
}

#[test]
fn test_no_expand_when_wifi_phy_not_connected() {
    let mut desired = wifi_cfg_desired();
    let current = ifaces_of(
        r#"---
        - name: wlan0
          type: wifi-phy
          state: up
          link-state: down
          mac-address: 02:00:00:00:00:01
          wifi:
            ssid: HomeWiFi
        "#,
    );

    expand_wifi_cfg_to_connected_phy(&mut desired, &current);

    assert!(!desired.kernel_ifaces.contains_key(&name("wlan0")));
}

const IFACE: &str = "wlan0";

fn current_state(link_state: &str) -> NetworkState {
    state_of(&format!(
        r#"---
        interfaces:
          - name: {IFACE}
            type: wifi-phy
            state: up
            link-state: {link_state}
        "#
    ))
}

fn add_route(
    state: &mut NetworkState,
    destination: &str,
    next_hop_iface: Option<&str>,
) {
    let route = RouteEntry {
        destination: Some(destination.to_string()),
        next_hop_iface: next_hop_iface.map(str::to_string),
        ..Default::default()
    };
    state.routes.running = Some(vec![route]);
}

#[test]
fn test_gateway_met_only_when_iface_link_usable() {
    let mut up = current_state("up");
    add_route(&mut up, "0.0.0.0/0", Some(IFACE));
    assert!(NipartWaitOnlineCondition::Gateway.is_met(&up));

    // Tunnels, dummy and wireguard report `unknown` while up.
    let mut unknown = current_state("unknown");
    add_route(&mut unknown, "0.0.0.0/0", Some(IFACE));
    assert!(NipartWaitOnlineCondition::Gateway.is_met(&unknown));

    for link_state in ["down", "dormant", "lower-layer-down"] {
        let mut state = current_state(link_state);
        add_route(&mut state, "0.0.0.0/0", Some(IFACE));
        assert!(
            !NipartWaitOnlineCondition::Gateway.is_met(&state),
            "gateway on {link_state} interface must not count as online"
        );
    }
}

#[test]
fn test_gateway_met_with_route_on_another_usable_iface() {
    let mut state = state_of(
        r#"---
        interfaces:
          - name: wlan0
            type: wifi-phy
            state: up
            link-state: down
          - name: wg0
            type: wireguard
            state: up
            link-state: unknown
        "#,
    );
    let mut bad = RouteEntry {
        destination: Some("0.0.0.0/0".to_string()),
        next_hop_iface: Some("wlan0".to_string()),
        ..Default::default()
    };
    bad.metric = Some(100);
    let good = RouteEntry {
        destination: Some("0.0.0.0/0".to_string()),
        next_hop_iface: Some("wg0".to_string()),
        ..Default::default()
    };
    state.routes.running = Some(vec![bad, good]);
    assert!(NipartWaitOnlineCondition::Gateway.is_met(&state));
}

#[test]
fn test_gateway_not_met_without_nexthop_iface() {
    let mut state = current_state("up");
    add_route(&mut state, "0.0.0.0/0", None);
    assert!(!NipartWaitOnlineCondition::Gateway.is_met(&state));
}

#[test]
fn test_gateway_not_met_when_iface_missing_from_state() {
    let mut state = current_state("up");
    add_route(&mut state, "0.0.0.0/0", Some("wlan1"));
    assert!(!NipartWaitOnlineCondition::Gateway.is_met(&state));
}

#[test]
fn test_gateway_not_met_without_running_routes() {
    assert!(!NipartWaitOnlineCondition::Gateway.is_met(&current_state("up")));
}

#[test]
fn test_gateway4_and_gateway6_are_family_specific() {
    let mut v4 = current_state("up");
    add_route(&mut v4, "0.0.0.0/0", Some(IFACE));
    assert!(NipartWaitOnlineCondition::Gateway4.is_met(&v4));
    assert!(!NipartWaitOnlineCondition::Gateway6.is_met(&v4));
    assert!(NipartWaitOnlineCondition::Gateway.is_met(&v4));

    let mut v6 = current_state("up");
    add_route(&mut v6, "::/0", Some(IFACE));
    assert!(!NipartWaitOnlineCondition::Gateway4.is_met(&v6));
    assert!(NipartWaitOnlineCondition::Gateway6.is_met(&v6));
    assert!(NipartWaitOnlineCondition::Gateway.is_met(&v6));
}

#[test]
fn test_new_from_yaml_valid_full_state() {
    let state = state_of(
        r#"---
        version: 1
        description: full state
        wait-online:
          timeout-sec: 60
          conditions:
            - gateway4
        routes:
          config:
            - destination: 0.0.0.0/0
              next-hop-address: 192.0.2.1
              next-hop-interface: eth1
        interfaces:
          - name: eth1
            type: ethernet
            state: up
        "#,
    );

    assert_eq!(state.version, Some(1));
    assert_eq!(state.description, Some("full state".to_string()));

    let wait_online = state.wait_online.as_ref().unwrap();
    assert_eq!(wait_online.timeout_sec, 60);
    assert_eq!(
        wait_online.conditions,
        vec![NipartWaitOnlineCondition::Gateway4]
    );

    let routes = state.routes.config.as_ref().unwrap();
    assert_eq!(routes.len(), 1);
    assert_eq!(routes[0].destination.as_deref(), Some("0.0.0.0/0"));

    assert!(!state.ifaces.is_empty());
    assert!(state.ifaces.kernel_ifaces.contains_key(&name("eth1")));
}

#[test]
fn test_new_from_yaml_empty_string() {
    let state = state_of("");
    assert!(state.is_empty());
    assert!(state.ifaces.is_empty());
    assert!(state.routes.is_empty());
    assert!(state.wait_online.is_none());
}

#[test]
fn test_description_and_wait_online_saved_when_desired_omits_them() {
    let saved = state_of(
        r#"---
        version: 1
        description: saved description
        wait-online:
          timeout-sec: 60
          conditions:
            - gateway4
        "#,
    );
    let desired = state_of(
        r#"---
        version: 1
        interfaces:
          - name: test-saved0
            type: dummy
            state: saved
        "#,
    );

    let merged = MergedNetworkState::new(
        desired,
        NetworkState::default(),
        Some(saved),
        NipartApplyOption::default(),
    )
    .unwrap();
    let state_to_save = merged.gen_state_for_save();

    assert_eq!(
        state_to_save.description.as_deref(),
        Some("saved description")
    );
    let wait_online = state_to_save.wait_online.as_ref().unwrap();
    assert_eq!(wait_online.timeout_sec, 60);
    assert_eq!(
        wait_online.conditions,
        vec![NipartWaitOnlineCondition::Gateway4]
    );
}

#[test]
fn test_description_and_wait_online_override_saved_state() {
    let saved = state_of(
        r#"---
        version: 1
        description: saved description
        wait-online:
          timeout-sec: 60
          conditions:
            - gateway4
        "#,
    );
    let desired = state_of(
        r#"---
        version: 1
        description: desired description
        wait-online:
          timeout-sec: 5
          conditions: []
        interfaces:
          - name: test-saved0
            type: dummy
            state: saved
        "#,
    );

    let merged = MergedNetworkState::new(
        desired,
        NetworkState::default(),
        Some(saved),
        NipartApplyOption::default(),
    )
    .unwrap();
    let state_to_save = merged.gen_state_for_save();

    assert_eq!(
        state_to_save.description.as_deref(),
        Some("desired description")
    );
    let wait_online = state_to_save.wait_online.as_ref().unwrap();
    assert_eq!(wait_online.timeout_sec, 5);
    assert!(wait_online.conditions.is_empty());
}

fn wifi_password(state: &NetworkState) -> Option<&str> {
    state
        .ifaces
        .kernel_ifaces
        .get(&name("wlan0"))
        .and_then(|iface| iface.wifi.as_ref())
        .and_then(|wifi| wifi.password.as_deref())
}

#[test]
fn test_extract_secrets_only_contains_iface_secrets() {
    let mut state = state_of(
        r#"---
        version: 1
        description: test
        wait-online:
          timeout-sec: 60
        routes:
          config:
            - destination: 0.0.0.0/0
              next-hop-address: 192.0.2.1
              next-hop-interface: eth1
        dns-resolver:
          config:
            server:
              - 127.0.0.1
          cache:
            enabled: true
        interfaces:
          - name: wlan0
            type: wifi-phy
            wifi:
              ssid: Test-WIFI
              password: '12345678'
        "#,
    );

    let secrets = state.extract_secrets().unwrap();

    // Non-secret sections must not leak into the root-owned secrets file:
    // merging it later would override a manual edit of `applied.yml`.
    assert!(secrets.description.is_none());
    assert!(secrets.wait_online.is_none());
    assert!(secrets.routes.is_empty());
    assert!(secrets.route_rules.is_empty());
    assert!(secrets.dns_resolver.is_empty());

    assert_eq!(wifi_password(&secrets), Some("12345678"));
    assert_eq!(wifi_password(&state), Some(NetworkState::HIDE_SECRET_STR));
}

#[test]
fn test_route_rule_absent_marks_current_rule_for_removal() {
    let desired = rules_of(
        r#"---
        config:
          - state: absent
            route-table: 500
        "#,
    );
    let current = rules_of(
        r#"---
        config:
          - ip-from: 198.51.100.0/24
            route-table: 500
            priority: 100
          - ip-from: 203.0.113.0/24
            route-table: 600
            priority: 200
        "#,
    );

    let merged = MergedRouteRules::new(desired, current, None).unwrap();
    assert_eq!(merged.changed_rules.len(), 1);
    let absent_rule = &merged.changed_rules[0];
    assert!(absent_rule.is_absent());
    assert_eq!(absent_rule.table_id, Some(500));
    assert_eq!(absent_rule.ip_from.as_deref(), Some("198.51.100.0/24"));
    assert!(merged.gen_state_for_save().config.is_none());
}

#[test]
fn test_existing_route_rule_is_not_changed() {
    let desired = rules_of(
        r#"---
        config:
          - ip-from: 198.51.100.0/24
            route-table: 500
        "#,
    );
    let current = rules_of(
        r#"---
        config:
          - ip-from: 198.51.100.0/24
            route-table: 500
            priority: 30001
        "#,
    );

    let merged = MergedRouteRules::new(desired, current, None).unwrap();
    assert!(merged.changed_rules.is_empty());
    assert!(!merged.is_changed());
}

#[test]
fn test_new_route_rule_without_priority_gets_auto_priority() {
    let desired = rules_of(
        r#"---
        config:
          - ip-from: 203.0.113.0/24
            route-table: 500
        "#,
    );
    let current = rules_of(
        r#"---
        config:
          - ip-from: 198.51.100.0/24
            route-table: 500
            priority: 30010
        "#,
    );

    let merged = MergedRouteRules::new(desired, current, None).unwrap();
    assert_eq!(merged.changed_rules.len(), 1);
    let new_rule = &merged.changed_rules[0];
    assert!(!new_rule.is_absent());
    assert_eq!(new_rule.priority, Some(30011));
}

#[test]
fn test_route_rule_absent_wildcard_matches_saved_config() {
    let desired = rules_of(
        r#"---
        config:
          - state: absent
            route-table: 500
        "#,
    );
    let current = RouteRules::default();
    let saved = rules_of(
        r#"---
        config:
          - ip-from: 198.51.100.0/24
            route-table: 500
        "#,
    );

    let merged = MergedRouteRules::new(desired, current, Some(saved)).unwrap();
    assert!(merged.gen_state_for_save().config.is_none());
}

#[test]
fn test_route_rule_for_save_is_sanitized() {
    let desired = rules_of(
        r#"---
        config:
          - ip-from: 203.0.113.1
        "#,
    );

    let merged =
        MergedRouteRules::new(desired, RouteRules::default(), None).unwrap();
    let saved_rules = merged.gen_state_for_save().config.unwrap();

    assert_eq!(saved_rules.len(), 1);
    assert_eq!(saved_rules[0].ip_from.as_deref(), Some("203.0.113.1/32"));
    assert_eq!(saved_rules[0].family, Some(AddressFamily::Ipv4));
    assert_eq!(
        saved_rules[0].table_id,
        Some(RouteRuleEntry::DEFAULT_ROUTE_TABLE_ID)
    );
    assert_eq!(saved_rules[0].priority, None);
}

#[test]
fn test_route_rule_absent_removes_noncanonical_saved_rule() {
    let desired = rules_of(
        r#"---
        config:
          - state: absent
            ip-from: 203.0.113.1/32
            route-table: 500
        "#,
    );
    let current = RouteRules::default();
    let saved = rules_of(
        r#"---
        config:
          - ip-from: 203.0.113.1
            route-table: 500
        "#,
    );

    let merged = MergedRouteRules::new(desired, current, Some(saved)).unwrap();
    assert!(merged.gen_state_for_save().config.is_none());
}

#[test]
fn test_route_rule_state_absent_is_default() {
    assert_eq!(RouteRuleState::default(), RouteRuleState::Absent);
    let rule = RouteRuleEntry::default();
    assert!(!rule.is_absent());
    let absent = RouteRuleEntry {
        state: Some(RouteRuleState::Absent),
        ..Default::default()
    };
    assert!(absent.is_absent());
}

fn rule_from_yaml(yaml: &str) -> RouteRuleEntry {
    to_rule(&document(yaml))
}

#[test]
fn test_route_rule_sanitize_single_host_adds_prefix_length() {
    let mut rule = rule_from_yaml(
        r#"
        ip-from: 203.0.113.1
        ip-to: 192.0.2.0/24
        route-table: 254
        "#,
    );
    rule.sanitize().unwrap();
    assert_eq!(rule.ip_from.as_deref(), Some("203.0.113.1/32"));
    assert_eq!(rule.family, Some(AddressFamily::Ipv4));
}

#[test]
fn test_route_rule_absent_wildcard_matches_table() {
    let absent = rule_from_yaml(
        r#"
        state: absent
        route-table: 500
        "#,
    );
    let current = rule_from_yaml(
        r#"
        ip-from: 203.0.113.0/24
        route-table: 500
        priority: 1000
        "#,
    );
    assert!(absent.is_match(&current));
    assert!(!absent.is_match(&rule_from_yaml(
        r#"
        route-table: 501
        "#,
    )));
}

#[test]
fn test_route_rule_fwmask_without_fwmark_rejected() {
    let mut rule = rule_from_yaml(
        r#"
        ip-from: 203.0.113.0/24
        route-table: 500
        fwmask: 0x10
        "#,
    );
    assert!(rule.sanitize().is_err());
}

#[test]
fn test_route_rule_default_route_table() {
    let mut rule = rule_from_yaml(
        r#"
        ip-from: 203.0.113.1/32
        "#,
    );
    rule.sanitize().unwrap();
    assert_eq!(rule.table_id, Some(254));
}

#[test]
fn test_route_rule_merge_is_partial() {
    let old = rules_of(
        r#"
        config:
          - ip-from: 203.0.113.0/24
            route-table: 500
          - ip-from: 198.51.100.0/24
            route-table: 500
        "#,
    );
    let new = rules_of(
        r#"
        config:
          - state: absent
            route-table: 500
            ip-from: 198.51.100.0/24
          - ip-from: 192.0.2.0/24
            route-table: 600
        "#,
    );

    let merged = old.merge(&new).unwrap();
    let rules = merged.config.unwrap();
    assert_eq!(rules.len(), 2);
    assert!(
        rules
            .iter()
            .any(|r| r.ip_from.as_deref() == Some("203.0.113.0/24"))
    );
    assert!(
        rules
            .iter()
            .any(|r| r.ip_from.as_deref() == Some("192.0.2.0/24"))
    );
}

const DOC_EXAMPLE_YAML: &str = r#"---
version: 1
dns-resolver:
  config:
    search:
      - example.org
      - example.net
    server:
      - 127.0.0.1
  cache:
    enabled: true
    bind: "127.0.0.1:53"
    max-cache-size: 1048576
    load-etc-hosts: false
    fallback:
      auto-dns: true
      nameservers:
        - "https://dns.example.org/dns-query"
        - "https://doh.example.net/dns-query"
      disable-ipv6: false
    doh:
      nameservers:
        - 192.0.2.53
        - 198.51.100.53
      disable-ipv6: true
    groups:
      - name: home
        domains:
          - home.example.org
          - 2.0.192.in-addr.arpa
        nameservers:
          - 203.0.113.1
      - name: corp
        disable-ipv6: true
        domains:
          - corp.example.net
          - 113.0.203.in-addr.arpa
        nameservers:
          - 203.0.113.254
          - 203.0.113.253
"#;

fn parse(yaml: &str) -> DnsResolver {
    state_of(yaml).dns_resolver
}

fn validate(yaml: &str) -> Result<(), NipartError> {
    state_of(yaml).validate("")
}

/// Assert `yaml` is rejected by the schema validation with an error message
/// containing `msg`.
fn assert_invalid(yaml: &str, msg: &str) {
    let result = validate(yaml);
    let err = match result {
        Ok(()) => panic!("Expected {yaml} to be rejected with '{msg}'"),
        Err(e) => e,
    };
    assert_eq!(err.kind(), ErrorKind::InvalidArgument);
    assert!(
        err.msg().contains(msg),
        "Error message '{}' does not contain '{msg}'",
        err.msg()
    );
}

#[test]
fn test_dns_resolver_doc_example() {
    let dns = parse(DOC_EXAMPLE_YAML);
    assert!(dns.running.is_none());
    let config = dns.config.as_ref().unwrap();
    assert_eq!(
        config.search.as_ref().unwrap(),
        &vec!["example.org".to_string(), "example.net".to_string()]
    );
    assert_eq!(
        config.server.as_ref().unwrap(),
        &vec!["127.0.0.1".to_string()]
    );
    let cache = dns.cache.as_ref().unwrap();
    assert!(cache.enabled);
    assert_eq!(cache.bind, "127.0.0.1:53");
    assert_eq!(cache.max_cache_size, 1048576);
    assert!(!cache.load_etc_hosts);
    assert!(cache.fallback.auto_dns);
    assert_eq!(
        cache.fallback.nameservers,
        vec![
            "https://dns.example.org/dns-query".to_string(),
            "https://doh.example.net/dns-query".to_string(),
        ]
    );
    let doh = cache.doh.as_ref().unwrap();
    assert_eq!(
        doh.nameservers,
        vec![
            parse_ip_addr("192.0.2.53").unwrap(),
            parse_ip_addr("198.51.100.53").unwrap(),
        ]
    );
    assert!(doh.disable_ipv6);
    assert_eq!(cache.groups.len(), 2);
    assert_eq!(cache.groups[0].name, "home");
    assert_eq!(
        cache.groups[0].domains,
        vec![
            "home.example.org".to_string(),
            "2.0.192.in-addr.arpa".to_string(),
        ]
    );
    assert_eq!(cache.groups[0].nameservers, vec!["203.0.113.1"]);
    assert_eq!(cache.groups[1].name, "corp");
    assert!(cache.groups[1].disable_ipv6);
    assert!(validate(DOC_EXAMPLE_YAML).is_ok());
}

#[test]
fn test_dns_cache_defaults() {
    let dns = parse(
        r#"---
        dns-resolver:
          config:
            server:
              - 127.0.0.1
          cache:
            enabled: true
        "#,
    );
    let cache = dns.cache.as_ref().unwrap();
    assert!(cache.enabled);
    assert_eq!(cache.bind, DnsCacheConfig::DEFAULT_BIND);
    assert_eq!(cache.max_cache_size, DnsCacheConfig::DEFAULT_MAX_CACHE_SIZE);
    assert!(cache.load_etc_hosts);
    assert!(cache.fallback.auto_dns);
    assert!(cache.fallback.nameservers.is_empty());
    assert!(cache.doh.is_none());
    assert!(cache.groups.is_empty());
    assert_eq!(cache.bind_addr().unwrap().to_text(), "127.0.0.1:53");
}

#[test]
fn test_dns_resolver_running_and_config_are_optional() {
    let dns = parse(
        r#"---
        dns-resolver:
          running:
            search:
              - example.org
        "#,
    );
    assert!(dns.config.is_none());
    assert!(dns.cache.is_none());
    assert_eq!(
        dns.running.as_ref().unwrap().search.as_ref().unwrap(),
        &vec!["example.org".to_string()]
    );
}

#[test]
fn test_dns_cache_zero_size_is_valid() {
    assert!(
        validate(
            r#"---
            dns-resolver:
              config:
                server:
                  - 127.0.0.1
              cache:
                enabled: true
                max-cache-size: 0
            "#,
        )
        .is_ok()
    );
}

#[test]
fn test_dns_cache_enabled_requires_config_server() {
    // A cache that nothing points to is a silent failure: the schema
    // requires the cache bind address to be the first static nameserver.
    assert_invalid(
        r#"---
        dns-resolver:
          cache:
            enabled: true
        "#,
        "dns-resolver.config.server is not defined",
    );
}

#[test]
fn test_dns_cache_bind_must_be_first_nameserver() {
    assert_invalid(
        r#"---
        dns-resolver:
          config:
            server:
              - 192.0.2.53
              - 127.0.0.1
          cache:
            enabled: true
            bind: "127.0.0.1:53"
        "#,
        "must be the first entry",
    );
    // Reversing the order fixes it.
    assert!(
        validate(
            r#"---
            dns-resolver:
              config:
                server:
                  - 127.0.0.1
                  - 192.0.2.53
              cache:
                enabled: true
                bind: "127.0.0.1:53"
            "#,
        )
        .is_ok()
    );
}

#[test]
fn test_dns_cache_disabled_does_not_require_config_server() {
    assert!(
        validate(
            r#"---
            dns-resolver:
              cache:
                enabled: false
            "#,
        )
        .is_ok()
    );
}

#[test]
fn test_dns_cache_invalid_bind() {
    assert_invalid(
        r#"---
        dns-resolver:
          cache:
            enabled: true
            bind: "127.0.0.1"
        "#,
        "Invalid DNS cache bind address",
    );
    assert_invalid(
        r#"---
        dns-resolver:
          cache:
            bind: "not-an-address"
        "#,
        "Invalid DNS cache bind address",
    );
}

#[test]
fn test_dns_cache_group_name_empty_and_duplicated() {
    assert_invalid(
        r#"---
        dns-resolver:
          cache:
            groups:
              - name: ""
        "#,
        "group name cannot be empty",
    );
    assert_invalid(
        r#"---
        dns-resolver:
          cache:
            groups:
              - name: home
                domains:
                  - home.example.org
              - name: home
                domains:
                  - corp.example.net
        "#,
        "Duplicate DNS cache group name: home",
    );
}

#[test]
fn test_dns_cache_domain_overlap_rejected() {
    // Same domain in two groups is ambiguous: the runtime resolves the
    // longest suffix match first and ties by iteration order. Comparison is
    // case insensitive.
    assert_invalid(
        r#"---
        dns-resolver:
          cache:
            groups:
              - name: home
                domains:
                  - home.example.org
              - name: corp
                domains:
                  - HOME.EXAMPLE.ORG
        "#,
        "overlaps with domain",
    );
    // Subdomains of another group are fine: longest suffix match wins.
    assert!(
        validate(
            r#"---
            dns-resolver:
              cache:
                groups:
                  - name: home
                    domains:
                      - example.org
                  - name: corp
                    domains:
                      - home.example.org
            "#,
        )
        .is_ok()
    );
}

#[test]
fn test_dns_cache_group_domain_invalid() {
    assert_invalid(
        r#"---
        dns-resolver:
          cache:
            groups:
              - name: home
                domains:
                  - ""
        "#,
        "domain cannot be empty",
    );
    assert_invalid(
        r#"---
        dns-resolver:
          cache:
            groups:
              - name: home
                domains:
                  - "bad domain"
        "#,
        "Invalid DNS cache group domain",
    );
}

#[test]
fn test_dns_cache_invalid_nameserver() {
    assert_invalid(
        r#"---
        dns-resolver:
          cache:
            fallback:
              nameservers:
                - "192.0.2.999"
        "#,
        "Invalid nameserver at dns-resolver.cache.fallback",
    );
    assert_invalid(
        r#"---
        dns-resolver:
          cache:
            groups:
              - name: home
                nameservers:
                  - "dns.example.org"
        "#,
        "Invalid nameserver at dns-resolver.cache.groups.home.nameservers",
    );
}

#[test]
fn test_dns_cache_group_without_nameserver_blocks_domain() {
    // An empty nameserver list is the documented way to NXDOMAIN a domain.
    assert!(
        validate(
            r#"---
            dns-resolver:
              cache:
                groups:
                  - name: block-list
                    domains:
                      - ads.example.org
            "#,
        )
        .is_ok()
    );
}

#[test]
fn test_dns_cache_doh_requires_plain_nameservers() {
    assert_invalid(
        r#"---
        dns-resolver:
          cache:
            fallback:
              nameservers:
                - "https://dns.example.org/dns-query"
        "#,
        "dns-resolver.cache.doh.nameservers is not defined",
    );
    assert_invalid(
        r#"---
        dns-resolver:
          cache:
            fallback:
              nameservers:
                - "https://dns.example.org/dns-query"
            doh:
              nameservers: []
        "#,
        "must contain at least one plain IP nameserver",
    );
    assert!(
        validate(
            r#"---
            dns-resolver:
              cache:
                fallback:
                  nameservers:
                    - "https://dns.example.org/dns-query"
                doh:
                  nameservers:
                    - 192.0.2.53
            "#,
        )
        .is_ok()
    );
}

#[test]
fn test_dns_resolver_client_server_validation() {
    // Plain IPv4/IPv6 and IPv6 link-local with interface name are accepted,
    // same as `/etc/resolv.conf` supports.
    assert!(
        validate(
            r#"---
            dns-resolver:
              config:
                server:
                  - 192.0.2.53
                  - 2001:db8::53
                  - "fe80::1%eth1"
            "#,
        )
        .is_ok()
    );
    assert_invalid(
        r#"---
        dns-resolver:
          config:
            server:
              - "dns.example.org"
        "#,
        "Invalid DNS server string dns.example.org",
    );
    // A non link-local address cannot carry an interface name.
    assert_invalid(
        r#"---
        dns-resolver:
          config:
            server:
              - "2001:db8::1%eth1"
        "#,
        "Invalid DNS server string",
    );
    // An empty interface name is invalid.
    assert_invalid(
        r#"---
        dns-resolver:
          config:
            server:
              - "fe80::1%"
        "#,
        "Invalid DNS server string",
    );
}

#[test]
fn test_dns_resolver_client_options_validation() {
    assert!(
        validate(
            r#"---
            dns-resolver:
              config:
                options:
                  - trust-ad
                  - rotate
                  - ndots:2
                  - timeout:5
                  - attempts:3
            "#,
        )
        .is_ok()
    );
    // `ndots` requires a value.
    assert_invalid(
        r#"---
        dns-resolver:
          config:
            options:
              - ndots
        "#,
        "Unsupported DNS option ndots",
    );
    // `rotate` does not take a value.
    assert_invalid(
        r#"---
        dns-resolver:
          config:
            options:
              - rotate:1
        "#,
        "not supported to hold a value",
    );
    assert_invalid(
        r#"---
        dns-resolver:
          config:
            options:
              - not-an-option
        "#,
        "Unsupported DNS option not-an-option",
    );
}

#[test]
fn test_dns_resolver_merge_prefers_new_state() {
    let mut old = parse(
        r#"---
        dns-resolver:
          config:
            server:
              - 192.0.2.53
          cache:
            enabled: true
        "#,
    );
    let new = parse(
        r#"---
        dns-resolver:
          running:
            server:
              - 198.51.100.53
        "#,
    );
    old.merge(&new).unwrap();
    // Only the property present in the new state is replaced.
    assert_eq!(
        old.running.as_ref().unwrap().server.as_ref().unwrap(),
        &vec!["198.51.100.53".to_string()]
    );
    assert!(old.config.is_some());
    assert!(old.cache.is_some());

    let empty = DnsResolver::default();
    let mut keep = old.clone();
    keep.merge(&empty).unwrap();
    assert_eq!(keep, old);
}

#[test]
fn test_dns_cache_saved_when_desired_state_omits_dns() {
    let saved = state_of(
        r#"---
        version: 1
        dns-resolver:
          config:
            server:
              - 127.0.0.1
          cache:
            enabled: true
            bind: "127.0.0.1:53"
        "#,
    );
    let desired = state_of(
        r#"---
        version: 1
        interfaces:
          - name: test-dns0
            type: ethernet
            state: saved
        "#,
    );

    let merged = MergedNetworkState::new(
        desired,
        NetworkState::default(),
        Some(saved),
        NipartApplyOption::default(),
    )
    .unwrap();

    let state_to_save = merged.gen_state_for_save();
    let cache = state_to_save.dns_resolver.cache.clone();
    assert!(
        cache.is_some(),
        "DNS cache must survive an apply that omits `dns-resolver`"
    );
    let cache = cache.unwrap();
    assert!(cache.enabled);
    assert_eq!(cache.bind, "127.0.0.1:53");

    // An omitted DNS section must not apply or restart the cache.
    assert!(merged.dns.cache().is_none());
}

#[test]
fn test_dns_resolver_gen_diff_only_keeps_explicit_properties() {
    let old = parse(
        r#"---
        dns-resolver:
          config:
            server:
              - 192.0.2.53
          cache:
            enabled: false
        "#,
    );
    // Desired state only alters `config`: `cache` falls back to the old
    // value and `running` is never part of a desired state.
    let desired = parse(
        r#"---
        dns-resolver:
          config:
            search:
              - example.org
        "#,
    );
    let diff = desired.gen_diff(&old);
    assert!(diff.running.is_none());
    assert_eq!(
        diff.config.as_ref().unwrap().search.as_ref().unwrap(),
        &vec!["example.org".to_string()]
    );
    assert!(!diff.cache.as_ref().unwrap().enabled);
}

#[test]
fn test_dns_upstream_server_parse() {
    assert_eq!(
        DnsUpstreamServer::parse("192.0.2.53").unwrap(),
        DnsUpstreamServer::from_ip(parse_ip_addr("192.0.2.53").unwrap())
    );
    assert_eq!(
        DnsUpstreamServer::parse("192.0.2.53:5353").unwrap(),
        DnsUpstreamServer::Ip {
            addr: parse_socket_addr("192.0.2.53:5353").unwrap(),
            port_explicit: true,
        }
    );
    assert_eq!(
        DnsUpstreamServer::parse("2001:db8::53").unwrap(),
        DnsUpstreamServer::from_ip(parse_ip_addr("2001:db8::53").unwrap())
    );
    assert_eq!(
        DnsUpstreamServer::parse("[2001:db8::53]:5353").unwrap(),
        DnsUpstreamServer::Ip {
            addr: parse_socket_addr("[2001:db8::53]:5353").unwrap(),
            port_explicit: true,
        }
    );
    assert_eq!(
        DnsUpstreamServer::parse("[fe80::1%2]:53").unwrap(),
        DnsUpstreamServer::Ip {
            addr: parse_socket_addr("[fe80::1%2]:53").unwrap(),
            port_explicit: true,
        }
    );
    assert_eq!(
        DnsUpstreamServer::parse("https://dns.example.org/dns-query").unwrap(),
        DnsUpstreamServer::Doh("https://dns.example.org/dns-query".to_string())
    );
    assert!(!DnsUpstreamServer::parse("192.0.2.53").unwrap().is_doh());
    assert!(
        DnsUpstreamServer::parse("https://dns.example.org/dns-query")
            .unwrap()
            .is_doh()
    );
    assert!(DnsUpstreamServer::parse("http://dns.example.org").is_err());
    assert!(DnsUpstreamServer::parse("https://").is_err());
    // Interface name cannot be used as socket scope.
    assert!(DnsUpstreamServer::parse("fe80::1%eth1").is_err());
    assert!(DnsUpstreamServer::parse("[fe80::1%eth1]:53").is_err());
}

/// The string handed to mudz must keep an explicitly configured port and
/// drop an implicit one: mudz treats any port it is given as pinned, which
/// would send the opportunistic DoT probe to 53 instead of 853.
#[test]
fn test_dns_upstream_server_upstream_string() {
    for (input, expected) in [
        ("192.0.2.53", "192.0.2.53"),
        ("2001:db8::53", "2001:db8::53"),
        ("192.0.2.53:5353", "192.0.2.53:5353"),
        ("[2001:db8::53]:5353", "[2001:db8::53]:5353"),
        ("[fe80::1%2]:53", "[fe80::1%2]:53"),
        (
            "https://dns.example.org/dns-query",
            "https://dns.example.org/dns-query",
        ),
    ] {
        assert_eq!(
            DnsUpstreamServer::parse(input).unwrap().to_text(),
            expected,
            "upstream string for {input}"
        );
    }
}

#[test]
fn test_doh_url_hostname() {
    assert_eq!(
        doh_url_hostname("https://dns.example.org/dns-query"),
        Some("dns.example.org".to_string())
    );
    // Lowercased, port and userinfo stripped.
    assert_eq!(
        doh_url_hostname("https://DNS.Example.ORG:443/dns-query"),
        Some("dns.example.org".to_string())
    );
    assert_eq!(
        doh_url_hostname("https://user@dns.example.org/dns-query"),
        Some("dns.example.org".to_string())
    );
    // Bracketed IPv6 host.
    assert_eq!(
        doh_url_hostname("https://[2001:db8::1]/dns-query"),
        Some("2001:db8::1".to_string())
    );
    assert_eq!(doh_url_hostname("http://dns.example.org"), None);
    assert_eq!(doh_url_hostname("https:///dns-query"), None);
}

#[test]
fn test_dns_cache_load_etc_hosts_and_ipv6_flags() {
    let dns = parse(
        r#"---
        dns-resolver:
          cache:
            enabled: true
            load-etc-hosts: false
            fallback:
              disable-ipv6: true
            groups:
              - name: corp
                domains:
                  - corp.example.net
                disable-ipv6: true
                nameservers:
                  - 2001:db8::53
        "#,
    );
    let cache = dns.cache.as_ref().unwrap();
    assert!(!cache.load_etc_hosts);
    assert!(cache.fallback.disable_ipv6);
    assert!(cache.groups[0].disable_ipv6);
}

#[test]
fn test_dns_cache_doh_hostnames_collected() {
    let dns = parse(DOC_EXAMPLE_YAML);
    let cache = dns.cache.as_ref().unwrap();
    assert_eq!(
        cache.doh_hostnames(),
        vec!["dns.example.org".to_string(), "doh.example.net".to_string(),]
    );
}

#[test]
fn test_dns_cache_bind_ipv6_address() {
    let dns = parse(
        r#"---
        dns-resolver:
          config:
            server:
              - "::1"
          cache:
            enabled: true
            bind: "[::1]:5353"
        "#,
    );
    let cache = dns.cache.as_ref().unwrap();
    assert_eq!(
        cache.bind_addr().unwrap(),
        parse_socket_addr("[::1]:5353").unwrap()
    );
    assert!(
        validate(
            r#"---
            dns-resolver:
              config:
                server:
                  - "::1"
              cache:
                enabled: true
                bind: "[::1]:5353"
            "#,
        )
        .is_ok()
    );
}

#[test]
fn test_dns_cache_bind_non_loopback_is_allowed() {
    // Binding a gateway address is legitimate (container use case), so it
    // must not be rejected.
    assert!(
        validate(
            r#"---
            dns-resolver:
              config:
                server:
                  - 192.0.2.53
              cache:
                enabled: true
                bind: "192.0.2.53:53"
            "#,
        )
        .is_ok()
    );
}

#[test]
fn test_dns_resolver_client_is_empty() {
    assert!(DnsResolverClient::default().is_empty());
    assert!(
        !DnsResolverClient {
            search: Some(vec!["example.org".to_string()]),
            ..Default::default()
        }
        .is_empty()
    );
}

#[test]
fn test_dns_resolver_is_empty() {
    assert!(DnsResolver::default().is_empty());
    assert!(
        !DnsResolver {
            config: Some(DnsResolverClient {
                server: Some(vec![name("192.0.2.53")]),
                ..Default::default()
            }),
            ..Default::default()
        }
        .is_empty()
    );
    assert!(
        !DnsResolver {
            cache: Some(DnsCacheConfig {
                enabled: true,
                ..Default::default()
            }),
            ..Default::default()
        }
        .is_empty()
    );
    assert_eq!(parse_ip_addr("2001:db8::53").unwrap().to_text(), "2001:db8::53");
}

/// The `docs/english/features/dns.md` cache example must stay parseable and
/// valid; it is the user facing contract of the cache schema.
#[test]
fn test_dns_cache_doc_example_is_valid() {
    let yaml = r#"---
version: 1
dns-resolver:
  config:
    search:
      - example.org
      - example.net
    server:
      - 127.0.0.1
  cache:
    enabled: true
    bind: "127.0.0.1:53"
    max-cache-size: 4096
    load-etc-hosts: true
    fallback:
      auto-dns: true
      nameservers:
        - "https://dns.example.org/dns-query"
        - "https://doh.example.com/dns-query"
      disable-ipv6: false
    doh:
      nameservers:
        - 198.51.100.53
        - 203.0.113.53
      disable-ipv6: true
    groups:
      - name: home
        domains:
          - sweat.example.org
          - 2.0.192.in-addr.arpa
        nameservers:
          - 192.0.2.1
      - name: corp
        disable-ipv6: true
        domains:
          - rich.example.org
          - 0.51.100.in-addr.arpa
        nameservers:
          - 192.0.2.254
          - 192.0.2.253
"#;
    let state = state_of(yaml);
    state.validate("").unwrap();
    let cache = state.dns_resolver.cache.as_ref().unwrap();
    assert!(cache.enabled);
    assert_eq!(cache.max_cache_size, 4096);
    assert_eq!(cache.groups.len(), 2);
    assert!(cache.groups[1].disable_ipv6);
    assert!(cache.doh.is_some());
}

#[test]
fn test_yaml_serialize_hide_secrets() {
    let mut state = state_of(
        r#"---
        interfaces:
          - name: wlan0
            type: wifi-phy
            wifi:
              ssid: Test-WIFI
              password: 12345678
        "#,
    );

    state.hide_secrets();
    let text = format!("{state:?}");

    assert!(text.contains(NetworkState::HIDE_SECRET_STR));
    assert!(!text.contains("12345678"));
}
