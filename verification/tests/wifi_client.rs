//! Scenarios of the WIFI client and of the networks that it is handed.

use nipart::wifi_client::{
    NetworkConfig, NipartWifiControl, WifiAction, WifiClientState, WifiLiveState, WifiReport,
    build_shuli_networks, has_wifi_ssid_up_request, mac_to_string, merge_preferred_networks,
    same_saved_networks_ignoring_prefered, should_reconnect_to_networks,
};
use nipart::keymap::KeyMap;
use nipart::{BaseInterface, ErrorKind, Interface, InterfaceState, InterfaceType, WifiConfig};

#[test]
fn has_wifi_ssid_up_request_requires_ssid() {
    let mut wifi_cfg = Interface::from_base(BaseInterface::new(
        "Test-WIFI".to_string(),
        InterfaceType::WifiCfg,
    ));
    wifi_cfg.base.state = InterfaceState::Up;
    wifi_cfg.wifi = Some(WifiConfig {
        ssid: "Test-WIFI".to_string(),
        ..Default::default()
    });
    assert!(has_wifi_ssid_up_request(&vec![wifi_cfg]));

    let mut wifi_phy = Interface::from_base(BaseInterface::new(
        "wlan0".to_string(),
        InterfaceType::WifiPhy,
    ));
    wifi_phy.base.state = InterfaceState::Up;
    assert!(!has_wifi_ssid_up_request(&vec![wifi_phy]));
}

#[test]
fn set_control_off_on_toggles_wifi_state() {
    let mut state = WifiClientState::new();

    state.set_control(NipartWifiControl::Off);
    assert!(!state.enabled);
    assert!(!state.has_client());
    assert!(!state.is_connected());

    state.set_control(NipartWifiControl::On);
    assert!(state.enabled);
    assert!(!state.has_client());
    assert!(!state.is_connected());
}

#[test]
fn restart_client_resets_connected_state() {
    let mut state = WifiClientState::new();
    state.connected = true;

    state.restart_client();

    assert!(!state.is_connected());
    assert!(!state.has_client());
}

#[test]
fn notify_resume_without_client_is_noop() {
    let state = WifiClientState::new();

    assert!(!state.notify_resume());

    assert!(!state.has_client());
}

#[test]
fn live_state_tracks_connected_ifaces_per_interface() {
    let mut state = WifiClientState::new();

    state.set_live_connected(
        "wlan0",
        WifiLiveState {
            ssid: "Home-SSID".to_string(),
            bssid: None,
        },
    );
    state.set_live_connected(
        "wlan1",
        WifiLiveState {
            ssid: "Office-SSID".to_string(),
            bssid: None,
        },
    );
    assert!(state.is_connected());

    state.clear_live_iface("wlan0");
    assert!(state.is_connected());
    assert_eq!(
        state.live_ifaces.get(&"wlan1".to_string()).unwrap().ssid,
        "Office-SSID"
    );

    state.clear_live_iface("wlan1");
    assert!(!state.is_connected());
    assert!(state.live_ifaces.is_empty());
}

#[test]
fn set_control_off_clears_live_state() {
    let mut state = WifiClientState::new();
    state.set_live_connected(
        "wlan0",
        WifiLiveState {
            ssid: "Home-SSID".to_string(),
            bssid: None,
        },
    );

    state.set_control(NipartWifiControl::Off);

    assert!(!state.is_connected());
    assert!(state.live_ifaces.is_empty());
}

fn wifi_cfg(ssid: &str, password: Option<&str>) -> WifiConfig {
    WifiConfig {
        ssid: ssid.to_string(),
        password: password.map(str::to_string),
        ..Default::default()
    }
}

#[test]
fn build_shuli_networks_keeps_order_and_dedupes() {
    let cfgs = vec![
        wifi_cfg("A", None),
        wifi_cfg("B", Some("secret")),
        wifi_cfg("A", None),
    ];
    let networks = build_shuli_networks(&cfgs).unwrap();
    assert_eq!(networks.len(), 2);
    assert_eq!(networks[0].ssid, "A");
    assert_eq!(networks[0].password, None);
    assert_eq!(networks[1].ssid, "B");
    assert_eq!(networks[1].password.as_deref(), Some("secret"));
}

#[test]
fn build_shuli_networks_rejects_conflicting_password() {
    let cfgs = vec![wifi_cfg("A", Some("one")), wifi_cfg("A", Some("two"))];
    assert!(build_shuli_networks(&cfgs).is_err());
}

#[test]
fn same_saved_networks_ignoring_prefered_only() {
    let preferred = vec![network("A", None, true)];
    let normal = vec![network("A", None, false)];
    assert!(same_saved_networks_ignoring_prefered(&preferred, &normal));

    let different_password = vec![network("A", Some("secret"), false)];
    assert!(!same_saved_networks_ignoring_prefered(
        &preferred,
        &different_password
    ));

    let extra_network = vec![network("A", None, true), network("B", None, false)];
    assert!(!same_saved_networks_ignoring_prefered(
        &preferred,
        &extra_network
    ));
}

#[test]
fn forced_single_ssid_rescans_when_already_on_desired_ssid() {
    let networks = vec![network("Home-SSID", None, true)];
    assert!(should_reconnect_to_networks(
        &Some("Home-SSID".to_string()),
        &networks,
        true,
        &Some("Home-SSID".to_string()),
    ));
}

#[test]
fn forced_apply_reconnects_when_ssid_differs_or_disconnected() {
    let networks = vec![network("Office-SSID", None, true)];
    assert!(should_reconnect_to_networks(
        &Some("Home-SSID".to_string()),
        &networks,
        true,
        &Some("Office-SSID".to_string()),
    ));
    assert!(should_reconnect_to_networks(
        &None,
        &networks,
        true,
        &Some("Office-SSID".to_string()),
    ));
    assert!(!should_reconnect_to_networks(
        &Some("Office-SSID".to_string()),
        &networks,
        false,
        &Some("Office-SSID".to_string()),
    ));
}

#[test]
fn forced_full_list_keeps_connection_on_any_desired_ssid() {
    let networks = vec![network("A", None, false), network("B", None, false)];
    assert!(!should_reconnect_to_networks(
        &Some("A".to_string()),
        &networks,
        true,
        &None,
    ));
    assert!(!should_reconnect_to_networks(
        &Some("B".to_string()),
        &networks,
        true,
        &None,
    ));
    assert!(should_reconnect_to_networks(
        &Some("C".to_string()),
        &networks,
        true,
        &None,
    ));
}

#[test]
fn forced_single_ssid_reconnects_when_other_saved_ssid_connected() {
    let networks = vec![
        network("Home-SSID", None, true),
        network("Office-SSID", None, false),
    ];
    assert!(should_reconnect_to_networks(
        &Some("Office-SSID".to_string()),
        &networks,
        true,
        &Some("Home-SSID".to_string()),
    ));
}

fn network(ssid: &str, password: Option<&str>, prefered: bool) -> NetworkConfig {
    NetworkConfig {
        ssid: ssid.to_string(),
        password: password.map(str::to_string),
        hidden: false,
        prefered,
    }
}

#[test]
fn merge_preferred_networks_keeps_others_and_prefers_requested() {
    let existing = vec![
        network("A", None, false),
        network("B", Some("b-secret"), true),
    ];
    let cfgs = vec![wifi_cfg("B", Some("b-new"))];

    let merged = merge_preferred_networks(&existing, &cfgs).unwrap();

    assert_eq!(merged.len(), 2);
    assert_eq!(merged[0].ssid, "A");
    assert!(!merged[0].prefered);
    assert_eq!(merged[1].ssid, "B");
    assert!(merged[1].prefered);
    assert_eq!(merged[1].password.as_deref(), Some("b-new"));
}

#[test]
fn merge_preferred_networks_appends_new_ssid() {
    let existing = vec![network("A", None, false)];
    let cfgs = vec![wifi_cfg("B", None)];

    let merged = merge_preferred_networks(&existing, &cfgs).unwrap();

    assert_eq!(merged.len(), 2);
    assert_eq!(merged[0].ssid, "A");
    assert!(!merged[0].prefered);
    assert_eq!(merged[1].ssid, "B");
    assert!(merged[1].prefered);
}

#[test]
fn merge_preferred_networks_dedupes_requested_ssids() {
    let cfgs = vec![wifi_cfg("A", Some("secret")), wifi_cfg("A", Some("secret"))];

    let merged = merge_preferred_networks(&vec![], &cfgs).unwrap();

    assert_eq!(merged.len(), 1);
    assert_eq!(merged[0].ssid, "A");
    assert!(merged[0].prefered);
}

#[test]
fn merge_preferred_networks_rejects_conflicting_password() {
    let cfgs = vec![wifi_cfg("A", Some("one")), wifi_cfg("A", Some("two"))];

    assert!(merge_preferred_networks(&vec![], &cfgs).is_err());
}

fn wifi_iface(name: &str, ssid: &str, state: InterfaceState) -> Interface {
    let mut iface =
        Interface::from_base(BaseInterface::new(name.to_string(), InterfaceType::WifiPhy));
    iface.base.kernel_iface_name = name.to_string();
    iface.base.state = state;
    iface.wifi = Some(wifi_cfg(ssid, None));
    iface
}

fn phys(list: &[(&str, u32)]) -> KeyMap<String, u32> {
    let mut map = KeyMap::new();
    for (name, index) in list {
        map.insert(name.to_string(), *index);
    }
    map
}

#[test]
fn applying_starts_a_client_and_then_updates_it() {
    let mut state = WifiClientState::new();
    let up = vec![wifi_iface("wlan0", "Home", InterfaceState::Up)];
    let devices = phys(&[("wlan0", 3)]);
    match state.apply(&up, false, &devices).unwrap() {
        WifiAction::Restart(starts) => {
            assert_eq!(starts.len(), 1);
            assert_eq!(starts[0].iface_name, "wlan0");
            assert_eq!(starts[0].networks, vec![network("Home", None, false)]);
        }
        action => panic!("{action:?}"),
    }
    state.client_started(true);
    match state.apply(&up, false, &devices).unwrap() {
        WifiAction::Update(updates) => assert!(updates.is_empty()),
        action => panic!("{action:?}"),
    }
    let other = vec![wifi_iface("wlan0", "Office", InterfaceState::Up)];
    match state.apply(&other, true, &devices).unwrap() {
        WifiAction::Update(updates) => {
            assert_eq!(updates.len(), 1);
            assert!(updates[0].reconnect);
            assert_eq!(
                updates[0].networks,
                vec![network("Home", None, false), network("Office", None, true)]
            );
            state.networks_updated(&updates[0].iface_name, updates[0].networks.clone());
        }
        action => panic!("{action:?}"),
    }
    // The device was created again, so the client has to be, too.
    let recreated = phys(&[("wlan0", 4)]);
    match state.apply(&up, false, &recreated).unwrap() {
        WifiAction::Restart(starts) => {
            assert_eq!(starts[0].networks, vec![network("Home", None, false)]);
        }
        action => panic!("{action:?}"),
    }
    let down = vec![wifi_iface("wlan0", "Home", InterfaceState::Down)];
    match state.apply(&down, false, &recreated).unwrap() {
        WifiAction::Restart(starts) => assert!(starts.is_empty()),
        action => panic!("{action:?}"),
    }
}

#[test]
fn only_a_request_to_join_turns_wifi_on() {
    let mut state = WifiClientState::new();
    state.set_control(NipartWifiControl::Off);
    let devices = phys(&[("wlan0", 3)]);
    let mut idle = wifi_iface("wlan0", "", InterfaceState::Up);
    idle.wifi = None;
    assert_eq!(state.apply(&vec![idle], false, &devices).unwrap(), WifiAction::Nothing);
    assert!(!state.enabled);
    let error = state.check_scan().unwrap_err();
    assert_eq!(error.kind(), ErrorKind::PluginFailure);
    let up = vec![wifi_iface("wlan0", "Home", InterfaceState::Up)];
    state.apply(&up, false, &devices).unwrap();
    assert!(state.enabled);
    assert!(state.check_scan().is_ok());
}

#[test]
fn turning_wifi_on_twice_keeps_the_connection() {
    let mut state = WifiClientState::new();
    state.client_started(true);
    state.report("wlan0", WifiReport::Connected(Some("Home".to_string()), Some([0, 1, 2, 3, 4, 255])));
    assert_eq!(state.set_control(NipartWifiControl::On), WifiAction::Nothing);
    assert!(state.is_connected());
    assert_eq!(state.live_ssid(&"wlan0".to_string()).as_deref(), Some("Home"));
    assert_eq!(
        state.live_ifaces.get(&"wlan0".to_string()).unwrap().bssid.as_deref(),
        Some("00:01:02:03:04:ff")
    );
    assert_eq!(state.run_once_timeout_secs(), 86400);
    state.report("wlan0", WifiReport::NotConnected);
    assert!(!state.is_connected());
    assert_eq!(state.run_once_timeout_secs(), 120);
    state.report("wlan0", WifiReport::Connected(Some("Home".to_string()), None));
    state.shutdown();
    assert!(!state.is_connected());
}

#[test]
fn wifi_interfaces_are_either_up_or_off() {
    let mut state = WifiClientState::new();
    let saved = vec![wifi_iface("wlan0", "Home", InterfaceState::Saved)];
    let error = state.apply(&saved, false, &phys(&[])).unwrap_err();
    assert_eq!(error.kind(), ErrorKind::Bug);
    assert!(error.msg().contains("Got invalid interface state: wlan0/wifi-phy"));
    let two = vec![
        {
            let mut iface = wifi_iface("wlan0", "Home", InterfaceState::Up);
            iface.wifi = Some(wifi_cfg("Home", Some("one")));
            iface
        },
        {
            let mut iface = wifi_iface("wlan0", "Home", InterfaceState::Up);
            iface.wifi = Some(wifi_cfg("Home", Some("two")));
            iface
        },
    ];
    let error = state.apply(&two, false, &phys(&[("wlan0", 1)])).unwrap_err();
    assert_eq!(error.kind(), ErrorKind::InvalidArgument);
    assert_eq!(
        error.msg(),
        "Conflicting WIFI config for SSID Home on the same interface"
    );
}

#[test]
fn mac_addresses_are_written_in_lower_case() {
    assert_eq!(mac_to_string(&[0xAB, 0, 1, 0x10, 0xFF, 9]), "ab:00:01:10:ff:09");
}

#[test]
fn devices_that_are_not_mentioned_are_left_alone() {
    let mut state = WifiClientState::new();
    let devices = phys(&[("wlan0", 3), ("wlan1", 4)]);
    let up = vec![
        wifi_iface("wlan0", "Home", InterfaceState::Up),
        wifi_iface("wlan1", "Office", InterfaceState::Up),
    ];
    state.apply(&up, false, &devices).unwrap();
    state.client_started(true);
    // A forced request prefers a network, which an unforced one keeps.
    match state.apply(&vec![up[0].clone()], true, &devices).unwrap() {
        WifiAction::Update(updates) => {
            for update in updates {
                state.networks_updated(&update.iface_name, update.networks);
            }
        }
        action => panic!("{action:?}"),
    }
    let before = state.clone();
    match state.apply(&vec![up[0].clone()], false, &devices).unwrap() {
        WifiAction::Update(updates) => assert!(updates.is_empty()),
        action => panic!("{action:?}"),
    }
    assert_eq!(state, before);
    assert_eq!(
        state.ifaces.get(&"wlan0".to_string()).unwrap().desired_networks,
        vec![network("Home", None, true)]
    );
    // Dropping one device keeps the other.
    let down = vec![wifi_iface("wlan0", "Home", InterfaceState::Absent)];
    match state.apply(&down, false, &devices).unwrap() {
        WifiAction::Restart(starts) => {
            assert_eq!(starts.len(), 1);
            assert_eq!(starts[0].iface_name, "wlan1");
            assert_eq!(starts[0].networks, vec![network("Office", None, false)]);
        }
        action => panic!("{action:?}"),
    }
    assert!(!state.ifaces.contains_key(&"wlan0".to_string()));
}
