//! WIFI configurations and the WIFI devices that carry them.

use vstd::prelude::*;

use crate::iface::{
    BaseInterfaceView, Interface, InterfaceIdentifier, InterfaceLinkState, InterfaceState,
    InterfaceType, InterfaceView,
};
use crate::ifaces;
use crate::ifaces::{Interfaces, InterfacesView};
use crate::keymap;
use crate::value::{Value, empty_list, push};

verus! {

/// Whether the WIFI device `cur` carries the network of the configuration.
pub open spec fn phy_matches(wifi_cfg: InterfaceView, cur: InterfaceView) -> bool {
    &&& wifi_cfg.wifi is Some
    &&& cur.base.iface_type is WifiPhy
    &&& cur.wifi is Some
    &&& cur.wifi->0.ssid == wifi_cfg.wifi->0.ssid
    &&& match wifi_cfg.wifi->0.base_iface {
        Some(base_iface) => base_iface == cur.base.kernel_iface_name || base_iface
            == cur.base.name,
        None => true,
    }
}

/// The first WIFI device from `i` on that is connected to the network of the
/// configuration.
pub open spec fn connected_phy_from(
    kernel_ifaces: Seq<(Seq<char>, InterfaceView)>,
    wifi_cfg: InterfaceView,
    i: int,
) -> Option<InterfaceView>
    decreases kernel_ifaces.len() - i,
{
    if i < 0 || i >= kernel_ifaces.len() {
        None
    } else if phy_matches(wifi_cfg, kernel_ifaces[i].1) && kernel_ifaces[i].1.base.link_state
        == Some(InterfaceLinkState::Up) {
        Some(kernel_ifaces[i].1)
    } else {
        connected_phy_from(kernel_ifaces, wifi_cfg, i + 1)
    }
}

/// The WIFI device that is connected to the network of the configuration.
pub open spec fn connected_phy(current: InterfacesView, wifi_cfg: InterfaceView) -> Option<
    InterfaceView,
> {
    connected_phy_from(current.kernel_ifaces, wifi_cfg, 0)
}

/// The WIFI device `cur` with the IP configuration of a WIFI configuration. It
/// is matched by its MAC address, so that it meets its saved configuration.
pub open spec fn phy_with_config(wifi_cfg: InterfaceView, cur: InterfaceView) -> InterfaceView {
    InterfaceView::of_base(
        BaseInterfaceView {
            name: cur.base.name,
            kernel_iface_name: cur.base.kernel_iface_name,
            iface_type: InterfaceType::WifiPhy,
            state: InterfaceState::Up,
            identifier: Some(InterfaceIdentifier::MacAddress),
            mac_address: cur.base.mac_address,
            permanent_mac_address: None,
            profile_name: if wifi_cfg.base.profile_name is None {
                cur.base.profile_name
            } else {
                wifi_cfg.base.profile_name
            },
            ..wifi_cfg.base
        },
    )
}

/// Whether the interface is a WIFI configuration to bring up that has an IP
/// configuration.
pub open spec fn has_ip_to_expand(iface: InterfaceView) -> bool {
    iface.base.iface_type is WifiCfg && iface.base.state is Up && (iface.base.ipv4 is Some
        || iface.base.ipv6 is Some)
}

/// `acc` with the connected WIFI devices of the configurations from `i` on,
/// unless they are desired themselves.
pub open spec fn expanded_from(
    list: Seq<InterfaceView>,
    desired: InterfacesView,
    current: InterfacesView,
    i: int,
    acc: Seq<InterfaceView>,
) -> Seq<InterfaceView>
    decreases list.len() - i,
{
    if i < 0 || i >= list.len() {
        acc
    } else {
        match connected_phy(current, list[i]) {
            Some(phy) if has_ip_to_expand(list[i]) && !keymap::has(
                desired.kernel_ifaces,
                phy.base.kernel_iface_name,
            ) => expanded_from(
                list,
                desired,
                current,
                i + 1,
                acc.push(phy_with_config(list[i], phy)),
            ),
            _ => expanded_from(list, desired, current, i + 1, acc),
        }
    }
}

/// The desired interfaces with the connected WIFI devices of their WIFI
/// configurations.
pub open spec fn expanded(desired: InterfacesView, current: InterfacesView) -> InterfacesView {
    desired.pushed_from(expanded_from(desired.list(), desired, current, 0, Seq::empty()), 0)
}

/// Whether the WIFI device `cur` carries the network of the configuration.
pub fn wifi_cfg_matches_phy(wifi_cfg: &Interface, cur_iface: &Interface) -> (res: bool)
    ensures
        res == phy_matches(wifi_cfg@, cur_iface@),
{
    let wifi = match &wifi_cfg.wifi {
        Some(wifi) => wifi,
        None => {
            return false;
        },
    };
    if cur_iface.iface_type() != InterfaceType::WifiPhy {
        return false;
    }
    let ssid_match = match &cur_iface.wifi {
        Some(phy) => phy.ssid.same(&wifi.ssid),
        None => false,
    };
    let base_match = match &wifi.base_iface {
        Some(base_iface) => base_iface.same(&cur_iface.base.kernel_iface_name) || base_iface.same(
            &cur_iface.base.name,
        ),
        None => true,
    };
    base_match && ssid_match
}

/// The WIFI device that is connected to the network of the configuration.
pub fn find_connected_wifi_phy_for_cfg(current: &Interfaces, wifi_cfg: &Interface) -> (res: Option<
    Interface,
>)
    ensures
        res.deep_view() == connected_phy(current@, wifi_cfg@),
{
    let mut i: usize = 0;
    while i < current.kernel_ifaces.len()
        invariant
            i <= current.kernel_ifaces@.len(),
            connected_phy(current@, wifi_cfg@) == connected_phy_from(
                current.kernel_ifaces@,
                wifi_cfg@,
                i as int,
            ),
        decreases current.kernel_ifaces@.len() - i,
    {
        let cur_iface = current.kernel_ifaces.value_at(i);
        if wifi_cfg_matches_phy(wifi_cfg, cur_iface) && matches!(
            cur_iface.base.link_state,
            Some(InterfaceLinkState::Up)
        ) {
            return Some(cur_iface.dup());
        }
        i = i + 1;
    }
    None
}

/// The WIFI device `cur` with the IP configuration of a WIFI configuration.
fn gen_phy_with_config(wifi_cfg: &Interface, cur_phy: &Interface) -> (res: Interface)
    ensures
        res@ == phy_with_config(wifi_cfg@, cur_phy@),
{
    let mut base = wifi_cfg.base.dup();
    base.name = cur_phy.base.name.dup();
    base.kernel_iface_name = cur_phy.base.kernel_iface_name.dup();
    base.iface_type = InterfaceType::WifiPhy;
    base.state = InterfaceState::Up;
    base.identifier = Some(InterfaceIdentifier::MacAddress);
    base.mac_address = cur_phy.base.mac_address.dup();
    base.permanent_mac_address = None;
    if base.profile_name.is_none() {
        base.profile_name = cur_phy.base.profile_name.dup();
    }
    Interface::from_base(base)
}

/// Expand the IP config of a `wifi-cfg` onto its already-connected
/// `wifi-phy`.
///
/// A `wifi-cfg` is userspace-only, so its IP config is normally applied by
/// the link-up event after the device associates. When the wifi-phy is already
/// up and connected to that SSID at apply time, no link event will fire and
/// the IP/DHCP change would be silently stored but never applied. A desired
/// `wifi-phy` that carries the IP config of the wifi-cfg makes the normal
/// apply path (including DHCP client startup) handle it immediately.
pub fn expand_wifi_cfg_to_connected_phy(desired: &mut Interfaces, current: &Interfaces)
    ensures
        final(desired)@ == expanded(old(desired)@, current@),
{
    let list = desired.to_list();
    let ghost views = list.deep_view();
    let ghost start = desired@;
    let mut extra_ifaces: Vec<Interface> = empty_list();
    let mut i: usize = 0;
    while i < list.len()
        invariant
            i <= list.len(),
            views == list.deep_view(),
            start == desired@,
            expanded_from(views, start, current@, 0, Seq::empty()) == expanded_from(
                views,
                start,
                current@,
                i as int,
                extra_ifaces.deep_view(),
            ),
        decreases list.len() - i,
    {
        let iface = &list[i];
        assert(views[i as int] == iface@);
        if iface.iface_type() == InterfaceType::WifiCfg && iface.is_up() && (
        iface.base.ipv4.is_some() || iface.base.ipv6.is_some()) {
            if let Some(cur_phy) = find_connected_wifi_phy_for_cfg(current, iface) {
                if !desired.kernel_ifaces.contains_key(&cur_phy.base.kernel_iface_name) {
                    push(&mut extra_ifaces, gen_phy_with_config(iface, &cur_phy));
                }
            }
        }
        i = i + 1;
    }
    let ghost extra = extra_ifaces.deep_view();
    let mut i: usize = 0;
    while i < extra_ifaces.len()
        invariant
            i <= extra_ifaces.len(),
            extra == extra_ifaces.deep_view(),
            start.pushed_from(extra, 0) == desired@.pushed_from(extra, i as int),
        decreases extra_ifaces.len() - i,
    {
        assert(extra[i as int] == extra_ifaces[i as int]@);
        desired.push(extra_ifaces[i].dup());
        i = i + 1;
    }
}

/// A device that stands for a WIFI configuration carries its IP configuration,
/// is matched by its MAC address and names no network.
pub proof fn law_phy_with_config(wifi_cfg: InterfaceView, cur: InterfaceView)
    ensures
        ({
            let phy = phy_with_config(wifi_cfg, cur);
            &&& phy.base.ipv4 == wifi_cfg.base.ipv4
            &&& phy.base.ipv6 == wifi_cfg.base.ipv6
            &&& phy.base.by_mac()
            &&& phy.base.mac_address == cur.base.mac_address
            &&& phy.base.kernel_iface_name == cur.base.kernel_iface_name
            &&& phy.wifi is None
        }),
{
}

/// A connected device is one of the current ones.
proof fn lemma_connected_phy(
    kernel_ifaces: Seq<(Seq<char>, InterfaceView)>,
    wifi_cfg: InterfaceView,
    i: int,
)
    requires
        0 <= i,
    ensures
        connected_phy_from(kernel_ifaces, wifi_cfg, i) is Some ==> exists|j: int|
            0 <= j < kernel_ifaces.len() && (#[trigger] kernel_ifaces[j]).1 == connected_phy_from(
                kernel_ifaces,
                wifi_cfg,
                i,
            )->0,
    decreases kernel_ifaces.len() - i,
{
    if i < kernel_ifaces.len() {
        assert(kernel_ifaces[i].1 == kernel_ifaces[i].1);
        lemma_connected_phy(kernel_ifaces, wifi_cfg, i + 1);
    }
}

/// Whether every current interface of the kernel has a name there.
pub open spec fn has_kernel_names(current: InterfacesView) -> bool {
    forall|i: int|
        0 <= i < current.kernel_ifaces.len() ==> (
        #[trigger] current.kernel_ifaces[i]).1.base.kernel_iface_name.len() > 0
}

/// Devices that are added stand under keys that nothing is desired of.
proof fn lemma_expanded_from(
    list: Seq<InterfaceView>,
    desired: InterfacesView,
    current: InterfacesView,
    i: int,
    acc: Seq<InterfaceView>,
)
    requires
        0 <= i,
        has_kernel_names(current),
        forall|j: int|
            0 <= j < acc.len() ==> (#[trigger] acc[j]).base.iface_type is WifiPhy && !keymap::has(
                desired.kernel_ifaces,
                acc[j].base.key_name(),
            ),
    ensures
        forall|j: int|
            0 <= j < expanded_from(list, desired, current, i, acc).len() ==> (
            #[trigger] expanded_from(list, desired, current, i, acc)[j]).base.iface_type is WifiPhy
                && !keymap::has(
                desired.kernel_ifaces,
                expanded_from(list, desired, current, i, acc)[j].base.key_name(),
            ),
    decreases list.len() - i,
{
    if i < list.len() {
        match connected_phy(current, list[i]) {
            Some(phy) if has_ip_to_expand(list[i]) && !keymap::has(
                desired.kernel_ifaces,
                phy.base.kernel_iface_name,
            ) => {
                lemma_connected_phy(current.kernel_ifaces, list[i], 0);
                lemma_expanded_from(
                    list,
                    desired,
                    current,
                    i + 1,
                    acc.push(phy_with_config(list[i], phy)),
                );
            },
            _ => lemma_expanded_from(list, desired, current, i + 1, acc),
        }
    }
}

/// Adding interfaces under other keys keeps what is found under a key.
proof fn lemma_pushed_elsewhere(
    ifaces: InterfacesView,
    list: Seq<InterfaceView>,
    i: int,
    name: Seq<char>,
    iface_type: InterfaceType,
)
    requires
        0 <= i,
        forall|j: int|
            i <= j < list.len() ==> (#[trigger] list[j]).base.iface_type is WifiPhy
                && list[j].base.key_name() != name,
    ensures
        ifaces.pushed_from(list, i).find(name, iface_type) == ifaces.find(name, iface_type),
    decreases list.len() - i,
{
    if i < list.len() {
        keymap::law_inserted(
            ifaces.kernel_ifaces,
            list[i].base.key_name(),
            ifaces::registered(list[i]),
            name,
        );
        lemma_pushed_elsewhere(ifaces.pushed(list[i]), list, i + 1, name, iface_type);
    }
}

/// Adding the devices of WIFI configurations changes nothing that is desired:
/// every desired interface stays as it is.
pub proof fn law_expanded_keeps_desired(
    desired: InterfacesView,
    current: InterfacesView,
    name: Seq<char>,
    iface_type: InterfaceType,
)
    requires
        has_kernel_names(current),
        !iface_type.userspace(),
        desired.find(name, iface_type) is Some,
    ensures
        expanded(desired, current).find(name, iface_type) == desired.find(name, iface_type),
{
    let extra = expanded_from(desired.list(), desired, current, 0, Seq::empty());
    lemma_expanded_from(desired.list(), desired, current, 0, Seq::empty());
    assert forall|j: int| 0 <= j < extra.len() implies (
    #[trigger] extra[j]).base.iface_type is WifiPhy && extra[j].base.key_name() != name by {
        assert(!keymap::has(desired.kernel_ifaces, extra[j].base.key_name()));
    }
    lemma_pushed_elsewhere(desired, extra, 0, name, iface_type);
}

} // verus!
