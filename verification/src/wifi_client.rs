//! The WIFI networks that devices are to join, and what is done with the WIFI
//! client for them.

use vstd::prelude::*;
use vstd::string::*;

use crate::error::{ErrorKind, NipartError, NipartErrorView};
use crate::iface::{Interface, InterfaceType, InterfaceView, WifiConfig, WifiConfigView};
use crate::keymap::KeyMap;
use crate::text::{join, to_digit_char};
use crate::value::{Value, contains, empty_list, push};
use crate::{error, keymap, text};

verus! {

/// Maximum time a single client cycle may run before the plugin assumes the
/// client is stuck and restarts it. This prevents a long backoff from silently
/// disabling auto-connect forever.
pub const WIFI_RUN_ONCE_TIMEOUT_SECS: u64 = 120;

/// Timeout used while connected: the client legitimately waits for events with
/// no deadline, so only an extremely long stall should be treated as stuck.
pub const WIFI_CONNECTED_RUN_ONCE_TIMEOUT_SECS: u64 = 86400;

/// Whether WIFI is to be on.
#[derive(Clone, Copy, Debug, PartialEq, Eq, Hash, Structural)]
#[non_exhaustive]
pub enum NipartWifiControl {
    On,
    Off,
}

impl DeepView for NipartWifiControl {
    type V = NipartWifiControl;

    open spec fn deep_view(&self) -> NipartWifiControl {
        *self
    }
}

impl Value for NipartWifiControl {
    fn dup(&self) -> (res: Self) {
        *self
    }

    fn same(&self, other: &Self) -> (res: bool) {
        *self == *other
    }
}

/// A network that a device may join.
#[derive(Clone, Debug, PartialEq, Eq)]
pub struct NetworkConfig {
    pub ssid: String,
    pub password: Option<String>,
    /// Whether the network does not broadcast its SSID.
    pub hidden: bool,
    /// Whether the network is tried first. A hint for one connection, which is
    /// not saved.
    pub prefered: bool,
}

/// What a [NetworkConfig] stands for.
#[verifier::ext_equal]
pub struct NetworkConfigView {
    pub ssid: Seq<char>,
    pub password: Option<Seq<char>>,
    pub hidden: bool,
    pub prefered: bool,
}

impl View for NetworkConfig {
    type V = NetworkConfigView;

    open spec fn view(&self) -> NetworkConfigView {
        NetworkConfigView {
            ssid: self.ssid.deep_view(),
            password: self.password.deep_view(),
            hidden: self.hidden.deep_view(),
            prefered: self.prefered.deep_view(),
        }
    }
}

impl DeepView for NetworkConfig {
    type V = NetworkConfigView;

    open spec fn deep_view(&self) -> NetworkConfigView {
        self@
    }
}

impl Value for NetworkConfig {
    fn dup(&self) -> (res: Self) {
        NetworkConfig {
            ssid: self.ssid.dup(),
            password: self.password.dup(),
            hidden: self.hidden.dup(),
            prefered: self.prefered.dup(),
        }
    }

    fn same(&self, other: &Self) -> (res: bool) {
        self.ssid.same(&other.ssid) && self.password.same(&other.password) && self.hidden.same(&other.hidden) && self.prefered.same(&other.prefered)
    }
}

/// What is kept of a device.
#[derive(Clone, Debug, PartialEq, Eq)]
pub struct WifiIfaceState {
    /// Kernel interface index of the device that the client was bound to. When
    /// the device is recreated (e.g. on a reload of its driver), the client
    /// targets a device that no longer exists, so this is compared on each
    /// apply.
    pub if_index: u32,
    pub desired_networks: Vec<NetworkConfig>,
}

/// What a [WifiIfaceState] stands for.
#[verifier::ext_equal]
pub struct WifiIfaceStateView {
    pub if_index: u32,
    pub desired_networks: Seq<NetworkConfigView>,
}

impl View for WifiIfaceState {
    type V = WifiIfaceStateView;

    open spec fn view(&self) -> WifiIfaceStateView {
        WifiIfaceStateView {
            if_index: self.if_index.deep_view(),
            desired_networks: self.desired_networks.deep_view(),
        }
    }
}

impl DeepView for WifiIfaceState {
    type V = WifiIfaceStateView;

    open spec fn deep_view(&self) -> WifiIfaceStateView {
        self@
    }
}

impl Value for WifiIfaceState {
    fn dup(&self) -> (res: Self) {
        WifiIfaceState {
            if_index: self.if_index.dup(),
            desired_networks: self.desired_networks.dup(),
        }
    }

    fn same(&self, other: &Self) -> (res: bool) {
        self.if_index.same(&other.if_index) && self.desired_networks.same(&other.desired_networks)
    }
}

/// Live connection state of a device.
#[derive(Clone, Debug, PartialEq, Eq)]
pub struct WifiLiveState {
    pub ssid: String,
    pub bssid: Option<String>,
}

/// What a [WifiLiveState] stands for.
#[verifier::ext_equal]
pub struct WifiLiveStateView {
    pub ssid: Seq<char>,
    pub bssid: Option<Seq<char>>,
}

impl View for WifiLiveState {
    type V = WifiLiveStateView;

    open spec fn view(&self) -> WifiLiveStateView {
        WifiLiveStateView {
            ssid: self.ssid.deep_view(),
            bssid: self.bssid.deep_view(),
        }
    }
}

impl DeepView for WifiLiveState {
    type V = WifiLiveStateView;

    open spec fn deep_view(&self) -> WifiLiveStateView {
        self@
    }
}

impl Value for WifiLiveState {
    fn dup(&self) -> (res: Self) {
        WifiLiveState {
            ssid: self.ssid.dup(),
            bssid: self.bssid.dup(),
        }
    }

    fn same(&self, other: &Self) -> (res: bool) {
        self.ssid.same(&other.ssid) && self.bssid.same(&other.bssid)
    }
}

/// The state of WIFI: one client for all devices, with what is kept of each.
#[derive(Clone, Debug, PartialEq, Eq)]
pub struct WifiClientState {
    /// Whether the client runs.
    pub has_client: bool,
    pub ifaces: KeyMap<String, WifiIfaceState>,
    /// The devices that are connected.
    pub live_ifaces: KeyMap<String, WifiLiveState>,
    /// Whether WIFI is on.
    pub enabled: bool,
    /// Whether any device is connected.
    pub connected: bool,
}

/// What a [WifiClientState] stands for.
#[verifier::ext_equal]
pub struct WifiClientStateView {
    pub has_client: bool,
    pub ifaces: Seq<(Seq<char>, WifiIfaceStateView)>,
    pub live_ifaces: Seq<(Seq<char>, WifiLiveStateView)>,
    pub enabled: bool,
    pub connected: bool,
}

impl View for WifiClientState {
    type V = WifiClientStateView;

    open spec fn view(&self) -> WifiClientStateView {
        WifiClientStateView {
            has_client: self.has_client.deep_view(),
            ifaces: self.ifaces.deep_view(),
            live_ifaces: self.live_ifaces.deep_view(),
            enabled: self.enabled.deep_view(),
            connected: self.connected.deep_view(),
        }
    }
}

impl DeepView for WifiClientState {
    type V = WifiClientStateView;

    open spec fn deep_view(&self) -> WifiClientStateView {
        self@
    }
}

impl Value for WifiClientState {
    fn dup(&self) -> (res: Self) {
        WifiClientState {
            has_client: self.has_client.dup(),
            ifaces: self.ifaces.dup(),
            live_ifaces: self.live_ifaces.dup(),
            enabled: self.enabled.dup(),
            connected: self.connected.dup(),
        }
    }

    fn same(&self, other: &Self) -> (res: bool) {
        self.has_client.same(&other.has_client) && self.ifaces.same(&other.ifaces) && self.live_ifaces.same(&other.live_ifaces) && self.enabled.same(&other.enabled) && self.connected.same(&other.connected)
    }
}

/// A device for a new client.
#[derive(Clone, Debug, PartialEq, Eq)]
pub struct WifiStart {
    pub iface_name: String,
    pub networks: Vec<NetworkConfig>,
}

/// What a [WifiStart] stands for.
#[verifier::ext_equal]
pub struct WifiStartView {
    pub iface_name: Seq<char>,
    pub networks: Seq<NetworkConfigView>,
}

impl View for WifiStart {
    type V = WifiStartView;

    open spec fn view(&self) -> WifiStartView {
        WifiStartView {
            iface_name: self.iface_name.deep_view(),
            networks: self.networks.deep_view(),
        }
    }
}

impl DeepView for WifiStart {
    type V = WifiStartView;

    open spec fn deep_view(&self) -> WifiStartView {
        self@
    }
}

impl Value for WifiStart {
    fn dup(&self) -> (res: Self) {
        WifiStart {
            iface_name: self.iface_name.dup(),
            networks: self.networks.dup(),
        }
    }

    fn same(&self, other: &Self) -> (res: bool) {
        self.iface_name.same(&other.iface_name) && self.networks.same(&other.networks)
    }
}

/// New networks for a device of the running client.
#[derive(Clone, Debug, PartialEq, Eq)]
pub struct WifiUpdate {
    pub iface_name: String,
    pub networks: Vec<NetworkConfig>,
    /// Whether the networks are cleared first, which restarts the selection.
    pub reconnect: bool,
}

/// What a [WifiUpdate] stands for.
#[verifier::ext_equal]
pub struct WifiUpdateView {
    pub iface_name: Seq<char>,
    pub networks: Seq<NetworkConfigView>,
    pub reconnect: bool,
}

impl View for WifiUpdate {
    type V = WifiUpdateView;

    open spec fn view(&self) -> WifiUpdateView {
        WifiUpdateView {
            iface_name: self.iface_name.deep_view(),
            networks: self.networks.deep_view(),
            reconnect: self.reconnect.deep_view(),
        }
    }
}

impl DeepView for WifiUpdate {
    type V = WifiUpdateView;

    open spec fn deep_view(&self) -> WifiUpdateView {
        self@
    }
}

impl Value for WifiUpdate {
    fn dup(&self) -> (res: Self) {
        WifiUpdate {
            iface_name: self.iface_name.dup(),
            networks: self.networks.dup(),
            reconnect: self.reconnect.dup(),
        }
    }

    fn same(&self, other: &Self) -> (res: bool) {
        self.iface_name.same(&other.iface_name) && self.networks.same(&other.networks) && self.reconnect.same(&other.reconnect)
    }
}

/// What is desired of all devices.
#[derive(Clone, Debug, PartialEq, Eq)]
pub struct WifiDesired {
    /// The networks by the device that they are for.
    pub configs: KeyMap<String, Vec<WifiConfig>>,
    /// The devices to disconnect.
    pub ifaces_to_delete: Vec<String>,
    /// The networks to drop from every device.
    pub ssids_to_delete: Vec<String>,
}

/// What a [WifiDesired] stands for.
#[verifier::ext_equal]
pub struct WifiDesiredView {
    pub configs: Seq<(Seq<char>, Seq<WifiConfigView>)>,
    pub ifaces_to_delete: Seq<Seq<char>>,
    pub ssids_to_delete: Seq<Seq<char>>,
}

impl View for WifiDesired {
    type V = WifiDesiredView;

    open spec fn view(&self) -> WifiDesiredView {
        WifiDesiredView {
            configs: self.configs.deep_view(),
            ifaces_to_delete: self.ifaces_to_delete.deep_view(),
            ssids_to_delete: self.ssids_to_delete.deep_view(),
        }
    }
}

impl DeepView for WifiDesired {
    type V = WifiDesiredView;

    open spec fn deep_view(&self) -> WifiDesiredView {
        self@
    }
}

impl Value for WifiDesired {
    fn dup(&self) -> (res: Self) {
        WifiDesired {
            configs: self.configs.dup(),
            ifaces_to_delete: self.ifaces_to_delete.dup(),
            ssids_to_delete: self.ssids_to_delete.dup(),
        }
    }

    fn same(&self, other: &Self) -> (res: bool) {
        self.configs.same(&other.configs) && self.ifaces_to_delete.same(&other.ifaces_to_delete) && self.ssids_to_delete.same(&other.ssids_to_delete)
    }
}

/// What is to be done with the client.
#[derive(Clone, Debug, PartialEq, Eq)]
pub enum WifiAction {
    /// Nothing.
    Nothing,
    /// Shut the client down, if it runs, and start one for the devices, if
    /// there are any.
    Restart(Vec<WifiStart>),
    /// Hand the running client new networks.
    Update(Vec<WifiUpdate>),
}

/// What a [WifiAction] stands for.
#[verifier::ext_equal]
pub enum WifiActionView {
    Nothing,
    Restart(Seq<WifiStartView>),
    Update(Seq<WifiUpdateView>),
}

impl View for WifiAction {
    type V = WifiActionView;

    open spec fn view(&self) -> WifiActionView {
        match self {
            WifiAction::Nothing => WifiActionView::Nothing,
            WifiAction::Restart(starts) => WifiActionView::Restart(starts.deep_view()),
            WifiAction::Update(updates) => WifiActionView::Update(updates.deep_view()),
        }
    }
}

impl DeepView for WifiAction {
    type V = WifiActionView;

    open spec fn deep_view(&self) -> WifiActionView {
        self@
    }
}

/// The network of a WIFI configuration.
pub open spec fn network_of(config: WifiConfigView, prefered: bool) -> NetworkConfigView {
    NetworkConfigView {
        ssid: config.ssid,
        password: config.password,
        hidden: config.hidden,
        prefered,
    }
}

/// The position of the first network from `i` on with the SSID, or the length.
pub open spec fn ssid_position(networks: Seq<NetworkConfigView>, ssid: Seq<char>, i: int) -> int
    decreases networks.len() - i,
{
    if i < 0 || i >= networks.len() {
        networks.len() as int
    } else if networks[i].ssid == ssid {
        i
    } else {
        ssid_position(networks, ssid, i + 1)
    }
}

/// The error of one SSID with two passwords.
pub open spec fn conflict(ssid: Seq<char>) -> NipartErrorView {
    error::invalid("Conflicting WIFI config for SSID "@ + ssid + " on the same interface"@)
}

/// `acc` with the networks of the configurations from `i` on, each SSID once.
pub open spec fn networks_from(
    configs: Seq<WifiConfigView>,
    prefered: bool,
    i: int,
    acc: Seq<NetworkConfigView>,
) -> Result<Seq<NetworkConfigView>, NipartErrorView>
    decreases configs.len() - i,
{
    if i < 0 || i >= configs.len() {
        Ok(acc)
    } else {
        let k = ssid_position(acc, configs[i].ssid, 0);
        if k >= acc.len() {
            networks_from(configs, prefered, i + 1, acc.push(network_of(configs[i], prefered)))
        } else if acc[k].password != configs[i].password {
            Err(conflict(configs[i].ssid))
        } else {
            networks_from(configs, prefered, i + 1, acc)
        }
    }
}

/// The network, not to be tried first.
pub open spec fn demoted(network: NetworkConfigView) -> NetworkConfigView {
    NetworkConfigView { prefered: false, ..network }
}

/// `acc` with the networks from `i` on, those that are requested as requested,
/// and with the other requested ones after them.
pub open spec fn preferred_from(
    existing: Seq<NetworkConfigView>,
    requested: Seq<NetworkConfigView>,
    i: int,
    acc: Seq<NetworkConfigView>,
) -> Seq<NetworkConfigView>
    decreases existing.len() - i,
{
    if i < 0 || i >= existing.len() {
        acc + requested
    } else {
        let k = ssid_position(requested, existing[i].ssid, 0);
        if k < requested.len() {
            preferred_from(existing, requested.remove(k), i + 1, acc.push(requested[k]))
        } else {
            preferred_from(existing, requested, i + 1, acc.push(demoted(existing[i])))
        }
    }
}

/// The existing networks with the requested ones tried first.
pub open spec fn preferred(
    existing: Seq<NetworkConfigView>,
    configs: Seq<WifiConfigView>,
) -> Result<Seq<NetworkConfigView>, NipartErrorView> {
    match networks_from(configs, true, 0, Seq::empty()) {
        Err(e) => Err(e),
        Ok(requested) => Ok(preferred_from(existing, requested, 0, Seq::empty())),
    }
}

/// Whether the networks are the same but for which is tried first.
pub open spec fn same_saved(
    current: Seq<NetworkConfigView>,
    desired: Seq<NetworkConfigView>,
) -> bool {
    current.len() == desired.len() && forall|i: int|
        0 <= i < current.len() ==> demoted(#[trigger] current[i]) == demoted(desired[i])
}

/// Whether a forced apply restarts the selection of a network.
pub open spec fn reconnects(
    live_ssid: Option<Seq<char>>,
    networks: Seq<NetworkConfigView>,
    force: bool,
    preferred_ssid: Option<Seq<char>>,
) -> bool {
    &&& force && networks.len() > 0
    &&& preferred_ssid is Some || live_ssid is None || ssid_position(networks, live_ssid->0, 0)
        >= networks.len()
}

/// Whether the interface carries WIFI networks.
pub open spec fn is_wifi(iface: InterfaceView) -> bool {
    iface.base.iface_type is WifiCfg || iface.base.iface_type is WifiPhy
}

/// Whether an interface is to join a network.
pub open spec fn up_requested(ifaces: Seq<InterfaceView>) -> bool {
    exists|i: int|
        0 <= i < ifaces.len() && is_wifi(#[trigger] ifaces[i]) && ifaces[i].base.state is Up
            && ifaces[i].wifi is Some && ifaces[i].wifi->0.ssid.len() > 0
}

/// The two digits of a byte.
pub open spec fn byte_text(b: u8) -> Seq<char> {
    seq![text::digit_char((b / 16) as nat), text::digit_char((b % 16) as nat)]
}

/// A MAC address as text.
pub open spec fn mac_text(mac: Seq<u8>) -> Seq<char> {
    text::joined(Seq::new(mac.len(), |i: int| byte_text(mac[i])), ":"@)
}

/// The error of an interface that is neither up nor off.
pub open spec fn bad_state(iface: InterfaceView) -> NipartErrorView {
    NipartErrorView {
        kind: ErrorKind::Bug,
        msg: "NipartWpaConn::apply(): Got invalid interface state: "@ + iface.base.name + "/"@
            + iface.base.iface_type.kebab_name(),
    }
}

/// The device that a WIFI configuration is for: its own, the one it is bound
/// to, else the first one.
pub open spec fn device_of(iface: InterfaceView, phys: Seq<(Seq<char>, u32)>) -> Option<Seq<char>> {
    if iface.base.iface_type is WifiPhy {
        Some(iface.base.kernel_iface_name)
    } else if iface.wifi->0.base_iface is Some {
        iface.wifi->0.base_iface
    } else if phys.len() > 0 {
        Some(phys[0].0)
    } else {
        None
    }
}

/// `names` with one more, unless it is among them.
pub open spec fn with_text(names: Seq<Seq<char>>, name: Seq<char>) -> Seq<Seq<char>> {
    if names.contains(name) {
        names
    } else {
        names.push(name)
    }
}

impl WifiDesiredView {
    /// Nothing is desired.
    pub open spec fn none() -> WifiDesiredView {
        WifiDesiredView {
            configs: Seq::empty(),
            ifaces_to_delete: Seq::empty(),
            ssids_to_delete: Seq::empty(),
        }
    }

    /// With what an interface desires.
    pub open spec fn with_iface(self, iface: InterfaceView, phys: Seq<(Seq<char>, u32)>) -> Result<
        WifiDesiredView,
        NipartErrorView,
    > {
        if !is_wifi(iface) {
            Ok(self)
        } else if iface.base.state is Absent || iface.base.state is Down {
            if iface.base.iface_type is WifiPhy {
                Ok(
                    WifiDesiredView {
                        ifaces_to_delete: with_text(
                            self.ifaces_to_delete,
                            iface.base.kernel_iface_name,
                        ),
                        ..self
                    },
                )
            } else {
                Ok(
                    WifiDesiredView {
                        ssids_to_delete: with_text(
                            self.ssids_to_delete,
                            match iface.wifi {
                                Some(wifi) => wifi.ssid,
                                None => iface.base.name,
                            },
                        ),
                        ..self
                    },
                )
            }
        } else if !(iface.base.state is Up) {
            Err(bad_state(iface))
        } else if iface.wifi is None {
            Ok(self)
        } else {
            match device_of(iface, phys) {
                None => Ok(self),
                Some(name) => Ok(
                    WifiDesiredView {
                        configs: keymap::inserted(
                            self.configs,
                            name,
                            keymap::lookup(self.configs, name).unwrap_or(Seq::empty()).push(
                                iface.wifi->0,
                            ),
                        ),
                        ..self
                    },
                ),
            }
        }
    }

    /// With what the interfaces from `i` on desire.
    pub open spec fn with_ifaces_from(
        self,
        ifaces: Seq<InterfaceView>,
        phys: Seq<(Seq<char>, u32)>,
        i: int,
    ) -> Result<WifiDesiredView, NipartErrorView>
        decreases ifaces.len() - i,
    {
        if i < 0 || i >= ifaces.len() {
            Ok(self)
        } else {
            match self.with_iface(ifaces[i], phys) {
                Err(e) => Err(e),
                Ok(next) => next.with_ifaces_from(ifaces, phys, i + 1),
            }
        }
    }
}

/// `acc` with the networks from `i` on whose SSID is not among `dropped`.
pub open spec fn networks_kept_from(
    networks: Seq<NetworkConfigView>,
    dropped: Seq<Seq<char>>,
    i: int,
    acc: Seq<NetworkConfigView>,
) -> Seq<NetworkConfigView>
    decreases networks.len() - i,
{
    if i < 0 || i >= networks.len() {
        acc
    } else if dropped.contains(networks[i].ssid) {
        networks_kept_from(networks, dropped, i + 1, acc)
    } else {
        networks_kept_from(networks, dropped, i + 1, acc.push(networks[i]))
    }
}

/// The networks that are desired of a device with those that it has. A forced
/// request of one network keeps the others and tries that one first.
pub open spec fn networks_for(
    existing: Seq<NetworkConfigView>,
    configs: Seq<WifiConfigView>,
    force: bool,
) -> Result<Seq<NetworkConfigView>, NipartErrorView> {
    if force && configs.len() == 1 {
        preferred(existing, configs)
    } else {
        networks_from(configs, false, 0, Seq::empty())
    }
}

/// The networks that a managed device gets. One that is not mentioned keeps
/// its networks but for those to drop.
pub open spec fn new_networks(
    name: Seq<char>,
    existing: Seq<NetworkConfigView>,
    desired: WifiDesiredView,
    force: bool,
) -> Result<Seq<NetworkConfigView>, NipartErrorView> {
    match keymap::lookup(desired.configs, name) {
        Some(configs) => networks_for(existing, configs, force),
        None => Ok(networks_kept_from(existing, desired.ssids_to_delete, 0, Seq::empty())),
    }
}

/// Whether the client has to hear of the networks of a device.
pub open spec fn is_news(
    existing: Seq<NetworkConfigView>,
    networks: Seq<NetworkConfigView>,
    force: bool,
) -> bool {
    if force {
        existing != networks || networks.len() > 0
    } else {
        !same_saved(existing, networks)
    }
}

/// How far an apply has come: the state, the new networks that the client has
/// to hear of, and whether it has to be started anew.
#[verifier::ext_equal]
pub struct ApplyView {
    pub state: WifiClientStateView,
    pub pending: Seq<(Seq<char>, Seq<NetworkConfigView>)>,
    pub recreate: bool,
}

impl ApplyView {
    /// Without the devices from `i` on.
    pub open spec fn without_from(self, names: Seq<Seq<char>>, i: int) -> ApplyView
        decreases names.len() - i,
    {
        if i < 0 || i >= names.len() {
            self
        } else {
            ApplyView {
                state: WifiClientStateView {
                    ifaces: keymap::removed(self.state.ifaces, names[i]),
                    ..self.state
                },
                recreate: self.recreate || keymap::has(self.state.ifaces, names[i]),
                ..self
            }.without_from(names, i + 1)
        }
    }

    /// With what is desired of the managed devices from `i` on. A device that
    /// was recreated or is gone is managed no longer.
    pub open spec fn with_managed_from(
        self,
        names: Seq<Seq<char>>,
        desired: WifiDesiredView,
        phys: Seq<(Seq<char>, u32)>,
        force: bool,
        i: int,
    ) -> (ApplyView, Result<(), NipartErrorView>)
        decreases names.len() - i,
    {
        if i < 0 || i >= names.len() {
            (self, Ok(()))
        } else {
            match keymap::lookup(self.state.ifaces, names[i]) {
                None => self.with_managed_from(names, desired, phys, force, i + 1),
                Some(iface) => if keymap::lookup(phys, names[i]) != Some(iface.if_index) {
                    ApplyView {
                        state: WifiClientStateView {
                            ifaces: keymap::removed(self.state.ifaces, names[i]),
                            ..self.state
                        },
                        recreate: true,
                        ..self
                    }.with_managed_from(names, desired, phys, force, i + 1)
                } else {
                    match new_networks(names[i], iface.desired_networks, desired, force) {
                        Err(e) => (self, Err(e)),
                        Ok(networks) => ApplyView {
                            pending: if is_news(iface.desired_networks, networks, force) {
                                keymap::inserted(self.pending, names[i], networks)
                            } else {
                                self.pending
                            },
                            ..self
                        }.with_managed_from(names, desired, phys, force, i + 1),
                    }
                },
            }
        }
    }

    /// With the desired devices from `i` on that are not managed yet.
    pub open spec fn with_new_from(
        self,
        configs: Seq<(Seq<char>, Seq<WifiConfigView>)>,
        phys: Seq<(Seq<char>, u32)>,
        force: bool,
        i: int,
    ) -> (ApplyView, Result<(), NipartErrorView>)
        decreases configs.len() - i,
    {
        if i < 0 || i >= configs.len() {
            (self, Ok(()))
        } else if keymap::has(self.state.ifaces, configs[i].0) {
            self.with_new_from(configs, phys, force, i + 1)
        } else {
            match networks_for(Seq::empty(), configs[i].1, force) {
                Err(e) => (self, Err(e)),
                Ok(networks) => ApplyView {
                    state: WifiClientStateView {
                        ifaces: keymap::inserted(
                            self.state.ifaces,
                            configs[i].0,
                            WifiIfaceStateView {
                                if_index: keymap::lookup(phys, configs[i].0).unwrap_or(0),
                                desired_networks: networks,
                            },
                        ),
                        ..self.state
                    },
                    recreate: true,
                    ..self
                }.with_new_from(configs, phys, force, i + 1),
            }
        }
    }
}

/// The devices for a new client.
pub open spec fn starts_of(ifaces: Seq<(Seq<char>, WifiIfaceStateView)>) -> Seq<WifiStartView> {
    Seq::new(
        ifaces.len(),
        |i: int|
            WifiStartView { iface_name: ifaces[i].0, networks: ifaces[i].1.desired_networks },
    )
}

/// The SSID that is requested of a device, where a forced request is for one.
pub open spec fn requested_ssid(
    configs: Seq<(Seq<char>, Seq<WifiConfigView>)>,
    name: Seq<char>,
    force: bool,
) -> Option<Seq<char>> {
    match keymap::lookup(configs, name) {
        Some(list) if force && list.len() == 1 => Some(list[0].ssid),
        _ => None,
    }
}

impl WifiClientStateView {
    /// WIFI is on, and nothing is desired.
    pub open spec fn start() -> WifiClientStateView {
        WifiClientStateView {
            has_client: false,
            ifaces: Seq::empty(),
            live_ifaces: Seq::empty(),
            enabled: true,
            connected: false,
        }
    }

    /// With a connected device.
    pub open spec fn live_connected(
        self,
        name: Seq<char>,
        live: WifiLiveStateView,
    ) -> WifiClientStateView {
        WifiClientStateView {
            live_ifaces: keymap::inserted(self.live_ifaces, name, live),
            connected: true,
            ..self
        }
    }

    /// With a device that is not connected.
    pub open spec fn live_cleared(self, name: Seq<char>) -> WifiClientStateView {
        let live_ifaces = keymap::removed(self.live_ifaces, name);
        WifiClientStateView { live_ifaces, connected: live_ifaces.len() > 0, ..self }
    }

    /// With no device connected.
    pub open spec fn disconnected(self) -> WifiClientStateView {
        WifiClientStateView { live_ifaces: Seq::empty(), connected: false, ..self }
    }

    /// The SSID that the device is connected to.
    pub open spec fn ssid_of(self, name: Seq<char>) -> Option<Seq<char>> {
        match keymap::lookup(self.live_ifaces, name) {
            Some(live) => Some(live.ssid),
            None => None,
        }
    }

    /// The state while a client is started anew, and the devices for it.
    pub open spec fn restarted(self) -> (WifiClientStateView, WifiActionView) {
        (
            WifiClientStateView { has_client: false, ..self.disconnected() },
            WifiActionView::Restart(starts_of(self.ifaces)),
        )
    }

    /// The state after WIFI is turned on or off, and what is done. Turning it
    /// on while it is on and a client runs keeps the connection.
    pub open spec fn controlled(self, control: NipartWifiControl) -> (
        WifiClientStateView,
        WifiActionView,
    ) {
        match control {
            NipartWifiControl::Off => (
                WifiClientStateView { has_client: false, enabled: false, ..self.disconnected() },
                WifiActionView::Restart(Seq::empty()),
            ),
            NipartWifiControl::On => {
                let on = WifiClientStateView { enabled: true, ..self };
                if !self.enabled || !self.has_client {
                    on.restarted()
                } else {
                    (on, WifiActionView::Nothing)
                }
            },
        }
    }

    /// With the networks of a device, if it is managed.
    pub open spec fn with_networks(
        self,
        name: Seq<char>,
        networks: Seq<NetworkConfigView>,
    ) -> WifiClientStateView {
        match keymap::lookup(self.ifaces, name) {
            Some(iface) => WifiClientStateView {
                ifaces: keymap::inserted(
                    self.ifaces,
                    name,
                    WifiIfaceStateView { desired_networks: networks, ..iface },
                ),
                ..self
            },
            None => self,
        }
    }

    /// With the networks of the devices from `i` on.
    pub open spec fn with_pending_from(
        self,
        pending: Seq<(Seq<char>, Seq<NetworkConfigView>)>,
        i: int,
    ) -> WifiClientStateView
        decreases pending.len() - i,
    {
        if i < 0 || i >= pending.len() {
            self
        } else {
            self.with_networks(pending[i].0, pending[i].1).with_pending_from(pending, i + 1)
        }
    }

    /// The new networks for the running client.
    pub open spec fn updates_of(
        self,
        pending: Seq<(Seq<char>, Seq<NetworkConfigView>)>,
        configs: Seq<(Seq<char>, Seq<WifiConfigView>)>,
        force: bool,
    ) -> Seq<WifiUpdateView> {
        Seq::new(
            pending.len(),
            |i: int|
                WifiUpdateView {
                    iface_name: pending[i].0,
                    networks: pending[i].1,
                    reconnect: reconnects(
                        self.ssid_of(pending[i].0),
                        pending[i].1,
                        force,
                        requested_ssid(configs, pending[i].0, force),
                    ),
                },
        )
    }

    /// The state after what is desired is known of all devices, and what is
    /// done. While WIFI is off, only the desired networks are kept.
    pub open spec fn settled(
        self,
        apply: ApplyView,
        configs: Seq<(Seq<char>, Seq<WifiConfigView>)>,
        force: bool,
    ) -> (WifiClientStateView, WifiActionView) {
        if !self.enabled {
            (self.with_pending_from(apply.pending, 0), WifiActionView::Nothing)
        } else if apply.recreate || (!self.has_client && self.ifaces.len() > 0) {
            self.with_pending_from(apply.pending, 0).restarted()
        } else if !self.has_client {
            (self, WifiActionView::Nothing)
        } else {
            (self, WifiActionView::Update(self.updates_of(apply.pending, configs, force)))
        }
    }

    /// The state after an apply, and what is done or the reason why nothing
    /// is. A request to join a network turns WIFI on.
    pub open spec fn applied(
        self,
        ifaces: Seq<InterfaceView>,
        force: bool,
        phys: Seq<(Seq<char>, u32)>,
    ) -> (WifiClientStateView, Result<WifiActionView, NipartErrorView>) {
        let on = WifiClientStateView { enabled: self.enabled || up_requested(ifaces), ..self };
        match WifiDesiredView::none().with_ifaces_from(ifaces, phys, 0) {
            Err(e) => (on, Err(e)),
            Ok(desired) => {
                let start = ApplyView { state: on, pending: Seq::empty(), recreate: false };
                let kept = start.without_from(desired.ifaces_to_delete, 0);
                let (managed, checked) = kept.with_managed_from(
                    keys_of(kept.state.ifaces),
                    desired,
                    phys,
                    force,
                    0,
                );
                match checked {
                    Err(e) => (managed.state, Err(e)),
                    Ok(()) => {
                        let (apply, added) = managed.with_new_from(desired.configs, phys, force, 0);
                        match added {
                            Err(e) => (apply.state, Err(e)),
                            Ok(()) => {
                                let (state, action) = apply.state.settled(
                                    apply,
                                    desired.configs,
                                    force,
                                );
                                (state, Ok(action))
                            },
                        }
                    },
                }
            },
        }
    }
}

/// The keys of a map.
pub open spec fn keys_of<K, V>(map: Seq<(K, V)>) -> Seq<K> {
    Seq::new(map.len(), |i: int| map[i].0)
}

/// What the client reports of a device.
#[derive(Clone, Debug, PartialEq, Eq)]
pub enum WifiReport {
    /// The device is connected: its SSID and BSSID, where they are known.
    Connected(Option<String>, Option<[u8; 6]>),
    /// The device is not.
    NotConnected,
}

/// The live state of a connected device. A BSSID of zeros is unknown.
pub open spec fn live_of(ssid: Option<Seq<char>>, bssid: Option<Seq<u8>>) -> WifiLiveStateView {
    WifiLiveStateView {
        ssid: match ssid {
            Some(ssid) => ssid,
            None => "unknown"@,
        },
        bssid: match bssid {
            Some(mac) if mac != seq![0u8, 0u8, 0u8, 0u8, 0u8, 0u8] => Some(mac_text(mac)),
            _ => None,
        },
    }
}

/// The network of a WIFI configuration.
fn build_network(wifi_cfg: &WifiConfig, prefered: bool) -> (res: NetworkConfig)
    ensures
        res@ == network_of(wifi_cfg@, prefered),
{
    NetworkConfig {
        ssid: wifi_cfg.ssid.dup(),
        password: wifi_cfg.password.dup(),
        hidden: wifi_cfg.hidden,
        prefered,
    }
}

/// The position of the first network with the SSID, or the length.
fn find_ssid(networks: &Vec<NetworkConfig>, ssid: &String) -> (res: usize)
    ensures
        res == ssid_position(networks.deep_view(), ssid@, 0),
        res <= networks.len(),
{
    let ghost views = networks.deep_view();
    let mut i: usize = 0;
    while i < networks.len()
        invariant
            i <= networks.len(),
            views == networks.deep_view(),
            ssid_position(views, ssid@, 0) == ssid_position(views, ssid@, i as int),
        decreases networks.len() - i,
    {
        assert(views[i as int] == networks[i as int]@);
        if networks[i].ssid.same(ssid) {
            return i;
        }
        i = i + 1;
    }
    i
}

/// The networks of the configurations in their order, each SSID once.
fn list_networks(wifi_cfgs: &Vec<WifiConfig>, prefered: bool) -> (res: Result<
    Vec<NetworkConfig>,
    NipartError,
>)
    ensures
        error::same_result(
            res,
            networks_from(wifi_cfgs.deep_view(), prefered, 0, Seq::empty()),
        ),
{
    let ghost views = wifi_cfgs.deep_view();
    let mut res: Vec<NetworkConfig> = empty_list();
    let mut i: usize = 0;
    while i < wifi_cfgs.len()
        invariant
            i <= wifi_cfgs.len(),
            views == wifi_cfgs.deep_view(),
            networks_from(views, prefered, 0, Seq::empty()) == networks_from(
                views,
                prefered,
                i as int,
                res.deep_view(),
            ),
        decreases wifi_cfgs.len() - i,
    {
        let wifi_cfg = &wifi_cfgs[i];
        assert(views[i as int] == wifi_cfg@);
        let k: usize = find_ssid(&res, &wifi_cfg.ssid);
        if k < res.len() {
            assert(res.deep_view()[k as int] == res[k as int]@);
            if !res[k].password.same(&wifi_cfg.password) {
                return Err(
                    NipartError::new(
                        ErrorKind::InvalidArgument,
                        String::from_str("Conflicting WIFI config for SSID ").concat(
                            wifi_cfg.ssid.as_str(),
                        ).concat(" on the same interface"),
                    ),
                );
            }
        } else {
            push(&mut res, build_network(wifi_cfg, prefered));
        }
        i = i + 1;
    }
    Ok(res)
}

/// Convert WIFI configs into one network list, keeping the order of the
/// desired interfaces and de-duplicating SSIDs. Conflicting credentials for the
/// same SSID on the same device are an error.
pub fn build_shuli_networks(wifi_cfgs: &Vec<WifiConfig>) -> (res: Result<
    Vec<NetworkConfig>,
    NipartError,
>)
    ensures
        error::same_result(res, networks_from(wifi_cfgs.deep_view(), false, 0, Seq::empty())),
{
    list_networks(wifi_cfgs, false)
}

/// Merge an explicit request of one SSID into the existing network list
/// instead of replacing it: the requested SSID becomes `prefered`, every other
/// configured network is kept and demoted to non-preferred (the latest request
/// wins), and new SSIDs are appended.
pub fn merge_preferred_networks(
    existing: &Vec<NetworkConfig>,
    wifi_cfgs: &Vec<WifiConfig>,
) -> (res: Result<Vec<NetworkConfig>, NipartError>)
    ensures
        error::same_result(res, preferred(existing.deep_view(), wifi_cfgs.deep_view())),
{
    let mut requested = match list_networks(wifi_cfgs, true) {
        Ok(requested) => requested,
        Err(e) => {
            return Err(e);
        },
    };
    let ghost views = existing.deep_view();
    let ghost start = requested.deep_view();
    let mut res: Vec<NetworkConfig> = empty_list();
    let mut i: usize = 0;
    while i < existing.len()
        invariant
            i <= existing.len(),
            views == existing.deep_view(),
            preferred_from(views, start, 0, Seq::empty()) == preferred_from(
                views,
                requested.deep_view(),
                i as int,
                res.deep_view(),
            ),
        decreases existing.len() - i,
    {
        assert(views[i as int] == existing[i as int]@);
        let k: usize = find_ssid(&requested, &existing[i].ssid);
        if k < requested.len() {
            let ghost before = requested;
            assert(before.deep_view()[k as int] == before[k as int]@);
            let network = requested.remove(k);
            proof {
                crate::value::lemma_deep_remove(before, requested, k as int);
            }
            push(&mut res, network);
        } else {
            let mut network = existing[i].dup();
            network.prefered = false;
            push(&mut res, network);
        }
        i = i + 1;
    }
    let ghost first = res.deep_view();
    let ghost rest = requested.deep_view();
    let mut i: usize = 0;
    assert(res.deep_view() =~= first + rest.subrange(0, 0));
    while i < requested.len()
        invariant
            i <= requested.len(),
            rest == requested.deep_view(),
            res.deep_view() == first + rest.subrange(0, i as int),
        decreases requested.len() - i,
    {
        assert(rest[i as int] == requested[i as int]@);
        push(&mut res, requested[i].dup());
        i = i + 1;
        assert(res.deep_view() =~= first + rest.subrange(0, i as int));
    }
    assert(rest.subrange(0, i as int) =~= rest);
    Ok(res)
}

/// Whether two network lists carry the same saved configuration.
///
/// `prefered` is a per-connection hint, not a saved property: a forced request
/// may mark its SSID as preferred, and a later re-apply of the same saved
/// profiles must not treat that as a change.
pub fn same_saved_networks_ignoring_prefered(
    current: &Vec<NetworkConfig>,
    desired: &Vec<NetworkConfig>,
) -> (res: bool)
    ensures
        res == same_saved(current.deep_view(), desired.deep_view()),
{
    if current.len() != desired.len() {
        return false;
    }
    let ghost cur_views = current.deep_view();
    let ghost des_views = desired.deep_view();
    let mut i: usize = 0;
    while i < current.len()
        invariant
            i <= current.len(),
            current.len() == desired.len(),
            cur_views == current.deep_view(),
            des_views == desired.deep_view(),
            forall|j: int|
                0 <= j < i ==> demoted(#[trigger] cur_views[j]) == demoted(des_views[j]),
        decreases current.len() - i,
    {
        assert(cur_views[i as int] == current[i as int]@);
        assert(des_views[i as int] == desired[i as int]@);
        let (cur, des) = (&current[i], &desired[i]);
        if !cur.ssid.same(&des.ssid) || !cur.password.same(&des.password) || cur.hidden
            != des.hidden {
            assert(demoted(cur_views[i as int]) != demoted(des_views[i as int]));
            return false;
        }
        i = i + 1;
    }
    true
}

/// Whether a forced apply must restart the selection of a network by clearing
/// and re-adding the network list.
///
/// A forced request of a single SSID always restarts the selection so that a
/// better BSSID can be picked, even when the current SSID is already the
/// requested one. Full-list and unrelated forced applies keep an existing
/// connection when the device is already on one of the desired networks.
pub fn should_reconnect_to_networks(
    live_ssid: &Option<String>,
    networks: &Vec<NetworkConfig>,
    force: bool,
    preferred_ssid: &Option<String>,
) -> (res: bool)
    ensures
        res == reconnects(
            live_ssid.deep_view(),
            networks.deep_view(),
            force,
            preferred_ssid.deep_view(),
        ),
{
    if !force || networks.len() == 0 {
        return false;
    }
    if preferred_ssid.is_some() {
        return true;
    }
    match live_ssid {
        Some(ssid) => find_ssid(networks, ssid) >= networks.len(),
        None => true,
    }
}

/// Whether an interface is to join a network.
pub fn has_wifi_ssid_up_request(ifaces: &Vec<Interface>) -> (res: bool)
    ensures
        res == up_requested(ifaces.deep_view()),
{
    let ghost views = ifaces.deep_view();
    let mut i: usize = 0;
    while i < ifaces.len()
        invariant
            i <= ifaces.len(),
            views == ifaces.deep_view(),
            forall|j: int|
                0 <= j < i ==> !(is_wifi(#[trigger] views[j]) && views[j].base.state is Up
                    && views[j].wifi is Some && views[j].wifi->0.ssid.len() > 0),
        decreases ifaces.len() - i,
    {
        let iface = &ifaces[i];
        assert(views[i as int] == iface@);
        if is_wifi_iface(iface) && iface.is_up() {
            if let Some(wifi) = &iface.wifi {
                if !wifi.ssid.as_str().is_empty() {
                    return true;
                }
            }
        }
        i = i + 1;
    }
    false
}

/// Whether the interface carries WIFI networks.
fn is_wifi_iface(iface: &Interface) -> (res: bool)
    ensures
        res == is_wifi(iface@),
{
    matches!(iface.base.iface_type, InterfaceType::WifiCfg | InterfaceType::WifiPhy)
}

/// The two digits of a byte.
fn byte_to_string(b: u8) -> (res: String)
    ensures
        res@ == byte_text(b),
{
    let mut res = String::new();
    res.push(to_digit_char((b / 16) as u32));
    res.push(to_digit_char((b % 16) as u32));
    assert(res@ =~= byte_text(b));
    res
}

/// A MAC address as text.
pub fn mac_to_string(mac: &[u8; 6]) -> (res: String)
    ensures
        res@ == mac_text(mac@),
{
    let ghost texts = Seq::new(6, |i: int| byte_text(mac@[i]));
    let mut parts: Vec<String> = empty_list();
    let mut i: usize = 0;
    assert(parts.deep_view() =~= texts.subrange(0, 0));
    while i < 6
        invariant
            i <= 6,
            mac@.len() == 6,
            texts == Seq::new(6, |i: int| byte_text(mac@[i])),
            parts.deep_view() == texts.subrange(0, i as int),
        decreases 6 - i,
    {
        push(&mut parts, byte_to_string(mac[i]));
        i = i + 1;
        assert(parts.deep_view() =~= texts.subrange(0, i as int));
    }
    assert(texts.subrange(0, i as int) =~= texts);
    assert(texts =~= Seq::new(mac@.len(), |i: int| byte_text(mac@[i])));
    join(&parts, ":")
}

/// Adds a name, unless it is there.
fn add_text(names: &mut Vec<String>, name: String)
    ensures
        final(names).deep_view() == with_text(old(names).deep_view(), name@),
{
    if !contains(names, &name) {
        push(names, name);
    }
}

impl WifiDesired {
    /// Adds what an interface desires.
    fn add_iface(&mut self, iface: &Interface, phys: &KeyMap<String, u32>) -> (res: Result<
        (),
        NipartError,
    >)
        ensures
            match old(self)@.with_iface(iface@, phys@) {
                Ok(next) => res is Ok && final(self)@ == next,
                Err(e) => res is Err && res->Err_0@ == e,
            },
    {
        if !is_wifi_iface(iface) {
            return Ok(());
        }
        let is_phy = iface.iface_type() == InterfaceType::WifiPhy;
        if iface.is_absent() || iface.is_down() {
            if is_phy {
                add_text(&mut self.ifaces_to_delete, iface.base.kernel_iface_name.dup());
            } else {
                // An absent configuration may come without its network; the
                // name of the profile is then the SSID it was created for.
                let ssid = match &iface.wifi {
                    Some(wifi) => wifi.ssid.dup(),
                    None => iface.base.name.dup(),
                };
                add_text(&mut self.ssids_to_delete, ssid);
            }
            return Ok(());
        }
        if !iface.is_up() {
            return Err(
                NipartError::new(
                    ErrorKind::Bug,
                    String::from_str(
                        "NipartWpaConn::apply(): Got invalid interface state: ",
                    ).concat(iface.base.name.as_str()).concat("/").concat(
                        iface.base.iface_type.as_str(),
                    ),
                ),
            );
        }
        let wifi = match &iface.wifi {
            Some(wifi) => wifi,
            None => {
                return Ok(());
            },
        };
        let device = if is_phy {
            Some(iface.base.kernel_iface_name.dup())
        } else if wifi.base_iface.is_some() {
            wifi.base_iface.dup()
        } else if phys.len() > 0 {
            Some(phys.key_at(0).dup())
        } else {
            None
        };
        if let Some(name) = device {
            let mut list = match self.configs.get(&name) {
                Some(list) => list.dup(),
                None => empty_list(),
            };
            push(&mut list, wifi.dup());
            self.configs.insert(name, list);
        }
        Ok(())
    }
}

/// What the interfaces desire of all devices.
fn collect_desired(ifaces: &Vec<Interface>, phys: &KeyMap<String, u32>) -> (res: Result<
    WifiDesired,
    NipartError,
>)
    ensures
        error::same_result(
            res,
            WifiDesiredView::none().with_ifaces_from(ifaces.deep_view(), phys@, 0),
        ),
{
    let ghost views = ifaces.deep_view();
    let mut desired = WifiDesired {
        configs: KeyMap::new(),
        ifaces_to_delete: empty_list(),
        ssids_to_delete: empty_list(),
    };
    assert(desired@ == WifiDesiredView::none());
    let mut i: usize = 0;
    while i < ifaces.len()
        invariant
            i <= ifaces.len(),
            views == ifaces.deep_view(),
            WifiDesiredView::none().with_ifaces_from(views, phys@, 0) == desired@.with_ifaces_from(
                views,
                phys@,
                i as int,
            ),
        decreases ifaces.len() - i,
    {
        assert(views[i as int] == ifaces[i as int]@);
        if let Err(e) = desired.add_iface(&ifaces[i], phys) {
            return Err(e);
        }
        i = i + 1;
    }
    Ok(desired)
}

/// The networks whose SSID is not among `dropped`.
fn drop_ssids(networks: &Vec<NetworkConfig>, dropped: &Vec<String>) -> (res: Vec<NetworkConfig>)
    ensures
        res.deep_view() == networks_kept_from(
            networks.deep_view(),
            dropped.deep_view(),
            0,
            Seq::empty(),
        ),
{
    let ghost views = networks.deep_view();
    let ghost gone = dropped.deep_view();
    let mut res: Vec<NetworkConfig> = empty_list();
    let mut i: usize = 0;
    while i < networks.len()
        invariant
            i <= networks.len(),
            views == networks.deep_view(),
            gone == dropped.deep_view(),
            networks_kept_from(views, gone, 0, Seq::empty()) == networks_kept_from(
                views,
                gone,
                i as int,
                res.deep_view(),
            ),
        decreases networks.len() - i,
    {
        assert(views[i as int] == networks[i as int]@);
        if !contains(dropped, &networks[i].ssid) {
            push(&mut res, networks[i].dup());
        }
        i = i + 1;
    }
    res
}

/// The networks that are desired of a device with those that it has.
fn gen_networks(existing: &Vec<NetworkConfig>, configs: &Vec<WifiConfig>, force: bool) -> (res:
    Result<Vec<NetworkConfig>, NipartError>)
    ensures
        error::same_result(
            res,
            networks_for(existing.deep_view(), configs.deep_view(), force),
        ),
{
    if force && configs.len() == 1 {
        merge_preferred_networks(existing, configs)
    } else {
        build_shuli_networks(configs)
    }
}

/// The networks that a managed device gets.
fn gen_new_networks(
    name: &String,
    existing: &Vec<NetworkConfig>,
    desired: &WifiDesired,
    force: bool,
) -> (res: Result<Vec<NetworkConfig>, NipartError>)
    ensures
        error::same_result(
            res,
            new_networks(name@, existing.deep_view(), desired@, force),
        ),
{
    match desired.configs.get(name) {
        Some(configs) => gen_networks(existing, configs, force),
        None => Ok(drop_ssids(existing, &desired.ssids_to_delete)),
    }
}

/// The devices for a new client.
fn list_starts(ifaces: &KeyMap<String, WifiIfaceState>) -> (res: Vec<WifiStart>)
    ensures
        res.deep_view() == starts_of(ifaces@),
{
    let mut res: Vec<WifiStart> = empty_list();
    let mut i: usize = 0;
    assert(res.deep_view() =~= starts_of(ifaces@).subrange(0, 0));
    while i < ifaces.len()
        invariant
            i <= ifaces@.len(),
            res.deep_view() == starts_of(ifaces@).subrange(0, i as int),
        decreases ifaces@.len() - i,
    {
        push(
            &mut res,
            WifiStart {
                iface_name: ifaces.key_at(i).dup(),
                networks: ifaces.value_at(i).desired_networks.dup(),
            },
        );
        i = i + 1;
        assert(res.deep_view() =~= starts_of(ifaces@).subrange(0, i as int));
    }
    assert(starts_of(ifaces@).subrange(0, i as int) =~= starts_of(ifaces@));
    res
}

/// The keys of a map.
fn list_keys(ifaces: &KeyMap<String, WifiIfaceState>) -> (res: Vec<String>)
    ensures
        res.deep_view() == keys_of(ifaces@),
{
    let mut res: Vec<String> = empty_list();
    let mut i: usize = 0;
    assert(res.deep_view() =~= keys_of(ifaces@).subrange(0, 0));
    while i < ifaces.len()
        invariant
            i <= ifaces@.len(),
            res.deep_view() == keys_of(ifaces@).subrange(0, i as int),
        decreases ifaces@.len() - i,
    {
        push(&mut res, ifaces.key_at(i).dup());
        i = i + 1;
        assert(res.deep_view() =~= keys_of(ifaces@).subrange(0, i as int));
    }
    assert(keys_of(ifaces@).subrange(0, i as int) =~= keys_of(ifaces@));
    res
}

/// How far an apply has come, besides the state.
struct ApplyProgress {
    pending: KeyMap<String, Vec<NetworkConfig>>,
    recreate: bool,
}

/// How far an apply has come, with the state.
spec fn apply_view(state: WifiClientState, progress: ApplyProgress) -> ApplyView {
    ApplyView { state: state@, pending: progress.pending@, recreate: progress.recreate }
}

impl Default for WifiClientState {
    fn default() -> (res: Self)
        ensures
            res@ == WifiClientStateView::start(),
    {
        WifiClientState {
            has_client: false,
            ifaces: KeyMap::new(),
            live_ifaces: KeyMap::new(),
            enabled: true,
            connected: false,
        }
    }
}

impl WifiClientState {
    pub fn new() -> (res: Self)
        ensures
            res@ == WifiClientStateView::start(),
    {
        Self::default()
    }

    /// Whether the client runs.
    pub fn has_client(&self) -> (res: bool)
        ensures
            res == self@.has_client,
    {
        self.has_client
    }

    /// Whether any device is connected.
    pub fn is_connected(&self) -> (res: bool)
        ensures
            res == self@.connected,
    {
        self.connected
    }

    /// Takes note of a connected device.
    pub fn set_live_connected(&mut self, iface_name: &str, live: WifiLiveState)
        ensures
            final(self)@ == old(self)@.live_connected(iface_name@, live@),
    {
        self.live_ifaces.insert(iface_name.to_owned(), live);
        self.connected = true;
    }

    /// Takes note of a device that is not connected.
    pub fn clear_live_iface(&mut self, iface_name: &str)
        ensures
            final(self)@ == old(self)@.live_cleared(iface_name@),
    {
        let name = iface_name.to_owned();
        self.live_ifaces.remove(&name);
        self.connected = !self.live_ifaces.is_empty();
    }

    /// Takes note that no device is connected.
    fn clear_live_ifaces(&mut self)
        ensures
            final(self)@ == old(self)@.disconnected(),
    {
        self.live_ifaces = KeyMap::new();
        self.connected = false;
    }

    /// The SSID that the device is connected to.
    pub fn live_ssid(&self, iface_name: &String) -> (res: Option<String>)
        ensures
            res.deep_view() == self@.ssid_of(iface_name@),
    {
        match self.live_ifaces.get(iface_name) {
            Some(live) => Some(live.ssid.dup()),
            None => None,
        }
    }

    /// How long a cycle of the client may take.
    pub fn run_once_timeout_secs(&self) -> (res: u64)
        ensures
            res == if self@.connected {
                WIFI_CONNECTED_RUN_ONCE_TIMEOUT_SECS
            } else {
                WIFI_RUN_ONCE_TIMEOUT_SECS
            },
    {
        if self.connected {
            WIFI_CONNECTED_RUN_ONCE_TIMEOUT_SECS
        } else {
            WIFI_RUN_ONCE_TIMEOUT_SECS
        }
    }

    /// Whether there is a client to tell that the host resumed from suspend: it
    /// re-checks its connections, so that one lost over suspend is retried
    /// without waiting out the retry backoff.
    pub fn notify_resume(&self) -> (res: bool)
        ensures
            res == self@.has_client,
    {
        self.has_client
    }

    /// Whether a scan is allowed: not while WIFI is off.
    pub fn check_scan(&self) -> (res: Result<(), NipartError>)
        ensures
            error::same_result(
                res,
                if self@.enabled {
                    Ok(())
                } else {
                    Err(
                        NipartErrorView {
                            kind: ErrorKind::PluginFailure,
                            msg:
                                "WIFI is off; run `npt wifi on`, `npt wifi connect`, or `npt up` on a wifi interface to restore it"@,
                        },
                    )
                },
            ),
    {
        if self.enabled {
            return Ok(());
        }
        Err(
            NipartError::new(
                ErrorKind::PluginFailure,
                String::from_str(
                    "WIFI is off; run `npt wifi on`, `npt wifi connect`, or `npt up` on a wifi interface to restore it",
                ),
            ),
        )
    }

    /// Takes note of what the client reports of a device.
    pub fn report(&mut self, iface_name: &str, report: WifiReport)
        ensures
            final(self)@ == match report {
                WifiReport::Connected(ssid, bssid) => old(self)@.live_connected(
                    iface_name@,
                    live_of(
                        ssid.deep_view(),
                        match bssid {
                            Some(mac) => Some(mac@),
                            None => None,
                        },
                    ),
                ),
                WifiReport::NotConnected => old(self)@.live_cleared(iface_name@),
            },
    {
        match report {
            WifiReport::Connected(ssid, bssid) => {
                let ssid = match ssid {
                    Some(ssid) => ssid,
                    None => String::from_str("unknown"),
                };
                let bssid = match bssid {
                    Some(mac) => {
                        let zero = mac[0] == 0 && mac[1] == 0 && mac[2] == 0 && mac[3] == 0
                            && mac[4] == 0 && mac[5] == 0;
                        assert(zero == (mac@ =~= seq![0u8, 0u8, 0u8, 0u8, 0u8, 0u8]));
                        if zero {
                            None
                        } else {
                            Some(mac_to_string(&mac))
                        }
                    },
                    None => None,
                };
                self.set_live_connected(iface_name, WifiLiveState { ssid, bssid });
            },
            WifiReport::NotConnected => {
                self.clear_live_iface(iface_name);
            },
        }
    }

    /// Takes note that every device is disconnected, as on shutdown.
    pub fn shutdown(&mut self)
        ensures
            final(self)@ == old(self)@.disconnected(),
    {
        self.clear_live_ifaces();
    }

    /// Drops the client for a fresh one with the desired networks. Used when
    /// the client is known to be stuck or when an explicit wifi-on must not
    /// wait for a long backoff.
    pub fn restart_client(&mut self) -> (res: WifiAction)
        ensures
            (final(self)@, res@) == old(self)@.restarted(),
    {
        self.has_client = false;
        self.clear_live_ifaces();
        WifiAction::Restart(list_starts(&self.ifaces))
    }

    /// Takes note of whether a client was started.
    pub fn client_started(&mut self, started: bool)
        ensures
            final(self)@ == (WifiClientStateView { has_client: started, ..old(self)@ }),
    {
        self.has_client = started;
    }

    /// Takes note that the client took the networks of a device.
    pub fn networks_updated(&mut self, iface_name: &String, networks: Vec<NetworkConfig>)
        ensures
            final(self)@ == old(self)@.with_networks(iface_name@, networks.deep_view()),
    {
        let found = match self.ifaces.get(iface_name) {
            Some(iface) => Some(iface.dup()),
            None => None,
        };
        if let Some(iface) = found {
            let mut iface = iface;
            iface.desired_networks = networks;
            self.ifaces.insert(iface_name.dup(), iface);
        }
    }

    /// Enable or disable all WIFI actions.
    ///
    /// Disabling disconnects the client and prevents future scans, connects,
    /// and client-driven passive scans. Enabling while WIFI was off restarts
    /// the client, so that the saved networks are scanned immediately instead
    /// of after a long backoff.
    pub fn set_control(&mut self, control: NipartWifiControl) -> (res: WifiAction)
        ensures
            (final(self)@, res@) == old(self)@.controlled(control),
    {
        match control {
            NipartWifiControl::Off => {
                self.enabled = false;
                self.has_client = false;
                self.clear_live_ifaces();
                WifiAction::Restart(empty_list())
            },
            NipartWifiControl::On => {
                let was_enabled = self.enabled;
                self.enabled = true;
                if !was_enabled || !self.has_client {
                    self.restart_client()
                } else {
                    WifiAction::Nothing
                }
            },
        }
    }

    /// Drops the devices.
    fn remove_ifaces(&mut self, names: &Vec<String>, progress: &mut ApplyProgress)
        ensures
            apply_view(*final(self), *final(progress)) == apply_view(
                *old(self),
                *old(progress),
            ).without_from(names.deep_view(), 0),
    {
        let ghost views = names.deep_view();
        let ghost start = apply_view(*self, *progress);
        let mut i: usize = 0;
        while i < names.len()
            invariant
                i <= names.len(),
                views == names.deep_view(),
                start.without_from(views, 0) == apply_view(*self, *progress).without_from(
                    views,
                    i as int,
                ),
            decreases names.len() - i,
        {
            assert(views[i as int] == names[i as int]@);
            if self.ifaces.contains_key(&names[i]) {
                progress.recreate = true;
            }
            self.ifaces.remove(&names[i]);
            i = i + 1;
        }
    }

    /// Takes what is desired of the managed devices.
    fn update_managed(
        &mut self,
        names: &Vec<String>,
        desired: &WifiDesired,
        phys: &KeyMap<String, u32>,
        force: bool,
        progress: &mut ApplyProgress,
    ) -> (res: Result<(), NipartError>)
        ensures
            ({
                let (apply, checked) = apply_view(*old(self), *old(progress)).with_managed_from(
                    names.deep_view(),
                    desired@,
                    phys@,
                    force,
                    0,
                );
                apply_view(*final(self), *final(progress)) == apply && error::same_result(
                    res,
                    checked,
                )
            }),
    {
        let ghost views = names.deep_view();
        let ghost start = apply_view(*self, *progress);
        let mut i: usize = 0;
        while i < names.len()
            invariant
                i <= names.len(),
                views == names.deep_view(),
                start == apply_view(*old(self), *old(progress)),
                start.with_managed_from(views, desired@, phys@, force, 0) == apply_view(
                    *self,
                    *progress,
                ).with_managed_from(views, desired@, phys@, force, i as int),
            decreases names.len() - i,
        {
            let name = &names[i];
            assert(views[i as int] == name@);
            let found = match self.ifaces.get(name) {
                Some(iface) => Some(iface.dup()),
                None => None,
            };
            if let Some(iface) = found {
                let same_device = match phys.get(name) {
                    Some(if_index) => *if_index == iface.if_index,
                    None => false,
                };
                if !same_device {
                    self.ifaces.remove(name);
                    progress.recreate = true;
                } else {
                    let networks = match gen_new_networks(
                        name,
                        &iface.desired_networks,
                        desired,
                        force,
                    ) {
                        Ok(networks) => networks,
                        Err(e) => {
                            return Err(e);
                        },
                    };
                    let news = if force {
                        !iface.desired_networks.same(&networks) || networks.len() > 0
                    } else {
                        !same_saved_networks_ignoring_prefered(&iface.desired_networks, &networks)
                    };
                    if news {
                        progress.pending.insert(name.dup(), networks);
                    }
                }
            }
            i = i + 1;
        }
        Ok(())
    }

    /// Takes the desired devices that are not managed yet.
    fn add_new(
        &mut self,
        configs: &KeyMap<String, Vec<WifiConfig>>,
        phys: &KeyMap<String, u32>,
        force: bool,
        progress: &mut ApplyProgress,
    ) -> (res: Result<(), NipartError>)
        ensures
            ({
                let (apply, added) = apply_view(*old(self), *old(progress)).with_new_from(
                    configs@,
                    phys@,
                    force,
                    0,
                );
                apply_view(*final(self), *final(progress)) == apply && error::same_result(
                    res,
                    added,
                )
            }),
    {
        let ghost start = apply_view(*self, *progress);
        let none: Vec<NetworkConfig> = empty_list();
        let mut i: usize = 0;
        while i < configs.len()
            invariant
                i <= configs@.len(),
                none.deep_view() == Seq::<NetworkConfigView>::empty(),
                start == apply_view(*old(self), *old(progress)),
                start.with_new_from(configs@, phys@, force, 0) == apply_view(
                    *self,
                    *progress,
                ).with_new_from(configs@, phys@, force, i as int),
            decreases configs@.len() - i,
        {
            let name = configs.key_at(i);
            if !self.ifaces.contains_key(name) {
                let networks = match gen_networks(&none, configs.value_at(i), force) {
                    Ok(networks) => networks,
                    Err(e) => {
                        return Err(e);
                    },
                };
                let if_index: u32 = match phys.get(name) {
                    Some(if_index) => *if_index,
                    None => 0,
                };
                self.ifaces.insert(
                    name.dup(),
                    WifiIfaceState { if_index, desired_networks: networks },
                );
                progress.recreate = true;
            }
            i = i + 1;
        }
        Ok(())
    }

    /// Takes the pending networks.
    fn take_pending(&mut self, pending: &KeyMap<String, Vec<NetworkConfig>>)
        ensures
            final(self)@ == old(self)@.with_pending_from(pending@, 0),
    {
        let mut i: usize = 0;
        while i < pending.len()
            invariant
                i <= pending@.len(),
                old(self)@.with_pending_from(pending@, 0) == self@.with_pending_from(
                    pending@,
                    i as int,
                ),
            decreases pending@.len() - i,
        {
            self.networks_updated(pending.key_at(i), pending.value_at(i).dup());
            i = i + 1;
        }
    }

    /// The new networks for the running client.
    fn list_updates(
        &self,
        pending: &KeyMap<String, Vec<NetworkConfig>>,
        configs: &KeyMap<String, Vec<WifiConfig>>,
        force: bool,
    ) -> (res: Vec<WifiUpdate>)
        ensures
            res.deep_view() == self@.updates_of(pending@, configs@, force),
    {
        let ghost updates = self@.updates_of(pending@, configs@, force);
        let mut res: Vec<WifiUpdate> = empty_list();
        let mut i: usize = 0;
        assert(res.deep_view() =~= updates.subrange(0, 0));
        while i < pending.len()
            invariant
                i <= pending@.len(),
                updates == self@.updates_of(pending@, configs@, force),
                res.deep_view() == updates.subrange(0, i as int),
            decreases pending@.len() - i,
        {
            let name = pending.key_at(i);
            let networks = pending.value_at(i);
            let requested = match configs.get(name) {
                Some(list) => if force && list.len() == 1 {
                    assert(list.deep_view()[0] == list[0]@);
                    Some(list[0].ssid.dup())
                } else {
                    None
                },
                None => None,
            };
            let reconnect = should_reconnect_to_networks(
                &self.live_ssid(name),
                networks,
                force,
                &requested,
            );
            push(
                &mut res,
                WifiUpdate { iface_name: name.dup(), networks: networks.dup(), reconnect },
            );
            i = i + 1;
            assert(res.deep_view() =~= updates.subrange(0, i as int));
        }
        assert(updates.subrange(0, i as int) =~= updates);
        res
    }

    /// Takes the desired WIFI interfaces, given the devices of the kernel by
    /// name with their indexes. Returns what is to be done with the client.
    ///
    /// An apply that does not mention a device must not tear its connection
    /// down: only explicit absent or down configurations remove networks. A
    /// forced request of one network keeps the other networks and tries that
    /// one first; every other apply replaces the networks of the devices that
    /// it mentions.
    pub fn apply(&mut self, ifaces: &Vec<Interface>, force: bool, phys: &KeyMap<String, u32>) -> (res:
        Result<WifiAction, NipartError>)
        ensures
            ({
                let (state, action) = old(self)@.applied(ifaces.deep_view(), force, phys@);
                final(self)@ == state && error::same_result(res, action)
            }),
    {
        // Down/absent-only applies and background applies of a device must not
        // silently turn WIFI on.
        if !self.enabled && has_wifi_ssid_up_request(ifaces) {
            self.enabled = true;
        }
        let desired = match collect_desired(ifaces, phys) {
            Ok(desired) => desired,
            Err(e) => {
                return Err(e);
            },
        };
        let mut progress = ApplyProgress { pending: KeyMap::new(), recreate: false };
        self.remove_ifaces(&desired.ifaces_to_delete, &mut progress);
        let names = list_keys(&self.ifaces);
        if let Err(e) = self.update_managed(&names, &desired, phys, force, &mut progress) {
            return Err(e);
        }
        if let Err(e) = self.add_new(&desired.configs, phys, force, &mut progress) {
            return Err(e);
        }
        if !self.enabled {
            self.take_pending(&progress.pending);
            return Ok(WifiAction::Nothing);
        }
        if progress.recreate || (!self.has_client && !self.ifaces.is_empty()) {
            self.take_pending(&progress.pending);
            return Ok(self.restart_client());
        }
        if !self.has_client {
            return Ok(WifiAction::Nothing);
        }
        Ok(WifiAction::Update(self.list_updates(&progress.pending, &desired.configs, force)))
    }
}

/// The first network with an SSID is found at its position.
proof fn lemma_ssid_position(networks: Seq<NetworkConfigView>, ssid: Seq<char>, i: int)
    requires
        0 <= i <= networks.len(),
    ensures
        i <= ssid_position(networks, ssid, i) <= networks.len(),
        ssid_position(networks, ssid, i) < networks.len() ==> networks[ssid_position(
            networks,
            ssid,
            i,
        )].ssid == ssid,
        forall|j: int|
            i <= j < ssid_position(networks, ssid, i) ==> (#[trigger] networks[j]).ssid != ssid,
    decreases networks.len() - i,
{
    if i < networks.len() && networks[i].ssid != ssid {
        lemma_ssid_position(networks, ssid, i + 1);
    }
}

/// Whether every SSID is there once.
pub open spec fn ssids_distinct(networks: Seq<NetworkConfigView>) -> bool {
    forall|i: int, j: int|
        0 <= i < j < networks.len() ==> (#[trigger] networks[i]).ssid != (
        #[trigger] networks[j]).ssid
}

/// Whether a network of the list has the SSID.
pub open spec fn has_ssid(networks: Seq<NetworkConfigView>, ssid: Seq<char>) -> bool {
    exists|i: int| 0 <= i < networks.len() && (#[trigger] networks[i]).ssid == ssid
}

/// The networks of a list of configurations name every SSID once, keep its
/// password, and leave none out. Two passwords for one SSID are refused.
pub proof fn law_networks(
    configs: Seq<WifiConfigView>,
    prefered: bool,
    i: int,
    acc: Seq<NetworkConfigView>,
)
    requires
        0 <= i <= configs.len(),
        ssids_distinct(acc),
    ensures
        networks_from(configs, prefered, i, acc) is Ok ==> {
            let networks = networks_from(configs, prefered, i, acc)->Ok_0;
            &&& ssids_distinct(networks)
            &&& acc.len() <= networks.len()
            &&& forall|k: int| 0 <= k < acc.len() ==> networks[k] == acc[k]
            &&& forall|k: int|
                acc.len() <= k < networks.len() ==> (#[trigger] networks[k]).prefered == prefered
            &&& forall|j: int|
                i <= j < configs.len() ==> has_ssid(networks, (#[trigger] configs[j]).ssid)
            &&& forall|j: int, k: int|
                i <= j < configs.len() && 0 <= k < networks.len() && (#[trigger] configs[j]).ssid
                    == (#[trigger] networks[k]).ssid ==> configs[j].password
                    == networks[k].password
        },
    decreases configs.len() - i,
{
    if i < configs.len() {
        let k = ssid_position(acc, configs[i].ssid, 0);
        lemma_ssid_position(acc, configs[i].ssid, 0);
        if k >= acc.len() {
            let next = acc.push(network_of(configs[i], prefered));
            assert(ssids_distinct(next));
            law_networks(configs, prefered, i + 1, next);
            if networks_from(configs, prefered, i, acc) is Ok {
                let networks = networks_from(configs, prefered, i, acc)->Ok_0;
                assert(networks[acc.len() as int] == next[acc.len() as int]);
                assert forall|m: int| 0 <= m < acc.len() implies networks[m] == acc[m] by {
                    assert(networks[m] == next[m]);
                }
                assert(has_ssid(networks, configs[i].ssid));
            }
        } else if acc[k].password == configs[i].password {
            law_networks(configs, prefered, i + 1, acc);
            if networks_from(configs, prefered, i, acc) is Ok {
                let networks = networks_from(configs, prefered, i, acc)->Ok_0;
                assert(networks[k] == acc[k]);
                assert(has_ssid(networks, configs[i].ssid));
            }
        }
    }
}

/// A network of a list of configurations has the SSID of one of them.
proof fn lemma_requested_ssid(
    configs: Seq<WifiConfigView>,
    i: int,
    acc: Seq<NetworkConfigView>,
    ssid: Seq<char>,
)
    requires
        0 <= i <= configs.len(),
        networks_from(configs, true, i, acc) is Ok,
        has_ssid(networks_from(configs, true, i, acc)->Ok_0, ssid),
    ensures
        has_ssid(acc, ssid) || exists|k: int|
            i <= k < configs.len() && (#[trigger] configs[k]).ssid == ssid,
    decreases configs.len() - i,
{
    if i < configs.len() {
        let k = ssid_position(acc, configs[i].ssid, 0);
        if k >= acc.len() {
            let next = acc.push(network_of(configs[i], true));
            lemma_requested_ssid(configs, i + 1, next, ssid);
            if has_ssid(next, ssid) {
                let m = choose|m: int| 0 <= m < next.len() && (#[trigger] next[m]).ssid == ssid;
                if m < acc.len() {
                    assert(acc[m].ssid == ssid);
                } else {
                    assert(configs[i].ssid == ssid);
                }
            }
        } else {
            lemma_requested_ssid(configs, i + 1, acc, ssid);
        }
    }
}

/// Preferring networks keeps every existing one in its place, and as it is when
/// it is not requested.
proof fn lemma_preferred_places(
    existing: Seq<NetworkConfigView>,
    requested: Seq<NetworkConfigView>,
    i: int,
    acc: Seq<NetworkConfigView>,
)
    requires
        0 <= i <= existing.len(),
        acc.len() == i,
    ensures
        ({
            let res = preferred_from(existing, requested, i, acc);
            &&& existing.len() <= res.len()
            &&& forall|j: int| 0 <= j < i ==> res[j] == acc[j]
            &&& forall|j: int|
                i <= j < existing.len() ==> (#[trigger] res[j]).ssid == existing[j].ssid && (
                has_ssid(requested, existing[j].ssid) || res[j] == demoted(existing[j]))
        }),
    decreases existing.len() - i,
{
    if i < existing.len() {
        let k = ssid_position(requested, existing[i].ssid, 0);
        lemma_ssid_position(requested, existing[i].ssid, 0);
        let (rest, next) = if k < requested.len() {
            (requested.remove(k), acc.push(requested[k]))
        } else {
            (requested, acc.push(demoted(existing[i])))
        };
        lemma_preferred_places(existing, rest, i + 1, next);
        let res = preferred_from(existing, requested, i, acc);
        assert(res[i] == next[i]);
        assert forall|ssid: Seq<char>| #[trigger] has_ssid(rest, ssid) implies has_ssid(
            requested,
            ssid,
        ) by {
            let m = choose|m: int| 0 <= m < rest.len() && (#[trigger] rest[m]).ssid == ssid;
            if k < requested.len() && m >= k {
                assert(requested[m + 1].ssid == ssid);
            } else {
                assert(requested[m].ssid == ssid);
            }
        }
        assert forall|j: int| 0 <= j < i implies res[j] == acc[j] by {
            assert(res[j] == next[j]);
        }
    }
}

/// Preferring networks leaves no requested one out.
proof fn lemma_preferred_requested(
    existing: Seq<NetworkConfigView>,
    requested: Seq<NetworkConfigView>,
    i: int,
    acc: Seq<NetworkConfigView>,
    network: NetworkConfigView,
)
    requires
        0 <= i <= existing.len(),
        acc.contains(network) || requested.contains(network),
    ensures
        preferred_from(existing, requested, i, acc).contains(network),
    decreases existing.len() - i,
{
    if i >= existing.len() {
        let all = acc + requested;
        if acc.contains(network) {
            let j = acc.index_of(network);
            assert(all[j] == network);
        } else {
            let j = requested.index_of(network);
            assert(all[acc.len() + j] == network);
        }
    } else {
        let k = ssid_position(requested, existing[i].ssid, 0);
        lemma_ssid_position(requested, existing[i].ssid, 0);
        let (rest, next) = if k < requested.len() {
            (requested.remove(k), acc.push(requested[k]))
        } else {
            (requested, acc.push(demoted(existing[i])))
        };
        if acc.contains(network) {
            let j = acc.index_of(network);
            assert(next[j] == network);
        } else {
            let j = requested.index_of(network);
            if k < requested.len() {
                if j == k {
                    assert(next[acc.len() as int] == network);
                } else if j < k {
                    assert(rest[j] == network);
                } else {
                    assert(rest[j - 1] == network);
                }
            }
        }
        lemma_preferred_requested(existing, rest, i + 1, next, network);
    }
}

/// A request for networks keeps every network that is there in its place, and
/// every requested one is tried first. The latest request wins: a network that
/// is not requested stays as it is, but is tried first no longer.
pub proof fn law_preferred(
    existing: Seq<NetworkConfigView>,
    configs: Seq<WifiConfigView>,
    i: int,
    j: int,
)
    requires
        preferred(existing, configs) is Ok,
    ensures
        ({
            let networks = preferred(existing, configs)->Ok_0;
            &&& 0 <= i < existing.len() ==> i < networks.len() && networks[i].ssid
                == existing[i].ssid
            &&& 0 <= i < existing.len() && (forall|k: int|
                0 <= k < configs.len() ==> (#[trigger] configs[k]).ssid != existing[i].ssid)
                ==> networks[i] == demoted(existing[i])
            &&& 0 <= j < configs.len() ==> exists|k: int|
                0 <= k < networks.len() && (#[trigger] networks[k]).ssid == configs[j].ssid
                    && networks[k].password == configs[j].password && networks[k].prefered
        }),
{
    let none = Seq::<NetworkConfigView>::empty();
    let requested = networks_from(configs, true, 0, none)->Ok_0;
    law_networks(configs, true, 0, none);
    lemma_preferred_places(existing, requested, 0, none);
    let networks = preferred(existing, configs)->Ok_0;
    if 0 <= i < existing.len() {
        assert(networks[i].ssid == existing[i].ssid);
        if has_ssid(requested, existing[i].ssid) {
            lemma_requested_ssid(configs, 0, none, existing[i].ssid);
        }
    }
    if 0 <= j < configs.len() {
        assert(has_ssid(requested, configs[j].ssid));
        let k = choose|k: int|
            0 <= k < requested.len() && (#[trigger] requested[k]).ssid == configs[j].ssid;
        assert(requested[k].prefered);
        assert(requested.contains(requested[k]));
        lemma_preferred_requested(existing, requested, 0, none, requested[k]);
        let m = networks.index_of(requested[k]);
        assert(networks[m].ssid == configs[j].ssid);
    }
}

/// Which network is tried first does not tell saved networks apart.
pub proof fn law_same_saved(
    a: Seq<NetworkConfigView>,
    b: Seq<NetworkConfigView>,
    c: Seq<NetworkConfigView>,
)
    ensures
        same_saved(a, a),
        same_saved(a, Seq::new(a.len(), |i: int| demoted(a[i]))),
        same_saved(a, b) ==> same_saved(b, a),
        same_saved(a, b) && same_saved(b, c) ==> same_saved(a, c),
{
    if same_saved(a, b) {
        assert forall|i: int| 0 <= i < b.len() implies demoted(#[trigger] b[i]) == demoted(
            a[i],
        ) by {
            assert(demoted(a[i]) == demoted(b[i]));
        }
        if same_saved(b, c) {
            assert forall|i: int| 0 <= i < a.len() implies demoted(#[trigger] a[i]) == demoted(
                c[i],
            ) by {
                assert(demoted(b[i]) == demoted(c[i]));
            }
        }
    }
}

impl WifiClientStateView {
    /// Whether the state says that a device is connected exactly when one is.
    pub open spec fn valid(self) -> bool {
        self.connected == (self.live_ifaces.len() > 0)
    }
}

/// The state always tells whether a device is connected: it starts that way,
/// and every report, restart and control keeps it so.
pub proof fn law_connected(
    state: WifiClientStateView,
    name: Seq<char>,
    live: WifiLiveStateView,
    control: NipartWifiControl,
)
    requires
        state.valid(),
    ensures
        WifiClientStateView::start().valid(),
        state.live_connected(name, live).valid(),
        state.live_connected(name, live).ssid_of(name) == Some(live.ssid),
        state.live_cleared(name).valid(),
        state.disconnected().valid(),
        state.restarted().0.valid(),
        state.controlled(control).0.valid(),
{
    keymap::law_inserted(state.live_ifaces, name, live, name);
}

/// Turning WIFI off ends every connection and stops the client. Turning it on
/// again starts one for all devices and their networks.
pub proof fn law_control(state: WifiClientStateView)
    ensures
        ({
            let off = state.controlled(NipartWifiControl::Off);
            let on = off.0.controlled(NipartWifiControl::On);
            &&& !off.0.enabled && !off.0.has_client && !off.0.connected
            &&& off.0.live_ifaces.len() == 0
            &&& off.0.ifaces == state.ifaces
            &&& off.1 == WifiActionView::Restart(Seq::empty())
            &&& on.0.enabled && on.0.ifaces == state.ifaces
            &&& on.1 == WifiActionView::Restart(starts_of(state.ifaces))
        }),
{
}

/// Turning WIFI on while it is on and a client runs keeps every connection.
pub proof fn law_control_on_twice(state: WifiClientStateView)
    requires
        state.enabled,
        state.has_client,
    ensures
        state.controlled(NipartWifiControl::On) == (state, WifiActionView::Nothing),
{
}

/// Whether an apply leaves alone whether WIFI is on, whether a client runs, and
/// what is connected.
pub open spec fn same_client(a: WifiClientStateView, b: WifiClientStateView) -> bool {
    &&& a.enabled == b.enabled
    &&& a.has_client == b.has_client
    &&& a.live_ifaces == b.live_ifaces
    &&& a.connected == b.connected
}

/// Dropping devices leaves the client alone.
proof fn lemma_without(apply: ApplyView, names: Seq<Seq<char>>, i: int)
    requires
        0 <= i,
    ensures
        same_client(apply.state, apply.without_from(names, i).state),
    decreases names.len() - i,
{
    if i < names.len() {
        lemma_without(
            ApplyView {
                state: WifiClientStateView {
                    ifaces: keymap::removed(apply.state.ifaces, names[i]),
                    ..apply.state
                },
                recreate: apply.recreate || keymap::has(apply.state.ifaces, names[i]),
                ..apply
            },
            names,
            i + 1,
        );
    }
}

/// What is desired of managed devices leaves the client alone.
proof fn lemma_managed(
    apply: ApplyView,
    names: Seq<Seq<char>>,
    desired: WifiDesiredView,
    phys: Seq<(Seq<char>, u32)>,
    force: bool,
    i: int,
)
    requires
        0 <= i,
    ensures
        same_client(
            apply.state,
            apply.with_managed_from(names, desired, phys, force, i).0.state,
        ),
    decreases names.len() - i,
{
    if i < names.len() {
        match keymap::lookup(apply.state.ifaces, names[i]) {
            None => lemma_managed(apply, names, desired, phys, force, i + 1),
            Some(iface) => if keymap::lookup(phys, names[i]) != Some(iface.if_index) {
                lemma_managed(
                    ApplyView {
                        state: WifiClientStateView {
                            ifaces: keymap::removed(apply.state.ifaces, names[i]),
                            ..apply.state
                        },
                        recreate: true,
                        ..apply
                    },
                    names,
                    desired,
                    phys,
                    force,
                    i + 1,
                );
            } else if let Ok(networks) = new_networks(
                names[i],
                iface.desired_networks,
                desired,
                force,
            ) {
                lemma_managed(
                    ApplyView {
                        pending: if is_news(iface.desired_networks, networks, force) {
                            keymap::inserted(apply.pending, names[i], networks)
                        } else {
                            apply.pending
                        },
                        ..apply
                    },
                    names,
                    desired,
                    phys,
                    force,
                    i + 1,
                );
            },
        }
    }
}

/// New devices leave the client alone.
proof fn lemma_new(
    apply: ApplyView,
    configs: Seq<(Seq<char>, Seq<WifiConfigView>)>,
    phys: Seq<(Seq<char>, u32)>,
    force: bool,
    i: int,
)
    requires
        0 <= i,
    ensures
        same_client(apply.state, apply.with_new_from(configs, phys, force, i).0.state),
    decreases configs.len() - i,
{
    if i < configs.len() {
        if keymap::has(apply.state.ifaces, configs[i].0) {
            lemma_new(apply, configs, phys, force, i + 1);
        } else if let Ok(networks) = networks_for(Seq::empty(), configs[i].1, force) {
            lemma_new(
                ApplyView {
                    state: WifiClientStateView {
                        ifaces: keymap::inserted(
                            apply.state.ifaces,
                            configs[i].0,
                            WifiIfaceStateView {
                                if_index: keymap::lookup(phys, configs[i].0).unwrap_or(0),
                                desired_networks: networks,
                            },
                        ),
                        ..apply.state
                    },
                    recreate: true,
                    ..apply
                },
                configs,
                phys,
                force,
                i + 1,
            );
        }
    }
}

/// New networks leave the client alone.
proof fn lemma_pending(
    state: WifiClientStateView,
    pending: Seq<(Seq<char>, Seq<NetworkConfigView>)>,
    i: int,
)
    requires
        0 <= i,
    ensures
        same_client(state, state.with_pending_from(pending, i)),
    decreases pending.len() - i,
{
    if i < pending.len() {
        lemma_pending(state.with_networks(pending[i].0, pending[i].1), pending, i + 1);
    }
}

/// An apply turns WIFI on only for a request to join a network, and never off.
/// While WIFI stays off, nothing is done.
pub proof fn law_apply_enables(
    state: WifiClientStateView,
    ifaces: Seq<InterfaceView>,
    force: bool,
    phys: Seq<(Seq<char>, u32)>,
)
    ensures
        ({
            let (after, action) = state.applied(ifaces, force, phys);
            &&& after.enabled == (state.enabled || up_requested(ifaces))
            &&& !after.enabled && action is Ok ==> action->Ok_0 == WifiActionView::Nothing
            &&& !after.enabled ==> after.has_client == state.has_client && after.live_ifaces
                == state.live_ifaces
            &&& state.valid() ==> after.valid()
        }),
{
    let on = WifiClientStateView { enabled: state.enabled || up_requested(ifaces), ..state };
    if let Ok(desired) = WifiDesiredView::none().with_ifaces_from(ifaces, phys, 0) {
        let start = ApplyView { state: on, pending: Seq::empty(), recreate: false };
        let kept = start.without_from(desired.ifaces_to_delete, 0);
        let names = keys_of(kept.state.ifaces);
        let managed = kept.with_managed_from(names, desired, phys, force, 0).0;
        let apply = managed.with_new_from(desired.configs, phys, force, 0).0;
        lemma_without(start, desired.ifaces_to_delete, 0);
        lemma_managed(kept, names, desired, phys, force, 0);
        lemma_new(managed, desired.configs, phys, force, 0);
        lemma_pending(apply.state, apply.pending, 0);
    }
}

} // verus!
