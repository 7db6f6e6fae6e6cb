//! Network interfaces.

use vstd::prelude::*;
use vstd::string::*;

use crate::error;
use crate::error::{NipartError, NipartErrorView};
use crate::ip;
use crate::ip::{
    InterfaceIpv4, InterfaceIpv4View, InterfaceIpv6, InterfaceIpv6View, merge_ipv4, merge_ipv6,
};
use crate::text;
use crate::text::to_ascii_upper;
use crate::value;
use crate::value::{Value, change_dup, is_change, or_dup};

verus! {

/// The type of an interface.
#[derive(Clone, Copy, Debug, PartialEq, Eq, Hash, Structural)]
#[non_exhaustive]
pub enum InterfaceType {
    Bond,
    Dummy,
    Ethernet,
    LinuxBridge,
    Loopback,
    OvsBridge,
    OvsInterface,
    Veth,
    Vlan,
    Vrf,
    Vxlan,
    WifiCfg,
    WifiPhy,
    Wireguard,
    Unknown,
}

impl DeepView for InterfaceType {
    type V = InterfaceType;

    open spec fn deep_view(&self) -> InterfaceType {
        *self
    }
}

impl Value for InterfaceType {
    fn dup(&self) -> (res: Self) {
        *self
    }

    fn same(&self, other: &Self) -> (res: bool) {
        *self == *other
    }
}

/// What is to become of an interface.
#[derive(Clone, Copy, Debug, PartialEq, Eq, Hash, Structural)]
#[non_exhaustive]
pub enum InterfaceState {
    /// Brought up.
    Up,
    /// Brought down; a virtual interface is deleted.
    Down,
    /// Deleted; its saved configuration is dropped.
    Absent,
    /// Left alone.
    Ignore,
    /// Its configuration is saved and not applied.
    Saved,
    /// Not known.
    Unknown,
}

impl DeepView for InterfaceState {
    type V = InterfaceState;

    open spec fn deep_view(&self) -> InterfaceState {
        *self
    }
}

impl Value for InterfaceState {
    fn dup(&self) -> (res: Self) {
        *self
    }

    fn same(&self, other: &Self) -> (res: bool) {
        *self == *other
    }
}

/// How a configuration is matched with an interface of the host.
#[derive(Clone, Copy, Debug, PartialEq, Eq, Hash, Structural)]
#[non_exhaustive]
pub enum InterfaceIdentifier {
    /// By the name of the interface.
    Name,
    /// By the MAC address of the interface.
    MacAddress,
}

impl DeepView for InterfaceIdentifier {
    type V = InterfaceIdentifier;

    open spec fn deep_view(&self) -> InterfaceIdentifier {
        *self
    }
}

impl Value for InterfaceIdentifier {
    fn dup(&self) -> (res: Self) {
        *self
    }

    fn same(&self, other: &Self) -> (res: bool) {
        *self == *other
    }
}

/// The state of the link of an interface. Shown by the host only.
#[derive(Clone, Copy, Debug, PartialEq, Eq, Hash, Structural)]
#[non_exhaustive]
pub enum InterfaceLinkState {
    Up,
    Down,
    Dormant,
    LowerLayerDown,
    Unknown,
}

impl DeepView for InterfaceLinkState {
    type V = InterfaceLinkState;

    open spec fn deep_view(&self) -> InterfaceLinkState {
        *self
    }
}

impl Value for InterfaceLinkState {
    fn dup(&self) -> (res: Self) {
        *self
    }

    fn same(&self, other: &Self) -> (res: bool) {
        *self == *other
    }
}

/// Whether an alternative name is to be removed.
#[derive(Clone, Copy, Debug, PartialEq, Eq, Hash, Structural)]
#[non_exhaustive]
pub enum AltNameState {
    /// Used for removing an alternative name.
    Absent,
}

impl DeepView for AltNameState {
    type V = AltNameState;

    open spec fn deep_view(&self) -> AltNameState {
        *self
    }
}

impl Value for AltNameState {
    fn dup(&self) -> (res: Self) {
        *self
    }

    fn same(&self, other: &Self) -> (res: bool) {
        *self == *other
    }
}

/// An alternative name of an interface.
#[derive(Clone, Debug, PartialEq, Eq)]
pub struct AltNameEntry {
    pub name: String,
    pub state: Option<AltNameState>,
}

/// What a [AltNameEntry] stands for.
#[verifier::ext_equal]
pub struct AltNameEntryView {
    pub name: Seq<char>,
    pub state: Option<AltNameState>,
}

impl View for AltNameEntry {
    type V = AltNameEntryView;

    open spec fn view(&self) -> AltNameEntryView {
        AltNameEntryView {
            name: self.name.deep_view(),
            state: self.state.deep_view(),
        }
    }
}

impl DeepView for AltNameEntry {
    type V = AltNameEntryView;

    open spec fn deep_view(&self) -> AltNameEntryView {
        self@
    }
}

impl Value for AltNameEntry {
    fn dup(&self) -> (res: Self) {
        AltNameEntry {
            name: self.name.dup(),
            state: self.state.dup(),
        }
    }

    fn same(&self, other: &Self) -> (res: bool) {
        self.name.same(&other.name) && self.state.same(&other.state)
    }
}

/// The other end of a virtual cable.
#[derive(Clone, Debug, PartialEq, Eq)]
pub struct VethConfig {
    pub peer: String,
}

/// What a [VethConfig] stands for.
#[verifier::ext_equal]
pub struct VethConfigView {
    pub peer: Seq<char>,
}

impl View for VethConfig {
    type V = VethConfigView;

    open spec fn view(&self) -> VethConfigView {
        VethConfigView {
            peer: self.peer.deep_view(),
        }
    }
}

impl DeepView for VethConfig {
    type V = VethConfigView;

    open spec fn deep_view(&self) -> VethConfigView {
        self@
    }
}

impl Value for VethConfig {
    fn dup(&self) -> (res: Self) {
        VethConfig {
            peer: self.peer.dup(),
        }
    }

    fn same(&self, other: &Self) -> (res: bool) {
        self.peer.same(&other.peer)
    }
}

/// A WIFI network.
#[derive(Clone, Debug, PartialEq, Eq)]
pub struct WifiConfig {
    pub ssid: String,
    pub password: Option<String>,
    /// The WIFI device to use; any one when it is undefined.
    pub base_iface: Option<String>,
    /// Whether the network does not broadcast its SSID.
    pub hidden: bool,
}

/// What a [WifiConfig] stands for.
#[verifier::ext_equal]
pub struct WifiConfigView {
    pub ssid: Seq<char>,
    pub password: Option<Seq<char>>,
    pub base_iface: Option<Seq<char>>,
    pub hidden: bool,
}

impl View for WifiConfig {
    type V = WifiConfigView;

    open spec fn view(&self) -> WifiConfigView {
        WifiConfigView {
            ssid: self.ssid.deep_view(),
            password: self.password.deep_view(),
            base_iface: self.base_iface.deep_view(),
            hidden: self.hidden.deep_view(),
        }
    }
}

impl DeepView for WifiConfig {
    type V = WifiConfigView;

    open spec fn deep_view(&self) -> WifiConfigView {
        self@
    }
}

impl Default for WifiConfig {
    fn default() -> (res: Self)
        ensures
            res@ == (WifiConfigView {
                ssid: Seq::empty(),
                password: None,
                base_iface: None,
                hidden: false,
            }),
    {
        WifiConfig { ssid: String::new(), password: None, base_iface: None, hidden: false }
    }
}

impl Value for WifiConfig {
    fn dup(&self) -> (res: Self) {
        WifiConfig {
            ssid: self.ssid.dup(),
            password: self.password.dup(),
            base_iface: self.base_iface.dup(),
            hidden: self.hidden.dup(),
        }
    }

    fn same(&self, other: &Self) -> (res: bool) {
        self.ssid.same(&other.ssid) && self.password.same(&other.password) && self.base_iface.same(&other.base_iface) && self.hidden.same(&other.hidden)
    }
}

/// What interfaces of all types have.
#[derive(Clone, Debug, PartialEq, Eq)]
pub struct BaseInterface {
    /// The name of the interface, or of its profile.
    pub name: String,
    /// The name of the interface in the kernel; empty when it is not known.
    pub kernel_iface_name: String,
    pub profile_name: Option<String>,
    /// For people; neither applied nor verified.
    pub description: Option<String>,
    pub iface_type: InterfaceType,
    pub state: InterfaceState,
    pub identifier: Option<InterfaceIdentifier>,
    pub mac_address: Option<String>,
    /// The MAC address of the hardware. Shown by the host only.
    pub permanent_mac_address: Option<String>,
    pub mtu: Option<u64>,
    /// The controller that the interface is a port of; empty to detach it.
    pub controller: Option<String>,
    pub controller_type: Option<InterfaceType>,
    pub link_state: Option<InterfaceLinkState>,
    pub ipv4: Option<InterfaceIpv4>,
    pub ipv6: Option<InterfaceIpv6>,
    pub alt_names: Option<Vec<AltNameEntry>>,
}

/// What a [BaseInterface] stands for.
#[verifier::ext_equal]
pub struct BaseInterfaceView {
    pub name: Seq<char>,
    pub kernel_iface_name: Seq<char>,
    pub profile_name: Option<Seq<char>>,
    pub description: Option<Seq<char>>,
    pub iface_type: InterfaceType,
    pub state: InterfaceState,
    pub identifier: Option<InterfaceIdentifier>,
    pub mac_address: Option<Seq<char>>,
    pub permanent_mac_address: Option<Seq<char>>,
    pub mtu: Option<u64>,
    pub controller: Option<Seq<char>>,
    pub controller_type: Option<InterfaceType>,
    pub link_state: Option<InterfaceLinkState>,
    pub ipv4: Option<InterfaceIpv4View>,
    pub ipv6: Option<InterfaceIpv6View>,
    pub alt_names: Option<Seq<AltNameEntryView>>,
}

impl View for BaseInterface {
    type V = BaseInterfaceView;

    open spec fn view(&self) -> BaseInterfaceView {
        BaseInterfaceView {
            name: self.name.deep_view(),
            kernel_iface_name: self.kernel_iface_name.deep_view(),
            profile_name: self.profile_name.deep_view(),
            description: self.description.deep_view(),
            iface_type: self.iface_type.deep_view(),
            state: self.state.deep_view(),
            identifier: self.identifier.deep_view(),
            mac_address: self.mac_address.deep_view(),
            permanent_mac_address: self.permanent_mac_address.deep_view(),
            mtu: self.mtu.deep_view(),
            controller: self.controller.deep_view(),
            controller_type: self.controller_type.deep_view(),
            link_state: self.link_state.deep_view(),
            ipv4: self.ipv4.deep_view(),
            ipv6: self.ipv6.deep_view(),
            alt_names: self.alt_names.deep_view(),
        }
    }
}

impl DeepView for BaseInterface {
    type V = BaseInterfaceView;

    open spec fn deep_view(&self) -> BaseInterfaceView {
        self@
    }
}

impl Value for BaseInterface {
    fn dup(&self) -> (res: Self) {
        BaseInterface {
            name: self.name.dup(),
            kernel_iface_name: self.kernel_iface_name.dup(),
            profile_name: self.profile_name.dup(),
            description: self.description.dup(),
            iface_type: self.iface_type.dup(),
            state: self.state.dup(),
            identifier: self.identifier.dup(),
            mac_address: self.mac_address.dup(),
            permanent_mac_address: self.permanent_mac_address.dup(),
            mtu: self.mtu.dup(),
            controller: self.controller.dup(),
            controller_type: self.controller_type.dup(),
            link_state: self.link_state.dup(),
            ipv4: self.ipv4.dup(),
            ipv6: self.ipv6.dup(),
            alt_names: self.alt_names.dup(),
        }
    }

    fn same(&self, other: &Self) -> (res: bool) {
        self.name.same(&other.name) && self.kernel_iface_name.same(&other.kernel_iface_name) && self.profile_name.same(&other.profile_name) && self.description.same(&other.description) && self.iface_type.same(&other.iface_type) && self.state.same(&other.state) && self.identifier.same(&other.identifier) && self.mac_address.same(&other.mac_address) && self.permanent_mac_address.same(&other.permanent_mac_address) && self.mtu.same(&other.mtu) && self.controller.same(&other.controller) && self.controller_type.same(&other.controller_type) && self.link_state.same(&other.link_state) && self.ipv4.same(&other.ipv4) && self.ipv6.same(&other.ipv6) && self.alt_names.same(&other.alt_names)
    }
}

/// A network interface: the common part and the sections of its type.
#[derive(Clone, Debug, PartialEq, Eq)]
pub struct Interface {
    pub base: BaseInterface,
    pub veth: Option<VethConfig>,
    pub wifi: Option<WifiConfig>,
    /// The interface that a VLAN or a VXLAN runs on.
    pub parent: Option<String>,
    /// The ports of a controller.
    pub ports: Option<Vec<String>>,
    /// The route table of a VRF.
    pub vrf_table_id: Option<u32>,
    /// The private key of a WireGuard interface.
    pub private_key: Option<String>,
}

/// What a [Interface] stands for.
#[verifier::ext_equal]
pub struct InterfaceView {
    pub base: BaseInterfaceView,
    pub veth: Option<VethConfigView>,
    pub wifi: Option<WifiConfigView>,
    pub parent: Option<Seq<char>>,
    pub ports: Option<Seq<Seq<char>>>,
    pub vrf_table_id: Option<u32>,
    pub private_key: Option<Seq<char>>,
}

impl View for Interface {
    type V = InterfaceView;

    open spec fn view(&self) -> InterfaceView {
        InterfaceView {
            base: self.base.deep_view(),
            veth: self.veth.deep_view(),
            wifi: self.wifi.deep_view(),
            parent: self.parent.deep_view(),
            ports: self.ports.deep_view(),
            vrf_table_id: self.vrf_table_id.deep_view(),
            private_key: self.private_key.deep_view(),
        }
    }
}

impl DeepView for Interface {
    type V = InterfaceView;

    open spec fn deep_view(&self) -> InterfaceView {
        self@
    }
}

impl Value for Interface {
    fn dup(&self) -> (res: Self) {
        Interface {
            base: self.base.dup(),
            veth: self.veth.dup(),
            wifi: self.wifi.dup(),
            parent: self.parent.dup(),
            ports: self.ports.dup(),
            vrf_table_id: self.vrf_table_id.dup(),
            private_key: self.private_key.dup(),
        }
    }

    fn same(&self, other: &Self) -> (res: bool) {
        self.base.same(&other.base) && self.veth.same(&other.veth) && self.wifi.same(&other.wifi) && self.parent.same(&other.parent) && self.ports.same(&other.ports) && self.vrf_table_id.same(&other.vrf_table_id) && self.private_key.same(&other.private_key)
    }
}

impl InterfaceType {
    /// The name of the type.
    pub open spec fn kebab_name(self) -> Seq<char> {
        match self {
            InterfaceType::Bond => "bond"@,
            InterfaceType::Dummy => "dummy"@,
            InterfaceType::Ethernet => "ethernet"@,
            InterfaceType::LinuxBridge => "linux-bridge"@,
            InterfaceType::Loopback => "loopback"@,
            InterfaceType::OvsBridge => "ovs-bridge"@,
            InterfaceType::OvsInterface => "ovs-interface"@,
            InterfaceType::Veth => "veth"@,
            InterfaceType::Vlan => "vlan"@,
            InterfaceType::Vrf => "vrf"@,
            InterfaceType::Vxlan => "vxlan"@,
            InterfaceType::WifiCfg => "wifi-cfg"@,
            InterfaceType::WifiPhy => "wifi-phy"@,
            InterfaceType::Wireguard => "wireguard"@,
            InterfaceType::Unknown => "unknown"@,
        }
    }

    /// The name of the type.
    pub fn as_str(&self) -> (res: &'static str)
        ensures
            res@ == self.kebab_name(),
    {
        match self {
            InterfaceType::Bond => "bond",
            InterfaceType::Dummy => "dummy",
            InterfaceType::Ethernet => "ethernet",
            InterfaceType::LinuxBridge => "linux-bridge",
            InterfaceType::Loopback => "loopback",
            InterfaceType::OvsBridge => "ovs-bridge",
            InterfaceType::OvsInterface => "ovs-interface",
            InterfaceType::Veth => "veth",
            InterfaceType::Vlan => "vlan",
            InterfaceType::Vrf => "vrf",
            InterfaceType::Vxlan => "vxlan",
            InterfaceType::WifiCfg => "wifi-cfg",
            InterfaceType::WifiPhy => "wifi-phy",
            InterfaceType::Wireguard => "wireguard",
            InterfaceType::Unknown => "unknown",
        }
    }

    /// The name of the variant.
    pub open spec fn variant(self) -> Seq<char> {
        match self {
            InterfaceType::Bond => "Bond"@,
            InterfaceType::Dummy => "Dummy"@,
            InterfaceType::Ethernet => "Ethernet"@,
            InterfaceType::LinuxBridge => "LinuxBridge"@,
            InterfaceType::Loopback => "Loopback"@,
            InterfaceType::OvsBridge => "OvsBridge"@,
            InterfaceType::OvsInterface => "OvsInterface"@,
            InterfaceType::Veth => "Veth"@,
            InterfaceType::Vlan => "Vlan"@,
            InterfaceType::Vrf => "Vrf"@,
            InterfaceType::Vxlan => "Vxlan"@,
            InterfaceType::WifiCfg => "WifiCfg"@,
            InterfaceType::WifiPhy => "WifiPhy"@,
            InterfaceType::Wireguard => "Wireguard"@,
            InterfaceType::Unknown => "Unknown"@,
        }
    }

    /// The name of the variant.
    pub fn variant_name(&self) -> (res: &'static str)
        ensures
            res@ == self.variant(),
    {
        match self {
            InterfaceType::Bond => "Bond",
            InterfaceType::Dummy => "Dummy",
            InterfaceType::Ethernet => "Ethernet",
            InterfaceType::LinuxBridge => "LinuxBridge",
            InterfaceType::Loopback => "Loopback",
            InterfaceType::OvsBridge => "OvsBridge",
            InterfaceType::OvsInterface => "OvsInterface",
            InterfaceType::Veth => "Veth",
            InterfaceType::Vlan => "Vlan",
            InterfaceType::Vrf => "Vrf",
            InterfaceType::Vxlan => "Vxlan",
            InterfaceType::WifiCfg => "WifiCfg",
            InterfaceType::WifiPhy => "WifiPhy",
            InterfaceType::Wireguard => "Wireguard",
            InterfaceType::Unknown => "Unknown",
        }
    }

    /// Whether interfaces of the type have no counterpart in the kernel.
    pub open spec fn userspace(self) -> bool {
        self is OvsBridge || self is WifiCfg
    }

    /// Whether interfaces of the type have no counterpart in the kernel.
    pub fn is_userspace(&self) -> (res: bool)
        ensures
            res == self.userspace(),
    {
        matches!(self, InterfaceType::OvsBridge | InterfaceType::WifiCfg)
    }

    /// Whether interfaces of the type exist in software only.
    pub open spec fn software(self) -> bool {
        match self {
            InterfaceType::Bond => true,
            InterfaceType::Dummy => true,
            InterfaceType::LinuxBridge => true,
            InterfaceType::OvsBridge => true,
            InterfaceType::OvsInterface => true,
            InterfaceType::Veth => true,
            InterfaceType::Vlan => true,
            InterfaceType::Vrf => true,
            InterfaceType::Vxlan => true,
            InterfaceType::Wireguard => true,
            _ => false,
        }
    }

    /// Whether interfaces of the type exist in software only.
    fn is_software(&self) -> (res: bool)
        ensures
            res == self.software(),
    {
        matches!(self,
            InterfaceType::Bond
            | InterfaceType::Dummy
            | InterfaceType::LinuxBridge
            | InterfaceType::OvsBridge
            | InterfaceType::OvsInterface
            | InterfaceType::Veth
            | InterfaceType::Vlan
            | InterfaceType::Vrf
            | InterfaceType::Vxlan
            | InterfaceType::Wireguard)
    }
}

impl InterfaceState {
    /// Whether the configuration is saved and not applied.
    pub fn is_saved(&self) -> (res: bool)
        ensures
            res == (self is Saved),
    {
        matches!(self, InterfaceState::Saved)
    }
}

impl AltNameEntry {
    /// Whether the name is to be removed.
    pub fn is_absent(&self) -> (res: bool)
        ensures
            res == (self@.state is Some),
    {
        self.state.is_some()
    }
}

/// A defined text in upper case.
pub open spec fn upper(s: Option<Seq<char>>) -> Option<Seq<char>> {
    match s {
        Some(s) => Some(text::ascii_upper(s)),
        None => None,
    }
}

/// A defined text in upper case.
pub fn to_upper(s: &Option<String>) -> (res: Option<String>)
    ensures
        res.deep_view() == upper(s.deep_view()),
{
    match s {
        Some(s) => Some(to_ascii_upper(s.as_str())),
        None => None,
    }
}

/// Whether a defined MAC address differs from the current one. The case of
/// its digits does not count.
pub open spec fn mac_changes(new: Option<Seq<char>>, current: Option<Seq<char>>) -> bool {
    value::changes(upper(new), upper(current))
}

impl BaseInterfaceView {
    /// An interface of which nothing but name and type is known.
    pub open spec fn named(name: Seq<char>, iface_type: InterfaceType) -> BaseInterfaceView {
        BaseInterfaceView {
            name,
            kernel_iface_name: Seq::empty(),
            profile_name: None,
            description: None,
            iface_type,
            state: InterfaceState::Up,
            identifier: None,
            mac_address: None,
            permanent_mac_address: None,
            mtu: None,
            controller: None,
            controller_type: None,
            link_state: None,
            ipv4: None,
            ipv6: None,
            alt_names: None,
        }
    }

    /// Whether the interface is matched by its MAC address.
    pub open spec fn by_mac(self) -> bool {
        self.identifier == Some(InterfaceIdentifier::MacAddress)
    }

    /// The name of the interface in the kernel, else its name.
    pub open spec fn key_name(self) -> Seq<char> {
        if self.kernel_iface_name.len() > 0 {
            self.kernel_iface_name
        } else {
            self.name
        }
    }

    /// Whether the interface is attached to a controller.
    pub open spec fn has_controller(self) -> bool {
        self.controller is Some && self.controller->0.len() > 0
    }

    /// Whether the interface may have IP addresses: the port of a controller
    /// other than a VRF may not.
    pub open spec fn ip_allowed(self) -> bool {
        !self.has_controller() || self.controller_type == Some(InterfaceType::Vrf)
    }

    /// Whether the IPv4 stack is on.
    pub open spec fn ipv4_on(self) -> bool {
        self.ipv4 is Some && self.ipv4->0.on()
    }

    /// Whether the IPv6 stack is on.
    pub open spec fn ipv6_on(self) -> bool {
        self.ipv6 is Some && self.ipv6->0.on()
    }

    /// These properties, or those of `old` where undefined. `previous` is the
    /// configuration that the IP addresses were in effect under.
    pub open spec fn over(
        self,
        old: BaseInterfaceView,
        previous: BaseInterfaceView,
    ) -> BaseInterfaceView {
        BaseInterfaceView {
            name: self.name,
            kernel_iface_name: if self.kernel_iface_name.len() > 0 {
                self.kernel_iface_name
            } else {
                old.kernel_iface_name
            },
            profile_name: value::or(self.profile_name, old.profile_name),
            description: value::or(self.description, old.description),
            iface_type: if self.iface_type is Unknown { old.iface_type } else { self.iface_type },
            state: self.state,
            identifier: value::or(self.identifier, old.identifier),
            mac_address: value::or(self.mac_address, old.mac_address),
            permanent_mac_address: value::or(
                self.permanent_mac_address,
                old.permanent_mac_address,
            ),
            mtu: value::or(self.mtu, old.mtu),
            controller: value::or(self.controller, old.controller),
            controller_type: value::or(self.controller_type, old.controller_type),
            link_state: value::or(self.link_state, old.link_state),
            ipv4: ip::merged_ipv4(self.ipv4, old.ipv4, previous.ipv4),
            ipv6: ip::merged_ipv6(self.ipv6, old.ipv6, previous.ipv6),
            alt_names: value::or(self.alt_names, old.alt_names),
        }
    }

    /// Whether a property that can be applied differs from the current one.
    pub open spec fn differs(self, cur: BaseInterfaceView) -> bool {
        ||| self.state != cur.state
        ||| self.kernel_iface_name.len() > 0 && self.kernel_iface_name != cur.kernel_iface_name
        ||| value::changes(self.profile_name, cur.profile_name)
        ||| value::changes(self.identifier, cur.identifier)
        ||| mac_changes(self.mac_address, cur.mac_address)
        ||| value::changes(self.mtu, cur.mtu)
        ||| value::changes(self.controller, cur.controller)
        ||| self.ipv4 is Some && self.ipv4->0.differs(cur.ipv4)
        ||| self.ipv6 is Some && self.ipv6->0.differs(cur.ipv6)
        ||| value::changes(self.alt_names, cur.alt_names)
    }

    /// The properties that differ from the current ones, besides what
    /// identifies the interface.
    pub open spec fn change_from(self, cur: BaseInterfaceView) -> BaseInterfaceView {
        BaseInterfaceView {
            name: self.name,
            kernel_iface_name: self.kernel_iface_name,
            profile_name: self.profile_name,
            description: None,
            iface_type: self.iface_type,
            state: self.state,
            identifier: self.identifier,
            mac_address: if mac_changes(self.mac_address, cur.mac_address) {
                self.mac_address
            } else {
                None
            },
            permanent_mac_address: None,
            mtu: value::change(self.mtu, cur.mtu),
            controller: value::change(self.controller, cur.controller),
            controller_type: self.controller_type,
            link_state: None,
            ipv4: if self.ipv4 is Some && self.ipv4->0.differs(cur.ipv4) { self.ipv4 } else { None },
            ipv6: if self.ipv6 is Some && self.ipv6->0.differs(cur.ipv6) { self.ipv6 } else { None },
            alt_names: value::change(self.alt_names, cur.alt_names),
        }
    }

    /// With MAC addresses in upper case and the name in the kernel filled in,
    /// where the interface is not matched by its MAC address.
    pub open spec fn normalized(self) -> BaseInterfaceView {
        BaseInterfaceView {
            mac_address: upper(self.mac_address),
            permanent_mac_address: upper(self.permanent_mac_address),
            kernel_iface_name: if self.by_mac() || self.iface_type.userspace() {
                self.kernel_iface_name
            } else {
                self.key_name()
            },
            ..self
        }
    }
}

impl BaseInterface {
    /// An interface of which nothing but name and type is known.
    pub fn new(name: String, iface_type: InterfaceType) -> (res: Self)
        ensures
            res@ == BaseInterfaceView::named(name@, iface_type),
    {
        BaseInterface {
            name,
            kernel_iface_name: String::new(),
            profile_name: None,
            description: None,
            iface_type,
            state: InterfaceState::Up,
            identifier: None,
            mac_address: None,
            permanent_mac_address: None,
            mtu: None,
            controller: None,
            controller_type: None,
            link_state: None,
            ipv4: None,
            ipv6: None,
            alt_names: None,
        }
    }

    /// Whether the interface is matched by its MAC address.
    pub fn is_by_mac(&self) -> (res: bool)
        ensures
            res == self@.by_mac(),
    {
        matches!(self.identifier, Some(InterfaceIdentifier::MacAddress))
    }

    /// The name of the interface in the kernel, else its name.
    pub fn key_name(&self) -> (res: &String)
        ensures
            res@ == self@.key_name(),
    {
        if !self.kernel_iface_name.as_str().is_empty() {
            &self.kernel_iface_name
        } else {
            &self.name
        }
    }

    /// Whether the interface is attached to a controller.
    pub fn has_controller(&self) -> (res: bool)
        ensures
            res == self@.has_controller(),
    {
        match &self.controller {
            Some(controller) => !controller.as_str().is_empty(),
            None => false,
        }
    }

    /// Whether the interface may have IP addresses.
    pub fn can_have_ip(&self) -> (res: bool)
        ensures
            res == self@.ip_allowed(),
    {
        !self.has_controller() || matches!(self.controller_type, Some(InterfaceType::Vrf))
    }

    /// Whether the IPv4 stack is on.
    pub fn is_ipv4_enabled(&self) -> (res: bool)
        ensures
            res == self@.ipv4_on(),
    {
        match &self.ipv4 {
            Some(ipv4) => ipv4.is_enabled(),
            None => false,
        }
    }

    /// Whether the IPv6 stack is on.
    pub fn is_ipv6_enabled(&self) -> (res: bool)
        ensures
            res == self@.ipv6_on(),
    {
        match &self.ipv6 {
            Some(ipv6) => ipv6.is_enabled(),
            None => false,
        }
    }

    /// Takes over how `other` is matched with an interface of the host.
    pub fn copy_identifier_config_from(&mut self, other: &Self)
        ensures
            final(self)@ == (BaseInterfaceView {
                identifier: other@.identifier,
                mac_address: if other@.by_mac() {
                    other@.mac_address
                } else {
                    old(self)@.mac_address
                },
                ..old(self)@
            }),
    {
        self.identifier = other.identifier;
        if other.is_by_mac() {
            self.mac_address = other.mac_address.dup();
        }
    }

    /// These properties, or those of `old` where undefined.
    pub fn merge(&self, old_base: &Self, previous: &Self) -> (res: Self)
        ensures
            res@ == self@.over(old_base@, previous@),
    {
        BaseInterface {
            name: self.name.dup(),
            kernel_iface_name: if !self.kernel_iface_name.as_str().is_empty() {
                self.kernel_iface_name.dup()
            } else {
                old_base.kernel_iface_name.dup()
            },
            profile_name: or_dup(&self.profile_name, &old_base.profile_name),
            description: or_dup(&self.description, &old_base.description),
            iface_type: if matches!(self.iface_type, InterfaceType::Unknown) {
                old_base.iface_type
            } else {
                self.iface_type
            },
            state: self.state,
            identifier: or_dup(&self.identifier, &old_base.identifier),
            mac_address: or_dup(&self.mac_address, &old_base.mac_address),
            permanent_mac_address: or_dup(
                &self.permanent_mac_address,
                &old_base.permanent_mac_address,
            ),
            mtu: or_dup(&self.mtu, &old_base.mtu),
            controller: or_dup(&self.controller, &old_base.controller),
            controller_type: or_dup(&self.controller_type, &old_base.controller_type),
            link_state: or_dup(&self.link_state, &old_base.link_state),
            ipv4: merge_ipv4(&self.ipv4, &old_base.ipv4, &previous.ipv4),
            ipv6: merge_ipv6(&self.ipv6, &old_base.ipv6, &previous.ipv6),
            alt_names: or_dup(&self.alt_names, &old_base.alt_names),
        }
    }

    fn is_mac_change(&self, cur: &Self) -> (res: bool)
        ensures
            res == mac_changes(self@.mac_address, cur@.mac_address),
    {
        is_change(&to_upper(&self.mac_address), &to_upper(&cur.mac_address))
    }

    fn is_ipv4_change(&self, cur: &Self) -> (res: bool)
        ensures
            res == (self@.ipv4 is Some && self@.ipv4->0.differs(cur@.ipv4)),
    {
        match &self.ipv4 {
            Some(ipv4) => ipv4.is_changed(&cur.ipv4),
            None => false,
        }
    }

    fn is_ipv6_change(&self, cur: &Self) -> (res: bool)
        ensures
            res == (self@.ipv6 is Some && self@.ipv6->0.differs(cur@.ipv6)),
    {
        match &self.ipv6 {
            Some(ipv6) => ipv6.is_changed(&cur.ipv6),
            None => false,
        }
    }

    /// Whether a property that can be applied differs from the current one.
    pub fn is_changed(&self, cur: &Self) -> (res: bool)
        ensures
            res == self@.differs(cur@),
    {
        self.state != cur.state || (!self.kernel_iface_name.as_str().is_empty()
            && !self.kernel_iface_name.same(&cur.kernel_iface_name)) || is_change(
            &self.profile_name,
            &cur.profile_name,
        ) || is_change(&self.identifier, &cur.identifier) || self.is_mac_change(cur) || is_change(
            &self.mtu,
            &cur.mtu,
        ) || is_change(&self.controller, &cur.controller) || self.is_ipv4_change(cur)
            || self.is_ipv6_change(cur) || is_change(&self.alt_names, &cur.alt_names)
    }

    /// The properties that differ from the current ones.
    pub fn gen_change(&self, cur: &Self) -> (res: Self)
        ensures
            res@ == self@.change_from(cur@),
    {
        BaseInterface {
            name: self.name.dup(),
            kernel_iface_name: self.kernel_iface_name.dup(),
            profile_name: self.profile_name.dup(),
            description: None,
            iface_type: self.iface_type,
            state: self.state,
            identifier: self.identifier,
            mac_address: if self.is_mac_change(cur) {
                self.mac_address.dup()
            } else {
                None
            },
            permanent_mac_address: None,
            mtu: change_dup(&self.mtu, &cur.mtu),
            controller: change_dup(&self.controller, &cur.controller),
            controller_type: self.controller_type,
            link_state: None,
            ipv4: if self.is_ipv4_change(cur) {
                self.ipv4.dup()
            } else {
                None
            },
            ipv6: if self.is_ipv6_change(cur) {
                self.ipv6.dup()
            } else {
                None
            },
            alt_names: change_dup(&self.alt_names, &cur.alt_names),
        }
    }

    /// Puts MAC addresses in upper case and fills in the name in the kernel.
    pub fn normalize(&mut self)
        ensures
            final(self)@ == old(self)@.normalized(),
    {
        self.mac_address = to_upper(&self.mac_address);
        self.permanent_mac_address = to_upper(&self.permanent_mac_address);
        if !self.is_by_mac() && !self.iface_type.is_userspace() {
            self.kernel_iface_name = self.key_name().dup();
        }
    }

    /// Finishes what is to be saved, applied and verified for this desired
    /// configuration, and the merged state.
    ///
    /// MAC addresses are put in upper case; the one of the hardware stays in
    /// the merged state only. The IP configuration to apply is the whole one
    /// that is saved, and no part of it.
    pub fn sanitize(
        &self,
        current: Option<&Self>,
        saved: Option<&Self>,
        for_save: &mut Self,
        for_apply: &mut Self,
        for_verify: &mut Self,
        merged: &mut Self,
    ) -> (res: Result<(), NipartError>)
        ensures
            match ips_to_save(
                self@,
                old(for_save)@,
                option_base(saved),
                option_base(current),
            ) {
                Err(e) => res is Err && res->Err_0@ == e && final(for_save)@ == old(for_save)@
                    && final(for_apply)@ == old(for_apply)@ && final(for_verify)@ == old(
                    for_verify,
                )@ && final(merged)@ == old(merged)@,
                Ok(ips) => res is Ok && final(for_save)@ == saved_base(old(for_save)@, ips)
                    && final(for_apply)@ == applied_base(
                    old(for_apply)@,
                    old(for_apply)@.ipv4 is Some,
                    old(for_apply)@.ipv6 is Some,
                    ips,
                ) && final(for_verify)@ == applied_base(
                    old(for_verify)@,
                    old(for_apply)@.ipv4 is Some,
                    old(for_apply)@.ipv6 is Some,
                    ips,
                ) && final(merged)@ == old(merged)@.normalized(),
            },
    {
        let (ipv4, ipv6) = match self.gen_ips_to_save(for_save, saved, current) {
            Ok(ips) => ips,
            Err(e) => {
                return Err(e);
            },
        };
        let with_ipv4 = for_apply.ipv4.is_some();
        let with_ipv6 = for_apply.ipv6.is_some();
        for_apply.finish_for_apply(with_ipv4, with_ipv6, &ipv4, &ipv6);
        for_verify.finish_for_apply(with_ipv4, with_ipv6, &ipv4, &ipv6);
        for_save.finish_for_save(ipv4, ipv6);
        merged.normalize();
        Ok(())
    }

    /// The IP configuration to save.
    fn gen_ips_to_save(
        &self,
        for_save: &Self,
        saved: Option<&Self>,
        current: Option<&Self>,
    ) -> (res: Result<(Option<InterfaceIpv4>, Option<InterfaceIpv6>), NipartError>)
        ensures
            error::same_result(
                res,
                ips_to_save(self@, for_save@, option_base(saved), option_base(current)),
            ),
    {
        let (saved_ipv4, saved_ipv6) = match saved {
            Some(saved) => (saved.ipv4.dup(), saved.ipv6.dup()),
            None => (None, None),
        };
        let (current_ipv4, current_ipv6) = match current {
            Some(current) => (current.ipv4.dup(), current.ipv6.dup()),
            None => (None, None),
        };
        let mut ipv4 = if self.ipv4.is_some() {
            merge_ipv4(&self.ipv4, &saved_ipv4, &or_dup(&saved_ipv4, &current_ipv4))
        } else {
            for_save.ipv4.dup()
        };
        let mut ipv6 = if self.ipv6.is_some() {
            merge_ipv6(&self.ipv6, &saved_ipv6, &or_dup(&saved_ipv6, &current_ipv6))
        } else {
            for_save.ipv6.dup()
        };
        if let Some(mut ip) = ipv4 {
            if let Err(e) = ip.sanitize() {
                return Err(e);
            }
            ipv4 = Some(ip);
        }
        if let Some(mut ip) = ipv6 {
            ip.sanitize();
            ipv6 = Some(ip);
        }
        Ok((ipv4, ipv6))
    }

    /// Finishes what is saved.
    fn finish_for_save(&mut self, ipv4: Option<InterfaceIpv4>, ipv6: Option<InterfaceIpv6>)
        ensures
            final(self)@ == saved_base(old(self)@, (ipv4.deep_view(), ipv6.deep_view())),
    {
        self.ipv4 = ipv4;
        self.ipv6 = ipv6;
        self.mac_address = to_upper(&self.mac_address);
        self.permanent_mac_address = None;
    }

    /// Finishes what is applied or verified.
    fn finish_for_apply(
        &mut self,
        with_ipv4: bool,
        with_ipv6: bool,
        ipv4: &Option<InterfaceIpv4>,
        ipv6: &Option<InterfaceIpv6>,
    )
        ensures
            final(self)@ == applied_base(
                old(self)@,
                with_ipv4,
                with_ipv6,
                (ipv4.deep_view(), ipv6.deep_view()),
            ),
    {
        self.normalize();
        if with_ipv4 {
            self.ipv4 = ipv4.dup();
        }
        if with_ipv6 {
            self.ipv6 = ipv6.dup();
        }
        self.permanent_mac_address = None;
        self.description = None;
    }
}

/// What a borrowed interface stands for.
pub open spec fn option_base(base: Option<&BaseInterface>) -> Option<BaseInterfaceView> {
    match base {
        Some(base) => Some(base@),
        None => None,
    }
}

/// The IPv4 configuration of an interface, if there is one.
pub open spec fn ipv4_of(base: Option<BaseInterfaceView>) -> Option<InterfaceIpv4View> {
    match base {
        Some(base) => base.ipv4,
        None => None,
    }
}

/// The IPv6 configuration of an interface, if there is one.
pub open spec fn ipv6_of(base: Option<BaseInterfaceView>) -> Option<InterfaceIpv6View> {
    match base {
        Some(base) => base.ipv6,
        None => None,
    }
}

/// The IP configuration to save: the desired one over the saved one, else what
/// `for_save` holds.
pub open spec fn ips_to_save(
    desired: BaseInterfaceView,
    for_save: BaseInterfaceView,
    saved: Option<BaseInterfaceView>,
    current: Option<BaseInterfaceView>,
) -> Result<(Option<InterfaceIpv4View>, Option<InterfaceIpv6View>), NipartErrorView> {
    let ipv4 = if desired.ipv4 is Some {
        ip::merged_ipv4(
            desired.ipv4,
            ipv4_of(saved),
            value::or(ipv4_of(saved), ipv4_of(current)),
        )
    } else {
        for_save.ipv4
    };
    let ipv6 = if desired.ipv6 is Some {
        ip::merged_ipv6(
            desired.ipv6,
            ipv6_of(saved),
            value::or(ipv6_of(saved), ipv6_of(current)),
        )
    } else {
        for_save.ipv6
    };
    let sanitized_ipv6 = match ipv6 {
        Some(ipv6) => Some(ipv6.sanitized()),
        None => None,
    };
    match ipv4 {
        None => Ok((None, sanitized_ipv6)),
        Some(ipv4) => match ipv4.sanitized() {
            Ok(ipv4) => Ok((Some(ipv4), sanitized_ipv6)),
            Err(e) => Err(e),
        },
    }
}

/// What is saved of an interface.
pub open spec fn saved_base(
    for_save: BaseInterfaceView,
    ips: (Option<InterfaceIpv4View>, Option<InterfaceIpv6View>),
) -> BaseInterfaceView {
    BaseInterfaceView {
        mac_address: upper(for_save.mac_address),
        permanent_mac_address: None,
        ipv4: ips.0,
        ipv6: ips.1,
        ..for_save
    }
}

/// What is applied or verified of an interface. The IP configuration is the
/// whole one where there is any to apply.
pub open spec fn applied_base(
    base: BaseInterfaceView,
    with_ipv4: bool,
    with_ipv6: bool,
    ips: (Option<InterfaceIpv4View>, Option<InterfaceIpv6View>),
) -> BaseInterfaceView {
    BaseInterfaceView {
        permanent_mac_address: None,
        description: None,
        ipv4: if with_ipv4 { ips.0 } else { base.ipv4 },
        ipv6: if with_ipv6 { ips.1 } else { base.ipv6 },
        ..base.normalized()
    }
}

impl InterfaceView {
    /// An interface of which nothing is known.
    pub open spec fn unknown() -> InterfaceView {
        InterfaceView::of_base(BaseInterfaceView::named(Seq::empty(), InterfaceType::Unknown))
    }

    /// An interface without sections of its type.
    pub open spec fn of_base(base: BaseInterfaceView) -> InterfaceView {
        InterfaceView {
            base,
            veth: None,
            wifi: None,
            parent: None,
            ports: None,
            vrf_table_id: None,
            private_key: None,
        }
    }

    /// What identifies the interface, and its state.
    pub open spec fn identity(self) -> InterfaceView {
        InterfaceView::of_base(
            BaseInterfaceView {
                kernel_iface_name: self.base.kernel_iface_name,
                profile_name: self.base.profile_name,
                identifier: self.base.identifier,
                state: self.base.state,
                ..BaseInterfaceView::named(self.base.name, self.base.iface_type)
            },
        )
    }

    /// Whether the interface exists in software only.
    pub open spec fn is_software(self) -> bool {
        self.base.iface_type.software() || self.veth is Some
    }

    /// These properties, or those of `old` where undefined.
    pub open spec fn over(self, old: InterfaceView, previous: InterfaceView) -> InterfaceView {
        InterfaceView {
            base: self.base.over(old.base, previous.base),
            veth: value::or(self.veth, old.veth),
            wifi: value::or(self.wifi, old.wifi),
            parent: value::or(self.parent, old.parent),
            ports: value::or(self.ports, old.ports),
            vrf_table_id: value::or(self.vrf_table_id, old.vrf_table_id),
            private_key: value::or(self.private_key, old.private_key),
        }
    }

    /// Whether a property that can be applied differs from the current one.
    pub open spec fn differs(self, cur: InterfaceView) -> bool {
        ||| self.base.differs(cur.base)
        ||| value::changes(self.veth, cur.veth)
        ||| value::changes(self.wifi, cur.wifi)
        ||| value::changes(self.parent, cur.parent)
        ||| value::changes(self.ports, cur.ports)
        ||| value::changes(self.vrf_table_id, cur.vrf_table_id)
        ||| value::changes(self.private_key, cur.private_key)
    }

    /// The properties that differ from the current ones.
    pub open spec fn change_from(self, cur: InterfaceView) -> InterfaceView {
        InterfaceView {
            base: self.base.change_from(cur.base),
            veth: value::change(self.veth, cur.veth),
            wifi: value::change(self.wifi, cur.wifi),
            parent: value::change(self.parent, cur.parent),
            ports: value::change(self.ports, cur.ports),
            vrf_table_id: value::change(self.vrf_table_id, cur.vrf_table_id),
            private_key: value::change(self.private_key, cur.private_key),
        }
    }

    /// With every secret replaced.
    pub open spec fn secrets_hidden(self) -> InterfaceView {
        InterfaceView {
            wifi: match self.wifi {
                Some(wifi) if wifi.password is Some => Some(
                    WifiConfigView { password: Some(Interface::HIDE_SECRET_STR@), ..wifi },
                ),
                _ => self.wifi,
            },
            private_key: if self.private_key is Some {
                Some(Interface::HIDE_SECRET_STR@)
            } else {
                None
            },
            ..self
        }
    }

    /// Whether the interface holds a secret.
    pub open spec fn has_secret(self) -> bool {
        self.private_key is Some || (self.wifi is Some && self.wifi->0.password is Some)
    }

    /// What identifies the interface, and the sections that hold its secrets.
    pub open spec fn secret_part(self) -> InterfaceView {
        InterfaceView {
            wifi: match self.wifi {
                Some(wifi) if wifi.password is Some => self.wifi,
                _ => None,
            },
            private_key: self.private_key,
            ..self.identity()
        }
    }
}

impl Interface {
    /// What a secret is replaced with.
    pub const HIDE_SECRET_STR: &'static str = "<_password_hid_by_nipart>";

    /// An interface of which nothing is known.
    pub fn new_unknown() -> (res: Self)
        ensures
            res@ == InterfaceView::unknown(),
    {
        Self::from_base(BaseInterface::new(String::new(), InterfaceType::Unknown))
    }

    /// An interface without sections of its type.
    pub fn from_base(base: BaseInterface) -> (res: Self)
        ensures
            res@ == InterfaceView::of_base(base@),
    {
        Interface {
            base,
            veth: None,
            wifi: None,
            parent: None,
            ports: None,
            vrf_table_id: None,
            private_key: None,
        }
    }

    pub fn name(&self) -> (res: &str)
        ensures
            res@ == self@.base.name,
    {
        self.base.name.as_str()
    }

    pub fn kernel_iface_name(&self) -> (res: &str)
        ensures
            res@ == self@.base.kernel_iface_name,
    {
        self.base.kernel_iface_name.as_str()
    }

    pub fn iface_type(&self) -> (res: InterfaceType)
        ensures
            res == self@.base.iface_type,
    {
        self.base.iface_type
    }

    pub fn base_iface(&self) -> (res: &BaseInterface)
        ensures
            res@ == self@.base,
    {
        &self.base
    }

    pub fn is_userspace(&self) -> (res: bool)
        ensures
            res == self@.base.iface_type.userspace(),
    {
        self.base.iface_type.is_userspace()
    }

    /// Whether the interface exists in software only.
    pub fn is_virtual(&self) -> (res: bool)
        ensures
            res == self@.is_software(),
    {
        self.base.iface_type.is_software() || self.veth.is_some()
    }

    pub fn is_up(&self) -> (res: bool)
        ensures
            res == (self@.base.state is Up),
    {
        matches!(self.base.state, InterfaceState::Up)
    }

    pub fn is_down(&self) -> (res: bool)
        ensures
            res == (self@.base.state is Down),
    {
        matches!(self.base.state, InterfaceState::Down)
    }

    pub fn is_absent(&self) -> (res: bool)
        ensures
            res == (self@.base.state is Absent),
    {
        matches!(self.base.state, InterfaceState::Absent)
    }

    pub fn is_ignore(&self) -> (res: bool)
        ensures
            res == (self@.base.state is Ignore),
    {
        matches!(self.base.state, InterfaceState::Ignore)
    }

    /// The name and the type of the interface.
    pub fn name_and_type(&self) -> (res: (String, InterfaceType))
        ensures
            res.deep_view() == (self@.base.name, self@.base.iface_type),
    {
        (self.base.name.dup(), self.base.iface_type)
    }

    /// What identifies the interface, and its state.
    pub fn clone_identity(&self) -> (res: Self)
        ensures
            res@ == self@.identity(),
    {
        let mut base = BaseInterface::new(self.base.name.dup(), self.base.iface_type);
        base.kernel_iface_name = self.base.kernel_iface_name.dup();
        base.profile_name = self.base.profile_name.dup();
        base.identifier = self.base.identifier;
        base.state = self.base.state;
        Self::from_base(base)
    }

    /// These properties, or those of `old` where undefined.
    pub fn merge_over(&self, old_iface: &Self, previous: &Self) -> (res: Self)
        ensures
            res@ == self@.over(old_iface@, previous@),
    {
        Interface {
            base: self.base.merge(&old_iface.base, &previous.base),
            veth: or_dup(&self.veth, &old_iface.veth),
            wifi: or_dup(&self.wifi, &old_iface.wifi),
            parent: or_dup(&self.parent, &old_iface.parent),
            ports: or_dup(&self.ports, &old_iface.ports),
            vrf_table_id: or_dup(&self.vrf_table_id, &old_iface.vrf_table_id),
            private_key: or_dup(&self.private_key, &old_iface.private_key),
        }
    }

    /// Whether a property that can be applied differs from the current one.
    pub fn is_changed(&self, cur: &Self) -> (res: bool)
        ensures
            res == self@.differs(cur@),
    {
        self.base.is_changed(&cur.base) || is_change(&self.veth, &cur.veth) || is_change(
            &self.wifi,
            &cur.wifi,
        ) || is_change(&self.parent, &cur.parent) || is_change(&self.ports, &cur.ports)
            || is_change(&self.vrf_table_id, &cur.vrf_table_id) || is_change(
            &self.private_key,
            &cur.private_key,
        )
    }

    /// The properties that differ from the current ones.
    pub fn gen_change(&self, cur: &Self) -> (res: Self)
        ensures
            res@ == self@.change_from(cur@),
    {
        Interface {
            base: self.base.gen_change(&cur.base),
            veth: change_dup(&self.veth, &cur.veth),
            wifi: change_dup(&self.wifi, &cur.wifi),
            parent: change_dup(&self.parent, &cur.parent),
            ports: change_dup(&self.ports, &cur.ports),
            vrf_table_id: change_dup(&self.vrf_table_id, &cur.vrf_table_id),
            private_key: change_dup(&self.private_key, &cur.private_key),
        }
    }

    /// Replaces every secret.
    pub fn hide_secrets(&mut self)
        ensures
            final(self)@ == old(self)@.secrets_hidden(),
    {
        if let Some(wifi) = self.wifi.dup() {
            if wifi.password.is_some() {
                let mut wifi = wifi;
                wifi.password = Some(Self::HIDE_SECRET_STR.to_owned());
                self.wifi = Some(wifi);
            }
        }
        if self.private_key.is_some() {
            self.private_key = Some(Self::HIDE_SECRET_STR.to_owned());
        }
    }

    /// Whether the interface holds a secret.
    pub fn has_secret(&self) -> (res: bool)
        ensures
            res == self@.has_secret(),
    {
        self.private_key.is_some() || match &self.wifi {
            Some(wifi) => wifi.password.is_some(),
            None => false,
        }
    }

    /// What identifies the interface, and the sections that hold its secrets.
    pub fn clone_secret_part(&self) -> (res: Self)
        ensures
            res@ == self@.secret_part(),
    {
        let mut res = self.clone_identity();
        if let Some(wifi) = &self.wifi {
            if wifi.password.is_some() {
                res.wifi = self.wifi.dup();
            }
        }
        res.private_key = self.private_key.dup();
        res
    }
}

/// An interface does not differ from itself.
pub proof fn law_no_difference(iface: InterfaceView)
    ensures
        !iface.differs(iface),
{
}

/// Replacing the secrets of an interface twice is the same as once.
pub proof fn law_secrets_hidden(iface: InterfaceView)
    ensures
        iface.secrets_hidden().secrets_hidden() == iface.secrets_hidden(),
{
}

/// Nothing is lost when the secrets of an interface are kept apart: its secret
/// part over what is left of it is the interface again.
pub proof fn law_secret_part(iface: InterfaceView)
    ensures
        iface.secret_part().over(iface.secrets_hidden(), iface.secrets_hidden()) == iface,
        iface.secrets_hidden().has_secret() == iface.has_secret(),
{
}

} // verus!
